//! Identifiers of sessions, messages and approvals.

use vstd::arithmetic::power::pow;
use vstd::prelude::*;

use crate::text::digit;

verus! {

/// A 128-bit identifier.
#[derive(Debug, Clone, Copy, PartialEq, Eq, Structural, Hash)]
pub struct Uuid {
    pub bits: u128,
}

/// The namespace for names that are object identifiers.
pub const NAMESPACE_OID: u128 = 0x6ba7b812_9dad_11d1_80b4_00c04fd430c8;

/// The hexadecimal digits of an identifier from one position up to another,
/// counted from its most significant end.
pub open spec fn hex_run(bits: u128, from: int, to: int) -> Seq<char> {
    Seq::new((to - from) as nat, |i: int| digit((bits as int / pow(16, (31 - from - i) as nat)) % 16))
}

/// The hyphenated text of an identifier.
pub open spec fn hyphenated(bits: u128) -> Seq<char> {
    hex_run(bits, 0, 8) + seq!['-'] + hex_run(bits, 8, 12) + seq!['-'] + hex_run(bits, 12, 16)
        + seq!['-'] + hex_run(bits, 16, 20) + seq!['-'] + hex_run(bits, 20, 32)
}

/// The identifier that the `uuid` crate derives from a name in a namespace.
pub uninterp spec fn name_based(namespace: u128, name: Seq<u8>) -> u128;

/// `Uuid::to_string` of the `uuid` crate: the thirty-two lower-case
/// hexadecimal digits, most significant first, with a hyphen after the eighth,
/// twelfth, sixteenth and twentieth.
#[verifier::external_body]
fn uuid_text(bits: u128) -> (r: String)
    ensures
        r@ == hyphenated(bits),
{
    uuid::Uuid::from_u128(bits).to_string()
}

/// `Uuid::new_v5` of the `uuid` crate: a function of the namespace and of the
/// bytes of the name.
#[verifier::external_body]
fn uuid_v5(namespace: u128, name: &[u8]) -> (r: u128)
    ensures
        r == name_based(namespace, name@),
{
    uuid::Uuid::new_v5(&uuid::Uuid::from_u128(namespace), name).as_u128()
}

impl Uuid {
    /// The hyphenated text of the identifier.
    pub open spec fn text(self) -> Seq<char> {
        hyphenated(self.bits)
    }

    /// The hyphenated text of the identifier.
    pub fn to_text(&self) -> (r: String)
        ensures
            r@ == self.text(),
    {
        uuid_text(self.bits)
    }

    /// The identifier of a name in a namespace.
    pub fn new_v5(namespace: &Uuid, name: &[u8]) -> (r: Uuid)
        ensures
            r.bits == name_based(namespace.bits, name@),
    {
        Uuid { bits: uuid_v5(namespace.bits, name) }
    }
}

/// The text of an identifier has thirty-six characters: its digits, and hyphens
/// behind the eighth, the twelfth, the sixteenth and the twentieth digit.
pub proof fn identifiers_are_hyphenated(id: Uuid)
    ensures
        id.text() == hyphenated(id.bits),
        id.text().len() == 36,
        id.text()[8] == '-' && id.text()[13] == '-' && id.text()[18] == '-' && id.text()[23]
            == '-',
        forall|i: int|
            0 <= i < 8 ==> #[trigger] id.text()[i] == digit(
                (id.bits as int / pow(16, (31 - i) as nat)) % 16,
            ),
        forall|i: int|
            24 <= i < 36 ==> #[trigger] id.text()[i] == digit(
                (id.bits as int / pow(16, (35 - i) as nat)) % 16,
            ),
{
}

}
