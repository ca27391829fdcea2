//! JSON values: a tree the library can read, its mathematical model, and the
//! passage to and from the trees, the parser and the printer of `serde_json`.

use vstd::prelude::*;
use vstd::utf8::encode_utf8;

use crate::text::{text_before, text_eq, text_is_before};
use crate::text::{text_before_irreflexive, text_before_total, text_before_transitive};

verus! {

// ── The outside types ────────────────────────────────────────────────

/// A JSON tree of `serde_json`, opaque here.
#[verifier::external_type_specification]
#[verifier::external_body]
pub struct ExValue(serde_json::Value);

/// A JSON number of `serde_json`: an integer or a finite float.
#[verifier::external_type_specification]
#[verifier::external_body]
pub struct ExNumber(serde_json::Number);

/// The integer that a number is, or `None` for a float.
pub uninterp spec fn number_int(n: serde_json::Number) -> Option<int>;

/// The number of an unsigned integer.
pub uninterp spec fn number_of(u: u64) -> serde_json::Number;

/// What a tree of `serde_json` holds.
pub uninterp spec fn json_of(v: serde_json::Value) -> JsonView;

/// What `serde_json` reads from a text: the value, or the error it reports.
pub uninterp spec fn json_parse(text: Seq<u8>) -> Result<JsonView, Seq<char>>;

/// The compact text that `serde_json` prints for a value.
pub uninterp spec fn json_text(v: JsonView) -> Seq<char>;

/// The indented text that `serde_json` prints for a value.
pub uninterp spec fn json_pretty(v: JsonView) -> Seq<char>;

// ── The model ────────────────────────────────────────────────────────

/// The mathematical content of a JSON value. An object is the sequence of its
/// members in ascending order of their keys.
#[verifier::ext_equal]
pub enum JsonView {
    Null,
    Bool(bool),
    Number(serde_json::Number),
    String(Seq<char>),
    Array(Seq<JsonView>),
    Object(Seq<(Seq<char>, JsonView)>),
}

/// Members in strictly ascending order of their keys.
pub open spec fn keys_ascend(m: Seq<(Seq<char>, JsonView)>) -> bool {
    forall|i: int, j: int|
        0 <= i < j < m.len() ==> text_before((#[trigger] m[i]).0, (#[trigger] m[j]).0)
}

/// The member under a key.
pub open spec fn obj_get(m: Seq<(Seq<char>, JsonView)>, key: Seq<char>) -> Option<JsonView>
    decreases m.len(),
{
    if m.len() == 0 {
        None
    } else if m.last().0 == key {
        Some(m.last().1)
    } else {
        obj_get(m.drop_last(), key)
    }
}

/// The members without the one under a key.
pub open spec fn obj_remove(m: Seq<(Seq<char>, JsonView)>, key: Seq<char>) -> Seq<
    (Seq<char>, JsonView),
>
    decreases m.len(),
{
    if m.len() == 0 {
        m
    } else if m.last().0 == key {
        obj_remove(m.drop_last(), key)
    } else {
        obj_remove(m.drop_last(), key).push(m.last())
    }
}

/// The members with one set: it replaces the one under the same key, or takes
/// its place in key order.
pub open spec fn obj_insert(
    m: Seq<(Seq<char>, JsonView)>,
    key: Seq<char>,
    value: JsonView,
) -> Seq<(Seq<char>, JsonView)>
    decreases m.len(),
{
    if m.len() == 0 {
        seq![(key, value)]
    } else if m.last().0 == key {
        m.drop_last().push((key, value))
    } else if text_before(m.last().0, key) {
        m.push((key, value))
    } else {
        obj_insert(m.drop_last(), key, value).push(m.last())
    }
}

/// The object with the given members, set one after the other.
pub open spec fn obj_of(members: Seq<(Seq<char>, JsonView)>) -> Seq<(Seq<char>, JsonView)>
    decreases members.len(),
{
    if members.len() == 0 {
        Seq::empty()
    } else {
        obj_insert(obj_of(members.drop_last()), members.last().0, members.last().1)
    }
}

impl JsonView {
    /// The member of an object, `None` for any other value.
    pub open spec fn get(self, key: Seq<char>) -> Option<JsonView> {
        match self {
            JsonView::Object(m) => obj_get(m, key),
            _ => None,
        }
    }

    /// The characters of a string value.
    pub open spec fn as_str(self) -> Option<Seq<char>> {
        match self {
            JsonView::String(s) => Some(s),
            _ => None,
        }
    }

    /// The value of a number that is an unsigned 64-bit integer.
    pub open spec fn as_u64(self) -> Option<u64> {
        match self {
            JsonView::Number(n) => number_as_u64(n),
            _ => None,
        }
    }
}

/// A number as an unsigned 64-bit integer.
pub open spec fn number_as_u64(n: serde_json::Number) -> Option<u64> {
    match number_int(n) {
        Some(i) => if 0 <= i <= u64::MAX {
            Some(i as u64)
        } else {
            None
        },
        None => None,
    }
}

// ── The tree ─────────────────────────────────────────────────────────

/// A JSON value.
#[derive(Debug)]
pub enum Json {
    Null,
    Bool(bool),
    Number(serde_json::Number),
    String(String),
    Array(Vec<Json>),
    Object(Object),
}

/// The members of a JSON object, kept in ascending order of their keys.
#[derive(Debug)]
pub struct Object {
    entries: Vec<(String, Json)>,
}

impl Json {
    /// What the value holds.
    pub open spec fn view(&self) -> JsonView
        decreases self,
    {
        match self {
            Json::Null => JsonView::Null,
            Json::Bool(b) => JsonView::Bool(*b),
            Json::Number(n) => JsonView::Number(*n),
            Json::String(s) => JsonView::String(s@),
            Json::Array(a) => JsonView::Array(Json::views(a@)),
            Json::Object(m) => JsonView::Object(m.view()),
        }
    }

    /// What each value holds.
    pub open spec fn views(s: Seq<Json>) -> Seq<JsonView>
        decreases s,
    {
        Seq::new(
            s.len(),
            |i: int|
                if 0 <= i < s.len() {
                    s[i].view()
                } else {
                    JsonView::Null
                },
        )
    }
}

/// What an optional value holds.
pub open spec fn opt_view(j: Option<Json>) -> Option<JsonView> {
    match j {
        Some(v) => Some(v.view()),
        None => None,
    }
}

impl Object {
    /// The members the object holds.
    pub closed spec fn view(&self) -> Seq<(Seq<char>, JsonView)>
        decreases self,
    {
        Object::entries_view(self.entries@)
    }

    /// What each member holds.
    pub open spec fn entries_view(s: Seq<(String, Json)>) -> Seq<(Seq<char>, JsonView)>
        decreases s,
    {
        Seq::new(
            s.len(),
            |i: int|
                if 0 <= i < s.len() {
                    (s[i].0@, s[i].1.view())
                } else {
                    (Seq::<char>::empty(), JsonView::Null)
                },
        )
    }

    #[verifier::type_invariant]
    spec fn ordered(&self) -> bool {
        keys_ascend(Object::entries_view(self.entries@))
    }
}

impl Clone for Json {
    fn clone(&self) -> (r: Self)
        ensures
            r.view() == self.view(),
        decreases self,
    {
        match self {
            Json::Null => Json::Null,
            Json::Bool(b) => Json::Bool(*b),
            Json::Number(n) => Json::Number(n.clone()),
            Json::String(s) => Json::String(s.clone()),
            Json::Array(a) => Json::Array(clone_all(a)),
            Json::Object(m) => Json::Object(m.clone()),
        }
    }
}

/// Copies each value.
fn clone_all(a: &Vec<Json>) -> (r: Vec<Json>)
    ensures
        Json::views(r@) == Json::views(a@),
    decreases a,
{
    let mut out: Vec<Json> = Vec::new();
    let mut i: usize = 0;
    while i < a.len()
        invariant
            i <= a@.len(),
            out@.len() == i,
            forall|k: int| 0 <= k < i ==> (#[trigger] out@[k]).view() == a@[k].view(),
        decreases a.len() - i,
    {
        out.push(a[i].clone());
        i = i + 1;
    }
    proof {
        assert(Json::views(out@) =~= Json::views(a@));
    }
    out
}

impl Clone for Object {
    fn clone(&self) -> (r: Self)
        ensures
            r.view() == self.view(),
        decreases self,
    {
        proof {
            use_type_invariant(self);
        }
        let mut out: Vec<(String, Json)> = Vec::new();
        let mut i: usize = 0;
        while i < self.entries.len()
            invariant
                i <= self.entries@.len(),
                out@.len() == i,
                forall|k: int|
                    0 <= k < i ==> (#[trigger] out@[k]).0 == self.entries@[k].0 && out@[k].1.view()
                        == self.entries@[k].1.view(),
            decreases self.entries.len() - i,
        {
            let e = &self.entries[i];
            out.push((e.0.clone(), e.1.clone()));
            i = i + 1;
        }
        proof {
            assert(Object::entries_view(out@) =~= Object::entries_view(self.entries@));
        }
        Object { entries: out }
    }
}

// ── Passage to and from `serde_json` ─────────────────────────────────

/// One level of a tree of `serde_json`.
enum Node {
    Null,
    Bool(bool),
    Number(serde_json::Number),
    String(String),
    Array(Vec<serde_json::Value>),
    Object(Vec<(String, serde_json::Value)>),
}

/// What a level and the trees below it hold.
spec fn node_view(n: Node) -> JsonView {
    match n {
        Node::Null => JsonView::Null,
        Node::Bool(b) => JsonView::Bool(b),
        Node::Number(n) => JsonView::Number(n),
        Node::String(s) => JsonView::String(s@),
        Node::Array(a) => JsonView::Array(Seq::new(a@.len(), |i: int| json_of(a@[i]))),
        Node::Object(m) => JsonView::Object(members_view(m@)),
    }
}

/// What the members of one level hold.
spec fn members_view(m: Seq<(String, serde_json::Value)>) -> Seq<(Seq<char>, JsonView)> {
    Seq::new(m.len(), |i: int| (m[i].0@, json_of(m[i].1)))
}

/// `Clone::clone` of `serde_json::Number`: the copy is the same number.
pub assume_specification[ <serde_json::Number as Clone>::clone ](
    n: &serde_json::Number,
) -> (r: serde_json::Number)
    ensures
        r == *n,
;

/// `serde_json::Number::as_u64`: the number where it is an integer between
/// zero and the largest `u64`.
pub assume_specification[ serde_json::Number::as_u64 ](n: &serde_json::Number) -> (r: Option<u64>)
    ensures
        r == number_as_u64(*n),
;

/// `serde_json::Number::from(u64)`: the number is that integer.
#[verifier::external_body]
fn number_from(u: u64) -> (n: serde_json::Number)
    ensures
        n == number_of(u),
        number_int(n) == Some(u as int),
{
    serde_json::Number::from(u)
}

/// Takes one level off a `serde_json::Value`: which variant it is, with the
/// variant's fields. The members of an object come out of its
/// `serde_json::Map` in ascending key order, each key once.
#[verifier::external_body]
fn open_value(v: serde_json::Value) -> (n: Node)
    ensures
        node_view(n) == json_of(v),
        n matches Node::Object(m) ==> keys_ascend(members_view(m@)),
{
    match v {
        serde_json::Value::Null => Node::Null,
        serde_json::Value::Bool(b) => Node::Bool(b),
        serde_json::Value::Number(n) => Node::Number(n),
        serde_json::Value::String(s) => Node::String(s),
        serde_json::Value::Array(a) => Node::Array(a),
        serde_json::Value::Object(m) => Node::Object(m.into_iter().collect()),
    }
}

/// Builds a `serde_json::Value` from one level. The members of an object are
/// collected into a `serde_json::Map`.
#[verifier::external_body]
fn close_value(n: Node) -> (v: serde_json::Value)
    requires
        n matches Node::Object(m) ==> keys_ascend(members_view(m@)),
    ensures
        json_of(v) == node_view(n),
{
    match n {
        Node::Null => serde_json::Value::Null,
        Node::Bool(b) => serde_json::Value::Bool(b),
        Node::Number(n) => serde_json::Value::Number(n),
        Node::String(s) => serde_json::Value::String(s),
        Node::Array(a) => serde_json::Value::Array(a),
        Node::Object(m) => serde_json::Value::Object(m.into_iter().collect()),
    }
}

/// How deep arrays and objects nest in a value: 0 for a scalar.
pub open spec fn nesting(v: JsonView) -> nat
    decreases v,
{
    match v {
        JsonView::Array(a) => 1 + nesting_of_all(a),
        JsonView::Object(m) => 1 + nesting_of_members(m),
        _ => 0,
    }
}

/// The deepest nesting among values.
pub open spec fn nesting_of_all(a: Seq<JsonView>) -> nat
    decreases a,
{
    if a.len() == 0 {
        0
    } else {
        let rest = nesting_of_all(a.drop_last());
        let last = nesting(a.last());
        if last > rest {
            last
        } else {
            rest
        }
    }
}

/// The deepest nesting among members.
pub open spec fn nesting_of_members(m: Seq<(Seq<char>, JsonView)>) -> nat
    decreases m,
{
    if m.len() == 0 {
        0
    } else {
        let rest = nesting_of_members(m.drop_last());
        let last = nesting(m.last().1);
        if last > rest {
            last
        } else {
            rest
        }
    }
}

/// Whether every number in a value is an integer.
pub open spec fn integers_only(v: JsonView) -> bool
    decreases v,
{
    match v {
        JsonView::Number(n) => number_int(n) is Some,
        JsonView::Array(a) => forall|i: int| 0 <= i < a.len() ==> integers_only(#[trigger] a[i]),
        JsonView::Object(m) => forall|i: int|
            0 <= i < m.len() ==> integers_only((#[trigger] m[i]).1),
        _ => true,
    }
}

/// The key that the parser takes for the mark of an embedded text, where it is
/// the first of an object: it reads the text under it in place of the object.
pub const EMBEDDED_KEY: &'static str = "$serde_json::private::RawValue";

/// Whether no object in a value starts with the mark of an embedded text.
pub open spec fn nothing_embedded(v: JsonView) -> bool
    decreases v,
{
    match v {
        JsonView::Array(a) => forall|i: int| 0 <= i < a.len() ==> nothing_embedded(#[trigger] a[i]),
        JsonView::Object(m) => (m.len() > 0 ==> m[0].0 != EMBEDDED_KEY@) && forall|i: int|
            0 <= i < m.len() ==> nothing_embedded((#[trigger] m[i]).1),
        _ => true,
    }
}

/// Values whose printed text reads back as the same value. The parser refuses
/// deeper nesting, may read a float a little off, and reads an embedded text in
/// place of the object that marks it.
pub open spec fn json_exact(v: JsonView) -> bool {
    nesting(v) <= 127 && integers_only(v) && nothing_embedded(v)
}

/// A text that reads as a value.
pub open spec fn parsed(v: JsonView) -> Result<JsonView, Seq<char>> {
    Ok(v)
}

/// A text that is no JSON, with the parser's message.
pub open spec fn refused(message: Seq<char>) -> Result<JsonView, Seq<char>> {
    Err(message)
}

/// `serde_json::from_slice` into a `serde_json::Value`: a function of the
/// bytes alone, which gives the value or an error with its message.
#[verifier::external_body]
fn parse_value(text: &[u8]) -> (r: Result<serde_json::Value, String>)
    ensures
        r matches Ok(v) ==> json_parse(text@) == parsed(json_of(v)),
        r matches Err(e) ==> json_parse(text@) == refused(e@),
{
    serde_json::from_slice(text).map_err(|e| e.to_string())
}

/// `serde_json::to_string` of a `serde_json::Value`, which has no failing
/// member to print: a function of what the value holds. The text of a value
/// without floats, of a nesting that the parser admits, and without an object
/// that `serde_json` takes for a `RawValue`, reads back as the value.
#[verifier::external_body]
fn print_value(v: &serde_json::Value) -> (r: String)
    ensures
        r@ == json_text(json_of(*v)),
        json_exact(json_of(*v)) ==> json_parse(encode_utf8(r@)) == parsed(json_of(*v)),
{
    serde_json::to_string(v).unwrap_or_default()
}

/// `serde_json::to_string_pretty` of a `serde_json::Value`: a function of what
/// the value holds.
#[verifier::external_body]
fn pretty_value(v: &serde_json::Value) -> (r: String)
    ensures
        r@ == json_pretty(json_of(*v)),
{
    serde_json::to_string_pretty(v).unwrap_or_default()
}

/// The value that a tree of `serde_json` holds.
pub fn from_value(v: serde_json::Value) -> (j: Json)
    ensures
        j.view() == json_of(v),
    decreases json_of(v),
{
    let ghost whole = json_of(v);
    match open_value(v) {
        Node::Null => Json::Null,
        Node::Bool(b) => Json::Bool(b),
        Node::Number(n) => Json::Number(n),
        Node::String(s) => Json::String(s),
        Node::Array(a) => {
            let ghost all = a@;
            let ghost parts = Seq::new(all.len(), |i: int| json_of(all[i]));
            let mut out: Vec<Json> = Vec::new();
            for x in it: a
                invariant
                    it.seq() == all,
                    whole == json_of(v),
                    whole == JsonView::Array(parts),
                    parts == Seq::new(all.len(), |i: int| json_of(all[i])),
                    out@.len() == it.index(),
                    forall|k: int|
                        0 <= k < out@.len() ==> (#[trigger] out@[k]).view() == parts[k],
            {
                proof {
                    assert(parts[it.index() as int] == json_of(x));
                    assert(decreases_to!(whole => whole->Array_0));
                    assert(decreases_to!(parts => parts[it.index() as int]));
                }
                out.push(from_value(x));
            }
            proof {
                assert(Json::views(out@) =~= parts);
            }
            Json::Array(out)
        },
        Node::Object(m) => {
            let ghost all = m@;
            let ghost parts = members_view(all);
            let mut out: Vec<(String, Json)> = Vec::new();
            for x in it: m
                invariant
                    it.seq() == all,
                    whole == json_of(v),
                    whole == JsonView::Object(parts),
                    parts == members_view(all),
                    out@.len() == it.index(),
                    forall|k: int|
                        0 <= k < out@.len() ==> (#[trigger] out@[k]).0@ == parts[k].0
                            && out@[k].1.view() == parts[k].1,
            {
                proof {
                    let at = it.index() as int;
                    assert(parts[at] == (x.0@, json_of(x.1)));
                    assert(decreases_to!(whole => whole->Object_0));
                    assert(decreases_to!(parts => parts[at]));
                    assert(decreases_to!(parts[at] => parts[at].1));
                }
                out.push((x.0, from_value(x.1)));
            }
            proof {
                assert(Object::entries_view(out@) =~= parts);
            }
            Json::Object(Object { entries: out })
        },
    }
}

/// The tree of `serde_json` that holds a value.
pub fn to_value(j: Json) -> (v: serde_json::Value)
    ensures
        json_of(v) == j.view(),
    decreases j,
{
    match j {
        Json::Null => close_value(Node::Null),
        Json::Bool(b) => close_value(Node::Bool(b)),
        Json::Number(n) => close_value(Node::Number(n)),
        Json::String(s) => close_value(Node::String(s)),
        Json::Array(a) => {
            let ghost all = a@;
            let mut out: Vec<serde_json::Value> = Vec::new();
            for x in it: a
                invariant
                    it.seq() == all,
                    j is Array,
                    j->Array_0@ == all,
                    out@.len() == it.index(),
                    forall|k: int|
                        0 <= k < out@.len() ==> json_of(#[trigger] out@[k]) == all[k].view(),
            {
                proof {
                    assert(decreases_to!(j => j->Array_0));
                    assert(decreases_to!(j->Array_0 => j->Array_0@));
                    assert(decreases_to!(all => all[it.index() as int]));
                }
                out.push(to_value(x));
            }
            proof {
                assert(Json::views(all) =~= Seq::new(out@.len(), |i: int| json_of(out@[i])));
            }
            close_value(Node::Array(out))
        },
        Json::Object(m) => {
            proof {
                use_type_invariant(&m);
            }
            let ghost all = m.entries@;
            let mut out: Vec<(String, serde_json::Value)> = Vec::new();
            for x in it: m.entries
                invariant
                    it.seq() == all,
                    j is Object,
                    j->Object_0.entries@ == all,
                    out@.len() == it.index(),
                    forall|k: int|
                        0 <= k < out@.len() ==> (#[trigger] out@[k]).0 == all[k].0 && json_of(
                            out@[k].1,
                        ) == all[k].1.view(),
            {
                proof {
                    let at = it.index() as int;
                    assert(decreases_to!(j => j->Object_0));
                    assert(decreases_to!(j->Object_0 => j->Object_0.entries));
                    assert(decreases_to!(j->Object_0.entries => j->Object_0.entries@));
                    assert(decreases_to!(all => all[at]));
                    assert(decreases_to!(all[at] => all[at].1));
                }
                out.push((x.0, to_value(x.1)));
            }
            proof {
                assert(Object::entries_view(all) =~= members_view(out@));
            }
            close_value(Node::Object(out))
        },
    }
}

// ── Facts about members ──────────────────────────────────────────────

/// The member at a position is the one under its key.
pub proof fn obj_get_at(m: Seq<(Seq<char>, JsonView)>, at: int)
    requires
        keys_ascend(m),
        0 <= at < m.len(),
    ensures
        obj_get(m, m[at].0) == Some(m[at].1),
    decreases m.len(),
{
    if at < m.len() - 1 {
        let key = m[at].0;
        text_before_irreflexive(key);
        assert(text_before(m[at].0, m[m.len() - 1].0));
        assert(keys_ascend(m.drop_last())) by {
            assert forall|i: int, j: int| 0 <= i < j < m.drop_last().len() implies text_before(
                (#[trigger] m.drop_last()[i]).0,
                (#[trigger] m.drop_last()[j]).0,
            ) by {
                assert(text_before(m[i].0, m[j].0));
            }
        }
        obj_get_at(m.drop_last(), at);
    }
}

/// A key that no member has gives no member.
pub proof fn obj_get_absent(m: Seq<(Seq<char>, JsonView)>, key: Seq<char>)
    requires
        forall|i: int| 0 <= i < m.len() ==> (#[trigger] m[i]).0 != key,
    ensures
        obj_get(m, key) is None,
        obj_remove(m, key) == m,
    decreases m.len(),
{
    if m.len() > 0 {
        assert forall|i: int| 0 <= i < m.drop_last().len() implies (#[trigger] m.drop_last()[i]).0
            != key by {
            assert(m[i].0 != key);
        }
        assert(m[m.len() - 1].0 != key);
        obj_get_absent(m.drop_last(), key);
        assert(obj_remove(m, key) =~= m);
    } else {
        assert(obj_remove(m, key) =~= m);
    }
}

/// Removing under a key that gives no member changes nothing.
pub proof fn obj_remove_none(m: Seq<(Seq<char>, JsonView)>, key: Seq<char>)
    requires
        obj_get(m, key) is None,
    ensures
        obj_remove(m, key) == m,
    decreases m.len(),
{
    if m.len() > 0 {
        obj_remove_none(m.drop_last(), key);
        assert(obj_remove(m, key) =~= m);
    }
}

/// Setting a member is seen under its key and leaves other keys as they were,
/// whatever the order of the members.
pub proof fn obj_insert_get(
    m: Seq<(Seq<char>, JsonView)>,
    key: Seq<char>,
    value: JsonView,
    other: Seq<char>,
)
    ensures
        obj_get(obj_insert(m, key, value), key) == Some(value),
        other != key ==> obj_get(obj_insert(m, key, value), other) == obj_get(m, other),
    decreases m.len(),
{
    let r = obj_insert(m, key, value);
    if m.len() == 0 {
        assert(r.drop_last() =~= m);
    } else if m.last().0 == key {
        assert(r.drop_last() =~= m.drop_last());
    } else if text_before(m.last().0, key) {
        assert(r.drop_last() =~= m);
    } else {
        obj_insert_get(m.drop_last(), key, value, other);
        assert(r.drop_last() =~= obj_insert(m.drop_last(), key, value));
    }
}

/// Removing a member clears its key and leaves other keys as they were,
/// whatever the order of the members.
pub proof fn obj_remove_get(m: Seq<(Seq<char>, JsonView)>, key: Seq<char>, other: Seq<char>)
    ensures
        obj_get(obj_remove(m, key), key) is None,
        other != key ==> obj_get(obj_remove(m, key), other) == obj_get(m, other),
    decreases m.len(),
{
    if m.len() > 0 {
        obj_remove_get(m.drop_last(), key, other);
        if m.last().0 != key {
            assert(obj_remove(m, key).drop_last() =~= obj_remove(m.drop_last(), key));
        }
    }
}

/// A member that is found stands at some position.
pub proof fn obj_get_found(m: Seq<(Seq<char>, JsonView)>, key: Seq<char>) -> (at: int)
    requires
        obj_get(m, key) is Some,
    ensures
        0 <= at < m.len(),
        m[at] == (key, obj_get(m, key)->Some_0),
    decreases m.len(),
{
    if m.last().0 == key {
        m.len() - 1
    } else {
        obj_get_found(m.drop_last(), key)
    }
}

proof fn ascend_drop_last(m: Seq<(Seq<char>, JsonView)>)
    requires
        keys_ascend(m),
        m.len() > 0,
    ensures
        keys_ascend(m.drop_last()),
{
    assert forall|i: int, j: int| 0 <= i < j < m.drop_last().len() implies text_before(
        (#[trigger] m.drop_last()[i]).0,
        (#[trigger] m.drop_last()[j]).0,
    ) by {
        assert(text_before(m[i].0, m[j].0));
    }
}

/// Removing the member at a position leaves the others.
proof fn obj_remove_at(m: Seq<(Seq<char>, JsonView)>, at: int)
    requires
        keys_ascend(m),
        0 <= at < m.len(),
    ensures
        obj_remove(m, m[at].0) == m.remove(at),
    decreases m.len(),
{
    let key = m[at].0;
    text_before_irreflexive(key);
    ascend_drop_last(m);
    if at == m.len() - 1 {
        assert forall|i: int| 0 <= i < m.drop_last().len() implies (#[trigger] m.drop_last()[i]).0
            != key by {
            assert(text_before(m[i].0, m[at].0));
        }
        obj_get_absent(m.drop_last(), key);
        assert(obj_remove(m, key) =~= m.remove(at));
    } else {
        assert(text_before(m[at].0, m[m.len() - 1].0));
        obj_remove_at(m.drop_last(), at);
        assert(obj_remove(m, key) =~= m.remove(at));
    }
}

/// Setting a member under a key that stands at a position replaces it there.
proof fn obj_insert_over(m: Seq<(Seq<char>, JsonView)>, at: int, value: JsonView)
    requires
        keys_ascend(m),
        0 <= at < m.len(),
    ensures
        obj_insert(m, m[at].0, value) == m.update(at, (m[at].0, value)),
    decreases m.len(),
{
    let key = m[at].0;
    if at == m.len() - 1 {
        assert(obj_insert(m, key, value) =~= m.update(at, (key, value)));
    } else {
        let last = m[m.len() - 1].0;
        assert(text_before(key, last));
        text_before_irreflexive(key);
        if text_before(last, key) {
            text_before_transitive(key, last, key);
        }
        ascend_drop_last(m);
        obj_insert_over(m.drop_last(), at, value);
        assert(obj_insert(m, key, value) =~= m.update(at, (key, value)));
    }
}

/// Setting a member under a new key puts it where the order has it.
proof fn obj_insert_between(
    m: Seq<(Seq<char>, JsonView)>,
    at: int,
    key: Seq<char>,
    value: JsonView,
)
    requires
        keys_ascend(m),
        0 <= at <= m.len(),
        forall|i: int| 0 <= i < at ==> text_before((#[trigger] m[i]).0, key),
        forall|i: int| at <= i < m.len() ==> text_before(key, (#[trigger] m[i]).0),
    ensures
        obj_insert(m, key, value) == m.insert(at, (key, value)),
    decreases m.len(),
{
    if m.len() == 0 {
        assert(obj_insert(m, key, value) =~= m.insert(at, (key, value)));
    } else {
        let last = m[m.len() - 1].0;
        text_before_irreflexive(key);
        if at == m.len() {
            assert(text_before(last, key));
            assert(obj_insert(m, key, value) =~= m.insert(at, (key, value)));
        } else {
            assert(text_before(key, last));
            if text_before(last, key) {
                text_before_transitive(key, last, key);
            }
            ascend_drop_last(m);
            assert forall|i: int| 0 <= i < at implies text_before(
                (#[trigger] m.drop_last()[i]).0,
                key,
            ) by {
                assert(text_before(m[i].0, key));
            }
            assert forall|i: int| at <= i < m.drop_last().len() implies text_before(
                key,
                (#[trigger] m.drop_last()[i]).0,
            ) by {
                assert(text_before(key, m[i].0));
            }
            obj_insert_between(m.drop_last(), at, key, value);
            assert(obj_insert(m, key, value) =~= m.insert(at, (key, value)));
        }
    }
}

/// The position that a key has, or would take, among members.
proof fn key_position(m: Seq<(Seq<char>, JsonView)>, key: Seq<char>) -> (at: int)
    requires
        keys_ascend(m),
    ensures
        0 <= at <= m.len(),
        forall|i: int| 0 <= i < at ==> text_before((#[trigger] m[i]).0, key),
        at < m.len() && m[at].0 != key ==> text_before(key, m[at].0),
        at < m.len() ==> m[at].0 == key || text_before(key, m[at].0),
        forall|i: int| at < i < m.len() ==> text_before(key, (#[trigger] m[i]).0),
    decreases m.len(),
{
    if m.len() == 0 {
        0
    } else {
        let last = m[m.len() - 1].0;
        ascend_drop_last(m);
        text_before_total(last, key);
        if text_before(last, key) {
            assert forall|i: int| 0 <= i < m.len() implies text_before((#[trigger] m[i]).0, key) by {
                if i < m.len() - 1 {
                    assert(text_before(m[i].0, m[m.len() - 1].0));
                    text_before_transitive(m[i].0, last, key);
                }
            }
            m.len() as int
        } else if last == key {
            assert forall|i: int| 0 <= i < m.len() - 1 implies text_before(
                (#[trigger] m[i]).0,
                key,
            ) by {
                assert(text_before(m[i].0, m[m.len() - 1].0));
            }
            m.len() - 1
        } else {
            let at = key_position(m.drop_last(), key);
            assert forall|i: int| 0 <= i < at implies text_before((#[trigger] m[i]).0, key) by {
                assert(text_before(m.drop_last()[i].0, key));
            }
            assert forall|i: int| at < i < m.len() implies text_before(key, (#[trigger] m[i]).0) by {
                if i < m.len() - 1 {
                    assert(text_before(key, m.drop_last()[i].0));
                }
            }
            if at < m.len() - 1 {
                assert(m[at] == m.drop_last()[at]);
            }
            at
        }
    }
}

/// Setting a member keeps the keys in order, is seen under its own key, and
/// leaves every other key as it was.
pub proof fn obj_insert_facts(
    m: Seq<(Seq<char>, JsonView)>,
    key: Seq<char>,
    value: JsonView,
    other: Seq<char>,
)
    requires
        keys_ascend(m),
    ensures
        keys_ascend(obj_insert(m, key, value)),
        obj_get(obj_insert(m, key, value), key) == Some(value),
        other != key ==> obj_get(obj_insert(m, key, value), other) == obj_get(m, other),
{
    let at = key_position(m, key);
    let n = obj_insert(m, key, value);
    if at < m.len() && m[at].0 == key {
        obj_insert_over(m, at, value);
        assert forall|i: int, j: int| 0 <= i < j < n.len() implies text_before(
            (#[trigger] n[i]).0,
            (#[trigger] n[j]).0,
        ) by {
            assert(text_before(m[i].0, m[j].0));
        }
    } else {
        assert forall|i: int| at <= i < m.len() implies text_before(key, (#[trigger] m[i]).0) by {
        }
        obj_insert_between(m, at, key, value);
        assert forall|i: int, j: int| 0 <= i < j < n.len() implies text_before(
            (#[trigger] n[i]).0,
            (#[trigger] n[j]).0,
        ) by {
            let a = if i < at { i } else { i - 1 };
            let b = if j < at { j } else { j - 1 };
            if i != at && j != at {
                assert(text_before(m[a].0, m[b].0));
            } else if i == at {
                assert(text_before(key, m[b].0));
            } else {
                assert(text_before(m[a].0, key));
            }
        }
    }
    assert(n[at] == (key, value));
    obj_get_at(n, at);
    if other != key {
        if obj_get(m, other) is Some {
            let k = obj_get_found(m, other);
            let there = if n.len() == m.len() || k < at { k } else { k + 1 };
            assert(n[there] == m[k]);
            obj_get_at(n, there);
        } else if obj_get(n, other) is Some {
            let k = obj_get_found(n, other);
            let there = if n.len() == m.len() || k < at { k } else { k - 1 };
            assert(k != at);
            assert(m[there] == n[k]);
            obj_get_at(m, there);
        }
    }
}

/// Removing a member keeps the keys in order, clears its key, and leaves every
/// other key as it was.
pub proof fn obj_remove_facts(m: Seq<(Seq<char>, JsonView)>, key: Seq<char>, other: Seq<char>)
    requires
        keys_ascend(m),
    ensures
        keys_ascend(obj_remove(m, key)),
        obj_get(obj_remove(m, key), key) is None,
        other != key ==> obj_get(obj_remove(m, key), other) == obj_get(m, other),
    decreases m.len(),
{
    let at = key_position(m, key);
    let n = obj_remove(m, key);
    text_before_irreflexive(key);
    if at < m.len() && m[at].0 == key {
        obj_remove_at(m, at);
        assert forall|i: int, j: int| 0 <= i < j < n.len() implies text_before(
            (#[trigger] n[i]).0,
            (#[trigger] n[j]).0,
        ) by {
            let a = if i < at { i } else { i + 1 };
            let b = if j < at { j } else { j + 1 };
            assert(text_before(m[a].0, m[b].0));
        }
        if obj_get(n, key) is Some {
            let k = obj_get_found(n, key);
            let a = if k < at { k } else { k + 1 };
            assert(n[k] == m[a]);
            if a < at {
                assert(text_before(m[a].0, m[at].0));
            } else {
                assert(text_before(m[at].0, m[a].0));
            }
        }
        if other != key {
            if obj_get(m, other) is Some {
                let k = obj_get_found(m, other);
                let there = if k < at { k } else { k - 1 };
                assert(n[there] == m[k]);
                obj_get_at(n, there);
            } else if obj_get(n, other) is Some {
                let k = obj_get_found(n, other);
                let there = if k < at { k } else { k + 1 };
                assert(n[k] == m[there]);
                obj_get_at(m, there);
            }
        }
    } else {
        assert forall|i: int| 0 <= i < m.len() implies (#[trigger] m[i]).0 != key by {
            if i < at {
                assert(text_before(m[i].0, key));
            } else {
                assert(text_before(key, m[i].0));
            }
        }
        obj_get_absent(m, key);
    }
}

// ── Reading and building ─────────────────────────────────────────────

impl Object {
    /// An object without members.
    pub fn new() -> (r: Object)
        ensures
            r.view() == Seq::<(Seq<char>, JsonView)>::empty(),
    {
        let entries: Vec<(String, Json)> = Vec::new();
        proof {
            assert(Object::entries_view(entries@) =~= Seq::<(Seq<char>, JsonView)>::empty());
        }
        Object { entries }
    }

    /// How many members there are. Their keys are in order.
    pub fn len(&self) -> (r: usize)
        ensures
            r == self.view().len(),
            keys_ascend(self.view()),
    {
        proof {
            use_type_invariant(self);
        }
        self.entries.len()
    }

    /// Where a key stands, or where it would stand.
    fn position(&self, key: &str) -> (r: (usize, bool))
        ensures
            r.0 <= self.entries@.len(),
            r.1 ==> r.0 < self.entries@.len() && self.entries@[r.0 as int].0@ == key@,
            forall|i: int|
                0 <= i < r.0 ==> text_before((#[trigger] self.view()[i]).0, key@),
            !r.1 ==> forall|i: int|
                r.0 <= i < self.view().len() ==> text_before(key@, (#[trigger] self.view()[i]).0),
    {
        proof {
            use_type_invariant(self);
        }
        let mut i: usize = 0;
        while i < self.entries.len()
            invariant
                i <= self.entries@.len(),
                keys_ascend(self.view()),
                forall|k: int| 0 <= k < i ==> text_before((#[trigger] self.view()[k]).0, key@),
            decreases self.entries.len() - i,
        {
            let here = self.entries[i].0.as_str();
            proof {
                assert(self.view()[i as int].0 == here@);
            }
            if text_eq(here, key) {
                return (i, true);
            }
            if !text_is_before(here, key) {
                proof {
                    text_before_total(here@, key@);
                    assert forall|k: int| i <= k < self.view().len() implies text_before(
                        key@,
                        (#[trigger] self.view()[k]).0,
                    ) by {
                        if k > i {
                            assert(text_before(self.view()[i as int].0, self.view()[k].0));
                            text_before_transitive(key@, here@, self.view()[k].0);
                        }
                    }
                }
                return (i, false);
            }
            i = i + 1;
        }
        (i, false)
    }

    /// The member under a key.
    pub fn get(&self, key: &str) -> (r: Option<&Json>)
        ensures
            r is Some <==> obj_get(self.view(), key@) is Some,
            r matches Some(j) ==> obj_get(self.view(), key@) == Some(j.view()),
    {
        proof {
            use_type_invariant(self);
        }
        let (at, found) = self.position(key);
        if found {
            proof {
                obj_get_at(self.view(), at as int);
            }
            Some(&self.entries[at].1)
        } else {
            proof {
                self.absent_at(at as int, key@);
            }
            None
        }
    }

    proof fn absent_at(&self, at: int, key: Seq<char>)
        requires
            forall|i: int| 0 <= i < at ==> text_before((#[trigger] self.view()[i]).0, key),
            forall|i: int|
                at <= i < self.view().len() ==> text_before(key, (#[trigger] self.view()[i]).0),
        ensures
            obj_get(self.view(), key) is None,
            obj_remove(self.view(), key) == self.view(),
    {
        text_before_irreflexive(key);
        assert forall|i: int| 0 <= i < self.view().len() implies (#[trigger] self.view()[i]).0
            != key by {
            if i < at {
                assert(text_before(self.view()[i].0, key));
            } else {
                assert(text_before(key, self.view()[i].0));
            }
        }
        obj_get_absent(self.view(), key);
    }

    /// The object with one member set.
    pub fn insert(self, key: String, value: Json) -> (r: Object)
        ensures
            r.view() == obj_insert(self.view(), key@, value.view()),
    {
        proof {
            use_type_invariant(&self);
            obj_insert_facts(self.view(), key@, value.view(), key@);
        }
        let (at, found) = self.position(key.as_str());
        let ghost before = self.view();
        let ghost (k, v) = (key@, value.view());
        let mut entries = self.entries;
        if found {
            proof {
                obj_insert_over(before, at as int, v);
            }
            entries.set(at, (key, value));
        } else {
            proof {
                obj_insert_between(before, at as int, k, v);
            }
            entries.insert(at, (key, value));
        }
        proof {
            assert(Object::entries_view(entries@) =~= obj_insert(before, k, v));
        }
        Object { entries }
    }

    /// The object without the member under a key, and that member.
    pub fn remove(self, key: &str) -> (r: (Object, Option<Json>))
        ensures
            r.0.view() == obj_remove(self.view(), key@),
            opt_view(r.1) == obj_get(self.view(), key@),
    {
        proof {
            use_type_invariant(&self);
            obj_remove_facts(self.view(), key@, key@);
        }
        let (at, found) = self.position(key);
        let ghost before = self.view();
        if found {
            let mut entries = self.entries;
            proof {
                obj_get_at(before, at as int);
                obj_remove_at(before, at as int);
            }
            let out = entries.remove(at);
            proof {
                assert(Object::entries_view(entries@) =~= obj_remove(before, key@));
            }
            (Object { entries }, Some(out.1))
        } else {
            proof {
                self.absent_at(at as int, key@);
            }
            (self, None)
        }
    }

    /// The members, in key order.
    pub fn into_members(self) -> (r: Vec<(String, Json)>)
        ensures
            pairs_view(r@) == self.view(),
            keys_ascend(self.view()),
    {
        proof {
            use_type_invariant(&self);
        }
        self.entries
    }

    /// The object with members that are in key order.
    pub fn from_members(members: Vec<(String, Json)>) -> (r: Object)
        requires
            keys_ascend(pairs_view(members@)),
        ensures
            r.view() == pairs_view(members@),
    {
        Object { entries: members }
    }

    /// The key and the value of the member at a position.
    pub fn member(&self, at: usize) -> (r: (&String, &Json))
        requires
            at < self.view().len(),
        ensures
            (r.0@, r.1.view()) == self.view()[at as int],
    {
        (&self.entries[at].0, &self.entries[at].1)
    }
}

/// What each key with its value holds.
pub open spec fn pairs_view(pairs: Seq<(String, Json)>) -> Seq<(Seq<char>, JsonView)> {
    Object::entries_view(pairs)
}

/// The object with the given members, set one after the other.
pub fn object_of(pairs: Vec<(String, Json)>) -> (r: Object)
    ensures
        r.view() == obj_of(pairs_view(pairs@)),
{
    let ghost all = pairs@;
    let mut out = Object::new();
    for p in it: pairs
        invariant
            it.seq() == all,
            out.view() == obj_of(pairs_view(all).take(it.index() as int)),
    {
        proof {
            let t = pairs_view(all).take(it.index() + 1);
            assert(t.drop_last() =~= pairs_view(all).take(it.index() as int));
            assert(t.last() == (p.0@, p.1.view()));
        }
        out = out.insert(p.0, p.1);
    }
    proof {
        assert(pairs_view(all).take(all.len() as int) =~= pairs_view(all));
    }
    out
}

impl Json {
    /// The member of an object under a key.
    pub fn get(&self, key: &str) -> (r: Option<&Json>)
        ensures
            r is Some <==> self.view().get(key@) is Some,
            r matches Some(j) ==> self.view().get(key@) == Some(j.view()),
    {
        match self {
            Json::Object(m) => m.get(key),
            _ => None,
        }
    }

    /// The text of a string value.
    pub fn as_str(&self) -> (r: Option<&str>)
        ensures
            r is Some <==> self.view().as_str() is Some,
            r matches Some(s) ==> self.view().as_str() == Some(s@),
    {
        match self {
            Json::String(s) => Some(s.as_str()),
            _ => None,
        }
    }

    /// The value of an unsigned integer.
    pub fn as_u64(&self) -> (r: Option<u64>)
        ensures
            r == self.view().as_u64(),
    {
        match self {
            Json::Number(n) => n.as_u64(),
            _ => None,
        }
    }

    /// A string value.
    pub fn text(s: &str) -> (r: Json)
        ensures
            r.view() == JsonView::String(s@),
    {
        Json::String(s.to_owned())
    }

    /// An unsigned integer value.
    pub fn number(u: u64) -> (r: Json)
        ensures
            r.view() == json_u64(u),
            r.view().as_u64() == Some(u),
    {
        Json::Number(number_from(u))
    }
}

/// The value of an unsigned integer.
pub open spec fn json_u64(u: u64) -> JsonView {
    JsonView::Number(number_of(u))
}

/// Reads a JSON text.
pub fn parse(text: &[u8]) -> (r: Result<Json, String>)
    ensures
        match r {
            Ok(j) => json_parse(text@) == parsed(j.view()),
            Err(e) => json_parse(text@) == refused(e@),
        },
{
    match parse_value(text) {
        Ok(v) => Ok(from_value(v)),
        Err(e) => Err(e),
    }
}

/// Prints a value as compact JSON. What it prints for a value that the parser
/// admits reads back as that value.
pub fn print(j: &Json) -> (r: String)
    ensures
        r@ == json_text(j.view()),
        json_exact(j.view()) ==> json_parse(encode_utf8(r@)) == parsed(j.view()),
{
    print_value(&to_value(j.clone()))
}

/// Prints a value as indented JSON.
pub fn print_pretty(j: &Json) -> (r: String)
    ensures
        r@ == json_pretty(j.view()),
{
    pretty_value(&to_value(j.clone()))
}

/// What an optional reference to a value holds.
pub open spec fn opt_ref_view(j: Option<&Json>) -> Option<JsonView> {
    match j {
        Some(v) => Some(v.view()),
        None => None,
    }
}

/// A copy of an optional value.
pub fn clone_opt(j: &Option<Json>) -> (r: Option<Json>)
    ensures
        opt_view(r) == opt_view(*j),
{
    match j {
        Some(v) => Some(v.clone()),
        None => None,
    }
}

/// The member of an object that was put together is the last one given under
/// its key.
pub proof fn obj_of_get(pairs: Seq<(Seq<char>, JsonView)>, key: Seq<char>)
    ensures
        obj_get(obj_of(pairs), key) == obj_get(pairs, key),
    decreases pairs.len(),
{
    if pairs.len() > 0 {
        obj_of_get(pairs.drop_last(), key);
        obj_insert_get(obj_of(pairs.drop_last()), pairs.last().0, pairs.last().1, key);
    }
}

/// Setting a member brings in no member but that one.
proof fn obj_insert_from(
    m: Seq<(Seq<char>, JsonView)>,
    key: Seq<char>,
    value: JsonView,
    at: int,
)
    requires
        0 <= at < obj_insert(m, key, value).len(),
    ensures
        obj_insert(m, key, value)[at] == (key, value) || m.contains(
            obj_insert(m, key, value)[at],
        ),
    decreases m.len(),
{
    let r = obj_insert(m, key, value);
    if m.len() > 0 {
        if m.last().0 == key || text_before(m.last().0, key) {
            if at < r.len() - 1 {
                assert(r[at] == m[at]);
            }
        } else if at < r.len() - 1 {
            obj_insert_from(m.drop_last(), key, value, at);
            let part = obj_insert(m.drop_last(), key, value);
            assert(r[at] == part[at]);
            if part[at] != (key, value) {
                let k = choose|k: int|
                    0 <= k < m.drop_last().len() && m.drop_last()[k] == part[at];
                assert(m[k] == r[at]);
            }
        } else {
            assert(r[at] == m[m.len() - 1]);
        }
    }
}

/// The members of an object that was put together are among those given.
pub proof fn obj_of_from(pairs: Seq<(Seq<char>, JsonView)>, at: int)
    requires
        0 <= at < obj_of(pairs).len(),
    ensures
        pairs.contains(obj_of(pairs)[at]),
    decreases pairs.len(),
{
    let last = pairs.last();
    let part = obj_of(pairs.drop_last());
    obj_insert_from(part, last.0, last.1, at);
    let found = obj_of(pairs)[at];
    if found == (last.0, last.1) {
        assert(pairs[pairs.len() - 1] == found);
    } else {
        let k = choose|k: int| 0 <= k < part.len() && part[k] == found;
        obj_of_from(pairs.drop_last(), k);
        let n = choose|n: int|
            0 <= n < pairs.drop_last().len() && pairs.drop_last()[n] == found;
        assert(pairs[n] == found);
    }
}

/// Members nest no deeper than each of them does.
pub proof fn members_nesting_bound(m: Seq<(Seq<char>, JsonView)>, bound: nat)
    requires
        forall|i: int| 0 <= i < m.len() ==> nesting((#[trigger] m[i]).1) <= bound,
    ensures
        nesting_of_members(m) <= bound,
    decreases m.len(),
{
    if m.len() > 0 {
        assert forall|i: int| 0 <= i < m.drop_last().len() implies nesting(
            (#[trigger] m.drop_last()[i]).1,
        ) <= bound by {
            assert(nesting(m[i].1) <= bound);
        }
        members_nesting_bound(m.drop_last(), bound);
        assert(nesting(m[m.len() - 1].1) <= bound);
    }
}

/// Values nest no deeper than each of them does.
pub proof fn values_nesting_bound(a: Seq<JsonView>, bound: nat)
    requires
        forall|i: int| 0 <= i < a.len() ==> nesting(#[trigger] a[i]) <= bound,
    ensures
        nesting_of_all(a) <= bound,
    decreases a.len(),
{
    if a.len() > 0 {
        assert forall|i: int| 0 <= i < a.drop_last().len() implies nesting(
            #[trigger] a.drop_last()[i],
        ) <= bound by {
            assert(nesting(a[i]) <= bound);
        }
        values_nesting_bound(a.drop_last(), bound);
        assert(nesting(a[a.len() - 1]) <= bound);
    }
}

/// An object of values that nest little, hold no float and embed no text, under
/// keys that mark no embedded text, survives printing and parsing.
pub proof fn object_is_exact(pairs: Seq<(Seq<char>, JsonView)>)
    requires
        forall|i: int|
            0 <= i < pairs.len() ==> nesting((#[trigger] pairs[i]).1) <= 126 && integers_only(
                pairs[i].1,
            ) && nothing_embedded(pairs[i].1) && pairs[i].0 != EMBEDDED_KEY@,
    ensures
        json_exact(JsonView::Object(obj_of(pairs))),
{
    let m = obj_of(pairs);
    assert forall|i: int| 0 <= i < m.len() implies nesting((#[trigger] m[i]).1) <= 126
        && integers_only(m[i].1) && nothing_embedded(m[i].1) && m[i].0 != EMBEDDED_KEY@ by {
        obj_of_from(pairs, i);
        let k = choose|k: int| 0 <= k < pairs.len() && pairs[k] == m[i];
        assert(nesting(pairs[k].1) <= 126);
    }
    members_nesting_bound(m, 126);
}

/// What is given under a key is found there, where nothing is given under the
/// same key behind it.
pub proof fn obj_of_at(pairs: Seq<(Seq<char>, JsonView)>, at: int)
    requires
        0 <= at < pairs.len(),
        forall|j: int| at < j < pairs.len() ==> (#[trigger] pairs[j]).0 != pairs[at].0,
    ensures
        obj_get(obj_of(pairs), pairs[at].0) == Some(pairs[at].1),
{
    obj_of_get(pairs, pairs[at].0);
    found_at(pairs, at);
}

proof fn found_at(pairs: Seq<(Seq<char>, JsonView)>, at: int)
    requires
        0 <= at < pairs.len(),
        forall|j: int| at < j < pairs.len() ==> (#[trigger] pairs[j]).0 != pairs[at].0,
    ensures
        obj_get(pairs, pairs[at].0) == Some(pairs[at].1),
    decreases pairs.len(),
{
    if at < pairs.len() - 1 {
        let front = pairs.drop_last();
        assert(pairs[pairs.len() - 1].0 != pairs[at].0);
        assert forall|j: int| at < j < front.len() implies (#[trigger] front[j]).0
            != front[at].0 by {
            assert(pairs[j].0 != pairs[at].0);
        }
        found_at(front, at);
    }
}

/// What is given under no key is not there.
pub proof fn obj_of_lacks(pairs: Seq<(Seq<char>, JsonView)>, key: Seq<char>)
    requires
        forall|i: int| 0 <= i < pairs.len() ==> (#[trigger] pairs[i]).0 != key,
    ensures
        obj_get(obj_of(pairs), key) is None,
{
    obj_of_get(pairs, key);
    obj_get_absent(pairs, key);
}

/// A member that is found was set, and the latest one set under its key counts.
pub proof fn set_members_are_found(
    m: Seq<(Seq<char>, JsonView)>,
    key: Seq<char>,
    first: JsonView,
    second: JsonView,
    other: Seq<char>,
)
    requires
        other != key,
    ensures
        obj_get(obj_insert(obj_insert(m, key, first), key, second), key) == Some(second),
        obj_get(obj_insert(m, key, first), other) == obj_get(m, other),
        obj_get(obj_remove(obj_insert(m, key, first), key), key) is None,
        obj_get(obj_remove(obj_insert(m, key, first), key), other) == obj_get(m, other),
        obj_get(Seq::empty(), key) is None,
{
    obj_insert_get(m, key, first, other);
    obj_insert_get(obj_insert(m, key, first), key, second, key);
    obj_remove_get(obj_insert(m, key, first), key, other);
}

/// What is seen of an optional value is seen where there is one.
pub proof fn optional_values_are_seen(j: Option<Json>, k: Option<&Json>)
    ensures
        j is None ==> opt_view(j) is None,
        j matches Some(v) ==> opt_view(j) == Some(v.view()),
        k is None ==> opt_ref_view(k) is None,
        k matches Some(v) ==> opt_ref_view(k) == Some(v.view()),
{
}

/// A text is read as it is, and no other value as a text; only objects have
/// members.
pub proof fn values_are_read_as_they_are(s: Seq<char>, v: JsonView, key: Seq<char>)
    ensures
        JsonView::String(s).as_str() == Some(s),
        !(v is String) ==> v.as_str() is None,
        !(v is Number) ==> v.as_u64() is None,
        !(v is Object) ==> v.get(key) is None,
        v matches JsonView::Object(m) ==> v.get(key) == obj_get(m, key),
        v matches JsonView::Number(n) ==> (number_int(n) matches Some(i) ==> 0 <= i <= u64::MAX ==>
            v.as_u64() == Some(i as u64)),
        v matches JsonView::Number(n) ==> (number_int(n) is None ==> v.as_u64() is None),
        v matches JsonView::Number(n) ==> (number_int(n) matches Some(i) ==> i < 0 || i
            > u64::MAX ==> v.as_u64() is None),
{
}

}
