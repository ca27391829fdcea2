//! Risk classes of tool calls.

use vstd::prelude::*;

pub mod approval;

verus! {

/// How much a tool call can change.
#[derive(Debug, Clone, Copy, PartialEq, Eq, Structural)]
pub enum ToolRisk {
    ReadOnly,
    SessionLocal,
    Mutating,
    Destructive,
}

/// The wire name of a risk.
pub open spec fn risk_name(risk: ToolRisk) -> Seq<char> {
    match risk {
        ToolRisk::ReadOnly => "read_only"@,
        ToolRisk::SessionLocal => "session_local"@,
        ToolRisk::Mutating => "mutating"@,
        ToolRisk::Destructive => "destructive"@,
    }
}

/// The wire name of a risk.
pub fn risk_to_str(risk: ToolRisk) -> (r: &'static str)
    ensures
        r@ == risk_name(risk),
{
    match risk {
        ToolRisk::ReadOnly => "read_only",
        ToolRisk::SessionLocal => "session_local",
        ToolRisk::Mutating => "mutating",
        ToolRisk::Destructive => "destructive",
    }
}

/// Each risk goes by its own name, so that risks that are told alike are the
/// same.
pub proof fn risks_go_by_their_names(a: ToolRisk, b: ToolRisk)
    ensures
        a is ReadOnly ==> risk_name(a) == "read_only"@,
        a is SessionLocal ==> risk_name(a) == "session_local"@,
        a is Mutating ==> risk_name(a) == "mutating"@,
        a is Destructive ==> risk_name(a) == "destructive"@,
        risk_name(a) == risk_name(b) ==> a == b,
{
    reveal_strlit("read_only");
    reveal_strlit("session_local");
    reveal_strlit("mutating");
    reveal_strlit("destructive");
    assert("read_only"@[0] == 'r' && "session_local"@[0] == 's' && "mutating"@[0] == 'm'
        && "destructive"@[0] == 'd');
}

}
