//! Names under which metrics are recorded.

use vstd::prelude::*;

verus! {

/// The scope that all instruments belong to.
pub const SCOPE: &'static str = "mac-mgmt-common";

/// How severe a logged event is.
#[derive(Debug, Clone, Copy, PartialEq, Eq, Structural)]
pub enum Level {
    Error,
    Warn,
    Info,
    Debug,
    Trace,
}

/// The name that events of a level are counted under.
pub open spec fn level_name(level: Level) -> Seq<char> {
    match level {
        Level::Error => "error"@,
        Level::Warn => "warn"@,
        Level::Info => "info"@,
        Level::Debug => "debug"@,
        Level::Trace => "trace"@,
    }
}

/// The name that events of a level are counted under.
pub fn level_str(level: &Level) -> (r: &'static str)
    ensures
        r@ == level_name(*level),
{
    match level {
        Level::Error => "error",
        Level::Warn => "warn",
        Level::Info => "info",
        Level::Debug => "debug",
        Level::Trace => "trace",
    }
}

/// Events of different levels are counted apart.
pub proof fn levels_are_counted_apart(a: Level, b: Level)
    requires
        level_name(a) == level_name(b),
    ensures
        a == b,
{
    reveal_strlit("error");
    reveal_strlit("warn");
    reveal_strlit("info");
    reveal_strlit("debug");
    reveal_strlit("trace");
    assert("error"@[0] == 'e' && "warn"@[0] == 'w' && "info"@[0] == 'i' && "debug"@[0] == 'd'
        && "trace"@[0] == 't');
}

/// Each level goes by its own name.
pub proof fn levels_go_by_their_names()
    ensures
        level_name(Level::Error) == "error"@,
        level_name(Level::Warn) == "warn"@,
        level_name(Level::Info) == "info"@,
        level_name(Level::Debug) == "debug"@,
        level_name(Level::Trace) == "trace"@,
        SCOPE@ == "mac-mgmt-common"@,
{
}

}
