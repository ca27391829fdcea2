//! Lifecycle of a session over the state names of a domain.
//!
//! A session persists its state as a name. A [`StateModel`] maps the names of
//! a domain onto the common [`CoreState`] lifecycle, so that the session loop
//! and the stores can tell terminal, active and resumable states apart.

use vstd::prelude::*;

use crate::text::text_eq;

verus! {

/// Lifecycle class that every state name maps onto.
#[derive(Debug, Clone, Copy, PartialEq, Eq, Structural)]
pub enum CoreState {
    Created,
    Initializing,
    /// The agent task is, or should be, running. A domain may have several
    /// running phases.
    Running,
    AwaitingApproval,
    /// Interrupted; resumes by itself.
    AwaitingRetry,
    Paused,
    Completed,
    Failed,
    Cancelled,
    /// Handed over to a human; terminal.
    NeedsAttention,
}

impl CoreState {
    /// Whether a session in this class is over.
    pub open spec fn terminal(self) -> bool {
        self is Completed || self is Failed || self is Cancelled || self is NeedsAttention
    }

    /// Whether a session in this class is at work.
    pub open spec fn active(self) -> bool {
        self is Initializing || self is Running
    }

    /// Whether a session in this class is over.
    pub fn is_terminal(self) -> (r: bool)
        ensures
            r == self.terminal(),
            r == (self is Completed || self is Failed || self is Cancelled
                || self is NeedsAttention),
    {
        match self {
            CoreState::Completed => true,
            CoreState::Failed => true,
            CoreState::Cancelled => true,
            CoreState::NeedsAttention => true,
            _ => false,
        }
    }

    /// Whether a session in this class is at work.
    pub fn is_active(self) -> (r: bool)
        ensures
            r == self.active(),
            r == (self is Initializing || self is Running),
    {
        match self {
            CoreState::Initializing => true,
            CoreState::Running => true,
            _ => false,
        }
    }
}

/// No session is both over and at work.
pub proof fn terminal_is_not_active(s: CoreState)
    ensures
        !(s.terminal() && s.active()),
{
}

/// The characters of each name.
pub open spec fn names<'a>(v: Seq<&'a str>) -> Seq<Seq<char>> {
    Seq::new(v.len(), |i: int| v[i]@)
}

/// Whether a name is among others.
pub fn names_hold<'a>(v: &Vec<&'a str>, name: &str) -> (r: bool)
    ensures
        r == names(v@).contains(name@),
{
    let mut i: usize = 0;
    while i < v.len()
        invariant
            i <= v@.len(),
            forall|k: int| 0 <= k < i ==> names(v@)[k] != name@,
        decreases v.len() - i,
    {
        if text_eq(v[i], name) {
            proof {
                assert(names(v@)[i as int] == name@);
            }
            return true;
        }
        i = i + 1;
    }
    false
}

/// The state names of a domain.
pub trait StateModel {
    /// The class of a state name.
    spec fn core_of(&self, state: Seq<char>) -> CoreState;

    /// The state that the agent may move to under the name of a phase.
    spec fn allowed(&self, name: Seq<char>) -> Option<Seq<char>>;

    /// The state entered when the agent loop starts running.
    spec fn running_name(&self) -> Seq<char>;

    /// The state names of sessions that do not resume.
    spec fn dead_names(&self) -> Seq<Seq<char>>;

    /// The state entered to wait for a human's approval.
    spec fn approval_name(&self) -> Seq<char>;

    /// The class of a state name.
    fn core_state(&self, state: &str) -> (r: CoreState)
        ensures
            r == self.core_of(state@),
    ;

    /// Whether a session in this state is over.
    fn is_terminal(&self, state: &str) -> (r: bool)
        ensures
            r == self.core_of(state@).terminal(),
    {
        self.core_state(state).is_terminal()
    }

    /// Whether a session in this state is at work.
    fn is_active(&self, state: &str) -> (r: bool)
        ensures
            r == self.core_of(state@).active(),
    {
        self.core_state(state).is_active()
    }

    /// The state that the agent may move to under the name of a phase. `None`
    /// where it may not.
    fn agent_allowed(&self, name: &str) -> (r: Option<String>)
        ensures
            r is Some <==> self.allowed(name@) is Some,
            r matches Some(s) ==> self.allowed(name@) == Some(s@),
    ;

    /// The state entered when the agent loop starts running.
    fn initial_running_state(&self) -> (r: &'static str)
        ensures
            r@ == self.running_name(),
    ;

    /// The state names of sessions that do not resume, as store queries use
    /// them.
    fn non_resumable_states(&self) -> (r: Vec<&'static str>)
        ensures
            names(r@) == self.dead_names(),
    ;

    /// The state entered to wait for a human's approval.
    fn approval_state(&self) -> (r: &'static str)
        ensures
            r@ == self.approval_name(),
    ;
}

/// The class of the state names that all domains share; an unknown name is a
/// failed session.
pub open spec fn lifecycle(state: Seq<char>) -> CoreState {
    if state == "created"@ {
        CoreState::Created
    } else if state == "initializing"@ {
        CoreState::Initializing
    } else if state == "running"@ {
        CoreState::Running
    } else if state == "awaiting_approval"@ {
        CoreState::AwaitingApproval
    } else if state == "awaiting_retry"@ {
        CoreState::AwaitingRetry
    } else if state == "paused"@ {
        CoreState::Paused
    } else if state == "completed"@ {
        CoreState::Completed
    } else if state == "cancelled"@ {
        CoreState::Cancelled
    } else if state == "needs_attention"@ {
        CoreState::NeedsAttention
    } else {
        CoreState::Failed
    }
}

/// The class of the state names that all domains share.
pub fn lifecycle_of(state: &str) -> (r: CoreState)
    ensures
        r == lifecycle(state@),
{
    if text_eq(state, "created") {
        CoreState::Created
    } else if text_eq(state, "initializing") {
        CoreState::Initializing
    } else if text_eq(state, "running") {
        CoreState::Running
    } else if text_eq(state, "awaiting_approval") {
        CoreState::AwaitingApproval
    } else if text_eq(state, "awaiting_retry") {
        CoreState::AwaitingRetry
    } else if text_eq(state, "paused") {
        CoreState::Paused
    } else if text_eq(state, "completed") {
        CoreState::Completed
    } else if text_eq(state, "cancelled") {
        CoreState::Cancelled
    } else if text_eq(state, "needs_attention") {
        CoreState::NeedsAttention
    } else {
        CoreState::Failed
    }
}

/// State model of plain chat sessions, without phases of a domain.
#[derive(Debug, Clone, Copy)]
pub struct CoreStateModel;

impl Default for CoreStateModel {
    fn default() -> (r: CoreStateModel)
        ensures
            r == CoreStateModel,
    {
        CoreStateModel
    }
}

impl StateModel for CoreStateModel {
    open spec fn core_of(&self, state: Seq<char>) -> CoreState {
        lifecycle(state)
    }

    open spec fn allowed(&self, name: Seq<char>) -> Option<Seq<char>> {
        None
    }

    open spec fn running_name(&self) -> Seq<char> {
        "running"@
    }

    open spec fn dead_names(&self) -> Seq<Seq<char>> {
        seq!["completed"@, "failed"@, "cancelled"@, "paused"@, "needs_attention"@]
    }

    open spec fn approval_name(&self) -> Seq<char> {
        "awaiting_approval"@
    }

    fn core_state(&self, state: &str) -> (r: CoreState) {
        lifecycle_of(state)
    }

    fn agent_allowed(&self, name: &str) -> (r: Option<String>) {
        None
    }

    fn initial_running_state(&self) -> (r: &'static str) {
        "running"
    }

    fn non_resumable_states(&self) -> (r: Vec<&'static str>) {
        let mut out: Vec<&'static str> = Vec::new();
        out.push("completed");
        out.push("failed");
        out.push("cancelled");
        out.push("paused");
        out.push("needs_attention");
        out
    }

    fn approval_state(&self) -> (r: &'static str) {
        "awaiting_approval"
    }
}

/// The state names that all domains share are pairwise different, so each
/// has the class that bears its name.
pub proof fn lifecycle_names()
    ensures
        lifecycle("created"@) == CoreState::Created,
        lifecycle("initializing"@) == CoreState::Initializing,
        lifecycle("running"@) == CoreState::Running,
        lifecycle("awaiting_approval"@) == CoreState::AwaitingApproval,
        lifecycle("awaiting_retry"@) == CoreState::AwaitingRetry,
        lifecycle("paused"@) == CoreState::Paused,
        lifecycle("completed"@) == CoreState::Completed,
        lifecycle("failed"@) == CoreState::Failed,
        lifecycle("cancelled"@) == CoreState::Cancelled,
        lifecycle("needs_attention"@) == CoreState::NeedsAttention,
{
    reveal_strlit("created");
    reveal_strlit("initializing");
    reveal_strlit("running");
    reveal_strlit("awaiting_approval");
    reveal_strlit("awaiting_retry");
    reveal_strlit("paused");
    reveal_strlit("completed");
    reveal_strlit("failed");
    reveal_strlit("cancelled");
    reveal_strlit("needs_attention");
    assert("created"@.len() == 7 && "created"@[0] == 'c' && "created"@[1] == 'r');
    assert("initializing"@.len() == 12 && "initializing"@[0] == 'i' && "initializing"@[1] == 'n');
    assert("running"@.len() == 7 && "running"@[0] == 'r' && "running"@[1] == 'u');
    assert("awaiting_approval"@.len() == 17 && "awaiting_approval"@[0] == 'a' && "awaiting_approval"@[1] == 'w');
    assert("awaiting_retry"@.len() == 14 && "awaiting_retry"@[0] == 'a' && "awaiting_retry"@[1] == 'w');
    assert("paused"@.len() == 6 && "paused"@[0] == 'p' && "paused"@[1] == 'a');
    assert("completed"@.len() == 9 && "completed"@[0] == 'c' && "completed"@[1] == 'o');
    assert("failed"@.len() == 6 && "failed"@[0] == 'f' && "failed"@[1] == 'a');
    assert("cancelled"@.len() == 9 && "cancelled"@[0] == 'c' && "cancelled"@[1] == 'a');
    assert("needs_attention"@.len() == 15 && "needs_attention"@[0] == 'n' && "needs_attention"@[1] == 'e');
}

/// A plain chat session that is over, or paused, does not resume; every other
/// one does.
pub proof fn core_model_resumes(state: Seq<char>)
    requires
        CoreStateModel.core_of(state) is Failed ==> state == "failed"@,
    ensures
        CoreStateModel.dead_names().contains(state) <==> CoreStateModel.core_of(state).terminal()
            || CoreStateModel.core_of(state) is Paused,
        CoreStateModel.core_of(CoreStateModel.running_name()).active(),
{
    lifecycle_names();
    let dead = CoreStateModel.dead_names();
    assert(dead[0] == "completed"@ && dead[1] == "failed"@ && dead[2] == "cancelled"@ && dead[3]
        == "paused"@ && dead[4] == "needs_attention"@);
}

/// A session is over where it is completed, failed, cancelled or handed over,
/// and at work where it is initializing or running.
pub proof fn classes_are_over_or_at_work(s: CoreState)
    ensures
        s.terminal() <==> s == CoreState::Completed || s == CoreState::Failed || s
            == CoreState::Cancelled || s == CoreState::NeedsAttention,
        s.active() <==> s == CoreState::Initializing || s == CoreState::Running,
{
}

/// A name that is none of those that all domains share is that of a failed
/// session.
pub proof fn unknown_states_have_failed(state: Seq<char>)
    requires
        state != "created"@,
        state != "initializing"@,
        state != "running"@,
        state != "awaiting_approval"@,
        state != "awaiting_retry"@,
        state != "paused"@,
        state != "completed"@,
        state != "cancelled"@,
        state != "needs_attention"@,
    ensures
        lifecycle(state) == CoreState::Failed,
{
}

/// The agent of a plain chat session changes no phase; it runs, and waits for
/// approval, in the states of those names.
pub proof fn plain_sessions_have_no_phases(name: Seq<char>)
    ensures
        CoreStateModel.allowed(name) is None,
        CoreStateModel.running_name() == "running"@,
        CoreStateModel.approval_name() == "awaiting_approval"@,
        CoreStateModel.dead_names() == seq![
            "completed"@,
            "failed"@,
            "cancelled"@,
            "paused"@,
            "needs_attention"@,
        ],
        CoreStateModel.core_of(name) == lifecycle(name),
{
}

/// Names are seen one by one, in their order.
pub proof fn names_are_seen_in_order<'a>(v: Seq<&'a str>)
    ensures
        names(v).len() == v.len(),
        forall|i: int| 0 <= i < v.len() ==> #[trigger] names(v)[i] == v[i]@,
{
}

}
