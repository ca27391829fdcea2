//! The running sessions and their control.
//!
//! The manager decides; its host owns the channels and the tasks, and does
//! what the manager says.

use std::collections::hash_map::RandomState;

use vstd::prelude::*;
use vstd::string::StringExecFns;

use crate::ids::Uuid;
use crate::json::{Json, JsonView, Object};
use crate::model::{events_view, snapshot, tools_view, ChatEvent, ChatEventView, RunningTool};
use crate::model::RunningToolView;
use crate::text::opt_str;
use crate::validation::approval::{are_pending, decision_name, outcome_of, request_event};
use crate::validation::approval::{resolved_event, settle_events, ApprovalBroker};
use crate::validation::approval::{ApprovalDecision, ApprovalOutcome, ApprovalPolicy};
use crate::validation::approval::{ApprovalReply, BrokerView, NotPending, PendingApproval};

verus! {

/// How many events the channel of a session buffers.
pub const EVENTS_CHANNEL_CAPACITY: usize = 4096;

/// How many messages of the user a session queues while it is busy.
pub const USER_MSG_CHANNEL_CAPACITY: usize = 64;

/// A running session.
pub struct SessionEntry {
    pub broker: ApprovalBroker,
    pub running_tools: Vec<RunningTool>,
    /// Whether the agent task has started.
    pub started: bool,
}

/// What a running session holds.
pub struct EntryView {
    pub broker: BrokerView,
    pub running_tools: Seq<RunningToolView>,
    pub started: bool,
}

impl View for SessionEntry {
    type V = EntryView;

    open spec fn view(&self) -> EntryView {
        EntryView {
            broker: self.broker@,
            running_tools: tools_view(self.running_tools@),
            started: self.started,
        }
    }
}

/// A copy of what can be seen of a running session.
#[derive(Debug)]
pub struct SessionSnapshot {
    pub approve_all: bool,
    pub pending: Vec<PendingApproval>,
    pub running_tools: Vec<RunningTool>,
    pub started: bool,
}

impl SessionSnapshot {
    /// Whether this is what can be seen of a session.
    pub open spec fn shows(self, entry: EntryView) -> bool {
        &&& self.approve_all == entry.broker.approve_all
        &&& are_pending(self.pending@, entry.broker.pending)
        &&& tools_view(self.running_tools@) == entry.running_tools
        &&& self.started == entry.started
    }
}

impl SessionEntry {
    /// What can be seen of the session.
    pub fn look(&self) -> (r: SessionSnapshot)
        requires
            self@.broker.wf(),
        ensures
            r.shows(self@),
    {
        SessionSnapshot {
            approve_all: self.broker.approve_all(),
            pending: self.broker.pending(),
            running_tools: snapshot(&self.running_tools),
            started: self.started,
        }
    }
}

// ── The map of running sessions ──────────────────────────────────────

/// What a map of running sessions holds under each key.
pub uninterp spec fn running_of(
    map: dashmap::DashMap<u128, SessionEntry, RandomState>,
) -> Map<u128, EntryView>;

/// A map without running sessions.
pub open spec fn none_running() -> Map<u128, EntryView> {
    Map::empty()
}

/// Whether the brokers of all sessions are well formed.
pub open spec fn brokers_wf(held: Map<u128, EntryView>) -> bool {
    forall|k: u128| #[trigger] held.dom().contains(k) ==> held[k].broker.wf()
}

/// Whether keys are those of a map, each once.
pub open spec fn keys_listed(keys: Seq<u128>, held: Map<u128, EntryView>) -> bool {
    &&& held.dom().finite()
    &&& keys.len() == held.dom().len()
    &&& forall|i: int| 0 <= i < keys.len() ==> held.dom().contains(#[trigger] keys[i])
    &&& forall|i: int, j: int|
        0 <= i < j < keys.len() ==> #[trigger] keys[i] != #[trigger] keys[j]
}

/// `DashMap::new` of `dashmap`: a map that holds nothing.
#[verifier::external_body]
fn running_new() -> (r: dashmap::DashMap<u128, SessionEntry, RandomState>)
    ensures
        running_of(r) == none_running(),
{
    dashmap::DashMap::new()
}

/// `DashMap::insert` of `dashmap`: the map holds the value under the key, in
/// place of what it held there.
#[verifier::external_body]
fn running_insert(
    map: &mut dashmap::DashMap<u128, SessionEntry, RandomState>,
    key: u128,
    value: SessionEntry,
)
    ensures
        running_of(*final(map)) == running_of(*old(map)).insert(key, value@),
{
    map.insert(key, value);
}

/// `DashMap::remove` of `dashmap`: gives the value that the map held under the
/// key, if any, and the map holds nothing there any more.
#[verifier::external_body]
fn running_remove(
    map: &mut dashmap::DashMap<u128, SessionEntry, RandomState>,
    key: u128,
) -> (r: Option<SessionEntry>)
    ensures
        running_of(*final(map)) == running_of(*old(map)).remove(key),
        r is Some <==> running_of(*old(map)).dom().contains(key),
        r matches Some(v) ==> v@ == running_of(*old(map))[key],
{
    map.remove(&key).map(|entry| entry.1)
}

/// `DashMap::get` of `dashmap`: what can be seen of the value that the map
/// holds under the key, if any.
#[verifier::external_body]
fn running_get(
    map: &dashmap::DashMap<u128, SessionEntry, RandomState>,
    key: u128,
) -> (r: Option<SessionSnapshot>)
    requires
        brokers_wf(running_of(*map)),
    ensures
        r is Some <==> running_of(*map).dom().contains(key),
        r matches Some(s) ==> s.shows(running_of(*map)[key]),
{
    map.get(&key).map(|entry| entry.value().look())
}

/// `DashMap::contains_key` of `dashmap`: whether the map holds a value under
/// the key.
#[verifier::external_body]
fn running_contains(
    map: &dashmap::DashMap<u128, SessionEntry, RandomState>,
    key: u128,
) -> (r: bool)
    ensures
        r == running_of(*map).dom().contains(key),
{
    map.contains_key(&key)
}

/// `DashMap::iter` of `dashmap`: every key once. The order is left open.
#[verifier::external_body]
fn running_keys(map: &dashmap::DashMap<u128, SessionEntry, RandomState>) -> (r: Vec<u128>)
    ensures
        keys_listed(r@, running_of(*map)),
{
    map.iter().map(|entry| *entry.key()).collect()
}

// ── The manager ──────────────────────────────────────────────────────

/// Why a session could not be reached.
#[derive(Debug)]
pub enum ManagerError {
    /// No agent runs for the session.
    NotRunning,
    /// The approval is not pending.
    NotPending(NotPending),
    /// The message could not be queued.
    NotQueued(String),
}

impl ManagerError {
    /// The message of the error.
    pub open spec fn text(self) -> Seq<char> {
        match self {
            ManagerError::NotRunning => "session is not running"@,
            ManagerError::NotPending(e) => "no pending approval "@ + e.approval_id.text(),
            ManagerError::NotQueued(e) => "failed to queue user message: "@ + e@,
        }
    }

    /// The message of the error.
    pub fn message(&self) -> (r: String)
        ensures
            r@ == self.text(),
            match self {
                ManagerError::NotRunning => r@ == "session is not running"@,
                ManagerError::NotPending(e) => r@ == "no pending approval "@
                    + e.approval_id.text(),
                ManagerError::NotQueued(e) => r@ == "failed to queue user message: "@ + e@,
            },
    {
        match self {
            ManagerError::NotRunning => "session is not running".to_owned(),
            ManagerError::NotPending(e) => e.message(),
            ManagerError::NotQueued(e) => {
                let mut s = "failed to queue user message: ".to_owned();
                s.append(e.as_str());
                s
            },
        }
    }
}

/// How a session is cancelled.
#[derive(Debug)]
pub enum CancelAction {
    /// Its agent is told to stop.
    Signal,
    /// No agent runs: the state is stored directly.
    Store { state: String, terminal: bool, state_data: Json },
}

/// What comes next in a shutdown.
#[derive(Debug)]
pub enum ShutdownStep {
    /// All sessions have ended.
    Drained,
    /// Time is up: these sessions are cancelled.
    Cancel(Vec<Uuid>),
    /// Some sessions still run.
    Wait,
}

/// The running sessions.
pub struct SessionManager {
    running: dashmap::DashMap<u128, SessionEntry, RandomState>,
    shutting_down: bool,
}

/// What a manager holds.
pub struct ManagerView {
    /// The running sessions by identifier.
    pub running: Map<u128, EntryView>,
    pub shutting_down: bool,
}

impl View for SessionManager {
    type V = ManagerView;

    closed spec fn view(&self) -> ManagerView {
        ManagerView { running: running_of(self.running), shutting_down: self.shutting_down }
    }
}

/// A session that was just registered.
pub open spec fn fresh_entry(session_id: Uuid) -> EntryView {
    EntryView {
        broker: BrokerView { session_id, approve_all: false, pending: Map::empty() },
        running_tools: Seq::empty(),
        started: false,
    }
}

impl ManagerView {
    /// Whether the brokers of all sessions are well formed.
    pub open spec fn wf(self) -> bool {
        brokers_wf(self.running)
    }

    /// Whether an agent runs, or is about to run, for a session.
    pub open spec fn runs(self, session_id: Uuid) -> bool {
        self.running.dom().contains(session_id.bits)
    }

    /// The manager with a session changed.
    pub open spec fn with(self, session_id: Uuid, entry: EntryView) -> ManagerView {
        ManagerView { running: self.running.insert(session_id.bits, entry), ..self }
    }

    /// The manager with an approval of a session no longer pending.
    pub open spec fn settled(self, session_id: Uuid, approval_id: Uuid) -> ManagerView {
        if self.runs(session_id) {
            let entry = self.running[session_id.bits];
            self.with(
                session_id,
                EntryView {
                    broker: BrokerView {
                        pending: entry.broker.pending.remove(approval_id.bits),
                        ..entry.broker
                    },
                    ..entry
                },
            )
        } else {
            self
        }
    }

    /// The manager without a session.
    pub open spec fn without(self, session_id: Uuid) -> ManagerView {
        ManagerView { running: self.running.remove(session_id.bits), ..self }
    }
}

impl SessionManager {
    /// A manager without sessions.
    pub fn new() -> (r: SessionManager)
        ensures
            r@ == (ManagerView { running: Map::empty(), shutting_down: false }),
            r@.wf(),
    {
        SessionManager { running: running_new(), shutting_down: false }
    }

    /// Registers a session, before its agent is built. A session that was
    /// registered already starts afresh.
    pub fn register(&mut self, session_id: Uuid)
        requires
            old(self)@.wf(),
        ensures
            final(self)@.wf(),
            final(self)@ == old(self)@.with(session_id, fresh_entry(session_id)),
    {
        let entry = SessionEntry {
            broker: ApprovalBroker::new(session_id),
            running_tools: Vec::new(),
            started: false,
        };
        proof {
            assert(entry@.running_tools =~= Seq::<RunningToolView>::empty());
        }
        running_insert(&mut self.running, session_id.bits, entry);
    }

    /// Registers a session unless it is registered already, as where somebody
    /// else has come first to resume it. Says whether it was registered now.
    pub fn try_register(&mut self, session_id: Uuid) -> (r: bool)
        requires
            old(self)@.wf(),
        ensures
            final(self)@.wf(),
            r == !old(self)@.runs(session_id),
            final(self)@ == if r {
                old(self)@.with(session_id, fresh_entry(session_id))
            } else {
                old(self)@
            },
    {
        if self.is_running(session_id) {
            return false;
        }
        self.register(session_id);
        true
    }

    /// Drops a session: its agent was never started, or has ended.
    pub fn unregister(&mut self, session_id: Uuid)
        requires
            old(self)@.wf(),
        ensures
            final(self)@.wf(),
            final(self)@ == old(self)@.without(session_id),
    {
        running_remove(&mut self.running, session_id.bits);
    }

    /// Marks the agent task of a registered session as started. Says whether
    /// there is such a session.
    pub fn run_detached(&mut self, session_id: Uuid) -> (r: bool)
        requires
            old(self)@.wf(),
            old(self)@.runs(session_id) ==> !old(self)@.running[session_id.bits].started,
        ensures
            final(self)@.wf(),
            r == old(self)@.runs(session_id),
            final(self)@ == if r {
                old(self)@.with(
                    session_id,
                    EntryView { started: true, ..old(self)@.running[session_id.bits] },
                )
            } else {
                old(self)@
            },
    {
        let ghost before = self@.running;
        match running_remove(&mut self.running, session_id.bits) {
            Some(entry) => {
                let mut entry = entry;
                entry.started = true;
                running_insert(&mut self.running, session_id.bits, entry);
                proof {
                    let e = EntryView { started: true, ..before[session_id.bits] };
                    assert(before.remove(session_id.bits).insert(session_id.bits, e)
                        =~= before.insert(session_id.bits, e));
                }
                true
            },
            None => {
                proof {
                    assert(before.remove(session_id.bits) =~= before);
                }
                false
            },
        }
    }

    /// Whether the agent task of a session has started.
    pub fn has_started(&self, session_id: Uuid) -> (r: bool)
        requires
            self@.wf(),
        ensures
            r == (self@.runs(session_id) && self@.running[session_id.bits].started),
    {
        match running_get(&self.running, session_id.bits) {
            Some(s) => s.started,
            None => false,
        }
    }

    /// Whether an agent runs for a session.
    pub fn is_running(&self, session_id: Uuid) -> (r: bool)
        ensures
            r == self@.runs(session_id),
    {
        running_contains(&self.running, session_id.bits)
    }

    /// Refuses sessions for which no agent runs. Stands in front of what is
    /// sent to an agent: a message of the user, or a request to pause.
    pub fn require_running(&self, session_id: Uuid) -> (r: Result<(), ManagerError>)
        ensures
            r is Ok <==> self@.runs(session_id),
            r matches Err(e) ==> e is NotRunning,
    {
        if self.is_running(session_id) {
            Ok(())
        } else {
            Err(ManagerError::NotRunning)
        }
    }

    /// The outcome of sending a message of the user to a session, from what
    /// came of queueing it where an agent runs.
    pub fn send_user_message(
        &self,
        session_id: Uuid,
        queued: Result<(), String>,
    ) -> (r: Result<(), ManagerError>)
        ensures
            if self@.runs(session_id) {
                match queued {
                    Ok(_) => r is Ok,
                    Err(e) => r == Err::<(), ManagerError>(ManagerError::NotQueued(e)),
                }
            } else {
                r == Err::<(), ManagerError>(ManagerError::NotRunning)
            },
    {
        if !self.is_running(session_id) {
            return Err(ManagerError::NotRunning);
        }
        match queued {
            Ok(_) => Ok(()),
            Err(e) => Err(ManagerError::NotQueued(e)),
        }
    }

    /// How a session is cancelled.
    pub fn cancel_session(&self, session_id: Uuid) -> (r: CancelAction)
        ensures
            if self@.runs(session_id) {
                r is Signal
            } else {
                r matches CancelAction::Store { state, terminal, state_data } && state@
                    == "cancelled"@ && terminal && state_data.view() == JsonView::Object(
                    Seq::empty(),
                )
            },
    {
        if self.is_running(session_id) {
            CancelAction::Signal
        } else {
            CancelAction::Store {
                state: "cancelled".to_owned(),
                terminal: true,
                state_data: Json::Object(Object::new()),
            }
        }
    }

    /// The tools that a session is executing; none where no agent runs.
    pub fn running_tools(&self, session_id: Uuid) -> (r: Vec<RunningTool>)
        requires
            self@.wf(),
        ensures
            tools_view(r@) == if self@.runs(session_id) {
                self@.running[session_id.bits].running_tools
            } else {
                Seq::empty()
            },
    {
        match running_get(&self.running, session_id.bits) {
            Some(s) => s.running_tools,
            None => {
                let none: Vec<RunningTool> = Vec::new();
                proof {
                    assert(tools_view(none@) =~= Seq::<RunningToolView>::empty());
                }
                none
            },
        }
    }

    /// Records the tools that a session is executing.
    pub fn set_running_tools(&mut self, session_id: Uuid, tools: Vec<RunningTool>) -> (r: Result<
        (),
        ManagerError,
    >)
        requires
            old(self)@.wf(),
        ensures
            final(self)@.wf(),
            if old(self)@.runs(session_id) {
                &&& r is Ok
                &&& final(self)@ == old(self)@.with(
                    session_id,
                    EntryView {
                        running_tools: tools_view(tools@),
                        ..old(self)@.running[session_id.bits]
                    },
                )
            } else {
                &&& r == Err::<(), ManagerError>(ManagerError::NotRunning)
                &&& final(self)@ == old(self)@
            },
    {
        let ghost before = self@.running;
        match running_remove(&mut self.running, session_id.bits) {
            Some(entry) => {
                let mut entry = entry;
                entry.running_tools = tools;
                let ghost e = entry@;
                running_insert(&mut self.running, session_id.bits, entry);
                proof {
                    assert(before.remove(session_id.bits).insert(session_id.bits, e)
                        =~= before.insert(session_id.bits, e));
                }
                Ok(())
            },
            None => {
                proof {
                    assert(before.remove(session_id.bits) =~= before);
                }
                Err(ManagerError::NotRunning)
            },
        }
    }

    /// The pending approvals of a session; none where no agent runs.
    pub fn pending_approvals(&self, session_id: Uuid) -> (r: Vec<PendingApproval>)
        requires
            self@.wf(),
        ensures
            if self@.runs(session_id) {
                are_pending(r@, self@.running[session_id.bits].broker.pending)
            } else {
                r@.len() == 0
            },
    {
        match running_get(&self.running, session_id.bits) {
            Some(s) => s.pending,
            None => Vec::new(),
        }
    }

    /// Registers a tool call of a session that waits for a decision, and
    /// announces it.
    pub fn request_approval(
        &mut self,
        session_id: Uuid,
        info: PendingApproval,
        events: &mut Vec<ChatEvent>,
    ) -> (r: Result<(), ManagerError>)
        requires
            old(self)@.wf(),
        ensures
            final(self)@.wf(),
            if old(self)@.runs(session_id) {
                let entry = old(self)@.running[session_id.bits];
                &&& r is Ok
                &&& final(self)@ == old(self)@.with(
                    session_id,
                    EntryView {
                        broker: BrokerView {
                            pending: entry.broker.pending.insert(info.id.bits, info@),
                            ..entry.broker
                        },
                        ..entry
                    },
                )
                &&& events_view(final(events)@) == events_view(old(events)@).push(
                    request_event(info@),
                )
            } else {
                &&& r == Err::<(), ManagerError>(ManagerError::NotRunning)
                &&& final(self)@ == old(self)@
                &&& final(events)@ == old(events)@
            },
    {
        let ghost before = self@.running;
        match running_remove(&mut self.running, session_id.bits) {
            Some(entry) => {
                let mut entry = entry;
                entry.broker.request(info, events);
                let ghost e = entry@;
                running_insert(&mut self.running, session_id.bits, entry);
                proof {
                    assert(before.remove(session_id.bits).insert(session_id.bits, e)
                        =~= before.insert(session_id.bits, e));
                }
                Ok(())
            },
            None => {
                proof {
                    assert(before.remove(session_id.bits) =~= before);
                }
                Err(ManagerError::NotRunning)
            },
        }
    }

    /// Takes a human's decision on a pending approval of a session. Gives the
    /// decision back for the tool call that waits for it.
    pub fn resolve_approval(
        &mut self,
        session_id: Uuid,
        approval_id: Uuid,
        decision: ApprovalDecision,
        by: Option<&str>,
        events: &mut Vec<ChatEvent>,
    ) -> (r: Result<ApprovalDecision, ManagerError>)
        requires
            old(self)@.wf(),
        ensures
            final(self)@.wf(),
            if !old(self)@.runs(session_id) {
                &&& r == Err::<ApprovalDecision, ManagerError>(ManagerError::NotRunning)
                &&& final(self)@ == old(self)@
                &&& final(events)@ == old(events)@
            } else {
                let entry = old(self)@.running[session_id.bits];
                if entry.broker.pending.dom().contains(approval_id.bits) {
                    &&& r == Ok::<ApprovalDecision, ManagerError>(decision)
                    &&& final(self)@ == old(self)@.with(
                        session_id,
                        EntryView {
                            broker: BrokerView {
                                approve_all: entry.broker.approve_all
                                    || decision is ApproveAllForSession,
                                pending: entry.broker.pending.remove(approval_id.bits),
                                ..entry.broker
                            },
                            ..entry
                        },
                    )
                    &&& events_view(final(events)@) == events_view(old(events)@).push(
                        resolved_event(approval_id, decision_name(decision), opt_str(by)),
                    )
                } else {
                    &&& r == Err::<ApprovalDecision, ManagerError>(
                        ManagerError::NotPending(NotPending { approval_id }),
                    )
                    &&& final(self)@ == old(self)@
                    &&& final(events)@ == old(events)@
                }
            },
    {
        let ghost before = self@.running;
        let ghost key = session_id.bits;
        match running_remove(&mut self.running, session_id.bits) {
            Some(entry) => {
                let mut entry = entry;
                let outcome = entry.broker.resolve(approval_id, decision, by, events);
                let ghost e = entry@;
                running_insert(&mut self.running, session_id.bits, entry);
                proof {
                    assert(before.remove(key).insert(key, e) =~= before.insert(key, e));
                    assert(before.insert(key, before[key]) =~= before);
                }
                match outcome {
                    Ok(d) => Ok(d),
                    Err(e) => Err(ManagerError::NotPending(e)),
                }
            },
            None => {
                proof {
                    assert(before.remove(key) =~= before);
                }
                Err(ManagerError::NotRunning)
            },
        }
    }

    /// Ends a request for approval with what came of waiting. Says how it
    /// ended, and whether the session is to pause. A session that has ended
    /// meanwhile changes nothing about that.
    pub fn settle_approval(
        &mut self,
        session_id: Uuid,
        approval_id: Uuid,
        reply: ApprovalReply,
        policy: &ApprovalPolicy,
        events: &mut Vec<ChatEvent>,
    ) -> (r: (ApprovalOutcome, bool))
        requires
            old(self)@.wf(),
        ensures
            final(self)@.wf(),
            final(self)@ == old(self)@.settled(session_id, approval_id),
            r.0 == outcome_of(reply),
            r.1 == (reply is TimedOut && policy.on_timeout is PauseSession),
            events_view(final(events)@) == events_view(old(events)@) + settle_events(
                approval_id,
                reply,
            ),
    {
        let ghost before = self@.running;
        match running_remove(&mut self.running, session_id.bits) {
            Some(entry) => {
                let mut entry = entry;
                let r = entry.broker.settle(approval_id, reply, policy, events);
                let ghost e = entry@;
                running_insert(&mut self.running, session_id.bits, entry);
                proof {
                    assert(before.remove(session_id.bits).insert(session_id.bits, e)
                        =~= before.insert(session_id.bits, e));
                }
                r
            },
            None => {
                proof {
                    assert(before.remove(session_id.bits) =~= before);
                }
                let mut broker = ApprovalBroker::new(session_id);
                broker.settle(approval_id, reply, policy, events)
            },
        }
    }

    /// Drops a pending approval of a session that nobody waits for any more.
    pub fn abandon_approval(&mut self, session_id: Uuid, approval_id: Uuid)
        requires
            old(self)@.wf(),
        ensures
            final(self)@.wf(),
            final(self)@ == old(self)@.settled(session_id, approval_id),
    {
        let ghost before = self@.running;
        match running_remove(&mut self.running, session_id.bits) {
            Some(entry) => {
                let mut entry = entry;
                entry.broker.abandon(approval_id);
                let ghost e = entry@;
                running_insert(&mut self.running, session_id.bits, entry);
                proof {
                    assert(before.remove(session_id.bits).insert(session_id.bits, e)
                        =~= before.insert(session_id.bits, e));
                }
            },
            None => {
                proof {
                    assert(before.remove(session_id.bits) =~= before);
                }
            },
        }
    }

    /// Whether the standing grant of a session is given; nothing where no
    /// agent runs.
    pub fn approve_all(&self, session_id: Uuid) -> (r: Option<bool>)
        requires
            self@.wf(),
        ensures
            r == if self@.runs(session_id) {
                Some(self@.running[session_id.bits].broker.approve_all)
            } else {
                None
            },
    {
        match running_get(&self.running, session_id.bits) {
            Some(s) => Some(s.approve_all),
            None => None,
        }
    }

    /// Gives the standing grant of a session, or takes it back.
    pub fn set_approve_all(&mut self, session_id: Uuid, value: bool) -> (r: Result<
        (),
        ManagerError,
    >)
        requires
            old(self)@.wf(),
        ensures
            final(self)@.wf(),
            if old(self)@.runs(session_id) {
                let entry = old(self)@.running[session_id.bits];
                &&& r is Ok
                &&& final(self)@ == old(self)@.with(
                    session_id,
                    EntryView {
                        broker: BrokerView { approve_all: value, ..entry.broker },
                        ..entry
                    },
                )
            } else {
                &&& r == Err::<(), ManagerError>(ManagerError::NotRunning)
                &&& final(self)@ == old(self)@
            },
    {
        let ghost before = self@.running;
        match running_remove(&mut self.running, session_id.bits) {
            Some(entry) => {
                let mut entry = entry;
                entry.broker.set_approve_all(value);
                let ghost e = entry@;
                running_insert(&mut self.running, session_id.bits, entry);
                proof {
                    assert(before.remove(session_id.bits).insert(session_id.bits, e)
                        =~= before.insert(session_id.bits, e));
                }
                Ok(())
            },
            None => {
                proof {
                    assert(before.remove(session_id.bits) =~= before);
                }
                Err(ManagerError::NotRunning)
            },
        }
    }

    // ── Shutdown ─────────────────────────────────────────────────────

    /// Starts a shutdown. Gives the number of sessions that run.
    pub fn begin_shutdown(&mut self) -> (r: usize)
        ensures
            final(self)@ == (ManagerView { shutting_down: true, ..old(self)@ }),
            r == old(self)@.running.dom().len(),
    {
        self.shutting_down = true;
        running_keys(&self.running).len()
    }

    /// What comes next in a shutdown.
    pub fn shutdown_step(&self, time_is_up: bool) -> (r: ShutdownStep)
        ensures
            if self@.running.dom().len() == 0 {
                r is Drained
            } else if time_is_up {
                r matches ShutdownStep::Cancel(ids) && keys_listed(
                    ids@.map_values(|id: Uuid| id.bits),
                    self@.running,
                )
            } else {
                r is Wait
            },
    {
        let keys = running_keys(&self.running);
        if keys.len() == 0 {
            return ShutdownStep::Drained;
        }
        if !time_is_up {
            return ShutdownStep::Wait;
        }
        let mut ids: Vec<Uuid> = Vec::new();
        let mut i: usize = 0;
        while i < keys.len()
            invariant
                i <= keys@.len(),
                ids@.len() == i,
                forall|k: int| 0 <= k < i ==> (#[trigger] ids@[k]).bits == keys@[k],
            decreases keys.len() - i,
        {
            ids.push(Uuid { bits: keys[i] });
            i = i + 1;
        }
        proof {
            assert(ids@.map_values(|id: Uuid| id.bits) =~= keys@);
        }
        ShutdownStep::Cancel(ids)
    }

    /// Whether the system is shutting down.
    pub fn is_shutting_down(&self) -> (r: bool)
        ensures
            r == self@.shutting_down,
    {
        self.shutting_down
    }
}

/// How a session fails behind a run: the error that it is stored with and its
/// state data, which are empty. Nothing where the run has not failed.
pub fn after_run(result: &Result<(), String>) -> (r: Option<(String, Json)>)
    ensures
        match result {
            Ok(_) => r is None,
            Err(e) => r matches Some((message, data)) && message@ == e@ && data.view()
                == JsonView::Object(Seq::empty()),
        },
{
    match result {
        Ok(_) => None,
        Err(e) => Some((e.clone(), Json::Object(Object::new()))),
    }
}

/// The event that ends the stream of a session, from the state that is stored
/// for it.
pub fn done_event(stored_state: Option<String>) -> (r: ChatEvent)
    ensures
        r@ == (ChatEventView::Done {
            state: match stored_state {
                Some(s) => s@,
                None => "unknown"@,
            },
        }),
{
    let state = match stored_state {
        Some(s) => s,
        None => "unknown".to_owned(),
    };
    ChatEvent::Done { state }
}

/// A session that is registered and dropped leaves the others as they were.
pub proof fn sessions_come_and_go(before: ManagerView, session_id: Uuid, entry: EntryView)
    requires
        !before.runs(session_id),
    ensures
        before.with(session_id, entry).runs(session_id),
        before.with(session_id, entry).without(session_id) == before,
{
    assert(before.running.insert(session_id.bits, entry).remove(session_id.bits)
        =~= before.running);
}

// ── What the manager keeps ───────────────────────────────────────────

/// Changing a session changes that session and no other, and does not start a
/// shutdown; dropping one drops that one and no other.
pub proof fn sessions_do_not_touch_one_another(
    before: ManagerView,
    session_id: Uuid,
    entry: EntryView,
    other: Uuid,
)
    ensures
        before.with(session_id, entry).runs(session_id),
        before.with(session_id, entry).running[session_id.bits] == entry,
        before.with(session_id, entry).shutting_down == before.shutting_down,
        !before.without(session_id).runs(session_id),
        before.without(session_id).shutting_down == before.shutting_down,
        other != session_id ==> {
            &&& before.with(session_id, entry).runs(other) <==> before.runs(other)
            &&& before.without(session_id).runs(other) <==> before.runs(other)
            &&& before.runs(other) ==> before.with(session_id, entry).running[other.bits]
                == before.running[other.bits]
            &&& before.runs(other) ==> before.without(session_id).running[other.bits]
                == before.running[other.bits]
        },
{
}

/// A session that was just registered has no pending approval, no standing
/// grant, no executing tool, and an agent that has not started.
pub proof fn fresh_sessions_hold_nothing(session_id: Uuid, approval: u128)
    ensures
        fresh_entry(session_id).broker.session_id == session_id,
        !fresh_entry(session_id).broker.approve_all,
        !fresh_entry(session_id).broker.pending.dom().contains(approval),
        fresh_entry(session_id).running_tools.len() == 0,
        !fresh_entry(session_id).started,
{
}

/// An approval that is settled is pending no more; the other approvals of the
/// session, its grant and its tools stay, and so do the other sessions. For a
/// session that does not run nothing changes.
pub proof fn settling_touches_one_approval(
    before: ManagerView,
    session_id: Uuid,
    approval_id: Uuid,
    other: Uuid,
    another: Uuid,
)
    ensures
        !before.runs(session_id) ==> before.settled(session_id, approval_id) == before,
        before.settled(session_id, approval_id).shutting_down == before.shutting_down,
        before.runs(session_id) ==> {
            let was = before.running[session_id.bits];
            let after = before.settled(session_id, approval_id).running[session_id.bits];
            &&& before.settled(session_id, approval_id).runs(session_id)
            &&& !after.broker.pending.dom().contains(approval_id.bits)
            &&& other != approval_id ==> {
                &&& after.broker.pending.dom().contains(other.bits)
                    <==> was.broker.pending.dom().contains(other.bits)
                &&& was.broker.pending.dom().contains(other.bits)
                    ==> after.broker.pending[other.bits] == was.broker.pending[other.bits]
            }
            &&& after.broker.approve_all == was.broker.approve_all
            &&& after.broker.session_id == was.broker.session_id
            &&& after.running_tools == was.running_tools
            &&& after.started == was.started
        },
        another != session_id ==> {
            &&& before.settled(session_id, approval_id).runs(another) <==> before.runs(another)
            &&& before.runs(another) ==> before.settled(session_id, approval_id).running[another.bits]
                == before.running[another.bits]
        },
{
}

/// What can be seen of a session is what it holds.
pub proof fn snapshots_show_what_is_held(s: SessionSnapshot, entry: EntryView)
    requires
        s.shows(entry),
    ensures
        s.approve_all == entry.broker.approve_all,
        s.started == entry.started,
        tools_view(s.running_tools@) == entry.running_tools,
        are_pending(s.pending@, entry.broker.pending),
{
}

/// Keys that are listed are those of the map, each once.
pub proof fn listed_keys_are_those_held(keys: Seq<u128>, held: Map<u128, EntryView>)
    requires
        keys_listed(keys, held),
    ensures
        keys.len() == held.dom().len(),
        forall|i: int| 0 <= i < keys.len() ==> held.dom().contains(#[trigger] keys[i]),
        forall|i: int, j: int|
            0 <= i < keys.len() && 0 <= j < keys.len() && #[trigger] keys[i]
                == #[trigger] keys[j] ==> i == j,
{
}

/// How much the channels of a session hold.
pub proof fn channels_are_bounded()
    ensures
        EVENTS_CHANNEL_CAPACITY == 4096,
        USER_MSG_CHANNEL_CAPACITY == 64,
{
}

/// A session runs exactly where the manager holds it.
pub proof fn held_sessions_run(m: ManagerView, session_id: Uuid)
    ensures
        m.runs(session_id) <==> m.running.dom().contains(session_id.bits),
{
}

}
