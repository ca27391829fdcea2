//! Human approval of risky tool calls.
//!
//! A tool call that is gated is registered with the session's
//! [`ApprovalBroker`] and waits for a decision, which a human gives through
//! the broker. A standing grant for the session skips further questions.

use std::collections::hash_map::RandomState;

use vstd::prelude::*;
use vstd::string::StringExecFns;

use crate::ids::Uuid;
use crate::model::{events_view, ChatEvent, ChatEventView};
use crate::text::{opt_str, opt_text, to_owned_opt};
use crate::time::{Duration, Timestamp};
use crate::validation::{risk_name, risk_to_str, ToolRisk};

verus! {

/// When and how tool calls are gated on human approval.
#[derive(Debug, Clone)]
pub struct ApprovalPolicy {
    /// Tool calls at or above this risk need human approval.
    pub gate_threshold: ToolRisk,
    /// Part of the validator model when direct approval is enabled.
    pub guard_role: GuardRole,
    /// How long to wait for a human before `on_timeout` applies.
    pub timeout: Duration,
    pub on_timeout: TimeoutAction,
    /// Whether a grant for the whole session is offered and accepted.
    pub allow_approve_all: bool,
}

impl Default for ApprovalPolicy {
    fn default() -> (r: ApprovalPolicy)
        ensures
            r == (ApprovalPolicy {
                gate_threshold: ToolRisk::Mutating,
                guard_role: GuardRole::Advises,
                timeout: Duration { secs: 900, nanos: 0 },
                on_timeout: TimeoutAction::Deny,
                allow_approve_all: true,
            }),
    {
        ApprovalPolicy {
            gate_threshold: ToolRisk::Mutating,
            guard_role: GuardRole::Advises,
            timeout: Duration::from_secs(15 * 60),
            on_timeout: TimeoutAction::Deny,
            allow_approve_all: true,
        }
    }
}

/// What the guard's verdict means when direct approval is enabled.
#[derive(Debug, Clone, Copy, PartialEq, Eq, Structural)]
pub enum GuardRole {
    /// The guard's approval approves the call; only calls that it rejects, or
    /// does not see, go to a human.
    Decides,
    /// The human is shown the guard's verdict and decides.
    Advises,
}

/// What happens when nobody decides in time.
#[derive(Debug, Clone, Copy, PartialEq, Eq, Structural)]
pub enum TimeoutAction {
    /// The agent is told that the call failed.
    Deny,
    /// The session is asked to pause.
    PauseSession,
}

/// A human's decision on a pending approval.
#[derive(Debug, Clone)]
pub enum ApprovalDecision {
    Approve,
    ApproveAllForSession,
    Deny { reason: Option<String> },
}

/// The wire name of a decision.
pub open spec fn decision_name(decision: ApprovalDecision) -> Seq<char> {
    match decision {
        ApprovalDecision::Approve => "approved"@,
        ApprovalDecision::ApproveAllForSession => "approved_all"@,
        ApprovalDecision::Deny { .. } => "denied"@,
    }
}

impl ApprovalDecision {
    /// The wire name of the decision.
    pub fn as_str(&self) -> (r: &'static str)
        ensures
            r@ == decision_name(*self),
    {
        match self {
            ApprovalDecision::Approve => "approved",
            ApprovalDecision::ApproveAllForSession => "approved_all",
            ApprovalDecision::Deny { .. } => "denied",
        }
    }
}

/// A tool call that waits for a human's decision.
#[derive(Debug)]
pub struct PendingApproval {
    pub id: Uuid,
    pub session_id: Uuid,
    pub tool_name: String,
    pub args: String,
    pub reason: String,
    pub risk: ToolRisk,
    /// The guard's reasoning, if the validator model ran.
    pub guard_reasoning: Option<String>,
    pub requested_at: Timestamp,
}

/// What a pending approval holds.
#[verifier::ext_equal]
pub struct PendingView {
    pub id: Uuid,
    pub session_id: Uuid,
    pub tool_name: Seq<char>,
    pub args: Seq<char>,
    pub reason: Seq<char>,
    pub risk: ToolRisk,
    pub guard_reasoning: Option<Seq<char>>,
    pub requested_at: Timestamp,
}

impl View for PendingApproval {
    type V = PendingView;

    open spec fn view(&self) -> PendingView {
        PendingView {
            id: self.id,
            session_id: self.session_id,
            tool_name: self.tool_name@,
            args: self.args@,
            reason: self.reason@,
            risk: self.risk,
            guard_reasoning: opt_text(self.guard_reasoning),
            requested_at: self.requested_at,
        }
    }
}

impl Clone for PendingApproval {
    fn clone(&self) -> (r: PendingApproval)
        ensures
            r@ == self@,
    {
        PendingApproval {
            id: self.id,
            session_id: self.session_id,
            tool_name: self.tool_name.clone(),
            args: self.args.clone(),
            reason: self.reason.clone(),
            risk: self.risk,
            guard_reasoning: self.guard_reasoning.clone(),
            requested_at: self.requested_at,
        }
    }
}

// ── The pending approvals of a broker ────────────────────────────────

/// A concurrent map of `dashmap`, opaque here.
#[verifier::external_type_specification]
#[verifier::external_body]
#[verifier::reject_recursive_types(K)]
#[verifier::reject_recursive_types(V)]
#[verifier::reject_recursive_types(S)]
pub struct ExDashMap<K, V, S>(dashmap::DashMap<K, V, S>);

/// What a map of pending approvals holds under each key.
pub uninterp spec fn pending_of(
    map: dashmap::DashMap<u128, PendingApproval, RandomState>,
) -> Map<u128, PendingView>;

/// A map without pending approvals.
pub open spec fn none_pending() -> Map<u128, PendingView> {
    Map::empty()
}

/// Whether pairs list a map: each key once, with what the map holds under it.
pub open spec fn lists(
    pairs: Seq<(u128, PendingApproval)>,
    held: Map<u128, PendingView>,
) -> bool {
    &&& held.dom().finite()
    &&& pairs.len() == held.dom().len()
    &&& forall|i: int|
        0 <= i < pairs.len() ==> held.dom().contains((#[trigger] pairs[i]).0)
            && held[pairs[i].0] == pairs[i].1@
    &&& forall|i: int, j: int|
        0 <= i < j < pairs.len() ==> (#[trigger] pairs[i]).0 != (#[trigger] pairs[j]).0
}

/// `DashMap::new` of `dashmap`: a map that holds nothing.
#[verifier::external_body]
fn pending_new() -> (r: dashmap::DashMap<u128, PendingApproval, RandomState>)
    ensures
        pending_of(r) == none_pending(),
{
    dashmap::DashMap::new()
}

/// `DashMap::insert` of `dashmap`: the map holds the value under the key, in
/// place of what it held there.
#[verifier::external_body]
fn pending_insert(
    map: &mut dashmap::DashMap<u128, PendingApproval, RandomState>,
    key: u128,
    value: PendingApproval,
)
    ensures
        pending_of(*final(map)) == pending_of(*old(map)).insert(key, value@),
{
    map.insert(key, value);
}

/// `DashMap::remove` of `dashmap`: gives the value that the map held under the
/// key, if any, and the map holds nothing there any more.
#[verifier::external_body]
fn pending_remove(
    map: &mut dashmap::DashMap<u128, PendingApproval, RandomState>,
    key: u128,
) -> (r: Option<PendingApproval>)
    ensures
        pending_of(*final(map)) == pending_of(*old(map)).remove(key),
        r is Some <==> pending_of(*old(map)).dom().contains(key),
        r matches Some(v) ==> v@ == pending_of(*old(map))[key],
{
    map.remove(&key).map(|entry| entry.1)
}

/// `DashMap::iter` of `dashmap`: every key once, with a copy of the value
/// under it. The order is left open.
#[verifier::external_body]
fn pending_iter(
    map: &dashmap::DashMap<u128, PendingApproval, RandomState>,
) -> (r: Vec<(u128, PendingApproval)>)
    ensures
        lists(r@, pending_of(*map)),
{
    map.iter().map(|entry| (*entry.key(), entry.value().clone())).collect()
}

// ── The broker ───────────────────────────────────────────────────────

/// How a request for approval ended.
#[derive(Debug)]
pub enum ApprovalOutcome {
    Approved,
    Denied { reason: Option<String> },
    TimedOut,
}

/// What came of waiting for a decision.
#[derive(Debug)]
pub enum ApprovalReply {
    /// Somebody decided.
    Decided(ApprovalDecision),
    /// The broker was cleared without a decision.
    Dropped,
    /// Nobody decided in time.
    TimedOut,
}

/// How a request ends, from what came of waiting. A denial keeps its reason,
/// and without a decision the call is denied.
pub open spec fn outcome_of(reply: ApprovalReply) -> ApprovalOutcome {
    match reply {
        ApprovalReply::Decided(ApprovalDecision::Deny { reason }) => ApprovalOutcome::Denied {
            reason,
        },
        ApprovalReply::Decided(_) => ApprovalOutcome::Approved,
        ApprovalReply::Dropped => ApprovalOutcome::Denied { reason: None },
        ApprovalReply::TimedOut => ApprovalOutcome::TimedOut,
    }
}

/// What is announced at the end of a request: that time was up.
pub open spec fn settle_events(approval_id: Uuid, reply: ApprovalReply) -> Seq<ChatEventView> {
    if reply is TimedOut {
        seq![resolved_event(approval_id, "timeout"@, None)]
    } else {
        Seq::empty()
    }
}

/// There is no pending approval with this identifier.
#[derive(Debug, Clone, Copy)]
pub struct NotPending {
    pub approval_id: Uuid,
}

impl NotPending {
    /// The message of the error.
    pub fn message(&self) -> (r: String)
        ensures
            r@ == "no pending approval "@ + self.approval_id.text(),
    {
        let mut s = "no pending approval ".to_owned();
        s.append(self.approval_id.to_text().as_str());
        s
    }
}

/// The approvals of a session.
pub struct ApprovalBroker {
    session_id: Uuid,
    approve_all: bool,
    pending: dashmap::DashMap<u128, PendingApproval, RandomState>,
}

/// What a broker holds.
pub struct BrokerView {
    pub session_id: Uuid,
    pub approve_all: bool,
    /// The pending approvals by identifier.
    pub pending: Map<u128, PendingView>,
}

impl View for ApprovalBroker {
    type V = BrokerView;

    closed spec fn view(&self) -> BrokerView {
        BrokerView {
            session_id: self.session_id,
            approve_all: self.approve_all,
            pending: pending_of(self.pending),
        }
    }
}

impl BrokerView {
    /// Whether each pending approval is held under its own identifier.
    pub open spec fn wf(self) -> bool {
        forall|k: u128| #[trigger]
            self.pending.dom().contains(k) ==> self.pending[k].id.bits == k
    }
}

/// The event that announces a request for approval.
pub open spec fn request_event(info: PendingView) -> ChatEventView {
    ChatEventView::ApprovalRequest {
        approval_id: info.id,
        tool_name: info.tool_name,
        args: info.args,
        reason: info.reason,
        risk: risk_name(info.risk),
        requested_at: info.requested_at,
    }
}

/// The event that announces how an approval ended.
pub open spec fn resolved_event(
    approval_id: Uuid,
    decision: Seq<char>,
    by: Option<Seq<char>>,
) -> ChatEventView {
    ChatEventView::ApprovalResolved { approval_id, decision, by }
}

/// Whether approvals are the pending ones, each once, in any order.
pub open spec fn are_pending(v: Seq<PendingApproval>, held: Map<u128, PendingView>) -> bool {
    &&& held.dom().finite()
    &&& v.len() == held.dom().len()
    &&& forall|i: int|
        0 <= i < v.len() ==> held.dom().contains((#[trigger] v[i]).id.bits)
            && held[v[i].id.bits] == v[i]@
    &&& forall|i: int, j: int|
        0 <= i < j < v.len() ==> (#[trigger] v[i]).id != (#[trigger] v[j]).id
}

impl ApprovalBroker {
    /// A broker without pending approvals and without a standing grant.
    pub fn new(session_id: Uuid) -> (r: ApprovalBroker)
        ensures
            r@ == (BrokerView { session_id, approve_all: false, pending: Map::empty() }),
            r@.wf(),
    {
        ApprovalBroker { session_id, approve_all: false, pending: pending_new() }
    }

    /// Whether the standing grant is given.
    pub fn approve_all(&self) -> (r: bool)
        ensures
            r == self@.approve_all,
    {
        self.approve_all
    }

    /// Gives the standing grant, or takes it back.
    pub fn set_approve_all(&mut self, v: bool)
        ensures
            final(self)@ == (BrokerView { approve_all: v, ..old(self)@ }),
    {
        self.approve_all = v;
    }

    /// The session whose approvals these are.
    pub fn session_id(&self) -> (r: Uuid)
        ensures
            r == self@.session_id,
    {
        self.session_id
    }

    /// The pending approvals, each once, in no particular order.
    pub fn pending(&self) -> (r: Vec<PendingApproval>)
        requires
            self@.wf(),
        ensures
            are_pending(r@, self@.pending),
    {
        let pairs = pending_iter(&self.pending);
        let ghost listed = pairs@;
        let mut out: Vec<PendingApproval> = Vec::new();
        for pair in it: pairs
            invariant
                it.seq() == listed,
                lists(listed, self@.pending),
                out@.len() == it.index(),
                forall|i: int| 0 <= i < out@.len() ==> #[trigger] out@[i] == listed[i].1,
        {
            out.push(pair.1);
        }
        proof {
            assert forall|i: int| 0 <= i < out@.len() implies self@.pending.dom().contains(
                (#[trigger] out@[i]).id.bits,
            ) && self@.pending[out@[i].id.bits] == out@[i]@ && out@[i].id.bits == listed[i].0 by {
                let pair = listed[i];
                assert(self@.pending.dom().contains(pair.0));
            }
        }
        out
    }

    /// Registers a tool call that waits for a decision, and announces it.
    pub fn request(&mut self, info: PendingApproval, events: &mut Vec<ChatEvent>)
        requires
            old(self)@.wf(),
        ensures
            final(self)@.wf(),
            final(self)@ == (BrokerView {
                pending: old(self)@.pending.insert(info.id.bits, info@),
                ..old(self)@
            }),
            events_view(final(events)@) == events_view(old(events)@).push(request_event(info@)),
    {
        events.push(
            ChatEvent::ApprovalRequest {
                approval_id: info.id,
                tool_name: info.tool_name.clone(),
                args: info.args.clone(),
                reason: info.reason.clone(),
                risk: risk_to_str(info.risk).to_owned(),
                requested_at: info.requested_at,
            },
        );
        proof {
            assert(events_view(events@) =~= events_view(old(events)@).push(request_event(info@)));
        }
        let id: u128 = info.id.bits;
        pending_insert(&mut self.pending, id, info);
    }

    /// Takes a human's decision on a pending approval. Gives the decision back
    /// for the tool call that waits for it.
    pub fn resolve(
        &mut self,
        approval_id: Uuid,
        decision: ApprovalDecision,
        by: Option<&str>,
        events: &mut Vec<ChatEvent>,
    ) -> (r: Result<ApprovalDecision, NotPending>)
        ensures
            old(self)@.wf() ==> final(self)@.wf(),
            if old(self)@.pending.dom().contains(approval_id.bits) {
                &&& r == Ok::<ApprovalDecision, NotPending>(decision)
                &&& final(self)@ == (BrokerView {
                    approve_all: old(self)@.approve_all || decision is ApproveAllForSession,
                    pending: old(self)@.pending.remove(approval_id.bits),
                    ..old(self)@
                })
                &&& events_view(final(events)@) == events_view(old(events)@).push(
                    resolved_event(approval_id, decision_name(decision), opt_str(by)),
                )
            } else {
                &&& r == Err::<ApprovalDecision, NotPending>(NotPending { approval_id })
                &&& final(self)@ == old(self)@
                &&& final(events)@ == old(events)@
            },
    {
        let ghost before = self@.pending;
        if pending_remove(&mut self.pending, approval_id.bits).is_none() {
            proof {
                assert(before.remove(approval_id.bits) =~= before);
            }
            return Err(NotPending { approval_id });
        }
        match decision {
            ApprovalDecision::ApproveAllForSession => {
                self.approve_all = true;
            },
            _ => {},
        }
        events.push(
            ChatEvent::ApprovalResolved {
                approval_id,
                decision: decision.as_str().to_owned(),
                by: to_owned_opt(by),
            },
        );
        proof {
            assert(events_view(events@) =~= events_view(old(events)@).push(
                resolved_event(approval_id, decision_name(decision), opt_str(by)),
            ));
        }
        Ok(decision)
    }

    /// Drops a pending approval that nobody waits for any more.
    pub fn abandon(&mut self, approval_id: Uuid)
        ensures
            old(self)@.wf() ==> final(self)@.wf(),
            final(self)@ == (BrokerView {
                pending: old(self)@.pending.remove(approval_id.bits),
                ..old(self)@
            }),
    {
        pending_remove(&mut self.pending, approval_id.bits);
    }

    /// Ends a request with what came of waiting. Says how it ended, and
    /// whether the session is to pause.
    pub fn settle(
        &mut self,
        approval_id: Uuid,
        reply: ApprovalReply,
        policy: &ApprovalPolicy,
        events: &mut Vec<ChatEvent>,
    ) -> (r: (ApprovalOutcome, bool))
        ensures
            old(self)@.wf() ==> final(self)@.wf(),
            final(self)@ == (BrokerView {
                pending: old(self)@.pending.remove(approval_id.bits),
                ..old(self)@
            }),
            r.0 == outcome_of(reply),
            r.1 == (reply is TimedOut && policy.on_timeout is PauseSession),
            events_view(final(events)@) == events_view(old(events)@) + settle_events(
                approval_id,
                reply,
            ),
    {
        proof {
            assert(events_view(events@) + Seq::<ChatEventView>::empty() =~= events_view(events@));
        }
        let r = match reply {
            ApprovalReply::Decided(ApprovalDecision::Deny { reason }) => (
                ApprovalOutcome::Denied { reason },
                false,
            ),
            ApprovalReply::Decided(_) => (ApprovalOutcome::Approved, false),
            ApprovalReply::Dropped => (ApprovalOutcome::Denied { reason: None }, false),
            ApprovalReply::TimedOut => {
                events.push(
                    ChatEvent::ApprovalResolved {
                        approval_id,
                        decision: "timeout".to_owned(),
                        by: None,
                    },
                );
                proof {
                    assert(events_view(events@) =~= events_view(old(events)@) + settle_events(
                        approval_id,
                        reply,
                    ));
                }
                (ApprovalOutcome::TimedOut, policy.on_timeout == TimeoutAction::PauseSession)
            },
        };
        self.abandon(approval_id);
        r
    }
}

/// A request that is over leaves nothing behind: the pending approvals are
/// what they were before it.
pub proof fn request_leaves_no_trace(before: Map<u128, PendingView>, info: PendingView)
    requires
        !before.dom().contains(info.id.bits),
    ensures
        before.insert(info.id.bits, info).remove(info.id.bits) == before,
{
    assert(before.insert(info.id.bits, info).remove(info.id.bits) =~= before);
}

// ── What approvals come to ───────────────────────────────────────────

/// Each decision goes by its own name; only a denial is told as one.
pub proof fn decisions_go_by_their_names(d: ApprovalDecision)
    ensures
        d is Approve <==> decision_name(d) == "approved"@,
        d is ApproveAllForSession <==> decision_name(d) == "approved_all"@,
        d is Deny <==> decision_name(d) == "denied"@,
{
    reveal_strlit("approved");
    reveal_strlit("approved_all");
    reveal_strlit("denied");
    assert("approved"@.len() == 8 && "approved_all"@.len() == 12 && "denied"@.len() == 6);
}

/// A call is approved exactly where somebody has approved it, once or for the
/// session; a denial keeps its reason; without a decision the call is not
/// approved.
pub proof fn calls_are_approved_by_somebody(reply: ApprovalReply)
    ensures
        outcome_of(reply) is Approved <==> (reply matches ApprovalReply::Decided(d) && (d is Approve
            || d is ApproveAllForSession)),
        reply matches ApprovalReply::Decided(ApprovalDecision::Deny { reason }) ==> outcome_of(
            reply,
        ) == (ApprovalOutcome::Denied { reason }),
        reply is Dropped ==> outcome_of(reply) == (ApprovalOutcome::Denied { reason: None }),
        outcome_of(reply) is TimedOut <==> reply is TimedOut,
{
}

/// Only that time was up is announced at the end of a request; decisions are
/// announced as they are taken.
pub proof fn timeouts_are_announced(approval_id: Uuid, reply: ApprovalReply)
    ensures
        !(reply is TimedOut) ==> settle_events(approval_id, reply).len() == 0,
        reply is TimedOut ==> {
            &&& settle_events(approval_id, reply).len() == 1
            &&& settle_events(approval_id, reply)[0] == (ChatEventView::ApprovalResolved {
                approval_id,
                decision: "timeout"@,
                by: None,
            })
        },
{
}

/// A request is announced with what is asked, and the end of one with what was
/// decided and by whom.
pub proof fn approvals_are_announced_whole(
    info: PendingView,
    decision: Seq<char>,
    by: Option<Seq<char>>,
)
    ensures
        request_event(info) == (ChatEventView::ApprovalRequest {
            approval_id: info.id,
            tool_name: info.tool_name,
            args: info.args,
            reason: info.reason,
            risk: risk_name(info.risk),
            requested_at: info.requested_at,
        }),
        resolved_event(info.id, decision, by) == (ChatEventView::ApprovalResolved {
            approval_id: info.id,
            decision,
            by,
        }),
{
}

/// Approvals that are listed are the pending ones: each pending one is there,
/// and nothing else.
pub proof fn listed_approvals_are_the_pending_ones(
    v: Seq<PendingApproval>,
    held: Map<u128, PendingView>,
)
    requires
        are_pending(v, held),
    ensures
        v.len() == held.dom().len(),
        forall|i: int|
            0 <= i < v.len() ==> held.dom().contains((#[trigger] v[i]).id.bits)
                && held[v[i].id.bits] == v[i]@,
        forall|i: int, j: int|
            0 <= i < v.len() && 0 <= j < v.len() && (#[trigger] v[i]).id == (#[trigger] v[j]).id
                ==> i == j,
{
}

/// What is seen of a pending approval are its fields, each as it is.
pub proof fn pending_approvals_are_seen_whole(p: PendingApproval)
    ensures
        p@.id == p.id && p@.session_id == p.session_id,
        p@.tool_name == p.tool_name@ && p@.args == p.args@ && p@.reason == p.reason@,
        p@.risk == p.risk && p@.requested_at == p.requested_at,
        p.guard_reasoning is None ==> p@.guard_reasoning is None,
        p.guard_reasoning matches Some(g) ==> p@.guard_reasoning == Some(g@),
{
}

}
