//! Approvals of tool calls.

use plan_ai_core::ids::Uuid;
use plan_ai_core::manager::{CancelAction, ManagerError, SessionManager, ShutdownStep};
use plan_ai_core::model::{ChatEvent, RunningTool};
use plan_ai_core::time::{Duration, Timestamp};
use plan_ai_core::validation::approval::{
    ApprovalBroker, ApprovalDecision, ApprovalOutcome, ApprovalPolicy, ApprovalReply, GuardRole,
    PendingApproval, TimeoutAction,
};
use plan_ai_core::validation::ToolRisk;

fn id(n: u128) -> Uuid {
    Uuid { bits: n }
}

fn now() -> Timestamp {
    Timestamp::new(1_767_225_600, 0).unwrap()
}

fn info(n: u128) -> PendingApproval {
    PendingApproval {
        id: id(n),
        session_id: id(1),
        tool_name: "write_file".into(),
        args: "{}".into(),
        reason: "test".into(),
        risk: ToolRisk::Destructive,
        guard_reasoning: None,
        requested_at: now(),
    }
}

#[test]
fn approve_resolves_request() {
    let mut b = ApprovalBroker::new(id(1));
    let mut events = Vec::new();
    b.request(info(7), &mut events);
    assert_eq!(b.pending().len(), 1);
    let decision = b.resolve(id(7), ApprovalDecision::Approve, Some("admin"), &mut events).unwrap();
    let (outcome, pause) =
        b.settle(id(7), ApprovalReply::Decided(decision), &ApprovalPolicy::default(), &mut events);
    assert!(matches!(outcome, ApprovalOutcome::Approved));
    assert!(!pause);
    assert!(b.pending().is_empty());
    assert!(!b.approve_all());
}

#[test]
fn approve_all_sets_standing_grant() {
    let mut b = ApprovalBroker::new(id(1));
    let mut events = Vec::new();
    b.request(info(7), &mut events);
    let decision = b
        .resolve(id(7), ApprovalDecision::ApproveAllForSession, None, &mut events)
        .unwrap();
    let (outcome, _) =
        b.settle(id(7), ApprovalReply::Decided(decision), &ApprovalPolicy::default(), &mut events);
    assert!(matches!(outcome, ApprovalOutcome::Approved));
    assert!(b.approve_all());
}

#[test]
fn deny_carries_reason() {
    let mut b = ApprovalBroker::new(id(1));
    let mut events = Vec::new();
    b.request(info(7), &mut events);
    let decision = b
        .resolve(
            id(7),
            ApprovalDecision::Deny { reason: Some("nope".into()) },
            None,
            &mut events,
        )
        .unwrap();
    let (outcome, _) =
        b.settle(id(7), ApprovalReply::Decided(decision), &ApprovalPolicy::default(), &mut events);
    match outcome {
        ApprovalOutcome::Denied { reason } => assert_eq!(reason.as_deref(), Some("nope")),
        other => panic!("expected denied, got {other:?}"),
    }
    assert!(!b.approve_all());
}

#[test]
fn timeout_denies() {
    let mut b = ApprovalBroker::new(id(1));
    let mut events = Vec::new();
    b.request(info(7), &mut events);
    let (outcome, pause) =
        b.settle(id(7), ApprovalReply::TimedOut, &ApprovalPolicy::default(), &mut events);
    assert!(matches!(outcome, ApprovalOutcome::TimedOut));
    assert!(!pause);
    assert!(b.pending().is_empty());
    match &events[1] {
        ChatEvent::ApprovalResolved { approval_id, decision, by } => {
            assert_eq!(*approval_id, id(7));
            assert_eq!(decision, "timeout");
            assert!(by.is_none());
        }
        _ => panic!("no end of the approval"),
    }
}

#[test]
fn timeout_may_pause_the_session() {
    let mut b = ApprovalBroker::new(id(1));
    let mut events = Vec::new();
    b.request(info(7), &mut events);
    let policy =
        ApprovalPolicy { on_timeout: TimeoutAction::PauseSession, ..ApprovalPolicy::default() };
    let (_, pause) = b.settle(id(7), ApprovalReply::TimedOut, &policy, &mut events);
    assert!(pause);
}

#[test]
fn dropped_request_cleans_pending() {
    let mut b = ApprovalBroker::new(id(1));
    let mut events = Vec::new();
    b.request(info(7), &mut events);
    b.abandon(id(7));
    assert!(b.pending().is_empty());
    assert!(b.resolve(id(9), ApprovalDecision::Approve, None, &mut events).is_err());
}

#[test]
fn cleared_broker_denies() {
    let mut b = ApprovalBroker::new(id(1));
    let mut events = Vec::new();
    b.request(info(7), &mut events);
    let (outcome, _) =
        b.settle(id(7), ApprovalReply::Dropped, &ApprovalPolicy::default(), &mut events);
    assert!(matches!(outcome, ApprovalOutcome::Denied { reason: None }));
}

#[test]
fn default_policy() {
    let p = ApprovalPolicy::default();
    assert_eq!(p.gate_threshold, ToolRisk::Mutating);
    assert_eq!(p.guard_role, GuardRole::Advises);
    assert_eq!(p.timeout, Duration { secs: 900, nanos: 0 });
    assert_eq!(p.on_timeout, TimeoutAction::Deny);
    assert!(p.allow_approve_all);
}

#[test]
fn unknown_approval_is_named() {
    let mut b = ApprovalBroker::new(id(1));
    let mut events = Vec::new();
    let err = b.resolve(id(0xab), ApprovalDecision::Approve, None, &mut events).unwrap_err();
    assert_eq!(err.message(), "no pending approval 00000000-0000-0000-0000-0000000000ab");
    assert!(events.is_empty());
}

#[test]
fn approvals_are_announced() {
    let mut b = ApprovalBroker::new(id(1));
    let mut events = Vec::new();
    b.request(info(7), &mut events);
    b.request(info(8), &mut events);
    assert_eq!(b.pending().len(), 2);
    b.resolve(id(8), ApprovalDecision::Approve, Some("me"), &mut events).unwrap();
    let left = b.pending();
    assert_eq!(left.len(), 1);
    assert_eq!(left[0].id, id(7));
    match &events[0] {
        ChatEvent::ApprovalRequest { approval_id, tool_name, args, reason, risk, requested_at } => {
            assert_eq!(*approval_id, id(7));
            assert_eq!(tool_name, "write_file");
            assert_eq!(args, "{}");
            assert_eq!(reason, "test");
            assert_eq!(risk, "destructive");
            assert_eq!(*requested_at, now());
        }
        _ => panic!("no request"),
    }
    match &events[2] {
        ChatEvent::ApprovalResolved { decision, by, .. } => {
            assert_eq!(decision, "approved");
            assert_eq!(by.as_deref(), Some("me"));
        }
        _ => panic!("no end of the approval"),
    }
}

#[test]
fn decisions_have_wire_names() {
    assert_eq!(ApprovalDecision::Approve.as_str(), "approved");
    assert_eq!(ApprovalDecision::ApproveAllForSession.as_str(), "approved_all");
    assert_eq!(ApprovalDecision::Deny { reason: None }.as_str(), "denied");
}

// ── The manager of running sessions ──────────────────────────────────

#[test]
fn sessions_are_registered_and_dropped() {
    let mut m = SessionManager::new();
    assert!(!m.is_running(id(1)));
    m.register(id(1));
    m.register(id(2));
    assert!(m.is_running(id(1)));
    assert!(!m.has_started(id(1)));
    assert!(m.run_detached(id(1)));
    assert!(m.has_started(id(1)));
    assert!(!m.run_detached(id(3)));
    m.unregister(id(1));
    assert!(!m.is_running(id(1)));
    assert!(m.is_running(id(2)));
}

#[test]
fn sessions_that_do_not_run_are_refused() {
    let mut m = SessionManager::new();
    let mut events = Vec::new();
    assert_eq!(m.require_running(id(1)).unwrap_err().message(), "session is not running");
    assert!(matches!(m.send_user_message(id(1), Ok(())), Err(ManagerError::NotRunning)));
    assert!(m.set_approve_all(id(1), true).is_err());
    assert!(m.approve_all(id(1)).is_none());
    assert!(m.pending_approvals(id(1)).is_empty());
    assert!(m.running_tools(id(1)).is_empty());
    assert!(matches!(
        m.resolve_approval(id(1), id(7), ApprovalDecision::Approve, None, &mut events),
        Err(ManagerError::NotRunning)
    ));
    assert!(m.request_approval(id(1), info(7), &mut events).is_err());
    assert!(m.set_running_tools(id(1), Vec::new()).is_err());
    match m.cancel_session(id(1)) {
        CancelAction::Store { state, terminal, .. } => {
            assert_eq!(state, "cancelled");
            assert!(terminal);
        }
        CancelAction::Signal => panic!("no agent runs"),
    }
}

#[test]
fn messages_are_queued_for_running_sessions() {
    let mut m = SessionManager::new();
    m.register(id(1));
    assert!(m.require_running(id(1)).is_ok());
    assert!(m.send_user_message(id(1), Ok(())).is_ok());
    assert_eq!(
        m.send_user_message(id(1), Err("no available capacity".into())).unwrap_err().message(),
        "failed to queue user message: no available capacity"
    );
    assert!(matches!(m.cancel_session(id(1)), CancelAction::Signal));
}

#[test]
fn approvals_of_a_running_session() {
    let mut m = SessionManager::new();
    let mut events = Vec::new();
    m.register(id(1));
    m.register(id(2));
    m.request_approval(id(1), info(7), &mut events).unwrap();
    assert_eq!(m.pending_approvals(id(1)).len(), 1);
    assert!(m.pending_approvals(id(2)).is_empty());
    assert_eq!(
        m.resolve_approval(id(2), id(7), ApprovalDecision::Approve, None, &mut events)
            .unwrap_err()
            .message(),
        "no pending approval 00000000-0000-0000-0000-000000000007"
    );
    m.resolve_approval(id(1), id(7), ApprovalDecision::ApproveAllForSession, None, &mut events)
        .unwrap();
    assert_eq!(m.approve_all(id(1)), Some(true));
    assert_eq!(m.approve_all(id(2)), Some(false));
    m.set_approve_all(id(1), false).unwrap();
    assert_eq!(m.approve_all(id(1)), Some(false));

    m.request_approval(id(1), info(8), &mut events).unwrap();
    let (outcome, _) = m.settle_approval(
        id(1),
        id(8),
        ApprovalReply::TimedOut,
        &ApprovalPolicy::default(),
        &mut events,
    );
    assert!(matches!(outcome, ApprovalOutcome::TimedOut));
    assert!(m.pending_approvals(id(1)).is_empty());
    m.request_approval(id(1), info(9), &mut events).unwrap();
    m.abandon_approval(id(1), id(9));
    assert!(m.pending_approvals(id(1)).is_empty());
}

#[test]
fn registering_again_starts_afresh() {
    let mut m = SessionManager::new();
    let mut events = Vec::new();
    m.register(id(1));
    m.request_approval(id(1), info(7), &mut events).unwrap();
    m.set_approve_all(id(1), true).unwrap();
    m.register(id(1));
    assert!(m.pending_approvals(id(1)).is_empty());
    assert_eq!(m.approve_all(id(1)), Some(false));
}

#[test]
fn tools_of_a_running_session() {
    let mut m = SessionManager::new();
    m.register(id(1));
    let tool = RunningTool { name: "t".into(), args: None, started_at: now(), validation: None };
    m.set_running_tools(id(1), vec![tool]).unwrap();
    assert_eq!(m.running_tools(id(1))[0].name, "t");
}

#[test]
fn shutdown_waits_and_cancels() {
    let mut m = SessionManager::new();
    assert!(!m.is_shutting_down());
    m.register(id(1));
    m.register(id(2));
    assert_eq!(m.begin_shutdown(), 2);
    assert!(m.is_shutting_down());
    assert!(matches!(m.shutdown_step(false), ShutdownStep::Wait));
    match m.shutdown_step(true) {
        ShutdownStep::Cancel(mut ids) => {
            ids.sort_by_key(|id| id.bits);
            assert_eq!(ids, vec![id(1), id(2)]);
        }
        _ => panic!("time is up"),
    }
    m.unregister(id(1));
    m.unregister(id(2));
    assert!(matches!(m.shutdown_step(true), ShutdownStep::Drained));
}

#[test]
fn running_sessions_are_not_registered_again() {
    let mut m = SessionManager::new();
    assert!(m.try_register(id(1)));
    assert!(m.run_detached(id(1)));
    m.set_approve_all(id(1), true).unwrap();
    assert!(!m.try_register(id(1)));
    assert!(m.has_started(id(1)));
    assert_eq!(m.approve_all(id(1)), Some(true));
    m.unregister(id(1));
    assert!(m.try_register(id(1)));
    assert!(!m.has_started(id(1)));
    assert_eq!(m.approve_all(id(1)), Some(false));
}
