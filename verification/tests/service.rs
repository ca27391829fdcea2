//! The chat service: access, starting and resuming, tools and states.

use plan_ai_core::bridge::registry::Endpoint;
use plan_ai_core::ids::Uuid;
use plan_ai_core::json::{parse, print, Json, Object};
use plan_ai_core::manager::SessionManager;
use plan_ai_core::model::ChatSession;
use plan_ai_core::service::{
    approval_policy, auto_approve, build_session_spec, decision_record, get_session_checked,
    needs_budget, prefix_context, restart_transition, resume_state, running_count, scope_for,
    send_message, session_tools, sessions_to_pause, set_phase_description, start_session,
    tool_index, ChatServiceConfig, ChatStateModel, ChatUserCtx, Delivery, ServiceError,
    CHAT_PHASES, EXTENDED_BUDGET,
};
use plan_ai_core::session_loop::InitialPrompt;
use plan_ai_core::state::{CoreState, CoreStateModel, StateModel};
use plan_ai_core::time::{Duration, Timestamp};
use plan_ai_core::validation::approval::{ApprovalDecision, GuardRole, TimeoutAction};
use plan_ai_core::validation::ToolRisk;

fn id(n: u128) -> Uuid {
    Uuid { bits: n }
}

fn user(email: &str, is_admin: bool) -> ChatUserCtx {
    ChatUserCtx { email: email.into(), is_admin }
}

fn session(n: u128, state: &str, data: &str) -> ChatSession {
    let now = Timestamp::new(0, 0).unwrap();
    ChatSession {
        id: id(n),
        scope_id: id(0),
        subject: "me@x".into(),
        state: state.into(),
        state_data: parse(data.as_bytes()).unwrap(),
        created_by: "me@x".into(),
        created_at: now,
        updated_at: now,
        completed_at: None,
        error_message: None,
        initial_context: Json::Null,
        provider: Some("ollama".into()),
        model: Some("gemma".into()),
        label: None,
    }
}

#[test]
fn default_configuration() {
    let c = ChatServiceConfig::default();
    assert_eq!(c.token_budget, 500_000);
    assert_eq!(c.risk_threshold, "mutating");
    assert!(c.allow_approve_all);
    assert_eq!(c.max_active_sessions_per_user, 3);
    assert_eq!(c.idle_park_minutes, 30);
    assert!(c.tools_include.is_empty() && c.tools_exclude.is_empty());
    assert!(c.validator_provider.is_none() && c.validator_model.is_none());
}

#[test]
fn thresholds_of_the_policy() {
    let with = |threshold: &str| {
        approval_policy(&ChatServiceConfig {
            risk_threshold: threshold.into(),
            allow_approve_all: false,
            ..ChatServiceConfig::default()
        })
    };
    assert!(with("never").is_none());
    let p = with("destructive").unwrap();
    assert_eq!(p.gate_threshold, ToolRisk::Destructive);
    assert_eq!(p.guard_role, GuardRole::Advises);
    assert_eq!(p.timeout, Duration { secs: 900, nanos: 0 });
    assert_eq!(p.on_timeout, TimeoutAction::Deny);
    assert!(!p.allow_approve_all);
    assert_eq!(with("mutating").unwrap().gate_threshold, ToolRisk::Mutating);
    assert_eq!(with("whatever").unwrap().gate_threshold, ToolRisk::Mutating);
}

#[test]
fn states_of_a_chat() {
    let m = ChatStateModel;
    for phase in CHAT_PHASES {
        assert_eq!(m.core_state(phase), CoreState::Running);
        assert_eq!(m.agent_allowed(phase).as_deref(), Some(phase));
        assert!(m.is_active(phase) && !m.is_terminal(phase));
    }
    assert_eq!(m.agent_allowed("running"), None);
    assert_eq!(m.core_state("running"), CoreState::Running);
    assert_eq!(m.core_state("nonsense"), CoreState::Failed);
    assert_eq!(m.initial_running_state(), "planning");
    assert_eq!(
        m.non_resumable_states(),
        vec!["completed", "failed", "cancelled", "needs_attention"]
    );
    assert_eq!(m.approval_state(), "awaiting_approval");
}

#[test]
fn states_of_plain_sessions() {
    let m = CoreStateModel;
    let classes = [
        ("created", CoreState::Created),
        ("initializing", CoreState::Initializing),
        ("running", CoreState::Running),
        ("awaiting_approval", CoreState::AwaitingApproval),
        ("awaiting_retry", CoreState::AwaitingRetry),
        ("paused", CoreState::Paused),
        ("completed", CoreState::Completed),
        ("failed", CoreState::Failed),
        ("cancelled", CoreState::Cancelled),
        ("needs_attention", CoreState::NeedsAttention),
        ("planning", CoreState::Failed),
    ];
    for (name, class) in classes {
        assert_eq!(m.core_state(name), class);
        assert_eq!(ChatStateModel.core_state(name) == class, name != "planning");
    }
    assert_eq!(m.agent_allowed("running"), None);
    assert_eq!(m.initial_running_state(), "running");
    assert_eq!(
        m.non_resumable_states(),
        vec!["completed", "failed", "cancelled", "paused", "needs_attention"]
    );
}

#[test]
fn classes_of_states() {
    let terminal =
        [CoreState::Completed, CoreState::Failed, CoreState::Cancelled, CoreState::NeedsAttention];
    let active = [CoreState::Initializing, CoreState::Running];
    let other = [
        CoreState::Created,
        CoreState::AwaitingApproval,
        CoreState::AwaitingRetry,
        CoreState::Paused,
    ];
    assert!(terminal.iter().all(|s| s.is_terminal() && !s.is_active()));
    assert!(active.iter().all(|s| s.is_active() && !s.is_terminal()));
    assert!(other.iter().all(|s| !s.is_active() && !s.is_terminal()));
}

#[test]
fn scopes_are_stable() {
    assert_eq!(scope_for("me@x"), scope_for("me@x"));
    assert_ne!(scope_for("me@x"), scope_for("you@x"));
    let theirs = uuid::Uuid::new_v5(&uuid::Uuid::NAMESPACE_OID, "me@x".as_bytes());
    assert_eq!(scope_for("me@x").bits, theirs.as_u128());
}

#[test]
fn sessions_belong_to_their_owner() {
    let found = || Some(session(1, "paused", "{}"));
    assert_eq!(get_session_checked(&user("me@x", false), found()).unwrap().id, id(1));
    assert_eq!(get_session_checked(&user("boss@x", true), found()).unwrap().id, id(1));
    assert_eq!(
        get_session_checked(&user("you@x", false), found()).unwrap_err().message(),
        "access denied"
    );
    assert_eq!(
        get_session_checked(&user("boss@x", true), None).unwrap_err().message(),
        "session not found"
    );
}

#[test]
fn restarts_pause_what_they_interrupt() {
    let sessions =
        vec![session(1, "planning", "{}"), session(2, "paused", "{}"), session(3, "created", "{}")];
    assert_eq!(sessions_to_pause(&sessions), vec![id(1), id(3)]);
    assert!(sessions_to_pause(&vec![session(2, "paused", "{}")]).is_empty());
    let parked = restart_transition();
    assert_eq!(parked.state, "paused");
    assert!(!parked.terminal);
    assert_eq!(print(&parked.data), r#"{"reason":"server_restart"}"#);
}

#[test]
fn pages_stand_in_front_of_turns() {
    assert_eq!(prefix_context(None, "hi"), "hi");
    assert_eq!(prefix_context(Some(""), "hi"), "hi");
    assert_eq!(prefix_context(Some("/home"), "hi"), "[context: user is viewing /home]\n\nhi");
}

#[test]
fn running_sessions_are_counted() {
    let mut m = SessionManager::new();
    m.register(id(1));
    m.register(id(9));
    let sessions = vec![session(1, "planning", "{}"), session(2, "planning", "{}")];
    assert_eq!(running_count(&sessions, &m), 1);
    m.register(id(2));
    assert_eq!(running_count(&sessions, &m), 2);
}

#[test]
fn sessions_are_started() {
    let cfg = ChatServiceConfig::default();
    let plan = start_session(&cfg, &user("me@x", false), 2, "hi", Some("/p")).unwrap();
    assert_eq!(plan.scope_id, scope_for("me@x"));
    assert_eq!(plan.owner, "me@x");
    assert_eq!(print(&plan.initial_context), "{}");
    assert_eq!(print(&plan.state_data), r#"{"owner":"me@x","page_context":"/p"}"#);
    assert_eq!(plan.token_budget, Some(500_000));
    assert_eq!(plan.start_state, "planning");
    match plan.initial_prompt {
        InitialPrompt::User(p) => assert_eq!(p, "[context: user is viewing /p]\n\nhi"),
        InitialPrompt::Resume(_) => panic!("a new turn"),
    }
    let unlimited = ChatServiceConfig { token_budget: 0, ..ChatServiceConfig::default() };
    let plan = start_session(&unlimited, &user("me@x", false), 0, "hi", None).unwrap();
    assert_eq!(plan.token_budget, None);
    assert_eq!(print(&plan.state_data), r#"{"owner":"me@x","page_context":null}"#);
}

#[test]
fn too_many_sessions_are_refused() {
    let cfg = ChatServiceConfig::default();
    let err = start_session(&cfg, &user("me@x", false), 3, "hi", None).unwrap_err();
    assert_eq!(err.message(), "too many active chat sessions (3); close or pause one first");
}

#[test]
fn sessions_resume_where_they_can() {
    for (state, resumed) in [
        ("executing", "executing"),
        ("planning", "planning"),
        ("running", "running"),
        ("initializing", "initializing"),
        ("paused", "planning"),
        ("awaiting_retry", "planning"),
        ("completed", "planning"),
        ("created", "planning"),
    ] {
        assert_eq!(resume_state(&session(1, state, "{}"), 0, 0).unwrap(), resumed);
    }
    for state in ["failed", "cancelled", "needs_attention", "nonsense"] {
        let err = resume_state(&session(1, state, "{}"), 0, 0).unwrap_err();
        assert_eq!(
            err.message(),
            format!("session is in state '{state}' and cannot be resumed")
        );
    }
}

#[test]
fn exhausted_budgets_hold_sessions_back() {
    let spent = session(1, "paused", r#"{"reason":"token_budget_exceeded"}"#);
    assert!(needs_budget(&spent));
    let err = resume_state(&spent, 100, 100).unwrap_err();
    assert!(matches!(err, ServiceError::BudgetExhausted));
    assert_eq!(
        err.message(),
        "session hit its token budget — extend the budget before continuing"
    );
    assert!(resume_state(&spent, EXTENDED_BUDGET, 100).is_ok());
    assert!(resume_state(&spent, 0, 100).is_ok());
    let paused = session(1, "paused", r#"{"reason":"manual_pause"}"#);
    assert!(!needs_budget(&paused));
    assert!(resume_state(&paused, 100, 100).is_ok());
    assert!(!needs_budget(&session(1, "completed", r#"{"reason":"token_budget_exceeded"}"#)));
}

#[test]
fn messages_are_delivered() {
    let s = session(1, "paused", "{}");
    assert!(matches!(send_message(&s, "hi", None, true, 0, 0).unwrap(), Delivery::Queued));
    match send_message(&s, "hi", Some("/p"), false, 0, 0).unwrap() {
        Delivery::Resume { prompt, state, provider, model } => {
            assert_eq!(prompt, "[context: user is viewing /p]\n\nhi");
            assert_eq!(state, "planning");
            assert_eq!(provider.as_deref(), Some("ollama"));
            assert_eq!(model.as_deref(), Some("gemma"));
        }
        Delivery::Queued => panic!("no agent runs"),
    }
    let over = session(1, "failed", "{}");
    assert!(send_message(&over, "hi", None, true, 0, 0).is_ok());
    assert!(matches!(
        send_message(&over, "hi", None, false, 0, 0),
        Err(ServiceError::NotResumable(_))
    ));
}

#[test]
fn decisions_are_recorded() {
    let m = decision_record(&user("me@x", false), id(1), &ApprovalDecision::Deny { reason: None });
    assert_eq!(m.role, "approval_decision");
    assert_eq!(m.content, "denied by me@x");
    assert_eq!(
        print(&m.metadata.unwrap()),
        r#"{"approval_id":"00000000-0000-0000-0000-000000000001","by":"me@x","decision":"denied"}"#
    );
}

#[test]
fn grants_end_with_the_agent() {
    let mut m = SessionManager::new();
    assert!(!auto_approve(&m, id(1)));
    m.register(id(1));
    assert!(!auto_approve(&m, id(1)));
    m.set_approve_all(id(1), true).unwrap();
    assert!(auto_approve(&m, id(1)));
    m.unregister(id(1));
    assert!(!auto_approve(&m, id(1)));
}

fn endpoint(resource: &str, tool_name: &str) -> Endpoint {
    Endpoint {
        resource: resource.into(),
        tool_name: tool_name.into(),
        description: String::new(),
        input_schema: Object::new(),
        risk: ToolRisk::ReadOnly,
    }
}

#[test]
fn tools_of_a_chat() {
    let cfg = ChatServiceConfig {
        tools_exclude: vec!["*_delete".into()],
        ..ChatServiceConfig::default()
    };
    let tools = session_tools(&cfg, &vec![endpoint("a", "a_list"), endpoint("a", "a_delete")]);
    assert_eq!(tools.registry.len(), 1);
    assert_eq!(tools.registry[0].name, "a_list");
    assert_eq!(tools.registry[0].max_output_bytes, 16 * 1024);
    assert_eq!(tools.pin.0.cfg.slot_names(), vec!["notes", "plan", "summary"]);
    assert_eq!(tools.pin.1, ToolRisk::SessionLocal);
    assert_eq!(tools.name_session.1, ToolRisk::SessionLocal);
    assert_eq!(tools.set_phase.0.valid_phases, "planning, executing, executed");
    assert!(tools.set_phase.0.auto_approve && tools.set_phase.0.approval_gated_phase.is_none());
    assert_eq!(tools.set_phase.1, ToolRisk::SessionLocal);
    assert!(set_phase_description().starts_with("Track your progress. Phases: planning"));
}

#[test]
fn runs_of_a_chat() {
    let build = |minutes: u64| {
        let cfg = ChatServiceConfig { idle_park_minutes: minutes, ..ChatServiceConfig::default() };
        build_session_spec(
            &cfg,
            id(1),
            "you are".into(),
            InitialPrompt::Resume("go on".into()),
            "planning".into(),
        )
    };
    let spec = build(30);
    assert_eq!(spec.session_id, id(1));
    assert_eq!(spec.system_prompt, "you are");
    assert_eq!(spec.start_state, "planning");
    assert!(spec.interactive);
    assert_eq!(spec.idle_timeout, Some(Duration { secs: 1800, nanos: 0 }));
    assert!(spec.deadline.is_none() && spec.deadline_reason.is_empty());
    assert_eq!(spec.loop_limit, 50);
    // A session waits for a minute at least.
    assert_eq!(build(0).idle_timeout, Some(Duration { secs: 60, nanos: 0 }));
}

#[test]
fn tools_are_indexed_by_resource() {
    let endpoints = vec![
        endpoint("org", "org_list"),
        endpoint("cluster", "cluster_list"),
        endpoint("org", "org_get"),
        endpoint("alert", "alert_list"),
    ];
    assert_eq!(
        tool_index(&endpoints),
        "- alert: alert_list\n- cluster: cluster_list\n- org: org_list, org_get"
    );
    assert_eq!(tool_index(&Vec::new()), "");
}
