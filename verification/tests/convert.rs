//! What is streamed to the client.

use plan_ai_core::convert::{
    approval_request_event, chat_event_to_stream, running_tools_to_wire,
};
use plan_ai_core::ids::Uuid;
use plan_ai_core::json::{parse, print, Json};
use plan_ai_core::model::{
    emit_state_change, ChatEvent, RunningTool, RunningToolValidation,
};
use plan_ai_core::time::Timestamp;
use plan_ai_core::validation::approval::PendingApproval;
use plan_ai_core::validation::ToolRisk;
use plan_ai_core::wire::{ChatRunningTool, ChatStreamEvent};

fn now() -> Timestamp {
    Timestamp::new(1_767_225_600, 0).unwrap()
}

fn json(text: &str) -> Json {
    parse(text.as_bytes()).unwrap()
}

fn stream(event: ChatEvent) -> ChatStreamEvent {
    let (event, done) = chat_event_to_stream(&event);
    assert!(!done);
    event
}

/// Whether an event holds nothing but its kind and what is named.
fn only(e: &ChatStreamEvent, kind: &str, fields: &[&str]) -> bool {
    let present = [
        ("session_id", e.session_id.is_some()),
        ("role", e.role.is_some()),
        ("content", e.content.is_some()),
        ("state", e.state.is_some()),
        ("metadata", e.metadata.is_some()),
        ("running_tools", e.running_tools.is_some()),
        ("pins", e.pins.is_some()),
        ("staff_pings", e.staff_pings.is_some()),
        ("status_message", e.status_message.is_some()),
        ("state_reason", e.state_reason.is_some()),
    ];
    e.kind == kind && present.iter().all(|(name, there)| fields.contains(name) == *there)
}

#[test]
fn running_tools_are_streamed() {
    let tools = vec![
        RunningTool {
            name: "read_file".into(),
            args: Some("{}".into()),
            started_at: now(),
            validation: Some(RunningToolValidation {
                status: "approved".into(),
                reasoning: Some("ok".into()),
                risk: "mutating".into(),
            }),
        },
        RunningTool { name: "t".into(), args: None, started_at: now(), validation: None },
    ];
    let wire: Vec<ChatRunningTool> = running_tools_to_wire(&tools);
    assert_eq!(wire.len(), 2);
    assert_eq!(wire[0].name, "read_file");
    assert_eq!(wire[0].args.as_deref(), Some("{}"));
    assert_eq!(wire[0].started_at, "2026-01-01T00:00:00+00:00");
    let v = wire[0].validation.as_ref().unwrap();
    assert_eq!((v.status.as_str(), v.reasoning.as_deref(), v.risk.as_str()), ("approved", Some("ok"), "mutating"));
    assert!(wire[1].args.is_none() && wire[1].validation.is_none());

    let e = stream(ChatEvent::RunningTools { tools });
    assert!(only(&e, "running_tools", &["running_tools"]));
    assert_eq!(e.running_tools.unwrap().len(), 2);
}

#[test]
fn messages_are_streamed() {
    let e = stream(ChatEvent::Message {
        role: "assistant".into(),
        content: "hi".into(),
        metadata: Some(json(r#"{"k":1}"#)),
        created_at: now(),
    });
    assert!(only(&e, "message", &["role", "content", "metadata"]));
    assert_eq!(e.role.as_deref(), Some("assistant"));
    assert_eq!(e.content.as_deref(), Some("hi"));
    assert_eq!(print(&e.metadata.unwrap()), r#"{"k":1}"#);
}

#[test]
fn states_are_streamed_with_their_reason() {
    let e = stream(ChatEvent::State {
        state: "paused".into(),
        state_data: json(r#"{"reason":"manual_pause"}"#),
    });
    assert!(only(&e, "state", &["state", "state_reason"]));
    assert_eq!(e.state_reason.as_deref(), Some("manual_pause"));
    let e = stream(ChatEvent::State { state: "paused".into(), state_data: json(r#"{"reason":1}"#) });
    assert!(only(&e, "state", &["state"]));
}

#[test]
fn passing_events_are_streamed() {
    let e = stream(ChatEvent::Status { message: "wait".into() });
    assert!(only(&e, "status", &["status_message"]));
    assert_eq!(e.status_message.as_deref(), Some("wait"));
    assert!(only(&stream(ChatEvent::Idle), "idle", &[]));
    let e = stream(ChatEvent::StreamDelta { delta: "par".into() });
    assert!(only(&e, "stream_delta", &["content"]));
    assert_eq!(e.content.as_deref(), Some("par"));
}

#[test]
fn the_end_ends_the_stream() {
    let (e, done) = chat_event_to_stream(&ChatEvent::Done { state: "completed".into() });
    assert!(done);
    assert!(only(&e, "done", &["state"]));
    assert_eq!(e.state.as_deref(), Some("completed"));
}

#[test]
fn approvals_are_streamed() {
    let e = stream(ChatEvent::ApprovalRequest {
        approval_id: Uuid { bits: 0xab },
        tool_name: "rm".into(),
        args: "{}".into(),
        reason: "why".into(),
        risk: "destructive".into(),
        requested_at: now(),
    });
    assert!(only(&e, "approval_request", &["metadata"]));
    assert_eq!(
        print(&e.metadata.unwrap()),
        concat_lines(&[
            r#"{"approval_id":"00000000-0000-0000-0000-0000000000ab","reason":"why","#,
            r#""requested_at":"2026-01-01T00:00:00Z","risk":"destructive","#,
            r#""tool_args":"{}","tool_name":"rm"}"#,
        ])
    );
    let e = stream(ChatEvent::ApprovalResolved {
        approval_id: Uuid { bits: 1 },
        decision: "timeout".into(),
        by: None,
    });
    assert!(only(&e, "approval_resolved", &["metadata"]));
    assert_eq!(
        print(&e.metadata.unwrap()),
        r#"{"approval_id":"00000000-0000-0000-0000-000000000001","by":null,"decision":"timeout"}"#
    );
}

fn concat_lines(lines: &[&str]) -> String {
    lines.iter().map(|s| s.to_string()).collect()
}

#[test]
fn pending_approvals_are_shown_again() {
    let e = approval_request_event(&PendingApproval {
        id: Uuid { bits: 1 },
        session_id: Uuid { bits: 2 },
        tool_name: "t".into(),
        args: "[]".into(),
        reason: "r".into(),
        risk: ToolRisk::Mutating,
        guard_reasoning: Some("looks fine".into()),
        requested_at: now(),
    });
    assert!(only(&e, "approval_request", &["metadata"]));
    assert_eq!(
        print(&e.metadata.unwrap()),
        concat_lines(&[
            r#"{"approval_id":"00000000-0000-0000-0000-000000000001","#,
            r#""guard_reasoning":"looks fine","reason":"r","#,
            r#""requested_at":"2026-01-01T00:00:00Z","risk":"mutating","#,
            r#""tool_args":"[]","tool_name":"t"}"#,
        ])
    );
}

#[test]
fn state_changes_are_announced_twice() {
    let mut events = Vec::new();
    emit_state_change(&mut events, "paused", &json("[]"), now());
    assert_eq!(events.len(), 2);
    match &events[0] {
        ChatEvent::Message { role, content, metadata, created_at } => {
            assert_eq!(role, "state_change");
            assert_eq!(content, r#"{"reason":"","state":"paused"}"#);
            assert_eq!(print(metadata.as_ref().unwrap()), "[]");
            assert_eq!(*created_at, now());
        }
        _ => panic!("no message"),
    }
    match &events[1] {
        ChatEvent::State { state, state_data } => {
            assert_eq!(state, "paused");
            assert_eq!(print(state_data), "[]");
        }
        _ => panic!("no state"),
    }
}

#[test]
fn defaults_are_empty() {
    assert!(only(&ChatStreamEvent::default(), "", &[]));
    let t = ChatRunningTool::default();
    assert!(t.name.is_empty() && t.args.is_none() && t.started_at.is_empty());
}
