//! Runs of a session.

use plan_ai_core::json::print;
use plan_ai_core::manager::{after_run, done_event};
use plan_ai_core::model::ChatEvent;
use plan_ai_core::service::ChatStateModel;
use plan_ai_core::session_loop::{
    after_tool, after_turn, after_wait, before_tool, conclude, deadline_wait,
    extract_role_content, first_action, on_new_message, on_stream, startup, tool_result, AfterTurn, AfterWait,
    AgentMessage, Conclusion, ContentPart, DeadlineWait, InitialPrompt, LastCall, RunAction,
    RunError, RunEvent, SessionRun, StopReason, ToolVerdict, TurnEnd, WaitEnd,
};
use plan_ai_core::time::{Duration, Timestamp};

fn at(secs: i64) -> Timestamp {
    Timestamp::new(secs, 0).unwrap()
}

fn pair(msg: AgentMessage) -> Option<(String, String)> {
    extract_role_content(&msg)
}

fn some(role: &str, content: &str) -> Option<(String, String)> {
    Some((role.to_string(), content.to_string()))
}

#[test]
fn messages_have_roles() {
    assert_eq!(pair(AgentMessage::System("s".into())), some("system", "s"));
    assert_eq!(pair(AgentMessage::User("u".into())), some("user", "u"));
    assert_eq!(pair(AgentMessage::Summary("x".into())), some("summary", "x"));
    assert_eq!(pair(AgentMessage::ToolOutput), None);
    assert_eq!(pair(AgentMessage::Reasoning), None);
    assert_eq!(
        pair(AgentMessage::UserWithParts(vec![
            ContentPart::Text("a".into()),
            ContentPart::Other,
            ContentPart::Text("b".into()),
        ])),
        some("user", "a\nb")
    );
}

#[test]
fn answers_name_their_tools() {
    let calls = Some(vec!["read".to_string(), "write".to_string()]);
    assert_eq!(pair(AgentMessage::Assistant(None, calls.clone())), some("assistant", "`read`, `write`"));
    assert_eq!(
        pair(AgentMessage::Assistant(Some("".into()), calls.clone())),
        some("assistant", "`read`, `write`")
    );
    assert_eq!(pair(AgentMessage::Assistant(Some("text".into()), calls)), some("assistant", "text"));
    assert_eq!(pair(AgentMessage::Assistant(None, Some(vec![]))), some("assistant", ""));
    assert_eq!(pair(AgentMessage::Assistant(None, None)), some("assistant", ""));
}

#[test]
fn messages_are_stored_and_announced() {
    let rec = on_new_message(&AgentMessage::User("u".into()), at(5)).unwrap();
    assert_eq!(rec.message.role, "user");
    assert_eq!(rec.message.content, "u");
    assert!(rec.message.metadata.is_none());
    match rec.event {
        ChatEvent::Message { role, content, metadata, created_at } => {
            assert_eq!((role.as_str(), content.as_str()), ("user", "u"));
            assert!(metadata.is_none());
            assert_eq!(created_at, at(5));
        }
        _ => panic!("no message"),
    }
    assert!(on_new_message(&AgentMessage::Assistant(None, None), at(5)).is_none());
    assert!(on_new_message(&AgentMessage::ToolOutput, at(5)).is_none());
}

#[test]
fn parts_of_answers_are_announced() {
    assert!(matches!(on_stream(Some("x")), Some(ChatEvent::StreamDelta { delta }) if delta == "x"));
    assert!(on_stream(Some("")).is_none());
    assert!(on_stream(None).is_none());
}

fn names(event: &ChatEvent) -> Vec<String> {
    match event {
        ChatEvent::RunningTools { tools } => tools.iter().map(|t| t.name.clone()).collect(),
        _ => panic!("no tools"),
    }
}

#[test]
fn tools_start_and_end() {
    let mut tools = Vec::new();
    assert_eq!(names(&before_tool(&mut tools, "a", Some("{}"), at(1))), vec!["a"]);
    assert_eq!(names(&before_tool(&mut tools, "b", None, at(2))), vec!["a", "b"]);
    assert_eq!(names(&before_tool(&mut tools, "a", None, at(3))), vec!["a", "b", "a"]);
    assert_eq!(tools[0].args.as_deref(), Some("{}"));
    assert_eq!(tools[0].started_at, at(1));
    assert!(tools[0].validation.is_none());
    // All calls of a name end together.
    assert_eq!(names(&after_tool(&mut tools, "a")), vec!["b"]);
    assert_eq!(names(&after_tool(&mut tools, "c")), vec!["b"]);
    assert_eq!(tools.len(), 1);
}

#[test]
fn results_carry_the_verdict() {
    let last = Some(LastCall {
        tool_name: "rm".into(),
        validation: Some(ToolVerdict {
            approved: false,
            reasoning: Some("risky".into()),
            risk: "destructive".into(),
        }),
    });
    let rec = tool_result("rm", Some("{\"f\":1}"), Err("refused".into()), &last, at(1));
    assert_eq!(rec.message.role, "tool_result");
    assert_eq!(rec.message.content, "rm: refused");
    let text = print(&rec.message.metadata.unwrap());
    let expected = [
        r#"{"status":"error","tool_args":"{\"f\":1}","tool_name":"rm","#,
        r#""validation":{"reasoning":"risky","risk":"destructive","status":"rejected"}}"#,
    ];
    assert_eq!(text, expected.iter().map(|s| s.to_string()).collect::<String>());

    // The verdict on another tool does not count.
    let rec = tool_result("ls", None, Ok("a b".into()), &last, at(1));
    assert_eq!(rec.message.content, "ls: a b");
    assert_eq!(
        print(&rec.message.metadata.unwrap()),
        r#"{"status":"ok","tool_args":"{}","tool_name":"ls"}"#
    );
    let unjudged = Some(LastCall { tool_name: "ls".into(), validation: None });
    let rec = tool_result("ls", None, Ok("".into()), &unjudged, at(1));
    assert_eq!(
        print(&rec.message.metadata.unwrap()),
        r#"{"status":"ok","tool_args":"{}","tool_name":"ls"}"#
    );
    assert!(matches!(rec.event, ChatEvent::Message { .. }));
}

#[test]
fn runs_start_with_a_turn_or_without() {
    let s = startup(&ChatStateModel, "planning", InitialPrompt::User("hi".into()), at(1));
    assert_eq!(s.transition.state, "planning");
    assert!(!s.transition.terminal);
    assert_eq!(print(&s.transition.data), "{}");
    assert_eq!(s.events.len(), 2);
    assert_eq!(s.turn.unwrap().message.content, "hi");
    assert_eq!(s.prompt, "hi");

    let s = startup(&ChatStateModel, "completed", InitialPrompt::Resume("go on".into()), at(1));
    assert!(s.transition.terminal);
    assert!(s.turn.is_none());
    assert_eq!(s.prompt, "go on");
}

#[test]
fn turns_end_runs_or_lead_to_waiting() {
    assert!(matches!(after_turn(true, TurnEnd::Completed), AfterTurn::Wait(ChatEvent::Idle)));
    assert!(matches!(
        after_turn(false, TurnEnd::Completed),
        AfterTurn::Stop(StopReason::Completed)
    ));
    assert!(matches!(
        after_turn(true, TurnEnd::BudgetExceeded { used: 5, limit: 4 }),
        AfterTurn::Stop(StopReason::BudgetExceeded { used: 5, limit: 4 })
    ));
    assert!(matches!(after_turn(true, TurnEnd::Failed("e".into())), AfterTurn::Stop(StopReason::AgentError(e)) if e == "e"));
}

#[test]
fn waiting_ends_with_a_message_or_the_run() {
    match after_wait(WaitEnd::Message("next".into()), at(2)) {
        AfterWait::Turn { recorded, prompt } => {
            assert_eq!(recorded.message.role, "user");
            assert_eq!(recorded.message.content, "next");
            assert_eq!(prompt, "next");
        }
        AfterWait::Stop(_) => panic!("another turn"),
    }
    assert!(matches!(after_wait(WaitEnd::Closed, at(2)), AfterWait::Stop(StopReason::Completed)));
    assert!(matches!(after_wait(WaitEnd::TimedOut, at(2)), AfterWait::Stop(StopReason::Completed)));
    assert!(matches!(after_wait(WaitEnd::Cancelled, at(2)), AfterWait::Stop(StopReason::Cancelled)));
    assert!(matches!(after_wait(WaitEnd::Paused, at(2)), AfterWait::Stop(StopReason::Paused)));
    assert!(matches!(after_wait(WaitEnd::Shutdown, at(2)), AfterWait::Stop(StopReason::Shutdown)));
    assert!(matches!(
        after_wait(WaitEnd::DeadlineExpired, at(2)),
        AfterWait::Stop(StopReason::DeadlineExpired)
    ));
}

#[test]
fn deadlines_pass() {
    assert!(matches!(deadline_wait(None, at(5)), DeadlineWait::Never));
    assert!(matches!(deadline_wait(Some(at(5)), at(5)), DeadlineWait::Now));
    assert!(matches!(deadline_wait(Some(at(4)), at(5)), DeadlineWait::Now));
    assert!(matches!(
        deadline_wait(Some(at(65)), at(5)),
        DeadlineWait::After(Duration { secs: 60, nanos: 0 })
    ));
}

#[test]
fn ends_have_states() {
    let ends = [
        (StopReason::Completed, "completed", true, r#"{"reason":"agent finished"}"#, true),
        (StopReason::Cancelled, "cancelled", true, r#"{"reason":"cancelled"}"#, false),
        (StopReason::Paused, "paused", false, r#"{"reason":"manual_pause"}"#, false),
        (StopReason::Shutdown, "awaiting_retry", false, r#"{"reason":"server_shutdown"}"#, false),
        (StopReason::DeadlineExpired, "awaiting_retry", false, r#"{"reason":"expiring"}"#, false),
        (
            StopReason::BudgetExceeded { used: 12, limit: 10 },
            "paused",
            false,
            r#"{"budget_limit":10,"reason":"token_budget_exceeded","tokens_used":12}"#,
            false,
        ),
    ];
    for (reason, state, terminal, data, must) in ends {
        match conclude(reason, "expiring") {
            Conclusion::Move { transition, must_store } => {
                assert_eq!(transition.state, state);
                assert_eq!(transition.terminal, terminal);
                assert_eq!(print(&transition.data), data);
                assert_eq!(must_store, must);
            }
            _ => panic!("a change of state"),
        }
    }
    assert!(matches!(conclude(StopReason::AwaitingApproval, ""), Conclusion::Nothing));
    match conclude(StopReason::AgentError("boom".into()), "") {
        Conclusion::Fail(e) => {
            assert_eq!(e.message(), "agent query failed");
            assert!(matches!(e, RunError::Agent(why) if why == "boom"));
        }
        _ => panic!("a failure"),
    }
}

#[test]
fn an_interactive_run() {
    let run = SessionRun::new(true, "");
    assert!(!run.is_over());
    assert!(!run.accepts(&RunEvent::WaitEnded(WaitEnd::Closed)));

    let (run, step) = run.step(RunEvent::TurnEnded(TurnEnd::Completed), at(1));
    assert!(matches!(step.action, RunAction::AwaitUser));
    assert!(matches!(step.events[0], ChatEvent::Idle));
    assert!(step.record.is_none());

    let (run, step) = run.step(RunEvent::WaitEnded(WaitEnd::Message("more".into())), at(2));
    assert!(matches!(&step.action, RunAction::Query(p) if p == "more"));
    assert_eq!(step.record.unwrap().message.content, "more");

    let (run, _) = run.step(RunEvent::TurnEnded(TurnEnd::Completed), at(3));
    let (run, step) = run.step(RunEvent::WaitEnded(WaitEnd::TimedOut), at(4));
    match &step.action {
        RunAction::Store(t) => assert_eq!(t.state, "completed"),
        _ => panic!("the end is stored"),
    }
    assert!(run.accepts(&RunEvent::Stored(Ok(()))));
    let (run, step) = run.step(RunEvent::Stored(Ok(())), at(5));
    assert!(matches!(step.action, RunAction::Finish(Ok(()))));
    assert_eq!(step.events.len(), 2);
    assert!(run.is_over());
    assert!(!run.accepts(&RunEvent::Stored(Ok(()))));
}

#[test]
fn a_run_whose_end_cannot_be_stored() {
    let (run, _) = SessionRun::new(false, "").step(RunEvent::TurnEnded(TurnEnd::Completed), at(1));
    let (run, step) = run.step(RunEvent::Stored(Err("no disk".into())), at(2));
    match step.action {
        RunAction::Finish(Err(e)) => assert_eq!(e.message(), "no disk"),
        _ => panic!("the run fails"),
    }
    assert!(step.events.is_empty() && run.is_over());

    // Any other end is announced all the same.
    let (run, _) = SessionRun::new(false, "").step(RunEvent::TurnEnded(TurnEnd::Paused), at(1));
    let (_, step) = run.step(RunEvent::Stored(Err("no disk".into())), at(2));
    assert!(matches!(step.action, RunAction::Finish(Ok(()))));
    assert_eq!(step.events.len(), 2);
}

#[test]
fn runs_that_end_without_storing() {
    let (run, step) =
        SessionRun::new(true, "").step(RunEvent::TurnEnded(TurnEnd::Failed("boom".into())), at(1));
    assert!(run.is_over());
    assert!(matches!(step.action, RunAction::Finish(Err(RunError::Agent(_)))));
    let (run, step) =
        SessionRun::new(true, "").step(RunEvent::TurnEnded(TurnEnd::ApprovalRequested), at(1));
    assert!(run.is_over());
    assert!(matches!(step.action, RunAction::Finish(Ok(()))));
}

#[test]
fn streams_end_with_the_stored_state() {
    assert!(matches!(done_event(Some("paused".into())), ChatEvent::Done { state } if state == "paused"));
    assert!(matches!(done_event(None), ChatEvent::Done { state } if state == "unknown"));
}

#[test]
fn runs_begin_with_a_built_agent() {
    assert!(matches!(first_action(Ok(()), "go".into()), RunAction::Query(p) if p == "go"));
    match first_action(Err("no key".into()), "go".into()) {
        RunAction::Finish(Err(RunError::Build(e))) => {
            assert_eq!(e, "no key");
            assert_eq!(RunError::Build(e).message(), "failed to build agent");
        }
        _ => panic!("there is no agent"),
    }
}

#[test]
fn failed_runs_fail_their_session() {
    assert!(after_run(&Ok(())).is_none());
    let (message, data) = after_run(&Err("agent query failed".into())).unwrap();
    assert_eq!(message, "agent query failed");
    assert_eq!(print(&data), "{}");
}
