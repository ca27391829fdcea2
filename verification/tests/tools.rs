//! The agent's own tools.

use plan_ai_core::convert::extract_pins_from_messages;
use plan_ai_core::ids::Uuid;
use plan_ai_core::json::{print, Json};
use plan_ai_core::model::{ChatEvent, ChatMessage};
use plan_ai_core::service::ChatStateModel;
use plan_ai_core::state::CoreStateModel;
use plan_ai_core::time::Timestamp;
use plan_ai_core::tools::{
    context7_url, required_args, NameSessionTool, PhaseStep, PinConfig, PinParams, PinSlot,
    PinTool, RenamedTool, SetPhaseParams, SetPhaseTool, ToolError, ToolOutput,
};
use plan_ai_core::validation::ToolRisk;

fn now() -> Timestamp {
    Timestamp::new(1_767_225_600, 0).unwrap()
}

fn text(out: &ToolOutput) -> &str {
    match out {
        ToolOutput::Text(t) => t,
        ToolOutput::Fail(t) => t,
    }
}

fn params(slot: &str, summary: &str, services: &[&str]) -> PinParams {
    PinParams {
        slot: slot.into(),
        summary: summary.into(),
        affected_services: services.iter().map(|s| s.to_string()).collect(),
    }
}

#[test]
fn slots_of_the_configurations() {
    let healer = PinConfig::healer();
    let names: Vec<&str> = healer.slots.iter().map(|s| s.name).collect();
    assert_eq!(names, vec!["diagnosis", "remediation", "final_report"]);
    assert!(!healer.allow_arbitrary);
    assert_eq!(
        healer.slots[0].description,
        "Pin once you identify the root cause. Include affected_services."
    );
    let chat = PinConfig::chat();
    assert_eq!(chat.slot_names(), vec!["notes", "plan", "summary"]);
    assert!(chat.allow_arbitrary);
}

#[test]
fn pin_tool_describes_its_slots() {
    let cfg = PinConfig {
        slots: vec![
            PinSlot { name: "a", description: "first" },
            PinSlot { name: "b", description: "second" },
        ],
        allow_arbitrary: false,
    };
    assert_eq!(
        cfg.description(),
        "Pin important information to the session. Available slots:\n\
         - \"a\": first\n\
         - \"b\": second\n\
         All pins are displayed to the user and persisted across restarts."
    );
}

#[test]
fn pinning_stores_and_announces() {
    let (tool, risk) = PinTool::new_with_risk(PinConfig::healer());
    assert_eq!(risk, ToolRisk::SessionLocal);
    let effect = tool.invoke(params("diagnosis", "disk \"full\"", &["db", "web"]), now());
    assert_eq!(text(&effect.output), "Pinned to 'diagnosis': disk \"full\"");
    let message = effect.message.unwrap();
    assert_eq!(message.role, "pin");
    assert_eq!(
        message.content,
        r#"{"affected_services":["db","web"],"slot":"diagnosis","summary":"disk \"full\""}"#
    );
    assert_eq!(
        print(&message.metadata.unwrap()),
        r#"{"pin_diagnosis":{"affected_services":["db","web"],"summary":"disk \"full\""}}"#
    );
    assert_eq!(effect.events.len(), 1);
    match &effect.events[0] {
        ChatEvent::Message { role, content, metadata, created_at } => {
            assert_eq!(role, "pin");
            assert_eq!(*content, message.content);
            assert!(metadata.is_some());
            assert_eq!(*created_at, now());
        }
        _ => panic!("no message"),
    }
}

#[test]
fn unknown_slots_are_named() {
    let (tool, _) = PinTool::new_with_risk(PinConfig::healer());
    let effect = tool.invoke(params("notes", "x", &[]), now());
    assert_eq!(
        text(&effect.output),
        "Invalid slot 'notes'. Valid slots: diagnosis, remediation, final_report"
    );
    assert!(effect.message.is_none() && effect.events.is_empty());
    let (tool, _) = PinTool::new_with_risk(PinConfig::chat());
    assert!(tool.invoke(params("anything", "x", &[]), now()).message.is_some());
}

fn message(role: &str, content: &str) -> ChatMessage {
    ChatMessage {
        id: Uuid { bits: 1 },
        session_id: Uuid { bits: 2 },
        role: role.into(),
        content: content.into(),
        metadata: None,
        created_at: now(),
    }
}

#[test]
fn what_is_pinned_is_shown() {
    let (tool, _) = PinTool::new_with_risk(PinConfig::chat());
    let content = |slot: &str, summary: &str, services: &[&str]| {
        tool.invoke(params(slot, summary, services), now()).message.unwrap().content
    };
    let messages = vec![
        message("pin", &content("zeta", "free form", &[])),
        message("pin", &content("plan", "old", &["a"])),
        message("user", &content("summary", "not a pin", &[])),
        message("pin", "no JSON"),
        message("pin", r#"{"summary":"no slot"}"#),
        message("pin", &content("plan", "new", &["b", "c"])),
        message("pin", &content("alpha", "ä", &[])),
        message("pin", r#"{"slot":"notes","summary":5,"affected_services":["x",1,"y"]}"#),
    ];
    let pins = extract_pins_from_messages(&messages, &PinConfig::chat());
    let slots: Vec<&str> = pins.iter().map(|p| p.slot.as_str()).collect();
    assert_eq!(slots, vec!["notes", "plan", "alpha", "zeta"]);
    assert_eq!(pins[0].summary, "");
    assert_eq!(pins[0].affected_services, vec!["x", "y"]);
    assert_eq!(pins[1].summary, "new");
    assert_eq!(pins[1].affected_services, vec!["b", "c"]);
    assert_eq!(pins[2].summary, "ä");
    assert_eq!(pins[3].summary, "free form");
}

#[test]
fn pins_of_nothing() {
    assert!(extract_pins_from_messages(&[], &PinConfig::healer()).is_empty());
}

fn phases() -> Vec<String> {
    vec!["planning".into(), "executing".into()]
}

#[test]
fn phases_are_set() {
    let (tool, risk) = SetPhaseTool::new_with_risk(ChatStateModel, true, None, &phases());
    assert_eq!(risk, ToolRisk::Mutating);
    assert_eq!(tool.valid_phases, "planning, executing");
    let p = SetPhaseParams { phase: "executing".into(), reason: "go".into() };
    let (state, terminal, data, gated) = match tool.invoke(&p) {
        PhaseStep::Transition { state, terminal, data, gated } => (state, terminal, data, gated),
        PhaseStep::Refused(_) => panic!("the phase is known"),
    };
    assert_eq!(state, "executing");
    assert!(!terminal && !gated);
    assert_eq!(print(&data), r#"{"reason":"go"}"#);

    let mut events = Vec::new();
    let (out, stop) = tool.answer(&p, &state, &data, gated, Ok(()), now(), &mut events);
    assert_eq!(text(&out), "Phase set to: executing");
    assert!(!stop);
    match &events[0] {
        ChatEvent::Message { role, content, .. } => {
            assert_eq!(role, "state_change");
            assert_eq!(content, r#"{"reason":"go","state":"executing"}"#);
        }
        _ => panic!("no message"),
    }
    assert!(matches!(&events[1], ChatEvent::State { state, .. } if state == "executing"));

    let mut events = Vec::new();
    let (out, _) =
        tool.answer(&p, &state, &data, gated, Err("no disk".into()), now(), &mut events);
    assert_eq!(text(&out), "Error setting phase: no disk");
    assert!(events.is_empty());
}

#[test]
fn unknown_phases_are_refused() {
    let (tool, _) = SetPhaseTool::new_with_risk(ChatStateModel, true, None, &phases());
    let p = SetPhaseParams { phase: "done".into(), reason: "".into() };
    match tool.invoke(&p) {
        PhaseStep::Refused(out) => {
            assert_eq!(text(&out), "Invalid phase 'done'. Valid: planning, executing")
        }
        PhaseStep::Transition { .. } => panic!("the phase is not known"),
    }
    let (tool, _) = SetPhaseTool::new_with_risk(CoreStateModel, true, None, &phases());
    let p = SetPhaseParams { phase: "planning".into(), reason: "".into() };
    assert!(matches!(tool.invoke(&p), PhaseStep::Refused(_)));
}

#[test]
fn gated_phases_wait_for_approval() {
    let gated_phase = Some("executing".to_string());
    let (tool, _) =
        SetPhaseTool::new_with_risk(ChatStateModel, false, gated_phase.clone(), &phases());
    let p = SetPhaseParams { phase: "executing".into(), reason: "go".into() };
    let (state, data) = match tool.invoke(&p) {
        PhaseStep::Transition { state, terminal, data, gated } => {
            assert!(gated && !terminal);
            (state, data)
        }
        PhaseStep::Refused(_) => panic!("the phase is known"),
    };
    assert_eq!(state, "awaiting_approval");
    let mut events = Vec::new();
    let (out, stop) = tool.answer(&p, &state, &data, true, Ok(()), now(), &mut events);
    assert_eq!(text(&out), "Session paused — awaiting approval before continuing.");
    assert!(stop);
    assert_eq!(events.len(), 2);
    let (out, stop) =
        tool.answer(&p, &state, &data, true, Err("no disk".into()), now(), &mut Vec::new());
    assert_eq!(text(&out), "Error requesting approval: no disk");
    assert!(!stop);

    // Another phase is not gated, and neither is any where changes are
    // approved by themselves.
    let other = SetPhaseParams { phase: "planning".into(), reason: "".into() };
    assert!(matches!(tool.invoke(&other), PhaseStep::Transition { gated: false, .. }));
    let (tool, _) = SetPhaseTool::new_with_risk(ChatStateModel, true, gated_phase, &phases());
    assert!(matches!(tool.invoke(&p), PhaseStep::Transition { gated: false, .. }));
}

#[test]
fn sessions_are_named() {
    let (tool, risk) = NameSessionTool::new_with_risk();
    assert_eq!(risk, ToolRisk::SessionLocal);
    assert_eq!(tool.invoke("short"), "short");
    assert_eq!(tool.invoke(&"ä".repeat(200)), "ä".repeat(120));
    assert_eq!(tool.invoke(&"ä".repeat(120)), "ä".repeat(120));
    assert_eq!(text(&tool.answer("x", Ok(()))), "Session named: x");
    assert_eq!(text(&tool.answer("x", Err("gone".into()))), "Error naming session: gone");
    assert!(tool.description().starts_with("Give this session a short, descriptive name"));
}

#[test]
fn tool_names_are_made_safe() {
    assert_eq!(RenamedTool::wrap("Context7:query-docs").name, "context7-query-docs");
    assert_eq!(RenamedTool::wrap("My Tool:X").name, "my_tool-x");
}

#[test]
fn missing_arguments_are_told() {
    assert_eq!(required_args(Some("{}")).unwrap(), "{}");
    match required_args(None) {
        Err(ToolError::MissingArguments(m)) => assert_eq!(m, "no arguments"),
        Ok(_) => panic!("there are none"),
    }
}

#[test]
fn documentation_server_address() {
    assert_eq!(context7_url("k"), "https://mcp.context7.com/mcp?api_key=k");
}

#[test]
fn pin_metadata_is_an_object() {
    let (tool, _) = PinTool::new_with_risk(PinConfig::chat());
    let effect = tool.invoke(params("notes", "s", &[]), now());
    assert!(matches!(effect.message.unwrap().metadata, Some(Json::Object(_))));
}
