//! Sessions as they are stored.

use plan_ai_core::ids::Uuid;
use plan_ai_core::json::{parse, print, Json};
use plan_ai_core::store::{
    find_resumable, has_running_session, list_sessions, session_file_name, session_not_found,
    NewSession, SessionFile,
};
use plan_ai_core::time::Timestamp;

fn at(secs: i64) -> Timestamp {
    Timestamp::new(secs, 0).unwrap()
}

fn id(n: u128) -> Uuid {
    Uuid { bits: n }
}

fn json(text: &str) -> Json {
    parse(text.as_bytes()).unwrap()
}

fn file(n: u128, scope: u128, created: i64) -> SessionFile {
    let context = json("{}");
    let data = json(r#"{"k":1}"#);
    let new = NewSession {
        scope_id: id(scope),
        subject: "subject",
        created_by: "me",
        initial_context: &context,
        state_data: &data,
        provider: Some("ollama"),
        model: None,
        label: None,
    };
    SessionFile::create(&new, id(n), at(created))
}

#[test]
fn sessions_start_as_created() {
    let f = file(1, 2, 100);
    assert_eq!(f.session.id, id(1));
    assert_eq!(f.session.scope_id, id(2));
    assert_eq!(f.session.subject, "subject");
    assert_eq!(f.session.state, "created");
    assert_eq!(print(&f.session.state_data), r#"{"k":1}"#);
    assert_eq!(f.session.created_by, "me");
    assert_eq!(f.session.created_at, at(100));
    assert_eq!(f.session.updated_at, at(100));
    assert!(f.session.completed_at.is_none() && f.session.error_message.is_none());
    assert_eq!(f.session.provider.as_deref(), Some("ollama"));
    assert!(f.session.model.is_none() && f.session.label.is_none());
    assert!(f.messages.is_empty());
    assert_eq!(f.extra.len(), 0);
}

#[test]
fn changes_are_stamped() {
    let mut f = file(1, 2, 100);
    f.set_label("name", at(101));
    assert_eq!(f.session.label.as_deref(), Some("name"));
    assert_eq!(f.session.updated_at, at(101));
    f.update_provider_model("anthropic", "m", at(102));
    assert_eq!(f.session.provider.as_deref(), Some("anthropic"));
    assert_eq!(f.session.model.as_deref(), Some("m"));
    assert_eq!(f.session.updated_at, at(102));
}

#[test]
fn transitions_are_recorded() {
    let mut f = file(1, 2, 100);
    f.transition_state("completed", true, &json(r#"{"reason":"agent finished"}"#), at(110), id(9));
    assert_eq!(f.session.state, "completed");
    assert_eq!(f.session.updated_at, at(110));
    assert_eq!(f.session.completed_at, Some(at(110)));
    let m = &f.messages[0];
    assert_eq!(m.id, id(9));
    assert_eq!(m.session_id, id(1));
    assert_eq!(m.role, "state_change");
    assert_eq!(m.content, r#"{"reason":"agent finished","state":"completed"}"#);
    assert_eq!(print(m.metadata.as_ref().unwrap()), r#"{"reason":"agent finished"}"#);
    assert_eq!(m.created_at, at(110));
}

#[test]
fn the_first_completion_counts() {
    let mut f = file(1, 2, 100);
    f.transition_state("completed", true, &json("{}"), at(110), id(9));
    f.transition_state("cancelled", true, &json("{}"), at(120), id(10));
    assert_eq!(f.session.completed_at, Some(at(110)));
    // A session that goes on is not complete any more.
    f.transition_state("planning", false, &json("{}"), at(130), id(11));
    assert_eq!(f.session.completed_at, None);
    assert_eq!(f.messages.len(), 3);
}

#[test]
fn failures_are_recorded() {
    let mut f = file(1, 2, 100);
    f.transition_state("completed", true, &json("{}"), at(105), id(8));
    f.fail_session("no model", &json("{}"), at(110), id(9));
    assert_eq!(f.session.state, "failed");
    assert_eq!(f.session.error_message.as_deref(), Some("no model"));
    assert_eq!(f.session.completed_at, Some(at(110)));
    assert_eq!(print(&f.session.state_data), "{}");
    assert_eq!(f.messages[1].content, r#"{"reason":"no model","state":"failed"}"#);
    assert_eq!(print(f.messages[1].metadata.as_ref().unwrap()), r#"{"reason":"no model"}"#);
}

#[test]
fn messages_after_an_instant() {
    let mut f = file(1, 2, 100);
    for (n, secs) in [(1, 10), (2, 20), (3, 15), (4, 30)] {
        f.append_message(id(1), "user", &format!("m{n}"), None, at(secs), id(n));
    }
    let later: Vec<String> =
        f.get_messages_after(at(15)).into_iter().map(|m| m.content).collect();
    assert_eq!(later, vec!["m2", "m4"]);
    assert!(f.get_messages_after(at(30)).is_empty());
}

#[test]
fn messages_carry_metadata() {
    let mut f = file(1, 2, 100);
    f.append_message(id(5), "tool_result", "x", Some(&json("[1]")), at(3), id(6));
    assert_eq!(f.messages[0].session_id, id(5));
    assert_eq!(print(f.messages[0].metadata.as_ref().unwrap()), "[1]");
}

#[test]
fn tokens_add_up() {
    let mut f = file(1, 2, 100);
    assert_eq!(f.get_token_usage(), 0);
    assert_eq!(f.get_token_budget(), 0);
    assert_eq!(f.append_token_event(10, 5), 15);
    f.set_token_budget(1_000);
    assert_eq!(f.append_token_event(1, 0), 16);
    assert_eq!(f.get_token_usage(), 16);
    assert_eq!(f.get_token_budget(), 1_000);
    assert_eq!(print(&f.session.state_data), r#"{"k":1,"token_budget":1000,"tokens_used":16}"#);
    // What is stored under the names and is no such number counts as zero.
    f.session.state_data = json(r#"{"tokens_used":"many","token_budget":-4}"#);
    assert_eq!(f.get_token_usage(), 0);
    assert_eq!(f.get_token_budget(), 0);
    // State data may be missing.
    f.session.state_data = Json::Null;
    assert_eq!(f.append_token_event(2, 2), 4);
    assert_eq!(print(&f.session.state_data), r#"{"tokens_used":4}"#);
}

#[test]
fn token_counts_add_up_beyond_their_own_range() {
    let mut f = file(1, 2, 100);
    assert_eq!(f.append_token_event(u32::MAX, 1), 4_294_967_296);
    assert_eq!(f.get_token_usage(), 4_294_967_296);
    assert_eq!(f.append_token_event(u32::MAX, u32::MAX), 12_884_901_886);
    assert_eq!(f.get_token_usage(), 12_884_901_886);
}

#[test]
fn lists_are_newest_first() {
    let files = vec![file(1, 7, 10), file(2, 7, 30), file(3, 8, 40), file(4, 7, 30), file(5, 7, 20)];
    let ids: Vec<u128> = list_sessions(files, id(7)).iter().map(|s| s.id.bits).collect();
    // Sessions of the same age stay in their order.
    assert_eq!(ids, vec![2, 4, 5, 1]);
}

#[test]
fn lists_are_limited() {
    let files: Vec<SessionFile> = (0..150).map(|n| file(n, 7, n as i64)).collect();
    let listed = list_sessions(files, id(7));
    assert_eq!(listed.len(), 100);
    assert_eq!(listed[0].id, id(149));
    assert_eq!(listed[99].id, id(50));
}

#[test]
fn resumable_sessions_are_oldest_first() {
    let mut files =
        vec![file(1, 7, 30), file(2, 7, 10), file(3, 8, 20), file(4, 7, 5), file(5, 7, 10)];
    files[3].session.state = "failed".into();
    files[0].session.created_by = "robot".into();
    let found = find_resumable(files, &vec!["failed", "completed"], &vec!["robot"]);
    let ids: Vec<u128> = found.iter().map(|s| s.id.bits).collect();
    assert_eq!(ids, vec![2, 5, 3]);
}

#[test]
fn running_sessions_of_a_subject() {
    let mut files = vec![file(1, 7, 30)];
    assert!(has_running_session(&files, "subject", &vec!["failed"]));
    assert!(!has_running_session(&files, "other", &vec!["failed"]));
    files[0].session.state = "failed".into();
    assert!(!has_running_session(&files, "subject", &vec!["failed"]));
}

#[test]
fn files_are_named_by_session() {
    assert_eq!(session_file_name(&id(0xab)), "00000000-0000-0000-0000-0000000000ab.json");
    assert_eq!(
        session_not_found(&id(1)),
        "session 00000000-0000-0000-0000-000000000001 not found"
    );
}
