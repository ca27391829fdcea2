//! Sessions with their messages, as they are stored, and what the operations
//! of a store make of them.

use vstd::prelude::*;
use vstd::string::StringExecFns;
use vstd::utf8::encode_utf8;

use crate::ids::Uuid;
use crate::json::{json_parse, json_u64, obj_insert, obj_insert_get, opt_ref_view};
use crate::json::{Json, JsonView};
use crate::json::Object;
use crate::model::{messages_view, reason_data, reason_json, state_change_content};
use crate::model::{state_change_text, ChatMessage, ChatMessageView, ChatSession, ChatSessionView};
use crate::state::{names, names_hold};
use crate::text::{opt_str, text_eq, to_owned_opt};
use crate::time::Timestamp;

verus! {

/// What a session is created with.
#[derive(Debug)]
pub struct NewSession<'a> {
    pub scope_id: Uuid,
    pub subject: &'a str,
    pub created_by: &'a str,
    pub initial_context: &'a Json,
    pub state_data: &'a Json,
    pub provider: Option<&'a str>,
    pub model: Option<&'a str>,
    pub label: Option<&'a str>,
}

impl<'a> NewSession<'a> {
    /// The session that is created.
    pub open spec fn session(self, id: Uuid, now: Timestamp) -> ChatSessionView {
        ChatSessionView {
            id,
            scope_id: self.scope_id,
            subject: self.subject@,
            state: "created"@,
            state_data: self.state_data.view(),
            created_by: self.created_by@,
            created_at: now,
            updated_at: now,
            completed_at: None,
            error_message: None,
            initial_context: self.initial_context.view(),
            provider: opt_str(self.provider),
            model: opt_str(self.model),
            label: opt_str(self.label),
        }
    }
}

/// A session with its messages, as one file holds them. What a domain adds to
/// the file is kept as it is.
#[derive(Debug)]
pub struct SessionFile {
    pub session: ChatSession,
    pub messages: Vec<ChatMessage>,
    pub extra: Object,
}

/// What a session file holds.
#[verifier::ext_equal]
pub struct SessionFileView {
    pub session: ChatSessionView,
    pub messages: Seq<ChatMessageView>,
    pub extra: Seq<(Seq<char>, JsonView)>,
}

impl View for SessionFile {
    type V = SessionFileView;

    open spec fn view(&self) -> SessionFileView {
        SessionFileView {
            session: self.session@,
            messages: messages_view(self.messages@),
            extra: self.extra@,
        }
    }
}

/// The message that records a state change.
pub open spec fn state_change_message(
    id: Uuid,
    session_id: Uuid,
    state: Seq<char>,
    state_data: JsonView,
    now: Timestamp,
) -> ChatMessageView {
    ChatMessageView {
        id,
        session_id,
        role: "state_change"@,
        content: state_change_text(state, state_data),
        metadata: Some(state_data),
        created_at: now,
    }
}

impl SessionFileView {
    /// The file behind a change of state. A terminal state keeps the first
    /// time of completion; any other clears it.
    pub open spec fn moved(
        self,
        state: Seq<char>,
        terminal: bool,
        state_data: JsonView,
        now: Timestamp,
        message_id: Uuid,
    ) -> SessionFileView {
        SessionFileView {
            session: ChatSessionView {
                state,
                state_data,
                updated_at: now,
                completed_at: if !terminal {
                    None
                } else if self.session.completed_at is Some {
                    self.session.completed_at
                } else {
                    Some(now)
                },
                ..self.session
            },
            messages: self.messages.push(
                state_change_message(message_id, self.session.id, state, state_data, now),
            ),
            ..self
        }
    }

    /// The file of a session that has failed.
    pub open spec fn failed(
        self,
        error_message: Seq<char>,
        state_data: JsonView,
        now: Timestamp,
        message_id: Uuid,
    ) -> SessionFileView {
        SessionFileView {
            session: ChatSessionView {
                state: "failed"@,
                state_data,
                error_message: Some(error_message),
                updated_at: now,
                completed_at: Some(now),
                ..self.session
            },
            messages: self.messages.push(
                state_change_message(
                    message_id,
                    self.session.id,
                    "failed"@,
                    reason_data(error_message),
                    now,
                ),
            ),
            ..self
        }
    }

    /// The file with state data of its session set.
    pub open spec fn with_state_data(self, state_data: JsonView) -> SessionFileView {
        SessionFileView { session: ChatSessionView { state_data, ..self.session }, ..self }
    }
}

/// State data that a member can be set in: an object, or nothing yet.
pub open spec fn takes_members(v: JsonView) -> bool {
    v is Object || v is Null
}

/// State data with a member set.
pub open spec fn with_member(v: JsonView, key: Seq<char>, value: JsonView) -> JsonView {
    match v {
        JsonView::Object(m) => JsonView::Object(obj_insert(m, key, value)),
        _ => JsonView::Object(obj_insert(Seq::empty(), key, value)),
    }
}

/// A number in state data; zero where there is none.
pub open spec fn number_in(v: JsonView, key: Seq<char>) -> u64 {
    match v.get(key) {
        Some(n) => match n.as_u64() {
            Some(u) => u,
            None => 0,
        },
        None => 0,
    }
}

/// Sets a member in state data.
fn set_member(v: Json, key: &str, value: Json) -> (r: Json)
    requires
        takes_members(v.view()),
    ensures
        r.view() == with_member(v.view(), key@, value.view()),
{
    match v {
        Json::Object(m) => Json::Object(m.insert(key.to_owned(), value)),
        _ => Json::Object(Object::new().insert(key.to_owned(), value)),
    }
}

/// A number in state data; zero where there is none.
fn read_number(v: &Json, key: &str) -> (r: u64)
    ensures
        r == number_in(v.view(), key@),
{
    match v.get(key) {
        Some(n) => match n.as_u64() {
            Some(u) => u,
            None => 0,
        },
        None => 0,
    }
}

impl SessionFile {
    /// The file of a new session.
    pub fn create(new: &NewSession, id: Uuid, now: Timestamp) -> (r: SessionFile)
        ensures
            r@ == (SessionFileView {
                session: new.session(id, now),
                messages: Seq::empty(),
                extra: Seq::empty(),
            }),
            r.session.id == id,
            r.session.scope_id == new.scope_id,
            r.session.subject@ == new.subject@,
            r.session.state@ == "created"@,
            r.session.state_data.view() == new.state_data.view(),
            r.session.created_by@ == new.created_by@,
            r.session.created_at == now,
            r.session.updated_at == now,
            r.session.completed_at is None,
            r.session.error_message is None,
            r.session.initial_context.view() == new.initial_context.view(),
            match new.provider {
                Some(s) => r.session.provider matches Some(t) && t@ == s@,
                None => r.session.provider is None,
            },
            match new.model {
                Some(s) => r.session.model matches Some(t) && t@ == s@,
                None => r.session.model is None,
            },
            match new.label {
                Some(s) => r.session.label matches Some(t) && t@ == s@,
                None => r.session.label is None,
            },
            r.messages@.len() == 0,
    {
        let r = SessionFile {
            session: ChatSession {
                id,
                scope_id: new.scope_id,
                subject: new.subject.to_owned(),
                state: "created".to_owned(),
                state_data: new.state_data.clone(),
                created_by: new.created_by.to_owned(),
                created_at: now,
                updated_at: now,
                completed_at: None,
                error_message: None,
                initial_context: new.initial_context.clone(),
                provider: to_owned_opt(new.provider),
                model: to_owned_opt(new.model),
                label: to_owned_opt(new.label),
            },
            messages: Vec::new(),
            extra: Object::new(),
        };
        proof {
            assert(r@.messages =~= Seq::<ChatMessageView>::empty());
        }
        r
    }

    /// Names the session.
    pub fn set_label(&mut self, label: &str, now: Timestamp)
        ensures
            final(self)@ == (SessionFileView {
                session: ChatSessionView {
                    label: Some(label@),
                    updated_at: now,
                    ..old(self)@.session
                },
                ..old(self)@
            }),
            final(self).session.label matches Some(l) && l@ == label@,
            final(self).session.updated_at == now,
            final(self).messages@ == old(self).messages@,
    {
        self.session.label = Some(label.to_owned());
        self.session.updated_at = now;
    }

    /// Records a state change in the messages.
    fn append_state_change(
        &mut self,
        state: &str,
        state_data: &Json,
        now: Timestamp,
        message_id: Uuid,
    )
        ensures
            final(self)@ == (SessionFileView {
                messages: old(self)@.messages.push(
                    state_change_message(
                        message_id,
                        old(self)@.session.id,
                        state@,
                        state_data.view(),
                        now,
                    ),
                ),
                ..old(self)@
            }),
            final(self).session == old(self).session,
            final(self).messages@.len() == old(self).messages@.len() + 1,
            final(self).messages@.drop_last() == old(self).messages@,
            final(self).messages@.last().id == message_id,
            final(self).messages@.last().session_id == old(self).session.id,
            final(self).messages@.last().role@ == "state_change"@,
            final(self).messages@.last().metadata matches Some(m) && m.view() == state_data.view(),
            final(self).messages@.last().created_at == now,
            json_parse(encode_utf8(final(self).messages@.last().content@)) matches Ok(v) && v.get(
                "state"@,
            ) == Some(JsonView::String(state@)) && v.get("reason"@) == Some(
                JsonView::String(
                    match state_data.view().get("reason"@) {
                        Some(JsonView::String(reason)) => reason,
                        _ => Seq::empty(),
                    },
                ),
            ),
    {
        self.messages.push(
            ChatMessage {
                id: message_id,
                session_id: self.session.id,
                role: "state_change".to_owned(),
                content: state_change_content(state, state_data),
                metadata: Some(state_data.clone()),
                created_at: now,
            },
        );
        proof {
            assert(self@.messages =~= old(self)@.messages.push(
                state_change_message(
                    message_id,
                    old(self)@.session.id,
                    state@,
                    state_data.view(),
                    now,
                ),
            ));
            assert(self.messages@.drop_last() =~= old(self).messages@);
        }
    }

    /// Moves the session to a state, and records the change.
    pub fn transition_state(
        &mut self,
        new_state: &str,
        terminal: bool,
        state_data: &Json,
        now: Timestamp,
        message_id: Uuid,
    )
        ensures
            final(self)@ == old(self)@.moved(
                new_state@,
                terminal,
                state_data.view(),
                now,
                message_id,
            ),
            final(self).session.state@ == new_state@,
            final(self).session.state_data.view() == state_data.view(),
            final(self).session.updated_at == now,
            !terminal ==> final(self).session.completed_at is None,
            terminal ==> final(self).session.completed_at == if old(
                self,
            ).session.completed_at is Some {
                old(self).session.completed_at
            } else {
                Some(now)
            },
            final(self).messages@.len() == old(self).messages@.len() + 1,
            final(self).messages@.drop_last() == old(self).messages@,
            final(self).messages@.last().id == message_id,
            final(self).messages@.last().session_id == old(self).session.id,
            final(self).messages@.last().role@ == "state_change"@,
            final(self).messages@.last().metadata matches Some(m) && m.view() == state_data.view(),
            final(self).messages@.last().created_at == now,
            json_parse(encode_utf8(final(self).messages@.last().content@)) matches Ok(v) && v.get(
                "state"@,
            ) == Some(JsonView::String(new_state@)),
    {
        self.session.state = new_state.to_owned();
        self.session.state_data = state_data.clone();
        self.session.updated_at = now;
        if terminal {
            if self.session.completed_at.is_none() {
                self.session.completed_at = Some(now);
            }
        } else {
            self.session.completed_at = None;
        }
        self.append_state_change(new_state, state_data, now, message_id);
    }

    /// Fails the session, and records why.
    pub fn fail_session(
        &mut self,
        error_message: &str,
        state_data: &Json,
        now: Timestamp,
        message_id: Uuid,
    )
        ensures
            final(self)@ == old(self)@.failed(error_message@, state_data.view(), now, message_id),
            final(self).session.state@ == "failed"@,
            final(self).session.state_data.view() == state_data.view(),
            final(self).session.error_message matches Some(e) && e@ == error_message@,
            final(self).session.updated_at == now,
            final(self).session.completed_at == Some(now),
            final(self).messages@.len() == old(self).messages@.len() + 1,
            final(self).messages@.drop_last() == old(self).messages@,
            final(self).messages@.last().id == message_id,
            final(self).messages@.last().session_id == old(self).session.id,
            final(self).messages@.last().role@ == "state_change"@,
            final(self).messages@.last().metadata matches Some(m) && m.view().get("reason"@)
                == Some(JsonView::String(error_message@)),
            final(self).messages@.last().created_at == now,
            json_parse(encode_utf8(final(self).messages@.last().content@)) matches Ok(v) && v.get(
                "state"@,
            ) == Some(JsonView::String("failed"@)) && v.get("reason"@) == Some(
                JsonView::String(error_message@),
            ),
    {
        self.session.state = "failed".to_owned();
        self.session.state_data = state_data.clone();
        self.session.error_message = Some(error_message.to_owned());
        self.session.updated_at = now;
        self.session.completed_at = Some(now);
        let data = reason_json(error_message);
        self.append_state_change("failed", &data, now, message_id);
    }

    /// Records which model serves the session.
    pub fn update_provider_model(&mut self, provider: &str, model: &str, now: Timestamp)
        ensures
            final(self)@ == (SessionFileView {
                session: ChatSessionView {
                    provider: Some(provider@),
                    model: Some(model@),
                    updated_at: now,
                    ..old(self)@.session
                },
                ..old(self)@
            }),
            final(self).session.provider matches Some(p) && p@ == provider@,
            final(self).session.model matches Some(m) && m@ == model@,
            final(self).session.updated_at == now,
            final(self).messages@ == old(self).messages@,
    {
        self.session.provider = Some(provider.to_owned());
        self.session.model = Some(model.to_owned());
        self.session.updated_at = now;
    }

    /// Appends a message.
    pub fn append_message(
        &mut self,
        session_id: Uuid,
        role: &str,
        content: &str,
        metadata: Option<&Json>,
        now: Timestamp,
        message_id: Uuid,
    )
        ensures
            final(self)@ == (SessionFileView {
                messages: old(self)@.messages.push(
                    ChatMessageView {
                        id: message_id,
                        session_id,
                        role: role@,
                        content: content@,
                        metadata: opt_ref_view(metadata),
                        created_at: now,
                    },
                ),
                ..old(self)@
            }),
            final(self).session == old(self).session,
            final(self).messages@.len() == old(self).messages@.len() + 1,
            final(self).messages@.drop_last() == old(self).messages@,
            final(self).messages@.last().id == message_id,
            final(self).messages@.last().session_id == session_id,
            final(self).messages@.last().role@ == role@,
            final(self).messages@.last().content@ == content@,
            final(self).messages@.last().created_at == now,
            match metadata {
                Some(m) => final(self).messages@.last().metadata matches Some(c) && c.view()
                    == m.view(),
                None => final(self).messages@.last().metadata is None,
            },
    {
        let copy: Option<Json> = match metadata {
            Some(m) => Some(m.clone()),
            None => None,
        };
        self.messages.push(
            ChatMessage {
                id: message_id,
                session_id,
                role: role.to_owned(),
                content: content.to_owned(),
                metadata: copy,
                created_at: now,
            },
        );
        proof {
            assert(self@.messages =~= old(self)@.messages.push(
                ChatMessageView {
                    id: message_id,
                    session_id,
                    role: role@,
                    content: content@,
                    metadata: opt_ref_view(metadata),
                    created_at: now,
                },
            ));
            assert(self.messages@.drop_last() =~= old(self).messages@);
        }
    }

    /// The messages that came after an instant, in order.
    pub fn get_messages_after(&self, after: Timestamp) -> (r: Vec<ChatMessage>)
        ensures
            messages_view(r@) == self@.messages.filter(
                |m: ChatMessageView| m.created_at.is_after(after),
            ),
    {
        let ghost keeps = |m: ChatMessageView| m.created_at.is_after(after);
        let ghost all = messages_view(self.messages@);
        let mut out: Vec<ChatMessage> = Vec::new();
        let mut i: usize = 0;
        proof {
            reveal(Seq::filter);
            assert(messages_view(out@) =~= all.take(0).filter(keeps));
        }
        while i < self.messages.len()
            invariant
                i <= self.messages@.len(),
                all == messages_view(self.messages@),
                keeps == (|m: ChatMessageView| m.created_at.is_after(after)),
                messages_view(out@) == all.take(i as int).filter(keeps),
            decreases self.messages.len() - i,
        {
            let m = &self.messages[i];
            let ghost before = out@;
            proof {
                reveal(Seq::filter);
                assert(all.take(i + 1).drop_last() =~= all.take(i as int));
                assert(all.take(i + 1).last() == m@);
            }
            if m.created_at.after(&after) {
                out.push(m.clone());
                proof {
                    assert(messages_view(out@) =~= messages_view(before).push(m@));
                }
            }
            i = i + 1;
        }
        proof {
            assert(all.take(i as int) =~= all);
        }
        out
    }

    /// Adds the tokens of a call to the session's total, and gives the total.
    pub fn append_token_event(&mut self, input_tokens: u32, output_tokens: u32) -> (r: u64)
        requires
            takes_members(old(self)@.session.state_data),
            number_in(old(self)@.session.state_data, "tokens_used"@) + input_tokens
                + output_tokens <= u64::MAX,
        ensures
            r == number_in(old(self)@.session.state_data, "tokens_used"@) + input_tokens
                + output_tokens,
            final(self)@ == old(self)@.with_state_data(
                with_member(old(self)@.session.state_data, "tokens_used"@, json_u64(r)),
            ),
            number_in(final(self)@.session.state_data, "tokens_used"@) == r,
            final(self).session.state_data.view().get("tokens_used"@) matches Some(n) && n.as_u64()
                == Some(r),
            number_in(final(self)@.session.state_data, "token_budget"@) == number_in(
                old(self)@.session.state_data,
                "token_budget"@,
            ),
            final(self).session.state == old(self).session.state,
            final(self).messages@ == old(self).messages@,
    {
        let total: u64 = input_tokens as u64 + output_tokens as u64;
        let used: u64 = read_number(&self.session.state_data, "tokens_used") + total;
        let data = self.session.state_data.clone();
        let n = Json::number(used);
        self.session.state_data = set_member(data, "tokens_used", n);
        proof {
            set_member_is_read(
                old(self)@.session.state_data,
                "tokens_used"@,
                json_u64(used),
                "token_budget"@,
            );
            budget_and_usage_are_apart(old(self)@.session.state_data, json_u64(used));
        }
        used
    }

    /// The tokens that the session has used.
    pub fn get_token_usage(&self) -> (r: u64)
        ensures
            r == number_in(self@.session.state_data, "tokens_used"@),
            match self.session.state_data.view().get("tokens_used"@) {
                Some(n) => n.as_u64() == Some(r) || (n.as_u64() is None && r == 0),
                None => r == 0,
            },
    {
        read_number(&self.session.state_data, "tokens_used")
    }

    /// Sets the tokens that the session may use.
    pub fn set_token_budget(&mut self, budget: u64)
        requires
            takes_members(old(self)@.session.state_data),
        ensures
            final(self)@ == old(self)@.with_state_data(
                with_member(old(self)@.session.state_data, "token_budget"@, json_u64(budget)),
            ),
            number_in(final(self)@.session.state_data, "token_budget"@) == budget,
            final(self).session.state_data.view().get("token_budget"@) matches Some(n) && n.as_u64()
                == Some(budget),
            number_in(final(self)@.session.state_data, "tokens_used"@) == number_in(
                old(self)@.session.state_data,
                "tokens_used"@,
            ),
            final(self).session.state == old(self).session.state,
            final(self).messages@ == old(self).messages@,
    {
        let data = self.session.state_data.clone();
        let n = Json::number(budget);
        self.session.state_data = set_member(data, "token_budget", n);
        proof {
            set_member_is_read(
                old(self)@.session.state_data,
                "token_budget"@,
                json_u64(budget),
                "tokens_used"@,
            );
            budget_and_usage_are_apart(old(self)@.session.state_data, json_u64(budget));
        }
    }

    /// The tokens that the session may use.
    pub fn get_token_budget(&self) -> (r: u64)
        ensures
            r == number_in(self@.session.state_data, "token_budget"@),
            match self.session.state_data.view().get("token_budget"@) {
                Some(n) => n.as_u64() == Some(r) || (n.as_u64() is None && r == 0),
                None => r == 0,
            },
    {
        read_number(&self.session.state_data, "token_budget")
    }
}

/// A member that is set is read back, and other members are kept.
proof fn set_member_is_read(v: JsonView, key: Seq<char>, value: JsonView, other: Seq<char>)
    requires
        takes_members(v),
    ensures
        with_member(v, key, value).get(key) == Some(value),
        other != key ==> with_member(v, key, value).get(other) == v.get(other),
{
    let m = match v {
        JsonView::Object(m) => m,
        _ => Seq::empty(),
    };
    obj_insert_get(m, key, value, other);
}

/// A terminal state reached from a terminal state keeps the first time of
/// completion; a session that goes on has none.
pub proof fn first_completion_is_kept(
    file: SessionFileView,
    state: Seq<char>,
    data: JsonView,
    now: Timestamp,
    id: Uuid,
)
    requires
        file.session.completed_at is Some,
    ensures
        file.moved(state, true, data, now, id).session.completed_at == file.session.completed_at,
        file.moved(state, false, data, now, id).session.completed_at is None,
{
}

/// The budget and the usage of a session do not touch one another.
pub proof fn budget_and_usage_are_apart(v: JsonView, n: JsonView)
    requires
        takes_members(v),
    ensures
        number_in(with_member(v, "token_budget"@, n), "tokens_used"@) == number_in(
            v,
            "tokens_used"@,
        ),
        number_in(with_member(v, "tokens_used"@, n), "token_budget"@) == number_in(
            v,
            "token_budget"@,
        ),
{
    reveal_strlit("token_budget");
    reveal_strlit("tokens_used");
    assert("token_budget"@.len() == 12 && "tokens_used"@.len() == 11);
    set_member_is_read(v, "token_budget"@, n, "tokens_used"@);
    set_member_is_read(v, "tokens_used"@, n, "token_budget"@);
}

/// The name of the file that holds a session.
pub fn session_file_name(id: &Uuid) -> (r: String)
    ensures
        r@ == id.text() + ".json"@,
{
    let mut name = id.to_text();
    name.append(".json");
    name
}

/// The message for a session that has no file.
pub fn session_not_found(id: &Uuid) -> (r: String)
    ensures
        r@ == "session "@ + id.text() + " not found"@,
{
    let mut s = "session ".to_owned();
    s.append(id.to_text().as_str());
    s.append(" not found");
    s
}

// ── Looking through sessions ─────────────────────────────────────────

/// How many sessions a list holds at most.
pub const LIST_LIMIT: usize = 100;

/// The session of each file.
pub open spec fn sessions_of(files: Seq<SessionFile>) -> Seq<ChatSessionView> {
    files.map_values(|f: SessionFile| f.session@)
}

/// What each session holds.
pub open spec fn sessions_view(v: Seq<ChatSession>) -> Seq<ChatSessionView> {
    v.map_values(|s: ChatSession| s@)
}

/// Whether a session belongs in front of another.
pub open spec fn precedes(a: ChatSessionView, b: ChatSessionView, newest_first: bool) -> bool {
    if newest_first {
        a.created_at.is_after(b.created_at)
    } else {
        b.created_at.is_after(a.created_at)
    }
}

/// Sessions in order with one more in its place, behind those of the same age.
pub open spec fn placed(
    sorted: Seq<ChatSessionView>,
    s: ChatSessionView,
    newest_first: bool,
) -> Seq<ChatSessionView>
    decreases sorted.len(),
{
    if sorted.len() == 0 || !precedes(s, sorted.last(), newest_first) {
        sorted.push(s)
    } else {
        placed(sorted.drop_last(), s, newest_first).push(sorted.last())
    }
}

/// Sessions by age; those of the same age stay in the order they had.
pub open spec fn by_age(sessions: Seq<ChatSessionView>, newest_first: bool) -> Seq<
    ChatSessionView,
>
    decreases sessions.len(),
{
    if sessions.len() == 0 {
        sessions
    } else {
        placed(by_age(sessions.drop_last(), newest_first), sessions.last(), newest_first)
    }
}

/// Puts a session in its place among others.
fn place(sorted: &mut Vec<ChatSession>, s: ChatSession, newest_first: bool)
    ensures
        sessions_view(final(sorted)@) == placed(sessions_view(old(sorted)@), s@, newest_first),
{
    let ghost before = sessions_view(sorted@);
    let mut at: usize = sorted.len();
    proof {
        assert(before.take(at as int) =~= before);
        assert(before.skip(at as int) =~= Seq::<ChatSessionView>::empty());
        assert(placed(before, s@, newest_first) =~= placed(before.take(at as int), s@, newest_first)
            + before.skip(at as int));
    }
    while at > 0 && belongs_before(&s, &sorted[at - 1], newest_first)
        invariant
            at <= sorted@.len(),
            before == sessions_view(sorted@),
            placed(before, s@, newest_first) == placed(before.take(at as int), s@, newest_first)
                + before.skip(at as int),
        decreases at,
    {
        proof {
            assert(before.take(at as int).drop_last() =~= before.take(at - 1));
            assert(before.take(at as int).last() == sorted@[at - 1]@);
            assert(before.skip(at - 1) =~= seq![before[at - 1]] + before.skip(at as int));
            assert(placed(before, s@, newest_first) =~= placed(before.take(at - 1), s@, newest_first)
                + before.skip(at - 1));
        }
        at = at - 1;
    }
    proof {
        assert(placed(before.take(at as int), s@, newest_first) =~= before.take(at as int).push(
            s@,
        )) by {
            if at > 0 {
                assert(before.take(at as int).last() == sorted@[at - 1]@);
            }
        }
    }
    let ghost view = s@;
    sorted.insert(at, s);
    proof {
        assert(sessions_view(sorted@) =~= before.take(at as int).push(view) + before.skip(
            at as int,
        ));
    }
}

/// Whether a session belongs in front of another.
fn belongs_before(a: &ChatSession, b: &ChatSession, newest_first: bool) -> (r: bool)
    ensures
        r == precedes(a@, b@, newest_first),
{
    if newest_first {
        a.created_at.after(&b.created_at)
    } else {
        b.created_at.after(&a.created_at)
    }
}

/// The sessions of a scope, newest first, up to the limit of a list.
pub fn list_sessions(files: Vec<SessionFile>, scope_id: Uuid) -> (r: Vec<ChatSession>)
    ensures
        ({
            let own = sessions_of(files@).filter(|s: ChatSessionView| s.scope_id == scope_id);
            let sorted = by_age(own, true);
            sessions_view(r@) == if sorted.len() > LIST_LIMIT {
                sorted.take(LIST_LIMIT as int)
            } else {
                sorted
            }
        }),
{
    let ghost keeps = |s: ChatSessionView| s.scope_id == scope_id;
    let ghost all = sessions_of(files@);
    let ghost given = files@;
    let mut out: Vec<ChatSession> = Vec::new();
    proof {
        reveal(Seq::filter);
        assert(all.take(0).filter(keeps) =~= Seq::<ChatSessionView>::empty());
        assert(sessions_view(out@) =~= by_age(all.take(0).filter(keeps), true));
    }
    for f in it: files
        invariant
            it.seq() == given,
            all == sessions_of(given),
            keeps == (|s: ChatSessionView| s.scope_id == scope_id),
            sessions_view(out@) == by_age(all.take(it.index() as int).filter(keeps), true),
    {
        let ghost n = it.index() as int;
        proof {
            reveal(Seq::filter);
            assert(all.take(n + 1).drop_last() =~= all.take(n));
            assert(all.take(n + 1).last() == f.session@);
            let kept = all.take(n).filter(keeps);
            assert(kept.push(f.session@).drop_last() =~= kept);
        }
        if f.session.scope_id == scope_id {
            place(&mut out, f.session, true);
        }
    }
    proof {
        assert(all.take(all.len() as int) =~= all);
    }
    out.truncate(LIST_LIMIT);
    proof {
        let sorted = by_age(all.filter(keeps), true);
        if sorted.len() > LIST_LIMIT {
            assert(sessions_view(out@) =~= sorted.take(LIST_LIMIT as int));
        } else {
            assert(sessions_view(out@) =~= sorted);
        }
    }
    out
}

/// Whether a session can be resumed: neither its state nor its creator is
/// ruled out.
pub open spec fn resumable(
    s: ChatSessionView,
    non_resumable: Seq<Seq<char>>,
    excluded: Seq<Seq<char>>,
) -> bool {
    !excluded.contains(s.created_by) && !non_resumable.contains(s.state)
}

/// The sessions that can be resumed, oldest first.
pub fn find_resumable<'a>(
    files: Vec<SessionFile>,
    non_resumable: &Vec<&'a str>,
    exclude_created_by: &Vec<&'a str>,
) -> (r: Vec<ChatSession>)
    ensures
        sessions_view(r@) == by_age(
            sessions_of(files@).filter(
                |s: ChatSessionView|
                    resumable(s, names(non_resumable@), names(exclude_created_by@)),
            ),
            false,
        ),
{
    let ghost keeps = |s: ChatSessionView|
        resumable(s, names(non_resumable@), names(exclude_created_by@));
    let ghost all = sessions_of(files@);
    let ghost given = files@;
    let mut out: Vec<ChatSession> = Vec::new();
    proof {
        reveal(Seq::filter);
        assert(all.take(0).filter(keeps) =~= Seq::<ChatSessionView>::empty());
        assert(sessions_view(out@) =~= by_age(all.take(0).filter(keeps), false));
    }
    for f in it: files
        invariant
            it.seq() == given,
            all == sessions_of(given),
            keeps == (|s: ChatSessionView|
                resumable(s, names(non_resumable@), names(exclude_created_by@))),
            sessions_view(out@) == by_age(all.take(it.index() as int).filter(keeps), false),
    {
        let ghost n = it.index() as int;
        proof {
            reveal(Seq::filter);
            assert(all.take(n + 1).drop_last() =~= all.take(n));
            assert(all.take(n + 1).last() == f.session@);
            let kept = all.take(n).filter(keeps);
            assert(kept.push(f.session@).drop_last() =~= kept);
        }
        if !names_hold(exclude_created_by, f.session.created_by.as_str()) && !names_hold(
            non_resumable,
            f.session.state.as_str(),
        ) {
            place(&mut out, f.session, false);
        }
    }
    proof {
        assert(all.take(all.len() as int) =~= all);
    }
    out
}

/// Whether some session of a subject is in a state that is not an inactive
/// one.
pub fn has_running_session<'a>(
    files: &Vec<SessionFile>,
    subject: &str,
    inactive_states: &Vec<&'a str>,
) -> (r: bool)
    ensures
        r == exists|i: int|
            0 <= i < files@.len() && (#[trigger] files@[i]).session.subject@ == subject@ && !names(
                inactive_states@,
            ).contains(files@[i].session.state@),
{
    let mut i: usize = 0;
    while i < files.len()
        invariant
            i <= files@.len(),
            forall|k: int|
                0 <= k < i ==> !((#[trigger] files@[k]).session.subject@ == subject@ && !names(
                    inactive_states@,
                ).contains(files@[k].session.state@)),
        decreases files.len() - i,
    {
        let s = &files[i].session;
        if text_eq(s.subject.as_str(), subject) && !names_hold(inactive_states, s.state.as_str()) {
            return true;
        }
        i = i + 1;
    }
    false
}

/// Whether sessions stand by age.
pub open spec fn aged(sessions: Seq<ChatSessionView>, newest_first: bool) -> bool {
    forall|i: int, j: int|
        0 <= i < j < sessions.len() ==> !precedes(
            #[trigger] sessions[j],
            #[trigger] sessions[i],
            newest_first,
        )
}

/// A session put in its place leaves sessions in order.
proof fn placed_is_aged(sorted: Seq<ChatSessionView>, s: ChatSessionView, newest_first: bool)
    requires
        aged(sorted, newest_first),
    ensures
        aged(placed(sorted, s, newest_first), newest_first),
        placed(sorted, s, newest_first).to_multiset() == sorted.to_multiset().insert(s),
        forall|i: int|
            0 <= i < placed(sorted, s, newest_first).len() ==> #[trigger] placed(
                sorted,
                s,
                newest_first,
            )[i] == s || sorted.contains(placed(sorted, s, newest_first)[i]),
    decreases sorted.len(),
{
    broadcast use vstd::seq_lib::group_to_multiset_ensures;

    let r = placed(sorted, s, newest_first);
    if sorted.len() == 0 || !precedes(s, sorted.last(), newest_first) {
        assert forall|i: int, j: int| 0 <= i < j < r.len() implies !precedes(
            #[trigger] r[j],
            #[trigger] r[i],
            newest_first,
        ) by {
            if j == sorted.len() && i < sorted.len() - 1 {
                assert(!precedes(sorted[sorted.len() - 1], sorted[i], newest_first));
            }
        }
        assert forall|i: int| 0 <= i < r.len() implies #[trigger] r[i] == s || sorted.contains(
            r[i],
        ) by {
            if i < sorted.len() {
                assert(sorted[i] == r[i]);
            }
        }
    } else {
        let front = sorted.drop_last();
        let part = placed(front, s, newest_first);
        placed_is_aged(front, s, newest_first);
        let last = sorted.last();
        assert forall|i: int| 0 <= i < part.len() implies !precedes(
            last,
            #[trigger] part[i],
            newest_first,
        ) by {
            if part[i] != s {
                assert(front.contains(part[i]));
                let k = choose|k: int| 0 <= k < front.len() && front[k] == part[i];
                assert(!precedes(sorted[sorted.len() - 1], sorted[k], newest_first));
            }
        }
        assert forall|i: int, j: int| 0 <= i < j < r.len() implies !precedes(
            #[trigger] r[j],
            #[trigger] r[i],
            newest_first,
        ) by {
            assert(r[i] == part[i]);
            if j < part.len() {
                assert(r[j] == part[j]);
            }
        }
        assert(sorted =~= front.push(last));
        assert(r.to_multiset() =~= sorted.to_multiset().insert(s));
        assert forall|i: int| 0 <= i < r.len() implies #[trigger] r[i] == s || sorted.contains(
            r[i],
        ) by {
            if i < part.len() {
                assert(r[i] == part[i]);
                if part[i] != s {
                    let k = choose|k: int| 0 <= k < front.len() && front[k] == part[i];
                    assert(sorted[k] == r[i]);
                }
            } else {
                assert(sorted[sorted.len() - 1] == r[i]);
            }
        }
    }
}

/// Sessions by age are the same sessions, in order of their age.
pub proof fn by_age_is_in_order(sessions: Seq<ChatSessionView>, newest_first: bool)
    ensures
        aged(by_age(sessions, newest_first), newest_first),
        by_age(sessions, newest_first).to_multiset() == sessions.to_multiset(),
    decreases sessions.len(),
{
    broadcast use vstd::seq_lib::group_to_multiset_ensures;

    if sessions.len() > 0 {
        let front = sessions.drop_last();
        by_age_is_in_order(front, newest_first);
        placed_is_aged(by_age(front, newest_first), sessions.last(), newest_first);
        assert(sessions =~= front.push(sessions.last()));
    }
}

// ── What the operations of a store do ────────────────────────────────

/// A change of state leaves the session in that state with that data, and adds
/// one message that records it; what the change does not speak of stays.
pub proof fn moved_sessions_are_in_the_new_state(
    file: SessionFileView,
    state: Seq<char>,
    terminal: bool,
    data: JsonView,
    now: Timestamp,
    id: Uuid,
)
    ensures
        ({
            let after = file.moved(state, terminal, data, now, id);
            &&& after.session.state == state
            &&& after.session.state_data == data
            &&& after.session.updated_at == now
            &&& terminal && file.session.completed_at is None ==> after.session.completed_at
                == Some(now)
            &&& terminal && file.session.completed_at is Some ==> after.session.completed_at
                == file.session.completed_at
            &&& !terminal ==> after.session.completed_at is None
            &&& after.session.id == file.session.id
            &&& after.session.scope_id == file.session.scope_id
            &&& after.session.subject == file.session.subject
            &&& after.session.created_by == file.session.created_by
            &&& after.session.created_at == file.session.created_at
            &&& after.session.error_message == file.session.error_message
            &&& after.session.initial_context == file.session.initial_context
            &&& after.session.provider == file.session.provider
            &&& after.session.model == file.session.model
            &&& after.session.label == file.session.label
            &&& after.extra == file.extra
            &&& after.messages.len() == file.messages.len() + 1
            &&& after.messages.drop_last() == file.messages
            &&& after.messages.last().id == id
            &&& after.messages.last().session_id == file.session.id
            &&& after.messages.last().role == "state_change"@
            &&& after.messages.last().content == state_change_text(state, data)
            &&& after.messages.last().metadata == Some(data)
            &&& after.messages.last().created_at == now
        }),
{
    assert(file.moved(state, terminal, data, now, id).messages.drop_last() =~= file.messages);
}

/// A session that fails is in the failed state with its error and its data,
/// complete from then on, and its messages record the error as the reason; what
/// the failure does not speak of stays.
pub proof fn failed_sessions_keep_their_error(
    file: SessionFileView,
    error: Seq<char>,
    data: JsonView,
    now: Timestamp,
    id: Uuid,
)
    ensures
        ({
            let after = file.failed(error, data, now, id);
            &&& after.session.state == "failed"@
            &&& after.session.state_data == data
            &&& after.session.error_message == Some(error)
            &&& after.session.updated_at == now
            &&& after.session.completed_at == Some(now)
            &&& after.session.id == file.session.id
            &&& after.session.scope_id == file.session.scope_id
            &&& after.session.subject == file.session.subject
            &&& after.session.created_by == file.session.created_by
            &&& after.session.created_at == file.session.created_at
            &&& after.session.initial_context == file.session.initial_context
            &&& after.session.provider == file.session.provider
            &&& after.session.model == file.session.model
            &&& after.session.label == file.session.label
            &&& after.extra == file.extra
            &&& after.messages.len() == file.messages.len() + 1
            &&& after.messages.drop_last() == file.messages
            &&& after.messages.last().id == id
            &&& after.messages.last().session_id == file.session.id
            &&& after.messages.last().role == "state_change"@
            &&& after.messages.last().metadata matches Some(m) && m.get("reason"@) == Some(
                JsonView::String(error),
            ) && after.messages.last().content == state_change_text("failed"@, m)
            &&& after.messages.last().created_at == now
        }),
{
    assert(file.failed(error, data, now, id).messages.drop_last() =~= file.messages);
    crate::model::reason_data_holds_the_reason(error, "reason"@);
}

/// State data in which a member is set have it under its key, and what they had
/// under every other key.
pub proof fn set_state_data_are_read_back(
    file: SessionFileView,
    key: Seq<char>,
    value: JsonView,
    other: Seq<char>,
)
    requires
        file.session.state_data is Object || file.session.state_data is Null,
    ensures
        ({
            let after = file.with_state_data(with_member(file.session.state_data, key, value));
            &&& after.session.state_data.get(key) == Some(value)
            &&& other != key ==> after.session.state_data.get(other)
                == file.session.state_data.get(other)
            &&& after.session.state == file.session.state
            &&& after.session.id == file.session.id
            &&& after.session.updated_at == file.session.updated_at
            &&& after.session.completed_at == file.session.completed_at
            &&& after.messages == file.messages
            &&& after.extra == file.extra
        }),
        takes_members(file.session.state_data),
{
    set_member_is_read(file.session.state_data, key, value, other);
}

/// A new session is created as it is described, and starts out in the created
/// state, without an end and without an error.
pub proof fn new_sessions_are_as_described(new: NewSession, id: Uuid, now: Timestamp)
    ensures
        ({
            let s = new.session(id, now);
            &&& s.id == id && s.scope_id == new.scope_id && s.subject == new.subject@
            &&& s.state == "created"@ && s.state_data == new.state_data.view()
            &&& s.created_by == new.created_by@ && s.created_at == now && s.updated_at == now
            &&& s.completed_at is None && s.error_message is None
            &&& s.initial_context == new.initial_context.view()
            &&& new.provider is None ==> s.provider is None
            &&& new.provider matches Some(p) ==> s.provider == Some(p@)
            &&& new.model is None ==> s.model is None
            &&& new.model matches Some(m) ==> s.model == Some(m@)
            &&& new.label is None ==> s.label is None
            &&& new.label matches Some(l) ==> s.label == Some(l@)
        }),
{
}

/// Sessions with the newest first have no later one behind an earlier one, and
/// the other way round with the oldest first.
pub proof fn sorted_sessions_go_by_their_creation(
    sessions: Seq<ChatSessionView>,
    i: int,
    j: int,
)
    requires
        0 <= i < j < sessions.len(),
    ensures
        by_age(sessions, true).len() == sessions.len(),
        by_age(sessions, false).len() == sessions.len(),
        !by_age(sessions, true)[j].created_at.is_after(by_age(sessions, true)[i].created_at),
        !by_age(sessions, false)[i].created_at.is_after(by_age(sessions, false)[j].created_at),
{
    broadcast use vstd::seq_lib::group_to_multiset_ensures;

    by_age_is_in_order(sessions, true);
    by_age_is_in_order(sessions, false);
    let a = by_age(sessions, true);
    let b = by_age(sessions, false);
    assert(a.len() == a.to_multiset().len());
    assert(b.len() == b.to_multiset().len());
    assert(sessions.len() == sessions.to_multiset().len());
    assert(!precedes(a[j], a[i], true));
    assert(!precedes(b[j], b[i], false));
}

spec fn created_at(t: Timestamp) -> spec_fn(ChatSessionView) -> bool {
    |s: ChatSessionView| s.created_at == t
}

/// Putting a session in its place keeps those of one age in their order, itself
/// last.
proof fn placing_keeps_order(
    sorted: Seq<ChatSessionView>,
    s: ChatSessionView,
    newest_first: bool,
    t: Timestamp,
)
    ensures
        placed(sorted, s, newest_first).filter(created_at(t)) == if s.created_at == t {
            sorted.filter(created_at(t)).push(s)
        } else {
            sorted.filter(created_at(t))
        },
    decreases sorted.len(),
{
    reveal(Seq::filter);
    let r = placed(sorted, s, newest_first);
    if sorted.len() == 0 || !precedes(s, sorted.last(), newest_first) {
        assert(r.drop_last() =~= sorted);
    } else {
        placing_keeps_order(sorted.drop_last(), s, newest_first, t);
        assert(r.drop_last() =~= placed(sorted.drop_last(), s, newest_first));
        crate::time::instants_are_ordered(s.created_at, s.created_at, s.created_at);
    }
}

/// Sessions of the same age stay in the order that they had.
pub proof fn sorting_keeps_the_order_of_equals(
    sessions: Seq<ChatSessionView>,
    newest_first: bool,
    t: Timestamp,
)
    ensures
        by_age(sessions, newest_first).filter(|s: ChatSessionView| s.created_at == t)
            == sessions.filter(|s: ChatSessionView| s.created_at == t),
    decreases sessions.len(),
{
    assert(created_at(t) =~= (|s: ChatSessionView| s.created_at == t));
    reveal(Seq::filter);
    if sessions.len() > 0 {
        let front = sessions.drop_last();
        sorting_keeps_the_order_of_equals(front, newest_first, t);
        placing_keeps_order(by_age(front, newest_first), sessions.last(), newest_first, t);
    }
}

/// A session can be resumed exactly where its state is none of those that rule
/// it out, and it was created by none of those that are left out.
pub proof fn resumable_sessions_are_ruled_out_by_nothing(
    s: ChatSessionView,
    non_resumable: Seq<Seq<char>>,
    excluded: Seq<Seq<char>>,
)
    ensures
        resumable(s, non_resumable, excluded) <==> (forall|i: int|
            0 <= i < non_resumable.len() ==> #[trigger] non_resumable[i] != s.state) && (forall|
            i: int,
        |
            0 <= i < excluded.len() ==> #[trigger] excluded[i] != s.created_by),
{
}

/// Lists hold a hundred sessions at most.
pub proof fn lists_are_short()
    ensures
        LIST_LIMIT == 100,
{
}

/// What is seen of a file are its session, its messages and what a domain has
/// added, each as it is.
pub proof fn files_are_seen_whole(f: SessionFile)
    ensures
        f@.session == f.session@,
        f@.messages.len() == f.messages@.len(),
        forall|i: int|
            0 <= i < f.messages@.len() ==> #[trigger] f@.messages[i] == f.messages@[i]@,
        f@.extra == f.extra@,
{
}

/// What is seen of files and of sessions is seen one by one, in their order.
pub proof fn sessions_are_seen_in_order(files: Seq<SessionFile>, sessions: Seq<ChatSession>)
    ensures
        sessions_of(files).len() == files.len(),
        forall|i: int|
            0 <= i < files.len() ==> #[trigger] sessions_of(files)[i] == files[i].session@,
        sessions_view(sessions).len() == sessions.len(),
        forall|i: int|
            0 <= i < sessions.len() ==> #[trigger] sessions_view(sessions)[i] == sessions[i]@,
{
}

}
