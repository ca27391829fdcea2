//! Chat sessions, messages, events and running tools.

use vstd::prelude::*;
use vstd::utf8::encode_utf8;

use crate::ids::Uuid;
use crate::json::{clone_opt, json_exact, json_parse, json_text, obj_of, object_of, opt_view};
use crate::json::{pairs_view, print};
use crate::json::{Json, JsonView};
use crate::text::opt_text;
use crate::time::Timestamp;

verus! {

/// A chat session.
#[derive(Debug)]
pub struct ChatSession {
    pub id: Uuid,
    /// Coarse grouping key: the owner, or the cluster.
    pub scope_id: Uuid,
    /// Fine target key.
    pub subject: String,
    /// State name of the domain.
    pub state: String,
    pub state_data: Json,
    pub created_by: String,
    pub created_at: Timestamp,
    pub updated_at: Timestamp,
    pub completed_at: Option<Timestamp>,
    pub error_message: Option<String>,
    /// Snapshot of the domain, taken when the session was created.
    pub initial_context: Json,
    pub provider: Option<String>,
    pub model: Option<String>,
    /// Name for humans.
    pub label: Option<String>,
}

/// What a session holds.
#[verifier::ext_equal]
pub struct ChatSessionView {
    pub id: Uuid,
    pub scope_id: Uuid,
    pub subject: Seq<char>,
    pub state: Seq<char>,
    pub state_data: JsonView,
    pub created_by: Seq<char>,
    pub created_at: Timestamp,
    pub updated_at: Timestamp,
    pub completed_at: Option<Timestamp>,
    pub error_message: Option<Seq<char>>,
    pub initial_context: JsonView,
    pub provider: Option<Seq<char>>,
    pub model: Option<Seq<char>>,
    pub label: Option<Seq<char>>,
}

impl View for ChatSession {
    type V = ChatSessionView;

    open spec fn view(&self) -> ChatSessionView {
        ChatSessionView {
            id: self.id,
            scope_id: self.scope_id,
            subject: self.subject@,
            state: self.state@,
            state_data: self.state_data.view(),
            created_by: self.created_by@,
            created_at: self.created_at,
            updated_at: self.updated_at,
            completed_at: self.completed_at,
            error_message: opt_text(self.error_message),
            initial_context: self.initial_context.view(),
            provider: opt_text(self.provider),
            model: opt_text(self.model),
            label: opt_text(self.label),
        }
    }
}

impl Clone for ChatSession {
    fn clone(&self) -> (r: ChatSession)
        ensures
            r@ == self@,
    {
        ChatSession {
            id: self.id,
            scope_id: self.scope_id,
            subject: self.subject.clone(),
            state: self.state.clone(),
            state_data: self.state_data.clone(),
            created_by: self.created_by.clone(),
            created_at: self.created_at,
            updated_at: self.updated_at,
            completed_at: self.completed_at,
            error_message: self.error_message.clone(),
            initial_context: self.initial_context.clone(),
            provider: self.provider.clone(),
            model: self.model.clone(),
            label: self.label.clone(),
        }
    }
}

/// A persisted chat message. Roles in use: `user`, `assistant`, `system`,
/// `tool_result`, `state_change`, `pin`, `summary`, `approval_request`,
/// `approval_decision`.
#[derive(Debug)]
pub struct ChatMessage {
    pub id: Uuid,
    pub session_id: Uuid,
    pub role: String,
    pub content: String,
    pub metadata: Option<Json>,
    pub created_at: Timestamp,
}

/// What a message holds.
#[verifier::ext_equal]
pub struct ChatMessageView {
    pub id: Uuid,
    pub session_id: Uuid,
    pub role: Seq<char>,
    pub content: Seq<char>,
    pub metadata: Option<JsonView>,
    pub created_at: Timestamp,
}

impl View for ChatMessage {
    type V = ChatMessageView;

    open spec fn view(&self) -> ChatMessageView {
        ChatMessageView {
            id: self.id,
            session_id: self.session_id,
            role: self.role@,
            content: self.content@,
            metadata: opt_view(self.metadata),
            created_at: self.created_at,
        }
    }
}

impl Clone for ChatMessage {
    fn clone(&self) -> (r: ChatMessage)
        ensures
            r@ == self@,
    {
        ChatMessage {
            id: self.id,
            session_id: self.session_id,
            role: self.role.clone(),
            content: self.content.clone(),
            metadata: clone_opt(&self.metadata),
            created_at: self.created_at,
        }
    }
}

/// What each message holds.
pub open spec fn messages_view(v: Seq<ChatMessage>) -> Seq<ChatMessageView> {
    v.map_values(|m: ChatMessage| m@)
}

/// A tool that the agent is executing.
#[derive(Debug)]
pub struct RunningTool {
    pub name: String,
    pub args: Option<String>,
    pub started_at: Timestamp,
    /// None before validation, present after the verdict.
    pub validation: Option<RunningToolValidation>,
}

/// Validation state of a running tool.
#[derive(Debug)]
pub struct RunningToolValidation {
    /// "validating", "approved", "skipped", "awaiting_approval"
    pub status: String,
    pub reasoning: Option<String>,
    /// "read_only", "session_local", "mutating", "destructive"
    pub risk: String,
}

/// What the validation state of a running tool holds.
#[verifier::ext_equal]
pub struct ValidationView {
    pub status: Seq<char>,
    pub reasoning: Option<Seq<char>>,
    pub risk: Seq<char>,
}

/// What a running tool holds.
#[verifier::ext_equal]
pub struct RunningToolView {
    pub name: Seq<char>,
    pub args: Option<Seq<char>>,
    pub started_at: Timestamp,
    pub validation: Option<ValidationView>,
}

impl View for RunningToolValidation {
    type V = ValidationView;

    open spec fn view(&self) -> ValidationView {
        ValidationView {
            status: self.status@,
            reasoning: opt_text(self.reasoning),
            risk: self.risk@,
        }
    }
}

impl View for RunningTool {
    type V = RunningToolView;

    open spec fn view(&self) -> RunningToolView {
        RunningToolView {
            name: self.name@,
            args: opt_text(self.args),
            started_at: self.started_at,
            validation: match self.validation {
                Some(v) => Some(v@),
                None => None,
            },
        }
    }
}

impl Clone for RunningToolValidation {
    fn clone(&self) -> (r: RunningToolValidation)
        ensures
            r@ == self@,
    {
        RunningToolValidation {
            status: self.status.clone(),
            reasoning: self.reasoning.clone(),
            risk: self.risk.clone(),
        }
    }
}

impl Clone for RunningTool {
    fn clone(&self) -> (r: RunningTool)
        ensures
            r@ == self@,
    {
        RunningTool {
            name: self.name.clone(),
            args: self.args.clone(),
            started_at: self.started_at,
            validation: match &self.validation {
                Some(v) => Some(v.clone()),
                None => None,
            },
        }
    }
}

/// What each running tool holds.
pub open spec fn tools_view(v: Seq<RunningTool>) -> Seq<RunningToolView> {
    v.map_values(|t: RunningTool| t@)
}

/// A copy of the running tools.
pub fn snapshot(tools: &Vec<RunningTool>) -> (r: Vec<RunningTool>)
    ensures
        tools_view(r@) == tools_view(tools@),
{
    let mut out: Vec<RunningTool> = Vec::new();
    let mut i: usize = 0;
    while i < tools.len()
        invariant
            i <= tools@.len(),
            tools_view(out@) == tools_view(tools@).take(i as int),
        decreases tools.len() - i,
    {
        let ghost before = out@;
        out.push(tools[i].clone());
        i = i + 1;
        proof {
            assert(tools_view(out@) =~= tools_view(before).push(tools@[i - 1]@));
            assert(tools_view(tools@).take(i as int) =~= tools_view(tools@).take(i - 1).push(
                tools_view(tools@)[i - 1],
            ));
        }
    }
    proof {
        assert(tools_view(tools@).take(i as int) =~= tools_view(tools@));
    }
    out
}

/// Event of a running session.
#[derive(Debug, Clone)]
pub enum ChatEvent {
    Message { role: String, content: String, metadata: Option<Json>, created_at: Timestamp },
    /// The tools that are executing. Sent on every start and end of a tool.
    RunningTools { tools: Vec<RunningTool> },
    /// Passing status message, not persisted.
    Status { message: String },
    State { state: String, state_data: Json },
    Done { state: String },
    /// A tool call waits for a human's approval.
    ApprovalRequest {
        approval_id: Uuid,
        tool_name: String,
        args: String,
        reason: String,
        risk: String,
        requested_at: Timestamp,
    },
    /// A pending approval was resolved: approved, approved_all, denied or
    /// timeout.
    ApprovalResolved { approval_id: Uuid, decision: String, by: Option<String> },
    /// An interactive session has finished its turn and waits for the user.
    Idle,
    /// Part of an answer that is still coming.
    StreamDelta { delta: String },
}

/// What an event holds.
#[verifier::ext_equal]
pub enum ChatEventView {
    Message {
        role: Seq<char>,
        content: Seq<char>,
        metadata: Option<JsonView>,
        created_at: Timestamp,
    },
    RunningTools { tools: Seq<RunningToolView> },
    Status { message: Seq<char> },
    State { state: Seq<char>, state_data: JsonView },
    Done { state: Seq<char> },
    ApprovalRequest {
        approval_id: Uuid,
        tool_name: Seq<char>,
        args: Seq<char>,
        reason: Seq<char>,
        risk: Seq<char>,
        requested_at: Timestamp,
    },
    ApprovalResolved { approval_id: Uuid, decision: Seq<char>, by: Option<Seq<char>> },
    Idle,
    StreamDelta { delta: Seq<char> },
}

impl View for ChatEvent {
    type V = ChatEventView;

    open spec fn view(&self) -> ChatEventView {
        match self {
            ChatEvent::Message { role, content, metadata, created_at } => ChatEventView::Message {
                role: role@,
                content: content@,
                metadata: opt_view(*metadata),
                created_at: *created_at,
            },
            ChatEvent::RunningTools { tools } => ChatEventView::RunningTools {
                tools: tools_view(tools@),
            },
            ChatEvent::Status { message } => ChatEventView::Status { message: message@ },
            ChatEvent::State { state, state_data } => ChatEventView::State {
                state: state@,
                state_data: state_data.view(),
            },
            ChatEvent::Done { state } => ChatEventView::Done { state: state@ },
            ChatEvent::ApprovalRequest {
                approval_id,
                tool_name,
                args,
                reason,
                risk,
                requested_at,
            } => ChatEventView::ApprovalRequest {
                approval_id: *approval_id,
                tool_name: tool_name@,
                args: args@,
                reason: reason@,
                risk: risk@,
                requested_at: *requested_at,
            },
            ChatEvent::ApprovalResolved { approval_id, decision, by } => {
                ChatEventView::ApprovalResolved {
                    approval_id: *approval_id,
                    decision: decision@,
                    by: opt_text(*by),
                }
            },
            ChatEvent::Idle => ChatEventView::Idle,
            ChatEvent::StreamDelta { delta } => ChatEventView::StreamDelta { delta: delta@ },
        }
    }
}

/// What each event holds.
pub open spec fn events_view(v: Seq<ChatEvent>) -> Seq<ChatEventView> {
    v.map_values(|e: ChatEvent| e@)
}

/// The event that announces a message.
pub open spec fn message_event(
    role: Seq<char>,
    content: Seq<char>,
    metadata: Option<JsonView>,
    created_at: Timestamp,
) -> ChatEventView {
    ChatEventView::Message { role, content, metadata, created_at }
}

/// The reason that state data gives; empty where it gives none.
pub open spec fn reason_in(state_data: JsonView) -> Seq<char> {
    match state_data.get("reason"@) {
        Some(JsonView::String(s)) => s,
        _ => Seq::empty(),
    }
}

/// The content of the message that records a state change.
pub open spec fn state_change_text(state: Seq<char>, state_data: JsonView) -> Seq<char> {
    json_text(
        JsonView::Object(
            obj_of(
                seq![
                    ("state"@, JsonView::String(state)),
                    ("reason"@, JsonView::String(reason_in(state_data))),
                ],
            ),
        ),
    )
}

/// The content of the message that records a state change.
pub fn state_change_content(state: &str, state_data: &Json) -> (r: String)
    ensures
        r@ == state_change_text(state@, state_data.view()),
        json_parse(encode_utf8(r@)) matches Ok(v) && v.get("state"@) == Some(
            JsonView::String(state@),
        ) && v.get("reason"@) == Some(
            JsonView::String(
                match state_data.view().get("reason"@) {
                    Some(JsonView::String(reason)) => reason,
                    _ => Seq::empty(),
                },
            ),
        ),
{
    let reason: String = match state_data.get("reason") {
        Some(v) => match v.as_str() {
            Some(s) => s.to_owned(),
            None => String::new(),
        },
        None => String::new(),
    };
    let mut pairs: Vec<(String, Json)> = Vec::new();
    pairs.push(("state".to_owned(), Json::text(state)));
    pairs.push(("reason".to_owned(), Json::String(reason)));
    proof {
        assert(pairs_view(pairs@) =~= seq![
            ("state"@, JsonView::String(state@)),
            ("reason"@, JsonView::String(reason_in(state_data.view()))),
        ]);
        state_and_reason_differ();
        crate::json::obj_of_at(pairs_view(pairs@), 0);
        crate::json::obj_of_at(pairs_view(pairs@), 1);
        reveal_strlit("state");
        reveal_strlit("reason");
        reveal_strlit("$serde_json::private::RawValue");
        assert(crate::json::EMBEDDED_KEY@.len() == 30 && "state"@.len() == 5 && "reason"@.len()
            == 6);
        crate::json::object_is_exact(pairs_view(pairs@));
    }
    print(&Json::Object(object_of(pairs)))
}

/// The events that announce a state change: the message that records it, and
/// the state.
pub open spec fn state_change_events(
    state: Seq<char>,
    state_data: JsonView,
    now: Timestamp,
) -> Seq<ChatEventView> {
    seq![
        message_event(
            "state_change"@,
            state_change_text(state, state_data),
            Some(state_data),
            now,
        ),
        ChatEventView::State { state, state_data },
    ]
}

/// Announces a state change: the message that records it, and then the state.
/// Belongs behind the transition in the store, which persists the message.
pub fn emit_state_change(
    events: &mut Vec<ChatEvent>,
    state: &str,
    state_data: &Json,
    now: Timestamp,
)
    ensures
        events_view(final(events)@) == events_view(old(events)@) + state_change_events(
            state@,
            state_data.view(),
            now,
        ),
{
    events.push(
        ChatEvent::Message {
            role: "state_change".to_owned(),
            content: state_change_content(state, state_data),
            metadata: Some(state_data.clone()),
            created_at: now,
        },
    );
    events.push(ChatEvent::State { state: state.to_owned(), state_data: state_data.clone() });
    proof {
        assert(events_view(events@) =~= events_view(old(events)@) + state_change_events(
            state@,
            state_data.view(),
            now,
        ));
    }
}

/// State data that gives a reason alone.
pub open spec fn reason_data(reason: Seq<char>) -> JsonView {
    JsonView::Object(obj_of(seq![("reason"@, JsonView::String(reason))]))
}

/// State data that gives a reason alone.
pub fn reason_json(reason: &str) -> (r: Json)
    ensures
        r.view() == reason_data(reason@),
        r.view().get("reason"@) == Some(JsonView::String(reason@)),
{
    let mut pairs: Vec<(String, Json)> = Vec::new();
    pairs.push(("reason".to_owned(), Json::text(reason)));
    proof {
        assert(pairs_view(pairs@) =~= seq![("reason"@, JsonView::String(reason@))]);
        crate::json::obj_of_at(pairs_view(pairs@), 0);
    }
    Json::Object(object_of(pairs))
}

/// The reason that such state data gives is the one it was made with.
pub proof fn reason_is_given(reason: Seq<char>)
    ensures
        reason_in(reason_data(reason)) == reason,
{
    reveal_with_fuel(obj_of, 2);
    reveal_with_fuel(crate::json::obj_insert, 2);
    reveal_with_fuel(crate::json::obj_get, 2);
    let pairs = seq![("reason"@, JsonView::String(reason))];
    assert(pairs.drop_last() =~= Seq::<(Seq<char>, JsonView)>::empty());
    assert(obj_of(pairs) =~= pairs);
}

// ── What holds of sessions, messages and events ──────────────────────

proof fn state_and_reason_differ()
    ensures
        "state"@ != "reason"@,
{
    reveal_strlit("state");
    reveal_strlit("reason");
    assert("state"@.len() == 5 && "reason"@.len() == 6);
}

/// State data that gives a reason alone gives it under `reason`, and has
/// nothing under any other key.
pub proof fn reason_data_holds_the_reason(reason: Seq<char>, key: Seq<char>)
    ensures
        reason_data(reason).get("reason"@) == Some(JsonView::String(reason)),
        key != "reason"@ ==> reason_data(reason).get(key) is None,
{
    let pairs = seq![("reason"@, JsonView::String(reason))];
    crate::json::obj_of_at(pairs, 0);
    if key != "reason"@ {
        crate::json::obj_of_lacks(pairs, key);
    }
}

/// The reason that state data gives is the text under `reason`; there is none
/// where nothing, or no text, stands there.
pub proof fn reasons_are_texts(state_data: JsonView, reason: Seq<char>)
    ensures
        state_data.get("reason"@) == Some(JsonView::String(reason)) ==> reason_in(state_data)
            == reason,
        state_data.get("reason"@) is None ==> reason_in(state_data).len() == 0,
        state_data.get("reason"@) matches Some(v) && !(v is String) ==> reason_in(state_data).len()
            == 0,
{
}

/// What records a state change is the text of an object that gives the state
/// and the reason, and nothing else.
pub proof fn state_changes_are_recorded(state: Seq<char>, state_data: JsonView)
    ensures
        exists|v: JsonView|
            {
                &&& state_change_text(state, state_data) == #[trigger] json_text(v)
                &&& v.get("state"@) == Some(JsonView::String(state))
                &&& v.get("reason"@) == Some(
                    JsonView::String(
                        match state_data.get("reason"@) {
                            Some(JsonView::String(reason)) => reason,
                            _ => Seq::empty(),
                        },
                    ),
                )
                &&& json_exact(v)
                &&& forall|key: Seq<char>|
                    key != "state"@ && key != "reason"@ ==> #[trigger] v.get(key) is None
            },
{
    let pairs = seq![
        ("state"@, JsonView::String(state)),
        ("reason"@, JsonView::String(reason_in(state_data))),
    ];
    let v = JsonView::Object(obj_of(pairs));
    state_and_reason_differ();
    crate::json::obj_of_at(pairs, 0);
    crate::json::obj_of_at(pairs, 1);
    reveal_strlit("state");
    reveal_strlit("reason");
    reveal_strlit("$serde_json::private::RawValue");
    assert(crate::json::EMBEDDED_KEY@.len() == 30 && "state"@.len() == 5 && "reason"@.len() == 6);
    crate::json::object_is_exact(pairs);
    assert forall|key: Seq<char>| key != "state"@ && key != "reason"@ implies #[trigger] v.get(
        key,
    ) is None by {
        crate::json::obj_of_lacks(pairs, key);
    }
    assert(state_change_text(state, state_data) == json_text(v));
}

/// A state change is announced by two events: the message that records it,
/// which carries the state data, and then the state with its data.
pub proof fn state_changes_are_announced(
    state: Seq<char>,
    state_data: JsonView,
    now: Timestamp,
)
    ensures
        state_change_events(state, state_data, now).len() == 2,
        state_change_events(state, state_data, now)[0] == (ChatEventView::Message {
            role: "state_change"@,
            content: state_change_text(state, state_data),
            metadata: Some(state_data),
            created_at: now,
        }),
        state_change_events(state, state_data, now)[1] == (ChatEventView::State {
            state,
            state_data,
        }),
{
}

/// What is seen of a session are its fields, each as it is.
pub proof fn sessions_are_seen_whole(s: ChatSession)
    ensures
        s@.id == s.id && s@.scope_id == s.scope_id,
        s@.subject == s.subject@ && s@.created_by == s.created_by@,
        s@.state == s.state@ && s@.state_data == s.state_data.view(),
        s@.created_at == s.created_at && s@.updated_at == s.updated_at,
        s@.completed_at == s.completed_at,
        s.error_message matches Some(e) ==> s@.error_message == Some(e@),
        s.error_message is None ==> s@.error_message is None,
        s@.initial_context == s.initial_context.view(),
        s.provider matches Some(p) ==> s@.provider == Some(p@),
        s.provider is None ==> s@.provider is None,
        s.model matches Some(m) ==> s@.model == Some(m@),
        s.model is None ==> s@.model is None,
        s.label matches Some(l) ==> s@.label == Some(l@),
        s.label is None ==> s@.label is None,
{
}

/// What is seen of a message are its fields, each as it is.
pub proof fn messages_are_seen_whole(m: ChatMessage)
    ensures
        m@.id == m.id && m@.session_id == m.session_id,
        m@.role == m.role@ && m@.content == m.content@,
        m.metadata matches Some(v) ==> m@.metadata == Some(v.view()),
        m.metadata is None ==> m@.metadata is None,
        m@.created_at == m.created_at,
{
}

/// What is seen of a running tool are its fields, each as it is.
pub proof fn running_tools_are_seen_whole(t: RunningTool)
    ensures
        t@.name == t.name@,
        t.args matches Some(a) ==> t@.args == Some(a@),
        t.args is None ==> t@.args is None,
        t@.started_at == t.started_at,
        t.validation is None ==> t@.validation is None,
        t.validation matches Some(v) ==> {
            &&& t@.validation matches Some(w)
            &&& w.status == v.status@
            &&& w.risk == v.risk@
            &&& v.reasoning matches Some(x) ==> w.reasoning == Some(x@)
            &&& v.reasoning is None ==> w.reasoning is None
        },
{
}

/// What is seen of an event is its kind with its fields, each as it is.
pub proof fn events_are_seen_whole(e: ChatEvent)
    ensures
        match e {
            ChatEvent::Message { role, content, metadata, created_at } => e@ == (
            ChatEventView::Message {
                role: role@,
                content: content@,
                metadata: match metadata {
                    Some(m) => Some(m.view()),
                    None => None,
                },
                created_at,
            }),
            ChatEvent::RunningTools { tools } => {
                &&& e@ matches ChatEventView::RunningTools { tools: seen }
                &&& seen.len() == tools@.len()
                &&& forall|i: int| 0 <= i < seen.len() ==> #[trigger] seen[i] == tools@[i]@
            },
            ChatEvent::Status { message } => e@ == (ChatEventView::Status { message: message@ }),
            ChatEvent::State { state, state_data } => e@ == (ChatEventView::State {
                state: state@,
                state_data: state_data.view(),
            }),
            ChatEvent::Done { state } => e@ == (ChatEventView::Done { state: state@ }),
            ChatEvent::ApprovalRequest {
                approval_id,
                tool_name,
                args,
                reason,
                risk,
                requested_at,
            } => e@ == (ChatEventView::ApprovalRequest {
                approval_id,
                tool_name: tool_name@,
                args: args@,
                reason: reason@,
                risk: risk@,
                requested_at,
            }),
            ChatEvent::ApprovalResolved { approval_id, decision, by } => e@ == (
            ChatEventView::ApprovalResolved {
                approval_id,
                decision: decision@,
                by: match by {
                    Some(b) => Some(b@),
                    None => None,
                },
            }),
            ChatEvent::Idle => e@ == ChatEventView::Idle,
            ChatEvent::StreamDelta { delta } => e@ == (ChatEventView::StreamDelta {
                delta: delta@,
            }),
        },
{
}

/// What is seen of messages, running tools and events is seen one by one, in
/// their order.
pub proof fn lists_are_seen_in_order(
    messages: Seq<ChatMessage>,
    tools: Seq<RunningTool>,
    events: Seq<ChatEvent>,
)
    ensures
        messages_view(messages).len() == messages.len(),
        forall|i: int|
            0 <= i < messages.len() ==> #[trigger] messages_view(messages)[i] == messages[i]@,
        tools_view(tools).len() == tools.len(),
        forall|i: int| 0 <= i < tools.len() ==> #[trigger] tools_view(tools)[i] == tools[i]@,
        events_view(events).len() == events.len(),
        forall|i: int| 0 <= i < events.len() ==> #[trigger] events_view(events)[i] == events[i]@,
{
}

}
