//! The loop of a session: what is stored and announced as its agent works,
//! and how it goes on or ends.
//!
//! The loop decides; its host runs the agent, waits for the signals, and
//! stores and sends what the loop says.

use vstd::prelude::*;
use vstd::string::StringExecFns;

use crate::convert::{json_opt, opt_json};
use crate::ids::Uuid;
use crate::json::{json_u64, obj_insert, obj_of, object_of, opt_view, pairs_view, Json, JsonView};
use crate::json::Object;
use crate::model::{emit_state_change, events_view, message_event, reason_data, reason_json};
use crate::model::{snapshot, state_change_events, tools_view, ChatEvent, ChatEventView};
use crate::model::{RunningTool, RunningToolView};
use crate::state::{lifecycle, lifecycle_names, StateModel};
use crate::text::{text_is_empty, join, joined, opt_str, opt_text, text_eq, texts, to_owned_opt};
use crate::time::{span_of, Duration, Timestamp};
use crate::tools::NewMessage;

verus! {

/// The prompt that a run of a session starts with.
#[derive(Debug, Clone)]
pub enum InitialPrompt {
    /// A new turn of the user, stored and announced before the agent starts.
    User(String),
    /// A session that is taken up again; the prompt is not stored.
    Resume(String),
}

/// What a run of a session needs to know, besides its tools and its model.
#[derive(Debug, Clone)]
pub struct SessionSpec {
    pub session_id: Uuid,
    pub system_prompt: String,
    pub initial_prompt: InitialPrompt,
    /// State to move to when the loop starts.
    pub start_state: String,
    /// After a turn, wait for the next message of the user.
    pub interactive: bool,
    /// How long an interactive session waits for the user. None for ever.
    pub idle_timeout: Option<Duration>,
    /// When the session parks, at the latest.
    pub deadline: Option<Timestamp>,
    /// Reason recorded when the deadline passes.
    pub deadline_reason: String,
    /// How often the agent may go round in a turn.
    pub loop_limit: usize,
}

// ── Messages of the agent ────────────────────────────────────────────

/// A part of a message of the user.
#[derive(Debug, Clone)]
pub enum ContentPart {
    Text(String),
    Other,
}

/// A message in the conversation of the agent.
#[derive(Debug, Clone)]
pub enum AgentMessage {
    System(String),
    User(String),
    /// Text, and the names of the tools that are called.
    Assistant(Option<String>, Option<Vec<String>>),
    ToolOutput,
    Summary(String),
    UserWithParts(Vec<ContentPart>),
    Reasoning,
}

/// A tool name in the text of a message.
pub open spec fn quoted(name: Seq<char>) -> Seq<char> {
    "`"@ + name + "`"@
}

/// The texts among parts, in order.
pub open spec fn part_texts(parts: Seq<ContentPart>) -> Seq<Seq<char>>
    decreases parts.len(),
{
    if parts.len() == 0 {
        Seq::empty()
    } else {
        match parts.last() {
            ContentPart::Text(t) => part_texts(parts.drop_last()).push(t@),
            ContentPart::Other => part_texts(parts.drop_last()),
        }
    }
}

/// The text of an answer: what the agent says, or else the tools it calls.
pub open spec fn answer_text(text: Option<Seq<char>>, calls: Option<Seq<Seq<char>>>) -> Seq<char> {
    let said = match text {
        Some(t) => t,
        None => Seq::empty(),
    };
    match calls {
        Some(names) => if names.len() > 0 && said.len() == 0 {
            joined(names.map_values(|n: Seq<char>| quoted(n)), ", "@)
        } else {
            said
        },
        None => said,
    }
}

/// The role and the content that a message is stored under. Output of tools
/// and reasoning are not stored from here.
pub open spec fn role_content(msg: AgentMessage) -> Option<(Seq<char>, Seq<char>)> {
    match msg {
        AgentMessage::System(s) => Some(("system"@, s@)),
        AgentMessage::User(s) => Some(("user"@, s@)),
        AgentMessage::Assistant(text, calls) => Some(
            (
                "assistant"@,
                answer_text(
                    opt_text(text),
                    match calls {
                        Some(c) => Some(texts(c@)),
                        None => None,
                    },
                ),
            ),
        ),
        AgentMessage::ToolOutput => None,
        AgentMessage::Summary(s) => Some(("summary"@, s@)),
        AgentMessage::UserWithParts(parts) => Some(("user"@, joined(part_texts(parts@), "\n"@))),
        AgentMessage::Reasoning => None,
    }
}

/// The names of tools as they stand in the text of a message.
fn quote_all(names: &Vec<String>) -> (r: Vec<String>)
    ensures
        texts(r@) == texts(names@).map_values(|n: Seq<char>| quoted(n)),
{
    let mut out: Vec<String> = Vec::new();
    let mut i: usize = 0;
    while i < names.len()
        invariant
            i <= names@.len(),
            out@.len() == i,
            forall|k: int| 0 <= k < i ==> (#[trigger] out@[k])@ == quoted(names@[k]@),
        decreases names.len() - i,
    {
        let mut s = "`".to_owned();
        s.append(names[i].as_str());
        s.append("`");
        out.push(s);
        i = i + 1;
    }
    proof {
        assert(texts(out@) =~= texts(names@).map_values(|n: Seq<char>| quoted(n)));
    }
    out
}

/// The texts among parts, in order.
fn collect_parts(parts: &Vec<ContentPart>) -> (r: Vec<String>)
    ensures
        texts(r@) == part_texts(parts@),
{
    let mut out: Vec<String> = Vec::new();
    let mut i: usize = 0;
    proof {
        assert(parts@.take(0) =~= Seq::<ContentPart>::empty());
        assert(texts(out@) =~= Seq::<Seq<char>>::empty());
    }
    while i < parts.len()
        invariant
            i <= parts@.len(),
            texts(out@) == part_texts(parts@.take(i as int)),
        decreases parts.len() - i,
    {
        let ghost before = out@;
        proof {
            assert(parts@.take(i + 1).drop_last() =~= parts@.take(i as int));
        }
        if let ContentPart::Text(t) = &parts[i] {
            out.push(t.clone());
            proof {
                assert(texts(out@) =~= texts(before).push(t@));
            }
        }
        i = i + 1;
    }
    proof {
        assert(parts@.take(i as int) =~= parts@);
    }
    out
}

/// The role and the content that a message is stored under, if it is stored
/// from here.
pub fn extract_role_content(msg: &AgentMessage) -> (r: Option<(String, String)>)
    ensures
        match role_content(*msg) {
            Some((role, content)) => r matches Some(p) && p.0@ == role && p.1@ == content,
            None => r is None,
        },
        match msg {
            AgentMessage::System(s) => r matches Some(p) && p.0@ == "system"@ && p.1@ == s@,
            AgentMessage::User(s) => r matches Some(p) && p.0@ == "user"@ && p.1@ == s@,
            AgentMessage::Summary(s) => r matches Some(p) && p.0@ == "summary"@ && p.1@ == s@,
            AgentMessage::Assistant(text, _) => r matches Some(p) && p.0@ == "assistant"@ && (text
                matches Some(t) ==> t@.len() > 0 ==> p.1@ == t@),
            AgentMessage::UserWithParts(_) => r matches Some(p) && p.0@ == "user"@,
            AgentMessage::ToolOutput => r is None,
            AgentMessage::Reasoning => r is None,
        },
{
    match msg {
        AgentMessage::System(s) => Some(("system".to_owned(), s.clone())),
        AgentMessage::User(s) => Some(("user".to_owned(), s.clone())),
        AgentMessage::Assistant(text, calls) => {
            let mut content: String = match text {
                Some(t) => t.clone(),
                None => String::new(),
            };
            if let Some(names) = calls {
                if names.len() > 0 && text_is_empty(content.as_str()) {
                    content = join(quote_all(names).as_slice(), ", ");
                }
            }
            Some(("assistant".to_owned(), content))
        },
        AgentMessage::ToolOutput => None,
        AgentMessage::Summary(s) => Some(("summary".to_owned(), s.clone())),
        AgentMessage::UserWithParts(parts) => {
            let texts = collect_parts(parts);
            Some(("user".to_owned(), join(texts.as_slice(), "\n")))
        },
        AgentMessage::Reasoning => None,
    }
}

/// Something to be stored, and what announces it.
#[derive(Debug)]
pub struct Recorded {
    pub message: NewMessage,
    pub event: ChatEvent,
}

impl Recorded {
    /// Whether a message is stored, and announced as it is stored.
    pub open spec fn records(
        self,
        role: Seq<char>,
        content: Seq<char>,
        metadata: Option<JsonView>,
        now: Timestamp,
    ) -> bool {
        &&& self.message.holds(role, content, metadata)
        &&& self.event@ == message_event(role, content, metadata, now)
    }
}

/// Stores a message and announces it.
fn record(role: &str, content: &str, metadata: Option<Json>, now: Timestamp) -> (r: Recorded)
    ensures
        r.records(role@, content@, opt_view(metadata), now),
{
    let copy = crate::json::clone_opt(&metadata);
    Recorded {
        message: NewMessage { role: role.to_owned(), content: content.to_owned(), metadata },
        event: ChatEvent::Message {
            role: role.to_owned(),
            content: content.to_owned(),
            metadata: copy,
            created_at: now,
        },
    }
}

/// What a new message in the conversation of the agent comes to. A message
/// without content comes to nothing.
pub fn on_new_message(msg: &AgentMessage, now: Timestamp) -> (r: Option<Recorded>)
    ensures
        match role_content(*msg) {
            Some((role, content)) => if content.len() > 0 {
                r matches Some(rec) && rec.records(role, content, None, now)
            } else {
                r is None
            },
            None => r is None,
        },
{
    match extract_role_content(msg) {
        Some((role, content)) => {
            if text_is_empty(content.as_str()) {
                None
            } else {
                Some(record(role.as_str(), content.as_str(), None, now))
            }
        },
        None => None,
    }
}

/// What a part of an answer that is still coming announces.
pub fn on_stream(delta: Option<&str>) -> (r: Option<ChatEvent>)
    ensures
        match opt_str(delta) {
            Some(d) => if d.len() > 0 {
                r matches Some(e) && e@ == (ChatEventView::StreamDelta { delta: d })
            } else {
                r is None
            },
            None => r is None,
        },
{
    match delta {
        Some(d) => {
            if text_is_empty(d) {
                None
            } else {
                Some(ChatEvent::StreamDelta { delta: d.to_owned() })
            }
        },
        None => None,
    }
}

// ── Tools of the agent ───────────────────────────────────────────────

/// A tool that has just started.
pub open spec fn started_tool(
    name: Seq<char>,
    args: Option<Seq<char>>,
    now: Timestamp,
) -> RunningToolView {
    RunningToolView { name, args, started_at: now, validation: None }
}

/// Records that a tool starts. Announces the tools that are executing.
pub fn before_tool(
    tools: &mut Vec<RunningTool>,
    name: &str,
    args: Option<&str>,
    now: Timestamp,
) -> (r: ChatEvent)
    ensures
        tools_view(final(tools)@) == tools_view(old(tools)@).push(
            started_tool(name@, opt_str(args), now),
        ),
        final(tools)@.len() == old(tools)@.len() + 1,
        final(tools)@.last().name@ == name@,
        final(tools)@.last().started_at == now,
        final(tools)@.last().validation is None,
        match args {
            Some(a) => final(tools)@.last().args matches Some(t) && t@ == a@,
            None => final(tools)@.last().args is None,
        },
        r@ == (ChatEventView::RunningTools { tools: tools_view(final(tools)@) }),
{
    tools.push(
        RunningTool {
            name: name.to_owned(),
            args: to_owned_opt(args),
            started_at: now,
            validation: None,
        },
    );
    proof {
        assert(tools_view(tools@) =~= tools_view(old(tools)@).push(
            started_tool(name@, opt_str(args), now),
        ));
    }
    ChatEvent::RunningTools { tools: snapshot(tools) }
}

/// Records that the tools of a name have ended. Announces the tools that are
/// executing.
pub fn after_tool(tools: &mut Vec<RunningTool>, name: &str) -> (r: ChatEvent)
    ensures
        tools_view(final(tools)@) == tools_view(old(tools)@).filter(
            |t: RunningToolView| t.name != name@,
        ),
        r@ == (ChatEventView::RunningTools { tools: tools_view(final(tools)@) }),
{
    let ghost keeps = |t: RunningToolView| t.name != name@;
    let ghost all = tools_view(tools@);
    let mut left: Vec<RunningTool> = Vec::new();
    let mut i: usize = 0;
    proof {
        reveal(Seq::filter);
        assert(tools_view(left@) =~= all.take(0).filter(keeps));
    }
    while i < tools.len()
        invariant
            i <= tools@.len(),
            all == tools_view(tools@),
            keeps == (|t: RunningToolView| t.name != name@),
            tools_view(left@) == all.take(i as int).filter(keeps),
        decreases tools.len() - i,
    {
        let t = &tools[i];
        let ghost before = left@;
        proof {
            reveal(Seq::filter);
            assert(all.take(i + 1).drop_last() =~= all.take(i as int));
            assert(all.take(i + 1).last() == t@);
        }
        if !text_eq(t.name.as_str(), name) {
            left.push(t.clone());
            proof {
                assert(tools_view(left@) =~= tools_view(before).push(t@));
            }
        }
        i = i + 1;
    }
    proof {
        assert(all.take(i as int) =~= all);
    }
    *tools = left;
    ChatEvent::RunningTools { tools: snapshot(tools) }
}

/// The verdict on a tool call.
#[derive(Debug, Clone)]
pub struct ToolVerdict {
    pub approved: bool,
    pub reasoning: Option<String>,
    pub risk: String,
}

/// The latest tool call in the history of a session, with its verdict.
#[derive(Debug, Clone)]
pub struct LastCall {
    pub tool_name: String,
    pub validation: Option<ToolVerdict>,
}

/// A verdict, as the result of a tool carries it.
pub open spec fn verdict_json(v: ToolVerdict) -> JsonView {
    JsonView::Object(
        obj_of(
            seq![
                (
                    "status"@,
                    JsonView::String(
                        if v.approved {
                            "approved"@
                        } else {
                            "rejected"@
                        },
                    ),
                ),
                ("reasoning"@, json_opt(opt_text(v.reasoning))),
                ("risk"@, JsonView::String(v.risk@)),
            ],
        ),
    )
}

/// The verdict on a tool: that of the latest call, if that was a call of the
/// tool.
pub open spec fn verdict_on(name: Seq<char>, last: Option<LastCall>) -> Option<ToolVerdict> {
    match last {
        Some(call) => if call.tool_name@ == name {
            call.validation
        } else {
            None
        },
        None => None,
    }
}

/// What the result of a tool carries in any case.
pub open spec fn result_members(
    name: Seq<char>,
    args: Option<Seq<char>>,
    ok: bool,
) -> Seq<(Seq<char>, JsonView)> {
    let shown = match args {
        Some(a) => a,
        None => "{}"@,
    };
    let status = if ok {
        "ok"@
    } else {
        "error"@
    };
    seq![
        ("tool_name"@, JsonView::String(name)),
        ("tool_args"@, JsonView::String(shown)),
        ("status"@, JsonView::String(status)),
    ]
}

/// What the result of a tool carries besides its text.
pub open spec fn result_metadata(
    name: Seq<char>,
    args: Option<Seq<char>>,
    ok: bool,
    verdict: Option<ToolVerdict>,
) -> JsonView {
    let base = obj_of(result_members(name, args, ok));
    JsonView::Object(
        match verdict {
            Some(v) => obj_insert(base, "validation"@, verdict_json(v)),
            None => base,
        },
    )
}

/// A verdict, as the result of a tool carries it.
fn verdict_value(v: &ToolVerdict) -> (r: Json)
    ensures
        r.view() == verdict_json(*v),
{
    let status: &str = if v.approved {
        "approved"
    } else {
        "rejected"
    };
    let mut pairs: Vec<(String, Json)> = Vec::new();
    pairs.push(("status".to_owned(), Json::text(status)));
    pairs.push(("reasoning".to_owned(), opt_json(&v.reasoning)));
    pairs.push(("risk".to_owned(), Json::text(v.risk.as_str())));
    proof {
        assert(pairs_view(pairs@) =~= seq![
            ("status"@, JsonView::String(status@)),
            ("reasoning"@, json_opt(opt_text(v.reasoning))),
            ("risk"@, JsonView::String(v.risk@)),
        ]);
    }
    Json::Object(object_of(pairs))
}

/// The message that records the result of a tool, and what announces it.
pub fn tool_result(
    name: &str,
    args: Option<&str>,
    result: Result<String, String>,
    last: &Option<LastCall>,
    now: Timestamp,
) -> (r: Recorded)
    ensures
        r.records(
            "tool_result"@,
            name@ + ": "@ + match result {
                Ok(s) => s@,
                Err(s) => s@,
            },
            Some(result_metadata(name@, opt_str(args), result is Ok, verdict_on(name@, *last))),
            now,
        ),
        r.message.role@ == "tool_result"@,
        r.message.content@ == name@ + ": "@ + match result {
            Ok(s) => s@,
            Err(s) => s@,
        },
        r.event@ == (ChatEventView::Message {
            role: r.message.role@,
            content: r.message.content@,
            metadata: opt_view(r.message.metadata),
            created_at: now,
        }),
        r.message.metadata matches Some(m) && m.view().get("tool_name"@) == Some(
            JsonView::String(name@),
        ) && m.view().get("tool_args"@) == Some(
            JsonView::String(
                match args {
                    Some(a) => a@,
                    None => "{}"@,
                },
            ),
        ) && m.view().get("status"@) == Some(
            JsonView::String(
                if result is Ok {
                    "ok"@
                } else {
                    "error"@
                },
            ),
        ),
        *last matches Some(call) ==> call.tool_name@ == name@ ==> (call.validation matches Some(v) ==> {
            &&& r.message.metadata matches Some(m)
            &&& m.view().get("validation"@) matches Some(told)
            &&& told.get("status"@) == Some(
                JsonView::String(
                    if v.approved {
                        "approved"@
                    } else {
                        "rejected"@
                    },
                ),
            )
            &&& told.get("risk"@) == Some(JsonView::String(v.risk@))
            &&& told.get("reasoning"@) == Some(
                match v.reasoning {
                    Some(why) => JsonView::String(why@),
                    None => JsonView::Null,
                },
            )
        }),
        (*last is None || last->0.tool_name@ != name@ || last->0.validation is None)
            ==> (r.message.metadata matches Some(m) && m.view().get("validation"@) is None),
{
    proof {
        results_name_the_tool(name@, opt_str(args), result is Ok, verdict_on(name@, *last));
        if let Some(v) = verdict_on(name@, *last) {
            results_carry_the_verdict(name@, opt_str(args), result is Ok, v);
        }
    }
    let (status, output): (&str, String) = match result {
        Ok(s) => ("ok", s),
        Err(s) => ("error", s),
    };
    let shown: &str = match args {
        Some(a) => a,
        None => "{}",
    };
    let mut pairs: Vec<(String, Json)> = Vec::new();
    pairs.push(("tool_name".to_owned(), Json::text(name)));
    pairs.push(("tool_args".to_owned(), Json::text(shown)));
    pairs.push(("status".to_owned(), Json::text(status)));
    proof {
        assert(pairs_view(pairs@) =~= result_members(name@, opt_str(args), result is Ok));
    }
    let mut base: Object = object_of(pairs);
    if let Some(call) = last {
        if text_eq(call.tool_name.as_str(), name) {
            if let Some(v) = &call.validation {
                base = base.insert("validation".to_owned(), verdict_value(v));
            }
        }
    }
    let mut content = name.to_owned();
    content.append(": ");
    content.append(output.as_str());
    record("tool_result", content.as_str(), Some(Json::Object(base)), now)
}

// ── The start of a run ───────────────────────────────────────────────

/// A state change to be stored.
#[derive(Debug)]
pub struct Transition {
    pub state: String,
    pub terminal: bool,
    pub data: Json,
}

impl Transition {
    /// What the state change is.
    pub open spec fn is(self, state: Seq<char>, terminal: bool, data: JsonView) -> bool {
        &&& self.state@ == state
        &&& self.terminal == terminal
        &&& self.data.view() == data
    }
}

/// How a run starts.
#[derive(Debug)]
pub struct Startup {
    /// The move to the start state.
    pub transition: Transition,
    /// What announces it.
    pub events: Vec<ChatEvent>,
    /// The user's turn, where the run starts with one.
    pub turn: Option<Recorded>,
    /// What the agent is asked first.
    pub prompt: String,
}

/// How a run starts: the session moves to its start state, and a new turn of
/// the user is stored and announced.
pub fn startup<M: StateModel>(
    model: &M,
    start_state: &str,
    initial_prompt: InitialPrompt,
    now: Timestamp,
) -> (r: Startup)
    ensures
        r.transition.is(
            start_state@,
            model.core_of(start_state@).terminal(),
            JsonView::Object(Seq::empty()),
        ),
        events_view(r.events@) == state_change_events(
            start_state@,
            JsonView::Object(Seq::empty()),
            now,
        ),
        match initial_prompt {
            InitialPrompt::Resume(msg) => r.turn is None && r.prompt@ == msg@,
            InitialPrompt::User(msg) => {
                &&& r.turn matches Some(rec) && rec.records("user"@, msg@, None, now)
                &&& r.prompt@ == msg@
            },
        },
{
    let data = Json::Object(Object::new());
    let terminal = model.is_terminal(start_state);
    let mut events: Vec<ChatEvent> = Vec::new();
    proof {
        assert(events_view(events@) =~= Seq::<ChatEventView>::empty());
    }
    emit_state_change(&mut events, start_state, &data, now);
    proof {
        let told = state_change_events(start_state@, data.view(), now);
        assert(Seq::<ChatEventView>::empty() + told =~= told);
    }
    let (turn, prompt): (Option<Recorded>, String) = match initial_prompt {
        InitialPrompt::Resume(msg) => (None, msg),
        InitialPrompt::User(msg) => (Some(record("user", msg.as_str(), None, now)), msg),
    };
    Startup {
        transition: Transition { state: start_state.to_owned(), terminal, data },
        events,
        turn,
        prompt,
    }
}

// ── Turns and pauses between them ────────────────────────────────────

/// Why a run ends.
#[derive(Debug)]
pub enum StopReason {
    Completed,
    AgentError(String),
    Cancelled,
    Paused,
    AwaitingApproval,
    Shutdown,
    DeadlineExpired,
    BudgetExceeded { used: u64, limit: u64 },
}

/// What ends a turn of the agent: the agent, or a signal that comes first.
#[derive(Debug)]
pub enum TurnEnd {
    /// The agent has finished its turn.
    Completed,
    /// The agent has failed.
    Failed(String),
    Cancelled,
    Paused,
    /// The agent has moved the session to wait for approval.
    ApprovalRequested,
    Shutdown,
    DeadlineExpired,
    /// The tokens are used up; what is stored of usage and budget.
    BudgetExceeded { used: u64, limit: u64 },
}

/// What comes after a turn.
#[derive(Debug)]
pub enum AfterTurn {
    /// Wait for the user; this is announced.
    Wait(ChatEvent),
    Stop(StopReason),
}

/// Why a run ends with a turn.
pub open spec fn stop_of(end: TurnEnd) -> StopReason {
    match end {
        TurnEnd::Completed => StopReason::Completed,
        TurnEnd::Failed(e) => StopReason::AgentError(e),
        TurnEnd::Cancelled => StopReason::Cancelled,
        TurnEnd::Paused => StopReason::Paused,
        TurnEnd::ApprovalRequested => StopReason::AwaitingApproval,
        TurnEnd::Shutdown => StopReason::Shutdown,
        TurnEnd::DeadlineExpired => StopReason::DeadlineExpired,
        TurnEnd::BudgetExceeded { used, limit } => StopReason::BudgetExceeded { used, limit },
    }
}

/// What comes after a turn. An interactive session waits for the user behind a
/// turn that the agent has finished; everything else ends the run.
pub fn after_turn(interactive: bool, end: TurnEnd) -> (r: AfterTurn)
    ensures
        if interactive && end is Completed {
            r matches AfterTurn::Wait(e) && e@ == ChatEventView::Idle
        } else {
            r == AfterTurn::Stop(stop_of(end))
        },
        match end {
            TurnEnd::Completed => !interactive ==> r == AfterTurn::Stop(StopReason::Completed),
            TurnEnd::Failed(e) => r == AfterTurn::Stop(StopReason::AgentError(e)),
            TurnEnd::Cancelled => r == AfterTurn::Stop(StopReason::Cancelled),
            TurnEnd::Paused => r == AfterTurn::Stop(StopReason::Paused),
            TurnEnd::ApprovalRequested => r == AfterTurn::Stop(StopReason::AwaitingApproval),
            TurnEnd::Shutdown => r == AfterTurn::Stop(StopReason::Shutdown),
            TurnEnd::DeadlineExpired => r == AfterTurn::Stop(StopReason::DeadlineExpired),
            TurnEnd::BudgetExceeded { used, limit } => r == AfterTurn::Stop(
                StopReason::BudgetExceeded { used, limit },
            ),
        },
{
    let reason = match end {
        TurnEnd::Completed => {
            if interactive {
                return AfterTurn::Wait(ChatEvent::Idle);
            }
            StopReason::Completed
        },
        TurnEnd::Failed(e) => StopReason::AgentError(e),
        TurnEnd::Cancelled => StopReason::Cancelled,
        TurnEnd::Paused => StopReason::Paused,
        TurnEnd::ApprovalRequested => StopReason::AwaitingApproval,
        TurnEnd::Shutdown => StopReason::Shutdown,
        TurnEnd::DeadlineExpired => StopReason::DeadlineExpired,
        TurnEnd::BudgetExceeded { used, limit } => StopReason::BudgetExceeded { used, limit },
    };
    AfterTurn::Stop(reason)
}

/// What ends the wait for the user.
#[derive(Debug)]
pub enum WaitEnd {
    /// The user has sent a message.
    Message(String),
    /// Nobody can send one any more.
    Closed,
    /// The user has taken too long.
    TimedOut,
    Cancelled,
    Paused,
    Shutdown,
    DeadlineExpired,
}

/// What comes after the wait for the user.
#[derive(Debug)]
pub enum AfterWait {
    /// Another turn: the message of the user is stored and announced, and the
    /// agent is asked.
    Turn { recorded: Recorded, prompt: String },
    Stop(StopReason),
}

/// What comes after the wait for the user. A message starts another turn;
/// without one the session is completed.
pub fn after_wait(end: WaitEnd, now: Timestamp) -> (r: AfterWait)
    ensures
        match end {
            WaitEnd::Message(msg) => r matches AfterWait::Turn { recorded, prompt }
                && recorded.records("user"@, msg@, None, now) && prompt@ == msg@,
            WaitEnd::Closed => r == AfterWait::Stop(StopReason::Completed),
            WaitEnd::TimedOut => r == AfterWait::Stop(StopReason::Completed),
            WaitEnd::Cancelled => r == AfterWait::Stop(StopReason::Cancelled),
            WaitEnd::Paused => r == AfterWait::Stop(StopReason::Paused),
            WaitEnd::Shutdown => r == AfterWait::Stop(StopReason::Shutdown),
            WaitEnd::DeadlineExpired => r == AfterWait::Stop(StopReason::DeadlineExpired),
        },
{
    match end {
        WaitEnd::Message(msg) => AfterWait::Turn {
            recorded: record("user", msg.as_str(), None, now),
            prompt: msg,
        },
        WaitEnd::Closed => AfterWait::Stop(StopReason::Completed),
        WaitEnd::TimedOut => AfterWait::Stop(StopReason::Completed),
        WaitEnd::Cancelled => AfterWait::Stop(StopReason::Cancelled),
        WaitEnd::Paused => AfterWait::Stop(StopReason::Paused),
        WaitEnd::Shutdown => AfterWait::Stop(StopReason::Shutdown),
        WaitEnd::DeadlineExpired => AfterWait::Stop(StopReason::DeadlineExpired),
    }
}

/// When the deadline of a run passes.
#[derive(Debug)]
pub enum DeadlineWait {
    /// There is none.
    Never,
    /// It has passed.
    Now,
    /// It is still to come.
    After(Duration),
}

/// How long a run may go on. The lead time that a caller wants is already
/// taken off the deadline.
pub fn deadline_wait(deadline: Option<Timestamp>, now: Timestamp) -> (r: DeadlineWait)
    ensures
        match deadline {
            None => r is Never,
            Some(at) => if !at.is_after(now) {
                r is Now
            } else {
                match span_of(at.since(now)) {
                    Some((secs, nanos)) => r == DeadlineWait::After(Duration { secs, nanos }),
                    None => r == DeadlineWait::After(Duration { secs: 0, nanos: 0 }),
                }
            },
        },
{
    match deadline {
        None => DeadlineWait::Never,
        Some(at) => {
            if !at.after(&now) {
                DeadlineWait::Now
            } else {
                DeadlineWait::After(at.wait_from(&now))
            }
        },
    }
}

// ── The end of a run ─────────────────────────────────────────────────

/// What the end of a run comes to.
#[derive(Debug)]
pub enum Conclusion {
    /// The run has failed.
    Fail(RunError),
    /// The state is stored already.
    Nothing,
    /// A state change. A run that is complete fails where the change cannot be
    /// stored; any other ends all the same.
    Move { transition: Transition, must_store: bool },
}

/// Why a run has failed.
#[derive(Debug)]
pub enum RunError {
    /// The agent could not be built; what lies behind it.
    Build(String),
    /// The agent has failed; what lies behind it.
    Agent(String),
    /// The end of the run could not be stored; why.
    Store(String),
}

impl RunError {
    /// The message that a failed session is stored with.
    pub open spec fn text(self) -> Seq<char> {
        match self {
            RunError::Build(_) => "failed to build agent"@,
            RunError::Agent(_) => "agent query failed"@,
            RunError::Store(e) => e@,
        }
    }

    /// The message that a failed session is stored with.
    pub fn message(&self) -> (r: String)
        ensures
            r@ == self.text(),
            match self {
                RunError::Build(_) => r@ == "failed to build agent"@,
                RunError::Agent(_) => r@ == "agent query failed"@,
                RunError::Store(e) => r@ == e@,
            },
    {
        match self {
            RunError::Build(_) => "failed to build agent".to_owned(),
            RunError::Agent(_) => "agent query failed".to_owned(),
            RunError::Store(e) => e.clone(),
        }
    }
}

/// State data that tells how the tokens were used up.
pub open spec fn budget_data(used: u64, limit: u64) -> JsonView {
    JsonView::Object(
        obj_of(
            seq![
                ("reason"@, JsonView::String("token_budget_exceeded"@)),
                ("tokens_used"@, json_u64(used)),
                ("budget_limit"@, json_u64(limit)),
            ],
        ),
    )
}

/// The state that a run ends in, whether it is terminal, and its data; nothing
/// where the run ends without a change of state.
pub open spec fn final_state(
    reason: StopReason,
    deadline_reason: Seq<char>,
) -> Option<(Seq<char>, bool, JsonView)> {
    match reason {
        StopReason::Completed => Some(("completed"@, true, reason_data("agent finished"@))),
        StopReason::AgentError(_) => None,
        StopReason::Cancelled => Some(("cancelled"@, true, reason_data("cancelled"@))),
        StopReason::Paused => Some(("paused"@, false, reason_data("manual_pause"@))),
        StopReason::AwaitingApproval => None,
        StopReason::Shutdown => Some(
            ("awaiting_retry"@, false, reason_data("server_shutdown"@)),
        ),
        StopReason::DeadlineExpired => Some(
            ("awaiting_retry"@, false, reason_data(deadline_reason)),
        ),
        StopReason::BudgetExceeded { used, limit } => Some(
            ("paused"@, false, budget_data(used, limit)),
        ),
    }
}

/// A state change for a reason.
fn moved(state: &str, terminal: bool, reason: &str) -> (r: Transition)
    ensures
        r.is(state@, terminal, reason_data(reason@)),
{
    Transition { state: state.to_owned(), terminal, data: reason_json(reason) }
}

/// What the end of a run comes to.
pub fn conclude(reason: StopReason, deadline_reason: &str) -> (r: Conclusion)
    ensures
        match final_state(reason, deadline_reason@) {
            Some((state, terminal, data)) => {
                &&& r matches Conclusion::Move { transition, must_store }
                &&& transition.is(state, terminal, data)
                &&& must_store == (reason is Completed)
            },
            None => match reason {
                StopReason::AgentError(e) => r == Conclusion::Fail(RunError::Agent(e)),
                _ => r is Nothing,
            },
        },
{
    match reason {
        StopReason::Completed => Conclusion::Move {
            transition: moved("completed", true, "agent finished"),
            must_store: true,
        },
        StopReason::AgentError(e) => Conclusion::Fail(RunError::Agent(e)),
        StopReason::Cancelled => Conclusion::Move {
            transition: moved("cancelled", true, "cancelled"),
            must_store: false,
        },
        StopReason::Paused => Conclusion::Move {
            transition: moved("paused", false, "manual_pause"),
            must_store: false,
        },
        StopReason::AwaitingApproval => Conclusion::Nothing,
        StopReason::Shutdown => Conclusion::Move {
            transition: moved("awaiting_retry", false, "server_shutdown"),
            must_store: false,
        },
        StopReason::DeadlineExpired => Conclusion::Move {
            transition: moved("awaiting_retry", false, deadline_reason),
            must_store: false,
        },
        StopReason::BudgetExceeded { used, limit } => {
            let mut pairs: Vec<(String, Json)> = Vec::new();
            pairs.push(("reason".to_owned(), Json::text("token_budget_exceeded")));
            pairs.push(("tokens_used".to_owned(), Json::number(used)));
            pairs.push(("budget_limit".to_owned(), Json::number(limit)));
            proof {
                assert(pairs_view(pairs@) =~= seq![
                    ("reason"@, JsonView::String("token_budget_exceeded"@)),
                    ("tokens_used"@, json_u64(used)),
                    ("budget_limit"@, json_u64(limit)),
                ]);
            }
            Conclusion::Move {
                transition: Transition {
                    state: "paused".to_owned(),
                    terminal: false,
                    data: Json::Object(object_of(pairs)),
                },
                must_store: false,
            }
        },
    }
}

/// Announces the state that a run ends in, once the change was stored or
/// could not be. A complete run whose change could not be stored fails, and
/// announces nothing.
pub fn announce(
    transition: &Transition,
    must_store: bool,
    stored: Result<(), String>,
    now: Timestamp,
    events: &mut Vec<ChatEvent>,
) -> (r: Result<(), String>)
    ensures
        if must_store && stored is Err {
            &&& r == stored
            &&& final(events)@ == old(events)@
        } else {
            &&& r is Ok
            &&& events_view(final(events)@) == events_view(old(events)@) + state_change_events(
                transition.state@,
                transition.data.view(),
                now,
            )
        },
{
    if must_store {
        match stored {
            Ok(_) => {},
            Err(e) => return Err(e),
        }
    }
    emit_state_change(events, transition.state.as_str(), &transition.data, now);
    Ok(())
}

// ── The whole run ────────────────────────────────────────────────────

/// Where a run stands.
#[derive(Debug)]
pub enum Phase {
    /// The agent works on a turn.
    Turn,
    /// The session waits for its user.
    Wait,
    /// The end of the run is being stored.
    Ending { transition: Transition, must_store: bool },
    Over,
}

/// Where a run stands, in the model.
pub enum PhaseView {
    Turn,
    Wait,
    Ending { state: Seq<char>, terminal: bool, data: JsonView, must_store: bool },
    Over,
}

/// What happens to a run.
#[derive(Debug)]
pub enum RunEvent {
    TurnEnded(TurnEnd),
    WaitEnded(WaitEnd),
    /// The end of the run was stored, or could not be.
    Stored(Result<(), String>),
}

/// What a run wants next.
#[derive(Debug)]
pub enum RunAction {
    /// Ask the agent, and wait for the end of the turn.
    Query(String),
    /// Wait for the user.
    AwaitUser,
    /// Store a change of state.
    Store(Transition),
    /// The run is over.
    Finish(Result<(), RunError>),
}

/// What a run makes of an event: what is to be stored first, what is to be
/// announced, and what it wants next.
#[derive(Debug)]
pub struct RunStep {
    pub record: Option<Recorded>,
    pub events: Vec<ChatEvent>,
    pub action: RunAction,
}

/// A run of a session.
#[derive(Debug)]
pub struct SessionRun {
    interactive: bool,
    deadline_reason: String,
    phase: Phase,
}

/// A run, in the model.
pub struct RunView {
    pub interactive: bool,
    pub deadline_reason: Seq<char>,
    pub phase: PhaseView,
}

impl Phase {
    /// Where the run stands, in the model.
    pub open spec fn view(&self) -> PhaseView {
        match self {
            Phase::Turn => PhaseView::Turn,
            Phase::Wait => PhaseView::Wait,
            Phase::Ending { transition, must_store } => PhaseView::Ending {
                state: transition.state@,
                terminal: transition.terminal,
                data: transition.data.view(),
                must_store: *must_store,
            },
            Phase::Over => PhaseView::Over,
        }
    }
}

impl View for SessionRun {
    type V = RunView;

    closed spec fn view(&self) -> RunView {
        RunView {
            interactive: self.interactive,
            deadline_reason: self.deadline_reason@,
            phase: self.phase.view(),
        }
    }
}

/// Whether an event can happen where a run stands.
pub open spec fn fits(phase: PhaseView, event: RunEvent) -> bool {
    match event {
        RunEvent::TurnEnded(_) => phase is Turn,
        RunEvent::WaitEnded(_) => phase is Wait,
        RunEvent::Stored(_) => phase is Ending,
    }
}

/// Why an event ends a run, if it does.
pub open spec fn stops(interactive: bool, event: RunEvent) -> Option<StopReason> {
    match event {
        RunEvent::TurnEnded(end) => if interactive && end is Completed {
            None
        } else {
            Some(stop_of(end))
        },
        RunEvent::WaitEnded(end) => match end {
            WaitEnd::Message(_) => None,
            WaitEnd::Closed => Some(StopReason::Completed),
            WaitEnd::TimedOut => Some(StopReason::Completed),
            WaitEnd::Cancelled => Some(StopReason::Cancelled),
            WaitEnd::Paused => Some(StopReason::Paused),
            WaitEnd::Shutdown => Some(StopReason::Shutdown),
            WaitEnd::DeadlineExpired => Some(StopReason::DeadlineExpired),
        },
        RunEvent::Stored(_) => None,
    }
}

/// Where a run stands behind an event.
pub open spec fn next_phase(run: RunView, event: RunEvent) -> PhaseView {
    match stops(run.interactive, event) {
        Some(reason) => match final_state(reason, run.deadline_reason) {
            Some((state, terminal, data)) => PhaseView::Ending {
                state,
                terminal,
                data,
                must_store: reason is Completed,
            },
            None => PhaseView::Over,
        },
        None => match event {
            RunEvent::TurnEnded(_) => PhaseView::Wait,
            RunEvent::WaitEnded(_) => PhaseView::Turn,
            RunEvent::Stored(_) => PhaseView::Over,
        },
    }
}

/// Whether the end of a run comes to a failure: the agent has failed, or a
/// complete run could not be stored.
pub open spec fn failure(run: RunView, event: RunEvent) -> Option<RunError> {
    match event {
        RunEvent::TurnEnded(TurnEnd::Failed(e)) => Some(RunError::Agent(e)),
        RunEvent::Stored(Err(e)) => if run.phase->must_store {
            Some(RunError::Store(e))
        } else {
            None
        },
        _ => None,
    }
}

impl RunStep {
    /// Whether a step is what a run makes of an event.
    pub open spec fn answers(self, run: RunView, event: RunEvent, now: Timestamp) -> bool {
        let next = next_phase(run, event);
        &&& match event {
            RunEvent::WaitEnded(WaitEnd::Message(msg)) => self.record matches Some(rec)
                && rec.records("user"@, msg@, None, now),
            _ => self.record is None,
        }
        &&& events_view(self.events@) == match event {
            RunEvent::TurnEnded(_) => if next is Wait {
                seq![ChatEventView::Idle]
            } else {
                Seq::empty()
            },
            RunEvent::WaitEnded(_) => Seq::empty(),
            RunEvent::Stored(_) => if failure(run, event) is Some {
                Seq::empty()
            } else {
                state_change_events(run.phase->state, run.phase->data, now)
            },
        }
        &&& match next {
            PhaseView::Turn => self.action matches RunAction::Query(prompt) && event
                matches RunEvent::WaitEnded(WaitEnd::Message(msg)) && prompt@ == msg@,
            PhaseView::Wait => self.action is AwaitUser,
            PhaseView::Ending { state, terminal, data, .. } => self.action
                matches RunAction::Store(t) && t.is(state, terminal, data),
            PhaseView::Over => self.action matches RunAction::Finish(r) && match failure(
                run,
                event,
            ) {
                Some(e) => r == Err::<(), RunError>(e),
                None => r is Ok,
            },
        }
    }
}

/// What a run wants first, from what came of building its agent: the agent is
/// asked, or the run is over.
pub fn first_action(built: Result<(), String>, prompt: String) -> (r: RunAction)
    ensures
        match built {
            Ok(_) => r == RunAction::Query(prompt),
            Err(e) => r == RunAction::Finish(Err(RunError::Build(e))),
        },
{
    match built {
        Ok(_) => RunAction::Query(prompt),
        Err(e) => RunAction::Finish(Err(RunError::Build(e))),
    }
}

impl SessionRun {
    /// A run that has just been started: the agent works on its first turn.
    pub fn new(interactive: bool, deadline_reason: &str) -> (r: SessionRun)
        ensures
            r@ == (RunView {
                interactive,
                deadline_reason: deadline_reason@,
                phase: PhaseView::Turn,
            }),
    {
        SessionRun { interactive, deadline_reason: deadline_reason.to_owned(), phase: Phase::Turn }
    }

    /// Whether the run is over.
    pub fn is_over(&self) -> (r: bool)
        ensures
            r == (self@.phase is Over),
    {
        match self.phase {
            Phase::Over => true,
            _ => false,
        }
    }

    /// Whether an event can happen where the run stands.
    pub fn accepts(&self, event: &RunEvent) -> (r: bool)
        ensures
            r == fits(self@.phase, *event),
    {
        match (event, &self.phase) {
            (RunEvent::TurnEnded(_), Phase::Turn) => true,
            (RunEvent::WaitEnded(_), Phase::Wait) => true,
            (RunEvent::Stored(_), Phase::Ending { .. }) => true,
            _ => false,
        }
    }

    /// Ends the run for a reason.
    fn end(self, reason: StopReason) -> (r: (SessionRun, RunStep))
        ensures
            r.0@.interactive == self@.interactive,
            r.0@.deadline_reason == self@.deadline_reason,
            r.0@.phase == (match final_state(reason, self@.deadline_reason) {
                Some((state, terminal, data)) => PhaseView::Ending {
                    state,
                    terminal,
                    data,
                    must_store: reason is Completed,
                },
                None => PhaseView::Over,
            }),
            r.1.record is None,
            r.1.events@.len() == 0,
            match final_state(reason, self@.deadline_reason) {
                Some((state, terminal, data)) => r.1.action matches RunAction::Store(t) && t.is(
                    state,
                    terminal,
                    data,
                ),
                None => r.1.action matches RunAction::Finish(x) && match reason {
                    StopReason::AgentError(e) => x == Err::<(), RunError>(RunError::Agent(e)),
                    _ => x is Ok,
                },
            },
    {
        let mut run = self;
        let action = match conclude(reason, run.deadline_reason.as_str()) {
            Conclusion::Fail(e) => {
                run.phase = Phase::Over;
                RunAction::Finish(Err(e))
            },
            Conclusion::Nothing => {
                run.phase = Phase::Over;
                RunAction::Finish(Ok(()))
            },
            Conclusion::Move { transition, must_store } => {
                let copy = Transition {
                    state: transition.state.clone(),
                    terminal: transition.terminal,
                    data: transition.data.clone(),
                };
                run.phase = Phase::Ending { transition, must_store };
                RunAction::Store(copy)
            },
        };
        (run, RunStep { record: None, events: Vec::new(), action })
    }

    /// What the run makes of an event.
    pub fn step(self, event: RunEvent, now: Timestamp) -> (r: (SessionRun, RunStep))
        requires
            fits(self@.phase, event),
        ensures
            r.0@ == (RunView { phase: next_phase(self@, event), ..self@ }),
            r.1.answers(self@, event, now),
    {
        proof {
            let nothing: Seq<ChatEvent> = Seq::empty();
            assert(events_view(nothing) =~= Seq::<ChatEventView>::empty());
            assert forall|v: Seq<ChatEvent>| v.len() == 0 implies #[trigger] events_view(v)
                == Seq::<ChatEventView>::empty() by {
                assert(events_view(v) =~= Seq::<ChatEventView>::empty());
            }
        }
        match event {
            RunEvent::TurnEnded(end) => match after_turn(self.interactive, end) {
                AfterTurn::Wait(idle) => {
                    let mut run = self;
                    run.phase = Phase::Wait;
                    let mut events: Vec<ChatEvent> = Vec::new();
                    events.push(idle);
                    proof {
                        assert(events_view(events@) =~= seq![ChatEventView::Idle]);
                    }
                    (run, RunStep { record: None, events, action: RunAction::AwaitUser })
                },
                AfterTurn::Stop(reason) => self.end(reason),
            },
            RunEvent::WaitEnded(end) => match after_wait(end, now) {
                AfterWait::Turn { recorded, prompt } => {
                    let mut run = self;
                    run.phase = Phase::Turn;
                    (
                        run,
                        RunStep {
                            record: Some(recorded),
                            events: Vec::new(),
                            action: RunAction::Query(prompt),
                        },
                    )
                },
                AfterWait::Stop(reason) => self.end(reason),
            },
            RunEvent::Stored(stored) => {
                let mut events: Vec<ChatEvent> = Vec::new();
                let result: Result<(), RunError> = match &self.phase {
                    Phase::Ending { transition, must_store } => match announce(
                        transition,
                        *must_store,
                        stored,
                        now,
                        &mut events,
                    ) {
                        Ok(_) => Ok(()),
                        Err(e) => Err(RunError::Store(e)),
                    },
                    _ => Ok(()),
                };
                proof {
                    if failure(self@, event) is None {
                        let told = state_change_events(self@.phase->state, self@.phase->data, now);
                        assert(Seq::<ChatEventView>::empty() + told =~= told);
                    }
                }
                let mut run = self;
                run.phase = Phase::Over;
                (run, RunStep { record: None, events, action: RunAction::Finish(result) })
            },
        }
    }
}

// ── What holds of every run ──────────────────────────────────────────

/// The state that a run ends in is one of the lifecycle, and is stored as
/// terminal exactly where it is; no run ends at work.
pub proof fn final_states_are_classified(reason: StopReason, deadline_reason: Seq<char>)
    ensures
        final_state(reason, deadline_reason) matches Some((state, terminal, _)) ==> lifecycle(
            state,
        ).terminal() == terminal && !lifecycle(state).active(),
{
    lifecycle_names();
}

/// A run that was interrupted from outside can be taken up again: its state
/// is not terminal.
pub proof fn interrupted_runs_go_on(reason: StopReason, deadline_reason: Seq<char>)
    requires
        reason is Paused || reason is Shutdown || reason is DeadlineExpired
            || reason is BudgetExceeded,
    ensures
        final_state(reason, deadline_reason) matches Some((state, terminal, _)) && !terminal
            && !lifecycle(state).terminal(),
{
    lifecycle_names();
}

/// A tool that starts and ends leaves the executing tools as they were, where
/// none of its name was executing.
pub proof fn tools_come_and_go(
    tools: Seq<RunningToolView>,
    name: Seq<char>,
    args: Option<Seq<char>>,
    now: Timestamp,
)
    requires
        forall|i: int| 0 <= i < tools.len() ==> (#[trigger] tools[i]).name != name,
    ensures
        tools.push(started_tool(name, args, now)).filter(|t: RunningToolView| t.name != name)
            == tools,
{
    let keeps = |t: RunningToolView| t.name != name;
    let more = tools.push(started_tool(name, args, now));
    reveal(Seq::filter);
    assert(more.drop_last() =~= tools);
    all_are_kept(tools, keeps);
}

/// A filter that every item passes keeps them all.
proof fn all_are_kept(tools: Seq<RunningToolView>, keeps: spec_fn(RunningToolView) -> bool)
    requires
        forall|i: int| 0 <= i < tools.len() ==> keeps(#[trigger] tools[i]),
    ensures
        tools.filter(keeps) == tools,
    decreases tools.len(),
{
    reveal(Seq::filter);
    if tools.len() > 0 {
        let front = tools.drop_last();
        assert forall|i: int| 0 <= i < front.len() implies keeps(#[trigger] front[i]) by {
            assert(keeps(tools[i]));
        }
        all_are_kept(front, keeps);
        assert(tools =~= front.push(tools.last()));
    }
}

/// Where a run stands behind events that happen one after the other.
pub open spec fn run_through(run: RunView, events: Seq<RunEvent>) -> RunView
    decreases events.len(),
{
    if events.len() == 0 {
        run
    } else {
        let before = run_through(run, events.drop_last());
        RunView { phase: next_phase(before, events.last()), ..before }
    }
}

/// Whether events happen one after the other, each where it can.
pub open spec fn happens(run: RunView, events: Seq<RunEvent>) -> bool
    decreases events.len(),
{
    events.len() == 0 || (happens(run, events.drop_last()) && fits(
        run_through(run, events.drop_last()).phase,
        events.last(),
    ))
}

/// Nothing happens to a run that is over.
pub proof fn nothing_follows_the_end(run: RunView, event: RunEvent)
    requires
        run.phase is Over,
    ensures
        !fits(run.phase, event),
{
}

/// A session that is not interactive never waits for its user: behind its one
/// turn, it only stores its end.
pub proof fn single_runs_never_wait(run: RunView, events: Seq<RunEvent>)
    requires
        !run.interactive,
        run.phase is Turn,
        happens(run, events),
    ensures
        !(run_through(run, events).phase is Wait),
        run_through(run, events).interactive == run.interactive,
        run_through(run, events).phase is Turn ==> events.len() == 0,
        run_through(run, events).phase is Ending ==> events.len() == 1,
        run_through(run, events).phase is Over ==> events.len() <= 2,
    decreases events.len(),
{
    if events.len() > 0 {
        single_runs_never_wait(run, events.drop_last());
    }
}

/// Cancelling ends a run as cancelled, wherever it stands.
pub proof fn cancelling_cancels(run: RunView, event: RunEvent)
    requires
        event == RunEvent::TurnEnded(TurnEnd::Cancelled) || event == RunEvent::WaitEnded(
            WaitEnd::Cancelled,
        ),
    ensures
        next_phase(run, event) matches PhaseView::Ending { state, terminal, .. } && state
            == "cancelled"@ && terminal,
{
}

/// The state that a run stores at its end is stored as terminal exactly where
/// it is.
pub proof fn endings_are_classified(run: RunView, event: RunEvent)
    ensures
        next_phase(run, event) matches PhaseView::Ending { state, terminal, .. } ==> lifecycle(
            state,
        ).terminal() == terminal,
{
    match stops(run.interactive, event) {
        Some(reason) => {
            final_states_are_classified(reason, run.deadline_reason);
        },
        None => {},
    }
}

// ── What is stored and announced ─────────────────────────────────────

/// What is recorded is stored and announced alike: the role, the content and
/// what goes with them are the same in the message and in the event.
pub proof fn records_are_announced(
    rec: Recorded,
    role: Seq<char>,
    content: Seq<char>,
    metadata: Option<JsonView>,
    now: Timestamp,
)
    requires
        rec.records(role, content, metadata, now),
    ensures
        rec.message.role@ == role,
        rec.message.content@ == content,
        match rec.message.metadata {
            Some(m) => metadata == Some(m.view()),
            None => metadata is None,
        },
        rec.event@ == (ChatEventView::Message { role, content, metadata, created_at: now }),
{
}

/// A text that an agent says is its answer, whatever it calls; an answer
/// without a text names the tools that are called, each in quotes, and is
/// empty where none is.
pub proof fn answers_are_what_is_said(
    text: Option<Seq<char>>,
    calls: Option<Seq<Seq<char>>>,
)
    ensures
        (text matches Some(t) && t.len() > 0) ==> answer_text(text, calls) == text->0,
        (text is None || text->0.len() == 0) && (calls is None || calls->0.len() == 0)
            ==> answer_text(text, calls).len() == 0,
        (text is None || text->0.len() == 0) ==> (calls matches Some(names) ==> names.len() == 1
            ==> answer_text(text, calls) == "`"@ + names[0] + "`"@),
        (text is None || text->0.len() == 0) ==> (calls matches Some(names) ==> names.len() > 1
            ==> answer_text(text, calls) == answer_text(None, Some(names.drop_last())) + ", `"@
            + names.last() + "`"@),
{
    if let Some(names) = calls {
        let all = names.map_values(|n: Seq<char>| quoted(n));
        if names.len() > 1 {
            let front = names.drop_last().map_values(|n: Seq<char>| quoted(n));
            assert(all.drop_last() =~= front);
            reveal_strlit(", ");
            reveal_strlit(", `");
            reveal_strlit("`");
            assert(", "@ + "`"@ =~= ", `"@);
            assert(joined(front, ", "@) + ", "@ + ("`"@ + names.last() + "`"@) =~= joined(
                front,
                ", "@,
            ) + (", "@ + "`"@) + names.last() + "`"@);
        }
    }
}

/// A message of the user in parts is stored with the texts of its parts, one
/// to a line; parts that are no text are left out.
pub proof fn parts_are_stored_line_by_line(parts: Seq<ContentPart>, last: ContentPart)
    ensures
        part_texts(Seq::empty()).len() == 0,
        last is Other ==> part_texts(parts.push(last)) == part_texts(parts),
        last matches ContentPart::Text(t) ==> part_texts(parts.push(last)) == part_texts(
            parts,
        ).push(t@),
{
    assert(parts.push(last).drop_last() =~= parts);
}

/// What a message is stored under: the role of who speaks, with what is said.
/// Output of tools and reasoning are not stored.
pub proof fn messages_keep_their_speaker(msg: AgentMessage)
    ensures
        match msg {
            AgentMessage::System(s) => role_content(msg) == Some(("system"@, s@)),
            AgentMessage::User(s) => role_content(msg) == Some(("user"@, s@)),
            AgentMessage::Summary(s) => role_content(msg) == Some(("summary"@, s@)),
            AgentMessage::Assistant(text, calls) => {
                &&& role_content(msg) matches Some((role, content))
                &&& role == "assistant"@
                &&& (text matches Some(t) && t@.len() > 0) ==> content == text->0@
                &&& calls is None && (text is None || text->0@.len() == 0) ==> content.len() == 0
                &&& (text is None || text->0@.len() == 0) ==> (calls matches Some(c) ==> content
                    == answer_text(None, Some(texts(c@))))
            },
            AgentMessage::UserWithParts(parts) => role_content(msg) == Some(
                ("user"@, joined(part_texts(parts@), "\n"@)),
            ),
            AgentMessage::ToolOutput => role_content(msg) is None,
            AgentMessage::Reasoning => role_content(msg) is None,
        },
{
}

proof fn result_keys_differ()
    ensures
        "tool_name"@ != "tool_args"@,
        "tool_name"@ != "status"@,
        "tool_args"@ != "status"@,
        "tool_name"@ != "validation"@,
        "tool_args"@ != "validation"@,
        "status"@ != "validation"@,
        "status"@ != "reasoning"@,
        "status"@ != "risk"@,
        "reasoning"@ != "risk"@,
        "approved"@ != "rejected"@,
        "ok"@ != "error"@,
{
    reveal_strlit("tool_name");
    reveal_strlit("tool_args");
    reveal_strlit("status");
    reveal_strlit("validation");
    reveal_strlit("reasoning");
    reveal_strlit("risk");
    reveal_strlit("approved");
    reveal_strlit("rejected");
    reveal_strlit("ok");
    reveal_strlit("error");
    assert("tool_name"@[5] == 'n' && "tool_args"@[5] == 'a');
    assert("status"@.len() == 6 && "validation"@.len() == 10 && "tool_name"@.len() == 9);
    assert("tool_args"@.len() == 9 && "reasoning"@.len() == 9 && "risk"@.len() == 4);
    assert("approved"@[0] == 'a' && "rejected"@[0] == 'r');
    assert("ok"@.len() == 2 && "error"@.len() == 5);
}

/// The result of a tool names the tool, its arguments, and whether the call
/// did its work; it carries a verdict exactly where there is one.
pub proof fn results_name_the_tool(
    name: Seq<char>,
    args: Option<Seq<char>>,
    ok: bool,
    verdict: Option<ToolVerdict>,
)
    ensures
        ({
            let m = result_metadata(name, args, ok, verdict);
            &&& m.get("tool_name"@) == Some(JsonView::String(name))
            &&& m.get("tool_args"@) == Some(
                JsonView::String(
                    match args {
                        Some(a) => a,
                        None => "{}"@,
                    },
                ),
            )
            &&& ok ==> m.get("status"@) == Some(JsonView::String("ok"@))
            &&& !ok ==> m.get("status"@) == Some(JsonView::String("error"@))
            &&& m.get("validation"@) is Some <==> verdict is Some
        }),
{
    let pairs = result_members(name, args, ok);
    result_keys_differ();
    crate::json::obj_of_at(pairs, 0);
    crate::json::obj_of_at(pairs, 1);
    crate::json::obj_of_at(pairs, 2);
    crate::json::obj_of_lacks(pairs, "validation"@);
    if let Some(v) = verdict {
        let base = obj_of(pairs);
        crate::json::obj_insert_get(base, "validation"@, verdict_json(v), "tool_name"@);
        crate::json::obj_insert_get(base, "validation"@, verdict_json(v), "tool_args"@);
        crate::json::obj_insert_get(base, "validation"@, verdict_json(v), "status"@);
    }
}

/// The verdict that the result of a tool carries is the one that was given: it
/// reads `approved` where the verdict approves and `rejected` where it does
/// not, which differ, and gives its reasoning and its risk.
pub proof fn results_carry_the_verdict(
    name: Seq<char>,
    args: Option<Seq<char>>,
    ok: bool,
    v: ToolVerdict,
)
    ensures
        result_metadata(name, args, ok, Some(v)).get("validation"@) matches Some(told) && {
            &&& v.approved ==> told.get("status"@) == Some(JsonView::String("approved"@))
            &&& !v.approved ==> told.get("status"@) == Some(JsonView::String("rejected"@))
            &&& v.reasoning is None ==> told.get("reasoning"@) == Some(JsonView::Null)
            &&& v.reasoning matches Some(why) ==> told.get("reasoning"@) == Some(
                JsonView::String(why@),
            )
            &&& told.get("risk"@) == Some(JsonView::String(v.risk@))
        },
        "approved"@ != "rejected"@,
{
    let status = if v.approved {
        "approved"@
    } else {
        "rejected"@
    };
    let pairs = seq![
        ("status"@, JsonView::String(status)),
        ("reasoning"@, json_opt(opt_text(v.reasoning))),
        ("risk"@, JsonView::String(v.risk@)),
    ];
    result_keys_differ();
    assert(verdict_json(v) == JsonView::Object(obj_of(pairs)));
    crate::json::obj_of_at(pairs, 0);
    crate::json::obj_of_at(pairs, 1);
    crate::json::obj_of_at(pairs, 2);
    let base = obj_of(result_members(name, args, ok));
    crate::json::obj_insert_get(base, "validation"@, verdict_json(v), "status"@);
}

/// The verdict on a tool is that of the latest call where that was a call of
/// the tool; a call of another tool says nothing about it.
pub proof fn verdicts_are_on_the_latest_call(name: Seq<char>, call: LastCall)
    ensures
        call.tool_name@ == name ==> verdict_on(name, Some(call)) == call.validation,
        call.tool_name@ != name ==> verdict_on(name, Some(call)) is None,
        verdict_on(name, None) is None,
{
}

// ── What a run comes to ──────────────────────────────────────────────

proof fn budget_keys_differ()
    ensures
        "reason"@ != "tokens_used"@,
        "reason"@ != "budget_limit"@,
        "tokens_used"@ != "budget_limit"@,
{
    reveal_strlit("reason");
    reveal_strlit("tokens_used");
    reveal_strlit("budget_limit");
    assert("reason"@.len() == 6 && "tokens_used"@.len() == 11 && "budget_limit"@.len() == 12);
}

/// A run that is paused because its tokens are used up says so, with how many
/// it has used and how many it might.
pub proof fn budgets_are_reported(used: u64, limit: u64, deadline_reason: Seq<char>)
    ensures
        final_state(StopReason::BudgetExceeded { used, limit }, deadline_reason) matches Some(
            (state, terminal, data),
        ) && {
            &&& state == "paused"@
            &&& !terminal
            &&& data.get("reason"@) == Some(JsonView::String("token_budget_exceeded"@))
            &&& data.get("tokens_used"@) == Some(json_u64(used))
            &&& data.get("budget_limit"@) == Some(json_u64(limit))
        },
{
    let pairs = seq![
        ("reason"@, JsonView::String("token_budget_exceeded"@)),
        ("tokens_used"@, json_u64(used)),
        ("budget_limit"@, json_u64(limit)),
    ];
    budget_keys_differ();
    crate::json::obj_of_at(pairs, 0);
    crate::json::obj_of_at(pairs, 1);
    crate::json::obj_of_at(pairs, 2);
}

/// The state that a run ends in tells what has ended it, and its data tell why;
/// a run whose agent has failed, or that waits for approval, ends without a
/// change of state.
pub proof fn ends_tell_why(reason: StopReason, deadline_reason: Seq<char>)
    ensures
        final_state(reason, deadline_reason) is None <==> reason is AgentError
            || reason is AwaitingApproval,
        final_state(reason, deadline_reason) matches Some((state, terminal, data)) ==> {
            &&& reason is Completed ==> state == "completed"@ && terminal && data.get("reason"@)
                == Some(JsonView::String("agent finished"@))
            &&& reason is Cancelled ==> state == "cancelled"@ && terminal && data.get("reason"@)
                == Some(JsonView::String("cancelled"@))
            &&& reason is Paused ==> state == "paused"@ && !terminal && data.get("reason"@)
                == Some(JsonView::String("manual_pause"@))
            &&& reason is Shutdown ==> state == "awaiting_retry"@ && !terminal && data.get(
                "reason"@,
            ) == Some(JsonView::String("server_shutdown"@))
            &&& reason is DeadlineExpired ==> state == "awaiting_retry"@ && !terminal && data.get(
                "reason"@,
            ) == Some(JsonView::String(deadline_reason))
            &&& reason is BudgetExceeded ==> state == "paused"@ && !terminal && data.get("reason"@)
                == Some(JsonView::String("token_budget_exceeded"@))
        },
{
    crate::model::reason_data_holds_the_reason("agent finished"@, "reason"@);
    crate::model::reason_data_holds_the_reason("cancelled"@, "reason"@);
    crate::model::reason_data_holds_the_reason("manual_pause"@, "reason"@);
    crate::model::reason_data_holds_the_reason("server_shutdown"@, "reason"@);
    crate::model::reason_data_holds_the_reason(deadline_reason, "reason"@);
    if let StopReason::BudgetExceeded { used, limit } = reason {
        budgets_are_reported(used, limit, deadline_reason);
    }
}

/// A state change that is handed out is the one that was decided on.
pub proof fn transitions_are_as_decided(
    t: Transition,
    state: Seq<char>,
    terminal: bool,
    data: JsonView,
)
    requires
        t.is(state, terminal, data),
    ensures
        t.state@ == state,
        t.terminal == terminal,
        t.data.view() == data,
{
}

/// A signal ends a run for what it says, whether it comes in a turn or while
/// the session waits; a session that nobody writes to is complete.
pub proof fn signals_end_runs(interactive: bool)
    ensures
        stops(interactive, RunEvent::TurnEnded(TurnEnd::Cancelled)) == Some(StopReason::Cancelled),
        stops(interactive, RunEvent::WaitEnded(WaitEnd::Cancelled)) == Some(StopReason::Cancelled),
        stops(interactive, RunEvent::TurnEnded(TurnEnd::Paused)) == Some(StopReason::Paused),
        stops(interactive, RunEvent::WaitEnded(WaitEnd::Paused)) == Some(StopReason::Paused),
        stops(interactive, RunEvent::TurnEnded(TurnEnd::Shutdown)) == Some(StopReason::Shutdown),
        stops(interactive, RunEvent::WaitEnded(WaitEnd::Shutdown)) == Some(StopReason::Shutdown),
        stops(interactive, RunEvent::TurnEnded(TurnEnd::DeadlineExpired)) == Some(
            StopReason::DeadlineExpired,
        ),
        stops(interactive, RunEvent::WaitEnded(WaitEnd::DeadlineExpired)) == Some(
            StopReason::DeadlineExpired,
        ),
        stops(interactive, RunEvent::WaitEnded(WaitEnd::Closed)) == Some(StopReason::Completed),
        stops(interactive, RunEvent::WaitEnded(WaitEnd::TimedOut)) == Some(StopReason::Completed),
        stops(interactive, RunEvent::TurnEnded(TurnEnd::ApprovalRequested)) == Some(
            StopReason::AwaitingApproval,
        ),
        stops(false, RunEvent::TurnEnded(TurnEnd::Completed)) == Some(StopReason::Completed),
        stops(true, RunEvent::TurnEnded(TurnEnd::Completed)) is None,
        forall|e: String| #[trigger]
            stops(interactive, RunEvent::TurnEnded(TurnEnd::Failed(e))) == Some(
                StopReason::AgentError(e),
            ),
        forall|m: String| #[trigger]
            stops(interactive, RunEvent::WaitEnded(WaitEnd::Message(m))) is None,
        forall|used: u64, limit: u64| #[trigger]
            stops(interactive, RunEvent::TurnEnded(TurnEnd::BudgetExceeded { used, limit }))
                == Some(StopReason::BudgetExceeded { used, limit }),
{
}

/// An interactive session goes round: behind a turn that its agent has finished
/// it waits, and says that it is idle; a message of the user is stored,
/// announced and handed to the agent, which works on it next.
pub proof fn interactive_sessions_go_round(
    step: RunStep,
    run: RunView,
    event: RunEvent,
    now: Timestamp,
)
    requires
        step.answers(run, event, now),
    ensures
        run.interactive && event == RunEvent::TurnEnded(TurnEnd::Completed) ==> {
            &&& next_phase(run, event) is Wait
            &&& step.action is AwaitUser
            &&& step.record is None
            &&& events_view(step.events@).len() == 1
            &&& events_view(step.events@)[0] == ChatEventView::Idle
        },
        event matches RunEvent::WaitEnded(WaitEnd::Message(msg)) ==> {
            &&& next_phase(run, event) is Turn
            &&& step.action matches RunAction::Query(prompt) && prompt@ == msg@
            &&& step.record matches Some(rec) && rec.message.role@ == "user"@
                && rec.message.content@ == msg@ && rec.message.metadata is None && rec.event@ == (
            ChatEventView::Message {
                role: "user"@,
                content: msg@,
                metadata: None,
                created_at: now,
            })
            &&& events_view(step.events@).len() == 0
        },
{
}

/// A run that is stopped stores the state that it ends in before it is over;
/// where there is none it is over at once, and has failed exactly if its agent
/// has.
pub proof fn stopped_runs_store_their_end(
    step: RunStep,
    run: RunView,
    event: RunEvent,
    now: Timestamp,
    reason: StopReason,
)
    requires
        step.answers(run, event, now),
        stops(run.interactive, event) == Some(reason),
    ensures
        step.record is None,
        events_view(step.events@).len() == 0,
        match final_state(reason, run.deadline_reason) {
            Some((state, terminal, data)) => {
                &&& next_phase(run, event) matches PhaseView::Ending {
                    state: s,
                    terminal: t,
                    data: d,
                    must_store,
                }
                &&& s == state && t == terminal && d == data
                &&& must_store == (reason is Completed)
                &&& step.action matches RunAction::Store(tr) && tr.state@ == state && tr.terminal
                    == terminal && tr.data.view() == data
            },
            None => {
                &&& next_phase(run, event) is Over
                &&& step.action matches RunAction::Finish(r) && (r is Err <==> reason
                    is AgentError)
            },
        },
        event matches RunEvent::TurnEnded(TurnEnd::Failed(e)) ==> (step.action
            matches RunAction::Finish(Err(RunError::Agent(f))) && f == e),
{
}

/// Once the end of a run is stored, the run is over and its state announced; a
/// complete run whose end could not be stored has failed, and announces
/// nothing; any other is over all the same.
pub proof fn stored_ends_are_announced(
    step: RunStep,
    run: RunView,
    stored: Result<(), String>,
    now: Timestamp,
)
    requires
        run.phase is Ending,
        step.answers(run, RunEvent::Stored(stored), now),
    ensures
        next_phase(run, RunEvent::Stored(stored)) is Over,
        step.record is None,
        stored is Ok || !run.phase->must_store ==> {
            &&& events_view(step.events@) == state_change_events(
                run.phase->state,
                run.phase->data,
                now,
            )
            &&& step.action matches RunAction::Finish(r) && r is Ok
        },
        (stored is Err && run.phase->must_store) ==> {
            &&& events_view(step.events@).len() == 0
            &&& step.action matches RunAction::Finish(Err(RunError::Store(f))) && f == stored->Err_0
        },
{
}

/// An event fits where a run waits for it: the end of a turn in a turn, the end
/// of the wait in the wait, and the outcome of storing at the end.
pub proof fn events_fit_their_phase(phase: PhaseView, turn: TurnEnd, wait: WaitEnd)
    ensures
        fits(phase, RunEvent::TurnEnded(turn)) <==> phase is Turn,
        fits(phase, RunEvent::WaitEnded(wait)) <==> phase is Wait,
        forall|stored: Result<(), String>| #[trigger]
            fits(phase, RunEvent::Stored(stored)) <==> phase is Ending,
{
}

}
