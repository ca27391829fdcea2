//! Types that are streamed from the server to the client of a session.

use vstd::prelude::*;

use crate::json::{opt_view, Json, JsonView};
use crate::text::{opt_text, texts};

verus! {

/// Event streamed to the client during a session.
#[derive(Debug, Clone)]
pub struct ChatStreamEvent {
    /// "session_created", "message", "running_tools", "pins", "staff_pings",
    /// "state", "done", "error"
    pub kind: String,
    pub session_id: Option<String>,
    pub role: Option<String>,
    pub content: Option<String>,
    pub state: Option<String>,
    pub metadata: Option<Json>,
    pub running_tools: Option<Vec<ChatRunningTool>>,
    pub pins: Option<Vec<ChatPin>>,
    pub staff_pings: Option<Vec<ChatStaffPing>>,
    /// Passing status message.
    pub status_message: Option<String>,
    /// Reason for the current state, for humans.
    pub state_reason: Option<String>,
}

/// A tool that is executing.
#[derive(Debug, Clone)]
pub struct ChatRunningTool {
    pub name: String,
    pub args: Option<String>,
    pub started_at: String,
    pub validation: Option<ChatToolValidation>,
}

/// Verdict on a tool call.
#[derive(Debug, Clone)]
pub struct ChatToolValidation {
    /// "approved", "rejected", "skipped", "validating", "error"
    pub status: String,
    pub reasoning: Option<String>,
    /// "read_only", "session_local", "mutating", "destructive"
    pub risk: String,
}

/// What is pinned to a slot.
#[derive(Debug, Clone)]
pub struct ChatPin {
    pub slot: String,
    pub summary: String,
    pub affected_services: Vec<String>,
}

/// A call for the attention of staff.
#[derive(Debug, Clone)]
pub struct ChatStaffPing {
    pub id: String,
    pub category: String,
    pub message: String,
    pub resolved: bool,
    pub created_at: String,
}

/// What a verdict holds.
#[verifier::ext_equal]
pub struct WireValidationView {
    pub status: Seq<char>,
    pub reasoning: Option<Seq<char>>,
    pub risk: Seq<char>,
}

/// What an executing tool holds.
#[verifier::ext_equal]
pub struct WireToolView {
    pub name: Seq<char>,
    pub args: Option<Seq<char>>,
    pub started_at: Seq<char>,
    pub validation: Option<WireValidationView>,
}

/// What a pin holds.
#[verifier::ext_equal]
pub struct PinView {
    pub slot: Seq<char>,
    pub summary: Seq<char>,
    pub affected_services: Seq<Seq<char>>,
}

/// What a call for attention holds.
#[verifier::ext_equal]
pub struct StaffPingView {
    pub id: Seq<char>,
    pub category: Seq<char>,
    pub message: Seq<char>,
    pub resolved: bool,
    pub created_at: Seq<char>,
}

/// What a streamed event holds.
#[verifier::ext_equal]
pub struct StreamEventView {
    pub kind: Seq<char>,
    pub session_id: Option<Seq<char>>,
    pub role: Option<Seq<char>>,
    pub content: Option<Seq<char>>,
    pub state: Option<Seq<char>>,
    pub metadata: Option<JsonView>,
    pub running_tools: Option<Seq<WireToolView>>,
    pub pins: Option<Seq<PinView>>,
    pub staff_pings: Option<Seq<StaffPingView>>,
    pub status_message: Option<Seq<char>>,
    pub state_reason: Option<Seq<char>>,
}

impl View for ChatToolValidation {
    type V = WireValidationView;

    open spec fn view(&self) -> WireValidationView {
        WireValidationView {
            status: self.status@,
            reasoning: opt_text(self.reasoning),
            risk: self.risk@,
        }
    }
}

impl View for ChatRunningTool {
    type V = WireToolView;

    open spec fn view(&self) -> WireToolView {
        WireToolView {
            name: self.name@,
            args: opt_text(self.args),
            started_at: self.started_at@,
            validation: match self.validation {
                Some(v) => Some(v@),
                None => None,
            },
        }
    }
}

impl View for ChatPin {
    type V = PinView;

    open spec fn view(&self) -> PinView {
        PinView {
            slot: self.slot@,
            summary: self.summary@,
            affected_services: texts(self.affected_services@),
        }
    }
}

impl View for ChatStaffPing {
    type V = StaffPingView;

    open spec fn view(&self) -> StaffPingView {
        StaffPingView {
            id: self.id@,
            category: self.category@,
            message: self.message@,
            resolved: self.resolved,
            created_at: self.created_at@,
        }
    }
}

/// What each executing tool holds.
pub open spec fn wire_tools_view(v: Seq<ChatRunningTool>) -> Seq<WireToolView> {
    v.map_values(|t: ChatRunningTool| t@)
}

/// What each pin holds.
pub open spec fn pins_view(v: Seq<ChatPin>) -> Seq<PinView> {
    v.map_values(|p: ChatPin| p@)
}

/// What each call for attention holds.
pub open spec fn pings_view(v: Seq<ChatStaffPing>) -> Seq<StaffPingView> {
    v.map_values(|p: ChatStaffPing| p@)
}

impl View for ChatStreamEvent {
    type V = StreamEventView;

    open spec fn view(&self) -> StreamEventView {
        StreamEventView {
            kind: self.kind@,
            session_id: opt_text(self.session_id),
            role: opt_text(self.role),
            content: opt_text(self.content),
            state: opt_text(self.state),
            metadata: opt_view(self.metadata),
            running_tools: match self.running_tools {
                Some(v) => Some(wire_tools_view(v@)),
                None => None,
            },
            pins: match self.pins {
                Some(v) => Some(pins_view(v@)),
                None => None,
            },
            staff_pings: match self.staff_pings {
                Some(v) => Some(pings_view(v@)),
                None => None,
            },
            status_message: opt_text(self.status_message),
            state_reason: opt_text(self.state_reason),
        }
    }
}

/// An event of a kind that holds nothing else.
pub open spec fn bare_event(kind: Seq<char>) -> StreamEventView {
    StreamEventView {
        kind,
        session_id: None,
        role: None,
        content: None,
        state: None,
        metadata: None,
        running_tools: None,
        pins: None,
        staff_pings: None,
        status_message: None,
        state_reason: None,
    }
}

impl ChatStreamEvent {
    /// An event of a kind that holds nothing else.
    pub fn bare(kind: &str) -> (r: ChatStreamEvent)
        ensures
            r@ == bare_event(kind@),
    {
        ChatStreamEvent {
            kind: kind.to_owned(),
            session_id: None,
            role: None,
            content: None,
            state: None,
            metadata: None,
            running_tools: None,
            pins: None,
            staff_pings: None,
            status_message: None,
            state_reason: None,
        }
    }
}

impl Default for ChatStreamEvent {
    fn default() -> (r: ChatStreamEvent)
        ensures
            r@ == bare_event(""@),
    {
        ChatStreamEvent::bare("")
    }
}

impl Default for ChatRunningTool {
    fn default() -> (r: ChatRunningTool)
        ensures
            r@ == (WireToolView { name: ""@, args: None, started_at: ""@, validation: None }),
    {
        ChatRunningTool {
            name: "".to_owned(),
            args: None,
            started_at: "".to_owned(),
            validation: None,
        }
    }
}

/// An event of a kind holds its kind, and nothing else.
pub proof fn bare_events_hold_nothing_else(kind: Seq<char>)
    ensures
        bare_event(kind).kind == kind,
        bare_event(kind).session_id is None,
        bare_event(kind).role is None,
        bare_event(kind).content is None,
        bare_event(kind).state is None,
        bare_event(kind).metadata is None,
        bare_event(kind).running_tools is None,
        bare_event(kind).pins is None,
        bare_event(kind).staff_pings is None,
        bare_event(kind).status_message is None,
        bare_event(kind).state_reason is None,
{
}

/// What is seen of a streamed event are its fields, each as it is.
pub proof fn streamed_events_are_seen_whole(e: ChatStreamEvent)
    ensures
        e@.kind == e.kind@,
        e.session_id is None ==> e@.session_id is None,
        e.session_id matches Some(s) ==> e@.session_id == Some(s@),
        e.role is None ==> e@.role is None,
        e.role matches Some(s) ==> e@.role == Some(s@),
        e.content is None ==> e@.content is None,
        e.content matches Some(s) ==> e@.content == Some(s@),
        e.state is None ==> e@.state is None,
        e.state matches Some(s) ==> e@.state == Some(s@),
        e.metadata is None ==> e@.metadata is None,
        e.metadata matches Some(m) ==> e@.metadata == Some(m.view()),
        e.running_tools is None ==> e@.running_tools is None,
        e.running_tools matches Some(v) ==> e@.running_tools == Some(wire_tools_view(v@)),
        e.pins is None ==> e@.pins is None,
        e.pins matches Some(v) ==> e@.pins == Some(pins_view(v@)),
        e.staff_pings is None ==> e@.staff_pings is None,
        e.staff_pings matches Some(v) ==> e@.staff_pings == Some(pings_view(v@)),
        e.status_message is None ==> e@.status_message is None,
        e.status_message matches Some(s) ==> e@.status_message == Some(s@),
        e.state_reason is None ==> e@.state_reason is None,
        e.state_reason matches Some(s) ==> e@.state_reason == Some(s@),
{
}

/// What is seen of a streamed tool, a pin and a call for attention are their
/// fields, each as it is.
pub proof fn streamed_parts_are_seen_whole(t: ChatRunningTool, p: ChatPin, c: ChatStaffPing)
    ensures
        t@.name == t.name@,
        t.args is None ==> t@.args is None,
        t.args matches Some(a) ==> t@.args == Some(a@),
        t@.started_at == t.started_at@,
        t.validation is None ==> t@.validation is None,
        t.validation matches Some(v) ==> {
            &&& t@.validation matches Some(w)
            &&& w.status == v.status@
            &&& w.risk == v.risk@
            &&& v.reasoning is None ==> w.reasoning is None
            &&& v.reasoning matches Some(x) ==> w.reasoning == Some(x@)
        },
        p@.slot == p.slot@,
        p@.summary == p.summary@,
        p@.affected_services.len() == p.affected_services@.len(),
        forall|i: int|
            0 <= i < p.affected_services@.len() ==> #[trigger] p@.affected_services[i]
                == p.affected_services@[i]@,
        c@.id == c.id@ && c@.category == c.category@ && c@.message == c.message@,
        c@.resolved == c.resolved && c@.created_at == c.created_at@,
{
}

/// What is seen of streamed tools, pins and calls for attention is seen one by
/// one, in their order.
pub proof fn streamed_lists_are_seen_in_order(
    tools: Seq<ChatRunningTool>,
    pins: Seq<ChatPin>,
    pings: Seq<ChatStaffPing>,
)
    ensures
        wire_tools_view(tools).len() == tools.len(),
        forall|i: int| 0 <= i < tools.len() ==> #[trigger] wire_tools_view(tools)[i] == tools[i]@,
        pins_view(pins).len() == pins.len(),
        forall|i: int| 0 <= i < pins.len() ==> #[trigger] pins_view(pins)[i] == pins[i]@,
        pings_view(pings).len() == pings.len(),
        forall|i: int| 0 <= i < pings.len() ==> #[trigger] pings_view(pings)[i] == pings[i]@,
{
}

}
