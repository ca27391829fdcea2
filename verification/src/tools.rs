//! The agent's own tools: pinning, phase changes and naming of the session.
//!
//! A tool decides what is to be stored and announced, and what the agent is
//! answered; its caller stores, and reports back where the answer depends on
//! it.

use vstd::prelude::*;
use vstd::string::StringExecFns;
use vstd::utf8::encode_utf8;

use crate::convert::{pin_in, pin_of, string_items};
use crate::json::{integers_only, nesting, nothing_embedded, EMBEDDED_KEY};
use crate::json::{json_exact, json_parse, json_text, obj_get, obj_of, obj_of_get, object_is_exact};
use crate::json::{object_of, opt_view, pairs_view, parsed, print, values_nesting_bound};
use crate::json::{Json, JsonView};
use crate::model::{emit_state_change, events_view, message_event, reason_data, reason_json};
use crate::model::{state_change_events, ChatEvent, ChatMessageView};
use crate::state::StateModel;
use crate::text::{chars_of, join, joined, lowercased, opt_text, text_eq, text_from, texts};
use crate::text::to_lowercase;
use crate::time::Timestamp;
use crate::validation::ToolRisk;
use crate::wire::PinView;

verus! {

/// What a tool call hands back to the agent.
#[derive(Debug, Clone)]
pub enum ToolOutput {
    /// The call did its work.
    Text(String),
    /// The call did not, for a reason that the agent is told.
    Fail(String),
}

impl ToolOutput {
    /// The answer of a call that did its work.
    pub open spec fn is_text(self, text: Seq<char>) -> bool {
        self matches ToolOutput::Text(t) && t@ == text
    }

    /// The answer of a call that did not.
    pub open spec fn is_fail(self, reason: Seq<char>) -> bool {
        self matches ToolOutput::Fail(t) && t@ == reason
    }
}

/// A call that could not be made.
#[derive(Debug, Clone)]
pub enum ToolError {
    MissingArguments(String),
}

/// The arguments of a call that needs some.
pub fn required_args(args: Option<&str>) -> (r: Result<&str, ToolError>)
    ensures
        match args {
            Some(s) => r == Ok::<&str, ToolError>(s),
            None => r matches Err(ToolError::MissingArguments(m)) && m@ == "no arguments"@,
        },
{
    match args {
        Some(s) => Ok(s),
        None => Err(ToolError::MissingArguments("no arguments".to_owned())),
    }
}

// ── Pinning ──────────────────────────────────────────────────────────

/// A named slot that the agent can pin to.
#[derive(Debug, Clone, Copy)]
pub struct PinSlot {
    pub name: &'static str,
    pub description: &'static str,
}

/// The slots of the pin tool.
#[derive(Debug, Clone)]
pub struct PinConfig {
    pub slots: Vec<PinSlot>,
    /// Accept slot names outside `slots`.
    pub allow_arbitrary: bool,
}

/// The name and the description of each slot.
pub open spec fn slots_view(slots: Seq<PinSlot>) -> Seq<(Seq<char>, Seq<char>)> {
    slots.map_values(|s: PinSlot| (s.name@, s.description@))
}

/// The name of each slot.
pub open spec fn slot_names_of(slots: Seq<PinSlot>) -> Seq<Seq<char>> {
    slots.map_values(|s: PinSlot| s.name@)
}

/// The lines that describe slots.
pub open spec fn slot_lines(slots: Seq<PinSlot>) -> Seq<char>
    decreases slots.len(),
{
    if slots.len() == 0 {
        Seq::empty()
    } else {
        slot_lines(slots.drop_last()) + "- \""@ + slots.last().name@ + "\": "@
            + slots.last().description@ + "\n"@
    }
}

impl PinConfig {
    /// The slots of a session that finds and repairs faults.
    pub fn healer() -> (r: PinConfig)
        ensures
            !r.allow_arbitrary,
            slots_view(r.slots@) == seq![
                (
                    "diagnosis"@,
                    "Pin once you identify the root cause. Include affected_services."@,
                ),
                ("remediation"@, "Pin your remediation plan before applying fixes."@),
                (
                    "final_report"@,
                    "Pin at the end summarizing what was done, what worked, and any remaining issues."@,
                ),
            ],
    {
        let mut slots: Vec<PinSlot> = Vec::new();
        slots.push(
            PinSlot {
                name: "diagnosis",
                description: "Pin once you identify the root cause. Include affected_services.",
            },
        );
        slots.push(
            PinSlot {
                name: "remediation",
                description: "Pin your remediation plan before applying fixes.",
            },
        );
        slots.push(
            PinSlot {
                name: "final_report",
                description: "Pin at the end summarizing what was done, what worked, and any remaining issues.",
            },
        );
        PinConfig { slots, allow_arbitrary: false }
    }

    /// The slots of a chat session.
    pub fn chat() -> (r: PinConfig)
        ensures
            r.allow_arbitrary,
            slots_view(r.slots@) == seq![
                ("notes"@, "Pin durable findings or context worth keeping visible."@),
                ("plan"@, "Pin your working plan before making changes."@),
                ("summary"@, "Pin a summary of what was accomplished."@),
            ],
    {
        let mut slots: Vec<PinSlot> = Vec::new();
        slots.push(
            PinSlot {
                name: "notes",
                description: "Pin durable findings or context worth keeping visible.",
            },
        );
        slots.push(
            PinSlot {
                name: "plan",
                description: "Pin your working plan before making changes.",
            },
        );
        slots.push(
            PinSlot { name: "summary", description: "Pin a summary of what was accomplished." },
        );
        PinConfig { slots, allow_arbitrary: true }
    }

    /// The names of the slots, in order.
    pub fn slot_names(&self) -> (r: Vec<String>)
        ensures
            texts(r@) == slot_names_of(self.slots@),
    {
        let mut out: Vec<String> = Vec::new();
        let mut i: usize = 0;
        while i < self.slots.len()
            invariant
                i <= self.slots@.len(),
                texts(out@) == slot_names_of(self.slots@).take(i as int),
            decreases self.slots.len() - i,
        {
            let ghost before = out@;
            out.push(self.slots[i].name.to_owned());
            i = i + 1;
            proof {
                let all = slot_names_of(self.slots@);
                assert(texts(out@) =~= texts(before).push(all[i - 1]));
                assert(all.take(i as int) =~= all.take(i - 1).push(all[i - 1]));
            }
        }
        proof {
            assert(slot_names_of(self.slots@).take(i as int) =~= slot_names_of(self.slots@));
        }
        out
    }

    /// Whether a slot is among the configured ones.
    pub fn knows(&self, slot: &str) -> (r: bool)
        ensures
            r == slot_names_of(self.slots@).contains(slot@),
    {
        let mut i: usize = 0;
        while i < self.slots.len()
            invariant
                i <= self.slots@.len(),
                forall|k: int| 0 <= k < i ==> slot_names_of(self.slots@)[k] != slot@,
            decreases self.slots.len() - i,
        {
            if text_eq(self.slots[i].name, slot) {
                proof {
                    assert(slot_names_of(self.slots@)[i as int] == slot@);
                }
                return true;
            }
            i = i + 1;
        }
        false
    }

    /// The description of the pin tool.
    pub fn description(&self) -> (r: String)
        ensures
            r@ == "Pin important information to the session. Available slots:\n"@ + slot_lines(
                self.slots@,
            ) + "All pins are displayed to the user and persisted across restarts."@,
    {
        let mut d = "Pin important information to the session. Available slots:\n".to_owned();
        let ghost head = d@;
        let mut i: usize = 0;
        proof {
            assert(self.slots@.take(0) =~= Seq::<PinSlot>::empty());
            assert(d@ =~= head + slot_lines(self.slots@.take(0)));
        }
        while i < self.slots.len()
            invariant
                i <= self.slots@.len(),
                d@ == head + slot_lines(self.slots@.take(i as int)),
            decreases self.slots.len() - i,
        {
            d.append("- \"");
            d.append(self.slots[i].name);
            d.append("\": ");
            d.append(self.slots[i].description);
            d.append("\n");
            i = i + 1;
            proof {
                let s = self.slots@;
                assert(s.take(i as int).drop_last() =~= s.take(i - 1));
                assert(d@ =~= head + slot_lines(s.take(i as int)));
            }
        }
        proof {
            assert(self.slots@.take(i as int) =~= self.slots@);
        }
        d.append("All pins are displayed to the user and persisted across restarts.");
        d
    }
}

/// Arguments of the pin tool.
#[derive(Debug, Clone)]
pub struct PinParams {
    /// Which slot to pin to.
    pub slot: String,
    /// The content to pin.
    pub summary: String,
    /// Affected services or entities.
    pub affected_services: Vec<String>,
}

/// A message to be stored in a session.
#[derive(Debug)]
pub struct NewMessage {
    pub role: String,
    pub content: String,
    pub metadata: Option<Json>,
}

impl NewMessage {
    /// What the message holds.
    pub open spec fn holds(
        self,
        role: Seq<char>,
        content: Seq<char>,
        metadata: Option<JsonView>,
    ) -> bool {
        &&& self.role@ == role
        &&& self.content@ == content
        &&& opt_view(self.metadata) == metadata
    }
}

/// What a call of the pin tool comes to.
#[derive(Debug)]
pub struct PinEffect {
    /// The message to be stored.
    pub message: Option<NewMessage>,
    /// The events to be sent behind it.
    pub events: Vec<ChatEvent>,
    pub output: ToolOutput,
}

/// A list of strings as JSON.
pub open spec fn json_strings(v: Seq<Seq<char>>) -> JsonView {
    JsonView::Array(v.map_values(|s: Seq<char>| JsonView::String(s)))
}

/// A list of strings as JSON.
pub fn strings_json(v: &Vec<String>) -> (r: Json)
    ensures
        r.view() == json_strings(texts(v@)),
{
    let mut out: Vec<Json> = Vec::new();
    let mut i: usize = 0;
    while i < v.len()
        invariant
            i <= v@.len(),
            out@.len() == i,
            forall|k: int| 0 <= k < i ==> (#[trigger] out@[k]).view() == JsonView::String(v@[k]@),
        decreases v.len() - i,
    {
        out.push(Json::text(v[i].as_str()));
        i = i + 1;
    }
    let r = Json::Array(out);
    proof {
        assert(r.view()->Array_0 =~= json_strings(texts(v@))->Array_0);
    }
    r
}

/// The members of the message that records a pin.
pub open spec fn pin_members(
    slot: Seq<char>,
    summary: Seq<char>,
    services: Seq<Seq<char>>,
) -> Seq<(Seq<char>, JsonView)> {
    seq![
        ("slot"@, JsonView::String(slot)),
        ("summary"@, JsonView::String(summary)),
        ("affected_services"@, json_strings(services)),
    ]
}

/// The content of the message that records a pin.
pub open spec fn pin_text(
    slot: Seq<char>,
    summary: Seq<char>,
    services: Seq<Seq<char>>,
) -> Seq<char> {
    json_text(JsonView::Object(obj_of(pin_members(slot, summary, services))))
}

/// The strings among strings are all of them.
proof fn strings_are_items(v: Seq<Seq<char>>)
    ensures
        string_items(json_strings(v)->Array_0) == v,
    decreases v.len(),
{
    let a = json_strings(v)->Array_0;
    if v.len() == 0 {
        assert(string_items(a) =~= v);
    } else {
        strings_are_items(v.drop_last());
        assert(a.drop_last() =~= json_strings(v.drop_last())->Array_0);
        assert(v =~= v.drop_last().push(v.last()));
    }
}

/// What records a pin describes that pin.
pub proof fn recorded_pin_is_read(
    slot: Seq<char>,
    summary: Seq<char>,
    services: Seq<Seq<char>>,
)
    ensures
        pin_of(JsonView::Object(obj_of(pin_members(slot, summary, services)))) == Some(
            PinView { slot, summary, affected_services: services },
        ),
        json_exact(JsonView::Object(obj_of(pin_members(slot, summary, services)))),
{
    let pairs = pin_members(slot, summary, services);
    reveal_strlit("slot");
    reveal_strlit("summary");
    reveal_strlit("affected_services");
    assert("slot"@.len() == 4 && "summary"@.len() == 7 && "affected_services"@.len() == 17);
    obj_of_get(pairs, "slot"@);
    obj_of_get(pairs, "summary"@);
    obj_of_get(pairs, "affected_services"@);
    assert(pairs.drop_last().drop_last() =~= seq![pairs[0]]);
    reveal_with_fuel(obj_get, 4);
    strings_are_items(services);
    let items = json_strings(services)->Array_0;
    values_nesting_bound(items, 0);
    assert(nesting(json_strings(services)) == 1);
    assert forall|i: int| 0 <= i < items.len() implies integers_only(#[trigger] items[i])
        && nothing_embedded(items[i]) by {
    }
    assert(integers_only(json_strings(services)));
    assert(nothing_embedded(json_strings(services)));
    reveal_strlit("$serde_json::private::RawValue");
    assert(EMBEDDED_KEY@.len() == 30);
    object_is_exact(pairs);
}

/// The metadata of the message that records a pin.
pub open spec fn pin_data(
    slot: Seq<char>,
    summary: Seq<char>,
    services: Seq<Seq<char>>,
) -> JsonView {
    JsonView::Object(
        obj_of(
            seq![
                (
                    "pin_"@ + slot,
                    JsonView::Object(
                        obj_of(
                            seq![
                                ("summary"@, JsonView::String(summary)),
                                ("affected_services"@, json_strings(services)),
                            ],
                        ),
                    ),
                ),
            ],
        ),
    )
}

/// Pins information to the session.
#[derive(Debug, Clone)]
pub struct PinTool {
    pub cfg: PinConfig,
}

impl PinTool {
    /// The tool with its risk.
    pub fn new_with_risk(cfg: PinConfig) -> (r: (PinTool, ToolRisk))
        ensures
            r == (PinTool { cfg }, ToolRisk::SessionLocal),
    {
        (PinTool { cfg }, ToolRisk::SessionLocal)
    }

    /// Whether the tool pins to a slot.
    pub open spec fn accepts(self, slot: Seq<char>) -> bool {
        self.cfg.allow_arbitrary || slot_names_of(self.cfg.slots@).contains(slot)
    }

    /// Pins to a slot, or names the slots that there are. The message that
    /// records a pin reads as that pin.
    pub fn invoke(&self, params: PinParams, now: Timestamp) -> (r: PinEffect)
        ensures
            if self.accepts(params.slot@) {
                let services = texts(params.affected_services@);
                let content = pin_text(params.slot@, params.summary@, services);
                let data = pin_data(params.slot@, params.summary@, services);
                &&& r.message matches Some(m) && m.holds("pin"@, content, Some(data))
                &&& events_view(r.events@) == seq![
                    message_event("pin"@, content, Some(data), now),
                ]
                &&& r.output.is_text(
                    "Pinned to '"@ + params.slot@ + "': "@ + params.summary@,
                )
                &&& forall|msg: ChatMessageView|
                    msg.role == "pin"@ && msg.content == content ==> #[trigger] pin_in(msg)
                        == Some(
                        PinView {
                            slot: params.slot@,
                            summary: params.summary@,
                            affected_services: services,
                        },
                    )
            } else {
                &&& r.message is None
                &&& r.events@.len() == 0
                &&& r.output.is_text(
                    "Invalid slot '"@ + params.slot@ + "'. Valid slots: "@ + joined(
                        slot_names_of(self.cfg.slots@),
                        ", "@,
                    ),
                )
            },
    {
        if !self.cfg.allow_arbitrary && !self.cfg.knows(params.slot.as_str()) {
            let mut text = "Invalid slot '".to_owned();
            text.append(params.slot.as_str());
            text.append("'. Valid slots: ");
            text.append(join(self.cfg.slot_names().as_slice(), ", ").as_str());
            return PinEffect {
                message: None,
                events: Vec::new(),
                output: ToolOutput::Text(text),
            };
        }
        let content = Self::content(&params);
        let data = Self::data(&params);
        let mut events: Vec<ChatEvent> = Vec::new();
        events.push(
            ChatEvent::Message {
                role: "pin".to_owned(),
                content: content.clone(),
                metadata: Some(data.clone()),
                created_at: now,
            },
        );
        proof {
            recorded_pin_is_read(
                params.slot@,
                params.summary@,
                texts(params.affected_services@),
            );
        }
        let mut text = "Pinned to '".to_owned();
        text.append(params.slot.as_str());
        text.append("': ");
        text.append(params.summary.as_str());
        proof {
            assert(events_view(events@) =~= seq![
                message_event("pin"@, content@, Some(data.view()), now),
            ]);
        }
        PinEffect {
            message: Some(NewMessage { role: "pin".to_owned(), content, metadata: Some(data) }),
            events,
            output: ToolOutput::Text(text),
        }
    }

    /// The content of the message that records a pin.
    fn content(params: &PinParams) -> (r: String)
        ensures
            r@ == pin_text(params.slot@, params.summary@, texts(params.affected_services@)),
            json_parse(encode_utf8(r@)) == parsed(
                JsonView::Object(
                    obj_of(
                        pin_members(
                            params.slot@,
                            params.summary@,
                            texts(params.affected_services@),
                        ),
                    ),
                ),
            ),
    {
        let mut pairs: Vec<(String, Json)> = Vec::new();
        pairs.push(("slot".to_owned(), Json::text(params.slot.as_str())));
        pairs.push(("summary".to_owned(), Json::text(params.summary.as_str())));
        pairs.push(("affected_services".to_owned(), strings_json(&params.affected_services)));
        proof {
            let services = texts(params.affected_services@);
            assert(pairs_view(pairs@) =~= pin_members(params.slot@, params.summary@, services));
            recorded_pin_is_read(params.slot@, params.summary@, services);
        }
        print(&Json::Object(object_of(pairs)))
    }

    /// The metadata of the message that records a pin.
    fn data(params: &PinParams) -> (r: Json)
        ensures
            r.view() == pin_data(params.slot@, params.summary@, texts(params.affected_services@)),
    {
        let mut inner: Vec<(String, Json)> = Vec::new();
        inner.push(("summary".to_owned(), Json::text(params.summary.as_str())));
        inner.push(("affected_services".to_owned(), strings_json(&params.affected_services)));
        proof {
            assert(pairs_view(inner@) =~= seq![
                ("summary"@, JsonView::String(params.summary@)),
                ("affected_services"@, json_strings(texts(params.affected_services@))),
            ]);
        }
        let mut key = "pin_".to_owned();
        key.append(params.slot.as_str());
        let mut pairs: Vec<(String, Json)> = Vec::new();
        let pin = Json::Object(object_of(inner));
        pairs.push((key, pin));
        proof {
            assert(pairs_view(pairs@) =~= seq![("pin_"@ + params.slot@, pin.view())]);
        }
        Json::Object(object_of(pairs))
    }
}

// ── Phase changes ────────────────────────────────────────────────────

/// Arguments of the phase tool.
#[derive(Debug, Clone)]
pub struct SetPhaseParams {
    /// Phase to move to.
    pub phase: String,
    /// Why.
    pub reason: String,
}

/// What a call of the phase tool asks for.
#[derive(Debug)]
pub enum PhaseStep {
    /// Nothing: the agent is answered right away.
    Refused(ToolOutput),
    /// A state change. A gated one waits for a human's approval.
    Transition { state: String, terminal: bool, data: Json, gated: bool },
}

/// Phase changes by the agent, along the states of a domain.
///
/// Where changes are not approved by themselves and the agent asks for the
/// gated phase, the session moves to the approval state of the domain instead,
/// and its loop is told to stop the agent.
pub struct SetPhaseTool<M: StateModel> {
    pub model: M,
    pub auto_approve: bool,
    /// Phase that needs approval, unless changes are approved by themselves.
    pub approval_gated_phase: Option<String>,
    pub valid_phases: String,
}

impl<M: StateModel> SetPhaseTool<M> {
    /// The tool with its risk.
    pub fn new_with_risk(
        model: M,
        auto_approve: bool,
        approval_gated_phase: Option<String>,
        valid_phases: &Vec<String>,
    ) -> (r: (SetPhaseTool<M>, ToolRisk))
        ensures
            r.0.model == model,
            r.0.auto_approve == auto_approve,
            r.0.approval_gated_phase == approval_gated_phase,
            r.0.valid_phases@ == joined(texts(valid_phases@), ", "@),
            r.1 == ToolRisk::Mutating,
    {
        (
            SetPhaseTool {
                model,
                auto_approve,
                approval_gated_phase,
                valid_phases: join(valid_phases.as_slice(), ", "),
            },
            ToolRisk::Mutating,
        )
    }

    /// Whether a change to a phase waits for a human's approval.
    pub open spec fn gates(self, phase: Seq<char>) -> bool {
        !self.auto_approve && opt_text(self.approval_gated_phase) == Some(phase)
    }

    /// What a call asks for.
    pub fn invoke(&self, params: &SetPhaseParams) -> (r: PhaseStep)
        ensures
            match self.model.allowed(params.phase@) {
                None => r matches PhaseStep::Refused(out) && out.is_text(
                    "Invalid phase '"@ + params.phase@ + "'. Valid: "@ + self.valid_phases@,
                ),
                Some(new_state) => {
                    &&& r matches PhaseStep::Transition { state, terminal, data, gated }
                    &&& gated == self.gates(params.phase@)
                    &&& state@ == if gated {
                        self.model.approval_name()
                    } else {
                        new_state
                    }
                    &&& terminal == (!gated && self.model.core_of(new_state).terminal())
                    &&& data.view() == reason_data(params.reason@)
                },
            },
    {
        let new_state = match self.model.agent_allowed(params.phase.as_str()) {
            Some(s) => s,
            None => {
                let mut text = "Invalid phase '".to_owned();
                text.append(params.phase.as_str());
                text.append("'. Valid: ");
                text.append(self.valid_phases.as_str());
                return PhaseStep::Refused(ToolOutput::Text(text));
            },
        };
        let data = reason_json(params.reason.as_str());
        if !self.auto_approve && self.is_gated_phase(params.phase.as_str()) {
            return PhaseStep::Transition {
                state: self.model.approval_state().to_owned(),
                terminal: false,
                data,
                gated: true,
            };
        }
        let terminal = self.model.is_terminal(new_state.as_str());
        PhaseStep::Transition { state: new_state, terminal, data, gated: false }
    }

    /// Whether a phase is the gated one.
    fn is_gated_phase(&self, phase: &str) -> (r: bool)
        ensures
            r == (opt_text(self.approval_gated_phase) == Some(phase@)),
    {
        match &self.approval_gated_phase {
            Some(p) => text_eq(p.as_str(), phase),
            None => false,
        }
    }

    /// Answers a call whose state change was stored, or not. Announces a
    /// change that was stored. Says whether the session loop is to stop the
    /// agent.
    pub fn answer(
        &self,
        params: &SetPhaseParams,
        state: &str,
        data: &Json,
        gated: bool,
        stored: Result<(), String>,
        now: Timestamp,
        events: &mut Vec<ChatEvent>,
    ) -> (r: (ToolOutput, bool))
        ensures
            match stored {
                Ok(_) => {
                    &&& events_view(final(events)@) == events_view(old(events)@)
                        + state_change_events(state@, data.view(), now)
                    &&& r.0.is_text(
                        if gated {
                            "Session paused — awaiting approval before continuing."@
                        } else {
                            "Phase set to: "@ + params.phase@
                        },
                    )
                    &&& r.1 == gated
                },
                Err(e) => {
                    &&& final(events)@ == old(events)@
                    &&& r.0.is_text(
                        if gated {
                            "Error requesting approval: "@ + e@
                        } else {
                            "Error setting phase: "@ + e@
                        },
                    )
                    &&& !r.1
                },
            },
    {
        match stored {
            Ok(_) => {
                emit_state_change(events, state, data, now);
                let text = if gated {
                    "Session paused — awaiting approval before continuing.".to_owned()
                } else {
                    let mut s = "Phase set to: ".to_owned();
                    s.append(params.phase.as_str());
                    s
                };
                (ToolOutput::Text(text), gated)
            },
            Err(e) => {
                let mut text = if gated {
                    "Error requesting approval: ".to_owned()
                } else {
                    "Error setting phase: ".to_owned()
                };
                text.append(e.as_str());
                (ToolOutput::Text(text), false)
            },
        }
    }
}

// ── Naming the session ───────────────────────────────────────────────

/// The length of a session's name.
pub const LABEL_CHARS: usize = 120;

/// What is kept of a name.
pub open spec fn label_of(name: Seq<char>) -> Seq<char> {
    if name.len() <= LABEL_CHARS {
        name
    } else {
        name.take(LABEL_CHARS as int)
    }
}

/// Names the session.
#[derive(Debug, Clone, Copy)]
pub struct NameSessionTool;

impl NameSessionTool {
    /// The tool with its risk.
    pub fn new_with_risk() -> (r: (NameSessionTool, ToolRisk))
        ensures
            r == (NameSessionTool, ToolRisk::SessionLocal),
    {
        (NameSessionTool, ToolRisk::SessionLocal)
    }

    /// The description of the tool.
    pub fn description(&self) -> (r: &'static str)
        ensures
            r@ == "Give this session a short, descriptive name summarizing what it is about. Call this early — once you understand the topic."@,
    {
        "Give this session a short, descriptive name summarizing what it is about. Call this early — once you understand the topic."
    }

    /// The label that a call asks for.
    pub fn invoke(&self, name: &str) -> (r: String)
        ensures
            r@ == label_of(name@),
    {
        let chars = chars_of(name);
        if chars.len() <= LABEL_CHARS {
            return name.to_owned();
        }
        let head = vstd::slice::slice_subrange(chars.as_slice(), 0, LABEL_CHARS);
        proof {
            assert(head@ =~= name@.take(LABEL_CHARS as int));
        }
        text_from(head)
    }

    /// Answers a call whose label was stored, or not.
    pub fn answer(&self, label: &str, stored: Result<(), String>) -> (r: ToolOutput)
        ensures
            r.is_text(
                match stored {
                    Ok(_) => "Session named: "@ + label@,
                    Err(e) => "Error naming session: "@ + e@,
                },
            ),
    {
        match stored {
            Ok(_) => {
                let mut s = "Session named: ".to_owned();
                s.append(label);
                ToolOutput::Text(s)
            },
            Err(e) => {
                let mut s = "Error naming session: ".to_owned();
                s.append(e.as_str());
                ToolOutput::Text(s)
            },
        }
    }
}

// ── Tool names ───────────────────────────────────────────────────────

/// A character of a tool name, with a hyphen for a colon and an underscore
/// for a space.
pub open spec fn safe_char(c: char) -> char {
    if c == ':' {
        '-'
    } else if c == ' ' {
        '_'
    } else {
        c
    }
}

/// A tool name that every provider accepts: hyphens for colons, underscores
/// for spaces, and lower case.
pub open spec fn safe_name(name: Seq<char>) -> Seq<char> {
    lowercased(name.map_values(|c: char| safe_char(c)))
}

/// A tool under a name that every provider accepts.
#[derive(Debug, Clone)]
pub struct RenamedTool {
    pub name: String,
}

impl RenamedTool {
    /// Renames a tool, as in `Context7:query-docs` to `context7-query-docs`.
    pub fn wrap(orig_name: &str) -> (r: RenamedTool)
        ensures
            r.name@ == safe_name(orig_name@),
    {
        RenamedTool { name: to_lowercase(replace_unsafe(orig_name).as_str()) }
    }
}

/// Replaces the characters of a tool name that not every provider accepts.
pub fn replace_unsafe(name: &str) -> (r: String)
    ensures
        r@ == name@.map_values(|c: char| safe_char(c)),
{
    let chars = chars_of(name);
    let mut out = String::new();
    let mut i: usize = 0;
    while i < chars.len()
        invariant
            i <= chars@.len(),
            chars@ == name@,
            out@ == name@.take(i as int).map_values(|c: char| safe_char(c)),
        decreases chars.len() - i,
    {
        let c = chars[i];
        if c == ':' {
            out.push('-');
        } else if c == ' ' {
            out.push('_');
        } else {
            out.push(c);
        }
        i = i + 1;
        proof {
            assert(out@ =~= name@.take(i as int).map_values(|c: char| safe_char(c)));
        }
    }
    proof {
        assert(name@.take(i as int) =~= name@);
    }
    out
}

/// A name whose characters were replaced holds neither colon nor space.
pub proof fn replaced_names_are_safe(name: Seq<char>, at: int)
    requires
        0 <= at < name.len(),
    ensures
        name.map_values(|c: char| safe_char(c))[at] != ':',
        name.map_values(|c: char| safe_char(c))[at] != ' ',
{
}

/// The address of the documentation server for an access key.
pub fn context7_url(api_key: &str) -> (r: String)
    ensures
        r@ == "https://mcp.context7.com/mcp?api_key="@ + api_key@,
{
    let mut s = "https://mcp.context7.com/mcp?api_key=".to_owned();
    s.append(api_key);
    s
}

// ── What the tools do ────────────────────────────────────────────────

/// A message that is to be stored is the one that was made.
pub proof fn new_messages_hold_what_is_said(
    m: NewMessage,
    role: Seq<char>,
    content: Seq<char>,
    metadata: Option<JsonView>,
)
    requires
        m.holds(role, content, metadata),
    ensures
        m.role@ == role,
        m.content@ == content,
        m.metadata is None ==> metadata is None,
        m.metadata matches Some(v) ==> metadata == Some(v.view()),
{
}

/// A call that did its work is answered with a text, and one that did not with
/// a reason; what is answered is what was said.
pub proof fn answers_are_texts_or_reasons(out: ToolOutput, text: Seq<char>)
    ensures
        out.is_text(text) ==> (out matches ToolOutput::Text(t) && t@ == text),
        out.is_fail(text) ==> (out matches ToolOutput::Fail(t) && t@ == text),
        !(out.is_text(text) && out.is_fail(text)),
{
}

/// A slot can be pinned to exactly where it is configured, or any slot is
/// admitted.
pub proof fn slots_are_configured_or_free(tool: PinTool, slot: Seq<char>)
    ensures
        tool.cfg.allow_arbitrary ==> tool.accepts(slot),
        !tool.cfg.allow_arbitrary ==> (tool.accepts(slot) <==> exists|i: int|
            0 <= i < tool.cfg.slots@.len() && (#[trigger] tool.cfg.slots@[i]).name@ == slot),
{
    let names = slot_names_of(tool.cfg.slots@);
    if names.contains(slot) {
        let k = choose|k: int| 0 <= k < names.len() && names[k] == slot;
        assert(tool.cfg.slots@[k].name@ == slot);
    }
    if exists|i: int|
        0 <= i < tool.cfg.slots@.len() && (#[trigger] tool.cfg.slots@[i]).name@ == slot {
        let i = choose|i: int|
            0 <= i < tool.cfg.slots@.len() && (#[trigger] tool.cfg.slots@[i]).name@ == slot;
        assert(names[i] == slot);
    }
}

/// The slots are named in their order, each with its own name.
pub proof fn slots_are_named_in_order(slots: Seq<PinSlot>)
    ensures
        slot_names_of(slots).len() == slots.len(),
        forall|i: int|
            0 <= i < slots.len() ==> #[trigger] slot_names_of(slots)[i] == slots[i].name@,
        slots_view(slots).len() == slots.len(),
        forall|i: int|
            0 <= i < slots.len() ==> #[trigger] slots_view(slots)[i] == (
                slots[i].name@,
                slots[i].description@,
            ),
{
}

/// The slots are described one to a line, in their order, each with its name in
/// quotes and its description.
pub proof fn slots_are_described_line_by_line(slots: Seq<PinSlot>, last: PinSlot)
    ensures
        slot_lines(Seq::empty()).len() == 0,
        slot_lines(slots.push(last)) == slot_lines(slots) + ("- \""@ + last.name@ + "\": "@
            + last.description@ + "\n"@),
{
    assert(slots.push(last).drop_last() =~= slots);
    assert(slot_lines(slots.push(last)) =~= slot_lines(slots) + ("- \""@ + last.name@ + "\": "@
        + last.description@ + "\n"@));
}

/// A list of strings has them as texts, in their order.
pub proof fn string_lists_are_kept(v: Seq<Seq<char>>)
    ensures
        json_strings(v) matches JsonView::Array(a) && a.len() == v.len() && forall|i: int|
            0 <= i < v.len() ==> #[trigger] a[i] == JsonView::String(v[i]),
{
}

/// A pin is stored under the name of its slot, with its summary and its
/// services.
pub proof fn pin_data_are_stored_under_the_slot(
    slot: Seq<char>,
    summary: Seq<char>,
    services: Seq<Seq<char>>,
    key: Seq<char>,
)
    ensures
        pin_data(slot, summary, services).get("pin_"@ + slot) matches Some(pin) && pin.get(
            "summary"@,
        ) == Some(JsonView::String(summary)) && pin.get("affected_services"@) == Some(
            json_strings(services),
        ),
        key != "pin_"@ + slot ==> pin_data(slot, summary, services).get(key) is None,
{
    let inner = seq![
        ("summary"@, JsonView::String(summary)),
        ("affected_services"@, json_strings(services)),
    ];
    reveal_strlit("summary");
    reveal_strlit("affected_services");
    assert("summary"@.len() == 7 && "affected_services"@.len() == 17);
    crate::json::obj_of_at(inner, 0);
    crate::json::obj_of_at(inner, 1);
    let pairs = seq![("pin_"@ + slot, JsonView::Object(obj_of(inner)))];
    crate::json::obj_of_at(pairs, 0);
    if key != "pin_"@ + slot {
        crate::json::obj_of_lacks(pairs, key);
    }
}

/// What records a pin is the text of data that give its slot, its summary and
/// its services.
pub proof fn pins_are_recorded_whole(
    slot: Seq<char>,
    summary: Seq<char>,
    services: Seq<Seq<char>>,
)
    ensures
        exists|v: JsonView|
            {
                &&& pin_text(slot, summary, services) == #[trigger] json_text(v)
                &&& v.get("slot"@) == Some(JsonView::String(slot))
                &&& v.get("summary"@) == Some(JsonView::String(summary))
                &&& v.get("affected_services"@) == Some(json_strings(services))
            },
{
    let pairs = pin_members(slot, summary, services);
    let v = JsonView::Object(obj_of(pairs));
    reveal_strlit("slot");
    reveal_strlit("summary");
    reveal_strlit("affected_services");
    assert("slot"@.len() == 4 && "summary"@.len() == 7 && "affected_services"@.len() == 17);
    crate::json::obj_of_at(pairs, 0);
    crate::json::obj_of_at(pairs, 1);
    crate::json::obj_of_at(pairs, 2);
    assert(pin_text(slot, summary, services) == json_text(v));
}

/// A change to a phase waits for approval exactly where it is a change to the
/// gated phase, and changes are not approved by themselves.
pub proof fn only_the_gated_phase_waits<M: StateModel>(tool: SetPhaseTool<M>, phase: Seq<char>)
    ensures
        tool.auto_approve ==> !tool.gates(phase),
        tool.approval_gated_phase is None ==> !tool.gates(phase),
        tool.approval_gated_phase matches Some(p) ==> !tool.auto_approve ==> (tool.gates(phase)
            <==> p@ == phase),
{
}

/// What is kept of a name is its beginning, of a hundred and twenty characters
/// at most; a name that is no longer is kept whole.
pub proof fn labels_are_short_beginnings(name: Seq<char>)
    ensures
        label_of(name).is_prefix_of(name),
        label_of(name).len() <= 120,
        name.len() <= 120 ==> label_of(name) == name,
        name.len() > 120 ==> label_of(name).len() == 120,
{
    assert(label_of(name) =~= name.subrange(0, label_of(name).len() as int));
}

/// Only colons and spaces of a tool name are replaced, by hyphens and
/// underscores, before the name is put in lower case.
pub proof fn names_are_replaced_character_by_character(name: Seq<char>, at: int)
    requires
        0 <= at < name.len(),
    ensures
        ({
            let replaced = name.map_values(|c: char| safe_char(c));
            &&& replaced.len() == name.len()
            &&& name[at] == ':' ==> replaced[at] == '-'
            &&& name[at] == ' ' ==> replaced[at] == '_'
            &&& name[at] != ':' && name[at] != ' ' ==> replaced[at] == name[at]
            &&& safe_name(name) == lowercased(replaced)
        }),
{
}

}
