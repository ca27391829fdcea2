//! Conversion of the live state of a session into what is streamed to its
//! client.

use vstd::prelude::*;
use vstd::utf8::encode_utf8;

use crate::ids::Uuid;
use crate::json::{clone_opt, json_parse, obj_of, object_of, pairs_view, parse, Json, JsonView};
use crate::model::{messages_view, tools_view, ChatEvent, ChatEventView, ChatMessage};
use crate::model::{ChatMessageView, RunningTool, RunningToolView};
use crate::text::{opt_text, text_before, text_eq, text_is_before, texts};
use crate::time::Timestamp;
use crate::tools::{slot_names_of, PinConfig};
use crate::validation::approval::{PendingApproval, PendingView};
use crate::validation::{risk_name, risk_to_str};
use crate::wire::{bare_event, pins_view, wire_tools_view, ChatPin, ChatRunningTool};
use crate::wire::{ChatStreamEvent, ChatToolValidation, PinView, StreamEventView, WireToolView};
use crate::wire::WireValidationView;

verus! {

// ── Running tools ────────────────────────────────────────────────────

/// A running tool as it is streamed.
pub open spec fn wire_tool(t: RunningToolView) -> WireToolView {
    WireToolView {
        name: t.name,
        args: t.args,
        started_at: t.started_at.text(false),
        validation: match t.validation {
            Some(v) => Some(
                WireValidationView { status: v.status, reasoning: v.reasoning, risk: v.risk },
            ),
            None => None,
        },
    }
}

/// The running tools as they are streamed.
pub open spec fn wire_tools(tools: Seq<RunningToolView>) -> Seq<WireToolView> {
    tools.map_values(|t: RunningToolView| wire_tool(t))
}

/// The running tools as they are streamed.
pub fn running_tools_to_wire(tools: &[RunningTool]) -> (r: Vec<ChatRunningTool>)
    ensures
        wire_tools_view(r@) == wire_tools(tools_view(tools@)),
{
    let mut out: Vec<ChatRunningTool> = Vec::new();
    let mut i: usize = 0;
    while i < tools.len()
        invariant
            i <= tools@.len(),
            out@.len() == i,
            forall|k: int| 0 <= k < i ==> (#[trigger] out@[k])@ == wire_tool(tools@[k]@),
        decreases tools.len() - i,
    {
        let t = &tools[i];
        out.push(
            ChatRunningTool {
                name: t.name.clone(),
                args: t.args.clone(),
                started_at: t.started_at.to_rfc3339(),
                validation: match &t.validation {
                    Some(v) => Some(
                        ChatToolValidation {
                            status: v.status.clone(),
                            reasoning: v.reasoning.clone(),
                            risk: v.risk.clone(),
                        },
                    ),
                    None => None,
                },
            },
        );
        i = i + 1;
    }
    proof {
        assert(wire_tools_view(out@) =~= wire_tools(tools_view(tools@)));
    }
    out
}

// ── Live events ──────────────────────────────────────────────────────

/// An optional string as JSON.
pub open spec fn json_opt(s: Option<Seq<char>>) -> JsonView {
    match s {
        Some(t) => JsonView::String(t),
        None => JsonView::Null,
    }
}

/// An optional string as JSON.
pub fn opt_json(s: &Option<String>) -> (r: Json)
    ensures
        r.view() == json_opt(opt_text(*s)),
        match s {
            Some(t) => r.view() == JsonView::String(t@),
            None => r.view() is Null,
        },
{
    match s {
        Some(t) => Json::text(t.as_str()),
        None => Json::Null,
    }
}

/// What a request for approval tells the client.
pub open spec fn request_metadata(
    approval_id: Uuid,
    tool_name: Seq<char>,
    args: Seq<char>,
    reason: Seq<char>,
    risk: Seq<char>,
    requested_at: Timestamp,
) -> JsonView {
    JsonView::Object(
        obj_of(
            seq![
                ("approval_id"@, JsonView::String(approval_id.text())),
                ("tool_name"@, JsonView::String(tool_name)),
                ("tool_args"@, JsonView::String(args)),
                ("reason"@, JsonView::String(reason)),
                ("risk"@, JsonView::String(risk)),
                ("requested_at"@, JsonView::String(requested_at.text(true))),
            ],
        ),
    )
}

/// What the end of an approval tells the client.
pub open spec fn resolved_metadata(
    approval_id: Uuid,
    decision: Seq<char>,
    by: Option<Seq<char>>,
) -> JsonView {
    JsonView::Object(
        obj_of(
            seq![
                ("approval_id"@, JsonView::String(approval_id.text())),
                ("decision"@, JsonView::String(decision)),
                ("by"@, json_opt(by)),
            ],
        ),
    )
}

/// A live event as it is streamed.
pub open spec fn stream_event(event: ChatEventView) -> StreamEventView {
    match event {
        ChatEventView::Message { role, content, metadata, .. } => StreamEventView {
            role: Some(role),
            content: Some(content),
            metadata,
            ..bare_event("message"@)
        },
        ChatEventView::RunningTools { tools } => StreamEventView {
            running_tools: Some(wire_tools(tools)),
            ..bare_event("running_tools"@)
        },
        ChatEventView::State { state, state_data } => StreamEventView {
            state: Some(state),
            state_reason: match state_data.get("reason"@) {
                Some(v) => v.as_str(),
                None => None,
            },
            ..bare_event("state"@)
        },
        ChatEventView::Status { message } => StreamEventView {
            status_message: Some(message),
            ..bare_event("status"@)
        },
        ChatEventView::Done { state } => StreamEventView {
            state: Some(state),
            ..bare_event("done"@)
        },
        ChatEventView::ApprovalRequest {
            approval_id,
            tool_name,
            args,
            reason,
            risk,
            requested_at,
        } => StreamEventView {
            metadata: Some(
                request_metadata(approval_id, tool_name, args, reason, risk, requested_at),
            ),
            ..bare_event("approval_request"@)
        },
        ChatEventView::ApprovalResolved { approval_id, decision, by } => StreamEventView {
            metadata: Some(resolved_metadata(approval_id, decision, by)),
            ..bare_event("approval_resolved"@)
        },
        ChatEventView::Idle => bare_event("idle"@),
        ChatEventView::StreamDelta { delta } => StreamEventView {
            content: Some(delta),
            ..bare_event("stream_delta"@)
        },
    }
}

/// What a request for approval tells the client.
fn request_json(
    approval_id: &Uuid,
    tool_name: &str,
    args: &str,
    reason: &str,
    risk: &str,
    requested_at: &Timestamp,
) -> (r: Json)
    ensures
        r.view() == request_metadata(
            *approval_id,
            tool_name@,
            args@,
            reason@,
            risk@,
            *requested_at,
        ),
{
    let mut pairs: Vec<(String, Json)> = Vec::new();
    pairs.push(("approval_id".to_owned(), Json::String(approval_id.to_text())));
    pairs.push(("tool_name".to_owned(), Json::text(tool_name)));
    pairs.push(("tool_args".to_owned(), Json::text(args)));
    pairs.push(("reason".to_owned(), Json::text(reason)));
    pairs.push(("risk".to_owned(), Json::text(risk)));
    pairs.push(("requested_at".to_owned(), Json::String(requested_at.to_json_text())));
    proof {
        assert(pairs_view(pairs@) =~= seq![
            ("approval_id"@, JsonView::String(approval_id.text())),
            ("tool_name"@, JsonView::String(tool_name@)),
            ("tool_args"@, JsonView::String(args@)),
            ("reason"@, JsonView::String(reason@)),
            ("risk"@, JsonView::String(risk@)),
            ("requested_at"@, JsonView::String(requested_at.text(true))),
        ]);
    }
    Json::Object(object_of(pairs))
}

/// What the end of an approval tells the client.
fn resolved_json(approval_id: &Uuid, decision: &str, by: &Option<String>) -> (r: Json)
    ensures
        r.view() == resolved_metadata(*approval_id, decision@, opt_text(*by)),
{
    let mut pairs: Vec<(String, Json)> = Vec::new();
    pairs.push(("approval_id".to_owned(), Json::String(approval_id.to_text())));
    pairs.push(("decision".to_owned(), Json::text(decision)));
    pairs.push(("by".to_owned(), opt_json(by)));
    proof {
        assert(pairs_view(pairs@) =~= seq![
            ("approval_id"@, JsonView::String(approval_id.text())),
            ("decision"@, JsonView::String(decision@)),
            ("by"@, json_opt(opt_text(*by))),
        ]);
    }
    Json::Object(object_of(pairs))
}

/// A live event as it is streamed, and whether it ends the stream.
pub fn chat_event_to_stream(event: &ChatEvent) -> (r: (ChatStreamEvent, bool))
    ensures
        r.0@ == stream_event(event@),
        r.1 == (event is Done),
        *event matches ChatEvent::ApprovalResolved { approval_id, decision, by } ==> {
            &&& r.0.metadata matches Some(m)
            &&& m.view().get("approval_id"@) == Some(JsonView::String(approval_id.text()))
            &&& m.view().get("decision"@) == Some(JsonView::String(decision@))
            &&& m.view().get("by"@) == Some(
                match by {
                    Some(who) => JsonView::String(who@),
                    None => JsonView::Null,
                },
            )
        },
{
    proof {
        if let ChatEventView::ApprovalResolved { approval_id, decision, by } = event@ {
            resolved_approvals_tell_who_decided(approval_id, decision, by);
        }
    }
    match event {
        ChatEvent::Message { role, content, metadata, .. } => (
            ChatStreamEvent {
                role: Some(role.clone()),
                content: Some(content.clone()),
                metadata: clone_opt(metadata),
                ..ChatStreamEvent::bare("message")
            },
            false,
        ),
        ChatEvent::RunningTools { tools } => (
            ChatStreamEvent {
                running_tools: Some(running_tools_to_wire(tools.as_slice())),
                ..ChatStreamEvent::bare("running_tools")
            },
            false,
        ),
        ChatEvent::State { state, state_data } => {
            let reason: Option<String> = match state_data.get("reason") {
                Some(v) => match v.as_str() {
                    Some(s) => Some(s.to_owned()),
                    None => None,
                },
                None => None,
            };
            (
                ChatStreamEvent {
                    state: Some(state.clone()),
                    state_reason: reason,
                    ..ChatStreamEvent::bare("state")
                },
                false,
            )
        },
        ChatEvent::Status { message } => (
            ChatStreamEvent {
                status_message: Some(message.clone()),
                ..ChatStreamEvent::bare("status")
            },
            false,
        ),
        ChatEvent::Done { state } => (
            ChatStreamEvent { state: Some(state.clone()), ..ChatStreamEvent::bare("done") },
            true,
        ),
        ChatEvent::ApprovalRequest {
            approval_id,
            tool_name,
            args,
            reason,
            risk,
            requested_at,
        } => (
            ChatStreamEvent {
                metadata: Some(
                    request_json(
                        approval_id,
                        tool_name.as_str(),
                        args.as_str(),
                        reason.as_str(),
                        risk.as_str(),
                        requested_at,
                    ),
                ),
                ..ChatStreamEvent::bare("approval_request")
            },
            false,
        ),
        ChatEvent::ApprovalResolved { approval_id, decision, by } => (
            ChatStreamEvent {
                metadata: Some(resolved_json(approval_id, decision.as_str(), by)),
                ..ChatStreamEvent::bare("approval_resolved")
            },
            false,
        ),
        ChatEvent::Idle => (ChatStreamEvent::bare("idle"), false),
        ChatEvent::StreamDelta { delta } => (
            ChatStreamEvent {
                content: Some(delta.clone()),
                ..ChatStreamEvent::bare("stream_delta")
            },
            false,
        ),
    }
}

/// What a pending approval tells a client that connects.
pub open spec fn pending_metadata(p: PendingView) -> JsonView {
    JsonView::Object(
        obj_of(
            seq![
                ("approval_id"@, JsonView::String(p.id.text())),
                ("tool_name"@, JsonView::String(p.tool_name)),
                ("tool_args"@, JsonView::String(p.args)),
                ("reason"@, JsonView::String(p.reason)),
                ("risk"@, JsonView::String(risk_name(p.risk))),
                ("guard_reasoning"@, json_opt(p.guard_reasoning)),
                ("requested_at"@, JsonView::String(p.requested_at.text(true))),
            ],
        ),
    )
}

/// The event of a pending approval, for a client that connects.
pub fn approval_request_event(p: &PendingApproval) -> (r: ChatStreamEvent)
    ensures
        r@ == (StreamEventView {
            metadata: Some(pending_metadata(p@)),
            ..bare_event("approval_request"@)
        }),
        r.kind@ == "approval_request"@,
        r.metadata matches Some(m) && m.view().get("approval_id"@) == Some(
            JsonView::String(p.id.text()),
        ) && m.view().get("tool_name"@) == Some(JsonView::String(p.tool_name@)),
{
    proof {
        pending_approvals_tell_what_is_asked(p@);
    }
    let mut pairs: Vec<(String, Json)> = Vec::new();
    pairs.push(("approval_id".to_owned(), Json::String(p.id.to_text())));
    pairs.push(("tool_name".to_owned(), Json::text(p.tool_name.as_str())));
    pairs.push(("tool_args".to_owned(), Json::text(p.args.as_str())));
    pairs.push(("reason".to_owned(), Json::text(p.reason.as_str())));
    pairs.push(("risk".to_owned(), Json::text(risk_to_str(p.risk))));
    pairs.push(("guard_reasoning".to_owned(), opt_json(&p.guard_reasoning)));
    pairs.push(("requested_at".to_owned(), Json::String(p.requested_at.to_json_text())));
    proof {
        assert(pairs_view(pairs@) =~= seq![
            ("approval_id"@, JsonView::String(p.id.text())),
            ("tool_name"@, JsonView::String(p.tool_name@)),
            ("tool_args"@, JsonView::String(p.args@)),
            ("reason"@, JsonView::String(p.reason@)),
            ("risk"@, JsonView::String(risk_name(p.risk))),
            ("guard_reasoning"@, json_opt(opt_text(p.guard_reasoning))),
            ("requested_at"@, JsonView::String(p.requested_at.text(true))),
        ]);
    }
    ChatStreamEvent {
        metadata: Some(Json::Object(object_of(pairs))),
        ..ChatStreamEvent::bare("approval_request")
    }
}

// ── Pins ─────────────────────────────────────────────────────────────

/// The strings among values, in order.
pub open spec fn string_items(a: Seq<JsonView>) -> Seq<Seq<char>>
    decreases a.len(),
{
    if a.len() == 0 {
        Seq::empty()
    } else {
        match a.last() {
            JsonView::String(s) => string_items(a.drop_last()).push(s),
            _ => string_items(a.drop_last()),
        }
    }
}

/// The pin that the data of a message describes.
pub open spec fn pin_of(data: JsonView) -> Option<PinView> {
    match data.get("slot"@) {
        Some(JsonView::String(slot)) => Some(
            PinView {
                slot,
                summary: match data.get("summary"@) {
                    Some(JsonView::String(s)) => s,
                    _ => Seq::empty(),
                },
                affected_services: match data.get("affected_services"@) {
                    Some(JsonView::Array(a)) => string_items(a),
                    _ => Seq::empty(),
                },
            },
        ),
        _ => None,
    }
}

/// The pin that a message records, if it records one.
pub open spec fn pin_in(msg: ChatMessageView) -> Option<PinView> {
    if msg.role == "pin"@ {
        match json_parse(encode_utf8(msg.content)) {
            Ok(data) => pin_of(data),
            Err(_) => None,
        }
    } else {
        None
    }
}

/// The latest pin to a slot.
pub open spec fn latest(msgs: Seq<ChatMessageView>, slot: Seq<char>) -> Option<PinView>
    decreases msgs.len(),
{
    if msgs.len() == 0 {
        None
    } else {
        let newest = pin_in(msgs.last());
        if newest is Some && newest->0.slot == slot {
            newest
        } else {
            latest(msgs.drop_last(), slot)
        }
    }
}

/// The latest pins to named slots, in the order of the names.
pub open spec fn configured(
    names: Seq<Seq<char>>,
    msgs: Seq<ChatMessageView>,
) -> Seq<PinView>
    decreases names.len(),
{
    if names.len() == 0 {
        Seq::empty()
    } else {
        let before = configured(names.drop_last(), msgs);
        let pin = latest(msgs, names.last());
        if pin is Some && !names.drop_last().contains(names.last()) {
            before.push(pin->0)
        } else {
            before
        }
    }
}

/// Whether pins are the latest ones to the slots outside the named ones, each
/// once, in any order.
pub open spec fn leftover(
    pins: Seq<PinView>,
    names: Seq<Seq<char>>,
    msgs: Seq<ChatMessageView>,
) -> bool {
    &&& forall|i: int, j: int|
        0 <= i < j < pins.len() ==> (#[trigger] pins[i]).slot != (#[trigger] pins[j]).slot
    &&& forall|i: int|
        0 <= i < pins.len() ==> latest(msgs, (#[trigger] pins[i]).slot) == Some(pins[i])
            && !names.contains(pins[i].slot)
    &&& forall|slot: Seq<char>|
        latest(msgs, slot) is Some && !names.contains(slot) ==> #[trigger] has_slot(pins, slot)
}

/// Whether one of the pins is to a slot.
pub open spec fn has_slot(pins: Seq<PinView>, slot: Seq<char>) -> bool {
    exists|i: int| 0 <= i < pins.len() && (#[trigger] pins[i]).slot == slot
}

/// Whether pins stand in ascending order of their slots.
pub open spec fn slots_ascend(pins: Seq<PinView>) -> bool {
    forall|i: int, j: int|
        0 <= i < j < pins.len() ==> text_before(
            (#[trigger] pins[i]).slot,
            (#[trigger] pins[j]).slot,
        )
}

/// Copies the strings among values.
fn collect_strings(a: &Vec<Json>) -> (r: Vec<String>)
    ensures
        texts(r@) == string_items(Json::views(a@)),
{
    let mut out: Vec<String> = Vec::new();
    let mut i: usize = 0;
    let ghost all = Json::views(a@);
    proof {
        assert(all.take(0) =~= Seq::<JsonView>::empty());
        assert(texts(out@) =~= Seq::<Seq<char>>::empty());
    }
    while i < a.len()
        invariant
            i <= a@.len(),
            all == Json::views(a@),
            texts(out@) == string_items(all.take(i as int)),
        decreases a.len() - i,
    {
        let ghost before = out@;
        proof {
            assert(all.take(i + 1).drop_last() =~= all.take(i as int));
            assert(all[i as int] == a@[i as int].view());
        }
        if let Some(s) = a[i].as_str() {
            out.push(s.to_owned());
            proof {
                assert(texts(out@) =~= texts(before).push(s@));
            }
        }
        i = i + 1;
    }
    proof {
        assert(all.take(i as int) =~= all);
    }
    out
}

/// The pin that the data of a message describes.
pub fn pin_from(data: &Json) -> (r: Option<ChatPin>)
    ensures
        match pin_of(data.view()) {
            Some(pin) => r matches Some(p) && p@ == pin,
            None => r is None,
        },
{
    let slot: String = match data.get("slot") {
        Some(v) => match v.as_str() {
            Some(s) => s.to_owned(),
            None => return None,
        },
        None => return None,
    };
    let summary: String = match data.get("summary") {
        Some(v) => match v.as_str() {
            Some(s) => s.to_owned(),
            None => String::new(),
        },
        None => String::new(),
    };
    let affected_services: Vec<String> = match data.get("affected_services") {
        Some(Json::Array(a)) => collect_strings(a),
        _ => Vec::new(),
    };
    proof {
        if !(data.view().get("affected_services"@) matches Some(JsonView::Array(_))) {
            assert(texts(affected_services@) =~= Seq::<Seq<char>>::empty());
        }
    }
    Some(ChatPin { slot, summary, affected_services })
}

/// The pin that a message records, if it records one.
fn read_pin(msg: &ChatMessage) -> (r: Option<ChatPin>)
    ensures
        match pin_in(msg@) {
            Some(pin) => r matches Some(p) && p@ == pin,
            None => r is None,
        },
{
    if !text_eq(msg.role.as_str(), "pin") {
        return None;
    }
    match parse(msg.content.as_str().as_bytes()) {
        Ok(data) => pin_from(&data),
        Err(_) => None,
    }
}

/// Where among pins one to a slot stands.
fn position(pins: &Vec<ChatPin>, slot: &str) -> (r: Option<usize>)
    ensures
        match r {
            Some(i) => i < pins@.len() && pins_view(pins@)[i as int].slot == slot@,
            None => !has_slot(pins_view(pins@), slot@),
        },
{
    let mut i: usize = 0;
    while i < pins.len()
        invariant
            i <= pins@.len(),
            forall|k: int| 0 <= k < i ==> (#[trigger] pins_view(pins@)[k]).slot != slot@,
        decreases pins.len() - i,
    {
        if text_eq(pins[i].slot.as_str(), slot) {
            return Some(i);
        }
        i = i + 1;
    }
    None
}

/// The latest pin to each slot that was pinned to.
fn latest_pins(messages: &[ChatMessage]) -> (r: Vec<ChatPin>)
    ensures
        leftover(pins_view(r@), Seq::empty(), messages_view(messages@)),
{
    let ghost all = messages_view(messages@);
    let ghost none = Seq::<Seq<char>>::empty();
    let mut pins: Vec<ChatPin> = Vec::new();
    let mut i: usize = 0;
    while i < messages.len()
        invariant
            i <= messages@.len(),
            all == messages_view(messages@),
            none == Seq::<Seq<char>>::empty(),
            leftover(pins_view(pins@), none, all.take(i as int)),
        decreases messages.len() - i,
    {
        let ghost before = pins_view(pins@);
        let ghost earlier = all.take(i as int);
        let ghost now = all.take(i + 1);
        proof {
            assert(now.drop_last() =~= earlier);
            assert(now.last() == messages@[i as int]@);
        }
        if let Some(pin) = read_pin(&messages[i]) {
            let ghost p = pin@;
            match position(&pins, pin.slot.as_str()) {
                Some(at) => {
                    pins.set(at, pin);
                    proof {
                        let after = pins_view(pins@);
                        assert(after =~= before.update(at as int, p));
                        assert forall|slot: Seq<char>|
                            latest(now, slot) is Some && !none.contains(
                                slot,
                            ) implies #[trigger] has_slot(after, slot) by {
                            if slot == p.slot {
                                assert(after[at as int].slot == slot);
                            } else {
                                assert(has_slot(before, slot));
                                let k = choose|k: int|
                                    0 <= k < before.len() && (#[trigger] before[k]).slot == slot;
                                assert(after[k].slot == slot);
                            }
                        }
                        assert(leftover(after, none, now));
                    }
                },
                None => {
                    pins.push(pin);
                    proof {
                        let after = pins_view(pins@);
                        assert(after =~= before.push(p));
                        assert forall|k: int|
                            0 <= k < before.len() implies (#[trigger] before[k]).slot
                            != p.slot by {
                            if before[k].slot == p.slot {
                                assert(has_slot(before, p.slot));
                            }
                        }
                        assert forall|slot: Seq<char>|
                            latest(now, slot) is Some && !none.contains(
                                slot,
                            ) implies #[trigger] has_slot(after, slot) by {
                            if slot == p.slot {
                                assert(after[before.len() as int].slot == slot);
                            } else {
                                assert(has_slot(before, slot));
                                let k = choose|k: int|
                                    0 <= k < before.len() && (#[trigger] before[k]).slot == slot;
                                assert(after[k].slot == slot);
                            }
                        }
                        assert(leftover(after, none, now));
                    }
                },
            }
        } else {
            proof {
                assert forall|slot: Seq<char>|
                    latest(now, slot) is Some && !none.contains(slot) implies #[trigger] has_slot(
                    before,
                    slot,
                ) by {
                    assert(latest(earlier, slot) is Some);
                }
            }
        }
        i = i + 1;
    }
    proof {
        assert(all.take(i as int) =~= all);
    }
    pins
}

/// Puts pins to different slots in ascending order of their slots.
fn sort_pins(pins: Vec<ChatPin>) -> (r: Vec<ChatPin>)
    requires
        forall|i: int, j: int|
            0 <= i < j < pins@.len() ==> (#[trigger] pins_view(pins@)[i]).slot != (
            #[trigger] pins_view(pins@)[j]).slot,
    ensures
        slots_ascend(pins_view(r@)),
        forall|i: int|
            0 <= i < r@.len() ==> pins_view(pins@).contains(#[trigger] pins_view(r@)[i]),
        forall|i: int|
            0 <= i < pins@.len() ==> pins_view(r@).contains(#[trigger] pins_view(pins@)[i]),
{
    let ghost all = pins_view(pins@);
    let ghost given = pins@;
    let mut out: Vec<ChatPin> = Vec::new();
    for pin in it: pins
        invariant
            it.seq() == given,
            all == pins_view(given),
            forall|i: int, j: int|
                0 <= i < j < all.len() ==> (#[trigger] all[i]).slot != (#[trigger] all[j]).slot,
            slots_ascend(pins_view(out@)),
            forall|i: int|
                0 <= i < out@.len() ==> all.take(it.index() as int).contains(
                    #[trigger] pins_view(out@)[i],
                ),
            forall|i: int|
                0 <= i < it.index() ==> pins_view(out@).contains(#[trigger] all[i]),
    {
        let ghost n = it.index() as int;
        let ghost before = pins_view(out@);
        let ghost p = pin@;
        let mut at: usize = 0;
        while at < out.len() && text_is_before(out[at].slot.as_str(), pin.slot.as_str())
            invariant
                at <= out@.len(),
                before == pins_view(out@),
                p == pin@,
                forall|k: int| 0 <= k < at ==> text_before((#[trigger] before[k]).slot, p.slot),
            decreases out.len() - at,
        {
            at = at + 1;
        }
        proof {
            assert(all[n] == p);
            assert forall|k: int| at <= k < before.len() implies text_before(
                p.slot,
                (#[trigger] before[k]).slot,
            ) by {
                let first = before[at as int];
                assert(all.take(n).contains(first));
                let m = choose|m: int| 0 <= m < all.take(n).len() && all.take(n)[m] == first;
                assert(all[m].slot != all[n].slot);
                crate::text::text_before_total(p.slot, first.slot);
                if k > at {
                    crate::text::text_before_transitive(p.slot, first.slot, before[k].slot);
                }
            }
        }
        out.insert(at, pin);
        proof {
            let after = pins_view(out@);
            assert(after =~= before.insert(at as int, p));
            assert forall|i: int, j: int| 0 <= i < j < after.len() implies text_before(
                (#[trigger] after[i]).slot,
                (#[trigger] after[j]).slot,
            ) by {
                let a = if i < at { i } else { i - 1 };
                let b = if j < at { j } else { j - 1 };
                if i != at {
                    assert(after[i] == before[a]);
                }
                if j != at {
                    assert(after[j] == before[b]);
                }
            }
            assert(all.take(n + 1) =~= all.take(n).push(p));
            assert forall|i: int| 0 <= i < after.len() implies all.take(n + 1).contains(
                #[trigger] after[i],
            ) by {
                if i == at {
                    assert(all.take(n + 1)[n] == p);
                } else {
                    let a = if i < at { i } else { i - 1 };
                    assert(after[i] == before[a]);
                    assert(all.take(n).contains(before[a]));
                    let m = choose|m: int|
                        0 <= m < all.take(n).len() && all.take(n)[m] == before[a];
                    assert(all.take(n + 1)[m] == before[a]);
                }
            }
            assert forall|i: int| 0 <= i < n + 1 implies after.contains(#[trigger] all[i]) by {
                if i == n {
                    assert(after[at as int] == p);
                } else {
                    assert(before.contains(all[i]));
                    let m = choose|m: int| 0 <= m < before.len() && before[m] == all[i];
                    let a = if m < at { m } else { m + 1 };
                    assert(after[a] == before[m]);
                }
            }
        }
    }
    proof {
        assert(all.take(all.len() as int) =~= all);
    }
    out
}

/// The latest pin to each slot, from the transcript of a session: first those
/// to the configured slots in their order, then those to other slots in the
/// order of their names.
pub fn extract_pins_from_messages(
    messages: &[ChatMessage],
    pin_config: &PinConfig,
) -> (r: Vec<ChatPin>)
    ensures
        ({
            let names = slot_names_of(pin_config.slots@);
            let msgs = messages_view(messages@);
            let first = configured(names, msgs);
            let rest = pins_view(r@).skip(first.len() as int);
            &&& pins_view(r@) == first + rest
            &&& leftover(rest, names, msgs)
            &&& slots_ascend(rest)
        }),
{
    let ghost names = slot_names_of(pin_config.slots@);
    let ghost msgs = messages_view(messages@);
    let mut pins = latest_pins(messages);
    let mut result: Vec<ChatPin> = Vec::new();
    let mut j: usize = 0;
    proof {
        assert(names.take(0) =~= Seq::<Seq<char>>::empty());
        assert(pins_view(result@) =~= Seq::<PinView>::empty());
    }
    while j < pin_config.slots.len()
        invariant
            j <= pin_config.slots@.len(),
            names == slot_names_of(pin_config.slots@),
            pins_view(result@) == configured(names.take(j as int), msgs),
            leftover(pins_view(pins@), names.take(j as int), msgs),
        decreases pin_config.slots.len() - j,
    {
        let name = pin_config.slots[j].name;
        let ghost before = pins_view(pins@);
        let ghost sofar = pins_view(result@);
        let ghost seen = names.take(j as int);
        let ghost next = names.take(j + 1);
        proof {
            assert(next.drop_last() =~= seen);
            assert(next.last() == name@);
            assert forall|s: Seq<char>| next.contains(s) <==> seen.contains(s) || s == name@ by {
                if next.contains(s) {
                    let k = choose|k: int| 0 <= k < next.len() && next[k] == s;
                    if k < j {
                        assert(seen[k] == s);
                    }
                }
                if seen.contains(s) {
                    let k = choose|k: int| 0 <= k < seen.len() && seen[k] == s;
                    assert(next[k] == s);
                }
                if s == name@ {
                    assert(next[j as int] == s);
                }
            }
        }
        match position(&pins, name) {
            Some(at) => {
                let pin = pins.remove(at);
                let ghost p = pin@;
                result.push(pin);
                proof {
                    let after = pins_view(pins@);
                    assert(p == before[at as int]);
                    assert(after =~= before.remove(at as int));
                    assert(pins_view(result@) =~= sofar.push(p));
                    assert forall|i: int| 0 <= i < after.len() implies latest(
                        msgs,
                        (#[trigger] after[i]).slot,
                    ) == Some(after[i]) && !next.contains(after[i].slot) by {
                        let a = if i < at { i } else { i + 1 };
                        assert(after[i] == before[a]);
                    }
                    assert forall|i: int, k: int| 0 <= i < k < after.len() implies (
                    #[trigger] after[i]).slot != (#[trigger] after[k]).slot by {
                        let a = if i < at { i } else { i + 1 };
                        let b = if k < at { k } else { k + 1 };
                        assert(after[i] == before[a] && after[k] == before[b]);
                    }
                    assert forall|slot: Seq<char>|
                        latest(msgs, slot) is Some && !next.contains(
                            slot,
                        ) implies #[trigger] has_slot(after, slot) by {
                        assert(has_slot(before, slot));
                        let k = choose|k: int|
                            0 <= k < before.len() && (#[trigger] before[k]).slot == slot;
                        let a = if k < at { k } else { k - 1 };
                        assert(after[a] == before[k]);
                    }
                }
            },
            None => {
                proof {
                    if latest(msgs, name@) is Some && !seen.contains(name@) {
                        assert(has_slot(before, name@));
                    }
                    assert forall|i: int| 0 <= i < before.len() implies latest(
                        msgs,
                        (#[trigger] before[i]).slot,
                    ) == Some(before[i]) && !next.contains(before[i].slot) by {
                        if before[i].slot == name@ {
                            assert(has_slot(before, name@));
                        }
                    }
                }
            },
        }
        j = j + 1;
    }
    proof {
        assert(names.take(j as int) =~= names);
    }
    let ghost found = pins_view(pins@);
    let mut rest = sort_pins(pins);
    proof {
        let sorted = pins_view(rest@);
        assert forall|i: int| 0 <= i < sorted.len() implies latest(
            msgs,
            (#[trigger] sorted[i]).slot,
        ) == Some(sorted[i]) && !names.contains(sorted[i].slot) by {
            assert(found.contains(sorted[i]));
        }
        assert forall|i: int, k: int| 0 <= i < k < sorted.len() implies (
        #[trigger] sorted[i]).slot != (#[trigger] sorted[k]).slot by {
            crate::text::text_before_irreflexive(sorted[i].slot);
        }
        assert forall|slot: Seq<char>|
            latest(msgs, slot) is Some && !names.contains(slot) implies #[trigger] has_slot(
            sorted,
            slot,
        ) by {
            assert(has_slot(found, slot));
            let k = choose|k: int| 0 <= k < found.len() && (#[trigger] found[k]).slot == slot;
            assert(sorted.contains(found[k]));
        }
    }
    let ghost first = pins_view(result@);
    let ghost sorted = pins_view(rest@);
    result.append(&mut rest);
    proof {
        assert(pins_view(result@) =~= first + sorted);
        assert(pins_view(result@).skip(first.len() as int) =~= sorted);
    }
    result
}

/// Ascending pins are determined by which pins they are.
proof fn ascending_pins_agree(a: Seq<PinView>, b: Seq<PinView>)
    requires
        slots_ascend(a),
        slots_ascend(b),
        forall|i: int| 0 <= i < a.len() ==> b.contains(#[trigger] a[i]),
        forall|i: int| 0 <= i < b.len() ==> a.contains(#[trigger] b[i]),
    ensures
        a == b,
    decreases a.len(),
{
    if a.len() == 0 {
        if b.len() > 0 {
            assert(a.contains(b[0]));
        }
        assert(a =~= b);
    } else {
        let last = a.len() - 1;
        assert(b.contains(a[last]));
        let k = choose|k: int| 0 <= k < b.len() && b[k] == a[last];
        let end = b.len() - 1;
        assert(a.contains(b[end]));
        let m = choose|m: int| 0 <= m < a.len() && a[m] == b[end];
        if k < end {
            crate::text::text_before_irreflexive(b[k].slot);
            if m < last {
                crate::text::text_before_transitive(b[k].slot, b[end].slot, a[last].slot);
            }
        }
        let x = a.drop_last();
        let y = b.drop_last();
        assert forall|i: int| 0 <= i < x.len() implies y.contains(#[trigger] x[i]) by {
            assert(b.contains(a[i]));
            let n = choose|n: int| 0 <= n < b.len() && b[n] == a[i];
            if n == end {
                crate::text::text_before_irreflexive(a[i].slot);
            }
            assert(y[n] == x[i]);
        }
        assert forall|i: int| 0 <= i < y.len() implies x.contains(#[trigger] y[i]) by {
            assert(a.contains(b[i]));
            let n = choose|n: int| 0 <= n < a.len() && a[n] == b[i];
            if n == last {
                crate::text::text_before_irreflexive(b[i].slot);
            }
            assert(x[n] == y[i]);
        }
        ascending_pins_agree(x, y);
        assert(a =~= x.push(a[last]));
        assert(b =~= y.push(b[end]));
    }
}

/// The pins to slots outside the configured ones, in the order of their names,
/// are determined by the transcript.
pub proof fn trailing_pins_are_determined(
    a: Seq<PinView>,
    b: Seq<PinView>,
    names: Seq<Seq<char>>,
    msgs: Seq<ChatMessageView>,
)
    requires
        leftover(a, names, msgs),
        leftover(b, names, msgs),
        slots_ascend(a),
        slots_ascend(b),
    ensures
        a == b,
{
    assert forall|i: int| 0 <= i < a.len() implies b.contains(#[trigger] a[i]) by {
        assert(has_slot(b, a[i].slot));
        let k = choose|k: int| 0 <= k < b.len() && (#[trigger] b[k]).slot == a[i].slot;
        assert(b[k] == a[i]);
    }
    assert forall|i: int| 0 <= i < b.len() implies a.contains(#[trigger] b[i]) by {
        assert(has_slot(a, b[i].slot));
        let k = choose|k: int| 0 <= k < a.len() && (#[trigger] a[k]).slot == b[i].slot;
        assert(a[k] == b[i]);
    }
    ascending_pins_agree(a, b);
}

/// A pin that is recorded is the latest one to its slot.
pub proof fn newest_pin_is_latest(msgs: Seq<ChatMessageView>, msg: ChatMessageView)
    requires
        pin_in(msg) is Some,
    ensures
        latest(msgs.push(msg), pin_in(msg)->0.slot) == pin_in(msg),
{
    assert(msgs.push(msg).last() == msg);
}

/// A message that records no pin leaves all pins as they are.
pub proof fn other_messages_keep_pins(
    msgs: Seq<ChatMessageView>,
    msg: ChatMessageView,
    slot: Seq<char>,
)
    requires
        pin_in(msg) is None,
    ensures
        latest(msgs.push(msg), slot) == latest(msgs, slot),
{
    assert(msgs.push(msg).drop_last() =~= msgs);
}

// ── What the client is told ──────────────────────────────────────────

proof fn approval_keys_differ()
    ensures
        "approval_id"@ != "decision"@,
        "approval_id"@ != "by"@,
        "decision"@ != "by"@,
        "approval_id"@ != "tool_name"@,
        "approval_id"@ != "tool_args"@,
        "approval_id"@ != "reason"@,
        "approval_id"@ != "risk"@,
        "approval_id"@ != "guard_reasoning"@,
        "approval_id"@ != "requested_at"@,
        "tool_name"@ != "tool_args"@,
        "tool_name"@ != "reason"@,
        "tool_name"@ != "risk"@,
        "tool_name"@ != "guard_reasoning"@,
        "tool_name"@ != "requested_at"@,
        "tool_args"@ != "reason"@,
        "tool_args"@ != "risk"@,
        "tool_args"@ != "guard_reasoning"@,
        "tool_args"@ != "requested_at"@,
        "reason"@ != "risk"@,
        "reason"@ != "guard_reasoning"@,
        "reason"@ != "requested_at"@,
        "risk"@ != "guard_reasoning"@,
        "risk"@ != "requested_at"@,
        "guard_reasoning"@ != "requested_at"@,
{
    reveal_strlit("approval_id");
    reveal_strlit("decision");
    reveal_strlit("by");
    reveal_strlit("tool_name");
    reveal_strlit("tool_args");
    reveal_strlit("reason");
    reveal_strlit("risk");
    reveal_strlit("guard_reasoning");
    reveal_strlit("requested_at");
    assert("approval_id"@.len() == 11 && "decision"@.len() == 8 && "by"@.len() == 2);
    assert("tool_name"@.len() == 9 && "tool_name"@[5] == 'n');
    assert("tool_args"@.len() == 9 && "tool_args"@[5] == 'a');
    assert("reason"@.len() == 6 && "risk"@.len() == 4 && "guard_reasoning"@.len() == 15);
    assert("requested_at"@.len() == 12);
}

/// The end of an approval is streamed with what the event says: which approval
/// it was, what was decided, and who decided, or null where nobody did.
pub proof fn resolved_approvals_tell_who_decided(
    approval_id: Uuid,
    decision: Seq<char>,
    by: Option<Seq<char>>,
)
    ensures
        ({
            let told = stream_event(
                ChatEventView::ApprovalResolved { approval_id, decision, by },
            );
            &&& told.kind == "approval_resolved"@
            &&& told.metadata matches Some(m)
            &&& m.get("approval_id"@) == Some(JsonView::String(approval_id.text()))
            &&& m.get("decision"@) == Some(JsonView::String(decision))
            &&& by is None ==> m.get("by"@) == Some(JsonView::Null)
            &&& by matches Some(who) ==> m.get("by"@) == Some(JsonView::String(who))
            &&& told.role is None && told.content is None && told.state is None
            &&& told.running_tools is None && told.pins is None && told.staff_pings is None
            &&& told.session_id is None && told.status_message is None && told.state_reason is None
        }),
{
    let pairs = seq![
        ("approval_id"@, JsonView::String(approval_id.text())),
        ("decision"@, JsonView::String(decision)),
        ("by"@, json_opt(by)),
    ];
    approval_keys_differ();
    crate::json::obj_of_at(pairs, 0);
    crate::json::obj_of_at(pairs, 1);
    crate::json::obj_of_at(pairs, 2);
}

/// Two ends of approvals that are streamed alike are decided alike, by the same
/// user.
pub proof fn resolved_approvals_are_told_apart(
    a: Uuid,
    b: Uuid,
    said: Seq<char>,
    other: Seq<char>,
    by: Option<Seq<char>>,
    who: Option<Seq<char>>,
)
    requires
        stream_event(ChatEventView::ApprovalResolved { approval_id: a, decision: said, by })
            == stream_event(
            ChatEventView::ApprovalResolved { approval_id: b, decision: other, by: who },
        ),
    ensures
        a.text() == b.text(),
        said == other,
        by == who,
{
    resolved_approvals_tell_who_decided(a, said, by);
    resolved_approvals_tell_who_decided(b, other, who);
}

/// A request for approval is streamed with what the event says: which approval
/// it is, the call, why it is asked, how much it risks, and since when.
pub proof fn requested_approvals_tell_what_is_asked(
    approval_id: Uuid,
    tool_name: Seq<char>,
    args: Seq<char>,
    reason: Seq<char>,
    risk: Seq<char>,
    requested_at: Timestamp,
)
    ensures
        ({
            let told = stream_event(
                ChatEventView::ApprovalRequest {
                    approval_id,
                    tool_name,
                    args,
                    reason,
                    risk,
                    requested_at,
                },
            );
            &&& told.kind == "approval_request"@
            &&& told.metadata matches Some(m)
            &&& m.get("approval_id"@) == Some(JsonView::String(approval_id.text()))
            &&& m.get("tool_name"@) == Some(JsonView::String(tool_name))
            &&& m.get("tool_args"@) == Some(JsonView::String(args))
            &&& m.get("reason"@) == Some(JsonView::String(reason))
            &&& m.get("risk"@) == Some(JsonView::String(risk))
            &&& m.get("requested_at"@) == Some(JsonView::String(requested_at.text(true)))
            &&& told.role is None && told.content is None && told.state is None
            &&& told.running_tools is None && told.pins is None && told.staff_pings is None
            &&& told.session_id is None && told.status_message is None && told.state_reason is None
        }),
{
    let pairs = seq![
        ("approval_id"@, JsonView::String(approval_id.text())),
        ("tool_name"@, JsonView::String(tool_name)),
        ("tool_args"@, JsonView::String(args)),
        ("reason"@, JsonView::String(reason)),
        ("risk"@, JsonView::String(risk)),
        ("requested_at"@, JsonView::String(requested_at.text(true))),
    ];
    approval_keys_differ();
    crate::json::obj_of_at(pairs, 0);
    crate::json::obj_of_at(pairs, 1);
    crate::json::obj_of_at(pairs, 2);
    crate::json::obj_of_at(pairs, 3);
    crate::json::obj_of_at(pairs, 4);
    crate::json::obj_of_at(pairs, 5);
}

/// A client that connects is told of a pending approval what it was announced
/// with, and the reasoning of the guard, or null where there is none.
pub proof fn pending_approvals_tell_what_is_asked(p: PendingView)
    ensures
        ({
            let m = pending_metadata(p);
            &&& m.get("approval_id"@) == Some(JsonView::String(p.id.text()))
            &&& m.get("tool_name"@) == Some(JsonView::String(p.tool_name))
            &&& m.get("tool_args"@) == Some(JsonView::String(p.args))
            &&& m.get("reason"@) == Some(JsonView::String(p.reason))
            &&& m.get("risk"@) == Some(JsonView::String(risk_name(p.risk)))
            &&& p.guard_reasoning is None ==> m.get("guard_reasoning"@) == Some(JsonView::Null)
            &&& p.guard_reasoning matches Some(why) ==> m.get("guard_reasoning"@) == Some(
                JsonView::String(why),
            )
            &&& m.get("requested_at"@) == Some(JsonView::String(p.requested_at.text(true)))
        }),
{
    let pairs = seq![
        ("approval_id"@, JsonView::String(p.id.text())),
        ("tool_name"@, JsonView::String(p.tool_name)),
        ("tool_args"@, JsonView::String(p.args)),
        ("reason"@, JsonView::String(p.reason)),
        ("risk"@, JsonView::String(risk_name(p.risk))),
        ("guard_reasoning"@, json_opt(p.guard_reasoning)),
        ("requested_at"@, JsonView::String(p.requested_at.text(true))),
    ];
    approval_keys_differ();
    crate::json::obj_of_at(pairs, 0);
    crate::json::obj_of_at(pairs, 1);
    crate::json::obj_of_at(pairs, 2);
    crate::json::obj_of_at(pairs, 3);
    crate::json::obj_of_at(pairs, 4);
    crate::json::obj_of_at(pairs, 5);
    crate::json::obj_of_at(pairs, 6);
}

/// A message is streamed with its role, its content and what goes with it.
pub proof fn messages_are_streamed_whole(
    role: Seq<char>,
    content: Seq<char>,
    metadata: Option<JsonView>,
    created_at: Timestamp,
)
    ensures
        ({
            let told = stream_event(
                ChatEventView::Message { role, content, metadata, created_at },
            );
            &&& told.kind == "message"@
            &&& told.role == Some(role)
            &&& told.content == Some(content)
            &&& told.metadata == metadata
            &&& told.state is None && told.running_tools is None && told.pins is None
            &&& told.staff_pings is None && told.session_id is None && told.status_message is None
            &&& told.state_reason is None
        }),
{
}

/// A state is streamed with the text that its data give as the reason, if they
/// give one.
pub proof fn states_are_streamed_with_their_reason(state: Seq<char>, state_data: JsonView)
    ensures
        ({
            let told = stream_event(ChatEventView::State { state, state_data });
            &&& told.kind == "state"@
            &&& told.state == Some(state)
            &&& state_data.get("reason"@) is None ==> told.state_reason is None
            &&& state_data.get("reason"@) matches Some(v) ==> match v {
                JsonView::String(reason) => told.state_reason == Some(reason),
                _ => told.state_reason is None,
            }
            &&& told.role is None && told.content is None && told.metadata is None
            &&& told.running_tools is None && told.pins is None && told.staff_pings is None
            &&& told.session_id is None && told.status_message is None
        }),
{
}

/// The end of a session, a status, an idle session and a part of an answer are
/// streamed each under its own kind, with what the event says.
pub proof fn plain_events_are_streamed(text: Seq<char>)
    ensures
        ({
            let told = stream_event(ChatEventView::Done { state: text });
            &&& told.kind == "done"@ && told.state == Some(text)
            &&& told.role is None && told.content is None && told.metadata is None
            &&& told.running_tools is None && told.pins is None && told.staff_pings is None
            &&& told.session_id is None && told.status_message is None && told.state_reason is None
        }),
        ({
            let told = stream_event(ChatEventView::Status { message: text });
            &&& told.kind == "status"@ && told.status_message == Some(text)
            &&& told.role is None && told.content is None && told.metadata is None
            &&& told.running_tools is None && told.pins is None && told.staff_pings is None
            &&& told.session_id is None && told.state is None && told.state_reason is None
        }),
        ({
            let told = stream_event(ChatEventView::StreamDelta { delta: text });
            &&& told.kind == "stream_delta"@ && told.content == Some(text)
            &&& told.role is None && told.state is None && told.metadata is None
            &&& told.running_tools is None && told.pins is None && told.staff_pings is None
            &&& told.session_id is None && told.status_message is None && told.state_reason is None
        }),
        ({
            let told = stream_event(ChatEventView::Idle);
            &&& told.kind == "idle"@
            &&& told.role is None && told.content is None && told.metadata is None
            &&& told.running_tools is None && told.pins is None && told.staff_pings is None
            &&& told.session_id is None && told.status_message is None && told.state_reason is None
            &&& told.state is None
        }),
{
}

/// The running tools are streamed one for one and in order, each with its name,
/// its arguments, since when it runs, and the verdict on it.
pub proof fn running_tools_are_streamed_whole(tools: Seq<RunningToolView>, at: int)
    requires
        0 <= at < tools.len(),
    ensures
        wire_tools(tools).len() == tools.len(),
        stream_event(ChatEventView::RunningTools { tools }).kind == "running_tools"@,
        stream_event(ChatEventView::RunningTools { tools }).running_tools == Some(
            wire_tools(tools),
        ),
        wire_tools(tools)[at].name == tools[at].name,
        wire_tools(tools)[at].args == tools[at].args,
        wire_tools(tools)[at].started_at == tools[at].started_at.text(false),
        tools[at].validation is None ==> wire_tools(tools)[at].validation is None,
        tools[at].validation matches Some(v) ==> (wire_tools(tools)[at].validation matches Some(w)
            && w.status == v.status && w.reasoning == v.reasoning && w.risk == v.risk),
{
}

// ── What the pins are ────────────────────────────────────────────────

/// The data of a message describe a pin exactly where they give a slot; the
/// pin has the summary and the services that they give, or none.
pub proof fn pins_are_what_the_data_say(data: JsonView)
    ensures
        pin_of(data) is Some <==> (data.get("slot"@) matches Some(v) && v is String),
        pin_of(data) matches Some(pin) ==> {
            &&& data.get("slot"@) == Some(JsonView::String(pin.slot))
            &&& data.get("summary"@) matches Some(v) ==> match v {
                JsonView::String(s) => pin.summary == s,
                _ => pin.summary.len() == 0,
            }
            &&& data.get("summary"@) is None ==> pin.summary.len() == 0
            &&& data.get("affected_services"@) matches Some(v) ==> match v {
                JsonView::Array(a) => pin.affected_services == string_items(a),
                _ => pin.affected_services.len() == 0,
            }
            &&& data.get("affected_services"@) is None ==> pin.affected_services.len() == 0
        },
{
}

/// The strings among values are those values that are strings, in order.
pub proof fn strings_are_kept_in_order(a: Seq<JsonView>, last: JsonView)
    ensures
        string_items(Seq::empty()).len() == 0,
        last matches JsonView::String(s) ==> string_items(a.push(last)) == string_items(a).push(s),
        !(last is String) ==> string_items(a.push(last)) == string_items(a),
{
    assert(a.push(last).drop_last() =~= a);
}

/// A message records a pin exactly where its role is that of a pin and its
/// content is the text of data that describe one.
pub proof fn pins_are_read_from_their_messages(msg: ChatMessageView)
    ensures
        msg.role != "pin"@ ==> pin_in(msg) is None,
        msg.role == "pin"@ ==> match json_parse(encode_utf8(msg.content)) {
            Ok(data) => pin_in(msg) == pin_of(data),
            Err(_) => pin_in(msg) is None,
        },
{
}

/// The latest pin to a slot is one to that slot, from a message that no other
/// with a pin to it follows; there is none exactly where no message records
/// one.
pub proof fn latest_pin_is_the_last_recorded(msgs: Seq<ChatMessageView>, slot: Seq<char>)
    ensures
        latest(msgs, slot) matches Some(pin) ==> {
            &&& pin.slot == slot
            &&& exists|i: int|
                0 <= i < msgs.len() && pin_in(#[trigger] msgs[i]) == Some(pin) && forall|j: int|
                    i < j < msgs.len() ==> !(pin_in(#[trigger] msgs[j]) matches Some(p) && p.slot
                        == slot)
        },
        latest(msgs, slot) is None ==> forall|i: int|
            0 <= i < msgs.len() ==> !(pin_in(#[trigger] msgs[i]) matches Some(p) && p.slot == slot),
    decreases msgs.len(),
{
    if msgs.len() > 0 {
        let front = msgs.drop_last();
        let n = msgs.len() - 1;
        latest_pin_is_the_last_recorded(front, slot);
        if pin_in(msgs[n]) is Some && pin_in(msgs[n])->0.slot == slot {
            assert(pin_in(msgs[n]) == latest(msgs, slot));
        } else if latest(front, slot) is Some {
            let pin = latest(front, slot)->0;
            let i = choose|i: int|
                0 <= i < front.len() && pin_in(#[trigger] front[i]) == Some(pin) && forall|j: int|
                    i < j < front.len() ==> !(pin_in(#[trigger] front[j]) matches Some(p) && p.slot
                        == slot);
            assert(pin_in(msgs[i]) == Some(pin));
            assert forall|j: int| i < j < msgs.len() implies !(pin_in(#[trigger] msgs[j])
                matches Some(p) && p.slot == slot) by {
                if j < n {
                    assert(front[j] == msgs[j]);
                }
            }
        } else {
            assert forall|i: int| 0 <= i < msgs.len() implies !(pin_in(#[trigger] msgs[i])
                matches Some(p) && p.slot == slot) by {
                if i < n {
                    assert(front[i] == msgs[i]);
                }
            }
        }
    }
}

/// The pins to named slots are the latest ones to them, in the order of the
/// names: one more name adds its pin behind the others, unless the name was
/// there or nothing is pinned to it.
pub proof fn named_pins_follow_the_names(
    names: Seq<Seq<char>>,
    name: Seq<char>,
    msgs: Seq<ChatMessageView>,
)
    ensures
        configured(Seq::empty(), msgs).len() == 0,
        names.contains(name) ==> configured(names.push(name), msgs) == configured(names, msgs),
        latest(msgs, name) is None ==> configured(names.push(name), msgs) == configured(
            names,
            msgs,
        ),
        !names.contains(name) ==> (latest(msgs, name) matches Some(pin) ==> configured(
            names.push(name),
            msgs,
        ) == configured(names, msgs).push(pin)),
{
    assert(names.push(name).drop_last() =~= names);
}

/// Pins that are left over are the latest ones to slots outside the named ones,
/// each slot once, and none is missing.
pub proof fn leftover_pins_are_all_others(
    pins: Seq<PinView>,
    names: Seq<Seq<char>>,
    msgs: Seq<ChatMessageView>,
    slot: Seq<char>,
)
    requires
        leftover(pins, names, msgs),
    ensures
        (exists|i: int| 0 <= i < pins.len() && (#[trigger] pins[i]).slot == slot)
            <==> latest(msgs, slot) is Some && !names.contains(slot),
        forall|i: int|
            0 <= i < pins.len() && (#[trigger] pins[i]).slot == slot ==> latest(msgs, slot)
                == Some(pins[i]),
        forall|i: int, j: int|
            0 <= i < pins.len() && 0 <= j < pins.len() && (#[trigger] pins[i]).slot == (
            #[trigger] pins[j]).slot ==> i == j,
{
    if latest(msgs, slot) is Some && !names.contains(slot) {
        assert(has_slot(pins, slot));
    }
}

/// Pins in ascending order have the earlier slot first.
pub proof fn ascending_pins_have_the_earlier_slot_first(pins: Seq<PinView>, i: int, j: int)
    requires
        slots_ascend(pins),
        0 <= i < j < pins.len(),
    ensures
        text_before(pins[i].slot, pins[j].slot),
{
}

/// The running tools are streamed under their kind, and nothing else is with
/// them.
pub proof fn running_tools_are_streamed_alone(tools: Seq<RunningToolView>)
    ensures
        ({
            let told = stream_event(ChatEventView::RunningTools { tools });
            &&& told.kind == "running_tools"@
            &&& told.running_tools matches Some(list) && list.len() == tools.len()
            &&& told.role is None && told.content is None && told.state is None
            &&& told.metadata is None && told.pins is None && told.staff_pings is None
            &&& told.session_id is None && told.status_message is None && told.state_reason is None
        }),
{
}

}
