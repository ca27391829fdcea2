//! One tool per registry endpoint: what it is offered as, how its arguments
//! are read, and what a call answers.

use vstd::prelude::*;
use vstd::string::StringExecFns;
use vstd::utf8::{decode_utf8, encode_utf8, is_char_boundary, valid_utf8};

use crate::bridge::glob::ToolFilter;
use crate::bridge::schema::{inline_defs, inlined, sanitize_for_strict, strict};
use crate::json::{from_value, json_of, json_parse, json_pretty, nothing_embedded, opt_view, parse};
use crate::json::{print_pretty, to_value, Json, JsonView, Object};
use crate::text::{all_white, decimal, text_is_white, to_decimal};
use crate::tools::ToolOutput;
use crate::validation::ToolRisk;

verus! {

// ── Capped output ────────────────────────────────────────────────────

/// The last character boundary at or below a byte position.
pub open spec fn boundary_below(bytes: Seq<u8>, at: int) -> int
    decreases at,
{
    if at <= 0 {
        0
    } else if is_char_boundary(bytes, at) {
        at
    } else {
        boundary_below(bytes, at - 1)
    }
}

/// The leading characters of a text that fit into a number of bytes.
pub open spec fn fitting(text: Seq<char>, max: int) -> Seq<char> {
    let bytes = encode_utf8(text);
    decode_utf8(bytes.subrange(0, boundary_below(bytes, max)))
}

/// A text cut down to a number of bytes, with a note of what was cut.
pub open spec fn capped(text: Seq<char>, max: int) -> Seq<char> {
    let bytes = encode_utf8(text);
    if bytes.len() <= max {
        text
    } else {
        fitting(text, max) + "... [truncated: "@ + decimal(boundary_below(bytes, max) as nat)
            + " of "@ + decimal(bytes.len()) + " bytes shown]"@
    }
}

/// Caps a text at a number of bytes, on a character boundary.
pub fn cap_output(text: String, max: usize) -> (r: String)
    ensures
        r@ == capped(text@, max as int),
{
    let whole: &str = text.as_str();
    let bytes: &[u8] = whole.as_bytes();
    let len: usize = bytes.len();
    if len <= max {
        return text;
    }
    proof {
        vstd::utf8::encode_utf8_valid_utf8(text@);
    }
    let mut cut: usize = max;
    while cut > 0 && !whole.is_char_boundary(cut)
        invariant
            whole@ == text@,
            cut <= max,
            max < encode_utf8(text@).len(),
            boundary_below(encode_utf8(text@), max as int) == boundary_below(
                encode_utf8(text@),
                cut as int,
            ),
        decreases cut,
    {
        cut = cut - 1;
    }
    proof {
        vstd::utf8::is_char_boundary_start_end_of_seq(encode_utf8(text@));
    }
    let (head, _) = whole.split_at(cut);
    proof {
        vstd::utf8::encode_utf8_decode_utf8(head@);
    }
    let mut out: String = head.to_owned();
    out.append("... [truncated: ");
    out.append(to_decimal(cut as u64).as_str());
    out.append(" of ");
    out.append(to_decimal(len as u64).as_str());
    out.append(" bytes shown]");
    out
}

/// What is kept of a text that is cut down is the text's beginning.
pub proof fn kept_part_is_a_beginning(text: Seq<char>, max: int)
    requires
        0 <= max < encode_utf8(text).len(),
    ensures
        fitting(text, max).is_prefix_of(text),
        encode_utf8(fitting(text, max)).len() <= max,
{
    let bytes = encode_utf8(text);
    let cut = boundary_below(bytes, max);
    vstd::utf8::encode_utf8_valid_utf8(text);
    boundary_below_is_boundary(bytes, max);
    vstd::utf8::encode_utf8_decode_utf8(text);
    vstd::utf8::valid_utf8_split(bytes, cut);
    vstd::utf8::decode_utf8_split(bytes, cut);
    let head = decode_utf8(bytes.subrange(0, cut));
    assert(text == head + decode_utf8(bytes.subrange(cut, bytes.len() as int)));
    assert(text.subrange(0, head.len() as int) =~= head);
    vstd::utf8::decode_utf8_encode_utf8(bytes.subrange(0, cut));
}

proof fn boundary_below_is_boundary(bytes: Seq<u8>, at: int)
    requires
        valid_utf8(bytes),
        0 <= at < bytes.len(),
    ensures
        0 <= boundary_below(bytes, at) <= at,
        is_char_boundary(bytes, boundary_below(bytes, at)),
    decreases at,
{
    vstd::utf8::is_char_boundary_start_end_of_seq(bytes);
    if at > 0 && !is_char_boundary(bytes, at) {
        boundary_below_is_boundary(bytes, at - 1);
    }
}

// ── Tools ────────────────────────────────────────────────────────────

/// An endpoint of the registry, as far as a tool is built from it.
#[derive(Debug)]
pub struct Endpoint {
    /// The group that the endpoint belongs to.
    pub resource: String,
    pub tool_name: String,
    pub description: String,
    pub input_schema: Object,
    pub risk: ToolRisk,
}

/// A tool that calls one endpoint of the registry.
#[derive(Debug)]
pub struct RegistryTool {
    pub name: String,
    pub description: String,
    /// What the arguments of a call look like, where that can be declared.
    pub parameters: Option<Json>,
    pub risk: ToolRisk,
    pub max_output_bytes: usize,
}

/// Whether a value can be a schema: an object, or whether anything is admitted.
pub open spec fn is_schema(v: JsonView) -> bool {
    v is Object || v is Bool
}

/// A value as the schema that it is, if it can be one.
pub open spec fn plain_schema(v: JsonView) -> Option<JsonView> {
    if is_schema(v) {
        Some(v)
    } else {
        None
    }
}

/// The schema that `schemars` reads from a value, if it reads one.
pub uninterp spec fn schema_read(v: JsonView) -> Option<JsonView>;

/// What an optional tree of `serde_json` holds.
spec fn tree_view(v: Option<serde_json::Value>) -> Option<JsonView> {
    match v {
        Some(v) => Some(json_of(v)),
        None => None,
    }
}

/// `serde_json::from_value` into a `schemars::Schema`, and the value that this
/// holds: a function of what the given value holds. A value in which no object
/// marks an embedded text is read as it is where it is an object or a boolean,
/// and refused otherwise.
#[verifier::external_body]
fn read_schema(v: serde_json::Value) -> (r: Option<serde_json::Value>)
    ensures
        tree_view(r) == schema_read(json_of(v)),
        nothing_embedded(json_of(v)) ==> tree_view(r) == plain_schema(json_of(v)),
{
    serde_json::from_value::<schemars::Schema>(v).ok().map(|schema| schema.to_value())
}

/// An endpoint's input schema, flat and in the strict form.
pub open spec fn flat_schema(schema: Seq<(Seq<char>, JsonView)>) -> JsonView {
    strict(inlined(JsonView::Object(schema)))
}

/// Whether these are the parameters that a tool declares for an endpoint's
/// input schema: what is read from the flat and strict form, which is that form
/// itself where no object in it marks an embedded text. None where that is no
/// schema.
pub open spec fn declares(
    parameters: Option<JsonView>,
    schema: Seq<(Seq<char>, JsonView)>,
) -> bool {
    let flat = flat_schema(schema);
    &&& parameters == schema_read(flat)
    &&& nothing_embedded(flat) ==> parameters == plain_schema(flat)
}

/// Declares the parameters for an input schema.
pub fn declare(schema: &Object) -> (r: Option<Json>)
    ensures
        declares(opt_view(r), schema.view()),
        opt_view(r) == schema_read(strict(inlined(JsonView::Object(schema.view())))),
        nothing_embedded(strict(inlined(JsonView::Object(schema.view())))) ==> opt_view(r)
            == match strict(inlined(JsonView::Object(schema.view()))) {
            JsonView::Object(m) => Some(JsonView::Object(m)),
            JsonView::Bool(b) => Some(JsonView::Bool(b)),
            _ => None,
        },
{
    let flat = sanitize_for_strict(inline_defs(&Json::Object(schema.clone())));
    match read_schema(to_value(flat)) {
        Some(v) => Some(from_value(v)),
        None => None,
    }
}

impl RegistryTool {
    /// Whether this is the tool of an endpoint.
    pub open spec fn is_of(self, ep: Endpoint, max_output_bytes: usize) -> bool {
        &&& self.name@ == ep.tool_name@
        &&& self.description@ == ep.description@
        &&& declares(opt_view(self.parameters), ep.input_schema@)
        &&& self.risk == ep.risk
        &&& self.max_output_bytes == max_output_bytes
    }
}

/// The endpoints whose tool a filter lets through, in order.
pub open spec fn admitted(endpoints: Seq<Endpoint>, filter: ToolFilter) -> Seq<Endpoint> {
    endpoints.filter(|ep: Endpoint| filter.admits(ep.tool_name@))
}

/// One tool per endpoint that the filter lets through.
pub fn registry_tools(
    endpoints: &Vec<Endpoint>,
    filter: &ToolFilter,
    max_output_bytes: usize,
) -> (r: Vec<RegistryTool>)
    ensures
        r@.len() == admitted(endpoints@, *filter).len(),
        forall|i: int|
            0 <= i < r@.len() ==> (#[trigger] r@[i]).is_of(
                admitted(endpoints@, *filter)[i],
                max_output_bytes,
            ),
{
    let ghost keeps = |ep: Endpoint| filter.admits(ep.tool_name@);
    let mut out: Vec<RegistryTool> = Vec::new();
    let mut i: usize = 0;
    proof {
        reveal(Seq::filter);
    }
    while i < endpoints.len()
        invariant
            i <= endpoints@.len(),
            keeps == (|ep: Endpoint| filter.admits(ep.tool_name@)),
            out@.len() == endpoints@.take(i as int).filter(keeps).len(),
            forall|k: int|
                0 <= k < out@.len() ==> (#[trigger] out@[k]).is_of(
                    endpoints@.take(i as int).filter(keeps)[k],
                    max_output_bytes,
                ),
        decreases endpoints.len() - i,
    {
        let ep = &endpoints[i];
        proof {
            reveal(Seq::filter);
            assert(endpoints@.take(i + 1).drop_last() =~= endpoints@.take(i as int));
        }
        i = i + 1;
        if filter.allows(ep.tool_name.as_str()) {
            out.push(
                RegistryTool {
                    name: ep.tool_name.clone(),
                    description: ep.description.clone(),
                    parameters: declare(&ep.input_schema),
                    risk: ep.risk,
                    max_output_bytes,
                },
            );
        }
    }
    proof {
        assert(endpoints@.take(i as int) =~= endpoints@);
    }
    out
}

/// The answer to arguments that are no JSON.
pub open spec fn bad_arguments(name: Seq<char>, reason: Seq<char>) -> Seq<char> {
    "["@ + name + "] invalid JSON arguments: "@ + reason
}

/// The answer to a call that the endpoint refused.
pub open spec fn call_refused(name: Seq<char>, reason: Seq<char>) -> Seq<char> {
    "["@ + name + "] "@ + reason
}

impl RegistryTool {
    /// The arguments that a call hands to the endpoint, or the answer where
    /// they cannot be read. No arguments are an empty object.
    pub fn arguments(&self, args: Option<&str>) -> (r: Result<Json, ToolOutput>)
        ensures
            match args {
                Some(s) => if all_white(s@) {
                    r matches Ok(v) && v.view() == JsonView::Object(Seq::empty())
                } else {
                    match json_parse(encode_utf8(s@)) {
                        Ok(value) => r matches Ok(v) && v.view() == value,
                        Err(reason) => r matches Err(out) && out.is_fail(
                            bad_arguments(self.name@, reason),
                        ),
                    }
                },
                None => r matches Ok(v) && v.view() == JsonView::Object(Seq::empty()),
            },
    {
        let given: &str = match args {
            Some(s) => s,
            None => return Ok(Json::Object(Object::new())),
        };
        if text_is_white(given) {
            return Ok(Json::Object(Object::new()));
        }
        match parse(given.as_bytes()) {
            Ok(v) => Ok(v),
            Err(e) => {
                let mut text = "[".to_owned();
                text.append(self.name.as_str());
                text.append("] invalid JSON arguments: ");
                text.append(e.as_str());
                Err(ToolOutput::Fail(text))
            },
        }
    }

    /// The answer to a call, from what the endpoint gave back.
    pub fn output(&self, result: Result<Json, String>) -> (r: ToolOutput)
        ensures
            match result {
                Ok(v) => r.is_text(capped(json_pretty(v.view()), self.max_output_bytes as int)),
                Err(reason) => r.is_fail(call_refused(self.name@, reason@)),
            },
    {
        match result {
            Ok(v) => ToolOutput::Text(cap_output(print_pretty(&v), self.max_output_bytes)),
            Err(e) => {
                let mut text = "[".to_owned();
                text.append(self.name.as_str());
                text.append("] ");
                text.append(e.as_str());
                ToolOutput::Fail(text)
            },
        }
    }
}

// ── What the tools of a registry are ─────────────────────────────────

/// Where a character of a text ends, its bytes can be cut.
proof fn characters_end_on_boundaries(text: Seq<char>, n: int)
    requires
        0 <= n <= text.len(),
    ensures
        is_char_boundary(encode_utf8(text), encode_utf8(text.take(n)).len() as int),
        encode_utf8(text.take(n)).len() <= encode_utf8(text).len(),
    decreases n,
{
    let bytes = encode_utf8(text);
    vstd::utf8::encode_utf8_valid_utf8(text);
    if n == 0 {
        assert(text.take(0) =~= Seq::<char>::empty());
    } else {
        let first = vstd::utf8::encode_scalar(text[0] as u32);
        let rest = text.drop_first();
        vstd::utf8::encode_utf8_first_scalar(text);
        assert(vstd::utf8::pop_first_scalar(bytes) =~= encode_utf8(rest));
        assert(text.take(n).drop_first() =~= rest.take(n - 1));
        assert(text.take(n)[0] == text[0]);
        characters_end_on_boundaries(rest, n - 1);
    }
}

/// More characters take more bytes.
proof fn more_characters_take_more_bytes(text: Seq<char>, n: int)
    requires
        0 <= n < text.len(),
    ensures
        encode_utf8(text.take(n)).len() < encode_utf8(text.take(n + 1)).len(),
    decreases n,
{
    let next = text.take(n + 1);
    vstd::utf8::encode_utf8_first_scalar(next);
    if n == 0 {
        assert(text.take(0) =~= Seq::<char>::empty());
        assert(encode_utf8(text.take(0)).len() == 0);
    } else {
        let rest = text.drop_first();
        more_characters_take_more_bytes(rest, n - 1);
        assert(text.take(n).drop_first() =~= rest.take(n - 1));
        assert(next.drop_first() =~= rest.take(n));
        assert(text.take(n)[0] == text[0] && next[0] == text[0]);
    }
}

/// No boundary lies between the one that is found and the position.
proof fn boundary_below_is_last(bytes: Seq<u8>, at: int, other: int)
    requires
        boundary_below(bytes, at) < other <= at,
    ensures
        !is_char_boundary(bytes, other),
    decreases at,
{
    if at > 0 && !is_char_boundary(bytes, at) && other < at {
        boundary_below_is_last(bytes, at - 1, other);
    }
}

/// A text that fits is answered as it is. Of a longer one as many characters
/// are answered as fit, one more would not; behind them stands how many bytes
/// they take, and how many the text does.
pub proof fn long_answers_are_cut_down(text: Seq<char>, max: int)
    requires
        max >= 0,
    ensures
        encode_utf8(text).len() <= max ==> capped(text, max) == text,
        encode_utf8(text).len() > max ==> exists|n: int|
            {
                &&& 0 <= n < text.len()
                &&& encode_utf8(#[trigger] text.take(n)).len() <= max
                &&& encode_utf8(text.take(n + 1)).len() > max
                &&& capped(text, max) == text.take(n) + "... [truncated: "@ + decimal(
                    encode_utf8(text.take(n)).len(),
                ) + " of "@ + decimal(encode_utf8(text).len()) + " bytes shown]"@
            },
{
    if encode_utf8(text).len() > max {
        let bytes = encode_utf8(text);
        let cut = boundary_below(bytes, max);
        let head = fitting(text, max);
        let n = head.len() as int;
        kept_part_is_a_beginning(text, max);
        vstd::utf8::encode_utf8_valid_utf8(text);
        boundary_below_is_boundary(bytes, max);
        vstd::utf8::valid_utf8_split(bytes, cut);
        vstd::utf8::decode_utf8_encode_utf8(bytes.subrange(0, cut));
        assert(text.take(n) =~= head);
        assert(encode_utf8(head).len() == cut);
        if n == text.len() {
            assert(text.take(n) =~= text);
        }
        more_characters_take_more_bytes(text, n);
        characters_end_on_boundaries(text, n + 1);
        if encode_utf8(text.take(n + 1)).len() <= max {
            boundary_below_is_last(bytes, max, encode_utf8(text.take(n + 1)).len() as int);
        }
        assert(encode_utf8(text.take(n)).len() <= max);
    }
}

/// The tool of an endpoint has the endpoint's name, its description and its
/// risk, and declares the parameters that the endpoint's schema gives.
pub proof fn tools_are_those_of_their_endpoints(
    tool: RegistryTool,
    ep: Endpoint,
    max_output_bytes: usize,
)
    requires
        tool.is_of(ep, max_output_bytes),
    ensures
        tool.name@ == ep.tool_name@,
        tool.description@ == ep.description@,
        tool.risk == ep.risk,
        tool.max_output_bytes == max_output_bytes,
        ({
            let flat = strict(inlined(JsonView::Object(ep.input_schema@)));
            &&& opt_view(tool.parameters) == schema_read(flat)
            &&& nothing_embedded(flat) && (flat is Object || flat is Bool) ==> opt_view(
                tool.parameters,
            ) == Some(flat)
            &&& nothing_embedded(flat) && !(flat is Object) && !(flat is Bool) ==> opt_view(
                tool.parameters,
            ) is None
        }),
{
}

/// The endpoints that are admitted are those whose tool the filter lets
/// through, in their order.
pub proof fn admitted_endpoints_pass_the_filter(
    endpoints: Seq<Endpoint>,
    last: Endpoint,
    filter: ToolFilter,
)
    ensures
        admitted(Seq::empty(), filter).len() == 0,
        filter.admits(last.tool_name@) ==> admitted(endpoints.push(last), filter) == admitted(
            endpoints,
            filter,
        ).push(last),
        !filter.admits(last.tool_name@) ==> admitted(endpoints.push(last), filter) == admitted(
            endpoints,
            filter,
        ),
{
    reveal(Seq::filter);
    assert(endpoints.push(last).drop_last() =~= endpoints);
    assert(endpoints.push(last).last() == last);
}

/// What the agent is told of a call that has failed names the tool, and why.
pub proof fn refusals_name_the_tool(name: Seq<char>, reason: Seq<char>)
    ensures
        bad_arguments(name, reason) == "["@ + name + "] invalid JSON arguments: "@ + reason,
        call_refused(name, reason) == "["@ + name + "] "@ + reason,
{
}

}
