//! Tool names, schemas and tool calls of the registry.

use plan_ai_core::bridge::glob::{glob_match, ToolFilter};
use plan_ai_core::bridge::registry::{cap_output, declare, registry_tools, Endpoint, RegistryTool};
use plan_ai_core::bridge::schema::{inline_defs, sanitize_for_strict};
use plan_ai_core::json::{parse, print, Json, Object, EMBEDDED_KEY};
use plan_ai_core::tools::ToolOutput;
use plan_ai_core::validation::{risk_to_str, ToolRisk};

fn json(text: &str) -> Json {
    parse(text.as_bytes()).unwrap()
}

/// The member of an object that must be there.
fn at<'a>(v: &'a Json, key: &str) -> &'a Json {
    match v.get(key) {
        Some(m) => m,
        None => panic!("no member {key}"),
    }
}

fn items(v: &Json) -> &Vec<Json> {
    match v {
        Json::Array(a) => a,
        _ => panic!("no array"),
    }
}

fn object(text: &str) -> Object {
    match json(text) {
        Json::Object(m) => m,
        _ => panic!("no object"),
    }
}

#[test]
fn glob_matching() {
    assert!(glob_match("cluster_*", "cluster_list"));
    assert!(glob_match("*_delete", "cluster_delete"));
    assert!(glob_match("*", "anything"));
    assert!(glob_match("cluster_list", "cluster_list"));
    assert!(!glob_match("cluster_*", "org_list"));
    assert!(glob_match("*cluster*", "mcp_cluster_list"));
    assert!(!glob_match("*cluster*", "org_list"));
}

#[test]
fn glob_edges() {
    assert!(glob_match("", ""));
    assert!(!glob_match("", "a"));
    assert!(glob_match("*", ""));
    assert!(glob_match("**", ""));
    // The parts of a pattern do not overlap in the name.
    assert!(!glob_match("ab*ba", "aba"));
    assert!(glob_match("ab*ba", "abba"));
    assert!(glob_match("a*b*c", "a-b-b-c"));
    assert!(!glob_match("a*b*c", "a-c-b"));
    assert!(glob_match("*ä*", "schön-ärger"));
}

#[test]
fn filter_semantics() {
    let f = ToolFilter::default();
    assert!(f.allows("anything"));

    let f = ToolFilter {
        includes: vec!["cluster_*".into()],
        excludes: vec!["*_delete".into()],
    };
    assert!(f.allows("cluster_list"));
    assert!(!f.allows("cluster_delete"));
    assert!(!f.allows("org_list"));
}

#[test]
fn inline_defs_flattens_refs() {
    let schema = json(
        r##"{
            "type": "object",
            "properties": {
                "role": { "$ref": "#/$defs/Role", "description": "the role" }
            },
            "$defs": {
                "Role": { "type": "string", "enum": ["admin", "user"] }
            }
        }"##,
    );
    let flat = inline_defs(&schema);
    assert!(flat.get("$defs").is_none());
    let role = at(at(&flat, "properties"), "role");
    assert_eq!(at(role, "type").as_str(), Some("string"));
    assert_eq!(items(at(role, "enum"))[0].as_str(), Some("admin"));
    // A member beside the reference counts over the definition's.
    assert_eq!(at(role, "description").as_str(), Some("the role"));
}

#[test]
fn inline_defs_survives_cycles() {
    let schema = json(
        r##"{
            "type": "object",
            "properties": { "node": { "$ref": "#/$defs/Node" } },
            "$defs": {
                "Node": {
                    "type": "object",
                    "properties": { "child": { "$ref": "#/$defs/Node" } }
                }
            }
        }"##,
    );
    let flat = inline_defs(&schema);
    let node = at(at(&flat, "properties"), "node");
    assert_eq!(at(node, "type").as_str(), Some("object"));
    // Eight references are followed; the ninth stays.
    let mut deepest = node;
    for _ in 0..7 {
        deepest = at(at(deepest, "properties"), "child");
        assert_eq!(at(deepest, "type").as_str(), Some("object"));
    }
    deepest = at(at(deepest, "properties"), "child");
    assert_eq!(at(deepest, "$ref").as_str(), Some("#/$defs/Node"));
}

#[test]
fn inline_defs_keeps_what_it_cannot_follow() {
    let schema = json(r##"{"a": {"$ref": "#/$defs/Gone"}, "b": {"$ref": "other.json"}}"##);
    assert_eq!(
        print(&inline_defs(&schema)),
        r##"{"a":{"$ref":"#/$defs/Gone"},"b":{"$ref":"other.json"}}"##
    );
    assert_eq!(print(&inline_defs(&json("[1,2]"))), "[1,2]");
}

#[test]
fn sanitize_rewrites_oneof_and_type_unions() {
    let schema = json(
        r#"{
            "type": "object",
            "properties": {
                "context": {
                    "oneOf": [
                        { "type": "object", "properties": { "kind": { "type": "string" } } },
                        { "type": "string" }
                    ]
                },
                "label": { "type": ["string", "null"] }
            }
        }"#,
    );
    let schema = sanitize_for_strict(schema);
    let ctx = at(at(&schema, "properties"), "context");
    assert!(ctx.get("oneOf").is_none());
    assert_eq!(items(at(ctx, "anyOf")).len(), 2);
    let label = at(at(&schema, "properties"), "label");
    assert!(label.get("type").is_none());
    assert_eq!(at(&items(at(label, "anyOf"))[0], "type").as_str(), Some("string"));
    assert_eq!(at(&items(at(label, "anyOf"))[1], "type").as_str(), Some("null"));
}

#[test]
fn sanitize_adds_missing_array_items() {
    let schema = json(
        r#"{
            "type": "object",
            "properties": {
                "source_config": {
                    "anyOf": [
                        { "type": "object" },
                        { "type": "array" },
                        { "type": ["array", "null"] }
                    ]
                }
            }
        }"#,
    );
    let schema = sanitize_for_strict(schema);
    let variants = items(at(at(at(&schema, "properties"), "source_config"), "anyOf"));
    assert_eq!(print(at(&variants[1], "items")), "{}");
    let nested = items(at(&variants[2], "anyOf"));
    assert_eq!(at(&nested[0], "type").as_str(), Some("array"));
    assert_eq!(print(at(&nested[0], "items")), "{}");
}

#[test]
fn sanitize_merges_alternatives() {
    let schema = json(
        r#"{"anyOf": [{"type": "null"}], "oneOf": [{"type": "string"}], "type": ["integer"]}"#,
    );
    assert_eq!(
        print(&sanitize_for_strict(schema)),
        r#"{"anyOf":[{"type":"null"},{"type":"string"},{"type":"integer"}]}"#
    );
    // An alternative that is no list is dropped behind a list, and moved where
    // there is none.
    assert_eq!(print(&sanitize_for_strict(json(r#"{"anyOf":[],"oneOf":7}"#))), r#"{"anyOf":[]}"#);
    assert_eq!(print(&sanitize_for_strict(json(r#"{"oneOf":7}"#))), r#"{"anyOf":7}"#);
}

#[test]
fn strict_form_stays_as_it_is() {
    let schema = json(r#"{"oneOf":[{"type":["array","null"]}],"properties":{"x":{"type":"array"}}}"#);
    let once = sanitize_for_strict(schema);
    let text = print(&once);
    assert_eq!(print(&sanitize_for_strict(once)), text);
}

#[test]
fn cap_output_truncates_on_char_boundary() {
    let s = "aä".repeat(100);
    let capped = cap_output(s.clone(), 15);
    assert!(capped.contains("[truncated"));
    assert!(cap_output("short".into(), 100) == "short");
}

#[test]
fn cap_output_says_what_it_shows() {
    let s = "aä".repeat(100);
    // Each pair takes three bytes, so the fifteenth byte ends a character.
    assert_eq!(
        cap_output(s.clone(), 15),
        format!("{}... [truncated: 15 of 300 bytes shown]", "aä".repeat(5))
    );
    // The fourteenth byte is within one.
    assert_eq!(
        cap_output(s, 14),
        format!("{}a... [truncated: 13 of 300 bytes shown]", "aä".repeat(4))
    );
    assert_eq!(cap_output("ä".into(), 0), "... [truncated: 0 of 2 bytes shown]");
    assert_eq!(cap_output("ä".into(), 2), "ä");
}

fn endpoint(resource: &str, tool_name: &str, risk: ToolRisk, schema: &str) -> Endpoint {
    Endpoint {
        resource: resource.into(),
        tool_name: tool_name.into(),
        description: format!("calls {tool_name}"),
        input_schema: object(schema),
        risk,
    }
}

fn tool(max_output_bytes: usize) -> RegistryTool {
    RegistryTool {
        name: "cluster_list".into(),
        description: "lists".into(),
        parameters: None,
        risk: ToolRisk::ReadOnly,
        max_output_bytes,
    }
}

#[test]
fn one_tool_per_admitted_endpoint() {
    let endpoints = vec![
        endpoint("cluster", "cluster_list", ToolRisk::ReadOnly, r#"{"type":"object"}"#),
        endpoint("cluster", "cluster_delete", ToolRisk::Destructive, "{}"),
        endpoint("org", "org_list", ToolRisk::ReadOnly, r#"{"oneOf":[]}"#),
    ];
    let filter = ToolFilter { includes: vec![], excludes: vec!["*_delete".into()] };
    let tools = registry_tools(&endpoints, &filter, 64);
    assert_eq!(tools.len(), 2);
    assert_eq!(tools[0].name, "cluster_list");
    assert_eq!(tools[0].description, "calls cluster_list");
    assert_eq!(tools[0].risk, ToolRisk::ReadOnly);
    assert_eq!(tools[0].max_output_bytes, 64);
    assert_eq!(tools[1].name, "org_list");
    assert_eq!(print(tools[1].parameters.as_ref().unwrap()), r#"{"anyOf":[]}"#);
}

#[test]
fn references_beside_a_reference_are_inlined() {
    let schema = json(
        r##"{"p":{"$ref":"#/$defs/A","x":{"$ref":"#/$defs/B"}},"$defs":{"A":{"type":"object"},"B":{"type":"string"}}}"##,
    );
    assert_eq!(print(&inline_defs(&schema)), r#"{"p":{"type":"object","x":{"type":"string"}}}"#);
}

/// A chain of definitions, each of which refers to the next.
fn chain(levels: usize) -> Json {
    let mut defs = Vec::new();
    for i in 1..levels {
        defs.push(format!(r##""D{i}":{{"next":{{"$ref":"#/$defs/D{}"}}}}"##, i + 1));
    }
    defs.push(format!(r#""D{levels}":{{"type":"null"}}"#));
    json(&format!(r##"{{"top":{{"$ref":"#/$defs/D1"}},"$defs":{{{}}}}}"##, defs.join(",")))
}

#[test]
fn definitions_inside_one_another_are_flattened() {
    let flat = print(&inline_defs(&chain(8)));
    assert!(!flat.contains("$ref"), "{flat}");
    assert!(flat.contains(r#"{"type":"null"}"#), "{flat}");
    assert!(print(&inline_defs(&chain(9))).contains(r##"{"$ref":"#/$defs/D9"}"##));
}

#[test]
fn parameters_are_a_schema_or_nothing() {
    let declared = |schema: &str| {
        let endpoints = vec![endpoint("a", "a_b", ToolRisk::ReadOnly, schema)];
        let tools = registry_tools(&endpoints, &ToolFilter::default(), 64);
        tools[0].parameters.as_ref().map(print)
    };
    assert_eq!(declared(r#"{"type":"array"}"#).as_deref(), Some(r#"{"items":{},"type":"array"}"#));
    let to_bool = r##"{"$ref":"#/$defs/A","$defs":{"A":true}}"##;
    assert_eq!(declared(to_bool).as_deref(), Some("true"));
    let to_number = r##"{"$ref":"#/$defs/A","$defs":{"A":3}}"##;
    assert_eq!(declared(to_number), None);
}

#[test]
fn embedded_text_is_read_as_the_schema() {
    let marked = |text: &str| Object::new().insert(EMBEDDED_KEY.into(), Json::String(text.into()));
    let declared = |schema: Object| declare(&schema).as_ref().map(print);
    assert_eq!(declared(marked("true")).as_deref(), Some("true"));
    assert_eq!(declared(marked(r#"{"type":"array"}"#)).as_deref(), Some(r#"{"type":"array"}"#));
    assert_eq!(declared(marked("3")), None);
    assert_eq!(declared(marked("tru")), None);
    assert_eq!(declared(marked("true").insert("type".into(), json("1"))), None);
    let below = Object::new().insert("default".into(), Json::Object(marked("[1]")));
    assert_eq!(declared(below).as_deref(), Some(r#"{"default":[1]}"#));

    let mut ep = endpoint("a", "a_b", ToolRisk::ReadOnly, "{}");
    ep.input_schema = marked("true");
    let tools = registry_tools(&vec![ep], &ToolFilter::default(), 64);
    assert_eq!(tools[0].parameters.as_ref().map(print).as_deref(), Some("true"));
}

#[test]
fn arguments_of_a_call() {
    let t = tool(100);
    assert_eq!(print(&t.arguments(None).unwrap()), "{}");
    assert_eq!(print(&t.arguments(Some(" \n\t")).unwrap()), "{}");
    assert_eq!(print(&t.arguments(Some(r#" {"b":1,"a":[true]} "#)).unwrap()), r#"{"a":[true],"b":1}"#);
    match t.arguments(Some("{")) {
        Err(ToolOutput::Fail(text)) => {
            assert!(text.starts_with("[cluster_list] invalid JSON arguments: EOF while parsing"))
        }
        _ => panic!("arguments were read"),
    }
}

#[test]
fn answer_to_a_call() {
    let t = tool(100);
    match t.output(Ok(json(r#"{"a":1}"#))) {
        ToolOutput::Text(text) => assert_eq!(text, "{\n  \"a\": 1\n}"),
        ToolOutput::Fail(_) => panic!("the call has worked"),
    }
    match tool(4).output(Ok(json(r#"{"a":1}"#))) {
        ToolOutput::Text(text) => {
            assert_eq!(text, "{\n  ... [truncated: 4 of 12 bytes shown]")
        }
        ToolOutput::Fail(_) => panic!("the call has worked"),
    }
    match t.output(Err("403 forbidden".into())) {
        ToolOutput::Fail(text) => assert_eq!(text, "[cluster_list] 403 forbidden"),
        ToolOutput::Text(_) => panic!("the call has failed"),
    }
}

#[test]
fn risks_have_wire_names() {
    assert_eq!(risk_to_str(ToolRisk::ReadOnly), "read_only");
    assert_eq!(risk_to_str(ToolRisk::SessionLocal), "session_local");
    assert_eq!(risk_to_str(ToolRisk::Mutating), "mutating");
    assert_eq!(risk_to_str(ToolRisk::Destructive), "destructive");
}
