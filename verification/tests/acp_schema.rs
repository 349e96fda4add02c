use goose::acp_schema::{
    add_mcp_server_transport_discriminants, add_object_discriminant, build_meta, build_schema,
    collect_mentions, find_methods, generated_type_name, is_unstable_method, list_params,
    list_results, prepare_definitions, replace_true_schemas, rewrite_unstable_schema_refs,
    strip_integer_formats, type_names, unstable_type_names, MethodSchema,
};
use goose::json::{member, parse, Json, Member};

fn json(text: &str) -> Json {
    parse(text).unwrap()
}

fn object(text: &str) -> Vec<Member> {
    match json(text) {
        Json::Object(ms) => ms,
        _ => panic!("no object"),
    }
}

fn at<'a>(value: &'a Json, path: &[&str]) -> Option<&'a Json> {
    let mut v = value;
    for key in path {
        v = v.get(key)?;
    }
    Some(v)
}

#[test]
fn adds_http_and_sse_discriminants_without_tagging_stdio() {
    let def = r#"{
        "type": "object",
        "properties": { "name": { "type": "string" } },
        "required": ["name"]
    }"#;
    let mut defs = object(&format!(
        r#"{{ "McpServerHttp": {def}, "McpServerSse": {def}, "McpServerStdio": {def} }}"#
    ));
    add_mcp_server_transport_discriminants(&mut defs).unwrap();
    let http = member(&defs, "McpServerHttp").unwrap();
    let sse = member(&defs, "McpServerSse").unwrap();
    let stdio = member(&defs, "McpServerStdio").unwrap();
    let tag = at(http, &["properties", "type"]).unwrap();
    assert_eq!(tag.get_str("type"), Some("string"));
    assert_eq!(tag.get_str("const"), Some("http"));
    let tag = at(sse, &["properties", "type"]).unwrap();
    assert_eq!(tag.get_str("type"), Some("string"));
    assert_eq!(tag.get_str("const"), Some("sse"));
    assert_eq!(at(stdio, &["properties", "type"]), None);
    assert_eq!(http.get("required"), Some(&json(r#"["type", "name"]"#)));
    assert_eq!(sse.get("required"), Some(&json(r#"["type", "name"]"#)));
}

#[test]
fn strips_integer_formats_from_nullable_integer_schemas() {
    let mut schema = json(
        r#"{
            "type": "object",
            "properties": {
                "timeout": { "type": ["integer", "null"], "format": "uint64", "minimum": 0 },
                "count": { "type": "integer", "format": "uint32", "minimum": 0 },
                "name": { "type": "string", "format": "custom" }
            }
        }"#,
    );
    strip_integer_formats(&mut schema);
    assert_eq!(at(&schema, &["properties", "timeout", "format"]), None);
    assert_eq!(at(&schema, &["properties", "count", "format"]), None);
    assert_eq!(
        at(&schema, &["properties", "name", "format"]),
        Some(&Json::Str("custom".to_string()))
    );
    assert!(at(&schema, &["properties", "count", "minimum"]).is_some());
}

#[test]
fn definitions_that_cannot_be_tagged_are_errors() {
    let mut defs = object(r#"{ "A": 1, "B": { "properties": 1 }, "C": { "required": 1 }, "D": {} }"#);
    let tag = |defs: &mut Vec<Member>, n: &str| add_object_discriminant(defs, n, "t");
    assert_eq!(tag(&mut defs, "X"), Err("missing X schema definition".to_string()));
    assert_eq!(tag(&mut defs, "A"), Err("A schema definition must be an object".to_string()));
    assert_eq!(tag(&mut defs, "B"), Err("B.properties must be an object".to_string()));
    assert_eq!(tag(&mut defs, "C"), Err("C.required must be an array".to_string()));
    assert_eq!(tag(&mut defs, "D"), Ok(()));
    assert_eq!(tag(&mut defs, "D"), Ok(()));
    let d = member(&defs, "D").unwrap();
    assert_eq!(d.get("required"), Some(&json(r#"["type"]"#)));
}

#[test]
fn no_true_is_left_inside() {
    let mut v = json(r#"{"a": true, "b": [true, false, {"c": true}], "d": "true"}"#);
    replace_true_schemas(&mut v);
    assert_eq!(v, json(r#"{"a": {}, "b": [{}, false, {"c": {}}], "d": "true"}"#));
    let mut v = Json::Bool(true);
    replace_true_schemas(&mut v);
    assert_eq!(v, Json::Bool(true));
}

fn method(method: &str, params: Option<&str>, response: Option<&str>) -> MethodSchema {
    MethodSchema {
        method: method.to_string(),
        params_type_name: params.map(|s| s.to_string()),
        response_type_name: response.map(|s| s.to_string()),
    }
}

#[test]
fn unstable_types_are_used_by_unstable_methods_alone() {
    assert!(is_unstable_method("_goose/unstable/x"));
    assert!(!is_unstable_method("_goose/x"));
    let methods = vec![
        method("_goose/unstable/a", Some("A"), Some("Empty")),
        method("_goose/b", Some("B"), Some("Empty")),
    ];
    let mentions = collect_mentions(&methods, &vec![], &vec![]);
    assert_eq!(type_names(&mentions), vec!["A", "Empty", "B"]);
    assert_eq!(find_methods(&mentions, "Empty"), vec!["_goose/unstable/a", "_goose/b"]);
    let unstable = unstable_type_names(&mentions);
    assert_eq!(unstable, vec!["A"]);
    assert_eq!(generated_type_name("A", &unstable), "A_unstable");
    assert_eq!(generated_type_name("B", &unstable), "B");
}

#[test]
fn references_follow_their_types() {
    let unstable = vec!["A".to_string()];
    let mut v = json(
        r##"{"x": {"$ref": "#/$defs/A"}, "y": [{"$ref": "#/$defs/B"}], "$ref": "A", "z": "#/$defs/A"}"##,
    );
    rewrite_unstable_schema_refs(&mut v, &unstable);
    assert_eq!(
        v,
        json(
            r##"{"x": {"$ref": "#/$defs/A_unstable"}, "y": [{"$ref": "#/$defs/B"}], "$ref": "A", "z": "#/$defs/A"}"##
        )
    );
}

#[test]
fn two_definitions_cannot_have_one_name() {
    let defs = object(r#"{ "A": {}, "A_unstable": {} }"#);
    assert_eq!(
        prepare_definitions(&defs, &vec!["A".to_string()]),
        Err("duplicate schema definition name after unstable suffix: A_unstable".to_string())
    );
    let prepared = prepare_definitions(&defs, &vec![]).unwrap();
    assert_eq!(prepared.len(), 2);
}

#[test]
fn results_are_listed_once() {
    let methods = vec![
        method("a", Some("P"), Some("R")),
        method("b", None, Some("R")),
        method("c", Some("P"), None),
    ];
    assert_eq!(list_results(&methods, &vec![]).len(), 1);
    let params = list_params(&methods, &vec![]);
    assert_eq!(params.len(), 2);
    assert_eq!(params[1].get_str("description"), Some("Params for c"));
    assert_eq!(params[1].get_str("title"), Some("P"));
}

#[test]
fn the_document_holds_definitions_and_messages() {
    let defs = object(
        r#"{ "P": {"type": "object"}, "R": {"type": "object"},
             "Q": {"type": "object"},
             "McpServerHttp": {"type": "object"}, "McpServerSse": {"type": "object"} }"#,
    );
    let methods = vec![
        method("_goose/unstable/a", Some("P"), Some("R")),
        method("_goose/b", None, Some("R")),
    ];
    let requests = vec![method("_goose/ask", Some("Q"), None)];
    let doc = build_schema(&defs, &methods, &vec![], &requests).unwrap();
    assert_eq!(doc.get_str("title"), Some("GooseExtensions"));
    let p = at(&doc, &["$defs", "P_unstable"]).unwrap();
    assert_eq!(p.get_str("x-side"), Some("agent"));
    assert_eq!(p.get_str("x-method"), Some("_goose/unstable/a"));
    let r = at(&doc, &["$defs", "R"]).unwrap();
    assert_eq!(r.get_str("x-side"), Some("agent"));
    assert_eq!(r.get("x-method"), None);
    let q = at(&doc, &["$defs", "Q"]).unwrap();
    assert_eq!(q.get_str("x-side"), Some("client"));
    for name in ["ExtRequest", "ExtResponse", "ExtNotification", "ExtAgentRequest", "ExtAgentResponse"] {
        assert!(at(&doc, &["$defs", name]).is_some());
    }
    match doc.get("anyOf") {
        Some(Json::Array(v)) => assert_eq!(v.len(), 5),
        _ => panic!("no variants"),
    }
    assert_eq!(
        build_schema(&vec![], &methods, &vec![], &vec![]),
        Err("missing McpServerHttp schema definition".to_string())
    );
}

#[test]
fn the_method_list_names_the_types() {
    let methods = vec![method("_goose/unstable/a", Some("P"), None)];
    let notifications = vec![method("_goose/n", Some("N"), None)];
    let meta = build_meta(&methods, &notifications, &vec![]);
    match meta.get("methods") {
        Some(Json::Array(v)) => {
            assert_eq!(v.len(), 1);
            assert_eq!(v[0].get_str("method"), Some("_goose/unstable/a"));
            assert_eq!(v[0].get_str("requestType"), Some("P_unstable"));
            assert_eq!(v[0].get("responseType"), Some(&Json::Null));
        }
        _ => panic!("no methods"),
    }
    match meta.get("notifications") {
        Some(Json::Array(v)) => {
            assert_eq!(v[0].get_str("paramsType"), Some("N"));
        }
        _ => panic!("no notifications"),
    }
    assert_eq!(meta.get("agentRequests"), Some(&Json::Array(vec![])));
}
