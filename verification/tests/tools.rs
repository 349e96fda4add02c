use goose::conversation::ToolOutput;
use goose::json::{member, parse, Json, Member};
use goose::tools::{
    get_parameter_names, tool_infos, get_tool_meta_value, get_tool_owner, get_tool_resource_uri,
    insert_trusted_tool_update_meta, is_first_class_extension, is_hidden_extension,
    is_tool_visible_to_app, is_tool_visible_to_model, plain_tool, remove_untrusted_mcp_app_meta,
    GooseMcpAppToolAttachment, PlatformExtension, Tool,
};

fn json(text: &str) -> Json {
    parse(text).unwrap()
}

fn object(text: &str) -> Vec<Member> {
    match json(text) {
        Json::Object(ms) => ms,
        _ => panic!("no object"),
    }
}

fn make_tool_with_meta(meta: Option<&str>) -> Tool {
    let mut tool = plain_tool("test_tool", "a test tool", object(r#"{ "type": "object" }"#));
    tool.meta = meta.map(object);
    tool
}

#[test]
fn test_tool_visible_when_no_meta() {
    assert!(is_tool_visible_to_model(&make_tool_with_meta(None)));
}

#[test]
fn test_tool_visible_when_meta_has_no_ui() {
    assert!(is_tool_visible_to_model(&make_tool_with_meta(Some(r#"{"other": "stuff"}"#))));
}

#[test]
fn test_tool_visible_when_ui_has_no_visibility() {
    let tool = make_tool_with_meta(Some(r#"{"ui": {"resourceUri": "ui://foo/bar"}}"#));
    assert!(is_tool_visible_to_model(&tool));
}

#[test]
fn test_tool_visible_when_visibility_includes_model() {
    let tool = make_tool_with_meta(Some(r#"{"ui": {"visibility": ["model", "app"]}}"#));
    assert!(is_tool_visible_to_model(&tool));
}

#[test]
fn test_tool_visible_when_visibility_is_model_only() {
    let tool = make_tool_with_meta(Some(r#"{"ui": {"visibility": ["model"]}}"#));
    assert!(is_tool_visible_to_model(&tool));
}

#[test]
fn test_tool_hidden_when_visibility_is_app_only() {
    let tool = make_tool_with_meta(Some(r#"{"ui": {"visibility": ["app"]}}"#));
    assert!(!is_tool_visible_to_model(&tool));
}

#[test]
fn test_tool_hidden_when_visibility_is_empty() {
    let tool = make_tool_with_meta(Some(r#"{"ui": {"visibility": []}}"#));
    assert!(!is_tool_visible_to_model(&tool));
}

#[test]
fn test_tool_visible_when_visibility_is_not_array() {
    let tool = make_tool_with_meta(Some(r#"{"ui": {"visibility": "model"}}"#));
    assert!(is_tool_visible_to_model(&tool));
}

#[test]
fn test_app_visible_when_no_meta() {
    assert!(is_tool_visible_to_app(&make_tool_with_meta(None)));
}

#[test]
fn test_app_visible_when_visibility_includes_app() {
    let tool = make_tool_with_meta(Some(r#"{"ui": {"visibility": ["model", "app"]}}"#));
    assert!(is_tool_visible_to_app(&tool));
}

#[test]
fn test_app_visible_when_visibility_is_app_only() {
    let tool = make_tool_with_meta(Some(r#"{"ui": {"visibility": ["app"]}}"#));
    assert!(is_tool_visible_to_app(&tool));
}

#[test]
fn test_app_hidden_when_visibility_is_model_only() {
    let tool = make_tool_with_meta(Some(r#"{"ui": {"visibility": ["model"]}}"#));
    assert!(!is_tool_visible_to_app(&tool));
}

#[test]
fn test_app_hidden_when_visibility_is_empty() {
    let tool = make_tool_with_meta(Some(r#"{"ui": {"visibility": []}}"#));
    assert!(!is_tool_visible_to_app(&tool));
}

fn empty_output() -> ToolOutput {
    ToolOutput { content: vec![], is_error: Some(false), structured_content: None, meta: None }
}

#[test]
fn test_remove_untrusted_mcp_app_meta_strips_spoofed_payload() {
    let mut result = empty_output();
    result.meta = Some(json(
        r#"{
            "goose": {
                "mcpApp": { "resourceUri": "ui://spoofed/app" },
                "other": true
            },
            "__goose_tool_update_meta": {
                "mcpApp": { "resourceUri": "ui://spoofed/internal" }
            }
        }"#,
    ));
    remove_untrusted_mcp_app_meta(&mut result);
    let meta = result.meta.expect("expected remaining meta");
    assert_eq!(meta.get("__goose_tool_update_meta"), None);
    assert_eq!(meta.get("goose"), Some(&json(r#"{ "other": true }"#)));
}

#[test]
fn nothing_is_left_of_meta_that_held_only_spoofs() {
    let mut result = empty_output();
    result.meta = Some(json(r#"{ "goose": { "mcpApp": 1 } }"#));
    remove_untrusted_mcp_app_meta(&mut result);
    assert_eq!(result.meta, None);
}

#[test]
fn test_insert_trusted_tool_update_meta_stores_backend_payload() {
    let mut result = empty_output();
    let attachment = GooseMcpAppToolAttachment {
        tool_name: "weather__render".to_string(),
        extension_name: "weather".to_string(),
        resource_uri: "ui://weather/app".to_string(),
        tool_meta: None,
        resource_result: Some(json(
            r#"{ "contents": [ {
                "uri": "ui://weather/app",
                "mimeType": "text/html;profile=mcp-app",
                "text": "<div>Hello</div>"
            } ] }"#,
        )),
        read_error: None,
    };
    insert_trusted_tool_update_meta(&mut result, &attachment);
    let meta = result.meta.expect("expected trusted meta");
    let stored = meta.get("__goose_tool_update_meta").unwrap();
    let app = stored.get("mcpApp").unwrap();
    assert_eq!(app.get_str("toolName"), Some("weather__render"));
    assert_eq!(app.get_str("extensionName"), Some("weather"));
    assert_eq!(app.get_str("resourceUri"), Some("ui://weather/app"));
    assert_eq!(
        app.get("resourceResult"),
        Some(&json(
            r#"{ "contents": [ {
                "uri": "ui://weather/app",
                "mimeType": "text/html;profile=mcp-app",
                "text": "<div>Hello</div>"
            } ] }"#
        ))
    );
    match app {
        Json::Object(ms) => assert_eq!(ms.len(), 4),
        _ => panic!("no object"),
    }
    match stored {
        Json::Object(ms) => assert_eq!(ms.len(), 1),
        _ => panic!("no object"),
    }
}

#[test]
fn a_failed_read_is_attached() {
    let attachment = GooseMcpAppToolAttachment {
        tool_name: "t".to_string(),
        extension_name: "e".to_string(),
        resource_uri: "ui://e/a".to_string(),
        tool_meta: Some(json("{}")),
        resource_result: None,
        read_error: Some("gone".to_string()),
    };
    let j = attachment.to_json();
    assert_eq!(j.get_str("readError"), Some("gone"));
    assert_eq!(j.get("toolMeta"), Some(&json("{}")));
    assert_eq!(j.get("resourceResult"), None);
}

#[test]
fn tools_say_whose_they_are() {
    let mut tool = make_tool_with_meta(Some(
        r#"{"goose_extension": "dev", "ui": {"resourceUri": "ui://dev/x"}}"#,
    ));
    assert_eq!(get_tool_owner(&tool).as_deref(), Some("dev"));
    assert_eq!(get_tool_resource_uri(&tool).as_deref(), Some("ui://dev/x"));
    assert!(get_tool_meta_value(&tool).is_some());
    tool.meta = None;
    assert_eq!(get_tool_owner(&tool), None);
    assert_eq!(get_tool_resource_uri(&tool), None);
    assert_eq!(get_tool_meta_value(&tool), None);
}

#[test]
fn parameters_are_the_properties() {
    let mut tool = make_tool_with_meta(None);
    assert!(get_parameter_names(&tool).is_empty());
    tool.input_schema = object(r#"{"type":"object","properties":{"a":{},"b":{}}}"#);
    assert_eq!(get_parameter_names(&tool), vec!["a".to_string(), "b".to_string()]);
    let mut bare = plain_tool("bare", "d", vec![]);
    bare.description = None;
    let told = tool_infos(&vec![tool, bare]);
    assert_eq!(told[0].parameters, vec!["a".to_string(), "b".to_string()]);
    assert_eq!(told[1].name, "bare");
    assert_eq!(told[1].description, "");
    assert!(told[1].parameters.is_empty());
}

#[test]
fn platform_extensions_are_looked_up() {
    let table = vec![
        PlatformExtension { key: "todo".to_string(), unprefixed_tools: true, hidden: false },
        PlatformExtension { key: "secret".to_string(), unprefixed_tools: false, hidden: true },
    ];
    assert!(is_first_class_extension("todo", &table));
    assert!(!is_first_class_extension("secret", &table));
    assert!(!is_first_class_extension("none", &table));
    assert!(is_hidden_extension("secret", &table));
    assert!(!is_hidden_extension("todo", &table));
}

#[test]
fn members_are_found_by_name() {
    let ms = object(r#"{"a":1,"b":-2,"c":0.5}"#);
    assert_eq!(member(&ms, "a").and_then(|j| j.as_u64()), Some(1));
    assert_eq!(member(&ms, "b").and_then(|j| j.as_u64()), None);
    assert!(member(&ms, "d").is_none());
    assert!(parse("{").is_none());
}
