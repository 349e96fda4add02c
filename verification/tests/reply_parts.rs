use goose::conversation::{
    ErrorCode, ErrorData, Message, MessageContent, Role, ToolCall, ToolRequest,
};
use goose::json::{parse, Json, Member, Number};
use goose::reply_parts::{
    accumulate, categorize_tool_requests, coerce_tool_arguments, coerce_value, current_usage,
    enhance_model_error, messages_for_provider, note_schema, prepare_tools, split_for_toolshim,
    try_coerce_boolean, wants_models, with_models, OfferedTool, ProviderError, ToolDisclosure,
    Usage,
};
use goose::tools::{plain_tool, PlatformExtension, Tool};

fn json(text: &str) -> Json {
    parse(text).unwrap()
}

fn object(text: &str) -> Vec<Member> {
    match json(text) {
        Json::Object(ms) => ms,
        _ => panic!("no object"),
    }
}

fn request(id: &str, tool: &str) -> MessageContent {
    MessageContent::ToolRequest(ToolRequest {
        id: id.to_string(),
        tool_call: Ok(ToolCall::new(tool.to_string(), None)),
        metadata: None,
        tool_meta: None,
    })
}

fn answer(content: Vec<MessageContent>) -> Message {
    Message::new(Role::Assistant, 1, content)
}

#[test]
fn categorize_tool_requests_keeps_thinking_when_not_previously_streamed() {
    let response = answer(vec![
        MessageContent::Thinking { text: "final-only reasoning".to_string(), signature: String::new() },
        request("tool-1", "test_tool"),
    ]);
    let r = categorize_tool_requests(&response, &vec![], &vec![], &vec![], false);
    assert_eq!(r.remaining_requests.len(), 1);
    assert_eq!(r.filtered_response.content.len(), 2);
    assert!(matches!(r.filtered_response.content[0], MessageContent::Thinking { .. }));
    assert!(matches!(r.filtered_response.content[1], MessageContent::ToolRequest(_)));
}

#[test]
fn categorize_tool_requests_drops_replayed_thinking_after_streaming() {
    let response = answer(vec![
        MessageContent::Thinking { text: "replayed reasoning".to_string(), signature: String::new() },
        request("tool-1", "test_tool"),
    ]);
    let r = categorize_tool_requests(&response, &vec![], &vec![], &vec![], true);
    assert_eq!(r.remaining_requests.len(), 1);
    assert_eq!(r.filtered_response.content.len(), 1);
    assert!(matches!(r.filtered_response.content[0], MessageContent::ToolRequest(_)));
}

#[test]
fn categorize_tool_requests_skips_externally_dispatched_and_preserves_marker() {
    let mut tool = plain_tool("test_tool", "a test tool", object(r#"{ "type": "object" }"#));
    tool.meta = Some(object(r#"{ "ui": { "visibility": ["model"] } }"#));
    let response = answer(vec![MessageContent::ToolRequest(ToolRequest {
        id: "tool-1".to_string(),
        tool_call: Ok(ToolCall::new("test_tool".to_string(), None)),
        metadata: None,
        tool_meta: Some(json(r#"{ "goose.external_dispatch": true }"#)),
    })]);
    let r = categorize_tool_requests(&response, &vec![tool], &vec![], &vec![], false);
    assert!(r.frontend_requests.is_empty());
    assert!(r.remaining_requests.is_empty());
    assert_eq!(r.filtered_response.content.len(), 1);
    match &r.filtered_response.content[0] {
        MessageContent::ToolRequest(req) => {
            assert!(req.is_externally_dispatched());
            assert!(req.tool_meta.as_ref().unwrap().get("ui").is_some());
        }
        _ => panic!("no request"),
    }
}

#[test]
fn categorize_tool_requests_dedups_duplicate_ids_in_provider_order() {
    let response = answer(vec![
        request("dup", "first_tool"),
        request("dup", "second_tool"),
        request("unique", "third_tool"),
    ]);
    let r = categorize_tool_requests(&response, &vec![], &vec![], &vec![], false);
    let kept: Vec<(String, String)> = r
        .remaining_requests
        .into_iter()
        .map(|q| (q.id, q.tool_call.unwrap().name))
        .collect();
    assert_eq!(
        kept,
        vec![
            ("dup".to_string(), "first_tool".to_string()),
            ("unique".to_string(), "third_tool".to_string())
        ]
    );
    let filtered: Vec<String> = r
        .filtered_response
        .content
        .into_iter()
        .filter_map(|c| match c {
            MessageContent::ToolRequest(q) => Some(q.id),
            _ => None,
        })
        .collect();
    assert_eq!(filtered, vec!["dup", "unique"]);
}

#[test]
fn frontend_requests_are_set_apart() {
    let response = answer(vec![request("1", "front"), request("2", "back")]);
    let frontend = vec!["front".to_string()];
    let r = categorize_tool_requests(&response, &vec![], &vec![], &frontend, false);
    assert_eq!(r.frontend_requests.len(), 1);
    assert_eq!(r.frontend_requests[0].id, "1");
    assert_eq!(r.remaining_requests.len(), 1);
    assert_eq!(r.remaining_requests[0].id, "2");
}

#[test]
fn texts_are_coerced_to_the_schema() {
    let readings = object(r#"{"42": 42, "1.5": 1.5}"#);
    let number = json(r#"{"type":"number"}"#);
    let boolean = json(r#"{"type":"boolean"}"#);
    let either = json(r#"{"type":["null","boolean","integer"]}"#);
    assert_eq!(coerce_value("42", &number, &readings), Json::Number(Number::Unsigned(42)));
    assert_eq!(
        coerce_value("1.5", &number, &readings),
        Json::Number(Number::Decimal("1.5".to_string()))
    );
    assert_eq!(coerce_value("x", &number, &readings), Json::Str("x".to_string()));
    assert_eq!(coerce_value("TRUE", &boolean, &readings), Json::Bool(true));
    assert_eq!(coerce_value("yes", &boolean, &readings), Json::Str("yes".to_string()));
    assert_eq!(coerce_value("false", &either, &readings), Json::Bool(false));
    assert_eq!(coerce_value("42", &either, &readings), Json::Number(Number::Unsigned(42)));
    assert_eq!(coerce_value("42", &json("{}"), &readings), Json::Str("42".to_string()));
    assert_eq!(try_coerce_boolean("False"), Json::Bool(false));
}

#[test]
fn arguments_are_coerced_by_name() {
    let schema = object(r#"{"properties":{"n":{"type":"integer"},"s":{"type":"string"}}}"#);
    let readings = object(r#"{"7": 7}"#);
    let args = Some(object(r#"{"n":"7","s":"7","other":"7"}"#));
    let r = coerce_tool_arguments(&args, &schema, &readings).unwrap();
    assert_eq!(Json::Object(r), json(r#"{"n":7,"s":"7","other":"7"}"#));
    assert_eq!(coerce_tool_arguments(&None, &schema, &readings), None);
    assert_eq!(coerce_tool_arguments(&args, &vec![], &readings), None);
}

#[test]
fn errors_about_models_name_the_models() {
    let failed = |m: &str| ProviderError::RequestFailed(m.to_string());
    let models = || Some(vec!["a".to_string(), "b".to_string()]);
    assert!(wants_models(&failed("Error 404: unknown model x")));
    assert!(wants_models(&failed("the Model was not found (400)")));
    assert!(!wants_models(&failed("Error 500: unknown model")));
    assert!(!wants_models(&failed("Error 404")));
    assert!(!wants_models(&ProviderError::Other("404 model".to_string())));
    assert_eq!(
        enhance_model_error(failed("404 model"), models()),
        failed("404 model. Available models for this provider: a, b")
    );
    assert_eq!(enhance_model_error(failed("500"), models()), failed("500"));
    assert_eq!(with_models(failed("404 model"), Some(vec![])), failed("404 model"));
    assert_eq!(with_models(failed("404 model"), None), failed("404 model"));
}

#[test]
fn chunks_are_gathered() {
    let first = accumulate(None, answer(vec![MessageContent::text("chunk1".to_string())]));
    let both = accumulate(
        Some(first),
        answer(vec![
            MessageContent::text("chunk2".to_string()),
            request("1", "t"),
            MessageContent::text("tail".to_string()),
        ]),
    );
    assert_eq!(
        both.content,
        vec![
            MessageContent::text("chunk1chunk2".to_string()),
            request("1", "t"),
            MessageContent::text("tail".to_string()),
        ]
    );
}

#[test]
fn what_no_rule_looks_at_passes_through() {
    let note = || Some(Json::Str("note".to_string()));
    let call = ToolCall { name: "t".to_string(), arguments: None, rest: note() };
    let response = answer(vec![
        MessageContent::Thinking { text: "why".to_string(), signature: "signed".to_string() },
        MessageContent::Text { text: "a".to_string(), rest: note() },
        MessageContent::ToolRequest(ToolRequest {
            id: "1".to_string(),
            tool_call: Ok(call),
            metadata: note(),
            tool_meta: None,
        }),
        MessageContent::ToolRequest(ToolRequest {
            id: "2".to_string(),
            tool_call: Err(ErrorData {
                code: ErrorCode::Other(-32700),
                message: "unreadable".to_string(),
                data: note(),
            }),
            metadata: None,
            tool_meta: None,
        }),
    ]);
    let tool = plain_tool("t", "d", vec![]);
    let r = categorize_tool_requests(&response, &vec![tool], &vec![], &vec![], false);
    assert_eq!(r.filtered_response, response);
    let more = answer(vec![MessageContent::text("b".to_string())]);
    let start = answer(vec![MessageContent::Text { text: "a".to_string(), rest: note() }]);
    assert_eq!(
        accumulate(Some(start), more).content,
        vec![MessageContent::Text { text: "ab".to_string(), rest: note() }]
    );
}

#[test]
fn the_provider_sees_what_the_agent_sees() {
    let seen = Message::text(Role::User, 1, "seen".to_string());
    let hidden = Message::text(Role::User, 1, "hidden".to_string()).with_visibility(true, false);
    let sent = messages_for_provider(&vec![seen, hidden]);
    assert_eq!(sent.len(), 1);
    assert_eq!(sent[0].text_parts(), vec!["seen"]);
}

fn offered(name: &str, owner: Option<&str>) -> OfferedTool {
    OfferedTool {
        tool: plain_tool(name, "d", vec![]),
        owner_key: owner.map(|o| o.to_string()),
    }
}

fn names(tools: &Vec<Tool>) -> Vec<String> {
    tools.iter().map(|t| t.name.clone()).collect()
}

#[test]
fn prepare_tools_returns_sorted_tools_including_frontend() {
    let mut hidden = offered("frontend__m_tool", None);
    hidden.tool.meta = Some(object(r#"{"ui":{"visibility":["app"]}}"#));
    let all = vec![offered("frontend__z_tool", None), hidden, offered("frontend__a_tool", None)];
    let tools = prepare_tools(&all, None, &vec![]);
    assert_eq!(names(&tools), vec!["frontend__a_tool", "frontend__z_tool"]);
}

#[test]
fn code_execution_hides_the_tools_behind_it() {
    let first_class = |key: &str| PlatformExtension {
        key: key.to_string(),
        unprefixed_tools: true,
        hidden: false,
    };
    let table = vec![first_class("todo"), first_class("code_execution")];
    let all = vec![
        offered("other__x", Some("other")),
        offered("todo_write", Some("todo")),
        offered("execute_typescript", Some("code_execution")),
    ];
    let tools = prepare_tools(&all, Some(ToolDisclosure::Catalog), &table);
    assert_eq!(names(&tools), vec!["execute_typescript", "todo_write"]);
    let beside = prepare_tools(&all, Some(ToolDisclosure::Sidecar), &table);
    assert_eq!(beside.len(), 3);
    assert_eq!(
        beside[1].description.as_deref(),
        Some("d\nThe successful return schema of this tool is:\nunknown")
    );
    let all_tools = prepare_tools(&all, None, &table);
    assert_eq!(all_tools.len(), 3);
}

#[test]
fn the_toolshim_takes_the_tools() {
    let tools = vec![plain_tool("a", "d", vec![])];
    let (kept, shim) = split_for_toolshim(tools, true);
    assert!(kept.is_empty());
    assert_eq!(names(&shim), vec!["a"]);
    let (kept, shim) = split_for_toolshim(shim, false);
    assert_eq!(names(&kept), vec!["a"]);
    assert!(shim.is_empty());
}

#[test]
fn usage_after_a_compaction_counts_what_was_written() {
    let usage = || Usage { input_tokens: Some(100), output_tokens: Some(20), total_tokens: Some(120) };
    let plain = current_usage(usage(), false);
    assert_eq!(plain.total_tokens, Some(120));
    let compacted = current_usage(usage(), true);
    assert_eq!(compacted.input_tokens, Some(20));
    assert_eq!(compacted.output_tokens, None);
    assert_eq!(compacted.total_tokens, Some(20));
}

#[test]
fn sidecar_tools_tell_what_they_return() {
    let mut with_schema = offered("b__x", Some("b"));
    with_schema.tool.output_schema = parse(r#"{"type": "object", "n": [1, -2, 0.5, null]}"#);
    let mut bare = offered("a__y", Some("a"));
    bare.tool.description = None;
    let tools = prepare_tools(&vec![with_schema, bare], Some(ToolDisclosure::Sidecar), &vec![]);
    assert_eq!(
        tools[0].description.as_deref(),
        Some("The successful return schema of this tool is:\nunknown")
    );
    let text = tools[1].description.as_deref().unwrap();
    assert!(text.starts_with("d\nThe successful return schema of this tool is:\n{"));
    assert!(text.contains(r#""n":[1,-2,0.5,null]"#));
    assert!(text.contains(r#""type":"object""#));
    let noted = note_schema(&plain_tool("x", "d", vec![]), Some("{}".to_string()));
    assert_eq!(
        noted.description.as_deref(),
        Some("d\nThe successful return schema of this tool is:\n{}")
    );
}
