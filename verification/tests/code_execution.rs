use goose::code_execution::{
    callback_arguments, callback_keys, callback_result, catalog_disclosure_moim, code_moim,
    disclosure_setting, dispatch_failure, full_name, list_code_tools, load_callback_configs,
    read_code_call, reuses_code_mode, value_of_text, CodeCall, CodeToolTexts, ToolText,
};
use goose::conversation::{ErrorData, OutputPart, Role, ToolOutput};
use goose::json::{parse, Json};
use goose::reply_parts::ToolDisclosure;
use goose::tools::{plain_tool, Tool};

#[test]
fn catalog_moim_mentions_inspection_tools_without_function_names() {
    let moim = catalog_disclosure_moim(3);
    assert!(moim.contains("3 callback functions"));
    assert!(moim.contains("list_functions"));
    assert!(moim.contains("get_function_details"));
    assert!(!moim.contains("extract_relations"));
    assert!(!moim.contains("ask_heimdall"));
}

#[test]
fn an_empty_catalog_says_so() {
    assert_eq!(
        catalog_disclosure_moim(0),
        "No execute_typescript callback functions are currently registered."
    );
}

fn tool(name: &str, owner: Option<&str>) -> Tool {
    let mut t = plain_tool(name, "does it", vec![]);
    t.meta = owner.map(|o| match parse(&format!("{{\"goose_extension\":\"{o}\"}}")) {
        Some(Json::Object(ms)) => ms,
        _ => panic!("no object"),
    });
    t
}

#[test]
fn functions_call_the_tools_they_were_made_from() {
    let tools = vec![tool("dev__shell__x", Some("other")), tool("todo", Some("tasks")), tool("bare", None)];
    let configs = load_callback_configs(&tools);
    let parts: Vec<(&str, Option<&str>)> =
        configs.iter().map(|c| (c.name.as_str(), c.namespace.as_deref())).collect();
    assert_eq!(
        parts,
        vec![("shell__x", Some("dev")), ("todo", Some("tasks")), ("bare", None)]
    );
    let names: Vec<String> = configs.iter().map(full_name).collect();
    assert_eq!(names, vec!["dev__shell__x", "tasks__todo", "bare"]);
}

#[test]
fn keys_do_not_depend_on_the_order() {
    let a = vec!["b".to_string(), "a".to_string(), "b".to_string()];
    let b = vec!["b".to_string(), "b".to_string(), "a".to_string()];
    assert_eq!(callback_keys(&a), callback_keys(&b));
    assert_eq!(callback_keys(&a), vec!["a", "b", "b"]);
    assert!(reuses_code_mode(Some(7), 7));
    assert!(!reuses_code_mode(Some(8), 7));
    assert!(!reuses_code_mode(None, 7));
}

fn texts() -> CodeToolTexts {
    let text = |d: &str| ToolText { description: d.to_string(), schema: vec![] };
    CodeToolTexts {
        list_functions: "l".to_string(),
        get_function_details: text("g"),
        execute_bash: text("b"),
        execute_typescript_catalog: "tc".to_string(),
        execute_typescript_filesystem: "tf".to_string(),
        execute_typescript_sidecar: "ts".to_string(),
        execute_typescript_schema: vec![],
    }
}

#[test]
fn tools_depend_on_the_disclosure() {
    let names = |d: ToolDisclosure| -> Vec<String> {
        list_code_tools(d, &texts()).into_iter().map(|t| t.name).collect()
    };
    assert_eq!(
        names(ToolDisclosure::Catalog),
        vec!["list_functions", "get_function_details", "execute_typescript"]
    );
    assert_eq!(names(ToolDisclosure::Filesystem), vec!["execute_bash", "execute_typescript"]);
    assert_eq!(names(ToolDisclosure::Sidecar), vec!["execute_typescript"]);
    let told = |d: ToolDisclosure| list_code_tools(d, &texts()).pop().unwrap().description;
    assert_eq!(told(ToolDisclosure::Catalog).as_deref(), Some("tc"));
    assert_eq!(told(ToolDisclosure::Filesystem).as_deref(), Some("tf"));
    assert_eq!(told(ToolDisclosure::Sidecar).as_deref(), Some("ts"));
    let first = list_code_tools(ToolDisclosure::Catalog, &texts()).remove(0);
    assert_eq!(
        Some(Json::Object(first.input_schema)),
        parse(r#"{"type":"object","properties":{},"required":[]}"#)
    );
    let all = list_code_tools(ToolDisclosure::Filesystem, &texts());
    let bash = all[0].annotations.as_ref().unwrap();
    assert_eq!(bash.title.as_deref(), Some("Get function details"));
    assert_eq!(bash.hints.read_only, Some(true));
    let script = all[1].annotations.as_ref().unwrap();
    assert_eq!(script.hints.read_only, Some(false));
    assert_eq!(script.hints.destructive, Some(true));
    assert_eq!(script.hints.idempotent, Some(false));
    assert_eq!(script.hints.open_world, Some(true));
}

#[test]
fn calls_are_told_apart() {
    assert_eq!(read_code_call("list_functions", None), Ok(CodeCall::ListFunctions));
    assert_eq!(
        read_code_call("execute_bash", Some(vec![])),
        Ok(CodeCall::ExecuteBash(vec![]))
    );
    assert_eq!(
        read_code_call("get_function_details", Some(vec![])),
        Ok(CodeCall::GetFunctionDetails(vec![]))
    );
    assert_eq!(
        read_code_call("execute_typescript", None),
        Err("Missing arguments for execute_typescript".to_string())
    );
    assert_eq!(read_code_call("other", None), Err("Unknown tool: other".to_string()));
}

fn output(parts: Vec<(&str, Option<Vec<Role>>)>) -> ToolOutput {
    ToolOutput {
        content: parts
            .into_iter()
            .map(|(t, audience)| OutputPart::Text { text: t.to_string(), audience, rest: None })
            .collect(),
        is_error: Some(false),
        structured_content: None,
        meta: None,
    }
}

#[test]
fn code_gets_data_or_text() {
    let r = callback_result(&Ok(output(vec![
        ("a", None),
        ("hidden", Some(vec![Role::User])),
        ("b", Some(vec![Role::User, Role::Assistant])),
        ("c", Some(vec![])),
    ])));
    assert_eq!(r, Ok(Json::Str("a\nb\nc".to_string())));
    let r = callback_result(&Ok(output(vec![("{\"x\":1}", None)])));
    assert_eq!(r, Ok(parse("{\"x\":1}").unwrap()));
    let mut o = output(vec![("text", None)]);
    o.structured_content = Some(Json::Bool(true));
    assert_eq!(callback_result(&Ok(o)), Ok(Json::Bool(true)));
    let r = callback_result(&Err(ErrorData::internal("boom".to_string())));
    assert_eq!(r, Err("Tool error: boom".to_string()));
    assert_eq!(dispatch_failure("gone"), "Dispatch error: gone");
}

#[test]
fn values_of_texts() {
    assert_eq!(value_of_text("x".to_string(), None), Json::Str("x".to_string()));
    assert_eq!(value_of_text("1".to_string(), Some(Json::Null)), Json::Null);
    assert_eq!(callback_arguments(Some(Json::Object(vec![]))), Some(vec![]));
    assert_eq!(callback_arguments(Some(Json::Null)), None);
    assert_eq!(callback_arguments(None), None);
}

#[test]
fn the_model_is_told_how_to_use_the_functions() {
    let files = vec!["a.ts".to_string(), "b.ts".to_string()];
    let text = code_moim(ToolDisclosure::Filesystem, 2, &files);
    assert!(text.starts_with("ALWAYS batch multiple tool operations into ONE"));
    assert!(text.ends_with("The available files are: a.ts, b.ts\n"));
    assert!(code_moim(ToolDisclosure::Catalog, 2, &files).contains("2 callback functions"));
    assert!(code_moim(ToolDisclosure::Sidecar, 2, &files).contains("Prioritize calling tools"));
    assert_eq!(disclosure_setting(None), "catalog");
    assert_eq!(disclosure_setting(Some("sidecar".to_string())), "sidecar");
}
