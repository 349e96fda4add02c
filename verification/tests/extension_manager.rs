use goose::agent::{ExtensionManagerCapabilities, GooseMcpHostInfo};
use goose::conversation::{ErrorCode, ToolOutput};
use goose::extension_manager::{
    attachment_for, filter_tools, finish_call, has_tool, join_tools, listing_failed,
    publish_tools, read_request, require_str_parameter, resource_list, resource_texts,
    resource_to_attach, take_page, ui_resources, unreadable_resource, AddStep,
    ConfiguredExtension, ExtensionManager, ListedResource, Listing, LoadedExtension, ResolvedTool,
    StartedClient, ToolPage,
};
use goose::extensions::{
    plan_client, ClientPlan, ExtensionConfig, ExtensionKind, StartContext,
};
use goose::json::{parse, Json};
use goose::tools::{get_tool_owner, plain_tool, PlatformExtension, Tool};

fn config(name: &str, key: &str, available: Vec<String>) -> ExtensionConfig {
    ExtensionConfig {
        key: key.to_string(),
        name: name.to_string(),
        description: "built-in".to_string(),
        bundled: None,
        available_tools: available,
        kind: ExtensionKind::Builtin { display_name: Some(name.to_string()), timeout: None },
    }
}

fn loaded(key: &str, available: Vec<String>) -> LoadedExtension {
    LoadedExtension {
        key: key.to_string(),
        config: config(key, key, available.clone()),
        resolved: config(key, key, available),
        instructions: None,
        supports_resources: false,
    }
}

fn served() -> Vec<Tool> {
    vec![
        plain_tool("tool", "A basic tool", vec![]),
        plain_tool("available_tool", "An available tool", vec![]),
        plain_tool("hidden_tool", "hidden tool", vec![]),
    ]
}

fn all_tools(manager: &ExtensionManager) -> Vec<Tool> {
    let mut all: Vec<Tool> = vec![];
    for e in &manager.extensions {
        all = join_tools(all, &publish_tools(&e.key, false, &e.config, &served()));
    }
    all
}

fn names(tools: &Vec<Tool>) -> Vec<String> {
    tools.iter().map(|t| t.name.clone()).collect()
}

fn manager(keys: &[&str]) -> ExtensionManager {
    let mut m = ExtensionManager::new();
    for k in keys {
        m.add_client(loaded(k, vec![]));
    }
    m
}

#[test]
fn test_dispatch_tool_call() {
    let m = manager(&["test_client", "__cli__ent__", "client_"]);
    let tools = all_tools(&m);
    let call = |name: &str, prefix_key: &str| m.dispatch_tool_call(&tools, name, prefix_key);
    assert!(call("test_client__tool", "test_client").is_ok());
    assert!(call("test_client__available_tool", "test_client").is_ok());
    assert!(call("__cli__ent____tool", "").is_ok());
    let r = call("client___tool", "client").unwrap();
    assert_eq!(r.extension_name, "client_");
    assert_eq!(r.actual_tool_name, "tool");
    let e = call("client___tools", "client").unwrap_err();
    assert_eq!(e.code, ErrorCode::ResourceNotFound);
    let e = call("_client__tools", "_client").unwrap_err();
    assert_eq!(e.code, ErrorCode::ResourceNotFound);
}

#[test]
fn test_tool_availability_filtering() {
    let mut m = ExtensionManager::new();
    m.add_client(loaded("test_extension", vec!["available_tool".to_string()]));
    assert_eq!(names(&all_tools(&m)), vec!["test_extension__available_tool"]);
}

#[test]
fn test_tool_availability_defaults_to_available() {
    let tools = all_tools(&manager(&["test_extension"]));
    assert_eq!(
        names(&tools),
        vec![
            "test_extension__tool",
            "test_extension__available_tool",
            "test_extension__hidden_tool"
        ]
    );
    for t in &tools {
        assert_eq!(get_tool_owner(t).as_deref(), Some("test_extension"));
    }
}

#[test]
fn test_dispatch_unavailable_tool_returns_error() {
    let mut m = ExtensionManager::new();
    m.add_client(loaded("test_extension", vec!["available_tool".to_string()]));
    let tools = all_tools(&m);
    let e = m
        .dispatch_tool_call(&tools, "test_extension__tool", "test_extension")
        .unwrap_err();
    assert_eq!(e.code, ErrorCode::ResourceNotFound);
    assert!(m
        .dispatch_tool_call(&tools, "test_extension__available_tool", "test_extension")
        .is_ok());
}

/// The tools as they are asked for: those that are kept, or else those of the extensions, which
/// are then kept.
fn get_prefixed_tools(m: &mut ExtensionManager) -> Vec<String> {
    if let Some(kept) = m.cached_tools() {
        return names(kept);
    }
    let version = m.tools_cache_version;
    let tools = all_tools(m);
    let found = names(&tools);
    m.store_tools(version, tools);
    found
}

#[test]
fn test_tools_cache_invalidated_on_add_extension() {
    let mut m = manager(&["ext_a"]);
    let tool_names = get_prefixed_tools(&mut m);
    assert!(tool_names.iter().any(|n| n.starts_with("ext_a__")));
    assert!(!tool_names.iter().any(|n| n.starts_with("ext_b__")));
    assert!(m.cached_tools().is_some());
    m.add_client(loaded("ext_b", vec![]));
    let tool_names = get_prefixed_tools(&mut m);
    assert!(tool_names.iter().any(|n| n.starts_with("ext_a__")));
    assert!(tool_names.iter().any(|n| n.starts_with("ext_b__")));
}

#[test]
fn test_tools_cache_invalidated_on_remove_extension() {
    let mut m = manager(&["ext_a", "ext_b"]);
    let tool_names = get_prefixed_tools(&mut m);
    assert!(tool_names.iter().any(|n| n.starts_with("ext_a__")));
    assert!(tool_names.iter().any(|n| n.starts_with("ext_b__")));
    m.remove_extension("ext_b");
    let tool_names = get_prefixed_tools(&mut m);
    assert!(tool_names.iter().any(|n| n.starts_with("ext_a__")));
    assert!(!tool_names.iter().any(|n| n.starts_with("ext_b__")));
    assert!(m.is_extension_enabled("ext_a"));
    assert!(!m.is_extension_enabled("ext_b"));
}

#[test]
fn stale_tools_are_not_kept() {
    let mut m = manager(&["ext_a"]);
    let version = m.tools_cache_version;
    let tools = all_tools(&m);
    m.add_client(loaded("ext_b", vec![]));
    m.store_tools(version, tools);
    assert!(m.cached_tools().is_none());
}

#[test]
fn test_get_prefixed_tools_excluding() {
    let tools = all_tools(&manager(&["ext_a", "ext_b"]));
    let rest = names(&filter_tools(&tools, None, Some("ext_a")));
    assert!(!rest.iter().any(|n| n.starts_with("ext_a__")));
    assert!(rest.iter().any(|n| n.starts_with("ext_b__")));
}

#[test]
fn test_get_prefixed_tools_by_extension_name() {
    let tools = all_tools(&manager(&["ext_a", "ext_b"]));
    let rest = names(&filter_tools(&tools, Some("ext_a"), None));
    assert!(rest.iter().any(|n| n.starts_with("ext_a__")));
    assert!(!rest.iter().any(|n| n.starts_with("ext_b__")));
}

#[test]
fn test_resolve_tool_error_includes_available_tools() {
    let m = manager(&["ext_a"]);
    let e = m.resolve_tool(&all_tools(&m), "definitely_not_a_real_tool", "").unwrap_err();
    assert!(e.message.contains("definitely_not_a_real_tool"));
    assert!(e.message.contains("ext_a__"));
}

fn frontend_config(description: &str) -> ExtensionConfig {
    ExtensionConfig {
        key: "test-ext".to_string(),
        name: "test-ext".to_string(),
        description: description.to_string(),
        bundled: None,
        available_tools: vec![],
        kind: ExtensionKind::Frontend { tools: vec![], instructions: None },
    }
}

fn frontend_loaded(description: &str) -> LoadedExtension {
    LoadedExtension {
        key: "test-ext".to_string(),
        config: frontend_config(description),
        resolved: frontend_config(description),
        instructions: None,
        supports_resources: false,
    }
}

/// What starting an extension comes to where nothing outside is reached.
fn started(config: &ExtensionConfig) -> Result<StartedClient, String> {
    let context = StartContext {
        builtin_known: false,
        container: None,
        session_id: None,
        working_dir: "/work".to_string(),
        python_file: String::new(),
    };
    match plan_client(config, vec![], &context, &vec![]) {
        ClientPlan::Refused(message) => Err(message),
        _ => Ok(StartedClient { instructions: None, supports_resources: false }),
    }
}

#[test]
fn test_add_extension_noop_on_identical_config() {
    let mut m = ExtensionManager::new();
    m.add_client(frontend_loaded("original"));
    assert_eq!(m.extensions.len(), 1);
    let config = frontend_config("original");
    assert_eq!(m.plan_add(&config, &frontend_config("original")), AddStep::Keep);
    let start = started(&config);
    let result = m.add_extension(config, frontend_config("original"), start);
    assert!(result.is_ok(), "identical config should be a no-op");
    assert_eq!(m.extensions.len(), 1, "extension must not be removed on no-op");
    assert_eq!(m.extensions[0], frontend_loaded("original"));
}

#[test]
fn test_add_extension_replaces_extension_on_config_change() {
    let mut m = ExtensionManager::new();
    m.add_client(frontend_loaded("version-a"));
    assert_eq!(m.extensions.len(), 1);
    let config = frontend_config("version-b");
    assert_eq!(m.plan_add(&config, &frontend_config("version-b")), AddStep::Start);
    let start = started(&config);
    let result = m.add_extension(config, frontend_config("version-b"), start);
    assert!(result.is_err(), "Frontend add_extension must return Err");
    assert_eq!(
        m.extensions.len(),
        1,
        "old extension must be preserved when replacement client creation fails"
    );
    assert_eq!(m.extensions[0], frontend_loaded("version-a"));
}

#[test]
fn changed_extensions_are_replaced_once_they_are_started() {
    let mut m = manager(&["test-ext", "other"]);
    let version = m.tools_cache_version;
    let mut changed = config("test-ext", "test-ext", vec![]);
    changed.description = "updated".to_string();
    let resolved = config("test-ext", "test-ext", vec![]);
    let client = StartedClient { instructions: Some("i".to_string()), supports_resources: true };
    assert_eq!(m.add_extension(changed, resolved, Ok(client)), Ok(()));
    assert_eq!(m.list_extensions(), vec!["test-ext", "other"]);
    let k = m.find("test-ext").unwrap();
    assert_eq!(m.extensions[k].config.description, "updated");
    assert_eq!(m.extensions[k].instructions.as_deref(), Some("i"));
    assert_eq!(m.tools_cache_version, version + 1);
    let rotated = config("test-ext", "test-ext", vec!["x".to_string()]);
    let mut same = config("test-ext", "test-ext", vec![]);
    same.description = "updated".to_string();
    assert_eq!(m.plan_add(&same, &rotated), AddStep::Start);
    assert_eq!(m.finish_add(Err("no".to_string())), Err("no".to_string()));
    assert_eq!(m.tools_cache_version, version + 1);
}

#[test]
fn pages_of_tools_are_put_together() {
    let mut tools: Vec<Tool> = vec![];
    let page = |name: &str, next: Option<&str>| {
        Ok(ToolPage {
            tools: vec![plain_tool(name, "d", vec![])],
            next_cursor: next.map(|n| n.to_string()),
        })
    };
    assert_eq!(take_page(&mut tools, page("a", Some("2"))).as_deref(), Some("2"));
    assert_eq!(take_page(&mut tools, page("b", Some("3"))).as_deref(), Some("3"));
    assert_eq!(take_page(&mut tools, Err("gone".to_string())), None);
    assert_eq!(names(&tools), vec!["a", "b"]);
    assert_eq!(take_page(&mut tools, page("c", None)), None);
    assert_eq!(names(&tools), vec!["a", "b", "c"]);
}

#[test]
fn tool_names_stay_apart() {
    let a = vec![plain_tool("x", "first", vec![])];
    let joined = join_tools(a, &vec![plain_tool("x", "second", vec![]), plain_tool("y", "d", vec![])]);
    assert_eq!(names(&joined), vec!["x", "y"]);
    assert_eq!(joined[0].description.as_deref(), Some("first"));
    assert!(has_tool(&joined, "y"));
    assert!(!has_tool(&joined, "z"));
}

#[test]
fn unprefixed_tools_keep_their_names() {
    let tools = publish_tools("todo", true, &config("todo", "todo", vec![]), &served());
    assert_eq!(tools[0].name, "tool");
    assert_eq!(get_tool_owner(&tools[0]).as_deref(), Some("todo"));
    let m = manager(&["todo"]);
    let r = m.dispatch_tool_call(&tools, "tool", "").unwrap();
    assert_eq!(r.extension_name, "todo");
    assert_eq!(r.actual_tool_name, "tool");
}

fn resolved(uri: Option<&str>) -> ResolvedTool {
    ResolvedTool {
        tool_name: "weather__render".to_string(),
        extension_name: "weather".to_string(),
        actual_tool_name: "render".to_string(),
        tool_meta: None,
        resource_uri: uri.map(|u| u.to_string()),
    }
}

#[test]
fn apps_are_attached_where_the_host_shows_them() {
    let t = resolved(Some("ui://weather/app"));
    let fine = ToolOutput::success("ok".to_string());
    assert_eq!(resource_to_attach(&t, true, &fine).as_deref(), Some("ui://weather/app"));
    assert_eq!(resource_to_attach(&t, false, &fine), None);
    assert_eq!(resource_to_attach(&resolved(None), true, &fine), None);
    let a = attachment_for(&t, "ui://weather/app", Ok(Some(Json::Bool(true))));
    assert_eq!(a.resource_result, Some(Json::Bool(true)));
    assert_eq!(a.read_error, None);
    let failed = attachment_for(&t, "ui://weather/app", Err("gone".to_string()));
    assert!(failed.read_error.is_some());
    let out = finish_call(fine, &Some(a));
    assert!(out.meta.unwrap().get("__goose_tool_update_meta").is_some());
    let host = GooseMcpHostInfo {
        client_name: None,
        explicit_extensions: true,
        mcpui_enabled: true,
    };
    let shows = ExtensionManagerCapabilities { mcpui: true, host_info: Some(host) };
    let _ = shows.host_supports_mcp_apps();
}

#[test]
fn spoofed_attachments_are_removed() {
    let mut spoofed = ToolOutput::success("ok".to_string());
    spoofed.meta = parse(r#"{"__goose_tool_update_meta":{"mcpApp":{}}}"#);
    assert_eq!(finish_call(spoofed, &None).meta, None);
}

#[test]
fn resources_are_asked_for() {
    let params = parse(r#"{"uri":"a://b","extension_name":"e"}"#).unwrap();
    assert_eq!(read_request(&params), Ok(("a://b".to_string(), "e".to_string())));
    let e = read_request(&parse("{}").unwrap()).unwrap_err();
    assert_eq!(e.code, ErrorCode::InvalidParams);
    assert!(require_str_parameter(&params, "uri").is_ok());
    assert!(require_str_parameter(&parse(r#"{"uri":1}"#).unwrap(), "uri").is_err());
    let texts = resource_texts("a://b", &vec![Some("one".to_string()), None]);
    assert_eq!(texts.len(), 1);
    assert!(texts[0].contains("one"));
    assert!(unreadable_resource("a://b").message.contains("a://b"));
    let e = listing_failed(Listing::Prompts, "ext", "closed");
    assert_eq!(e.message, "Unable to list prompts for ext, closed");
}

#[test]
fn resources_are_listed() {
    let listed = |name: &str, uri: &str| ListedResource { name: name.to_string(), uri: uri.to_string() };
    let all = vec![listed("n", "file://x"), listed("u", "ui://x/y")];
    let text = resource_list("ext", &all);
    assert!(text.contains("file://x"));
    assert_eq!(ui_resources(&all), vec![1]);
}

#[test]
fn extensions_with_resources_are_asked() {
    let mut m = manager(&["a"]);
    assert!(!m.supports_resources());
    let mut b = loaded("b", vec![]);
    b.supports_resources = true;
    m.add_client(b);
    assert!(m.supports_resources());
    assert_eq!(m.resource_extensions(), vec!["b"]);
    let all = m.resource_targets(&parse("{}").unwrap(), "").unwrap();
    assert_eq!(all, vec!["b"]);
    assert!(m.require_extension("a", "a").is_none());
    assert!(m.require_extension("x", "x").is_some());
    assert!(m.require_resource_owner("x", "x").is_some());
    let info = m.get_extensions_info("/work");
    assert_eq!(info.len(), 2);
    assert!(info[1].has_resources);
    assert!(!info[0].has_resources);
}

#[test]
fn extensions_to_enable_are_found() {
    let m = manager(&["a"]);
    let configured = vec![
        ConfiguredExtension { config: config("off", "off", vec![]), enabled: false },
        ConfiguredExtension { config: config("on", "on", vec![]), enabled: true },
    ];
    let text = m.search_available_extensions(&configured, &vec![]);
    assert_eq!(
        text,
        "Extensions available to enable:\n- off - built-in\n\n\n\nExtensions available to disable:\n- a\n"
    );
    let none = ExtensionManager::new().search_available_extensions(&vec![], &vec![]);
    assert_eq!(
        none,
        "No extensions available to enable.\n\nNo extensions that can be disabled.\n"
    );
}

#[test]
fn platform_extensions_tell_the_model_something() {
    let m = manager(&["todo", "other"]);
    let table =
        vec![PlatformExtension { key: "todo".to_string(), unprefixed_tools: true, hidden: false }];
    assert_eq!(m.inside_extensions(&table), vec!["todo"]);
}
