use goose::conversation::{ErrorCode, ErrorData};
use goose::dispatch::{
    arguments_object, configured_model, failure_data, find_prompt, goes_to_router, list_tools,
    provider_changed, provider_plan, restored_model, restored_provider, route_tool_call,
    should_persist, supports_action_required_permissions, total_counts, CallFailure,
    ExtensionLoadResult, ExtensionPrompts, FrontendExtension, FrontendExtensions,
    PermissionRouting, PlatformToolNames, ProviderPlan, ToolRoute,
};
use goose::hooks::HookDecision;
use goose::json::Json;
use goose::tools::{plain_tool, Tool};

fn own() -> PlatformToolNames {
    PlatformToolNames {
        manage_schedule: "platform__manage_schedule".to_string(),
        final_output: "recipe__final_output".to_string(),
    }
}

#[test]
fn calls_are_routed() {
    let route = |name: &str, defined: bool, frontend: bool| {
        route_tool_call(HookDecision::Allow, name, &own(), defined, frontend)
    };
    assert_eq!(route("platform__manage_schedule", false, false), ToolRoute::Schedule);
    assert_eq!(route("recipe__final_output", true, false), ToolRoute::FinalOutput);
    assert!(matches!(route("recipe__final_output", false, false), ToolRoute::Refused(_)));
    assert!(matches!(route("front", false, true), ToolRoute::Frontend(_)));
    assert_eq!(route("dev__shell", false, false), ToolRoute::Extension);
}

#[test]
fn denied_calls_go_nowhere() {
    let deny = || HookDecision::Deny { reason: "no".to_string(), plugin: "p".to_string() };
    for name in ["platform__manage_schedule", "recipe__final_output", "dev__shell"] {
        let r = route_tool_call(deny(), name, &own(), true, true);
        match r {
            ToolRoute::Refused(e) => {
                assert!(e.message.contains("no"));
                assert!(e.message.contains("p"));
            }
            _ => panic!("not refused"),
        }
    }
}

#[test]
fn failures_become_error_data() {
    let e = failure_data(CallFailure::Other("broken".to_string()));
    assert_eq!(e.code, ErrorCode::InternalError);
    assert_eq!(e.message, "broken");
    let data = ErrorData::invalid_params("bad".to_string());
    assert_eq!(failure_data(CallFailure::Data(data)).code, ErrorCode::InvalidParams);
    assert_eq!(arguments_object(&None), Json::Object(vec![]));
}

fn frontend(key: &str, tools: &[&str], instructions: Option<&str>) -> FrontendExtension {
    FrontendExtension {
        key: key.to_string(),
        name: key.to_string(),
        tools: tools.iter().map(|t| plain_tool(t, "d", vec![])).collect(),
        instructions: instructions.map(|i| i.to_string()),
    }
}

fn names(tools: &Vec<Tool>) -> Vec<String> {
    tools.iter().map(|t| t.name.clone()).collect()
}

#[test]
fn frontend_extensions_are_kept_by_key() {
    let mut all = FrontendExtensions::new();
    all.insert(frontend("a", &["t1"], Some("use a")));
    all.insert(frontend("b", &["t2", "t1"], None));
    assert_eq!(all.extensions.len(), 2);
    assert_eq!(total_counts(1, 3, &all), (3, 5));
    assert!(all.tool_names().contains(&"t2".to_string()));
    assert!(all.is_frontend_tool("t2"));
    assert_eq!(all.get_frontend_tool("t2").map(|t| t.name).as_deref(), Some("t2"));
    assert!(!all.is_frontend_tool("t"));
    assert_eq!(all.get_frontend_tool("t"), None);
    assert_eq!(names(&all.tools_for(Some("b"))), vec!["t2", "t1"]);
    assert!(all.instructions().unwrap().contains("use a"));
    all.insert(frontend("a", &["t9"], None));
    assert_eq!(all.extensions.len(), 2);
    assert!(all.tool_names().contains(&"t9".to_string()));
    let told = all.instructions().unwrap();
    assert!(!told.contains("use a"));
    assert!(told.contains("a: The following tools are provided directly by the frontend"));
    all.remove("a");
    assert_eq!(all.extensions.len(), 1);
    assert!(all.tools_for(Some("a")).is_empty());
    all.remove("b");
    assert_eq!(all.instructions(), None);
}

#[test]
fn lists_hold_the_agents_own_tools() {
    let t = |n: &str| plain_tool(n, "d", vec![]);
    let all = list_tools(vec![t("a")], vec![t("f")], None, Some(t("s")), Some(t("o")));
    assert_eq!(names(&all).len(), 4);
    assert!(names(&all).contains(&"o".to_string()));
    let some = list_tools(vec![t("a")], vec![], Some("ext"), Some(t("s")), Some(t("o")));
    assert_eq!(names(&some), vec!["a"]);
}

#[test]
fn loads_are_reported() {
    let good = ExtensionLoadResult::of("a".to_string(), Ok(()));
    assert!(good.success);
    assert_eq!(good.error, None);
    let bad = ExtensionLoadResult::of("b".to_string(), Err("no".to_string()));
    assert!(!bad.success);
    assert_eq!(bad.error.as_deref(), Some("no"));
    assert!(should_persist(&vec![
        ExtensionLoadResult::of("b".to_string(), Err("no".to_string())),
        good
    ]));
    assert!(!should_persist(&vec![bad]));
}

#[test]
fn confirmations_go_to_the_provider_that_asked() {
    let asks = Some(PermissionRouting::ActionRequired);
    assert!(supports_action_required_permissions(asks));
    assert!(!supports_action_required_permissions(Some(PermissionRouting::Noop)));
    assert!(!supports_action_required_permissions(None));
    assert!(!goes_to_router(asks, true));
    assert!(goes_to_router(asks, false));
    assert!(goes_to_router(Some(PermissionRouting::Noop), true));
    assert!(goes_to_router(None, true));
}

#[test]
fn prompts_are_found() {
    let all = vec![
        ExtensionPrompts { extension: "a".to_string(), prompts: vec!["p".to_string()] },
        ExtensionPrompts {
            extension: "b".to_string(),
            prompts: vec!["q".to_string(), "p".to_string()],
        },
    ];
    assert_eq!(find_prompt(&all, "p"), Ok("a".to_string()));
    assert_eq!(find_prompt(&all, "q"), Ok("b".to_string()));
    assert_eq!(find_prompt(&all, "x"), Err("Prompt 'x' not found".to_string()));
}

fn some(s: &str) -> Option<String> {
    Some(s.to_string())
}

#[test]
fn providers_are_restored() {
    assert_eq!(restored_provider(&some("s"), &some("c")), Ok("s".to_string()));
    assert_eq!(restored_provider(&None, &some("c")), Ok("c".to_string()));
    assert_eq!(
        restored_provider(&None, &None),
        Err("Could not configure agent: missing provider".to_string())
    );
    assert_eq!(restored_model(true, &None), Ok(None));
    assert_eq!(restored_model(false, &some("m")), Ok(some("m")));
    assert_eq!(
        restored_model(false, &None),
        Err("Could not configure agent: missing model".to_string())
    );
}

#[test]
fn missing_providers_are_replaced() {
    assert_eq!(provider_plan("a", true, &None, &None), Ok(ProviderPlan::Own));
    let fallback = provider_plan("a", false, &some("b"), &some("m")).unwrap();
    assert_eq!(
        fallback,
        ProviderPlan::Fallback { provider: "b".to_string(), model: "m".to_string() }
    );
    assert!(provider_changed(&fallback));
    assert!(!provider_changed(&ProviderPlan::Own));
    assert_eq!(
        provider_plan("a", false, &some("a"), &some("m")),
        Err("Could not create provider: provider 'a' not found".to_string())
    );
    assert_eq!(
        provider_plan("a", false, &None, &some("m")),
        Err("Could not create provider: provider 'a' not found".to_string())
    );
    assert_eq!(
        provider_plan("a", false, &some("b"), &None),
        Err("Could not configure fallback provider: missing model".to_string())
    );
    assert_eq!(configured_model(&some("p"), &some("m")), Ok(("p".to_string(), "m".to_string())));
    assert_eq!(
        configured_model(&None, &some("m")),
        Err("Could not resolve model config: missing provider".to_string())
    );
    assert_eq!(
        configured_model(&some("p"), &None),
        Err("Could not resolve model config: missing model".to_string())
    );
}

/// What becomes of confirmations: those that were offered to the provider, and those that went to
/// the agent's own router, each with what the user decided.
struct Confirmed {
    handled: Vec<(String, bool)>,
    routed: Vec<(String, bool)>,
}

fn confirm(
    routing: Option<PermissionRouting>,
    takes: &dyn Fn(&str) -> bool,
    seen: &mut Confirmed,
    id: &str,
    allowed: bool,
) {
    let mut taken = false;
    if supports_action_required_permissions(routing) {
        seen.handled.push((id.to_string(), allowed));
        taken = takes(id);
    }
    if goes_to_router(routing, taken) {
        seen.routed.push((id.to_string(), allowed));
    }
}

#[test]
fn test_handle_confirmation_routes_to_provider() {
    let asks = Some(PermissionRouting::ActionRequired);
    let takes = |id: &str| id == "known";
    let mut seen = Confirmed { handled: vec![], routed: vec![] };
    confirm(asks, &takes, &mut seen, "known", true);
    assert_eq!(seen.handled.len(), 1);
    assert!(seen.routed.is_empty());
    confirm(asks, &takes, &mut seen, "unknown", false);
    assert_eq!(seen.handled.len(), 2);
    assert_eq!(seen.routed, vec![("unknown".to_string(), false)]);
}

#[test]
fn test_handle_confirmation_noop_provider() {
    let mut seen = Confirmed { handled: vec![], routed: vec![] };
    confirm(None, &|_| true, &mut seen, "any", true);
    assert!(seen.handled.is_empty());
    assert_eq!(seen.routed, vec![("any".to_string(), true)]);
    confirm(Some(PermissionRouting::Noop), &|_| true, &mut seen, "any", true);
    assert_eq!(seen.routed.len(), 2);
}
