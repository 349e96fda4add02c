use goose::hooks::{
    decide, deny_reason, expand_plugin_root, hook_command, load_rules, merge_paths, response_text,
    BlockingEvent, HookContext, HookDecision, HookEvent, HookManager, HookOutput, HookResponse,
    RawHookAction, RawHookEvent, RawHookRule,
};
use goose::json::{parse, Json};

fn text_of(value: &Json, key: &str) -> Option<String> {
    value.get_str(key).map(|s| s.to_string())
}

fn items(value: Option<&Json>) -> Vec<&Json> {
    match value {
        Some(Json::Array(v)) => v.iter().collect(),
        _ => Vec::new(),
    }
}

fn raw_events(text: &str) -> Vec<RawHookEvent> {
    let file = parse(text).unwrap();
    match file.get("hooks") {
        Some(Json::Object(ms)) => ms
            .iter()
            .map(|m| RawHookEvent {
                event: m.key.clone(),
                rules: items(Some(&m.value))
                    .into_iter()
                    .map(|rule| RawHookRule {
                        matcher: text_of(rule, "matcher"),
                        hooks: items(rule.get("hooks"))
                            .into_iter()
                            .map(|a| RawHookAction {
                                action_type: text_of(a, "type"),
                                command: text_of(a, "command"),
                                timeout: a.get("timeout").and_then(|t| t.as_u64()),
                            })
                            .collect(),
                    })
                    .collect(),
            })
            .collect(),
        _ => Vec::new(),
    }
}

fn manager(hooks: &str) -> HookManager {
    let mut mgr = HookManager::new(false);
    mgr.add_plugin(&raw_events(hooks), "p", "/plugins/p");
    mgr
}

#[test]
fn ignores_unknown_events() {
    let mgr = manager(
        r#"{"hooks":{"NotARealEvent":[{"hooks":[{"type":"command","command":"echo"}]}]}}"#,
    );
    assert!(!mgr.has_hooks(HookEvent::PreToolUse));
    assert!(mgr.rules.is_empty());
}

#[test]
fn loads_matcher_and_command() {
    let mgr = manager(
        r#"{"hooks":{"PostToolUse":[{"matcher":"developer__.*","hooks":[{"type":"command","command":"echo hi"}]}]}}"#,
    );
    assert!(mgr.has_hooks(HookEvent::PostToolUse));
    assert_eq!(mgr.rules[0].matcher.as_deref(), Some("developer__.*"));
    assert_eq!(mgr.rules[0].actions[0].command, "echo hi");
    assert_eq!(mgr.rules[0].actions[0].timeout_secs, 30);
}

#[test]
fn invalid_matcher_skipped_without_panic() {
    let mgr = manager(
        r#"{"hooks":{"PostToolUse":[{"matcher":"[invalid","hooks":[{"type":"command","command":"echo"}]}]}}"#,
    );
    assert!(!mgr.has_hooks(HookEvent::PostToolUse));
}

#[test]
fn other_actions_and_empty_rules_are_skipped() {
    let raw = raw_events(
        r#"{"hooks":{"Stop":[
            {"hooks":[{"type":"http","command":"echo"}]},
            {"hooks":[{"type":"command"}]},
            {"matcher":"","hooks":[{"command":"one","timeout":5},{"type":"http"}]}
        ]}}"#,
    );
    let rules = load_rules(&raw, "p", "/root");
    assert_eq!(rules.len(), 1);
    assert_eq!(rules[0].matcher, None);
    assert_eq!(rules[0].plugin_root, "/root");
    assert_eq!(rules[0].actions.len(), 1);
    assert_eq!(rules[0].actions[0].timeout_secs, 5);
}

#[test]
fn matcher_filters_by_tool_name() {
    let mgr = manager(
        r#"{"hooks":{"PreToolUse":[{"matcher":"developer__shell","hooks":[{"type":"command","command":"touch marker"}]}]}}"#,
    );
    let other = HookContext::new(HookEvent::PreToolUse, "s".to_string())
        .with_tool("other__tool".to_string(), None);
    assert!(mgr.runs_for(HookEvent::PreToolUse, &other).is_empty());
    let shell = HookContext::new(HookEvent::PreToolUse, "s".to_string())
        .with_tool("developer__shell".to_string(), None);
    let runs = mgr.runs_for(HookEvent::PreToolUse, &shell);
    assert_eq!(runs.len(), 1);
    assert_eq!(runs[0].command, "touch marker");
    assert_eq!(runs[0].plugin, "p");
}

#[test]
fn rules_with_a_matcher_need_something_to_match() {
    let mgr = manager(
        r#"{"hooks":{"SessionStart":[{"matcher":".*","hooks":[{"command":"a"}]},{"hooks":[{"command":"b"}]}]}}"#,
    );
    let ctx = HookContext::new(HookEvent::SessionStart, "s".to_string());
    let commands: Vec<String> =
        mgr.runs_for(HookEvent::SessionStart, &ctx).into_iter().map(|r| r.command).collect();
    assert!(commands.contains(&"b".to_string()));
}

#[test]
fn merging_paths_again_changes_nothing() {
    let merged = merge_paths("/opt/bin:/bin", "/bin::/usr/bin:");
    assert_eq!(merged, "/opt/bin:/bin:/usr/bin");
    assert_eq!(merge_paths(&merged, "/bin::/usr/bin:"), merged);
    assert_eq!(merge_paths(&merged, "/opt/bin:/bin"), merged);
    assert_eq!(merge_paths(&merged, &merged), merged);
    assert_eq!(merge_paths("", ""), "");
}

#[test]
fn merge_paths_keeps_login_entries_first() {
    assert_eq!(
        merge_paths("/opt/homebrew/bin:/bin", "/bin:/usr/bin:/custom/bin"),
        "/opt/homebrew/bin:/bin:/usr/bin:/custom/bin"
    );
}

#[test]
fn merged_paths_hold_no_entry_twice_and_no_empty_one() {
    assert_eq!(merge_paths("", ""), "");
    assert_eq!(merge_paths(":/a::/a", "/b:/a:"), "/a:/b");
}

#[test]
fn event_names_round_trip() {
    let all = [
        HookEvent::PreToolUse,
        HookEvent::PostToolUse,
        HookEvent::PostToolUseFailure,
        HookEvent::SessionStart,
        HookEvent::SessionEnd,
        HookEvent::UserPromptSubmit,
        HookEvent::BeforeReadFile,
        HookEvent::AfterFileEdit,
        HookEvent::BeforeShellExecution,
        HookEvent::AfterShellExecution,
        HookEvent::Stop,
    ];
    for e in all {
        assert_eq!(HookEvent::from_name(e.name()), Some(e));
    }
    assert_eq!(HookEvent::from_name("stop"), None);
}

fn output(code: i32, stderr: &str, response: Option<(&str, &str)>) -> HookOutput {
    HookOutput {
        code: Some(code),
        stderr: stderr.to_string(),
        response: response.map(|(d, r)| HookResponse {
            decision: Some(d.to_string()),
            reason: Some(r.to_string()),
        }),
    }
}

#[test]
fn hooks_deny_by_exit_code_or_answer() {
    assert_eq!(deny_reason(&output(2, " no \n", None)).as_deref(), Some("no"));
    assert_eq!(deny_reason(&output(2, "", None)).as_deref(), Some("denied by plugin hook"));
    assert_eq!(
        deny_reason(&output(0, "", Some(("block", "say something first")))).as_deref(),
        Some("say something first")
    );
    assert_eq!(
        deny_reason(&output(0, "", Some(("block", "")))).as_deref(),
        Some("denied by plugin hook")
    );
    assert_eq!(deny_reason(&output(0, "", Some(("allow", "why not")))), None);
    assert_eq!(deny_reason(&output(1, "crashed", None)), None);
}

#[test]
fn answers_are_objects() {
    assert_eq!(response_text(" {\"decision\":\"block\"}\n").as_deref(), Some("{\"decision\":\"block\"}"));
    assert_eq!(response_text("done"), None);
    assert_eq!(response_text(""), None);
}

#[test]
fn stop_hook_emit_blocking_returns_denial() {
    let mgr = manager(
        r#"{"hooks":{"Stop":[{"hooks":[{"type":"command","command":"printf '%s' '{\"decision\":\"block\",\"reason\":\"say something first\"}'"}]}]}}"#,
    );
    let ctx = HookContext::new(HookEvent::Stop, "s".to_string());
    let mut event = BlockingEvent::new(mgr.runs_for(HookEvent::Stop, &ctx));
    assert_eq!(
        event.next().map(|r| r.command.as_str()),
        Some(r#"printf '%s' '{"decision":"block","reason":"say something first"}'"#)
    );
    let decision = event.record(Some(output(0, "", Some(("block", "say something first")))));
    assert_eq!(
        decision,
        Some(HookDecision::Deny {
            reason: "say something first".to_string(),
            plugin: "p".to_string(),
        })
    );
}

#[test]
fn first_denial_decides_and_failures_never_do() {
    let mgr = manager(
        r#"{"hooks":{"Stop":[{"hooks":[{"command":"a"},{"command":"b"},{"command":"c"}]}]}}"#,
    );
    let ctx = HookContext::new(HookEvent::Stop, "s".to_string());
    let runs = mgr.runs_for(HookEvent::Stop, &ctx);
    assert_eq!(runs.len(), 3);
    let outcomes = vec![None, Some(output(2, "second", None)), Some(output(2, "third", None))];
    assert_eq!(
        decide(&runs, &outcomes),
        HookDecision::Deny { reason: "second".to_string(), plugin: "p".to_string() }
    );
    assert_eq!(decide(&runs, &vec![None, None, None]), HookDecision::Allow);
}

#[test]
fn hooks_find_their_plugin() {
    assert_eq!(expand_plugin_root("${PLUGIN_ROOT}/a ${PLUGIN_ROOT}", "/p"), "/p/a /p");
    let c = hook_command("run", "/p", Some("/bin".to_string()), false);
    assert_eq!(c.arguments, vec!["-c".to_string(), "run".to_string()]);
    assert_eq!(
        c.environment,
        vec![
            ("PLUGIN_ROOT".to_string(), "/p".to_string()),
            ("PATH".to_string(), "/bin".to_string())
        ]
    );
    let c = hook_command("run", "/p", Some("/bin".to_string()), true);
    assert_eq!(c.arguments, vec!["--env=PLUGIN_ROOT=/p", "--env=PATH=/bin", "sh", "-c", "run"]);
    assert!(c.environment.is_empty());
}

#[test]
fn messages_fill_an_empty_matcher() {
    let ctx = HookContext::new(HookEvent::UserPromptSubmit, "s".to_string())
        .with_message("hello".to_string());
    assert_eq!(ctx.matcher_context.as_deref(), Some("hello"));
    let ctx = HookContext::new(HookEvent::PreToolUse, "s".to_string())
        .with_tool("t".to_string(), None)
        .with_message("hello".to_string())
        .with_tool_output(Json::Bool(true))
        .with_working_dir("/w".to_string());
    assert_eq!(ctx.matcher_context.as_deref(), Some("t"));
    assert_eq!(ctx.message.as_deref(), Some("hello"));
    assert_eq!(ctx.tool_output, Some(Json::Bool(true)));
    assert_eq!(ctx.working_dir.as_deref(), Some("/w"));
}
