use goose::agent::{
    categorize_tool, client_name, extended_context, extract_string_arg, post_tool_event,
    post_tool_extended, pre_tool_extended, project_instructions, resolve_use_login_shell_path,
    retried, stop_hook_block_cap, stop_hook_block_cap_warning, stop_hook_context,
    stop_hook_denial_context_message, stop_hook_denial_notification, tool_context,
    ExtensionManagerCapabilities, GooseMcpHostInfo, GoosePlatform, PendingSteers, RetryResult,
    ToolCategory,
};
use goose::conversation::{Message, MessageContent, NotificationKind, Role};
use goose::hooks::HookEvent;
use goose::json::{parse, Json};

fn json(text: &str) -> Json {
    parse(text).unwrap()
}

#[test]
fn resolve_use_login_shell_path_defaults_by_platform() {
    assert!(resolve_use_login_shell_path(None, &GoosePlatform::GooseDesktop));
    assert!(!resolve_use_login_shell_path(None, &GoosePlatform::GooseCli));
}

#[test]
fn resolve_use_login_shell_path_explicit_overrides_platform() {
    assert!(resolve_use_login_shell_path(Some(true), &GoosePlatform::GooseCli));
    assert!(!resolve_use_login_shell_path(Some(false), &GoosePlatform::GooseDesktop));
}

#[test]
fn platforms_have_names() {
    assert_eq!(GoosePlatform::GooseCli.name(), "goose-cli");
    assert_eq!(GoosePlatform::GooseDesktop.name(), "goose-desktop");
}

#[test]
fn capabilities_follow_an_explicit_host() {
    let host = |explicit: bool, enabled: bool| GooseMcpHostInfo {
        client_name: None,
        explicit_extensions: explicit,
        mcpui_enabled: enabled,
    };
    assert!(ExtensionManagerCapabilities::for_agent(None, GoosePlatform::GooseDesktop).mcpui);
    assert!(!ExtensionManagerCapabilities::for_agent(None, GoosePlatform::GooseCli).mcpui);
    let told = ExtensionManagerCapabilities::for_agent(Some(host(true, true)), GoosePlatform::GooseCli);
    assert!(told.mcpui);
    let told = ExtensionManagerCapabilities::for_agent(
        Some(host(true, false)),
        GoosePlatform::GooseDesktop,
    );
    assert!(!told.mcpui);
    let unasked = ExtensionManagerCapabilities::for_agent(
        Some(host(false, true)),
        GoosePlatform::GooseCli,
    );
    assert!(!unasked.mcpui);
    assert!(unasked.host_info.is_some());
}

#[test]
fn client_names_come_from_the_host() {
    let host = GooseMcpHostInfo {
        client_name: Some("editor".to_string()),
        explicit_extensions: false,
        mcpui_enabled: false,
    };
    assert_eq!(client_name(&Some(host), GoosePlatform::GooseCli), "editor");
    assert_eq!(client_name(&None, GoosePlatform::GooseDesktop), "goose-desktop");
}

#[test]
fn categorize_tool_recognizes_conventional_names() {
    assert_eq!(categorize_tool("developer__shell"), ToolCategory::Shell);
    assert_eq!(categorize_tool("filesystem__write"), ToolCategory::Write);
    assert_eq!(categorize_tool("filesystem__edit"), ToolCategory::Write);
    assert_eq!(categorize_tool("filesystem__read"), ToolCategory::Read);
    assert_eq!(categorize_tool("filesystem__view"), ToolCategory::Read);
    assert_eq!(categorize_tool("filesystem__cat"), ToolCategory::Read);
    assert_eq!(categorize_tool("scheduler__list"), ToolCategory::Other);
    assert_eq!(categorize_tool("shell"), ToolCategory::Shell);
}

#[test]
fn extract_string_arg_picks_first_present_key() {
    let input = json(r#"{ "file_path": "/tmp/a.txt", "path": "/tmp/b.txt" }"#);
    assert_eq!(
        extract_string_arg(&input, &["path", "file", "file_path"]).as_deref(),
        Some("/tmp/b.txt")
    );
    let input = json(r#"{ "file_path": "/tmp/a.txt" }"#);
    assert_eq!(
        extract_string_arg(&input, &["path", "file", "file_path"]).as_deref(),
        Some("/tmp/a.txt")
    );
    let input = json(r#"{ "other": 1 }"#);
    assert!(extract_string_arg(&input, &["path"]).is_none());
    let input = json(r#"{ "path": "" }"#);
    assert!(extract_string_arg(&input, &["path"]).is_none());
}

#[test]
fn shells_and_files_have_events_of_their_own() {
    let shell = json(r#"{ "command": "ls -l" }"#);
    let file = json(r#"{ "path": "a.txt" }"#);
    assert_eq!(
        pre_tool_extended("developer__shell", Some(&shell)),
        Some((HookEvent::BeforeShellExecution, "ls -l".to_string()))
    );
    assert_eq!(
        post_tool_extended("developer__shell", Some(&shell)),
        Some((HookEvent::AfterShellExecution, "ls -l".to_string()))
    );
    assert_eq!(
        pre_tool_extended("fs__read", Some(&file)),
        Some((HookEvent::BeforeReadFile, "a.txt".to_string()))
    );
    assert_eq!(post_tool_extended("fs__read", Some(&file)), None);
    assert_eq!(
        post_tool_extended("fs__write", Some(&file)),
        Some((HookEvent::AfterFileEdit, "a.txt".to_string()))
    );
    assert_eq!(pre_tool_extended("fs__write", Some(&file)), None);
    assert_eq!(pre_tool_extended("developer__shell", None), None);
    assert_eq!(pre_tool_extended("developer__shell", Some(&file)), None);
}

#[test]
fn failed_calls_have_an_event_of_their_own() {
    assert_eq!(post_tool_event(true, None), HookEvent::PostToolUse);
    assert_eq!(post_tool_event(true, Some(false)), HookEvent::PostToolUse);
    assert_eq!(post_tool_event(true, Some(true)), HookEvent::PostToolUseFailure);
    assert_eq!(post_tool_event(false, None), HookEvent::PostToolUseFailure);
}

#[test]
fn contexts_say_what_the_patterns_are_tested_on() {
    let c = tool_context(HookEvent::PreToolUse, "s", "developer__shell", None, "/work");
    assert_eq!(c.event, "PreToolUse");
    assert_eq!(c.session_id, "s");
    assert_eq!(c.matcher_context.as_deref(), Some("developer__shell"));
    assert_eq!(c.tool_name.as_deref(), Some("developer__shell"));
    assert_eq!(c.working_dir.as_deref(), Some("/work"));
    let c = extended_context(
        HookEvent::BeforeShellExecution,
        "s",
        "ls -l".to_string(),
        "developer__shell",
        None,
        "/work",
    );
    assert_eq!(c.event, "BeforeShellExecution");
    assert_eq!(c.matcher_context.as_deref(), Some("ls -l"));
    assert_eq!(c.tool_name.as_deref(), Some("developer__shell"));
}

#[test]
fn stop_contexts_hold_the_last_answer() {
    let c = stop_hook_context("session-1", "streamed assistant reply");
    assert_eq!(c.event, "Stop");
    assert_eq!(c.session_id, "session-1");
    assert_eq!(c.last_assistant_message.as_deref(), Some("streamed assistant reply"));
    assert!(c.message.is_none());
    assert!(stop_hook_context("session-1", "").last_assistant_message.is_none());
}

#[test]
fn stop_hooks_are_capped_by_default() {
    assert_eq!(stop_hook_block_cap(None), 8);
    assert_eq!(stop_hook_block_cap(Some(2)), 2);
}

#[test]
fn stop_hook_messages_name_the_plugin() {
    let m = stop_hook_denial_context_message(7, "p", "not yet");
    assert_eq!(m.role, Role::User);
    assert_eq!(m.created, 7);
    assert!(!m.user_visible);
    assert!(m.agent_visible);
    assert_eq!(
        m.content,
        vec![MessageContent::text(
            "Stop hook `p` blocked ending this turn:\n\nnot yet\n\nAddress this policy hook denial before trying to stop again."
                .to_string()
        )]
    );
    let m = stop_hook_denial_notification(7, "p");
    assert_eq!(
        m.content,
        vec![MessageContent::SystemNotification {
            kind: NotificationKind::InlineMessage,
            text: "Stop hook `p` blocked ending this turn.".to_string(),
            data: None,
        }]
    );
    let m = stop_hook_block_cap_warning(7, "p", 2);
    match &m.content[0] {
        MessageContent::SystemNotification { text, .. } => {
            assert!(text.contains("more than 2 consecutive times"));
            assert!(text.contains("GOOSE_STOP_HOOK_BLOCK_CAP"));
        }
        _ => panic!("no notification"),
    }
}

fn said(text: &str) -> Message {
    Message::text(Role::User, 1, text.to_string())
}

#[test]
fn discard_pending_steers_clears_queued_messages() {
    let mut steers = PendingSteers::new();
    let session_id = "session-discard";
    steers.steer(session_id, said("queued steer"));
    assert!(steers.has_pending_steers(session_id));
    steers.discard_pending_steers(session_id);
    assert!(!steers.has_pending_steers(session_id));
    assert!(steers.drain_pending_steers(session_id).is_empty());
}

#[test]
fn steers_come_out_once_in_order() {
    let mut steers = PendingSteers::new();
    steers.steer("a", said("one"));
    steers.steer("b", said("other"));
    steers.steer("a", said("two"));
    let texts: Vec<Vec<String>> =
        steers.drain_pending_steers("a").iter().map(|m| m.text_parts()).collect();
    assert_eq!(texts, vec![vec!["one".to_string()], vec!["two".to_string()]]);
    assert!(steers.drain_pending_steers("a").is_empty());
    assert!(steers.has_pending_steers("b"));
}

#[test]
fn only_a_retry_goes_on() {
    assert!(retried(RetryResult::Retried));
    assert!(!retried(RetryResult::Skipped));
    assert!(!retried(RetryResult::MaxAttemptsReached));
    assert!(!retried(RetryResult::SuccessChecksPassed));
}

#[test]
fn project_instructions_hold_all_parts() {
    assert_eq!(
        project_instructions("demo", "a demo", "do this"),
        "# Project: demo\n\na demo\n\ndo this"
    );
    assert_eq!(project_instructions("demo", "", ""), "# Project: demo");
}
