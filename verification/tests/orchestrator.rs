use goose::json::{parse, Json, Member};
use goose::orchestrator::{
    agent_directory, busy_error, directory_error, interrupted, list_orchestrator_tools,
    list_sessions_text, read_request, recent_order, session_updated, started_text,
    summary_request, view_session, with_summary, AgentReply, CancelTokenGuard, OrchestratorRequest, ReplyCollector, SessionInfo,
    SessionView, ViewAnswer,
};

fn args(text: &str) -> Option<Vec<Member>> {
    match parse(text) {
        Some(Json::Object(ms)) => Some(ms),
        _ => None,
    }
}

#[test]
fn orchestrator_requests_are_read() {
    assert_eq!(
        read_request("list_sessions", &None, "me"),
        Ok(OrchestratorRequest::ListSessions { session_type: None, limit: 10 })
    );
    assert_eq!(
        read_request("list_sessions", &args(r#"{"last_n":2,"session_type":"user"}"#), "me"),
        Ok(OrchestratorRequest::ListSessions { session_type: Some("user".to_string()), limit: 2 })
    );
    assert_eq!(
        read_request("view_session", &args(r#"{"session_id":"s"}"#), "me"),
        Ok(OrchestratorRequest::ViewSession {
            session_id: "s".to_string(),
            mode: "first_last".to_string()
        })
    );
    assert_eq!(
        read_request("start_agent", &args(r#"{"working_dir":"/w"}"#), "me"),
        Ok(OrchestratorRequest::StartAgent {
            working_dir: "/w".to_string(),
            name: "Orchestrated Agent".to_string()
        })
    );
    assert_eq!(
        read_request("view_session", &None, "me"),
        Err("Missing arguments".to_string())
    );
    assert_eq!(read_request("x", &None, "me"), Err("Unknown tool: x".to_string()));
}

#[test]
fn no_message_goes_to_the_sender() {
    let to = |s: &str| args(&format!(r#"{{"session_id":"{s}","message":"hi"}}"#));
    assert_eq!(
        read_request("send_message", &to("me"), "me"),
        Err("Cannot send a message to the orchestrator's own session".to_string())
    );
    assert_eq!(
        read_request("send_message", &to("other"), "me"),
        Ok(OrchestratorRequest::SendMessage {
            session_id: "other".to_string(),
            message: "hi".to_string()
        })
    );
    assert_eq!(
        read_request("interrupt_agent", &to("s"), "me"),
        Ok(OrchestratorRequest::InterruptAgent { session_id: "s".to_string() })
    );
}

fn info(id: &str, updated_at: i128, loaded: bool, busy: bool) -> SessionInfo {
    SessionInfo {
        name: format!("n{id}"),
        id: id.to_string(),
        session_type: "user".to_string(),
        message_count: 3,
        updated_at,
        updated: "now".to_string(),
        loaded,
        busy,
    }
}

#[test]
fn recent_sessions_come_first() {
    let all = vec![info("a", 1, false, false), info("b", 3, true, false), info("c", 2, true, true)];
    assert_eq!(recent_order(&all), vec![1, 2, 0]);
    let text = list_sessions_text(&all, 2);
    assert!(text.starts_with("Showing 2 of 3 session(s):\n"));
    assert!(text.contains("- **nb** (b)\n  Type: user | Status: \u{2713} loaded | Messages: 3 | Updated: now"));
    assert!(text.contains("busy"));
    assert!(!text.contains("(a)"));
    assert_eq!(list_sessions_text(&vec![], 2), "No sessions found.");
}

#[test]
fn sessions_say_when_they_changed() {
    let (order, text) = session_updated(1_700_000_000, 7).unwrap();
    assert_eq!(text, "2023-11-14 22:13");
    assert_eq!(order, 1_700_000_000_000_000_007);
    assert_eq!(session_updated(i64::MAX, 0), None);
}

fn view(messages: &[&str]) -> SessionView {
    SessionView {
        info: info("a", 1, false, false),
        working_dir: "/w".to_string(),
        messages: messages.iter().map(|m| m.to_string()).collect(),
    }
}

#[test]
fn sessions_are_viewed() {
    match view_session(&view(&["one", "two", "three"]), "first_last") {
        Ok(ViewAnswer::Text(t)) => {
            assert!(t.contains("## First message\n\none"));
            assert!(t.contains("*(1 messages omitted)*"));
            assert!(t.contains("three"));
            assert!(!t.contains("two"));
        }
        _ => panic!("no text"),
    }
    assert!(matches!(view_session(&view(&[]), "summarize"), Ok(ViewAnswer::Text(_))));
    assert!(matches!(view_session(&view(&["x"]), "summarize"), Ok(ViewAnswer::Summarise(_))));
    assert_eq!(
        view_session(&view(&[]), "all"),
        Err("Unknown mode 'all'. Use 'first_last' or 'summarize'.".to_string())
    );
    assert_eq!(with_summary("head", "short"), "head\n## Summary\n\nshort");
    assert_eq!(
        summary_request(&vec![("a".to_string(), true), ("b".to_string(), false)]),
        "Summarize this conversation (2 messages):\n\na"
    );
}

#[test]
fn agents_start_in_directories() {
    assert_eq!(agent_directory("/w", &None), "/w");
    assert_eq!(agent_directory("w", &Some("/base".to_string())), "/base/w");
    assert_eq!(directory_error("w", None, true), None);
    assert_eq!(directory_error("w", None, false).as_deref(), Some("'w' is not a directory"));
    assert_eq!(
        directory_error("w", Some("gone".to_string()), false).as_deref(),
        Some("Invalid working directory 'w': gone")
    );
    assert!(started_text("n", "s").starts_with("Started agent session 'n' with ID: s"));
}

#[test]
fn guards_release_unless_disarmed() {
    let mut g = CancelTokenGuard::new("s".to_string());
    assert_eq!(g.releases().as_deref(), Some("s"));
    g.disarm();
    assert_eq!(g.releases(), None);
}

#[test]
fn replies_are_collected() {
    let mut c = ReplyCollector::new();
    assert_eq!(
        c.finish("s").unwrap(),
        "Agent completed without producing text output."
    );
    assert!(c.take(AgentReply::Message("a".to_string())));
    assert!(c.take(AgentReply::Message(String::new())));
    assert!(c.take(AgentReply::Other));
    assert!(!c.take(AgentReply::Error("bad".to_string())));
    assert_eq!(
        c.finish("s").unwrap(),
        "## Response from session s\n\na\n\nError during agent processing: bad"
    );
    assert!(!c.take(AgentReply::End));
    assert!(!c.take(AgentReply::Cancelled));
    assert_eq!(c.finish("s"), Err("Cancelled by parent session".to_string()));
}

#[test]
fn busy_agents_are_interrupted() {
    assert_eq!(
        busy_error("s"),
        "Session 's' is currently busy. Use interrupt_agent first, or wait."
    );
    assert_eq!(interrupted("s", None).unwrap(), "Interrupted agent session 's'.");
    assert_eq!(
        interrupted("s", Some("no".to_string())),
        Err("Failed to interrupt session 's': no".to_string())
    );
    let tools = list_orchestrator_tools(vec![], vec![], vec![], vec![], vec![]);
    let names: Vec<&str> = tools.iter().map(|t| t.name.as_str()).collect();
    assert_eq!(
        names,
        vec!["list_sessions", "view_session", "start_agent", "send_message", "interrupt_agent"]
    );
}
