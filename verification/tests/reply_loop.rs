use goose::conversation::{
    ErrorData, Inference, Message, MessageContent, Role, ToolCall, ToolOutput, ToolRequest,
    ToolResponse,
};
use goose::hooks::HookDecision;
use goose::reply_loop::{
    count_tool_requests, max_turns_for, stamp, summarised_pair, Begin, ErrorStep, IdleStep,
    OpenRequests, ReplyLoop, StopVerdict, TurnStep,
};
use goose::reply_parts::ProviderError;

fn user(text: &str) -> Message {
    Message::text(Role::User, 1, text.to_string())
}

fn assistant(text: &str) -> Message {
    Message::text(Role::Assistant, 1, text.to_string())
}

fn deny() -> HookDecision {
    HookDecision::Deny { reason: "not yet".to_string(), plugin: "p".to_string() }
}

fn notice_text(m: &Message) -> String {
    match &m.content[0] {
        MessageContent::SystemNotification { text, .. } => text.clone(),
        _ => panic!("no notification"),
    }
}

fn one_turn(state: &mut ReplyLoop, text: &str) {
    assert_eq!(state.count_turn(1), TurnStep::Ask);
    state.begin_stream();
    state.on_response(&assistant(text), &assistant(text), 0, text);
    state.end_stream(false);
    assert_eq!(state.on_idle(None, "", false, &None, &None, 1), IdleStep::CheckRecipe);
    assert_eq!(state.on_recipe_check(Ok(None), 1), None);
    assert!(state.finish(&None, false, false, 1).ask_stop_hook);
}

#[test]
fn turns_are_limited() {
    assert_eq!(max_turns_for(Some(3), Some(5)), 3);
    assert_eq!(max_turns_for(None, Some(5)), 5);
    assert_eq!(max_turns_for(None, None), 1000);
    let mut state = ReplyLoop::new(1, 8, vec![]);
    assert_eq!(state.count_turn(1), TurnStep::Ask);
    match state.count_turn(1) {
        TurnStep::LimitReached { message } => {
            assert!(message.text_parts().join("").contains("maximum number of actions"));
        }
        _ => panic!("no limit"),
    }
}

#[test]
fn a_turn_that_a_stop_hook_asked_for_is_not_counted() {
    let mut state = ReplyLoop::new(1, 8, vec![]);
    state.count_turn(1);
    state.on_stop_hook(deny(), 1);
    assert_eq!(state.count_turn(1), TurnStep::Ask);
    assert_eq!(state.turns_taken, 1);
}

#[test]
fn long_conversations_are_compacted_once() {
    let mut state = ReplyLoop::new(10, 8, vec![user("long")]);
    let error = ProviderError::ContextLengthExceeded("too long".to_string());
    assert!(matches!(state.on_provider_error(&error, "", 1), ErrorStep::Compact { .. }));
    assert_eq!(state.on_compaction(Ok(vec![user("short")]), 1), None);
    assert_eq!(state.conversation, vec![user("short")]);
    assert!(state.did_recovery_compact);
    match state.on_provider_error(&error, "", 1) {
        ErrorStep::Tell { message } => {
            assert!(notice_text(&message).contains("Context limit still exceeded"));
        }
        _ => panic!("not told"),
    }
    assert!(state.on_compaction(Err("full".to_string()), 1).is_some());
    state.on_empty_item();
    assert!(matches!(state.on_provider_error(&error, "", 1), ErrorStep::Compact { .. }));
}

#[test]
fn other_errors_are_told() {
    let mut state = ReplyLoop::new(10, 8, vec![]);
    let mut told = |e: ProviderError, display: &str| match state.on_provider_error(&e, display, 1) {
        ErrorStep::Tell { message } => message,
        _ => panic!("not told"),
    };
    let m = told(ProviderError::NetworkError("down".to_string()), "no network");
    assert_eq!(m.text_parts(), vec!["no network\n\nPlease resend your message to try again."]);
    let m = told(ProviderError::Other("x".to_string()), "odd");
    assert!(m.text_parts().join("").starts_with("Ran into this error: odd."));
    let m = told(
        ProviderError::CreditsExhausted { details: "none".to_string(), top_up_url: None },
        "",
    );
    assert!(notice_text(&m).contains("check your account"));
}

#[test]
fn goals_are_checked_once_and_grinding_goes_on() {
    let goal = Some("win".to_string());
    let mut state = ReplyLoop::new(10, 8, vec![]);
    assert!(matches!(
        state.on_idle(None, "", false, &goal, &None, 1),
        IdleStep::CheckGoal { .. }
    ));
    assert_eq!(state.on_idle(None, "", false, &goal, &None, 1), IdleStep::CheckRecipe);
    assert!(matches!(
        state.on_idle(None, "", false, &goal, &goal, 1),
        IdleStep::KeepGrinding { .. }
    ));
    assert_eq!(state.on_idle(None, "", true, &None, &goal, 1), IdleStep::Steered);
}

#[test]
fn final_outputs_end_the_reply() {
    let mut state = ReplyLoop::new(10, 8, vec![]);
    assert!(matches!(
        state.on_idle(Some(None), "go on", false, &None, &None, 1),
        IdleStep::AskForFinalOutput { .. }
    ));
    assert_eq!(
        state.on_idle(Some(Some("{}".to_string())), "go on", false, &None, &None, 1),
        IdleStep::FinalOutput
    );
    let finish = state.finish(&None, false, false, 1);
    assert!(finish.ask_stop_hook);
    assert_eq!(finish.show.unwrap().text_parts(), vec!["{}"]);
    assert_eq!(state.last_assistant_text, "{}");
}

#[test]
fn waiting_steers_keep_the_reply_from_leaving() {
    let mut state = ReplyLoop::new(10, 8, vec![]);
    state.on_recipe_check(Ok(None), 1);
    let finish = state.finish(&None, true, true, 1);
    assert!(!finish.ask_stop_hook);
    assert!(!state.exit_chat);
    assert!(!state.begin_stream());
    assert!(state.tells_stop_hook());
}

#[test]
fn recipes_can_start_over() {
    let mut state = ReplyLoop::new(10, 8, vec![user("a"), user("b")]);
    state.on_response(&assistant("x"), &assistant("x"), 0, "x");
    assert_eq!(state.on_recipe_check(Ok(Some(vec![user("a")])), 1), None);
    assert_eq!(state.conversation, vec![user("a")]);
    assert!(state.messages_to_add.is_empty());
    let m = state.on_recipe_check(Err("odd".to_string()), 1).unwrap();
    assert_eq!(m.text_parts(), vec!["Retry logic encountered an error: odd"]);
    assert!(state.exit_chat);
}

fn request(id: &str) -> ToolRequest {
    ToolRequest {
        id: id.to_string(),
        tool_call: Ok(ToolCall::new("t".to_string(), None)),
        metadata: None,
        tool_meta: None,
    }
}

fn blank() -> Message {
    Message::new(Role::User, 1, vec![])
}

#[test]
fn requests_are_answered() {
    let response = Message::new(
        Role::Assistant,
        1,
        vec![MessageContent::ToolRequest(request("1")), MessageContent::ToolRequest(request("2"))],
    );
    let mut open =
        OpenRequests::open(vec![request("1")], vec![request("2")], vec![blank(), blank()]);
    open.answer("1", Ok(ToolOutput::success("fine".to_string())));
    open.answer("2", Err(ErrorData::internal("broken".to_string())));
    let mut state = ReplyLoop::new(10, 8, vec![]);
    assert!(state.on_response(&response, &response, 2, ""));
    let ids = vec!["m1".to_string(), "m2".to_string()];
    let shown = state.close_requests(&response, open, "th".to_string(), &ids, 1);
    assert_eq!(shown.len(), 2);
    assert!(!state.no_tools_called);
    assert!(!state.exit_chat);
    assert_eq!(count_tool_requests(&state.messages_to_add), 2);
    let answers: Vec<&ToolResponse> = state
        .messages_to_add
        .iter()
        .flat_map(|m| m.content.iter())
        .filter_map(|c| match c {
            MessageContent::ToolResponse(r) => Some(r),
            _ => None,
        })
        .collect();
    assert_eq!(answers.len(), 2);
    assert_eq!(answers[0].id, "1");
    assert!(answers[0].result.is_ok());
    assert!(answers[1].result.is_err());
}

#[test]
fn requests_can_be_answered_together() {
    let mut open = OpenRequests::open(vec![], vec![request("1")], vec![blank()]);
    open.answer_all(&vec![request("1")], "skipped", true);
    match &open.replies[0].content[0] {
        MessageContent::ToolResponse(r) => {
            assert_eq!(r.id, "1");
        }
        _ => panic!("no response"),
    }
}

#[test]
fn unreadable_requests_end_the_reply() {
    let mut bad = request("1");
    bad.tool_call = Err(ErrorData::invalid_params("bad".to_string()));
    let open = OpenRequests::open(vec![], vec![bad], vec![blank()]);
    let mut state = ReplyLoop::new(10, 8, vec![]);
    state.close_requests(&assistant(""), open, "th".to_string(), &vec!["m".to_string()], 1);
    assert!(state.exit_chat);
}

#[test]
fn tools_are_listed_anew_after_installs() {
    let mut state = ReplyLoop::new(10, 8, vec![]);
    assert!(!state.on_installs(0, true));
    assert!(!state.on_installs(1, false));
    assert!(!state.end_stream(false));
    assert!(state.end_stream(true));
    assert!(state.on_installs(1, true));
    assert!(state.tools_updated);
    assert!(!state.end_stream(true));
    assert_eq!(state.begin(true), Begin::Stop);
    assert_eq!(state.begin(false), Begin::DrainSteers);
    assert_eq!(ReplyLoop::new(1, 1, vec![]).begin(false), Begin::CheckFinalOutput);
}

#[test]
fn final_output_is_taken() {
    let mut state = ReplyLoop::new(10, 8, vec![]);
    let m = state.take_final_output("out".to_string(), 4);
    assert_eq!(m.text_parts(), vec!["out"]);
    state.take_message(user("x"));
    assert_eq!(state.conversation.last(), Some(&user("x")));
}

#[test]
fn messages_are_stamped() {
    let inference = Inference {
        provider: "p".to_string(),
        requested_model: "m".to_string(),
        resolved_model: "m2".to_string(),
    };
    let m = stamp(assistant("x"), &Some(inference));
    assert_eq!(m.inference.unwrap().resolved_model, "m2");
    assert!(stamp(user("x"), &None).inference.is_none());
}

#[test]
fn pairs_are_found_by_id() {
    let mut ask = Message::new(Role::Assistant, 1, vec![MessageContent::ToolRequest(request("1"))]);
    ask.id = Some("a".to_string());
    let mut reply = Message::new(
        Role::User,
        1,
        vec![MessageContent::ToolResponse(ToolResponse {
            id: "1".to_string(),
            result: Ok(ToolOutput::success("x".to_string())),
            metadata: None,
        })],
    );
    reply.id = Some("b".to_string());
    let all = vec![user("q"), ask, reply];
    assert_eq!(summarised_pair(&all, "1"), Some(("a".to_string(), "b".to_string())));
    assert_eq!(summarised_pair(&all, "2"), None);
}
