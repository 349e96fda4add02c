use goose::conversation::{ElicitationAction, Message, MessageContent, Role};
use goose::json::Json;
use goose::reply::{
    after_auto_compact, before_auto_compact, elicitation_reply, route_reply, CommandResult,
    ElicitationOutcome, ReplyRoute,
};

fn user(text: &str) -> Message {
    Message::text(Role::User, 1, text.to_string())
}

fn assistant(text: &str) -> Message {
    Message::text(Role::Assistant, 2, text.to_string())
}

fn form(action: ElicitationAction) -> Message {
    Message::new(
        Role::User,
        1,
        vec![
            MessageContent::text("x".to_string()),
            MessageContent::ElicitationResponse {
                id: "e".to_string(),
                user_data: Json::Bool(true),
                action,
            },
        ],
    )
}

#[test]
fn replies_to_forms_are_found() {
    assert_eq!(elicitation_reply(&user("hi")), None);
    assert_eq!(
        elicitation_reply(&form(ElicitationAction::Accept)),
        Some(("e".to_string(), ElicitationOutcome::Accept(Json::Bool(true))))
    );
    assert_eq!(
        elicitation_reply(&form(ElicitationAction::Decline)),
        Some(("e".to_string(), ElicitationOutcome::Decline))
    );
    assert_eq!(
        elicitation_reply(&form(ElicitationAction::Cancel)),
        Some(("e".to_string(), ElicitationOutcome::Cancel))
    );
}

fn route(text: &str, command: CommandResult, starts: bool) -> ReplyRoute {
    let triggers = vec!["/compact".to_string()];
    route_reply(user(text), text, command, starts, "win", &triggers, 9)
}

#[test]
fn plain_messages_run() {
    assert_eq!(
        route("hi", CommandResult::NotACommand, false),
        ReplyRoute::Run { store: vec![user("hi")], show: vec![] }
    );
}

#[test]
fn failed_commands_are_told() {
    match route("/x", CommandResult::Failed("bad".to_string()), false) {
        ReplyRoute::Refused { message } => {
            assert_eq!(message.text_parts(), vec!["bad"]);
            assert!(message.user_visible);
            assert!(!message.agent_visible);
        }
        _ => panic!("not refused"),
    }
}

#[test]
fn answers_of_commands_stay_with_the_user() {
    for (text, replaced) in [("/compact ", true), ("/clear", true), ("/help", false)] {
        match route(text, CommandResult::Gave(assistant("done")), false) {
            ReplyRoute::Answered { store, show, history_replaced } => {
                assert_eq!(store.len(), 2);
                assert!(store.iter().all(|m| m.user_visible && !m.agent_visible));
                assert_eq!(show.len(), 2);
                assert_eq!(history_replaced, replaced);
            }
            _ => panic!("not answered"),
        }
    }
}

#[test]
fn goals_start_a_turn() {
    match route("/goal win", CommandResult::Gave(assistant("ok")), true) {
        ReplyRoute::Run { store, show } => {
            assert_eq!(store.len(), 3);
            assert_eq!(
                store[2].text_parts(),
                vec!["Start working toward this goal now:\n\n**Goal:** win"]
            );
            assert!(!store[2].user_visible);
            assert_eq!(show.len(), 2);
        }
        _ => panic!("does not run"),
    }
}

#[test]
fn commands_can_stand_for_a_message() {
    match route("/recipe", CommandResult::Gave(user("do it")), false) {
        ReplyRoute::Run { store, show } => {
            assert_eq!(store.len(), 2);
            assert!(!store[0].agent_visible);
            assert!(!store[1].user_visible);
            assert!(store[1].agent_visible);
            assert!(show.is_empty());
        }
        _ => panic!("does not run"),
    }
}

#[test]
fn compaction_is_announced() {
    let notices = before_auto_compact(80, 3);
    match &notices[0].content[0] {
        MessageContent::SystemNotification { text, .. } => {
            assert_eq!(
                text,
                "Exceeded auto-compact threshold of 80%. Performing auto-compaction..."
            );
        }
        _ => panic!("no notice"),
    }
    assert_eq!(notices.len(), 2);
    let (_, conversation) = after_auto_compact(Ok(vec![user("short")]), 3);
    assert_eq!(conversation, Some(vec![user("short")]));
    let (message, conversation) = after_auto_compact(Err("full".to_string()), 3);
    assert_eq!(
        message.text_parts(),
        vec!["Ran into this error trying to compact: full.\n\nPlease try again or create a new session"]
    );
    assert_eq!(conversation, None);
}
