use goose::agent::stop_hook_context;
use goose::conversation::{Message, MessageContent, Role, ToolCall, ToolOutput, ToolRequest};
use goose::hooks::HookDecision;
use goose::reply_loop::{OpenRequests, ReplyLoop};
use goose::reply_machine::{
    install_requests, ReplyAction, ReplyEvent, ReplyMachine, StreamItem,
};
use goose::reply_parts::ProviderError;

fn user(text: &str) -> Message {
    Message::text(Role::User, 1, text.to_string())
}

fn answer(text: &str) -> StreamItem {
    let message = || Message::text(Role::Assistant, 1, text.to_string());
    StreamItem::Response {
        shown: message(),
        response: message(),
        requests: 0,
        text: text.to_string(),
    }
}

fn deny() -> HookDecision {
    HookDecision::Deny { reason: "not yet".to_string(), plugin: "p".to_string() }
}

struct Played {
    calls: usize,
    hooks: usize,
    recipe_checks: usize,
    actions: Vec<ReplyAction>,
    shown: Vec<Message>,
    stored: Vec<Message>,
    /// What the stop hooks were told that the assistant said last.
    said: Vec<String>,
    machine: ReplyMachine,
}

fn shown_texts(played: &Played) -> Vec<String> {
    played.shown.iter().map(|m| m.text_parts().join("")).filter(|t| !t.is_empty()).collect()
}

/// Plays a reply: `provider` gives the items of each answer, `hook` what the stop hooks decide.
fn play(
    max_turns: u32,
    cap: u32,
    provider: &mut dyn FnMut(usize) -> Vec<StreamItem>,
    hook: &mut dyn FnMut(usize) -> HookDecision,
) -> Played {
    let state = ReplyLoop::new(max_turns, cap, vec![user("hello")]);
    let mut p = Played {
        calls: 0,
        hooks: 0,
        recipe_checks: 0,
        actions: vec![],
        shown: vec![],
        stored: vec![],
        said: vec![],
        machine: ReplyMachine::new(state),
    };
    let mut items: Vec<StreamItem> = vec![];
    for _ in 0..1000 {
        p.actions.push(p.machine.awaiting);
        let event = match p.machine.awaiting {
            ReplyAction::Leave { .. } => return p,
            ReplyAction::Begin => ReplyEvent::Began { cancelled: false },
            ReplyAction::DrainSteers => ReplyEvent::Drained(vec![]),
            ReplyAction::TakeFinalOutput => ReplyEvent::FinalOutput(None),
            ReplyAction::AskStopHook => {
                p.said.push(p.machine.state.last_assistant_text.clone());
                p.hooks += 1;
                ReplyEvent::StopDecision(hook(p.hooks - 1))
            }
            ReplyAction::Ask => {
                items = provider(p.calls);
                items.reverse();
                p.calls += 1;
                ReplyEvent::Opened
            }
            ReplyAction::NextItem => match items.pop() {
                Some(item) => ReplyEvent::Item { cancelled: false, item },
                None => ReplyEvent::StreamEnded,
            },
            ReplyAction::LookForHints => ReplyEvent::Hints(false),
            ReplyAction::LookAround => ReplyEvent::LookedAround {
                final_output: None,
                continuation: String::new(),
                pending_steers: false,
                goal: None,
                grind: None,
            },
            ReplyAction::CheckRecipe => {
                p.recipe_checks += 1;
                ReplyEvent::RecipeChecked(Ok(None))
            }
            ReplyAction::Gather => ReplyEvent::Gathered {
                inference: None,
                summarised: false,
                pending_steers: false,
            },
            ReplyAction::Compact => ReplyEvent::Compacted(Ok(vec![user("short")])),
            ReplyAction::RunTools => panic!("no tools"),
        };
        let step = p.machine.step(event, 1);
        p.shown.extend(step.show);
        p.stored.extend(step.store);
    }
    panic!("the reply does not end")
}

#[test]
fn stop_hook_block_cap_allows_configured_consecutive_blocks_then_overrides() {
    let p = play(
        10,
        2,
        &mut |i| vec![answer(&format!("provider response {i}"))],
        &mut |_| deny(),
    );
    assert_eq!(
        p.calls, 3,
        "cap=2 should allow two blocked retries, then override on the third block"
    );
    assert_eq!(
        p.hooks, 3,
        "Stop hook should run for the initial response plus the two honored retries"
    );
    let texts = shown_texts(&p);
    assert!(texts.iter().any(|text| text == "provider response 0"));
    assert!(texts.iter().any(|text| text == "provider response 1"));
    assert!(texts.iter().any(|text| text == "provider response 2"));
    assert!(p.shown.iter().any(|message| {
        message.content.iter().any(|content| {
            matches!(
                content,
                MessageContent::SystemNotification { text, .. }
                    if text.contains("more than 2 consecutive times")
                        && text.contains("GOOSE_STOP_HOOK_BLOCK_CAP")
            )
        })
    }));
    assert_eq!(p.actions.last(), Some(&ReplyAction::Leave { tell_stop_hook: false }));
}

#[test]
fn stop_hook_block_cap_counts_only_consecutive_blocks() {
    let mut calls = 0;
    let mut invocations = 0;
    let mut texts: Vec<String> = vec![];
    for _ in 0..2 {
        let before = calls;
        let p = play(
            10,
            1,
            &mut |i| vec![answer(&format!("provider response {}", before + i))],
            &mut |i| if i % 2 == 0 { deny() } else { HookDecision::Allow },
        );
        calls += p.calls;
        invocations += p.hooks;
        texts.extend(shown_texts(&p));
        for message in &p.shown {
            for content in &message.content {
                if let MessageContent::SystemNotification { text, .. } = content {
                    assert!(!text.contains("overriding and ending turn"));
                }
            }
        }
    }
    assert_eq!(calls, 4, "each turn should honor one block, retry, then stop");
    assert_eq!(invocations, 4);
    for i in 0..4 {
        assert!(texts.iter().any(|text| *text == format!("provider response {i}")));
    }
    assert!(!texts.iter().any(|text| text.contains("overriding and ending turn")));
}

#[test]
fn stop_hook_payload_includes_streamed_assistant_reply_text() {
    let p = play(
        10,
        8,
        &mut |_| vec![answer("streamed "), answer("assistant "), answer("reply")],
        &mut |_| HookDecision::Allow,
    );
    assert_eq!(shown_texts(&p).join(""), "streamed assistant reply");
    assert_eq!(p.said, vec!["streamed assistant reply"]);
    let payload = stop_hook_context("session", &p.said[0]);
    assert_eq!(payload.event, "Stop");
    assert_eq!(payload.session_id, "session");
    assert_eq!(payload.last_assistant_message.as_deref(), Some("streamed assistant reply"));
    assert!(payload.message.is_none());
}

#[test]
fn refusal_exits_turn_without_recipe_retry() {
    let p = play(
        10,
        8,
        &mut |_| {
            vec![StreamItem::Failed {
                error: ProviderError::Refusal {
                    details: "This request was declined.".to_string(),
                    category: Some("cyber".to_string()),
                },
                display: "refused".to_string(),
            }]
        },
        &mut |_| HookDecision::Allow,
    );
    assert_eq!(p.calls, 1, "a refused request must not be resent");
    assert_eq!(p.recipe_checks, 0);
    let texts = shown_texts(&p);
    assert!(texts.iter().any(|t| t.contains("This request was declined.")));
    assert!(texts.iter().any(|t| t.contains("Category: cyber")));
}

#[test]
fn turns_end_a_reply() {
    let mut state = ReplyLoop::new(0, 8, vec![user("hi")]);
    state.can_drain_pending_steers = true;
    let mut m = ReplyMachine::new(state);
    assert_eq!(m.step(ReplyEvent::Began { cancelled: false }, 1).next, ReplyAction::DrainSteers);
    let drained = m.step(ReplyEvent::Drained(vec![user("left")]), 1);
    assert_eq!(drained.store, vec![user("left")]);
    assert_eq!(drained.show, vec![user("left")]);
    assert_eq!(m.state.conversation.len(), 2);
    let over = m.step(ReplyEvent::FinalOutput(None), 1);
    assert_eq!(over.next, ReplyAction::Leave { tell_stop_hook: true });
    assert_eq!(over.show.len(), 1);
}

#[test]
fn cancelled_replies_are_left() {
    let mut m = ReplyMachine::new(ReplyLoop::new(5, 8, vec![]));
    let step = m.step(ReplyEvent::Began { cancelled: true }, 1);
    assert_eq!(step.next, ReplyAction::Leave { tell_stop_hook: true });
}

#[test]
fn long_conversations_are_compacted_on_the_way() {
    let mut first = true;
    let p = play(
        10,
        8,
        &mut |_| {
            if first {
                first = false;
                vec![StreamItem::Failed {
                    error: ProviderError::ContextLengthExceeded("long".to_string()),
                    display: "long".to_string(),
                }]
            } else {
                vec![answer("done")]
            }
        },
        &mut |_| HookDecision::Allow,
    );
    assert_eq!(p.calls, 2);
    assert!(p.actions.contains(&ReplyAction::Compact));
    assert_eq!(p.said, vec!["done"]);
}

fn request(id: &str, name: &str) -> ToolRequest {
    ToolRequest {
        id: id.to_string(),
        tool_call: Ok(ToolCall::new(name.to_string(), None)),
        metadata: None,
        tool_meta: None,
    }
}

fn after_tools(installs: Vec<String>, failed: Vec<String>) -> (bool, bool) {
    let mut m = ReplyMachine::new(ReplyLoop::new(5, 8, vec![]));
    m.step(ReplyEvent::Began { cancelled: false }, 1);
    m.step(ReplyEvent::FinalOutput(None), 1);
    m.step(ReplyEvent::Opened, 1);
    let response = || Message::new(Role::Assistant, 1, vec![]);
    let item = StreamItem::Response {
        shown: response(),
        response: response(),
        requests: 1,
        text: String::new(),
    };
    let step = m.step(ReplyEvent::Item { cancelled: false, item }, 1);
    assert_eq!(step.next, ReplyAction::RunTools);
    let blank = Message::new(Role::User, 1, vec![]);
    let mut open = OpenRequests::open(vec![], vec![request("r", "manage")], vec![blank]);
    open.answer("r", Ok(ToolOutput::success("ok".to_string())));
    let step = m.step(
        ReplyEvent::ToolsRan {
            response: response(),
            open,
            thinking_id: "t".to_string(),
            ids: vec!["i".to_string()],
            installs,
            failed,
        },
        1,
    );
    assert_eq!(step.next, ReplyAction::NextItem);
    assert_eq!(step.show.len(), 1);
    let saved = step.save_extensions;
    let step = m.step(ReplyEvent::StreamEnded, 1);
    assert_eq!(step.next, ReplyAction::LookForHints);
    assert_eq!(step.prepare, m.state.tools_updated);
    let step = m.step(ReplyEvent::Hints(true), 1);
    assert_eq!(step.prepare, !m.state.tools_updated);
    (saved, m.state.tools_updated)
}

#[test]
fn extensions_are_saved_where_no_install_failed() {
    let some = |s: &str| vec![s.to_string()];
    assert_eq!(after_tools(some("r"), vec![]), (true, true));
    assert_eq!(after_tools(some("r"), some("other")), (true, true));
    assert_eq!(after_tools(some("r"), some("r")), (false, false));
    assert_eq!(after_tools(vec![], vec![]), (false, false));
    let asked = vec![request("a", "manage"), request("b", "other"), request("c", "manage")];
    assert_eq!(install_requests(&asked, "manage"), vec!["a", "c"]);
}
