//! How a message of the user is answered: as the reply to a form, by a command, or by the reply
//! loop.

use crate::conversation::{
    contents, messages, notice, text_message, ContentModel, ElicitationAction, Message,
    MessageContent, MessageModel, NotificationKind, Role,
};
use crate::json::{Json, Tree};
use crate::text::{
    cat, cat3, contains_string, decimal, decimal_of, has_text, lemma_has_text, str_eq, texts, trim,
    trimmed,
};
use vstd::prelude::*;
use vstd::string::*;

verus! {

/// What the user did with a form.
#[derive(Debug, PartialEq, Eq)]
pub enum ElicitationOutcome {
    Accept(Json),
    Decline,
    Cancel,
}

#[verifier::ext_equal]
pub enum OutcomeModel {
    Accept(Tree),
    Decline,
    Cancel,
}

impl ElicitationOutcome {
    pub open spec fn view(&self) -> OutcomeModel {
        match self {
            ElicitationOutcome::Accept(j) => OutcomeModel::Accept(j@),
            ElicitationOutcome::Decline => OutcomeModel::Decline,
            ElicitationOutcome::Cancel => OutcomeModel::Cancel,
        }
    }
}

/// The reply to a form among some contents: the first there is.
pub open spec fn form_reply(content: Seq<ContentModel>) -> Option<(Seq<char>, OutcomeModel)>
    decreases content.len(),
{
    if content.len() == 0 {
        None
    } else {
        match content[0] {
            ContentModel::ElicitationResponse { id, user_data, action } => Some(
                (
                    id,
                    match action {
                        ElicitationAction::Accept => OutcomeModel::Accept(user_data),
                        ElicitationAction::Decline => OutcomeModel::Decline,
                        ElicitationAction::Cancel => OutcomeModel::Cancel,
                    },
                ),
            ),
            _ => form_reply(content.skip(1)),
        }
    }
}

/// The reply to a form in a message: the first there is.
pub fn elicitation_reply(message: &Message) -> (r: Option<(String, ElicitationOutcome)>)
    ensures
        match r {
            Some(p) => form_reply(message@.content) == Some((p.0@, p.1@)),
            None => form_reply(message@.content) is None,
        },
{
    let ghost all = contents(message.content@);
    let mut i: usize = 0;
    assert(all.skip(0) =~= all);
    while i < message.content.len()
        invariant
            all == contents(message.content@),
            i <= message.content@.len(),
            form_reply(all) == form_reply(all.skip(i as int)),
        decreases message.content@.len() - i,
    {
        assert(all.skip(i as int)[0] == message.content@[i as int]@);
        assert(all.skip(i as int).skip(1) =~= all.skip(i + 1));
        if let MessageContent::ElicitationResponse { id, user_data, action } = &message.content[i] {
            let outcome = match action {
                ElicitationAction::Accept => ElicitationOutcome::Accept(user_data.copy()),
                ElicitationAction::Decline => ElicitationOutcome::Decline,
                ElicitationAction::Cancel => ElicitationOutcome::Cancel,
            };
            return Some((id.clone(), outcome));
        }
        i = i + 1;
    }
    None
}

/// What a command came to.
#[derive(Debug, PartialEq, Eq)]
pub enum CommandResult {
    /// The command failed, with this text.
    Failed(String),
    /// The message is no command.
    NotACommand,
    /// The command gave this message: as the assistant, an answer; else what it stands for.
    Gave(Message),
}

/// How a message of the user is answered.
#[derive(Debug, PartialEq, Eq)]
pub enum ReplyRoute {
    /// The message is shown and nothing more happens.
    Refused { message: Message },
    /// The messages are stored and shown; where the command changed the history, that is shown
    /// too. Nothing more happens.
    Answered { store: Vec<Message>, show: Vec<Message>, history_replaced: bool },
    /// The messages are stored, those to show are shown, and the reply loop runs.
    Run { store: Vec<Message>, show: Vec<Message> },
}

/// The message that starts the work on a goal.
pub open spec fn kickoff(goal: Seq<char>, now: i64) -> MessageModel {
    text_message(
        Role::User,
        now,
        "Start working toward this goal now:\n\n**Goal:** "@ + goal,
    ).with_visibility(false, true)
}

/// Whether a command changes the history: it is one of those that compact, or clears it.
pub open spec fn changes_history(text: Seq<char>, compact_triggers: Seq<Seq<char>>) -> bool {
    compact_triggers.contains(trimmed(text)) || trimmed(text) == "/clear"@
}

/// How a message of the user is answered, by what its command came to.
pub open spec fn routed(
    user: MessageModel,
    text: Seq<char>,
    command: CommandResult,
    starts_turn: bool,
    goal: Seq<char>,
    compact_triggers: Seq<Seq<char>>,
    now: i64,
    r: ReplyRoute,
) -> bool {
    match command {
        CommandResult::Failed(e) => {
            &&& r matches ReplyRoute::Refused { message }
            &&& message@ == text_message(Role::Assistant, now, e@).with_visibility(true, false)
        },
        CommandResult::NotACommand => {
            &&& r matches ReplyRoute::Run { store, show }
            &&& messages(store@) == seq![user]
            &&& show@.len() == 0
        },
        CommandResult::Gave(response) => if response.role == Role::Assistant && starts_turn {
            &&& r matches ReplyRoute::Run { store, show }
            &&& messages(store@) == seq![
                user.with_visibility(true, false),
                response@.with_visibility(true, false),
                kickoff(goal, now),
            ]
            &&& messages(show@) == seq![user, response@]
        } else if response.role == Role::Assistant {
            &&& r matches ReplyRoute::Answered { store, show, history_replaced }
            &&& messages(store@) == seq![
                user.with_visibility(true, false),
                response@.with_visibility(true, false),
            ]
            &&& messages(show@) == seq![user, response@]
            &&& history_replaced == changes_history(text, compact_triggers)
        } else {
            &&& r matches ReplyRoute::Run { store, show }
            &&& messages(store@) == seq![
                user.with_visibility(true, false),
                response@.with_visibility(false, true),
            ]
            &&& show@.len() == 0
        },
    }
}

/// Decides how a message of the user is answered. `starts_turn` says whether a command of this
/// text starts a turn, and `goal` is what it was given.
pub fn route_reply(
    user_message: Message,
    message_text: &str,
    command: CommandResult,
    starts_turn: bool,
    goal: &str,
    compact_triggers: &Vec<String>,
    now: i64,
) -> (r: ReplyRoute)
    ensures
        routed(
            user_message@,
            message_text@,
            command,
            starts_turn,
            goal@,
            texts(compact_triggers@),
            now,
            r,
        ),
{
    match command {
        CommandResult::Failed(e) => ReplyRoute::Refused {
            message: Message::text(Role::Assistant, now, e).with_visibility(true, false),
        },
        CommandResult::NotACommand => {
            let store = vec![user_message];
            assert(messages(store@) =~= seq![user_message@]);
            ReplyRoute::Run { store, show: Vec::new() }
        },
        CommandResult::Gave(response) => {
            let ghost um = user_message@;
            let ghost rm = response@;
            if response.role == Role::Assistant && starts_turn {
                let text = cat("Start working toward this goal now:\n\n**Goal:** ", goal);
                let store = vec![
                    user_message.copy().with_visibility(true, false),
                    response.copy().with_visibility(true, false),
                    Message::text(Role::User, now, text).with_visibility(false, true),
                ];
                assert(messages(store@) =~= seq![
                    um.with_visibility(true, false),
                    rm.with_visibility(true, false),
                    kickoff(goal@, now),
                ]);
                let show = vec![user_message, response];
                assert(messages(show@) =~= seq![um, rm]);
                ReplyRoute::Run { store, show }
            } else if response.role == Role::Assistant {
                let t = trim(message_text);
                let history_replaced = contains_string(compact_triggers, t.as_str()) || str_eq(
                    t.as_str(),
                    "/clear",
                );
                let store = vec![
                    user_message.copy().with_visibility(true, false),
                    response.copy().with_visibility(true, false),
                ];
                assert(messages(store@) =~= seq![
                    um.with_visibility(true, false),
                    rm.with_visibility(true, false),
                ]);
                let show = vec![user_message, response];
                assert(messages(show@) =~= seq![um, rm]);
                ReplyRoute::Answered { store, show, history_replaced }
            } else {
                let store = vec![
                    user_message.with_visibility(true, false),
                    response.with_visibility(false, true),
                ];
                assert(messages(store@) =~= seq![
                    um.with_visibility(true, false),
                    rm.with_visibility(false, true),
                ]);
                ReplyRoute::Run { store, show: Vec::new() }
            }
        },
    }
}

/// What the user is told before the conversation is compacted.
pub open spec fn auto_compact_notices(threshold_percentage: u32, now: i64) -> Seq<MessageModel> {
    seq![
        notice(
            now,
            NotificationKind::InlineMessage,
            "Exceeded auto-compact threshold of "@ + decimal(threshold_percentage as nat)
                + "%. Performing auto-compaction..."@,
        ),
        notice(
            now,
            NotificationKind::ThinkingMessage,
            "goose is compacting the conversation..."@,
        ),
    ]
}

/// What the user is told before the conversation is compacted.
pub fn before_auto_compact(threshold_percentage: u32, now: i64) -> (r: Vec<Message>)
    ensures
        messages(r@) == auto_compact_notices(threshold_percentage, now),
{
    let n = decimal_of(threshold_percentage as u64);
    let r = vec![
        Message::notification(
            now,
            NotificationKind::InlineMessage,
            cat3(
                "Exceeded auto-compact threshold of ",
                n.as_str(),
                "%. Performing auto-compaction...",
            ),
        ),
        Message::notification(
            now,
            NotificationKind::ThinkingMessage,
            "goose is compacting the conversation...".to_owned(),
        ),
    ];
    assert(messages(r@) =~= auto_compact_notices(threshold_percentage, now));
    r
}

/// Whether this follows the compaction before a reply.
pub open spec fn compaction_ended(
    result: Result<Vec<Message>, String>,
    now: i64,
    shown: MessageModel,
    next: Option<Vec<Message>>,
) -> bool {
    match result {
        Ok(v) => {
            &&& shown == notice(now, NotificationKind::InlineMessage, "Compaction complete"@)
            &&& next == Some(v)
        },
        Err(e) => {
            &&& shown == text_message(
                Role::Assistant,
                now,
                crate::reply_loop::compaction_failed_text(e@),
            )
            &&& next is None
        },
    }
}

/// What follows the compaction before a reply: the message to show, and the conversation to go on
/// with; without one the reply ends.
pub fn after_auto_compact(result: Result<Vec<Message>, String>, now: i64) -> (r: (
    Message,
    Option<Vec<Message>>,
))
    ensures
        compaction_ended(result, now, r.0@, r.1),
{
    match result {
        Ok(v) => (
            Message::notification(
                now,
                NotificationKind::InlineMessage,
                "Compaction complete".to_owned(),
            ),
            Some(v),
        ),
        Err(e) => (
            Message::text(
                Role::Assistant,
                now,
                cat3(
                    "Ran into this error trying to compact: ",
                    e.as_str(),
                    ".\n\nPlease try again or create a new session",
                ),
            ),
            None,
        ),
    }
}

/// When the reply loop runs: for what is no command, for a command that starts a turn, and for one
/// that stands for a message of the user. It does not run after a command that answered or failed.
pub proof fn law_when_the_loop_runs(
    user: MessageModel,
    text: Seq<char>,
    command: CommandResult,
    starts_turn: bool,
    goal: Seq<char>,
    compact_triggers: Seq<Seq<char>>,
    now: i64,
    r: ReplyRoute,
)
    requires
        routed(user, text, command, starts_turn, goal, compact_triggers, now, r),
    ensures
        r is Run <==> match command {
            CommandResult::Failed(_) => false,
            CommandResult::NotACommand => true,
            CommandResult::Gave(m) => m.role == Role::User || starts_turn,
        },
        r is Refused <==> command is Failed,
        r matches ReplyRoute::Answered { history_replaced, .. } ==> history_replaced == (
        compact_triggers.contains(trimmed(text)) || trimmed(text) == "/clear"@),
{
}

/// The message of the user is always stored first, unless its command failed, and the user goes on
/// seeing it. The agent sees it only where it is no command; of a command it sees what that stands
/// for, or the goal of the turn, and no answer that was given to the user.
pub proof fn law_what_the_agent_sees_of_commands(
    user: MessageModel,
    text: Seq<char>,
    command: CommandResult,
    starts_turn: bool,
    goal: Seq<char>,
    compact_triggers: Seq<Seq<char>>,
    now: i64,
    r: ReplyRoute,
)
    requires
        routed(user, text, command, starts_turn, goal, compact_triggers, now, r),
    ensures
        command is NotACommand ==> (r matches ReplyRoute::Run { store, show } && messages(store@)
            == seq![user] && show@.len() == 0),
        command matches CommandResult::Gave(m) ==> {
            let store = match r {
                ReplyRoute::Run { store, .. } => messages(store@),
                ReplyRoute::Answered { store, .. } => messages(store@),
                ReplyRoute::Refused { .. } => Seq::empty(),
            };
            &&& store.len() >= 2
            &&& store[0].content == user.content && store[0].user_visible
                && !store[0].agent_visible
            &&& store[1].content == m@.content
            &&& m.role == Role::Assistant ==> store[1].user_visible && !store[1].agent_visible
            &&& m.role == Role::User ==> store[1].agent_visible && !store[1].user_visible
                && store.len() == 2
            &&& m.role == Role::Assistant && starts_turn ==> store.len() == 3
                && store[2].agent_visible && !store[2].user_visible && store[2].role == Role::User
                && (store[2].content[0] matches ContentModel::Text { text: t, .. } && has_text(
                t,
                goal,
            ))
            &&& m.role == Role::Assistant && !starts_turn ==> store.len() == 2
        },
        r matches ReplyRoute::Refused { message } ==> message@.user_visible
            && !message@.agent_visible && message@.role == Role::Assistant && (command matches
            CommandResult::Failed(e) && message@.content == seq![
            crate::conversation::text_content(e@),
        ]),
{
    lemma_has_text("Start working toward this goal now:\n\n**Goal:** "@, goal, Seq::empty());
    assert(kickoff(goal, now).content[0] == crate::conversation::text_content(
        "Start working toward this goal now:\n\n**Goal:** "@ + goal,
    ));
}

/// The first reply to a form among some contents counts: what came before it does not matter, nor
/// what comes after, and accepted data is handed on as it is.
pub proof fn law_the_first_form_reply_counts(content: Seq<ContentModel>, k: int)
    requires
        0 <= k < content.len(),
        content[k] is ElicitationResponse,
        forall|i: int| 0 <= i < k ==> !((#[trigger] content[i]) is ElicitationResponse),
    ensures
        form_reply(content) matches Some((id, outcome)) && {
            let given = content[k];
            &&& id == given->ElicitationResponse_id
            &&& given->action == ElicitationAction::Accept <==> outcome == OutcomeModel::Accept(
                given->user_data,
            )
            &&& given->action == ElicitationAction::Decline <==> outcome is Decline
            &&& given->action == ElicitationAction::Cancel <==> outcome is Cancel
        },
    decreases k,
{
    if k > 0 {
        assert(!(content[0] is ElicitationResponse));
        assert(content.skip(1)[k - 1] == content[k]);
        assert forall|i: int| 0 <= i < k - 1 implies !((
        #[trigger] content.skip(1)[i]) is ElicitationResponse) by {
            assert(content.skip(1)[i] == content[i + 1]);
        }
        law_the_first_form_reply_counts(content.skip(1), k - 1);
    }
}

/// A message without a reply to a form is none.
pub proof fn law_other_messages_reply_to_no_form(content: Seq<ContentModel>)
    requires
        forall|i: int| 0 <= i < content.len() ==> !((#[trigger] content[i]) is ElicitationResponse),
    ensures
        form_reply(content) is None,
    decreases content.len(),
{
    if content.len() > 0 {
        assert(!(content[0] is ElicitationResponse));
        assert forall|i: int| 0 <= i < content.skip(1).len() implies !((
        #[trigger] content.skip(1)[i]) is ElicitationResponse) by {
            assert(content.skip(1)[i] == content[i + 1]);
        }
        law_other_messages_reply_to_no_form(content.skip(1));
    }
}

/// The user is told the threshold that was exceeded, and then that the conversation is compacted.
pub proof fn law_compaction_is_announced(threshold_percentage: u32, now: i64)
    ensures
        auto_compact_notices(threshold_percentage, now).len() == 2,
        auto_compact_notices(threshold_percentage, now)[0].content[0]
            matches ContentModel::SystemNotification { kind, text, .. } && kind
            == NotificationKind::InlineMessage && has_text(
            text,
            decimal(threshold_percentage as nat),
        ),
        auto_compact_notices(threshold_percentage, now)[1].content[0]
            matches ContentModel::SystemNotification { kind, .. } && kind
            == NotificationKind::ThinkingMessage,
{
    lemma_has_text(
        "Exceeded auto-compact threshold of "@,
        decimal(threshold_percentage as nat),
        "%. Performing auto-compaction..."@,
    );
}

/// After a compaction the reply goes on with the shorter conversation; after a failed one it ends,
/// and the user is told the error.
pub proof fn law_failed_compaction_ends_the_reply(
    result: Result<Vec<Message>, String>,
    now: i64,
    shown: MessageModel,
    next: Option<Vec<Message>>,
)
    requires
        compaction_ended(result, now, shown, next),
    ensures
        next is Some <==> result is Ok,
        result matches Ok(v) ==> next == Some(v),
        result matches Err(e) ==> (shown.content[0] matches ContentModel::Text { text, .. }
            && has_text(text, e@)),
        shown.user_visible,
        shown.role == Role::Assistant,
{
    if let Err(e) = result {
        crate::reply_loop::law_nudges_hold_the_goal(e@);
    }
}

} // verus!
