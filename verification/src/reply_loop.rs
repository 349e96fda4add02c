//! The reply loop: what the agent does next after each thing that happened.
//!
//! The loop asks the provider, runs the tools that it asks for, and decides when the turn ends.
//! Everything that reaches outside (the provider, tools, hooks, the session's storage) happens
//! between two steps: a step takes in what happened and says what to do.

use crate::agent::{
    cap_warning, denial_context, denial_notice, stop_hook_block_cap_warning,
    stop_hook_denial_context_message, stop_hook_denial_notification, DEFAULT_MAX_TURNS,
};
use crate::conversation::{
    contents, copy_contents, copy_json, copy_messages, copy_text, messages, notice, plain_message,
    requests, result_model, success_text, error_text, text_message, ContentModel, ErrorData,
    ErrorModel, Inference, InferenceModel, inference_opt, Message, MessageContent, MessageModel,
    NotificationKind, OutputModel, RequestModel, ResponseModel, Role, ToolOutput, ToolRequest,
    ToolResponse,
};
use crate::hooks::{DecisionModel, HookDecision};
use crate::json::{tree_opt, Json, Member, Tree, members};
use crate::reply_parts::ProviderError;
use crate::text::{cat, cat3, has_text, lemma_has_text, str_eq, text_opt, texts};
use vstd::prelude::*;
use vstd::string::*;

verus! {

broadcast use {crate::json::lemma_array_view, crate::json::lemma_object_view};

/// The state of a reply.
#[derive(Debug, PartialEq, Eq)]
pub struct ReplyLoop {
    pub max_turns: u32,
    pub stop_hook_block_cap: u32,
    pub turns_taken: u32,
    pub compaction_attempts: u32,
    pub last_assistant_text: String,
    pub goal_check_pending: bool,
    pub tool_pair_summarization_done: bool,
    pub stop_hook_handled_for_exit: bool,
    pub retrying_after_stop_hook_denial: bool,
    pub consecutive_stop_hook_blocks: u32,
    pub can_drain_pending_steers: bool,
    pub conversation: Vec<Message>,
    pub no_tools_called: bool,
    pub messages_to_add: Vec<Message>,
    pub tools_updated: bool,
    pub did_recovery_compact: bool,
    pub exit_chat: bool,
    pub pending_final_output: Option<String>,
    pub surfaced_thinking: bool,
}

#[verifier::ext_equal]
pub struct LoopModel {
    pub max_turns: u32,
    pub stop_hook_block_cap: u32,
    pub turns_taken: u32,
    pub compaction_attempts: u32,
    pub last_assistant_text: Seq<char>,
    pub goal_check_pending: bool,
    pub tool_pair_summarization_done: bool,
    pub stop_hook_handled_for_exit: bool,
    pub retrying_after_stop_hook_denial: bool,
    pub consecutive_stop_hook_blocks: u32,
    pub can_drain_pending_steers: bool,
    pub conversation: Seq<MessageModel>,
    pub no_tools_called: bool,
    pub messages_to_add: Seq<MessageModel>,
    pub tools_updated: bool,
    pub did_recovery_compact: bool,
    pub exit_chat: bool,
    pub pending_final_output: Option<Seq<char>>,
    pub surfaced_thinking: bool,
}

/// The turns that a reply may take.
pub open spec fn turn_limit(session: Option<u32>, configured: Option<u32>) -> u32 {
    match (session, configured) {
        (Some(n), _) => n,
        (None, Some(n)) => n,
        (None, None) => DEFAULT_MAX_TURNS,
    }
}

/// The session's own limit counts before the configured one, and a thousand turns where neither is
/// set.
pub proof fn law_the_sessions_limit_counts_first(session: Option<u32>, configured: Option<u32>)
    ensures
        session matches Some(n) ==> turn_limit(session, configured) == n,
        session is None ==> (configured matches Some(n) ==> turn_limit(session, configured) == n),
        session is None && configured is None ==> turn_limit(session, configured) == 1000,
{
}

/// The turns that a reply may take: the session's limit, else the configured one, else a default.
pub fn max_turns_for(session: Option<u32>, configured: Option<u32>) -> (r: u32)
    ensures
        r == turn_limit(session, configured),
{
    match (session, configured) {
        (Some(n), _) => n,
        (None, Some(n)) => n,
        (None, None) => DEFAULT_MAX_TURNS,
    }
}

// ---------------------------------------------------------------------------
// What the steps say
// ---------------------------------------------------------------------------

/// How an iteration begins.
#[derive(Clone, Copy, PartialEq, Eq, Structural, Debug)]
pub enum Begin {
    /// The reply was cancelled: leave the loop.
    Stop,
    /// Take the messages that wait to steer the reply, then look for a final output.
    DrainSteers,
    /// Look for a final output.
    CheckFinalOutput,
}

/// What follows the decision of the stop hooks.
#[derive(Debug, PartialEq, Eq)]
pub enum StopVerdict {
    /// The turn ends.
    End,
    /// The turn ends though a hook denied it; the user is told.
    Overridden { warning: Message },
    /// The turn goes on: the context goes into the conversation, the notice to the user.
    GoOn { context: Message, notice: Message },
}

/// What follows the count of a turn.
#[derive(Debug, PartialEq, Eq)]
pub enum TurnStep {
    /// Ask the provider.
    Ask,
    /// The limit is reached: tell the user and leave the loop.
    LimitReached { message: Message },
}

/// What follows an error of the provider.
#[derive(Debug, PartialEq, Eq)]
pub enum ErrorStep {
    /// Tell the user and end the stream.
    Tell { message: Message },
    /// Tell the user, compact the conversation, and end the stream.
    Compact { notice: Message, thinking: Message },
}

/// What follows a turn in which no tool was called.
#[derive(Debug, PartialEq, Eq)]
pub enum IdleStep {
    /// Tools were called, or the reply is leaving anyway.
    Busy,
    /// The final output tool is there and was not called: the model is told.
    AskForFinalOutput { message: Message },
    /// There is a final output: the reply is leaving.
    FinalOutput,
    /// The conversation was compacted: ask the provider again.
    AfterCompaction,
    /// A steering message waits.
    Steered,
    /// The goal is to be checked: the user is told.
    CheckGoal { notice: Message },
    /// The work is to go on: the user is told.
    KeepGrinding { notice: Message },
    /// Nothing is left: goal and grind are cleared, and the recipe's checks decide.
    CheckRecipe,
}

/// What follows the end of an iteration.
#[derive(Debug, PartialEq, Eq)]
pub struct Finish {
    /// The messages to store, in order.
    pub store: Vec<Message>,
    /// The final output to show, where there is one.
    pub show: Option<Message>,
    /// Whether the stop hooks are to be asked.
    pub ask_stop_hook: bool,
}

// ---------------------------------------------------------------------------
// The texts
// ---------------------------------------------------------------------------

pub open spec fn max_turns_text() -> Seq<char> {
    "I've reached the maximum number of actions I can do without user input. Would you like me to continue?"@
}

pub open spec fn compaction_failed_text(error: Seq<char>) -> Seq<char> {
    "Ran into this error trying to compact: "@ + error
        + ".\n\nPlease try again or create a new session"@
}

pub open spec fn goal_nudge_text(goal: Seq<char>) -> Seq<char> {
    "Before finishing, check whether the following goal has been fully met:\n\n**Goal:** "@ + goal
        + "\n\nIf not, continue working toward it."@
}

pub open spec fn grind_nudge_text(grind: Seq<char>) -> Seq<char> {
    "Keep working. The grind goal is not yet complete:\n\n**Goal:** "@ + grind
        + "\n\nContinue until it is fully done."@
}

pub open spec fn refusal_text(details: Seq<char>, category: Option<Seq<char>>) -> Seq<char> {
    "The provider refused this request.\n\n"@ + details + match category {
        Some(c) => "\n\nCategory: "@ + c,
        None => Seq::empty(),
    }
        + "\n\nPlease start a new session to continue — resending this conversation is likely to be refused again."@
}

/// The notice that the account has no credits left, with the place to add some where it is known.
pub open spec fn credits_message(created: i64, top_up_url: Option<Seq<char>>) -> MessageModel {
    plain_message(
        Role::Assistant,
        created,
        seq![
            ContentModel::SystemNotification {
                kind: NotificationKind::CreditsExhausted,
                text: if top_up_url is Some {
                    "Please add credits to your account, then resend your message to continue."@
                } else {
                    "Please check your account with your provider to add more credits, then resend your message to continue."@
                },
                data: Some(
                    Tree::Object(
                        seq![
                            (
                                "top_up_url"@,
                                match top_up_url {
                                    Some(u) => Tree::Str(u),
                                    None => Tree::Null,
                                },
                            ),
                        ],
                    ),
                ),
            },
        ],
    )
}

/// What the user is told of an error of the provider that needs no compaction. `display` is the
/// error's own text.
pub open spec fn error_message(error: ProviderError, display: Seq<char>, created: i64) -> MessageModel {
    match error {
        ProviderError::CreditsExhausted { details, top_up_url } => credits_message(
            created,
            text_opt(top_up_url),
        ),
        ProviderError::Refusal { details, category } => text_message(
            Role::Assistant,
            created,
            refusal_text(details@, text_opt(category)),
        ),
        ProviderError::NetworkError(_) => text_message(
            Role::Assistant,
            created,
            display + "\n\nPlease resend your message to try again."@,
        ),
        _ => text_message(
            Role::Assistant,
            created,
            "Ran into this error: "@ + display
                + ".\n\nPlease retry if you think this is a transient or recoverable error."@,
        ),
    }
}

pub open spec fn still_too_long(created: i64) -> MessageModel {
    notice(
        created,
        NotificationKind::InlineMessage,
        "Unable to continue: Context limit still exceeded after compaction. Try using a shorter message, a model with a larger context window, or start a new session."@,
    )
}

// ---------------------------------------------------------------------------
// Messages and inference
// ---------------------------------------------------------------------------

/// A message with the model that answered, where that is known.
pub open spec fn stamped(m: MessageModel, inference: Option<InferenceModel>) -> MessageModel {
    match inference {
        Some(i) => MessageModel { inference: Some(i), ..m },
        None => m,
    }
}

/// A message of the assistant with the model that answered; any other message as it is.
pub open spec fn stamped_if_assistant(
    m: MessageModel,
    inference: Option<InferenceModel>,
) -> MessageModel {
    if m.role == Role::Assistant {
        stamped(m, inference)
    } else {
        m
    }
}

/// A message with the model that answered, where that is known.
pub fn stamp(message: Message, inference: &Option<Inference>) -> (r: Message)
    ensures
        r@ == stamped(message@, inference_opt(*inference)),
{
    let mut m = message;
    if let Some(i) = inference {
        m.inference = Some(i.copy());
    }
    m
}

pub open spec fn stamped_all(
    v: Seq<MessageModel>,
    inference: Option<InferenceModel>,
) -> Seq<MessageModel> {
    Seq::new(v.len(), |i: int| stamped_if_assistant(v[i], inference))
}

fn stamp_all(v: &Vec<Message>, inference: &Option<Inference>) -> (r: Vec<Message>)
    ensures
        messages(r@) == stamped_all(messages(v@), inference_opt(*inference)),
{
    let mut out: Vec<Message> = Vec::new();
    let mut i: usize = 0;
    while i < v.len()
        invariant
            i <= v@.len(),
            out@.len() == i,
            forall|j: int|
                0 <= j < i ==> #[trigger] out@[j]@ == stamped_if_assistant(
                    v@[j]@,
                    inference_opt(*inference),
                ),
        decreases v@.len() - i,
    {
        let m = v[i].copy();
        if m.role == Role::Assistant {
            out.push(stamp(m, inference));
        } else {
            out.push(m);
        }
        i = i + 1;
    }
    assert(messages(out@) =~= stamped_all(messages(v@), inference_opt(*inference)));
    out
}

/// Whether some contents hold reasoning of the model.
pub open spec fn has_thinking(content: Seq<ContentModel>) -> bool {
    exists|i: int| 0 <= i < content.len() && (#[trigger] content[i]).thinking()
}

fn any_thinking(content: &Vec<MessageContent>) -> (r: bool)
    ensures
        r == has_thinking(contents(content@)),
{
    let mut i: usize = 0;
    while i < content.len()
        invariant
            i <= content@.len(),
            forall|j: int| 0 <= j < i ==> !(#[trigger] contents(content@)[j]).thinking(),
        decreases content@.len() - i,
    {
        if content[i].is_thinking() {
            assert(contents(content@)[i as int].thinking());
            return true;
        }
        i = i + 1;
    }
    false
}

/// The reasoning among some contents.
pub open spec fn thinking_of(content: Seq<ContentModel>) -> Seq<ContentModel>
    decreases content.len(),
{
    if content.len() == 0 {
        Seq::empty()
    } else {
        let head = thinking_of(content.drop_last());
        if content.last().thinking() {
            head.push(content.last())
        } else {
            head
        }
    }
}

fn select_thinking(content: &Vec<MessageContent>) -> (r: Vec<MessageContent>)
    ensures
        contents(r@) == thinking_of(contents(content@)),
{
    let ghost all = contents(content@);
    let mut out: Vec<MessageContent> = Vec::new();
    let mut i: usize = 0;
    assert(contents(out@) =~= thinking_of(all.take(0)));
    while i < content.len()
        invariant
            all == contents(content@),
            i <= content@.len(),
            contents(out@) == thinking_of(all.take(i as int)),
        decreases content@.len() - i,
    {
        assert(all.take(i + 1).drop_last() =~= all.take(i as int));
        assert(all.take(i + 1).last() == content@[i as int]@);
        if content[i].is_thinking() {
            let ghost before = contents(out@);
            out.push(content[i].copy());
            assert(contents(out@) =~= before.push(content@[i as int]@));
        }
        i = i + 1;
    }
    assert(all.take(i as int) =~= all);
    out
}

/// Whether a message holds reasoning and nothing else.
pub open spec fn only_thinking(m: MessageModel) -> bool {
    m.content.len() > 0 && forall|i: int|
        0 <= i < m.content.len() ==> (#[trigger] m.content[i]).thinking()
}

/// The reasoning of the last message of the role that holds nothing else.
pub open spec fn earlier_thinking(added: Seq<MessageModel>, role: Role) -> Seq<ContentModel>
    decreases added.len(),
{
    if added.len() == 0 {
        Seq::empty()
    } else if added.last().role == role && only_thinking(added.last()) {
        added.last().content
    } else {
        earlier_thinking(added.drop_last(), role)
    }
}

fn is_only_thinking(m: &Message) -> (r: bool)
    ensures
        r == only_thinking(m@),
{
    if m.content.len() == 0 {
        return false;
    }
    let mut i: usize = 0;
    while i < m.content.len()
        invariant
            i <= m.content@.len(),
            forall|j: int| 0 <= j < i ==> (#[trigger] m@.content[j]).thinking(),
        decreases m.content@.len() - i,
    {
        if !m.content[i].is_thinking() {
            assert(!m@.content[i as int].thinking());
            return false;
        }
        i = i + 1;
    }
    true
}

fn find_earlier_thinking(added: &Vec<Message>, role: Role) -> (r: Vec<MessageContent>)
    ensures
        contents(r@) == earlier_thinking(messages(added@), role),
{
    let ghost all = messages(added@);
    let mut i: usize = added.len();
    assert(all.take(i as int) =~= all);
    while i > 0
        invariant
            all == messages(added@),
            i <= added@.len(),
            earlier_thinking(all.take(i as int), role) == earlier_thinking(all, role),
        decreases i,
    {
        assert(all.take(i as int).last() == added@[i - 1]@);
        assert(all.take(i as int).drop_last() =~= all.take(i - 1));
        if added[i - 1].role == role && is_only_thinking(&added[i - 1]) {
            return copy_contents(&added[i - 1].content);
        }
        i = i - 1;
    }
    let none: Vec<MessageContent> = Vec::new();
    assert(contents(none@) =~= earlier_thinking(all.take(0), role));
    none
}

/// How many tool requests some contents hold.
pub open spec fn requests_in(content: Seq<ContentModel>) -> nat
    decreases content.len(),
{
    if content.len() == 0 {
        0
    } else {
        requests_in(content.drop_last()) + if content.last() is ToolRequest {
            1nat
        } else {
            0nat
        }
    }
}

/// How many tool requests some messages hold.
pub open spec fn request_count(all: Seq<MessageModel>) -> nat
    decreases all.len(),
{
    if all.len() == 0 {
        0
    } else {
        request_count(all.drop_last()) + requests_in(all.last().content)
    }
}

/// How many tool requests some messages hold, as far as that can be counted.
pub fn count_tool_requests(all: &Vec<Message>) -> (r: usize)
    ensures
        r == if request_count(messages(all@)) <= usize::MAX {
            request_count(messages(all@))
        } else {
            usize::MAX as nat
        },
{
    let ghost am = messages(all@);
    let mut n: usize = 0;
    let mut i: usize = 0;
    while i < all.len()
        invariant
            am == messages(all@),
            i <= all@.len(),
            n == if request_count(am.take(i as int)) <= usize::MAX {
                request_count(am.take(i as int))
            } else {
                usize::MAX as nat
            },
        decreases all@.len() - i,
    {
        assert(am.take(i + 1).drop_last() =~= am.take(i as int));
        assert(am.take(i + 1).last() == all@[i as int]@);
        let ghost cm = contents(all@[i as int].content@);
        let ghost base = request_count(am.take(i as int));
        let mut k: usize = 0;
        assert(requests_in(cm.take(0)) == 0);
        while k < all[i].content.len()
            invariant
                i < all@.len(),
                cm == contents(all@[i as int].content@),
                k <= cm.len(),
                n == if base + requests_in(cm.take(k as int)) <= usize::MAX {
                    (base + requests_in(cm.take(k as int))) as nat
                } else {
                    usize::MAX as nat
                },
            decreases cm.len() - k,
        {
            assert(cm.take(k + 1).drop_last() =~= cm.take(k as int));
            assert(cm.take(k + 1).last() == all@[i as int].content@[k as int]@);
            if let MessageContent::ToolRequest(_) = &all[i].content[k] {
                n = n.saturating_add(1);
            }
            k = k + 1;
        }
        assert(cm.take(k as int) =~= cm);
        i = i + 1;
    }
    assert(am.take(i as int) =~= am);
    n
}

// ---------------------------------------------------------------------------
// Open requests
// ---------------------------------------------------------------------------

/// The tool requests of a response with the message that is to answer each.
#[derive(Debug, PartialEq, Eq)]
pub struct OpenRequests {
    pub requests: Vec<ToolRequest>,
    pub replies: Vec<Message>,
}

/// A message with the answer to a tool request at its end.
pub open spec fn answered(
    reply: MessageModel,
    id: Seq<char>,
    result: Result<OutputModel, ErrorModel>,
    metadata: Option<Tree>,
) -> MessageModel {
    MessageModel {
        content: reply.content.push(
            ContentModel::ToolResponse(ResponseModel { id, result, metadata }),
        ),
        ..reply
    }
}

/// The replies after the first request with the id was answered; all as they were where there is
/// none.
pub open spec fn replies_after(
    reqs: Seq<RequestModel>,
    replies: Seq<MessageModel>,
    id: Seq<char>,
    result: Result<OutputModel, ErrorModel>,
) -> Seq<MessageModel>
    decreases reqs.len(),
{
    if reqs.len() == 0 || replies.len() == 0 {
        replies
    } else if reqs[0].id == id {
        seq![answered(replies[0], id, result, reqs[0].metadata)] + replies.skip(1)
    } else {
        seq![replies[0]] + replies_after(reqs.skip(1), replies.skip(1), id, result)
    }
}

impl OpenRequests {
    pub open spec fn wf(&self) -> bool {
        self.requests@.len() == self.replies@.len()
    }

    /// Opens the requests of a response: those of the frontend, then the rest. `blanks` are the
    /// empty messages that are to answer them.
    pub fn open(
        frontend: Vec<ToolRequest>,
        remaining: Vec<ToolRequest>,
        blanks: Vec<Message>,
    ) -> (r: OpenRequests)
        requires
            blanks@.len() == frontend@.len() + remaining@.len(),
        ensures
            r.wf(),
            requests(r.requests@) == requests(frontend@) + requests(remaining@),
            r.replies == blanks,
    {
        let mut all = frontend;
        let mut rest = remaining;
        all.append(&mut rest);
        assert(requests(all@) =~= requests(frontend@) + requests(remaining@));
        OpenRequests { requests: all, replies: blanks }
    }

    proof fn lemma_replies_at(
        reqs: Seq<RequestModel>,
        replies: Seq<MessageModel>,
        id: Seq<char>,
        result: Result<OutputModel, ErrorModel>,
        k: int,
    )
        requires
            0 <= k < reqs.len(),
            reqs.len() == replies.len(),
            reqs[k].id == id,
            forall|j: int| 0 <= j < k ==> (#[trigger] reqs[j]).id != id,
        ensures
            replies_after(reqs, replies, id, result) == replies.update(
                k,
                answered(replies[k], id, result, reqs[k].metadata),
            ),
        decreases k,
    {
        let a = answered(replies[k], id, result, reqs[k].metadata);
        if k == 0 {
            assert(seq![a] + replies.skip(1) =~= replies.update(0, a));
        } else {
            assert(reqs[0].id != id);
            Self::lemma_replies_at(reqs.skip(1), replies.skip(1), id, result, k - 1);
            assert(seq![replies[0]] + replies.skip(1).update(k - 1, a) =~= replies.update(k, a));
        }
    }

    proof fn lemma_replies_none(
        reqs: Seq<RequestModel>,
        replies: Seq<MessageModel>,
        id: Seq<char>,
        result: Result<OutputModel, ErrorModel>,
    )
        requires
            reqs.len() == replies.len(),
            forall|j: int| 0 <= j < reqs.len() ==> (#[trigger] reqs[j]).id != id,
        ensures
            replies_after(reqs, replies, id, result) == replies,
        decreases reqs.len(),
    {
        if reqs.len() > 0 {
            assert(reqs[0].id != id);
            Self::lemma_replies_none(reqs.skip(1), replies.skip(1), id, result);
            assert(seq![replies[0]] + replies.skip(1) =~= replies);
        }
    }

    /// Takes in the result of a tool call.
    pub fn answer(&mut self, id: &str, result: Result<ToolOutput, ErrorData>)
        requires
            old(self).wf(),
        ensures
            final(self).wf(),
            final(self).requests == old(self).requests,
            messages(final(self).replies@) == replies_after(
                requests(old(self).requests@),
                messages(old(self).replies@),
                id@,
                result_model(result),
            ),
    {
        let ghost rm = requests(self.requests@);
        let ghost before = messages(self.replies@);
        let mut i: usize = 0;
        while i < self.requests.len()
            invariant
                self.wf(),
                rm == requests(self.requests@),
                before == messages(self.replies@),
                *self == *old(self),
                i <= self.requests@.len(),
                forall|j: int| 0 <= j < i ==> (#[trigger] rm[j]).id != id@,
            decreases self.requests@.len() - i,
        {
            if str_eq(self.requests[i].id.as_str(), id) {
                proof {
                    Self::lemma_replies_at(rm, before, id@, result_model(result), i as int);
                }
                let ghost res = result_model(result);
                let mut m = self.replies[i].copy();
                let ghost had = contents(m.content@);
                let metadata = copy_json(&self.requests[i].metadata);
                let ghost meta = tree_opt(metadata);
                m.content.push(
                    MessageContent::ToolResponse(
                        ToolResponse { id: id.to_owned(), result, metadata },
                    ),
                );
                assert(contents(m.content@) =~= had.push(
                    ContentModel::ToolResponse(
                        ResponseModel { id: id@, result: res, metadata: meta },
                    ),
                ));
                let ghost mm = m@;
                self.replies.set(i, m);
                assert(messages(self.replies@) =~= before.update(i as int, mm));
                return;
            }
            i = i + 1;
        }
        proof {
            Self::lemma_replies_none(rm, before, id@, result_model(result));
        }
    }
}

/// The replies after each of the requests was answered with the same text.
pub open spec fn replies_with(
    reqs: Seq<RequestModel>,
    replies: Seq<MessageModel>,
    ids: Seq<RequestModel>,
    output: OutputModel,
) -> Seq<MessageModel>
    decreases ids.len(),
{
    if ids.len() == 0 {
        replies
    } else {
        replies_after(
            reqs,
            replies_with(reqs, replies, ids.drop_last(), output),
            ids.last().id,
            Ok(output),
        )
    }
}

impl OpenRequests {
    /// Answers each of `which` with one text: as an error where `failed`, else as a success. So
    /// are tools skipped in chat mode, and denied tools answered.
    pub fn answer_all(&mut self, which: &Vec<ToolRequest>, text: &str, failed: bool)
        requires
            old(self).wf(),
        ensures
            final(self).wf(),
            final(self).requests == old(self).requests,
            messages(final(self).replies@) == replies_with(
                requests(old(self).requests@),
                messages(old(self).replies@),
                requests(which@),
                if failed {
                    error_text(text@)
                } else {
                    success_text(text@)
                },
            ),
    {
        let ghost rm = requests(self.requests@);
        let ghost before = messages(self.replies@);
        let ghost wm = requests(which@);
        let ghost out = if failed {
            error_text(text@)
        } else {
            success_text(text@)
        };
        let mut i: usize = 0;
        while i < which.len()
            invariant
                self.wf(),
                rm == requests(self.requests@),
                self.requests == old(self).requests,
                wm == requests(which@),
                out == if failed {
                    error_text(text@)
                } else {
                    success_text(text@)
                },
                i <= which@.len(),
                messages(self.replies@) == replies_with(rm, before, wm.take(i as int), out),
            decreases which@.len() - i,
        {
            assert(wm.take(i + 1).drop_last() =~= wm.take(i as int));
            assert(wm.take(i + 1).last() == which@[i as int]@);
            let output = if failed {
                ToolOutput::error(text.to_owned())
            } else {
                ToolOutput::success(text.to_owned())
            };
            self.answer(which[i].id.as_str(), Ok(output));
            i = i + 1;
        }
        assert(wm.take(i as int) =~= wm);
    }
}

// ---------------------------------------------------------------------------
// What closing the requests adds
// ---------------------------------------------------------------------------

/// The message that repeats a request in the history: the reasoning, then the request. It is not
/// younger than its answer.
pub open spec fn request_message(
    id: Seq<char>,
    now: i64,
    thinking: Seq<ContentModel>,
    req: RequestModel,
    reply: MessageModel,
) -> MessageModel {
    MessageModel {
        id: Some(id),
        ..plain_message(
            Role::Assistant,
            if now > reply.created {
                reply.created
            } else {
                now
            },
            thinking.push(ContentModel::ToolRequest(req)),
        )
    }
}

/// What the requests add to the history, up to the first that could not be read.
pub open spec fn pairs_added(
    reqs: Seq<RequestModel>,
    replies: Seq<MessageModel>,
    ids: Seq<Seq<char>>,
    now: i64,
    thinking: Seq<ContentModel>,
) -> Seq<MessageModel>
    decreases reqs.len(),
{
    if reqs.len() == 0 {
        Seq::empty()
    } else {
        match reqs[0].tool_call {
            Ok(_) => seq![request_message(ids[0], now, thinking, reqs[0], replies[0]), replies[0]]
                + pairs_added(reqs.skip(1), replies.skip(1), ids.skip(1), now, thinking),
            Err(_) => Seq::empty(),
        }
    }
}

/// What is shown of the requests: the answers, up to the first request that could not be read,
/// and then that error.
pub open spec fn pairs_shown(
    reqs: Seq<RequestModel>,
    replies: Seq<MessageModel>,
    now: i64,
) -> Seq<MessageModel>
    decreases reqs.len(),
{
    if reqs.len() == 0 {
        Seq::empty()
    } else {
        match reqs[0].tool_call {
            Ok(_) => seq![replies[0]] + pairs_shown(reqs.skip(1), replies.skip(1), now),
            Err(e) => seq![text_message(Role::Assistant, now, e.message)],
        }
    }
}

/// Whether one of the requests could not be read.
pub open spec fn has_unreadable(reqs: Seq<RequestModel>) -> bool {
    exists|i: int| 0 <= i < reqs.len() && (#[trigger] reqs[i]).tool_call is Err
}

/// The reasoning that goes with each request of a response: its own, else that of an earlier
/// message of this turn.
pub open spec fn response_thinking(
    response: MessageModel,
    added: Seq<MessageModel>,
) -> Seq<ContentModel> {
    let direct = thinking_of(response.content);
    if direct.len() == 0 {
        earlier_thinking(added, response.role)
    } else {
        direct
    }
}

/// The messages to add, with the reasoning of the response as a message of its own.
pub open spec fn with_thinking_message(
    response: MessageModel,
    added: Seq<MessageModel>,
    id: Seq<char>,
) -> Seq<MessageModel> {
    let direct = thinking_of(response.content);
    if direct.len() == 0 {
        added
    } else {
        added.push(
            MessageModel {
                id: Some(id),
                ..plain_message(response.role, response.created, direct)
            },
        )
    }
}

proof fn lemma_pairs_step(
    reqs: Seq<RequestModel>,
    replies: Seq<MessageModel>,
    ids: Seq<Seq<char>>,
    now: i64,
    thinking: Seq<ContentModel>,
    k: int,
)
    requires
        0 <= k < reqs.len(),
        replies.len() == reqs.len(),
        ids.len() == reqs.len(),
    ensures
        reqs.skip(k)[0] == reqs[k],
        replies.skip(k)[0] == replies[k],
        ids.skip(k)[0] == ids[k],
        reqs.skip(k).skip(1) == reqs.skip(k + 1),
        replies.skip(k).skip(1) == replies.skip(k + 1),
        ids.skip(k).skip(1) == ids.skip(k + 1),
{
    assert(reqs.skip(k).skip(1) =~= reqs.skip(k + 1));
    assert(replies.skip(k).skip(1) =~= replies.skip(k + 1));
    assert(ids.skip(k).skip(1) =~= ids.skip(k + 1));
}

/// What some requests add to the history, what is shown of them, and whether one could not be
/// read.
fn close_pairs(
    open: &OpenRequests,
    thinking: &Vec<MessageContent>,
    ids: &Vec<String>,
    now: i64,
) -> (r: (Vec<Message>, Vec<Message>, bool))
    requires
        open.wf(),
        ids@.len() == open.requests@.len(),
    ensures
        messages(r.0@) == pairs_added(
            requests(open.requests@),
            messages(open.replies@),
            texts(ids@),
            now,
            contents(thinking@),
        ),
        messages(r.1@) == pairs_shown(requests(open.requests@), messages(open.replies@), now),
        r.2 == has_unreadable(requests(open.requests@)),
{
    let ghost rm = requests(open.requests@);
    let ghost pm = messages(open.replies@);
    let ghost im = texts(ids@);
    let ghost tm = contents(thinking@);
    let mut added: Vec<Message> = Vec::new();
    let mut shown: Vec<Message> = Vec::new();
    let mut i: usize = 0;
    assert(rm.skip(0) =~= rm && pm.skip(0) =~= pm && im.skip(0) =~= im);
    assert(messages(shown@) + pairs_shown(rm, pm, now) =~= pairs_shown(rm, pm, now));
    assert(messages(added@) + pairs_added(rm, pm, im, now, tm) =~= pairs_added(
        rm,
        pm,
        im,
        now,
        tm,
    ));
    while i < open.requests.len()
        invariant
            open.wf(),
            ids@.len() == open.requests@.len(),
            rm == requests(open.requests@),
            pm == messages(open.replies@),
            im == texts(ids@),
            tm == contents(thinking@),
            i <= open.requests@.len(),
            forall|j: int| 0 <= j < i ==> (#[trigger] rm[j]).tool_call is Ok,
            messages(shown@) + pairs_shown(rm.skip(i as int), pm.skip(i as int), now)
                == pairs_shown(rm, pm, now),
            messages(added@) + pairs_added(
                rm.skip(i as int),
                pm.skip(i as int),
                im.skip(i as int),
                now,
                tm,
            ) == pairs_added(rm, pm, im, now, tm),
        decreases open.requests@.len() - i,
    {
        proof {
            lemma_pairs_step(rm, pm, im, now, tm, i as int);
        }
        let ghost rest_shown = pairs_shown(rm.skip(i + 1), pm.skip(i + 1), now);
        let ghost rest_added = pairs_added(rm.skip(i + 1), pm.skip(i + 1), im.skip(i + 1), now, tm);
        let ghost ab = messages(added@);
        let ghost sb = messages(shown@);
        match &open.requests[i].tool_call {
            Err(e) => {
                let m = Message::text(Role::Assistant, now, e.message.clone());
                let ghost mm = m@;
                shown.push(m);
                assert(messages(shown@) =~= sb + seq![mm]);
                assert(rm[i as int].tool_call is Err);
                assert(ab + Seq::<MessageModel>::empty() =~= ab);
                return (added, shown, true);
            },
            Ok(_) => {
                let reply = open.replies[i].copy();
                let m = pair_request(&open.requests[i], &reply, thinking, ids[i].as_str(), now);
                let ghost mm = m@;
                added.push(m);
                shown.push(reply.copy());
                added.push(reply);
                assert(messages(added@) =~= ab + seq![mm, pm[i as int]]);
                assert(ab + (seq![mm, pm[i as int]] + rest_added) =~= (ab
                    + seq![mm, pm[i as int]]) + rest_added);
                assert(messages(shown@) =~= sb + seq![pm[i as int]]);
                assert(sb + (seq![pm[i as int]] + rest_shown) =~= (sb + seq![pm[i as int]])
                    + rest_shown);
            },
        }
        i = i + 1;
    }
    assert(messages(added@) + Seq::<MessageModel>::empty() =~= messages(added@));
    assert(messages(shown@) + Seq::<MessageModel>::empty() =~= messages(shown@));
    (added, shown, false)
}

/// What was gathered, with the final output at the end, and the final output as a message.
fn gather(added: &Vec<Message>, output: Option<String>, now: i64) -> (r: (
    Vec<Message>,
    Option<Message>,
))
    ensures
        message_opt(r.1) == match output {
            Some(o) => Some(text_message(Role::Assistant, now, o@)),
            None => None,
        },
        messages(r.0@) == match output {
            Some(o) => messages(added@).push(text_message(Role::Assistant, now, o@)),
            None => messages(added@),
        },
{
    let mut gathered = copy_messages(added);
    match output {
        Some(output) => {
            let m = Message::text(Role::Assistant, now, output);
            let ghost before = messages(gathered@);
            gathered.push(m.copy());
            assert(messages(gathered@) =~= before.push(m@));
            (gathered, Some(m))
        },
        None => (gathered, None),
    }
}

fn pair_request(
    req: &ToolRequest,
    reply: &Message,
    thinking: &Vec<MessageContent>,
    id: &str,
    now: i64,
) -> (r: Message)
    ensures
        r@ == request_message(id@, now, contents(thinking@), req@, reply@),
{
    let mut content = copy_contents(thinking);
    let ghost before = contents(content@);
    content.push(MessageContent::ToolRequest(req.copy()));
    assert(contents(content@) =~= before.push(ContentModel::ToolRequest(req@)));
    let created: i64 = if now > reply.created {
        reply.created
    } else {
        now
    };
    let mut m = Message::new(Role::Assistant, created, content);
    m.id = Some(id.to_owned());
    m
}

/// The state after a response was seen: it shows that the conversation was not too long, and may
/// show reasoning.
pub open spec fn noted(m: LoopModel, shown: MessageModel) -> LoopModel {
    LoopModel {
        compaction_attempts: 0,
        surfaced_thinking: m.surfaced_thinking || has_thinking(shown.content),
        ..m
    }
}

/// Whether a turn ended without tools, and nothing has decided yet that the reply is leaving.
pub open spec fn idles(m: LoopModel) -> bool {
    m.no_tools_called && !m.exit_chat
}

/// The final output as a message, where there is one.
pub open spec fn final_message(m: LoopModel, now: i64) -> Option<MessageModel> {
    match m.pending_final_output {
        Some(o) => Some(text_message(Role::Assistant, now, o)),
        None => None,
    }
}

/// What an iteration gathered, with the final output at the end.
pub open spec fn gathered_messages(m: LoopModel, now: i64) -> Seq<MessageModel> {
    match final_message(m, now) {
        Some(f) => m.messages_to_add.push(f),
        None => m.messages_to_add,
    }
}

/// The state after an iteration.
pub open spec fn finished(
    m: LoopModel,
    inference: Option<InferenceModel>,
    summarised: bool,
    has_pending_steers: bool,
    now: i64,
) -> LoopModel {
    LoopModel {
        conversation: m.conversation + stamped_all(gathered_messages(m, now), inference),
        messages_to_add: Seq::empty(),
        last_assistant_text: match m.pending_final_output {
            Some(o) => o,
            None => m.last_assistant_text,
        },
        pending_final_output: None,
        exit_chat: m.exit_chat && !has_pending_steers,
        tool_pair_summarization_done: m.tool_pair_summarization_done || summarised,
        ..m
    }
}

pub open spec fn message_opt(o: Option<Message>) -> Option<MessageModel> {
    match o {
        Some(m) => Some(m@),
        None => None,
    }
}

/// What follows the decision of the stop hooks. A denial keeps the turn from ending, but for one that
/// exceeds the cap.
pub open spec fn stop_answered(
    before: LoopModel,
    decision: DecisionModel,
    now: i64,
    after: LoopModel,
    r: StopVerdict,
) -> bool {
    match decision {
        DecisionModel::Allow => {
            &&& r is End
            &&& after == (LoopModel {
                stop_hook_handled_for_exit: true,
                ..before
            })
        },
        DecisionModel::Deny { reason, plugin } => {
            let blocks = (before.consecutive_stop_hook_blocks + 1) as u32;
            if blocks > before.stop_hook_block_cap {
                &&& r matches StopVerdict::Overridden { warning }
                &&& warning@ == cap_warning(now, plugin, before.stop_hook_block_cap)
                &&& after == (LoopModel {
                    consecutive_stop_hook_blocks: blocks,
                    stop_hook_handled_for_exit: true,
                    ..before
                })
            } else {
                &&& r matches StopVerdict::GoOn { context, notice }
                &&& context@ == denial_context(now, plugin, reason)
                &&& notice@ == denial_notice(now, plugin)
                &&& after == (LoopModel {
                    consecutive_stop_hook_blocks: blocks,
                    retrying_after_stop_hook_denial: true,
                    conversation: before.conversation.push(
                        denial_context(now, plugin, reason),
                    ),
                    ..before
                })
            }
        },
    }
}

/// What follows the count of a turn. A turn that a stop hook asked for is not counted.
pub open spec fn turn_counted(
    before: LoopModel,
    now: i64,
    after: LoopModel,
    r: TurnStep,
) -> bool {
    ({
        let turns = if before.retrying_after_stop_hook_denial {
            before.turns_taken
        } else {
            (before.turns_taken + 1) as u32
        };
        let counted = LoopModel {
            turns_taken: turns,
            retrying_after_stop_hook_denial: false,
            ..before
        };
        if turns > before.max_turns {
            &&& r matches TurnStep::LimitReached { message }
            &&& message@ == text_message(Role::Assistant, now, max_turns_text())
            &&& after == (LoopModel {
                last_assistant_text: max_turns_text(),
                ..counted
            })
        } else {
            r is Ask && after == counted
        }
    })
}

/// What follows an error of the provider. A conversation that is too long is compacted once; a
/// refusal ends the reply.
pub open spec fn error_taken(
    before: LoopModel,
    error: ProviderError,
    display: Seq<char>,
    now: i64,
    after: LoopModel,
    r: ErrorStep,
) -> bool {
    match error {
        ProviderError::ContextLengthExceeded(_) => {
            let attempts = (before.compaction_attempts + 1) as u32;
            &&& after == (LoopModel {
                compaction_attempts: attempts,
                ..before
            })
            &&& if attempts >= 2 {
                r matches ErrorStep::Tell { message } && message@ == still_too_long(now)
            } else {
                &&& r matches ErrorStep::Compact { notice: n, thinking }
                &&& n@ == notice(
                    now,
                    NotificationKind::InlineMessage,
                    "Context limit reached. Compacting to continue conversation..."@,
                )
                &&& thinking@ == notice(
                    now,
                    NotificationKind::ThinkingMessage,
                    "goose is compacting the conversation..."@,
                )
            }
        },
        _ => {
            &&& r matches ErrorStep::Tell { message }
            &&& message@ == error_message(error, display, now)
            &&& after == (LoopModel {
                exit_chat: before.exit_chat || error is Refusal,
                ..before
            })
        },
    }
}

/// What follows a compaction: the shorter conversation, or an error that the user is told.
pub open spec fn compaction_taken(
    before: LoopModel,
    result: Result<Vec<Message>, String>,
    now: i64,
    after: LoopModel,
    r: Option<Message>,
) -> bool {
    match result {
        Ok(v) => r is None && after == (LoopModel {
            conversation: messages(v@),
            did_recovery_compact: true,
            ..before
        }),
        Err(e) => {
            &&& r matches Some(m)
            &&& m@ == text_message(Role::Assistant, now, compaction_failed_text(e@))
            &&& after == before
        },
    }
}

/// What follows a turn in which no tool was called.
pub open spec fn idled(
    before: LoopModel,
    final_output: Option<Option<String>>,
    continuation: Seq<char>,
    has_pending_steers: bool,
    goal: Option<String>,
    grind: Option<String>,
    now: i64,
    after: LoopModel,
    r: IdleStep,
) -> bool {
    if !idles(before) {
        r is Busy && after == before
    } else {
        match final_output {
            Some(None) => {
                &&& r matches IdleStep::AskForFinalOutput { message }
                &&& message@ == text_message(Role::User, now, continuation)
                &&& after == (LoopModel {
                    messages_to_add: before.messages_to_add.push(
                        text_message(Role::User, now, continuation),
                    ),
                    ..before
                })
            },
            Some(Some(output)) => {
                &&& r is FinalOutput
                &&& after == (LoopModel {
                    pending_final_output: Some(output@),
                    exit_chat: true,
                    ..before
                })
            },
            None => if before.did_recovery_compact {
                r is AfterCompaction && after == before
            } else if has_pending_steers {
                r is Steered && after == before
            } else if goal is Some && !before.goal_check_pending {
                let g = goal->0@;
                &&& r matches IdleStep::CheckGoal { notice: n }
                &&& n@ == notice(now, NotificationKind::InlineMessage, "Goal: "@ + g)
                &&& after == (LoopModel {
                    goal_check_pending: true,
                    messages_to_add: before.messages_to_add.push(
                        text_message(Role::User, now, goal_nudge_text(g)).with_visibility(
                            false,
                            true,
                        ),
                    ),
                    ..before
                })
            } else if grind is Some {
                let g = grind->0@;
                &&& r matches IdleStep::KeepGrinding { notice: n }
                &&& n@ == notice(now, NotificationKind::InlineMessage, "Grind: "@ + g)
                &&& after == (LoopModel {
                    messages_to_add: before.messages_to_add.push(
                        text_message(Role::User, now, grind_nudge_text(g)).with_visibility(
                            false,
                            true,
                        ),
                    ),
                    ..before
                })
            } else {
                r is CheckRecipe && after == before
            },
        }
    }
}

/// What follows the checks of a recipe.
pub open spec fn recipe_checked(
    before: LoopModel,
    result: Result<Option<Vec<Message>>, String>,
    now: i64,
    after: LoopModel,
    r: Option<Message>,
) -> bool {
    match result {
        Ok(Some(v)) => r is None && after == (LoopModel {
            conversation: messages(v@),
            messages_to_add: Seq::empty(),
            ..before
        }),
        Ok(None) => r is None && after == (LoopModel {
            exit_chat: true,
            ..before
        }),
        Err(e) => {
            &&& r matches Some(m)
            &&& m@ == text_message(
                Role::Assistant,
                now,
                "Retry logic encountered an error: "@ + e@,
            )
            &&& after == (LoopModel { exit_chat: true, ..before })
        },
    }
}

/// The state after the output of the final output tool was taken as the answer.
pub open spec fn output_taken(m: LoopModel, output: Seq<char>, now: i64) -> LoopModel {
    LoopModel {
        last_assistant_text: output,
        conversation: m.conversation.push(text_message(Role::Assistant, now, output)),
        ..m
    }
}

/// The state when the stream of an answer begins.
pub open spec fn stream_begun(m: LoopModel) -> LoopModel {
    LoopModel {
        last_assistant_text: Seq::empty(),
        no_tools_called: true,
        messages_to_add: Seq::empty(),
        tools_updated: false,
        did_recovery_compact: false,
        exit_chat: false,
        pending_final_output: None,
        surfaced_thinking: false,
        ..m
    }
}

/// The state after a response; one without requests is done with.
pub open spec fn responded(
    m: LoopModel,
    shown: MessageModel,
    response: MessageModel,
    requests: usize,
    text: Seq<char>,
) -> LoopModel {
    if requests > 0 {
        noted(m, shown)
    } else {
        LoopModel {
            last_assistant_text: m.last_assistant_text + text,
            messages_to_add: m.messages_to_add.push(response),
            ..noted(m, shown)
        }
    }
}

/// The state after the requests of a response were closed.
pub open spec fn requests_closed(
    m: LoopModel,
    response: MessageModel,
    reqs: Seq<RequestModel>,
    replies: Seq<MessageModel>,
    thinking_id: Seq<char>,
    ids: Seq<Seq<char>>,
    now: i64,
) -> LoopModel {
    let added = with_thinking_message(response, m.messages_to_add, thinking_id);
    LoopModel {
        messages_to_add: added + pairs_added(
            reqs,
            replies,
            ids,
            now,
            response_thinking(response, added),
        ),
        exit_chat: m.exit_chat || has_unreadable(reqs),
        no_tools_called: false,
        goal_check_pending: false,
        ..m
    }
}

impl ReplyLoop {
    pub open spec fn view(&self) -> LoopModel {
        LoopModel {
            max_turns: self.max_turns,
            stop_hook_block_cap: self.stop_hook_block_cap,
            turns_taken: self.turns_taken,
            compaction_attempts: self.compaction_attempts,
            last_assistant_text: self.last_assistant_text@,
            goal_check_pending: self.goal_check_pending,
            tool_pair_summarization_done: self.tool_pair_summarization_done,
            stop_hook_handled_for_exit: self.stop_hook_handled_for_exit,
            retrying_after_stop_hook_denial: self.retrying_after_stop_hook_denial,
            consecutive_stop_hook_blocks: self.consecutive_stop_hook_blocks,
            can_drain_pending_steers: self.can_drain_pending_steers,
            conversation: messages(self.conversation@),
            no_tools_called: self.no_tools_called,
            messages_to_add: messages(self.messages_to_add@),
            tools_updated: self.tools_updated,
            did_recovery_compact: self.did_recovery_compact,
            exit_chat: self.exit_chat,
            pending_final_output: text_opt(self.pending_final_output),
            surfaced_thinking: self.surfaced_thinking,
        }
    }

    /// A reply that begins with the conversation.
    pub fn new(max_turns: u32, stop_hook_block_cap: u32, conversation: Vec<Message>) -> (r: Self)
        ensures
            r@ == (LoopModel {
                max_turns,
                stop_hook_block_cap,
                turns_taken: 0,
                compaction_attempts: 0,
                last_assistant_text: Seq::empty(),
                goal_check_pending: false,
                tool_pair_summarization_done: false,
                stop_hook_handled_for_exit: false,
                retrying_after_stop_hook_denial: false,
                consecutive_stop_hook_blocks: 0,
                can_drain_pending_steers: false,
                conversation: messages(conversation@),
                no_tools_called: true,
                messages_to_add: Seq::empty(),
                tools_updated: false,
                did_recovery_compact: false,
                exit_chat: false,
                pending_final_output: None,
                surfaced_thinking: false,
            }),
    {
        let r = ReplyLoop {
            max_turns,
            stop_hook_block_cap,
            turns_taken: 0,
            compaction_attempts: 0,
            last_assistant_text: String::new(),
            goal_check_pending: false,
            tool_pair_summarization_done: false,
            stop_hook_handled_for_exit: false,
            retrying_after_stop_hook_denial: false,
            consecutive_stop_hook_blocks: 0,
            can_drain_pending_steers: false,
            conversation,
            no_tools_called: true,
            messages_to_add: Vec::new(),
            tools_updated: false,
            did_recovery_compact: false,
            exit_chat: false,
            pending_final_output: None,
            surfaced_thinking: false,
        };
        assert(messages(r.messages_to_add@) =~= Seq::empty());
        r
    }

    /// How an iteration begins.
    pub fn begin(&self, cancelled: bool) -> (r: Begin)
        ensures
            r == if cancelled {
                Begin::Stop
            } else if self.can_drain_pending_steers {
                Begin::DrainSteers
            } else {
                Begin::CheckFinalOutput
            },
    {
        if cancelled {
            Begin::Stop
        } else if self.can_drain_pending_steers {
            Begin::DrainSteers
        } else {
            Begin::CheckFinalOutput
        }
    }

    /// Takes a message into the conversation.
    pub fn take_message(&mut self, message: Message)
        ensures
            final(self)@ == (LoopModel {
                conversation: old(self)@.conversation.push(message@),
                ..old(self)@
            }),
    {
        let ghost before = messages(self.conversation@);
        let ghost m = message@;
        self.conversation.push(message);
        assert(messages(self.conversation@) =~= before.push(m));
    }

    /// Takes some messages into the conversation, in their order.
    pub fn take_messages(&mut self, v: Vec<Message>)
        ensures
            final(self)@ == (LoopModel {
                conversation: old(self)@.conversation + messages(v@),
                ..old(self)@
            }),
    {
        let mut more = v;
        let ghost had = self.conversation@;
        self.conversation.append(&mut more);
        assert(messages(self.conversation@) =~= messages(had) + messages(v@));
    }

    /// Takes the output of the final output tool: it is the answer, and the stop hooks are to be
    /// asked with it.
    pub fn take_final_output(&mut self, output: String, now: i64) -> (r: Message)
        ensures
            r@ == text_message(Role::Assistant, now, output@),
            final(self)@ == output_taken(old(self)@, output@, now),
    {
        self.last_assistant_text = output.clone();
        let message = Message::text(Role::Assistant, now, output);
        self.take_message(message.copy());
        message
    }

    /// Takes in what the stop hooks decided. A denial keeps the turn from ending, but for one that
    /// exceeds the cap.
    pub fn on_stop_hook(&mut self, decision: HookDecision, now: i64) -> (r: StopVerdict)
        requires
            old(self)@.consecutive_stop_hook_blocks < u32::MAX,
        ensures
            stop_answered(old(self)@, decision@, now, final(self)@, r),
    {
        match decision {
            HookDecision::Allow => {
                self.stop_hook_handled_for_exit = true;
                StopVerdict::End
            },
            HookDecision::Deny { reason, plugin } => {
                self.consecutive_stop_hook_blocks = self.consecutive_stop_hook_blocks + 1;
                if self.consecutive_stop_hook_blocks > self.stop_hook_block_cap {
                    let warning = stop_hook_block_cap_warning(
                        now,
                        plugin.as_str(),
                        self.stop_hook_block_cap,
                    );
                    self.stop_hook_handled_for_exit = true;
                    return StopVerdict::Overridden { warning };
                }
                let context = stop_hook_denial_context_message(
                    now,
                    plugin.as_str(),
                    reason.as_str(),
                );
                self.take_message(context.copy());
                self.retrying_after_stop_hook_denial = true;
                StopVerdict::GoOn {
                    context,
                    notice: stop_hook_denial_notification(now, plugin.as_str()),
                }
            },
        }
    }

    /// Counts a turn. A turn that a stop hook asked for is not counted.
    pub fn count_turn(&mut self, now: i64) -> (r: TurnStep)
        requires
            !old(self)@.retrying_after_stop_hook_denial ==> old(self)@.turns_taken < u32::MAX,
        ensures
            turn_counted(old(self)@, now, final(self)@, r),
    {
        if self.retrying_after_stop_hook_denial {
            self.retrying_after_stop_hook_denial = false;
        } else {
            self.turns_taken = self.turns_taken + 1;
        }
        if self.turns_taken > self.max_turns {
            let text =
                "I've reached the maximum number of actions I can do without user input. Would you like me to continue?".to_owned();
            self.last_assistant_text = text.clone();
            return TurnStep::LimitReached { message: Message::text(Role::Assistant, now, text) };
        }
        TurnStep::Ask
    }

    /// The stream of the provider's answer begins. Says whether pairs of old tool calls may be
    /// summarised meanwhile: once in a reply.
    pub fn begin_stream(&mut self) -> (r: bool)
        ensures
            r == !old(self)@.tool_pair_summarization_done,
            final(self)@ == stream_begun(old(self)@),
    {
        self.last_assistant_text = String::new();
        self.no_tools_called = true;
        self.messages_to_add = Vec::new();
        self.tools_updated = false;
        self.did_recovery_compact = false;
        self.exit_chat = false;
        self.pending_final_output = None;
        self.surfaced_thinking = false;
        assert(messages(self.messages_to_add@) =~= Seq::empty());
        !self.tool_pair_summarization_done
    }

    /// Whether the stream is left before its next item is looked at.
    pub fn leaves_stream(&self, cancelled: bool) -> (r: bool)
        ensures
            r == (cancelled || self@.exit_chat),
    {
        cancelled || self.exit_chat
    }

    /// Takes in a response of the provider: `shown` is what the user sees of it, `text` the text
    /// of that, and `requests` how many tools it asks for. Says whether tools are to run; a
    /// response without requests is done with.
    pub fn on_response(
        &mut self,
        shown: &Message,
        response: &Message,
        requests: usize,
        text: &str,
    ) -> (r: bool)
        ensures
            r == (requests > 0),
            final(self)@ == responded(old(self)@, shown@, response@, requests, text@),
    {
        self.note(shown);
        if requests > 0 {
            return true;
        }
        self.keep(response, text);
        false
    }

    fn note(&mut self, shown: &Message)
        ensures
            final(self)@ == noted(old(self)@, shown@),
    {
        let thinking = any_thinking(&shown.content);
        self.compaction_attempts = 0;
        self.surfaced_thinking = self.surfaced_thinking || thinking;
    }

    fn keep(&mut self, response: &Message, text: &str)
        ensures
            final(self)@ == (LoopModel {
                last_assistant_text: old(self)@.last_assistant_text + text@,
                messages_to_add: old(self)@.messages_to_add.push(response@),
                ..old(self)@
            }),
    {
        let ghost before = messages(self.messages_to_add@);
        let all_text = cat(self.last_assistant_text.as_str(), text);
        self.last_assistant_text = all_text;
        let m = response.copy();
        self.messages_to_add.push(m);
        assert(messages(self.messages_to_add@) =~= before.push(response@));
    }

    /// Takes in an item of the stream that holds no response.
    pub fn on_empty_item(&mut self)
        ensures
            final(self)@ == (LoopModel { compaction_attempts: 0, ..old(self)@ }),
    {
        self.compaction_attempts = 0;
    }

    /// Takes in that extensions were installed while tools ran: the tools are to be listed anew,
    /// unless an installation failed.
    pub fn on_installs(&mut self, requested: usize, all_successful: bool) -> (r: bool)
        ensures
            r == (requested > 0 && all_successful),
            final(self)@ == (LoopModel {
                tools_updated: old(self)@.tools_updated || r,
                ..old(self)@
            }),
    {
        let updated = requested > 0 && all_successful;
        if updated {
            self.tools_updated = true;
        }
        updated
    }

    /// Closes the requests of a response: each goes into the history with its answer, up to the
    /// first that could not be read, which ends the reply. `ids` are fresh ids for the messages.
    /// Returns what the user is shown.
    #[verifier::rlimit(30)]
    pub fn close_requests(
        &mut self,
        response: &Message,
        open: OpenRequests,
        thinking_id: String,
        ids: &Vec<String>,
        now: i64,
    ) -> (r: Vec<Message>)
        requires
            open.wf(),
            ids@.len() == open.requests@.len(),
        ensures
            messages(r@) == pairs_shown(requests(open.requests@), messages(open.replies@), now),
            final(self)@ == requests_closed(
                old(self)@,
                response@,
                requests(open.requests@),
                messages(open.replies@),
                thinking_id@,
                texts(ids@),
                now,
            ),
    {
        let direct = select_thinking(&response.content);
        assert(contents(direct@).len() == direct@.len());
        let ghost start = messages(self.messages_to_add@);
        if direct.len() > 0 {
            let mut m = Message::new(response.role, response.created, copy_contents(&direct));
            m.id = Some(thinking_id);
            let ghost mm = m@;
            self.messages_to_add.push(m);
            assert(messages(self.messages_to_add@) =~= start.push(mm));
        }
        let ghost added = messages(self.messages_to_add@);
        assert(added == with_thinking_message(response@, start, thinking_id@));
        let thinking = if direct.len() == 0 {
            find_earlier_thinking(&self.messages_to_add, response.role)
        } else {
            direct
        };
        assert(contents(thinking@) == response_thinking(response@, added));
        let (mut pairs, shown, unreadable) = close_pairs(&open, &thinking, ids, now);
        let ghost had = self.messages_to_add@;
        let ghost more = pairs@;
        self.messages_to_add.append(&mut pairs);
        assert(messages(self.messages_to_add@) =~= messages(had) + messages(more));
        if unreadable {
            self.exit_chat = true;
        }
        self.no_tools_called = false;
        self.goal_check_pending = false;
        proof {
            let closed = requests_closed(
                old(self)@,
                response@,
                requests(open.requests@),
                messages(open.replies@),
                thinking_id@,
                texts(ids@),
                now,
            );
            assert(closed.messages_to_add == messages(self.messages_to_add@));
        }
        shown
    }

    /// Takes in an error of the provider. A conversation that is too long is compacted once; a
    /// refusal ends the reply.
    pub fn on_provider_error(&mut self, error: &ProviderError, display: &str, now: i64) -> (r:
        ErrorStep)
        requires
            old(self)@.compaction_attempts < u32::MAX,
        ensures
            error_taken(old(self)@, *error, display@, now, final(self)@, r),
    {
        match error {
            ProviderError::ContextLengthExceeded(_) => {
                self.compaction_attempts = self.compaction_attempts + 1;
                if self.compaction_attempts >= 2 {
                    return ErrorStep::Tell {
                        message: Message::notification(
                            now,
                            NotificationKind::InlineMessage,
                            "Unable to continue: Context limit still exceeded after compaction. Try using a shorter message, a model with a larger context window, or start a new session.".to_owned(),
                        ),
                    };
                }
                ErrorStep::Compact {
                    notice: Message::notification(
                        now,
                        NotificationKind::InlineMessage,
                        "Context limit reached. Compacting to continue conversation...".to_owned(),
                    ),
                    thinking: Message::notification(
                        now,
                        NotificationKind::ThinkingMessage,
                        "goose is compacting the conversation...".to_owned(),
                    ),
                }
            },
            ProviderError::CreditsExhausted { details: _, top_up_url } => {
                let text = if top_up_url.is_some() {
                    "Please add credits to your account, then resend your message to continue."
                } else {
                    "Please check your account with your provider to add more credits, then resend your message to continue."
                };
                let url = match top_up_url {
                    Some(u) => Json::Str(u.clone()),
                    None => Json::Null,
                };
                let ghost um = url@;
                let data = vec![Member { key: "top_up_url".to_owned(), value: url }];
                assert(members(data@) =~= seq![("top_up_url"@, um)]);
                let content = vec![
                    MessageContent::SystemNotification {
                        kind: NotificationKind::CreditsExhausted,
                        text: text.to_owned(),
                        data: Some(Json::Object(data)),
                    },
                ];
                assert(contents(content@) =~= credits_message(now, text_opt(*top_up_url)).content);
                ErrorStep::Tell { message: Message::new(Role::Assistant, now, content) }
            },
            ProviderError::Refusal { details, category } => {
                let mut text = cat("The provider refused this request.\n\n", details.as_str());
                match category {
                    Some(c) => {
                        let line = cat("\n\nCategory: ", c.as_str());
                        text.append(line.as_str());
                    },
                    None => {
                        assert(text@ + Seq::<char>::empty() =~= text@);
                    },
                }
                text.append(
                    "\n\nPlease start a new session to continue — resending this conversation is likely to be refused again.",
                );
                self.exit_chat = true;
                ErrorStep::Tell { message: Message::text(Role::Assistant, now, text) }
            },
            ProviderError::NetworkError(_) => {
                let text = cat(display, "\n\nPlease resend your message to try again.");
                ErrorStep::Tell { message: Message::text(Role::Assistant, now, text) }
            },
            _ => {
                let text = cat3(
                    "Ran into this error: ",
                    display,
                    ".\n\nPlease retry if you think this is a transient or recoverable error.",
                );
                ErrorStep::Tell { message: Message::text(Role::Assistant, now, text) }
            },
        }
    }

    /// Takes in how a compaction ended: with the shorter conversation, or with an error that the
    /// user is told.
    pub fn on_compaction(&mut self, result: Result<Vec<Message>, String>, now: i64) -> (r: Option<
        Message,
    >)
        ensures
            compaction_taken(old(self)@, result, now, final(self)@, r),
    {
        match result {
            Ok(v) => {
                self.conversation = v;
                self.did_recovery_compact = true;
                None
            },
            Err(e) => Some(
                Message::text(
                    Role::Assistant,
                    now,
                    cat3(
                        "Ran into this error trying to compact: ",
                        e.as_str(),
                        ".\n\nPlease try again or create a new session",
                    ),
                ),
            ),
        }
    }

    /// The stream has ended: from now on steering messages are taken. Says whether the tools and
    /// the prompt are to be prepared anew for new hints: not where they just were for new tools.
    pub fn end_stream(&mut self, has_new_hints: bool) -> (r: bool)
        ensures
            r == (has_new_hints && !old(self)@.tools_updated),
            final(self)@ == (LoopModel { can_drain_pending_steers: true, ..old(self)@ }),
    {
        self.can_drain_pending_steers = true;
        has_new_hints && !self.tools_updated
    }

    /// Decides what follows a turn in which no tool was called. `final_output` is nothing where
    /// there is no final output tool, and else what it was given.
    pub fn on_idle(
        &mut self,
        final_output: Option<Option<String>>,
        continuation: &str,
        has_pending_steers: bool,
        goal: &Option<String>,
        grind: &Option<String>,
        now: i64,
    ) -> (r: IdleStep)
        ensures
            idled(
                old(self)@,
                final_output,
                continuation@,
                has_pending_steers,
                *goal,
                *grind,
                now,
                final(self)@,
                r,
            ),
    {
        if !self.no_tools_called || self.exit_chat {
            return IdleStep::Busy;
        }
        match final_output {
            Some(None) => {
                let message = Message::text(Role::User, now, continuation.to_owned());
                let ghost before = messages(self.messages_to_add@);
                self.messages_to_add.push(message.copy());
                assert(messages(self.messages_to_add@) =~= before.push(message@));
                IdleStep::AskForFinalOutput { message }
            },
            Some(Some(output)) => {
                self.pending_final_output = Some(output);
                self.exit_chat = true;
                IdleStep::FinalOutput
            },
            None => {
                if self.did_recovery_compact {
                    return IdleStep::AfterCompaction;
                }
                if has_pending_steers {
                    return IdleStep::Steered;
                }
                if let Some(g) = goal {
                    if !self.goal_check_pending {
                        self.goal_check_pending = true;
                        let nudge = cat3(
                            "Before finishing, check whether the following goal has been fully met:\n\n**Goal:** ",
                            g.as_str(),
                            "\n\nIf not, continue working toward it.",
                        );
                        let message = Message::text(Role::User, now, nudge).with_visibility(
                            false,
                            true,
                        );
                        let ghost before = messages(self.messages_to_add@);
                        let ghost mm = message@;
                        self.messages_to_add.push(message);
                        assert(messages(self.messages_to_add@) =~= before.push(mm));
                        return IdleStep::CheckGoal {
                            notice: Message::notification(
                                now,
                                NotificationKind::InlineMessage,
                                cat("Goal: ", g.as_str()),
                            ),
                        };
                    }
                }
                if let Some(g) = grind {
                    let nudge = cat3(
                        "Keep working. The grind goal is not yet complete:\n\n**Goal:** ",
                        g.as_str(),
                        "\n\nContinue until it is fully done.",
                    );
                    let message = Message::text(Role::User, now, nudge).with_visibility(
                        false,
                        true,
                    );
                    let ghost before = messages(self.messages_to_add@);
                    let ghost mm = message@;
                    self.messages_to_add.push(message);
                    assert(messages(self.messages_to_add@) =~= before.push(mm));
                    return IdleStep::KeepGrinding {
                        notice: Message::notification(
                            now,
                            NotificationKind::InlineMessage,
                            cat("Grind: ", g.as_str()),
                        ),
                    };
                }
                IdleStep::CheckRecipe
            },
        }
    }

    /// Takes in what the recipe's checks came to: the conversation to start over with, or that
    /// the reply is leaving, with an error that the user is told where there was one.
    pub fn on_recipe_check(&mut self, result: Result<Option<Vec<Message>>, String>, now: i64) -> (r:
        Option<Message>)
        ensures
            recipe_checked(old(self)@, result, now, final(self)@, r),
    {
        match result {
            Ok(Some(v)) => {
                self.conversation = v;
                self.messages_to_add = Vec::new();
                assert(messages(self.messages_to_add@) =~= Seq::empty());
                None
            },
            Ok(None) => {
                self.exit_chat = true;
                None
            },
            Err(e) => {
                self.exit_chat = true;
                Some(
                    Message::text(
                        Role::Assistant,
                        now,
                        cat("Retry logic encountered an error: ", e.as_str()),
                    ),
                )
            },
        }
    }

    /// Ends an iteration: what was gathered goes into the conversation and into storage. A
    /// steering message that waits keeps the reply from leaving.
    pub fn finish(
        &mut self,
        inference: &Option<Inference>,
        summarised: bool,
        has_pending_steers: bool,
        now: i64,
    ) -> (r: Finish)
        ensures
            messages(r.store@) == stamped_all(
                gathered_messages(old(self)@, now),
                inference_opt(*inference),
            ),
            message_opt(r.show) == final_message(old(self)@, now),
            r.ask_stop_hook == (old(self)@.exit_chat && !has_pending_steers),
            final(self)@ == finished(
                old(self)@,
                inference_opt(*inference),
                summarised,
                has_pending_steers,
                now,
            ),
    {
        let (gathered, show) = gather(
            &self.messages_to_add,
            copy_text(&self.pending_final_output),
            now,
        );
        let store = stamp_all(&gathered, inference);
        let mut more = copy_messages(&store);
        let ghost had = self.conversation@;
        let ghost added = more@;
        self.conversation.append(&mut more);
        assert(messages(self.conversation@) =~= messages(had) + messages(added));
        if let Some(output) = &self.pending_final_output {
            self.last_assistant_text = output.clone();
        }
        self.pending_final_output = None;
        self.messages_to_add = Vec::new();
        assert(messages(self.messages_to_add@) =~= Seq::empty());
        if summarised {
            self.tool_pair_summarization_done = true;
        }
        self.exit_chat = self.exit_chat && !has_pending_steers;
        Finish { store, show, ask_stop_hook: self.exit_chat }
    }

    /// Whether the stop hooks are still to be told, now that the loop was left.
    pub fn tells_stop_hook(&self) -> (r: bool)
        ensures
            r == !self@.stop_hook_handled_for_exit,
    {
        !self.stop_hook_handled_for_exit
    }
}

// ---------------------------------------------------------------------------
// Pairs of tool calls
// ---------------------------------------------------------------------------

/// Whether a message asks for, or answers, the tool call with the id.
pub open spec fn mentions_call(m: MessageModel, id: Seq<char>) -> bool {
    exists|i: int|
        0 <= i < m.content.len() && match #[trigger] m.content[i] {
            ContentModel::ToolRequest(r) => r.id == id,
            ContentModel::ToolResponse(r) => r.id == id,
            _ => false,
        }
}

/// The ids of the messages that ask for, or answer, a tool call.
pub open spec fn call_messages(all: Seq<MessageModel>, id: Seq<char>) -> Seq<Seq<char>>
    decreases all.len(),
{
    if all.len() == 0 {
        Seq::empty()
    } else {
        let head = call_messages(all.drop_last(), id);
        match all.last().id {
            Some(m) => if mentions_call(all.last(), id) {
                head.push(m)
            } else {
                head
            },
            None => head,
        }
    }
}

fn message_mentions(m: &Message, id: &str) -> (r: bool)
    ensures
        r == mentions_call(m@, id@),
{
    let ghost cm = contents(m.content@);
    let mut i: usize = 0;
    while i < m.content.len()
        invariant
            cm == contents(m.content@),
            i <= m.content@.len(),
            forall|j: int|
                0 <= j < i ==> !(match #[trigger] cm[j] {
                    ContentModel::ToolRequest(r) => r.id == id@,
                    ContentModel::ToolResponse(r) => r.id == id@,
                    _ => false,
                }),
        decreases m.content@.len() - i,
    {
        assert(cm[i as int] == m.content@[i as int]@);
        let hit = match &m.content[i] {
            MessageContent::ToolRequest(r) => str_eq(r.id.as_str(), id),
            MessageContent::ToolResponse(r) => str_eq(r.id.as_str(), id),
            _ => false,
        };
        if hit {
            return true;
        }
        i = i + 1;
    }
    false
}

/// The two messages of a tool call that a summary replaces; nothing where there are not exactly
/// two.
pub fn summarised_pair(all: &Vec<Message>, id: &str) -> (r: Option<(String, String)>)
    ensures
        ({
            let found = call_messages(messages(all@), id@);
            match r {
                Some(p) => found == seq![p.0@, p.1@],
                None => found.len() != 2,
            }
        }),
{
    let ghost am = messages(all@);
    let mut found: Vec<String> = Vec::new();
    let mut i: usize = 0;
    assert(texts(found@) =~= call_messages(am.take(0), id@));
    while i < all.len()
        invariant
            am == messages(all@),
            i <= all@.len(),
            texts(found@) == call_messages(am.take(i as int), id@),
        decreases all@.len() - i,
    {
        assert(am.take(i + 1).drop_last() =~= am.take(i as int));
        assert(am.take(i + 1).last() == all@[i as int]@);
        if let Some(m) = &all[i].id {
            if message_mentions(&all[i], id) {
                let ghost before = texts(found@);
                found.push(m.clone());
                assert(texts(found@) =~= before.push(m@));
            }
        }
        i = i + 1;
    }
    assert(am.take(i as int) =~= am);
    assert(texts(found@).len() == found@.len());
    if found.len() == 2 {
        let a = found[0].clone();
        let b = found[1].clone();
        assert(texts(found@) =~= seq![a@, b@]);
        Some((a, b))
    } else {
        None
    }
}

/// Every request that is closed without an error before it is answered in the history: what is
/// added is one message with the request and one with its answer, in order.
pub proof fn law_requests_are_answered(
    reqs: Seq<RequestModel>,
    replies: Seq<MessageModel>,
    ids: Seq<Seq<char>>,
    now: i64,
    thinking: Seq<ContentModel>,
    k: int,
)
    requires
        reqs.len() == replies.len(),
        ids.len() == reqs.len(),
        0 <= k < reqs.len(),
        forall|j: int| 0 <= j <= k ==> (#[trigger] reqs[j]).tool_call is Ok,
    ensures
        pairs_added(reqs, replies, ids, now, thinking).len() > 2 * k + 1,
        pairs_added(reqs, replies, ids, now, thinking)[2 * k].role == Role::Assistant,
        pairs_added(reqs, replies, ids, now, thinking)[2 * k].content == thinking.push(
            ContentModel::ToolRequest(reqs[k]),
        ),
        pairs_added(reqs, replies, ids, now, thinking)[2 * k].content.last()
            == ContentModel::ToolRequest(reqs[k]),
        pairs_added(reqs, replies, ids, now, thinking)[2 * k + 1] == replies[k],
        pairs_added(reqs, replies, ids, now, thinking)[2 * k].created <= replies[k].created,
    decreases k,
{
    assert(reqs[0].tool_call is Ok);
    let rest = pairs_added(reqs.skip(1), replies.skip(1), ids.skip(1), now, thinking);
    let all = pairs_added(reqs, replies, ids, now, thinking);
    if k > 0 {
        assert forall|j: int| 0 <= j <= k - 1 implies (#[trigger] reqs.skip(1)[j]).tool_call is Ok by {
            assert(reqs.skip(1)[j] == reqs[j + 1]);
        }
        law_requests_are_answered(reqs.skip(1), replies.skip(1), ids.skip(1), now, thinking, k - 1);
        assert(all[2 * k] == rest[2 * (k - 1)]);
        assert(all[2 * k + 1] == rest[2 * (k - 1) + 1]);
        assert(reqs.skip(1)[k - 1] == reqs[k]);
        assert(replies.skip(1)[k - 1] == replies[k]);
    }
}

/// The answers to requests that could all be read are shown, each once and in order.
pub proof fn law_readable_answers_are_shown(
    reqs: Seq<RequestModel>,
    replies: Seq<MessageModel>,
    now: i64,
)
    requires
        reqs.len() == replies.len(),
        forall|j: int| 0 <= j < reqs.len() ==> (#[trigger] reqs[j]).tool_call is Ok,
    ensures
        pairs_shown(reqs, replies, now) == replies,
    decreases reqs.len(),
{
    if reqs.len() > 0 {
        assert(reqs[0].tool_call is Ok);
        assert forall|j: int| 0 <= j < reqs.skip(1).len() implies (
        #[trigger] reqs.skip(1)[j]).tool_call is Ok by {
            assert(reqs.skip(1)[j] == reqs[j + 1]);
        }
        law_readable_answers_are_shown(reqs.skip(1), replies.skip(1), now);
        assert(seq![replies[0]] + replies.skip(1) =~= replies);
    } else {
        assert(replies =~= Seq::empty());
    }
}

/// The first request that could not be read ends what is added and what is shown: the answers
/// before it are shown, then its error as the assistant's words, and of it and what follows nothing
/// enters the history.
pub proof fn law_unreadable_requests_end_the_response(
    reqs: Seq<RequestModel>,
    replies: Seq<MessageModel>,
    ids: Seq<Seq<char>>,
    now: i64,
    thinking: Seq<ContentModel>,
    k: int,
)
    requires
        reqs.len() == replies.len(),
        ids.len() == reqs.len(),
        0 <= k < reqs.len(),
        forall|j: int| 0 <= j < k ==> (#[trigger] reqs[j]).tool_call is Ok,
        reqs[k].tool_call is Err,
    ensures
        pairs_added(reqs, replies, ids, now, thinking).len() == 2 * k,
        pairs_shown(reqs, replies, now).len() == k + 1,
        pairs_shown(reqs, replies, now).take(k) == replies.take(k),
        pairs_shown(reqs, replies, now)[k].role == Role::Assistant,
        pairs_shown(reqs, replies, now)[k].content == seq![
            crate::conversation::text_content(reqs[k].tool_call->Err_0.message),
        ],
    decreases k,
{
    if k > 0 {
        assert(reqs[0].tool_call is Ok);
        assert forall|j: int| 0 <= j < k - 1 implies (#[trigger] reqs.skip(1)[j]).tool_call is Ok by {
            assert(reqs.skip(1)[j] == reqs[j + 1]);
        }
        assert(reqs.skip(1)[k - 1] == reqs[k]);
        law_unreadable_requests_end_the_response(
            reqs.skip(1),
            replies.skip(1),
            ids.skip(1),
            now,
            thinking,
            k - 1,
        );
        let rest = pairs_shown(reqs.skip(1), replies.skip(1), now);
        let all = pairs_shown(reqs, replies, now);
        assert(all =~= seq![replies[0]] + rest);
        assert(all[k] == rest[k - 1]);
        assert forall|i: int| 0 <= i < k implies all.take(k)[i] == replies.take(k)[i] by {
            if i > 0 {
                assert(all[i] == rest[i - 1]);
                assert(rest.take(k - 1)[i - 1] == replies.skip(1).take(k - 1)[i - 1]);
            }
        }
        assert(all.take(k) =~= replies.take(k));
    } else {
        assert(pairs_shown(reqs, replies, now).take(0) =~= replies.take(0));
    }
}

/// An answer goes to the first request with its id and to no other: its reply gains the response at
/// its end, with the metadata of the request, and every other reply stays as it was.
pub proof fn law_answers_go_to_their_request(
    reqs: Seq<RequestModel>,
    replies: Seq<MessageModel>,
    id: Seq<char>,
    result: Result<OutputModel, ErrorModel>,
    k: int,
)
    requires
        reqs.len() == replies.len(),
        0 <= k < reqs.len(),
        reqs[k].id == id,
        forall|j: int| 0 <= j < k ==> (#[trigger] reqs[j]).id != id,
    ensures
        ({
            let after = replies_after(reqs, replies, id, result);
            &&& after.len() == replies.len()
            &&& forall|j: int| 0 <= j < after.len() && j != k ==> #[trigger] after[j] == replies[j]
            &&& after[k].content == replies[k].content.push(
                ContentModel::ToolResponse(
                    ResponseModel { id, result, metadata: reqs[k].metadata },
                ),
            )
            &&& after[k].role == replies[k].role
            &&& after[k].id == replies[k].id
            &&& after[k].created == replies[k].created
        }),
    decreases k,
{
    let after = replies_after(reqs, replies, id, result);
    if k > 0 {
        assert(reqs[0].id != id);
        assert forall|j: int| 0 <= j < k - 1 implies (#[trigger] reqs.skip(1)[j]).id != id by {
            assert(reqs.skip(1)[j] == reqs[j + 1]);
        }
        assert(reqs.skip(1)[k - 1] == reqs[k]);
        law_answers_go_to_their_request(reqs.skip(1), replies.skip(1), id, result, k - 1);
        let rest = replies_after(reqs.skip(1), replies.skip(1), id, result);
        assert(after =~= seq![replies[0]] + rest);
        assert forall|j: int| 0 <= j < after.len() && j != k implies #[trigger] after[j]
            == replies[j] by {
            if j > 0 {
                assert(after[j] == rest[j - 1]);
                assert(replies.skip(1)[j - 1] == replies[j]);
            }
        }
        assert(after[k] == rest[k - 1]);
    } else {
        assert forall|j: int| 0 <= j < after.len() && j != k implies #[trigger] after[j]
            == replies[j] by {
            assert(after[j] == replies.skip(1)[j - 1]);
        }
    }
}

/// An answer to no open request is dropped.
pub proof fn law_stray_answers_are_dropped(
    reqs: Seq<RequestModel>,
    replies: Seq<MessageModel>,
    id: Seq<char>,
    result: Result<OutputModel, ErrorModel>,
)
    requires
        reqs.len() == replies.len(),
        forall|j: int| 0 <= j < reqs.len() ==> (#[trigger] reqs[j]).id != id,
    ensures
        replies_after(reqs, replies, id, result) == replies,
    decreases reqs.len(),
{
    if reqs.len() > 0 {
        assert(reqs[0].id != id);
        assert forall|j: int| 0 <= j < reqs.skip(1).len() implies (#[trigger] reqs.skip(1)[j]).id
            != id by {
            assert(reqs.skip(1)[j] == reqs[j + 1]);
        }
        law_stray_answers_are_dropped(reqs.skip(1), replies.skip(1), id, result);
        assert(seq![replies[0]] + replies.skip(1) =~= replies);
    }
}

/// The reasoning among some contents is exactly those parts that are reasoning, and a response's
/// own reasoning comes before any that was seen earlier.
pub proof fn law_own_reasoning_goes_with_the_requests(
    response: MessageModel,
    added: Seq<MessageModel>,
    i: int,
)
    requires
        0 <= i < response.content.len(),
        response.content[i].thinking(),
    ensures
        thinking_of(response.content).contains(response.content[i]),
        response_thinking(response, added) == thinking_of(response.content),
        forall|j: int|
            0 <= j < thinking_of(response.content).len() ==> (
            #[trigger] thinking_of(response.content)[j]).thinking(),
{
    lemma_thinking_of(response.content, i);
}

proof fn lemma_thinking_of(content: Seq<ContentModel>, i: int)
    requires
        0 <= i < content.len(),
    ensures
        content[i].thinking() ==> thinking_of(content).contains(content[i]),
        content[i].thinking() ==> thinking_of(content).len() > 0,
        forall|j: int|
            0 <= j < thinking_of(content).len() ==> (#[trigger] thinking_of(content)[j]).thinking(),
    decreases content.len(),
{
    let head = thinking_of(content.drop_last());
    if content.len() > 1 {
        let k = if i < content.len() - 1 {
            i
        } else {
            0
        };
        lemma_thinking_of(content.drop_last(), k);
        assert(content.drop_last()[k] == content[k]);
    } else {
        assert(head =~= Seq::empty());
    }
    let all = thinking_of(content);
    if content.last().thinking() {
        assert(all[head.len() as int] == content.last());
        if i < content.len() - 1 && content[i].thinking() {
            let p = choose|p: int| 0 <= p < head.len() && head[p] == content[i];
            assert(all[p] == content[i]);
        }
    }
}

/// A summary replaces a request and its answer: the two messages found are messages of the
/// conversation that mention the call.
pub proof fn law_summaries_replace_messages_of_the_call(
    all: Seq<MessageModel>,
    id: Seq<char>,
    k: int,
)
    requires
        0 <= k < call_messages(all, id).len(),
    ensures
        exists|i: int|
            0 <= i < all.len() && (#[trigger] all[i]).id == Some(call_messages(all, id)[k])
                && mentions_call(all[i], id),
    decreases all.len(),
{
    let head = call_messages(all.drop_last(), id);
    if k < head.len() {
        law_summaries_replace_messages_of_the_call(all.drop_last(), id, k);
        let i = choose|i: int|
            0 <= i < all.drop_last().len() && (#[trigger] all.drop_last()[i]).id == Some(
                call_messages(all.drop_last(), id)[k],
            ) && mentions_call(all.drop_last()[i], id);
        assert(all[i] == all.drop_last()[i]);
    } else {
        assert(all[all.len() - 1] == all.last());
    }
}

/// No message of a call is overlooked: each one with an id that asks for the call, or answers it,
/// is found.
pub proof fn law_messages_of_a_call_are_found(all: Seq<MessageModel>, id: Seq<char>, i: int, c: int)
    requires
        0 <= i < all.len(),
        all[i].id is Some,
        0 <= c < all[i].content.len(),
        match all[i].content[c] {
            ContentModel::ToolRequest(r) => r.id == id,
            ContentModel::ToolResponse(r) => r.id == id,
            _ => false,
        },
    ensures
        call_messages(all, id).contains(all[i].id->0),
    decreases all.len(),
{
    let head = call_messages(all.drop_last(), id);
    let whole = call_messages(all, id);
    if i < all.len() - 1 {
        assert(all.drop_last()[i] == all[i]);
        law_messages_of_a_call_are_found(all.drop_last(), id, i, c);
        let p = choose|p: int| 0 <= p < head.len() && head[p] == all[i].id->0;
        assert(whole[p] == all[i].id->0);
    } else {
        assert(mentions_call(all[i], id));
        assert(whole[head.len() as int] == all[i].id->0);
    }
}

/// The count of tool requests goes up by one with each request and by nothing else.
pub proof fn law_each_request_counts_once(all: Seq<MessageModel>, m: MessageModel, c: ContentModel)
    ensures
        request_count(
            all.push(MessageModel { content: m.content.push(c), ..m }),
        ) == request_count(all.push(m)) + if c is ToolRequest {
            1nat
        } else {
            0nat
        },
        request_count(all.push(MessageModel { content: Seq::empty(), ..m })) == request_count(all),
{
    let more = MessageModel { content: m.content.push(c), ..m };
    assert(all.push(more).drop_last() =~= all);
    assert(all.push(m).drop_last() =~= all);
    assert(m.content.push(c).drop_last() =~= m.content);
    let none = MessageModel { content: Seq::empty(), ..m };
    assert(all.push(none).drop_last() =~= all);
}

/// What the user is told of an error holds what the provider said of it, but for an account without
/// credits, where it says how to go on, and hands on the place to add some.
#[verifier::rlimit(60)]
pub proof fn law_errors_are_told(error: ProviderError, display: Seq<char>, created: i64)
    ensures
        ({
            let m = error_message(error, display, created);
            &&& m.role == Role::Assistant
            &&& m.user_visible
            &&& m.content.len() == 1
            &&& match error {
                ProviderError::CreditsExhausted { top_up_url, .. } => {
                    &&& m.content[0] matches ContentModel::SystemNotification { kind, data, .. }
                    &&& kind == NotificationKind::CreditsExhausted
                    &&& data matches Some(d)
                    &&& d.get("top_up_url"@) == Some(
                        match top_up_url {
                            Some(u) => Tree::Str(u@),
                            None => Tree::Null,
                        },
                    )
                },
                ProviderError::Refusal { details, category } => {
                    &&& m.content[0] matches ContentModel::Text { text, .. }
                    &&& has_text(text, details@)
                    &&& category matches Some(c) ==> has_text(text, c@)
                },
                _ => m.content[0] matches ContentModel::Text { text, .. } && has_text(text, display),
            }
        }),
{
    let m = error_message(error, display, created);
    match error {
        ProviderError::CreditsExhausted { details, top_up_url } => {
            let v = match top_up_url {
                Some(u) => Tree::Str(u@),
                None => Tree::Null,
            };
            let ms = seq![("top_up_url"@, v)];
            reveal_with_fuel(crate::json::lookup, 2);
            assert(ms.last() == ("top_up_url"@, v));
            assert(m.content[0]->data == Some(Tree::Object(ms)));
        },
        ProviderError::Refusal { details, category } => {
            let a = "The provider refused this request.\n\n"@;
            let end =
                "\n\nPlease start a new session to continue — resending this conversation is likely to be refused again."@;
            let text = refusal_text(details@, text_opt(category));
            match category {
                Some(c) => {
                    let b = "\n\nCategory: "@;
                    assert(text =~= a + details@ + (b + c@ + end));
                    assert(text =~= (a + details@ + b) + c@ + end);
                    lemma_has_text(a, details@, b + c@ + end);
                    lemma_has_text(a + details@ + b, c@, end);
                },
                None => {
                    assert(text =~= a + details@ + end);
                    lemma_has_text(a, details@, end);
                },
            }
        },
        ProviderError::NetworkError(_) => {
            lemma_has_text(
                Seq::empty(),
                display,
                "\n\nPlease resend your message to try again."@,
            );
        },
        _ => {
            lemma_has_text(
                "Ran into this error: "@,
                display,
                ".\n\nPlease retry if you think this is a transient or recoverable error."@,
            );
        },
    }
}

/// Each request that is answered with one text is: the reply to the first open request with its id
/// gains that answer, and the replies to requests with other ids stay.
pub proof fn law_each_request_gets_the_text(
    reqs: Seq<RequestModel>,
    replies: Seq<MessageModel>,
    ids: Seq<RequestModel>,
    output: OutputModel,
    k: int,
)
    requires
        reqs.len() == replies.len(),
        0 <= k < reqs.len(),
        forall|i: int, j: int|
            0 <= i < j < reqs.len() ==> (#[trigger] reqs[i]).id != (#[trigger] reqs[j]).id,
        forall|i: int, j: int|
            0 <= i < j < ids.len() ==> (#[trigger] ids[i]).id != (#[trigger] ids[j]).id,
    ensures
        replies_with(reqs, replies, ids, output).len() == replies.len(),
        (exists|i: int| 0 <= i < ids.len() && (#[trigger] ids[i]).id == reqs[k].id)
            ==> replies_with(reqs, replies, ids, output)[k].content == replies[k].content.push(
            ContentModel::ToolResponse(
                ResponseModel { id: reqs[k].id, result: Ok(output), metadata: reqs[k].metadata },
            ),
        ),
        (forall|i: int| 0 <= i < ids.len() ==> (#[trigger] ids[i]).id != reqs[k].id)
            ==> replies_with(reqs, replies, ids, output)[k] == replies[k],
    decreases ids.len(),
{
    if ids.len() > 0 {
        let front = ids.drop_last();
        let last = ids.last();
        assert forall|i: int, j: int| 0 <= i < j < front.len() implies (#[trigger] front[i]).id != (
        #[trigger] front[j]).id by {
            assert(front[i] == ids[i]);
            assert(front[j] == ids[j]);
        }
        law_each_request_gets_the_text(reqs, replies, front, output, k);
        let before = replies_with(reqs, replies, front, output);
        let after = replies_after(reqs, before, last.id, Ok(output));
        assert(ids[ids.len() - 1] == last);
        if exists|m: int| 0 <= m < reqs.len() && (#[trigger] reqs[m]).id == last.id {
            let m = choose|m: int| 0 <= m < reqs.len() && (#[trigger] reqs[m]).id == last.id;
            assert forall|j: int| 0 <= j < m implies (#[trigger] reqs[j]).id != last.id by {}
            law_answers_go_to_their_request(reqs, before, last.id, Ok(output), m);
            if m != k {
                assert(reqs[m].id != reqs[k].id);
                assert(after[k] == before[k]);
            }
        } else {
            law_stray_answers_are_dropped(reqs, before, last.id, Ok(output));
        }
        if reqs[k].id == last.id {
            assert forall|i: int| 0 <= i < front.len() implies (#[trigger] front[i]).id
                != reqs[k].id by {
                assert(front[i] == ids[i]);
            }
        } else {
            if exists|i: int| 0 <= i < ids.len() && (#[trigger] ids[i]).id == reqs[k].id {
                let i = choose|i: int| 0 <= i < ids.len() && (#[trigger] ids[i]).id == reqs[k].id;
                assert(front[i] == ids[i]);
            } else {
                assert forall|i: int| 0 <= i < front.len() implies (#[trigger] front[i]).id
                    != reqs[k].id by {
                    assert(front[i] == ids[i]);
                }
            }
        }
    }
}

/// A response without reasoning of its own takes that of the last message of its role that holds
/// nothing else, and the reasoning of one that has some becomes a message of its own.
pub proof fn law_earlier_reasoning_is_taken(
    response: MessageModel,
    added: Seq<MessageModel>,
    id: Seq<char>,
)
    ensures
        thinking_of(response.content).len() == 0 && added.len() > 0 && added.last().role
            == response.role && only_thinking(added.last()) ==> response_thinking(response, added)
            == added.last().content,
        thinking_of(response.content).len() == 0 && added.len() == 0 ==> response_thinking(
            response,
            added,
        ).len() == 0,
        thinking_of(response.content).len() == 0 ==> with_thinking_message(response, added, id)
            == added,
        thinking_of(response.content).len() > 0 ==> {
            let out = with_thinking_message(response, added, id);
            &&& out.len() == added.len() + 1
            &&& out.drop_last() == added
            &&& out.last().content == thinking_of(response.content)
            &&& out.last().role == response.role
            &&& out.last().id == Some(id)
        },
{
    assert(with_thinking_message(response, added, id).take(added.len() as int) =~= added);
    if thinking_of(response.content).len() > 0 {
        assert(with_thinking_message(response, added, id).drop_last() =~= added);
    }
}

/// What the model is told of a goal, or of the work that is to go on, holds the goal; what the user
/// is told of a failed compaction holds the error.
pub proof fn law_nudges_hold_the_goal(goal: Seq<char>)
    ensures
        has_text(goal_nudge_text(goal), goal),
        has_text(grind_nudge_text(goal), goal),
        has_text(compaction_failed_text(goal), goal),
{
    lemma_has_text(
        "Before finishing, check whether the following goal has been fully met:\n\n**Goal:** "@,
        goal,
        "\n\nIf not, continue working toward it."@,
    );
    lemma_has_text(
        "Keep working. The grind goal is not yet complete:\n\n**Goal:** "@,
        goal,
        "\n\nContinue until it is fully done."@,
    );
    lemma_has_text(
        "Ran into this error trying to compact: "@,
        goal,
        ".\n\nPlease try again or create a new session"@,
    );
}

} // verus!
