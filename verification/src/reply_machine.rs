//! The order of a reply: which outside work follows each thing that happened.
//!
//! The machine says what to do next, and what to store and to show before that. Whoever runs it
//! does the work and hands back what came of it.

use crate::conversation::{
    copy_messages, inference_opt, messages, requests, Inference, Message, MessageModel, ToolRequest,
    RequestModel,
};
use crate::hooks::HookDecision;
use crate::reply_loop::{
    compaction_taken, error_taken, final_message, finished, gathered_messages, idled, idles,
    message_opt, output_taken, pairs_shown, recipe_checked, requests_closed, responded,
    stamped_all, stop_answered, stream_begun, turn_counted, Begin, ErrorStep, IdleStep, LoopModel,
    OpenRequests, ReplyLoop, StopVerdict, TurnStep,
};
use crate::reply_parts::ProviderError;
use crate::text::{contains_string, has_text, lemma_has_text, str_eq, texts};
use vstd::prelude::*;
use vstd::string::*;

verus! {

// ---------------------------------------------------------------------------
// What happens and what is done
// ---------------------------------------------------------------------------

/// What is to be done next.
#[derive(Clone, Copy, PartialEq, Eq, Structural, Debug)]
pub enum ReplyAction {
    /// Begin an iteration: look whether the reply was cancelled.
    Begin,
    /// Take the messages that wait to steer the reply; the prompt hooks are told of each.
    DrainSteers,
    /// Take what the final output tool was given.
    TakeFinalOutput,
    /// Ask the stop hooks whether the turn may end.
    AskStopHook,
    /// Ask the provider.
    Ask,
    /// Take the next item of the provider's answer.
    NextItem,
    /// Run the tools that the response asks for.
    RunTools,
    /// Compact the conversation.
    Compact,
    /// Look for new hints about the working directory.
    LookForHints,
    /// Look at the final output, at the steering messages, at the goal and at the grind.
    LookAround,
    /// Clear goal and grind, and run the recipe's checks.
    CheckRecipe,
    /// Wait for the summaries of old tool calls.
    Gather,
    /// The reply is over. The stop hooks are told where they were not asked.
    Leave { tell_stop_hook: bool },
}

/// An item of the provider's answer.
#[derive(Debug, PartialEq, Eq)]
pub enum StreamItem {
    /// It holds no response.
    Empty,
    /// `shown` is what the user sees of the response, `text` the text of that, and `requests` how
    /// many tools it asks for.
    Response { shown: Message, response: Message, requests: usize, text: String },
    /// The provider failed; `display` is the error's own text.
    Failed { error: ProviderError, display: String },
}

/// What came of an action.
#[derive(Debug, PartialEq, Eq)]
pub enum ReplyEvent {
    Began { cancelled: bool },
    Drained(Vec<Message>),
    /// What the final output tool was given, where there is such a tool and it was.
    FinalOutput(Option<String>),
    StopDecision(HookDecision),
    /// The provider's answer begins.
    Opened,
    /// The provider's answer is over.
    StreamEnded,
    Item { cancelled: bool, item: StreamItem },
    /// The tools ran. `installs` are the ids of the requests for extensions, `failed` those of the
    /// calls that failed, and the other ids are fresh.
    ToolsRan {
        response: Message,
        open: OpenRequests,
        thinking_id: String,
        ids: Vec<String>,
        installs: Vec<String>,
        failed: Vec<String>,
    },
    Compacted(Result<Vec<Message>, String>),
    Hints(bool),
    LookedAround {
        final_output: Option<Option<String>>,
        continuation: String,
        pending_steers: bool,
        goal: Option<String>,
        grind: Option<String>,
    },
    RecipeChecked(Result<Option<Vec<Message>>, String>),
    Gathered { inference: Option<Inference>, summarised: bool, pending_steers: bool },
}

/// What follows an event: messages to store and to show, and what to do next.
#[derive(Debug, PartialEq, Eq)]
pub struct ReplyStep {
    pub store: Vec<Message>,
    pub show: Vec<Message>,
    /// What is shown is shown before the rest is stored, not after it.
    pub show_first: bool,
    /// The user is shown the whole conversation, which was replaced.
    pub history_replaced: bool,
    /// The extensions of the session are saved.
    pub save_extensions: bool,
    /// Pairs of old tool calls may be summarised meanwhile.
    pub summarise: bool,
    /// The tools and the prompt are prepared anew, before the next action.
    pub prepare: bool,
    /// The final output is to be taken when looking around.
    pub take_output: bool,
    pub next: ReplyAction,
}

#[verifier::ext_equal]
pub struct StepModel {
    pub store: Seq<MessageModel>,
    pub show: Seq<MessageModel>,
    pub show_first: bool,
    pub history_replaced: bool,
    pub save_extensions: bool,
    pub summarise: bool,
    pub prepare: bool,
    pub take_output: bool,
    pub next: ReplyAction,
}

impl ReplyStep {
    pub open spec fn view(&self) -> StepModel {
        StepModel {
            store: messages(self.store@),
            show: messages(self.show@),
            show_first: self.show_first,
            history_replaced: self.history_replaced,
            save_extensions: self.save_extensions,
            summarise: self.summarise,
            prepare: self.prepare,
            take_output: self.take_output,
            next: self.next,
        }
    }

    /// Nothing but the next action.
    fn plain(next: ReplyAction) -> (r: ReplyStep)
        ensures
            r@ == plain_step(next),
    {
        let r = ReplyStep {
            store: Vec::new(),
            show: Vec::new(),
            show_first: false,
            history_replaced: false,
            save_extensions: false,
            summarise: false,
            prepare: false,
            take_output: false,
            next,
        };
        assert(r@.store =~= Seq::empty());
        assert(r@.show =~= Seq::empty());
        r
    }

    /// A message to show before the next action.
    fn showing(message: Message, next: ReplyAction) -> (r: ReplyStep)
        ensures
            r@ == shown_step(message@, next),
    {
        let mut r = ReplyStep::plain(next);
        let ghost m = message@;
        r.show.push(message);
        assert(r@.show =~= seq![m]);
        r
    }
}

/// Nothing but the next action.
pub open spec fn plain_step(next: ReplyAction) -> StepModel {
    StepModel {
        store: Seq::empty(),
        show: Seq::empty(),
        show_first: false,
        history_replaced: false,
        save_extensions: false,
        summarise: false,
        prepare: false,
        take_output: false,
        next,
    }
}

/// A message to show before the next action.
pub open spec fn shown_step(message: MessageModel, next: ReplyAction) -> StepModel {
    StepModel { show: seq![message], ..plain_step(next) }
}

/// A message to show, where there is one, before the next action.
pub open spec fn told_step(message: Option<MessageModel>, next: ReplyAction) -> StepModel {
    match message {
        Some(m) => shown_step(m, next),
        None => plain_step(next),
    }
}

/// The provider's answer is over. The tools and the prompt are prepared anew for new tools before
/// hints are looked for.
pub open spec fn answer_over(after: LoopModel) -> StepModel {
    StepModel { prepare: after.tools_updated, ..plain_step(ReplyAction::LookForHints) }
}

/// The end of a reply.
pub open spec fn leaving(m: LoopModel) -> ReplyAction {
    ReplyAction::Leave { tell_stop_hook: !m.stop_hook_handled_for_exit }
}

// ---------------------------------------------------------------------------
// Requests for extensions
// ---------------------------------------------------------------------------

/// The ids of the requests that call the tool that manages extensions.
pub open spec fn install_ids(reqs: Seq<RequestModel>, name: Seq<char>) -> Seq<Seq<char>>
    decreases reqs.len(),
{
    if reqs.len() == 0 {
        Seq::empty()
    } else {
        let head = install_ids(reqs.drop_last(), name);
        match reqs.last().tool_call {
            Ok(c) => if c.name == name {
                head.push(reqs.last().id)
            } else {
                head
            },
            Err(_) => head,
        }
    }
}

/// The ids of the requests that call the tool that manages extensions, whether they may run or
/// not.
pub fn install_requests(reqs: &Vec<ToolRequest>, name: &str) -> (r: Vec<String>)
    ensures
        texts(r@) == install_ids(requests(reqs@), name@),
{
    let ghost all = requests(reqs@);
    let mut out: Vec<String> = Vec::new();
    let mut i: usize = 0;
    assert(texts(out@) =~= install_ids(all.take(0), name@));
    while i < reqs.len()
        invariant
            all == requests(reqs@),
            i <= reqs@.len(),
            texts(out@) == install_ids(all.take(i as int), name@),
        decreases reqs@.len() - i,
    {
        assert(all.take(i + 1).drop_last() =~= all.take(i as int));
        assert(all.take(i + 1).last() == reqs@[i as int]@);
        let ghost before = texts(out@);
        if let Ok(c) = &reqs[i].tool_call {
            if str_eq(c.name.as_str(), name) {
                out.push(reqs[i].id.clone());
                assert(texts(out@) =~= before.push(reqs@[i as int].id@));
            }
        }
        i = i + 1;
    }
    assert(all.take(i as int) =~= all);
    out
}

/// Whether extensions were asked for and none of those calls failed.
pub open spec fn installed(installs: Seq<Seq<char>>, failed: Seq<Seq<char>>) -> bool {
    installs.len() > 0 && forall|i: int|
        0 <= i < installs.len() ==> !failed.contains(#[trigger] installs[i])
}

fn none_failed(installs: &Vec<String>, failed: &Vec<String>) -> (r: bool)
    ensures
        r == forall|i: int|
            0 <= i < installs@.len() ==> !texts(failed@).contains(#[trigger] texts(installs@)[i]),
{
    let mut i: usize = 0;
    while i < installs.len()
        invariant
            i <= installs@.len(),
            forall|j: int|
                0 <= j < i ==> !texts(failed@).contains(#[trigger] texts(installs@)[j]),
        decreases installs@.len() - i,
    {
        assert(texts(installs@)[i as int] == installs@[i as int]@);
        if contains_string(failed, installs[i].as_str()) {
            return false;
        }
        i = i + 1;
    }
    true
}

// ---------------------------------------------------------------------------
// The order
// ---------------------------------------------------------------------------

/// Whether an event is what comes of an action.
pub open spec fn expects(awaiting: ReplyAction, event: ReplyEvent) -> bool {
    match (awaiting, event) {
        (ReplyAction::Begin, ReplyEvent::Began { .. }) => true,
        (ReplyAction::DrainSteers, ReplyEvent::Drained(_)) => true,
        (ReplyAction::TakeFinalOutput, ReplyEvent::FinalOutput(_)) => true,
        (ReplyAction::AskStopHook, ReplyEvent::StopDecision(_)) => true,
        (ReplyAction::Ask, ReplyEvent::Opened) => true,
        (ReplyAction::NextItem, ReplyEvent::StreamEnded) => true,
        (ReplyAction::NextItem, ReplyEvent::Item { .. }) => true,
        (ReplyAction::RunTools, ReplyEvent::ToolsRan { open, ids, .. }) => open.wf() && ids@.len()
            == open.requests@.len(),
        (ReplyAction::Compact, ReplyEvent::Compacted(_)) => true,
        (ReplyAction::LookForHints, ReplyEvent::Hints(_)) => true,
        (ReplyAction::LookAround, ReplyEvent::LookedAround { .. }) => true,
        (ReplyAction::CheckRecipe, ReplyEvent::RecipeChecked(_)) => true,
        (ReplyAction::Gather, ReplyEvent::Gathered { .. }) => true,
        _ => false,
    }
}

/// Whether the counters can go up once more.
pub open spec fn counters_fit(m: LoopModel) -> bool {
    &&& m.turns_taken < u32::MAX
    &&& m.consecutive_stop_hook_blocks < u32::MAX
    &&& m.compaction_attempts < u32::MAX
}

/// What follows the decision of the stop hooks.
pub open spec fn stop_step(after: LoopModel, v: StopVerdict) -> StepModel {
    match v {
        StopVerdict::End => plain_step(leaving(after)),
        StopVerdict::Overridden { warning } => StepModel {
            store: seq![warning@],
            ..shown_step(warning@, leaving(after))
        },
        StopVerdict::GoOn { context, notice } => StepModel {
            store: seq![context@],
            ..shown_step(notice@, ReplyAction::Begin)
        },
    }
}

/// What follows the count of a turn.
pub open spec fn turn_step(after: LoopModel, t: TurnStep) -> StepModel {
    match t {
        TurnStep::Ask => plain_step(ReplyAction::Ask),
        TurnStep::LimitReached { message } => shown_step(message@, leaving(after)),
    }
}

/// What follows an error of the provider.
pub open spec fn error_step(after: LoopModel, e: ErrorStep) -> StepModel {
    match e {
        ErrorStep::Tell { message } => StepModel { show: seq![message@], ..answer_over(after) },
        ErrorStep::Compact { notice, thinking } => StepModel {
            show: seq![notice@, thinking@],
            ..plain_step(ReplyAction::Compact)
        },
    }
}

/// What follows a look around.
pub open spec fn idle_step(s: IdleStep) -> StepModel {
    match s {
        IdleStep::AskForFinalOutput { message } => shown_step(message@, ReplyAction::Gather),
        IdleStep::CheckGoal { notice } => shown_step(notice@, ReplyAction::Gather),
        IdleStep::KeepGrinding { notice } => shown_step(notice@, ReplyAction::Gather),
        IdleStep::CheckRecipe => plain_step(ReplyAction::CheckRecipe),
        _ => plain_step(ReplyAction::Gather),
    }
}

/// What follows an item of the provider's answer that is looked at.
pub open spec fn item_moves(
    before: LoopModel,
    item: StreamItem,
    now: i64,
    after: LoopModel,
    step: StepModel,
) -> bool {
    match item {
        StreamItem::Empty => {
            &&& after == (LoopModel { compaction_attempts: 0, ..before })
            &&& step == plain_step(ReplyAction::NextItem)
        },
        StreamItem::Response { shown, response, requests, text } => {
            &&& after == responded(before, shown@, response@, requests, text@)
            &&& step == shown_step(
                shown@,
                if requests > 0 {
                    ReplyAction::RunTools
                } else {
                    ReplyAction::NextItem
                },
            )
        },
        StreamItem::Failed { error, display } => exists|e: ErrorStep|
            #[trigger] error_taken(before, error, display@, now, after, e) && step == error_step(
                after,
                e,
            ),
    }
}

/// What follows a look around, with what was seen.
pub open spec fn look_moves(
    before: LoopModel,
    final_output: Option<Option<String>>,
    continuation: Seq<char>,
    pending_steers: bool,
    goal: Option<String>,
    grind: Option<String>,
    now: i64,
    after: LoopModel,
    step: StepModel,
) -> bool {
    exists|s: IdleStep|
        #[trigger] idled(
            before,
            final_output,
            continuation,
            pending_steers,
            goal,
            grind,
            now,
            after,
            s,
        ) && step == idle_step(s)
}

/// How a reply moves: from the state before an event to the state after it, and to what is done
/// next.
pub open spec fn moves(
    before: LoopModel,
    event: ReplyEvent,
    now: i64,
    after: LoopModel,
    step: StepModel,
) -> bool {
    match event {
        ReplyEvent::Began { cancelled } => {
            &&& after == before
            &&& step == plain_step(
                if cancelled {
                    leaving(before)
                } else if before.can_drain_pending_steers {
                    ReplyAction::DrainSteers
                } else {
                    ReplyAction::TakeFinalOutput
                },
            )
        },
        ReplyEvent::Drained(v) => {
            &&& after == (LoopModel {
                conversation: before.conversation + messages(v@),
                ..before
            })
            &&& step == (StepModel {
                store: messages(v@),
                show: messages(v@),
                ..plain_step(ReplyAction::TakeFinalOutput)
            })
        },
        ReplyEvent::FinalOutput(Some(output)) => {
            let message = crate::conversation::text_message(
                crate::conversation::Role::Assistant,
                now,
                output@,
            );
            &&& after == output_taken(before, output@, now)
            &&& step == (StepModel {
                store: seq![message],
                show_first: true,
                ..shown_step(message, ReplyAction::AskStopHook)
            })
        },
        ReplyEvent::FinalOutput(None) => exists|t: TurnStep|
            #[trigger] turn_counted(before, now, after, t) && step == turn_step(after, t),
        ReplyEvent::StopDecision(decision) => exists|v: StopVerdict|
            #[trigger] stop_answered(before, decision@, now, after, v) && step == stop_step(after, v),
        ReplyEvent::Opened => {
            &&& after == stream_begun(before)
            &&& step == (StepModel {
                summarise: !before.tool_pair_summarization_done,
                ..plain_step(ReplyAction::NextItem)
            })
        },
        ReplyEvent::StreamEnded => after == before && step == answer_over(after),
        ReplyEvent::Item { cancelled, item } => if cancelled || before.exit_chat {
            after == before && step == answer_over(after)
        } else {
            item_moves(before, item, now, after, step)
        },
        ReplyEvent::ToolsRan { response, open, thinking_id, ids, installs, failed } => {
            let new_tools = installed(texts(installs@), texts(failed@));
            &&& after == requests_closed(
                LoopModel { tools_updated: before.tools_updated || new_tools, ..before },
                response@,
                requests(open.requests@),
                messages(open.replies@),
                thinking_id@,
                texts(ids@),
                now,
            )
            &&& step == (StepModel {
                show: pairs_shown(requests(open.requests@), messages(open.replies@), now),
                save_extensions: new_tools,
                ..plain_step(ReplyAction::NextItem)
            })
        },
        ReplyEvent::Compacted(result) => exists|m: Option<Message>|
            #[trigger] compaction_taken(before, result, now, after, m) && step == (StepModel {
                history_replaced: result is Ok,
                prepare: after.tools_updated,
                ..told_step(message_opt(m), ReplyAction::LookForHints)
            }),
        ReplyEvent::Hints(new_hints) => {
            &&& after == (LoopModel { can_drain_pending_steers: true, ..before })
            &&& step == (StepModel {
                prepare: new_hints && !before.tools_updated,
                take_output: idles(before),
                ..plain_step(ReplyAction::LookAround)
            })
        },
        ReplyEvent::LookedAround { final_output, continuation, pending_steers, goal, grind } => {
            look_moves(
                before,
                final_output,
                continuation@,
                pending_steers,
                goal,
                grind,
                now,
                after,
                step,
            )
        },
        ReplyEvent::RecipeChecked(result) => exists|m: Option<Message>|
            #[trigger] recipe_checked(before, result, now, after, m) && step == (StepModel {
                store: Seq::empty(),
                history_replaced: result matches Ok(Some(_)),
                ..told_step(message_opt(m), ReplyAction::Gather)
            }),
        ReplyEvent::Gathered { inference, summarised, pending_steers } => {
            let model = inference_opt(inference);
            &&& after == finished(before, model, summarised, pending_steers, now)
            &&& step == (StepModel {
                store: stamped_all(gathered_messages(before, now), model),
                show_first: true,
                ..told_step(
                    final_message(before, now),
                    if before.exit_chat && !pending_steers {
                        ReplyAction::AskStopHook
                    } else {
                        ReplyAction::Begin
                    },
                )
            })
        },
    }
}

/// A reply: its state, and the action whose outcome it waits for.
#[derive(Debug, PartialEq, Eq)]
pub struct ReplyMachine {
    pub state: ReplyLoop,
    pub awaiting: ReplyAction,
}

impl ReplyMachine {
    /// A reply that begins.
    pub fn new(state: ReplyLoop) -> (r: ReplyMachine)
        ensures
            r.state == state,
            r.awaiting == ReplyAction::Begin,
    {
        ReplyMachine { state, awaiting: ReplyAction::Begin }
    }

    fn leave(&self) -> (r: ReplyAction)
        ensures
            r == leaving(self.state@),
    {
        ReplyAction::Leave { tell_stop_hook: self.state.tells_stop_hook() }
    }

    fn answered(&self) -> (r: ReplyStep)
        ensures
            r@ == answer_over(self.state@),
    {
        let mut r = ReplyStep::plain(ReplyAction::LookForHints);
        r.prepare = self.state.tools_updated;
        r
    }

    fn on_turn(&mut self, now: i64) -> (r: ReplyStep)
        requires
            counters_fit(old(self).state@),
        ensures
            moves(
                old(self).state@,
                ReplyEvent::FinalOutput(None),
                now,
                final(self).state@,
                r@,
            ),
    {
        let ghost before = self.state@;
        let t = self.state.count_turn(now);
        let ghost told = t;
        assert(turn_counted(before, now, self.state@, told));
        match t {
            TurnStep::Ask => ReplyStep::plain(ReplyAction::Ask),
            TurnStep::LimitReached { message } => ReplyStep::showing(message, self.leave()),
        }
    }

    fn on_decision(&mut self, decision: HookDecision, now: i64) -> (r: ReplyStep)
        requires
            counters_fit(old(self).state@),
        ensures
            moves(
                old(self).state@,
                ReplyEvent::StopDecision(decision),
                now,
                final(self).state@,
                r@,
            ),
    {
        let ghost before = self.state@;
        let v = self.state.on_stop_hook(decision, now);
        let ghost said = v;
        assert(stop_answered(before, decision@, now, self.state@, said));
        match v {
            StopVerdict::End => ReplyStep::plain(self.leave()),
            StopVerdict::Overridden { warning } => {
                let stored = warning.copy();
                let ghost m = warning@;
                let mut r = ReplyStep::showing(warning, self.leave());
                r.store.push(stored);
                assert(messages(r.store@) =~= seq![m]);
                r
            },
            StopVerdict::GoOn { context, notice } => {
                let ghost m = context@;
                let mut r = ReplyStep::showing(notice, ReplyAction::Begin);
                r.store.push(context);
                assert(messages(r.store@) =~= seq![m]);
                r
            },
        }
    }

    fn on_item(&mut self, item: StreamItem, now: i64) -> (r: ReplyStep)
        requires
            counters_fit(old(self).state@),
        ensures
            item_moves(old(self).state@, item, now, final(self).state@, r@),
    {
        match item {
            StreamItem::Empty => {
                self.state.on_empty_item();
                ReplyStep::plain(ReplyAction::NextItem)
            },
            StreamItem::Response { shown, response, requests, text } => {
                let runs = self.state.on_response(&shown, &response, requests, text.as_str());
                ReplyStep::showing(
                    shown,
                    if runs {
                        ReplyAction::RunTools
                    } else {
                        ReplyAction::NextItem
                    },
                )
            },
            StreamItem::Failed { error, display } => {
                let ghost before = self.state@;
                let e = self.state.on_provider_error(&error, display.as_str(), now);
                let ghost told = e;
                assert(error_taken(before, error, display@, now, self.state@, told));
                match e {
                    ErrorStep::Tell { message } => {
                        let ghost m = message@;
                        let mut r = self.answered();
                        r.show.push(message);
                        assert(messages(r.show@) =~= seq![m]);
                        r
                    },
                    ErrorStep::Compact { notice, thinking } => {
                        let ghost a = notice@;
                        let ghost b = thinking@;
                        let mut r = ReplyStep::showing(notice, ReplyAction::Compact);
                        let ghost had = r@.show;
                        r.show.push(thinking);
                        assert(messages(r.show@) =~= had.push(b));
                        assert(had.push(b) =~= seq![a, b]);
                        r
                    },
                }
            },
        }
    }

    fn told(message: Option<Message>, next: ReplyAction) -> (r: ReplyStep)
        ensures
            r@ == told_step(message_opt(message), next),
    {
        match message {
            Some(m) => ReplyStep::showing(m, next),
            None => ReplyStep::plain(next),
        }
    }

    fn on_look(
        &mut self,
        final_output: Option<Option<String>>,
        continuation: String,
        pending_steers: bool,
        goal: Option<String>,
        grind: Option<String>,
        now: i64,
    ) -> (r: ReplyStep)
        ensures
            look_moves(
                old(self).state@,
                final_output,
                continuation@,
                pending_steers,
                goal,
                grind,
                now,
                final(self).state@,
                r@,
            ),
    {
        let ghost before = self.state@;
        let s = self.state.on_idle(
            final_output,
            continuation.as_str(),
            pending_steers,
            &goal,
            &grind,
            now,
        );
        let ghost said = s;
        assert(idled(
            before,
            final_output,
            continuation@,
            pending_steers,
            goal,
            grind,
            now,
            self.state@,
            said,
        ));
        let r = match s {
            IdleStep::AskForFinalOutput { message } => ReplyStep::showing(
                message,
                ReplyAction::Gather,
            ),
            IdleStep::CheckGoal { notice } => ReplyStep::showing(notice, ReplyAction::Gather),
            IdleStep::KeepGrinding { notice } => ReplyStep::showing(notice, ReplyAction::Gather),
            IdleStep::CheckRecipe => ReplyStep::plain(ReplyAction::CheckRecipe),
            _ => ReplyStep::plain(ReplyAction::Gather),
        };
        assert(r@ == idle_step(said));
        r
    }

    fn on_tools(
        &mut self,
        response: Message,
        open: OpenRequests,
        thinking_id: String,
        ids: Vec<String>,
        installs: Vec<String>,
        failed: Vec<String>,
        now: i64,
    ) -> (r: ReplyStep)
        requires
            open.wf(),
            ids@.len() == open.requests@.len(),
        ensures
            moves(
                old(self).state@,
                (ReplyEvent::ToolsRan { response, open, thinking_id, ids, installs, failed }),
                now,
                final(self).state@,
                r@,
            ),
    {
        let new_tools = self.state.on_installs(installs.len(), none_failed(&installs, &failed));
        assert(new_tools == installed(texts(installs@), texts(failed@)));
        let shown = self.state.close_requests(&response, open, thinking_id, &ids, now);
        let mut r = ReplyStep::plain(ReplyAction::NextItem);
        r.show = shown;
        r.save_extensions = new_tools;
        r
    }

    /// Takes in what came of the action that the reply waits for, and says what to do next.
    #[verifier::rlimit(50)]
    pub fn step(&mut self, event: ReplyEvent, now: i64) -> (r: ReplyStep)
        requires
            expects(old(self).awaiting, event),
            counters_fit(old(self).state@),
        ensures
            moves(old(self).state@, event, now, final(self).state@, r@),
            final(self).awaiting == r.next,
    {
        let ghost before = self.state@;
        let r = match event {
            ReplyEvent::Began { cancelled } => ReplyStep::plain(
                match self.state.begin(cancelled) {
                    Begin::Stop => self.leave(),
                    Begin::DrainSteers => ReplyAction::DrainSteers,
                    Begin::CheckFinalOutput => ReplyAction::TakeFinalOutput,
                },
            ),
            ReplyEvent::Drained(v) => {
                let mut r = ReplyStep::plain(ReplyAction::TakeFinalOutput);
                r.store = copy_messages(&v);
                r.show = copy_messages(&v);
                self.state.take_messages(v);
                r
            },
            ReplyEvent::FinalOutput(Some(output)) => {
                let message = self.state.take_final_output(output, now);
                let stored = message.copy();
                let ghost m = message@;
                let mut r = ReplyStep::showing(message, ReplyAction::AskStopHook);
                r.show_first = true;
                r.store.push(stored);
                assert(messages(r.store@) =~= seq![m]);
                r
            },
            ReplyEvent::FinalOutput(None) => self.on_turn(now),
            ReplyEvent::StopDecision(decision) => self.on_decision(decision, now),
            ReplyEvent::Opened => {
                let summarise = self.state.begin_stream();
                let mut r = ReplyStep::plain(ReplyAction::NextItem);
                r.summarise = summarise;
                r
            },
            ReplyEvent::StreamEnded => self.answered(),
            ReplyEvent::Item { cancelled, item } => if self.state.leaves_stream(cancelled) {
                self.answered()
            } else {
                self.on_item(item, now)
            },
            ReplyEvent::ToolsRan { response, open, thinking_id, ids, installs, failed } => {
                self.on_tools(response, open, thinking_id, ids, installs, failed, now)
            },
            ReplyEvent::Compacted(result) => {
                let replaced = result.is_ok();
                let m = self.state.on_compaction(result, now);
                let ghost told = m;
                assert(compaction_taken(before, result, now, self.state@, told));
                let mut r = Self::told(m, ReplyAction::LookForHints);
                r.history_replaced = replaced;
                r.prepare = self.state.tools_updated;
                r
            },
            ReplyEvent::Hints(new_hints) => {
                let take_output = self.state.no_tools_called && !self.state.exit_chat;
                let prepare = self.state.end_stream(new_hints);
                let mut r = ReplyStep::plain(ReplyAction::LookAround);
                r.prepare = prepare;
                r.take_output = take_output;
                r
            },
            ReplyEvent::LookedAround { final_output, continuation, pending_steers, goal, grind } => {
                self.on_look(final_output, continuation, pending_steers, goal, grind, now)
            },
            ReplyEvent::RecipeChecked(result) => {
                let replaced = match &result {
                    Ok(Some(_)) => true,
                    _ => false,
                };
                let m = self.state.on_recipe_check(result, now);
                let ghost told = m;
                assert(recipe_checked(before, result, now, self.state@, told));
                let mut r = Self::told(m, ReplyAction::Gather);
                r.history_replaced = replaced;
                r
            },
            ReplyEvent::Gathered { inference, summarised, pending_steers } => {
                let f = self.state.finish(&inference, summarised, pending_steers, now);
                let next = if f.ask_stop_hook {
                    ReplyAction::AskStopHook
                } else {
                    ReplyAction::Begin
                };
                let mut r = Self::told(f.show, next);
                r.show_first = true;
                r.store = f.store;
                r
            },
        };
        self.awaiting = r.next;
        r
    }
}

// ---------------------------------------------------------------------------
// What holds of every reply
// ---------------------------------------------------------------------------

/// One step of a run: the event is what the action asked for, and the reply moves.
pub open spec fn run_step(
    states: Seq<LoopModel>,
    actions: Seq<ReplyAction>,
    events: Seq<ReplyEvent>,
    nows: Seq<i64>,
    steps: Seq<StepModel>,
    i: int,
) -> bool {
    &&& expects(actions[i], events[i])
    &&& counters_fit(states[i])
    &&& moves(states[i], events[i], nows[i], states[i + 1], steps[i])
    &&& actions[i + 1] == steps[i].next
}

/// Whether a reply goes through the states and the actions, one event after the other, from its
/// beginning.
pub open spec fn is_run(
    states: Seq<LoopModel>,
    actions: Seq<ReplyAction>,
    events: Seq<ReplyEvent>,
    nows: Seq<i64>,
    steps: Seq<StepModel>,
) -> bool {
    &&& states.len() == events.len() + 1
    &&& actions.len() == states.len()
    &&& nows.len() == events.len()
    &&& steps.len() == events.len()
    &&& actions[0] == ReplyAction::Begin
    &&& states[0].turns_taken == 0
    &&& states[0].consecutive_stop_hook_blocks == 0
    &&& !states[0].retrying_after_stop_hook_denial
    &&& forall|i: int|
        0 <= i < events.len() ==> #[trigger] run_step(states, actions, events, nows, steps, i)
}

/// How often the provider is asked.
pub open spec fn times_asked(actions: Seq<ReplyAction>) -> nat
    decreases actions.len(),
{
    if actions.len() == 0 {
        0
    } else {
        times_asked(actions.drop_last()) + if actions.last() == ReplyAction::Ask {
            1nat
        } else {
            0nat
        }
    }
}

/// How often a stop hook keeps the turn from ending.
pub open spec fn times_kept(actions: Seq<ReplyAction>) -> nat
    decreases actions.len(),
{
    if actions.len() < 2 {
        0
    } else {
        times_kept(actions.drop_last()) + if actions[actions.len() - 2] == ReplyAction::AskStopHook
            && actions.last() == ReplyAction::Begin {
            1nat
        } else {
            0nat
        }
    }
}

pub open spec fn one_if(b: bool) -> int {
    if b {
        1
    } else {
        0
    }
}

/// How a step moves the counters: a denial that is honoured counts as one, and asking the provider
/// counts as a turn unless it answers a denial.
proof fn lemma_step_counts(
    before: LoopModel,
    awaiting: ReplyAction,
    event: ReplyEvent,
    now: i64,
    after: LoopModel,
    step: StepModel,
)
    requires
        expects(awaiting, event),
        counters_fit(before),
        moves(before, event, now, after, step),
    ensures
        after.max_turns == before.max_turns,
        after.stop_hook_block_cap == before.stop_hook_block_cap,
        one_if(step.next == ReplyAction::Ask) + one_if(after.retrying_after_stop_hook_denial)
            + before.turns_taken + before.consecutive_stop_hook_blocks <= one_if(
            before.retrying_after_stop_hook_denial,
        ) + after.turns_taken + after.consecutive_stop_hook_blocks,
        one_if(awaiting == ReplyAction::AskStopHook && step.next == ReplyAction::Begin)
            + before.consecutive_stop_hook_blocks <= after.consecutive_stop_hook_blocks,
        !(step.next is Leave) && before.turns_taken <= before.max_turns
            ==> after.turns_taken <= after.max_turns,
        !(step.next is Leave) && before.consecutive_stop_hook_blocks <= before.stop_hook_block_cap
            ==> after.consecutive_stop_hook_blocks <= after.stop_hook_block_cap,
{
    match event {
        ReplyEvent::FinalOutput(None) => {
            let t = choose|t: TurnStep|
                #[trigger] turn_counted(before, now, after, t) && step == turn_step(after, t);
            assert(turn_counted(before, now, after, t));
        },
        ReplyEvent::StopDecision(decision) => {
            let v = choose|v: StopVerdict|
                #[trigger] stop_answered(before, decision@, now, after, v) && step == stop_step(
                    after,
                    v,
                );
            assert(stop_answered(before, decision@, now, after, v));
        },
        _ => {},
    }
}

proof fn lemma_run_counts(
    states: Seq<LoopModel>,
    actions: Seq<ReplyAction>,
    events: Seq<ReplyEvent>,
    nows: Seq<i64>,
    steps: Seq<StepModel>,
    n: int,
)
    requires
        is_run(states, actions, events, nows, steps),
        0 <= n <= events.len(),
    ensures
        states[n].max_turns == states[0].max_turns,
        states[n].stop_hook_block_cap == states[0].stop_hook_block_cap,
        times_asked(actions.take(n + 1)) + one_if(states[n].retrying_after_stop_hook_denial)
            <= states[n].turns_taken + states[n].consecutive_stop_hook_blocks,
        times_kept(actions.take(n + 1)) <= states[n].consecutive_stop_hook_blocks,
        !(actions[n] is Leave) ==> states[n].turns_taken <= states[0].max_turns
            && states[n].consecutive_stop_hook_blocks <= states[0].stop_hook_block_cap,
        times_asked(actions.take(n + 1)) <= states[0].max_turns + states[0].stop_hook_block_cap,
        times_kept(actions.take(n + 1)) <= states[0].stop_hook_block_cap,
    decreases n,
{
    if n == 0 {
        assert(actions.take(1).drop_last() =~= Seq::empty());
        assert(times_asked(actions.take(1).drop_last()) == 0);
        assert(actions.take(1).last() == ReplyAction::Begin);
    } else {
        lemma_run_counts(states, actions, events, nows, steps, n - 1);
        assert(run_step(states, actions, events, nows, steps, n - 1));
        lemma_step_counts(
            states[n - 1],
            actions[n - 1],
            events[n - 1],
            nows[n - 1],
            states[n],
            steps[n - 1],
        );
        let upto = actions.take(n + 1);
        assert(upto.drop_last() =~= actions.take(n));
        assert(upto.last() == actions[n]);
        assert(upto[upto.len() - 2] == actions[n - 1]);
        assert(!(actions[n - 1] is Leave));
    }
}

/// No reply runs for ever on account of its hooks: in every run the stop hooks keep the turn from
/// ending at most as often as the cap says, and the provider is asked at most as often as there are
/// turns and honoured denials.
pub proof fn law_stop_hooks_are_capped(
    states: Seq<LoopModel>,
    actions: Seq<ReplyAction>,
    events: Seq<ReplyEvent>,
    nows: Seq<i64>,
    steps: Seq<StepModel>,
)
    requires
        is_run(states, actions, events, nows, steps),
    ensures
        times_kept(actions) <= states[0].stop_hook_block_cap,
        times_asked(actions) <= states[0].max_turns + states[0].stop_hook_block_cap,
{
    lemma_run_counts(states, actions, events, nows, steps, events.len() as int);
    assert(actions.take(events.len() as int + 1) =~= actions);
}

/// A refusal is terminal: after it the provider is not asked, and neither goal nor grind nor the
/// recipe's checks are looked at, until the stop hooks were asked or a steering message begins an
/// iteration.
pub proof fn law_refusal_is_terminal(
    states: Seq<LoopModel>,
    actions: Seq<ReplyAction>,
    events: Seq<ReplyEvent>,
    nows: Seq<i64>,
    steps: Seq<StepModel>,
    k: int,
)
    requires
        is_run(states, actions, events, nows, steps),
        0 <= k,
        k + 4 <= events.len(),
        !states[k].exit_chat,
        events[k] matches ReplyEvent::Item {
            cancelled: false,
            item: StreamItem::Failed { error, .. },
        } && error is Refusal,
    ensures
        actions[k + 1] == ReplyAction::LookForHints,
        actions[k + 2] == ReplyAction::LookAround,
        actions[k + 3] == ReplyAction::Gather,
        events[k + 3] matches ReplyEvent::Gathered { pending_steers, .. } && actions[k + 4]
            == if pending_steers {
            ReplyAction::Begin
        } else {
            ReplyAction::AskStopHook
        },
{
    assert(run_step(states, actions, events, nows, steps, k));
    assert(run_step(states, actions, events, nows, steps, k + 1));
    assert(run_step(states, actions, events, nows, steps, k + 2));
    assert(run_step(states, actions, events, nows, steps, k + 3));
    assert(states[k + 1].exit_chat);
    assert(states[k + 2].exit_chat);
    assert(!idles(states[k + 2]));
    assert(states[k + 3].exit_chat);
}

/// The provider is asked only after the final output was looked for and there was none, and after
/// an answer the steering messages are taken before that.
pub proof fn law_steers_come_before_the_next_question(
    states: Seq<LoopModel>,
    actions: Seq<ReplyAction>,
    events: Seq<ReplyEvent>,
    nows: Seq<i64>,
    steps: Seq<StepModel>,
    k: int,
)
    requires
        is_run(states, actions, events, nows, steps),
        0 < k <= events.len(),
        actions[k] == ReplyAction::Ask,
    ensures
        k >= 2,
        actions[k - 1] == ReplyAction::TakeFinalOutput,
        events[k - 1] == ReplyEvent::FinalOutput(None),
        states[k].can_drain_pending_steers ==> actions[k - 2] == ReplyAction::DrainSteers,
{
    assert(run_step(states, actions, events, nows, steps, k - 1));
    lemma_asks_after_output(states, actions, events, nows, steps, k - 1);
    assert(k >= 2);
    assert(run_step(states, actions, events, nows, steps, k - 2));
    let t = choose|t: TurnStep|
        #[trigger] turn_counted(states[k - 1], nows[k - 1], states[k], t) && steps[k - 1]
            == turn_step(states[k], t);
    assert(turn_counted(states[k - 1], nows[k - 1], states[k], t));
}

/// After an answer the tools and the prompt are prepared anew at most once: for new tools before
/// hints are looked for, else after that where there are new ones.
pub proof fn law_the_prompt_is_prepared_once(
    states: Seq<LoopModel>,
    actions: Seq<ReplyAction>,
    events: Seq<ReplyEvent>,
    nows: Seq<i64>,
    steps: Seq<StepModel>,
    k: int,
)
    requires
        is_run(states, actions, events, nows, steps),
        0 <= k,
        k + 2 <= events.len(),
        actions[k + 1] == ReplyAction::LookForHints,
    ensures
        steps[k].prepare == states[k + 1].tools_updated,
        events[k + 1] matches ReplyEvent::Hints(new_hints) && steps[k + 1].prepare == (new_hints
            && !steps[k].prepare),
        !(steps[k].prepare && steps[k + 1].prepare),
{
    assert(run_step(states, actions, events, nows, steps, k));
    assert(run_step(states, actions, events, nows, steps, k + 1));
}

proof fn lemma_asks_after_output(
    states: Seq<LoopModel>,
    actions: Seq<ReplyAction>,
    events: Seq<ReplyEvent>,
    nows: Seq<i64>,
    steps: Seq<StepModel>,
    i: int,
)
    requires
        is_run(states, actions, events, nows, steps),
        0 <= i < events.len(),
        steps[i].next == ReplyAction::Ask,
    ensures
        actions[i] == ReplyAction::TakeFinalOutput,
        events[i] == ReplyEvent::FinalOutput(None),
{
    assert(run_step(states, actions, events, nows, steps, i));
}

/// What is stored is what is remembered: after a step the conversation is the one before it,
/// followed by exactly the messages that the step says to store. It is another one only where it
/// was replaced, and a reply that leaves keeps the one it had.
#[verifier::rlimit(60)]
pub proof fn law_what_is_stored_is_remembered(
    before: LoopModel,
    event: ReplyEvent,
    now: i64,
    after: LoopModel,
    step: StepModel,
)
    requires
        moves(before, event, now, after, step),
    ensures
        !step.history_replaced && !(step.next is Leave) ==> after.conversation
            == before.conversation + step.store,
        step.next is Leave ==> after.conversation == before.conversation,
        step.history_replaced ==> step.store.len() == 0 && match event {
            ReplyEvent::Compacted(Ok(v)) => after.conversation == messages(v@),
            ReplyEvent::RecipeChecked(Ok(Some(v))) => after.conversation == messages(v@),
            _ => false,
        },
        event matches ReplyEvent::Compacted(Ok(_)) ==> step.history_replaced,
        event matches ReplyEvent::RecipeChecked(Ok(Some(_))) ==> step.history_replaced,
{
    assert(before.conversation + Seq::<MessageModel>::empty() =~= before.conversation);
    match event {
        ReplyEvent::FinalOutput(Some(_)) => {
            assert(after.conversation =~= before.conversation + step.store);
        },
        ReplyEvent::StopDecision(decision) => {
            let v = choose|v: StopVerdict|
                #[trigger] stop_answered(before, decision@, now, after, v) && step == stop_step(
                    after,
                    v,
                );
            assert(stop_answered(before, decision@, now, after, v));
            if step.next is Begin {
                assert(after.conversation =~= before.conversation + step.store);
            }
        },
        _ => {},
    }
}

/// Whether an action belongs to the work on an answer of the provider.
pub open spec fn at_work(a: ReplyAction) -> bool {
    a == ReplyAction::NextItem || a == ReplyAction::RunTools || a == ReplyAction::Compact || a
        == ReplyAction::LookForHints || a == ReplyAction::LookAround || a
        == ReplyAction::CheckRecipe || a == ReplyAction::Gather
}

/// Whether a message says what another one says.
pub open spec fn says(m: MessageModel, other: MessageModel) -> bool {
    m.role == other.role && m.content == other.content && m.id == other.id && m.created
        == other.created && m.user_visible == other.user_visible && m.agent_visible
        == other.agent_visible
}

/// Whether a message that was gathered still waits at its place, or stands in the conversation.
pub open spec fn kept_at(
    m: LoopModel,
    action: ReplyAction,
    start: nat,
    p: int,
    x: MessageModel,
) -> bool {
    ||| at_work(action) && m.conversation.len() == start && p < m.messages_to_add.len() && says(
        m.messages_to_add[p],
        x,
    )
    ||| start + p < m.conversation.len() && says(m.conversation[start + p], x)
}

/// What was gathered before an item of an answer still waits after it.
proof fn lemma_item_keeps(
    before: LoopModel,
    item: StreamItem,
    now: i64,
    after: LoopModel,
    step: StepModel,
)
    requires
        item_moves(before, item, now, after, step),
    ensures
        at_work(step.next),
        after.conversation == before.conversation,
        after.messages_to_add.len() >= before.messages_to_add.len(),
        forall|i: int|
            0 <= i < before.messages_to_add.len() ==> #[trigger] after.messages_to_add[i]
                == before.messages_to_add[i],
{
    match item {
        StreamItem::Failed { error, display } => {
            let e = choose|e: ErrorStep|
                #[trigger] error_taken(before, error, display@, now, after, e) && step
                    == error_step(after, e);
            assert(error_taken(before, error, display@, now, after, e));
        },
        _ => {},
    }
}

/// What was gathered still waits after any event but the last of the work on an answer.
proof fn lemma_waiting_keeps(
    before: LoopModel,
    event: ReplyEvent,
    now: i64,
    after: LoopModel,
    step: StepModel,
    action: ReplyAction,
)
    requires
        expects(action, event),
        at_work(action),
        moves(before, event, now, after, step),
        !step.history_replaced,
        !(event is Gathered),
    ensures
        at_work(step.next),
        after.conversation == before.conversation,
        after.messages_to_add.len() >= before.messages_to_add.len(),
        forall|i: int|
            0 <= i < before.messages_to_add.len() ==> #[trigger] after.messages_to_add[i]
                == before.messages_to_add[i],
{
    match event {
        ReplyEvent::Item { cancelled, item } => {
            if !(cancelled || before.exit_chat) {
                lemma_item_keeps(before, item, now, after, step);
            }
        },
        ReplyEvent::Compacted(result) => {
            law_compaction_replaces_the_conversation(before, result, now, after, step);
        },
        ReplyEvent::RecipeChecked(result) => {
            law_recipes_start_over(before, result, now, after, step);
        },
        ReplyEvent::LookedAround { final_output, continuation, pending_steers, goal, grind } => {
            let s = choose|s: IdleStep|
                #[trigger] idled(
                    before,
                    final_output,
                    continuation@,
                    pending_steers,
                    goal,
                    grind,
                    now,
                    after,
                    s,
                ) && step == idle_step(s);
            assert(idled(
                before,
                final_output,
                continuation@,
                pending_steers,
                goal,
                grind,
                now,
                after,
                s,
            ));
        },
        _ => {},
    }
}

proof fn lemma_step_keeps(
    before: LoopModel,
    action: ReplyAction,
    event: ReplyEvent,
    now: i64,
    after: LoopModel,
    step: StepModel,
    start: nat,
    p: int,
    x: MessageModel,
)
    requires
        expects(action, event),
        moves(before, event, now, after, step),
        !step.history_replaced,
        0 <= p,
        kept_at(before, action, start, p, x),
    ensures
        kept_at(after, step.next, start, p, x),
{
    law_what_is_stored_is_remembered(before, event, now, after, step);
    if !(start + p < before.conversation.len() && says(before.conversation[start + p], x)) {
        if event is Gathered {
            let model = inference_opt(event->inference);
            assert(gathered_messages(before, now)[p] == before.messages_to_add[p]);
            assert(step.store[p] == crate::reply_loop::stamped_if_assistant(
                before.messages_to_add[p],
                model,
            ));
            assert(after.conversation[start + p] == step.store[p]);
        } else {
            lemma_waiting_keeps(before, event, now, after, step, action);
        }
    } else {
        assert(after.conversation[start + p] == before.conversation[start + p]);
    }
}

proof fn lemma_gathered_is_kept(
    states: Seq<LoopModel>,
    actions: Seq<ReplyAction>,
    events: Seq<ReplyEvent>,
    nows: Seq<i64>,
    steps: Seq<StepModel>,
    k: int,
    j: int,
    p: int,
)
    requires
        is_run(states, actions, events, nows, steps),
        0 <= k <= j <= events.len(),
        at_work(actions[k]),
        0 <= p < states[k].messages_to_add.len(),
        forall|i: int| k <= i < j ==> !(#[trigger] steps[i]).history_replaced,
    ensures
        kept_at(
            states[j],
            actions[j],
            states[k].conversation.len(),
            p,
            states[k].messages_to_add[p],
        ),
    decreases j - k,
{
    if k < j {
        lemma_gathered_is_kept(states, actions, events, nows, steps, k, j - 1, p);
        assert(run_step(states, actions, events, nows, steps, j - 1));
        assert(!steps[j - 1].history_replaced);
        lemma_step_keeps(
            states[j - 1],
            actions[j - 1],
            events[j - 1],
            nows[j - 1],
            states[j],
            steps[j - 1],
            states[k].conversation.len(),
            p,
            states[k].messages_to_add[p],
        );
    }
}

/// The provider sees what the tools it called came to: in every run, when it is asked after tools
/// ran, the conversation holds each readable request of that response with its answer right after
/// it, unless the conversation was replaced meanwhile.
pub proof fn law_tool_results_reach_the_provider(
    states: Seq<LoopModel>,
    actions: Seq<ReplyAction>,
    events: Seq<ReplyEvent>,
    nows: Seq<i64>,
    steps: Seq<StepModel>,
    k: int,
    j: int,
    r: int,
)
    requires
        is_run(states, actions, events, nows, steps),
        0 <= k < j <= events.len(),
        events[k] is ToolsRan,
        0 <= r < events[k]->open.requests@.len(),
        forall|i: int|
            0 <= i <= r ==> (#[trigger] events[k]->open.requests@[i]).tool_call is Ok,
        actions[j] == ReplyAction::Ask,
        forall|i: int| k <= i < j ==> !(#[trigger] steps[i]).history_replaced,
    ensures
        exists|p: int|
            {
                &&& 0 <= p < states[j].conversation.len() - 1
                &&& (#[trigger] states[j].conversation[p]).role
                    == crate::conversation::Role::Assistant
                &&& states[j].conversation[p].content.len() > 0
                &&& states[j].conversation[p].content.last()
                    == crate::conversation::ContentModel::ToolRequest(
                    events[k]->open.requests@[r]@,
                )
                &&& says(states[j].conversation[p + 1], events[k]->open.replies@[r]@)
            },
{
    assert(run_step(states, actions, events, nows, steps, k));
    let before = states[k];
    let after = states[k + 1];
    match events[k] {
        ReplyEvent::ToolsRan { response, open, thinking_id, ids, installs, failed } => {
            let reqs = requests(open.requests@);
            let replies = messages(open.replies@);
            let added = crate::reply_loop::with_thinking_message(
                response@,
                before.messages_to_add,
                thinking_id@,
            );
            let thinking = crate::reply_loop::response_thinking(response@, added);
            let pairs = crate::reply_loop::pairs_added(
                reqs,
                replies,
                texts(ids@),
                nows[k],
                thinking,
            );
            assert forall|i: int| 0 <= i <= r implies (#[trigger] reqs[i]).tool_call is Ok by {
                assert(events[k]->open.requests@[i].tool_call is Ok);
            }
            crate::reply_loop::law_requests_are_answered(
                reqs,
                replies,
                texts(ids@),
                nows[k],
                thinking,
                r,
            );
            let q = added.len() + 2 * r;
            assert(after.messages_to_add =~= added + pairs);
            assert(after.messages_to_add[q] == pairs[2 * r]);
            assert(after.messages_to_add[q + 1] == pairs[2 * r + 1]);
            lemma_gathered_is_kept(states, actions, events, nows, steps, k + 1, j, q);
            lemma_gathered_is_kept(states, actions, events, nows, steps, k + 1, j, q + 1);
            let p = after.conversation.len() + q;
            assert(says(states[j].conversation[p], pairs[2 * r]));
            assert(says(states[j].conversation[p + 1], pairs[2 * r + 1]));
            assert(0 <= p < states[j].conversation.len() - 1);
            assert(reqs[r] == open.requests@[r]@);
            assert(replies[r] == open.replies@[r]@);
        },
        _ => {},
    }
}

/// No answer of the provider is forgotten: once the work on an answer without tool requests is
/// over, the answer stands in the conversation, unless that was replaced meanwhile.
pub proof fn law_answers_are_remembered(
    states: Seq<LoopModel>,
    actions: Seq<ReplyAction>,
    events: Seq<ReplyEvent>,
    nows: Seq<i64>,
    steps: Seq<StepModel>,
    k: int,
    j: int,
)
    requires
        is_run(states, actions, events, nows, steps),
        0 <= k < j <= events.len(),
        !states[k].exit_chat,
        events[k] matches ReplyEvent::Item {
            cancelled: false,
            item: StreamItem::Response { requests, .. },
        } && requests == 0,
        !at_work(actions[j]),
        forall|i: int| k <= i < j ==> !(#[trigger] steps[i]).history_replaced,
    ensures
        exists|p: int|
            {
                &&& 0 <= p < states[j].conversation.len()
                &&& says(
                    #[trigger] states[j].conversation[p],
                    events[k]->item->response@,
                )
            },
{
    assert(run_step(states, actions, events, nows, steps, k));
    let q = states[k].messages_to_add.len() as int;
    assert(states[k + 1].messages_to_add[q] == events[k]->item->response@);
    lemma_gathered_is_kept(states, actions, events, nows, steps, k + 1, j, q);
    let p = states[k + 1].conversation.len() + q;
    assert(says(states[j].conversation[p], events[k]->item->response@));
}

/// Every response is shown as it came. Its tools run where it asks for some, and else the next
/// item is awaited.
pub proof fn law_responses_are_shown(
    before: LoopModel,
    shown: Message,
    response: Message,
    count: usize,
    text: String,
    now: i64,
    after: LoopModel,
    step: StepModel,
)
    requires
        !before.exit_chat,
        moves(
            before,
            (ReplyEvent::Item {
                cancelled: false,
                item: StreamItem::Response { shown, response, requests: count, text },
            }),
            now,
            after,
            step,
        ),
    ensures
        step.show == seq![shown@],
        step.store.len() == 0,
        count > 0 <==> step.next == ReplyAction::RunTools,
        count == 0 <==> step.next == ReplyAction::NextItem,
        after.compaction_attempts == 0,
        !after.exit_chat,
        after.no_tools_called == before.no_tools_called,
        count == 0 ==> after.last_assistant_text == before.last_assistant_text + text@,
        count > 0 ==> after.last_assistant_text == before.last_assistant_text
            && after.messages_to_add == before.messages_to_add,
{
}

/// A turn within the limit is taken, and none beyond it: there the user is told and the reply
/// leaves. A turn that a stop hook asked for is not counted.
pub proof fn law_turns_within_the_limit_are_taken(
    before: LoopModel,
    now: i64,
    after: LoopModel,
    step: StepModel,
)
    requires
        before.turns_taken < u32::MAX,
        moves(before, ReplyEvent::FinalOutput(None), now, after, step),
    ensures
        !before.retrying_after_stop_hook_denial ==> {
            &&& after.turns_taken == before.turns_taken + 1
            &&& before.turns_taken < before.max_turns <==> step.next == ReplyAction::Ask
            &&& before.turns_taken >= before.max_turns <==> step.next is Leave
        },
        before.retrying_after_stop_hook_denial ==> {
            &&& after.turns_taken == before.turns_taken
            &&& before.turns_taken <= before.max_turns <==> step.next == ReplyAction::Ask
            &&& before.turns_taken > before.max_turns <==> step.next is Leave
        },
        !after.retrying_after_stop_hook_denial,
        step.next == ReplyAction::Ask ==> step.show.len() == 0,
        step.next is Leave ==> step.show.len() == 1 && step.show[0].role
            == crate::conversation::Role::Assistant && step.show[0].user_visible,
        step.store.len() == 0,
        after.exit_chat == before.exit_chat,
{
    let t = choose|t: TurnStep|
        #[trigger] turn_counted(before, now, after, t) && step == turn_step(after, t);
    assert(turn_counted(before, now, after, t));
}

/// The stop hooks decide whether the turn ends: where they allow it the reply leaves and nothing
/// more is said; a denial within the cap goes into the conversation, hidden from the user, and the
/// work goes on; one beyond the cap is overridden, which is stored and shown.
pub proof fn law_stop_hooks_decide(
    before: LoopModel,
    decision: HookDecision,
    now: i64,
    after: LoopModel,
    step: StepModel,
)
    requires
        before.consecutive_stop_hook_blocks < u32::MAX,
        moves(before, ReplyEvent::StopDecision(decision), now, after, step),
    ensures
        decision is Allow ==> step.next is Leave && step.show.len() == 0 && step.store.len() == 0
            && after.consecutive_stop_hook_blocks == before.consecutive_stop_hook_blocks,
        decision is Deny ==> after.consecutive_stop_hook_blocks
            == before.consecutive_stop_hook_blocks + 1,
        decision is Deny && before.consecutive_stop_hook_blocks < before.stop_hook_block_cap ==> {
            &&& step.next == ReplyAction::Begin
            &&& after.retrying_after_stop_hook_denial
            &&& step.store.len() == 1
            &&& step.store[0].role == crate::conversation::Role::User
            &&& !step.store[0].user_visible
            &&& step.store[0].agent_visible
            &&& after.conversation == before.conversation.push(step.store[0])
            &&& step.show.len() == 1
            &&& step.show[0].user_visible
        },
        decision is Deny && before.consecutive_stop_hook_blocks >= before.stop_hook_block_cap ==> {
            &&& step.next is Leave
            &&& step.show.len() == 1
            &&& step.store == step.show
        },
        step.next is Leave ==> step.next == (ReplyAction::Leave { tell_stop_hook: false }),
{
    let v = choose|v: StopVerdict|
        #[trigger] stop_answered(before, decision@, now, after, v) && step == stop_step(after, v);
    assert(stop_answered(before, decision@, now, after, v));
}

/// A conversation that is too long is compacted, but not twice in a row: where the compacted one
/// is too long as well, the user is told. No other error compacts, and every error is shown.
pub proof fn law_too_long_conversations_are_compacted_once(
    before: LoopModel,
    error: ProviderError,
    display: String,
    now: i64,
    after: LoopModel,
    step: StepModel,
)
    requires
        !before.exit_chat,
        before.compaction_attempts < u32::MAX,
        moves(
            before,
            (ReplyEvent::Item { cancelled: false, item: StreamItem::Failed { error, display } }),
            now,
            after,
            step,
        ),
    ensures
        step.next == ReplyAction::Compact <==> error is ContextLengthExceeded
            && before.compaction_attempts == 0,
        step.next == ReplyAction::LookForHints <==> !(error is ContextLengthExceeded
            && before.compaction_attempts == 0),
        error is ContextLengthExceeded ==> after.compaction_attempts == before.compaction_attempts
            + 1,
        !(error is ContextLengthExceeded) ==> after.compaction_attempts
            == before.compaction_attempts,
        after.exit_chat <==> error is Refusal,
        step.show.len() >= 1,
        step.store.len() == 0,
        forall|i: int| 0 <= i < step.show.len() ==> (#[trigger] step.show[i]).user_visible,
        after.messages_to_add == before.messages_to_add,
        after.no_tools_called == before.no_tools_called,
{
    let e = choose|e: ErrorStep|
        #[trigger] error_taken(before, error, display@, now, after, e) && step == error_step(
            after,
            e,
        );
    assert(error_taken(before, error, display@, now, after, e));
}

/// A failed compaction is told and changes nothing; after a good one the provider is asked again,
/// with the shorter conversation.
pub proof fn law_compaction_replaces_the_conversation(
    before: LoopModel,
    result: Result<Vec<Message>, String>,
    now: i64,
    after: LoopModel,
    step: StepModel,
)
    requires
        moves(before, ReplyEvent::Compacted(result), now, after, step),
    ensures
        step.next == ReplyAction::LookForHints,
        result matches Ok(v) ==> after.conversation == messages(v@) && after.did_recovery_compact
            && step.history_replaced && step.show.len() == 0,
        result is Err ==> after == before && !step.history_replaced && step.show.len() == 1,
        after.exit_chat == before.exit_chat,
{
    let m = choose|m: Option<Message>|
        #[trigger] compaction_taken(before, result, now, after, m) && step == (StepModel {
            history_replaced: result is Ok,
            prepare: after.tools_updated,
            ..told_step(message_opt(m), ReplyAction::LookForHints)
        });
    assert(compaction_taken(before, result, now, after, m));
}

/// Why a reply decides to leave: the provider refused, a request could not be read, the final
/// output was given, or the recipe's checks are through. Nothing else decides so.
#[verifier::rlimit(60)]
pub proof fn law_why_a_reply_leaves(
    before: LoopModel,
    event: ReplyEvent,
    now: i64,
    after: LoopModel,
    step: StepModel,
)
    requires
        moves(before, event, now, after, step),
        !before.exit_chat,
    ensures
        after.exit_chat <==> match event {
            ReplyEvent::Item { cancelled, item: StreamItem::Failed { error, .. } } => !cancelled
                && error is Refusal,
            ReplyEvent::ToolsRan { open, .. } => exists|i: int|
                0 <= i < open.requests@.len() && (#[trigger] open.requests@[i]).tool_call is Err,
            ReplyEvent::LookedAround { final_output, .. } => before.no_tools_called
                && final_output matches Some(Some(_)),
            ReplyEvent::RecipeChecked(result) => !(result matches Ok(Some(_))),
            _ => false,
        },
{
    match event {
        ReplyEvent::FinalOutput(None) => {
            let t = choose|t: TurnStep|
                #[trigger] turn_counted(before, now, after, t) && step == turn_step(after, t);
            assert(turn_counted(before, now, after, t));
        },
        ReplyEvent::StopDecision(decision) => {
            let v = choose|v: StopVerdict|
                #[trigger] stop_answered(before, decision@, now, after, v) && step == stop_step(
                    after,
                    v,
                );
            assert(stop_answered(before, decision@, now, after, v));
        },
        ReplyEvent::ToolsRan { open, .. } => {
            let reqs = requests(open.requests@);
            assert forall|i: int| 0 <= i < reqs.len() implies (#[trigger] reqs[i]).tool_call is Err
                == open.requests@[i].tool_call is Err by {}
            if crate::reply_loop::has_unreadable(reqs) {
                let i = choose|i: int| 0 <= i < reqs.len() && (#[trigger] reqs[i]).tool_call is Err;
                assert(open.requests@[i].tool_call is Err);
            }
            if exists|i: int|
                0 <= i < open.requests@.len() && (#[trigger] open.requests@[i]).tool_call is Err {
                let i = choose|i: int|
                    0 <= i < open.requests@.len() && (#[trigger] open.requests@[i]).tool_call is Err;
                assert(reqs[i].tool_call is Err);
            }
        },
        ReplyEvent::Item { cancelled, item: StreamItem::Failed { error, display } } => {
            if !cancelled {
                let e = choose|e: ErrorStep|
                    #[trigger] error_taken(before, error, display@, now, after, e) && step
                        == error_step(after, e);
                assert(error_taken(before, error, display@, now, after, e));
            }
        },
        ReplyEvent::Compacted(result) => {
            law_compaction_replaces_the_conversation(before, result, now, after, step);
        },
        _ => {},
    }
}

/// A reply that has decided to leave asks the stop hooks once the iteration is over, unless a
/// steering message waits; one that has not begins another iteration.
pub proof fn law_leaving_asks_the_stop_hooks(
    before: LoopModel,
    inference: Option<Inference>,
    summarised: bool,
    pending_steers: bool,
    now: i64,
    after: LoopModel,
    step: StepModel,
)
    requires
        moves(
            before,
            (ReplyEvent::Gathered { inference, summarised, pending_steers }),
            now,
            after,
            step,
        ),
    ensures
        step.next == ReplyAction::AskStopHook <==> before.exit_chat && !pending_steers,
        step.next == ReplyAction::Begin <==> !before.exit_chat || pending_steers,
        after.messages_to_add.len() == 0,
        after.pending_final_output is None,
        before.pending_final_output matches Some(o) ==> {
            &&& after.last_assistant_text == o
            &&& step.show.len() == 1
            &&& step.show[0].content == seq![crate::conversation::text_content(o)]
            &&& step.store.len() == before.messages_to_add.len() + 1
            &&& step.store.last().content == step.show[0].content
        },
        before.pending_final_output is None ==> step.show.len() == 0 && step.store.len()
            == before.messages_to_add.len(),
        forall|i: int|
            0 <= i < before.messages_to_add.len() ==> says(
                #[trigger] step.store[i],
                before.messages_to_add[i],
            ),
        inference matches Some(x) ==> forall|i: int|
            0 <= i < step.store.len() && (#[trigger] step.store[i]).role
                == crate::conversation::Role::Assistant ==> step.store[i].inference == Some(x@),
{
    let model = inference_opt(inference);
    let gathered = gathered_messages(before, now);
    assert forall|i: int| 0 <= i < gathered.len() implies (#[trigger] step.store[i])
        == crate::reply_loop::stamped_if_assistant(gathered[i], model) by {}
}

/// A cancelled reply leaves when its next iteration begins, without another question; any other
/// goes on, and takes the steering messages first where it may.
pub proof fn law_cancelled_replies_leave(
    before: LoopModel,
    cancelled: bool,
    now: i64,
    after: LoopModel,
    step: StepModel,
)
    requires
        moves(before, (ReplyEvent::Began { cancelled }), now, after, step),
    ensures
        step.next is Leave <==> cancelled,
        !cancelled && before.can_drain_pending_steers <==> step.next == ReplyAction::DrainSteers,
        !cancelled && !before.can_drain_pending_steers <==> step.next
            == ReplyAction::TakeFinalOutput,
        step.show.len() == 0,
        step.store.len() == 0,
        after == before,
{
}

/// Each steering message is stored and shown as it came, before the final output is looked for.
pub proof fn law_steers_are_taken_in(
    before: LoopModel,
    v: Vec<Message>,
    now: i64,
    after: LoopModel,
    step: StepModel,
)
    requires
        moves(before, ReplyEvent::Drained(v), now, after, step),
    ensures
        step.store == messages(v@),
        step.show == messages(v@),
        after.conversation == before.conversation + messages(v@),
        step.next == ReplyAction::TakeFinalOutput,
{
}

/// A final output is the answer: it is stored and shown, the hooks are handed it, and they are
/// asked next.
pub proof fn law_final_output_is_the_answer(
    before: LoopModel,
    output: String,
    now: i64,
    after: LoopModel,
    step: StepModel,
)
    requires
        moves(before, ReplyEvent::FinalOutput(Some(output)), now, after, step),
    ensures
        step.next == ReplyAction::AskStopHook,
        after.last_assistant_text == output@,
        step.store.len() == 1,
        step.store[0].role == crate::conversation::Role::Assistant,
        step.store[0].content == seq![crate::conversation::text_content(output@)],
        step.show == step.store,
        after.conversation.last() == step.store[0],
{
}

/// A stream starts with nothing gathered and nothing decided, and the turns, the cap and the
/// conversation stay as they were.
pub proof fn law_streams_start_clean(
    before: LoopModel,
    now: i64,
    after: LoopModel,
    step: StepModel,
)
    requires
        moves(before, ReplyEvent::Opened, now, after, step),
    ensures
        after.messages_to_add.len() == 0,
        after.last_assistant_text.len() == 0,
        after.no_tools_called,
        !after.exit_chat,
        !after.tools_updated,
        !after.did_recovery_compact,
        after.pending_final_output is None,
        after.conversation == before.conversation,
        after.turns_taken == before.turns_taken,
        after.compaction_attempts == before.compaction_attempts,
        after.goal_check_pending == before.goal_check_pending,
        step.next == ReplyAction::NextItem,
        step.summarise == !before.tool_pair_summarization_done,
{
}

/// Nothing of an answer is looked at once the reply was cancelled or has decided to leave.
pub proof fn law_the_rest_of_an_answer_is_dropped(
    before: LoopModel,
    cancelled: bool,
    item: StreamItem,
    now: i64,
    after: LoopModel,
    step: StepModel,
)
    requires
        moves(before, (ReplyEvent::Item { cancelled, item }), now, after, step),
        cancelled || before.exit_chat,
    ensures
        after == before,
        step.next == ReplyAction::LookForHints,
        step.show.len() == 0,
        step.store.len() == 0,
{
}

/// After tools ran, their answers are shown, the next item is awaited, and the turn counts as one
/// with tools. New tools are listed where extensions were asked for and none of those calls
/// failed.
#[verifier::rlimit(60)]
pub proof fn law_tools_ran(
    before: LoopModel,
    event: ReplyEvent,
    now: i64,
    after: LoopModel,
    step: StepModel,
)
    requires
        event is ToolsRan,
        event->open.wf(),
        moves(before, event, now, after, step),
    ensures
        step.next == ReplyAction::NextItem,
        !after.no_tools_called,
        !after.goal_check_pending,
        step.save_extensions <==> event->installs@.len() > 0 && forall|i: int, f: int|
            0 <= i < event->installs@.len() && 0 <= f < event->failed@.len() ==> (
            #[trigger] event->installs@[i])@ != (#[trigger] event->failed@[f])@,
        after.tools_updated == (before.tools_updated || step.save_extensions),
        (forall|i: int|
            0 <= i < event->open.requests@.len() ==> (
            #[trigger] event->open.requests@[i]).tool_call is Ok) ==> step.show == messages(
            event->open.replies@,
        ),
        after.last_assistant_text == before.last_assistant_text,
{
    let open = event->open;
    let installs = texts(event->installs@);
    let failed = texts(event->failed@);
    let reqs = requests(open.requests@);
    let replies = messages(open.replies@);
    if forall|i: int| 0 <= i < open.requests@.len() ==> (#[trigger] open.requests@[i]).tool_call is Ok {
        assert forall|i: int| 0 <= i < reqs.len() implies (#[trigger] reqs[i]).tool_call is Ok by {
            assert(open.requests@[i].tool_call is Ok);
        }
        crate::reply_loop::law_readable_answers_are_shown(reqs, replies, now);
    }
    if installed(installs, failed) {
        assert forall|i: int, f: int|
            0 <= i < event->installs@.len() && 0 <= f < event->failed@.len() implies (
        #[trigger] event->installs@[i])@ != (#[trigger] event->failed@[f])@ by {
            assert(!failed.contains(installs[i]));
            assert(failed[f] == event->failed@[f]@);
        }
    }
    if event->installs@.len() > 0 && forall|i: int, f: int|
        0 <= i < event->installs@.len() && 0 <= f < event->failed@.len() ==> (
        #[trigger] event->installs@[i])@ != (#[trigger] event->failed@[f])@ {
        assert forall|i: int| 0 <= i < installs.len() implies !failed.contains(
            #[trigger] installs[i],
        ) by {
            if failed.contains(installs[i]) {
                let f = choose|f: int| 0 <= f < failed.len() && failed[f] == installs[i];
                assert(event->installs@[i]@ != event->failed@[f]@);
            }
        }
    }
}

/// What follows a turn without tools, in this order: a final output that is still owed, the final
/// output, a compaction, a steering message, a goal that was not checked since tools last ran, the
/// grind; only then the recipe's checks. A turn with tools, or one that decided to leave, changes
/// nothing here.
#[verifier::rlimit(60)]
pub proof fn law_what_follows_an_idle_turn(
    before: LoopModel,
    event: ReplyEvent,
    now: i64,
    after: LoopModel,
    step: StepModel,
)
    requires
        event is LookedAround,
        moves(before, event, now, after, step),
    ensures
        ({
            let idle = before.no_tools_called && !before.exit_chat;
            let owed = event->LookedAround_final_output == Some(None::<String>);
            let open = idle && event->LookedAround_final_output is None
                && !before.did_recovery_compact && !event->LookedAround_pending_steers;
            let goal_due = event->goal is Some && !before.goal_check_pending;
            &&& !idle ==> after == before && step.show.len() == 0 && step.next
                == ReplyAction::Gather
            &&& idle && owed ==> {
                &&& step.next == ReplyAction::Gather
                &&& after.messages_to_add.len() == before.messages_to_add.len() + 1
                &&& step.show == seq![after.messages_to_add.last()]
                &&& after.messages_to_add.last().role == crate::conversation::Role::User
                &&& after.messages_to_add.last().content == seq![
                    crate::conversation::text_content(event->continuation@),
                ]
            }
            &&& idle ==> (event->LookedAround_final_output matches Some(Some(o)) ==> {
                &&& after.pending_final_output == Some(o@)
                &&& after.exit_chat
                &&& step.next == ReplyAction::Gather
            })
            &&& step.next == ReplyAction::CheckRecipe <==> open && !goal_due && event->grind is None
            &&& open && goal_due ==> {
                &&& after.goal_check_pending
                &&& after.messages_to_add.len() == before.messages_to_add.len() + 1
                &&& after.messages_to_add.last().role == crate::conversation::Role::User
                &&& after.messages_to_add.last().agent_visible
                &&& !after.messages_to_add.last().user_visible
                &&& step.show.len() == 1
            }
            &&& open && !goal_due && event->grind is Some ==> {
                &&& after.goal_check_pending == before.goal_check_pending
                &&& after.messages_to_add.len() == before.messages_to_add.len() + 1
                &&& after.messages_to_add.last().role == crate::conversation::Role::User
                &&& after.messages_to_add.last().agent_visible
                &&& !after.messages_to_add.last().user_visible
                &&& step.show.len() == 1
            }
            &&& idle && event->LookedAround_final_output is None && !open ==> after == before
                && step.show.len() == 0 && step.next == ReplyAction::Gather
            &&& after.messages_to_add.take(before.messages_to_add.len() as int)
                == before.messages_to_add
        }),
{
    let final_output = event->LookedAround_final_output;
    let s = choose|s: IdleStep|
        #[trigger] idled(
            before,
            final_output,
            event->continuation@,
            event->LookedAround_pending_steers,
            event->goal,
            event->grind,
            now,
            after,
            s,
        ) && step == idle_step(s);
    assert(idled(
        before,
        final_output,
        event->continuation@,
        event->LookedAround_pending_steers,
        event->goal,
        event->grind,
        now,
        after,
        s,
    ));
    assert(after.messages_to_add.take(before.messages_to_add.len() as int)
        =~= before.messages_to_add);
}

/// Where the recipe's checks ask for another try, the reply starts over with the conversation that
/// they gave and what was gathered is dropped; else the reply leaves, and an error is told.
pub proof fn law_recipes_start_over(
    before: LoopModel,
    result: Result<Option<Vec<Message>>, String>,
    now: i64,
    after: LoopModel,
    step: StepModel,
)
    requires
        moves(before, ReplyEvent::RecipeChecked(result), now, after, step),
    ensures
        step.next == ReplyAction::Gather,
        result matches Ok(Some(v)) ==> after.conversation == messages(v@)
            && after.messages_to_add.len() == 0 && after.exit_chat == before.exit_chat
            && step.show.len() == 0,
        !(result matches Ok(Some(_))) ==> after.exit_chat && after.conversation
            == before.conversation && after.messages_to_add == before.messages_to_add,
        step.show.len() == if result is Err {
            1nat
        } else {
            0nat
        },
{
    let m = choose|m: Option<Message>|
        #[trigger] recipe_checked(before, result, now, after, m) && step == (StepModel {
            store: Seq::empty(),
            history_replaced: result matches Ok(Some(_)),
            ..told_step(message_opt(m), ReplyAction::Gather)
        });
    assert(recipe_checked(before, result, now, after, m));
}

/// After hints were looked for, steering messages may be taken, and the final output is taken only
/// where the turn had no tools and the reply is not leaving.
pub proof fn law_hints_come_before_the_look_around(
    before: LoopModel,
    new_hints: bool,
    now: i64,
    after: LoopModel,
    step: StepModel,
)
    requires
        moves(before, ReplyEvent::Hints(new_hints), now, after, step),
    ensures
        step.next == ReplyAction::LookAround,
        after.can_drain_pending_steers,
        step.take_output <==> before.no_tools_called && !before.exit_chat,
        step.prepare <==> new_hints && !before.tools_updated,
        after.messages_to_add == before.messages_to_add,
        after.exit_chat == before.exit_chat,
        step.show.len() == 0,
{
}

proof fn lemma_stop_hooks_unhandled(
    states: Seq<LoopModel>,
    actions: Seq<ReplyAction>,
    events: Seq<ReplyEvent>,
    nows: Seq<i64>,
    steps: Seq<StepModel>,
    n: int,
)
    requires
        is_run(states, actions, events, nows, steps),
        !states[0].stop_hook_handled_for_exit,
        0 <= n <= events.len(),
        !(actions[n] is Leave),
    ensures
        !states[n].stop_hook_handled_for_exit,
    decreases n,
{
    if n > 0 {
        assert(run_step(states, actions, events, nows, steps, n - 1));
        assert(!(actions[n - 1] is Leave));
        lemma_stop_hooks_unhandled(states, actions, events, nows, steps, n - 1);
        let before = states[n - 1];
        let after = states[n];
        let now = nows[n - 1];
        let step = steps[n - 1];
        match events[n - 1] {
            ReplyEvent::FinalOutput(None) => {
                let t = choose|t: TurnStep|
                    #[trigger] turn_counted(before, now, after, t) && step == turn_step(after, t);
                assert(turn_counted(before, now, after, t));
            },
            ReplyEvent::StopDecision(decision) => {
                let v = choose|v: StopVerdict|
                    #[trigger] stop_answered(before, decision@, now, after, v) && step == stop_step(
                        after,
                        v,
                    );
                assert(stop_answered(before, decision@, now, after, v));
            },
            ReplyEvent::Item { cancelled, item: StreamItem::Failed { error, display } } => {
                if !cancelled && !before.exit_chat {
                    let e = choose|e: ErrorStep|
                        #[trigger] error_taken(before, error, display@, now, after, e) && step
                            == error_step(after, e);
                    assert(error_taken(before, error, display@, now, after, e));
                }
            },
            ReplyEvent::Compacted(result) => {
                law_compaction_replaces_the_conversation(before, result, now, after, step);
            },
            ReplyEvent::RecipeChecked(result) => {
                law_recipes_start_over(before, result, now, after, step);
            },
            _ => {},
        }
    }
}

/// The stop hooks hear of every reply that ends exactly once: they are told on leaving where they
/// did not decide it themselves.
pub proof fn law_stop_hooks_hear_once(
    states: Seq<LoopModel>,
    actions: Seq<ReplyAction>,
    events: Seq<ReplyEvent>,
    nows: Seq<i64>,
    steps: Seq<StepModel>,
    k: int,
)
    requires
        is_run(states, actions, events, nows, steps),
        !states[0].stop_hook_handled_for_exit,
        0 <= k < events.len(),
        actions[k + 1] is Leave,
    ensures
        actions[k + 1] == (ReplyAction::Leave {
            tell_stop_hook: !(events[k] is StopDecision),
        }),
{
    assert(run_step(states, actions, events, nows, steps, k));
    assert(!(actions[k] is Leave));
    lemma_stop_hooks_unhandled(states, actions, events, nows, steps, k);
    match events[k] {
        ReplyEvent::FinalOutput(None) => {
            let t = choose|t: TurnStep|
                #[trigger] turn_counted(states[k], nows[k], states[k + 1], t) && steps[k]
                    == turn_step(states[k + 1], t);
            assert(turn_counted(states[k], nows[k], states[k + 1], t));
        },
        ReplyEvent::StopDecision(decision) => {
            law_stop_hooks_decide(states[k], decision, nows[k], states[k + 1], steps[k]);
        },
        _ => {},
    }
}

/// Whether a message says a text.
pub open spec fn tells(m: MessageModel, part: Seq<char>) -> bool {
    m.content.len() == 1 && match m.content[0] {
        crate::conversation::ContentModel::Text { text, .. } => has_text(text, part),
        crate::conversation::ContentModel::SystemNotification { text, .. } => has_text(text, part),
        _ => false,
    }
}

/// What is said holds what it is about: a denied stop the plugin and, for the model, the reason; a
/// goal that is checked, the goal, and so the work that goes on; an unread request or a failed check
/// the error.
pub proof fn law_what_is_said_names_its_cause(
    before: LoopModel,
    event: ReplyEvent,
    now: i64,
    after: LoopModel,
    step: StepModel,
)
    requires
        before.consecutive_stop_hook_blocks < u32::MAX,
        moves(before, event, now, after, step),
    ensures
        event matches ReplyEvent::StopDecision(HookDecision::Deny { reason, plugin }) ==> {
            &&& tells(step.show[0], plugin@)
            &&& step.next == ReplyAction::Begin ==> tells(step.store[0], reason@) && tells(
                step.store[0],
                plugin@,
            )
        },
        event matches ReplyEvent::LookedAround { goal, grind, .. } ==> {
            &&& after.goal_check_pending && !before.goal_check_pending ==> goal is Some && tells(
                after.messages_to_add.last(),
                goal->0@,
            ) && tells(step.show[0], goal->0@)
            &&& after.messages_to_add.len() > before.messages_to_add.len()
                && after.goal_check_pending == before.goal_check_pending
                && event->LookedAround_final_output is None ==> grind is Some && tells(
                after.messages_to_add.last(),
                grind->0@,
            ) && tells(step.show[0], grind->0@)
        },
        event matches ReplyEvent::RecipeChecked(Err(e)) ==> tells(step.show[0], e@),
        event matches ReplyEvent::Compacted(Err(e)) ==> tells(step.show[0], e@),
{
    match event {
        ReplyEvent::StopDecision(decision) => {
            let v = choose|v: StopVerdict|
                #[trigger] stop_answered(before, decision@, now, after, v) && step == stop_step(
                    after,
                    v,
                );
            assert(stop_answered(before, decision@, now, after, v));
            if let HookDecision::Deny { reason, plugin } = decision {
                crate::agent::law_denied_stops_are_told(
                    now,
                    plugin@,
                    reason@,
                    before.stop_hook_block_cap,
                );
            }
        },
        ReplyEvent::LookedAround { final_output, continuation, pending_steers, goal, grind } => {
            let s = choose|s: IdleStep|
                #[trigger] idled(
                    before,
                    final_output,
                    continuation@,
                    pending_steers,
                    goal,
                    grind,
                    now,
                    after,
                    s,
                ) && step == idle_step(s);
            assert(idled(
                before,
                final_output,
                continuation@,
                pending_steers,
                goal,
                grind,
                now,
                after,
                s,
            ));
            if let Some(g) = goal {
                crate::reply_loop::law_nudges_hold_the_goal(g@);
                lemma_has_text("Goal: "@, g@, Seq::empty());
            }
            if let Some(g) = grind {
                crate::reply_loop::law_nudges_hold_the_goal(g@);
                lemma_has_text("Grind: "@, g@, Seq::empty());
            }
        },
        ReplyEvent::RecipeChecked(result) => {
            let m = choose|m: Option<Message>|
                #[trigger] recipe_checked(before, result, now, after, m) && step == (StepModel {
                    store: Seq::empty(),
                    history_replaced: result matches Ok(Some(_)),
                    ..told_step(message_opt(m), ReplyAction::Gather)
                });
            assert(recipe_checked(before, result, now, after, m));
            if let Err(e) = result {
                lemma_has_text("Retry logic encountered an error: "@, e@, Seq::empty());
            }
        },
        ReplyEvent::Compacted(result) => {
            let m = choose|m: Option<Message>|
                #[trigger] compaction_taken(before, result, now, after, m) && step == (StepModel {
                    history_replaced: result is Ok,
                    prepare: after.tools_updated,
                    ..told_step(message_opt(m), ReplyAction::LookForHints)
                });
            assert(compaction_taken(before, result, now, after, m));
            if let Err(e) = result {
                crate::reply_loop::law_nudges_hold_the_goal(e@);
            }
        },
        _ => {},
    }
}

/// What is shown before it is stored: the final output and what an iteration gathered; all else is
/// stored first.
pub proof fn law_what_is_shown_first(
    before: LoopModel,
    event: ReplyEvent,
    now: i64,
    after: LoopModel,
    step: StepModel,
)
    requires
        moves(before, event, now, after, step),
    ensures
        step.show_first <==> event is Gathered || (event matches ReplyEvent::FinalOutput(Some(_))),
        step.save_extensions ==> event is ToolsRan,
        step.summarise ==> event is Opened,
        step.take_output ==> event is Hints,
{
    match event {
        ReplyEvent::Item { cancelled, item } => {},
        _ => {},
    }
}

/// The requests for extensions are those that call the tool that manages them, each by its id.
pub proof fn law_installs_are_found(reqs: Seq<RequestModel>, name: Seq<char>, k: int)
    ensures
        0 <= k < reqs.len() && (reqs[k].tool_call matches Ok(c) && c.name == name) ==> install_ids(
            reqs,
            name,
        ).contains(reqs[k].id),
        (forall|i: int|
            0 <= i < reqs.len() ==> !((#[trigger] reqs[i]).tool_call matches Ok(c) && c.name
                == name)) ==> install_ids(reqs, name).len() == 0,
    decreases reqs.len(),
{
    if reqs.len() > 0 {
        let front = reqs.drop_last();
        law_installs_are_found(front, name, k);
        if 0 <= k < reqs.len() {
            crate::seqs::lemma_contains_push(
                install_ids(front, name),
                reqs.last().id,
                reqs[k].id,
            );
            if k < front.len() {
                assert(front[k] == reqs[k]);
            }
        }
        if forall|i: int|
            0 <= i < reqs.len() ==> !((#[trigger] reqs[i]).tool_call matches Ok(c) && c.name
                == name) {
            assert(reqs[reqs.len() - 1] == reqs.last());
            assert forall|i: int| 0 <= i < front.len() implies !((
            #[trigger] front[i]).tool_call matches Ok(c) && c.name == name) by {
                assert(front[i] == reqs[i]);
            }
        }
    }
}

} // verus!
