//! The agent: tool categories, stop hooks, steering messages, and frontend extensions.

use crate::conversation::{
    copy_messages, messages, notice, text_message, Message, MessageModel, NotificationKind, Role,
};
use crate::hooks::{event_name, HookContext, HookEvent};
use crate::json::{Json, Tree};
use crate::text::{
    after_last, after_last_of, cat, cat3, cat5, decimal, decimal_of, has_text, join, joined, last_at,
    lemma_has_text, occurs_at, str_eq,
    text_opt, texts,
};
use crate::tools::Tool;
use vstd::prelude::*;
use vstd::string::*;

verus! {

// ---------------------------------------------------------------------------
// Platforms
// ---------------------------------------------------------------------------

/// The turns that a reply may take where nothing else is set.
pub const DEFAULT_MAX_TURNS: u32 = 1000;

/// How often a stop hook may keep a turn from ending where nothing else is set.
pub const DEFAULT_STOP_HOOK_BLOCK_CAP: u32 = 8;

/// Where the agent runs.
#[derive(Clone, Copy, PartialEq, Eq, Structural, Debug)]
pub enum GoosePlatform {
    GooseDesktop,
    GooseCli,
}

pub open spec fn platform_name(p: GoosePlatform) -> Seq<char> {
    match p {
        GoosePlatform::GooseCli => "goose-cli"@,
        GoosePlatform::GooseDesktop => "goose-desktop"@,
    }
}

impl GoosePlatform {
    /// The name by which the platform is known to servers.
    pub fn name(&self) -> (r: &'static str)
        ensures
            r@ == platform_name(*self),
    {
        match self {
            GoosePlatform::GooseCli => "goose-cli",
            GoosePlatform::GooseDesktop => "goose-desktop",
        }
    }
}

/// Whether commands see the search path of a login shell.
pub open spec fn uses_login_shell_path(explicit: Option<bool>, platform: GoosePlatform) -> bool {
    match explicit {
        Some(b) => b,
        None => platform == GoosePlatform::GooseDesktop,
    }
}

/// What is set counts; else the desktop, which no shell has started, uses the path of one.
pub proof fn law_the_desktop_uses_the_login_path(explicit: Option<bool>, platform: GoosePlatform)
    ensures
        explicit matches Some(b) ==> uses_login_shell_path(explicit, platform) == b,
        uses_login_shell_path(None, GoosePlatform::GooseDesktop),
        !uses_login_shell_path(None, GoosePlatform::GooseCli),
{
}

/// Whether commands see the search path of a login shell: as set, else on the desktop only.
pub fn resolve_use_login_shell_path(explicit: Option<bool>, platform: &GoosePlatform) -> (r: bool)
    ensures
        r == uses_login_shell_path(explicit, *platform),
{
    match explicit {
        Some(b) => b,
        None => *platform == GoosePlatform::GooseDesktop,
    }
}

/// What the host of the agent said of itself.
#[derive(Debug, PartialEq, Eq)]
pub struct GooseMcpHostInfo {
    pub client_name: Option<String>,
    pub explicit_extensions: bool,
    pub mcpui_enabled: bool,
}

/// What the host can show.
#[derive(Debug, PartialEq, Eq)]
pub struct ExtensionManagerCapabilities {
    pub mcpui: bool,
    pub host_info: Option<GooseMcpHostInfo>,
}

impl ExtensionManagerCapabilities {
    /// The capabilities of an agent: a host that lists its extensions says whether it shows app
    /// interfaces; of any other, the desktop does.
    pub fn for_agent(host_info: Option<GooseMcpHostInfo>, platform: GoosePlatform) -> (r: Self)
        ensures
            r.host_info == host_info,
            r.mcpui == match host_info {
                Some(h) => if h.explicit_extensions {
                    h.mcpui_enabled
                } else {
                    platform == GoosePlatform::GooseDesktop
                },
                None => platform == GoosePlatform::GooseDesktop,
            },
    {
        let mcpui = match &host_info {
            Some(h) => if h.explicit_extensions {
                h.mcpui_enabled
            } else {
                platform == GoosePlatform::GooseDesktop
            },
            None => platform == GoosePlatform::GooseDesktop,
        };
        ExtensionManagerCapabilities { mcpui, host_info }
    }
}

/// The name that the agent gives to servers: the host's, where it gave one, else the platform's.
pub fn client_name(host_info: &Option<GooseMcpHostInfo>, platform: GoosePlatform) -> (r: String)
    ensures
        r@ == match *host_info {
            Some(h) => match h.client_name {
                Some(n) => n@,
                None => platform_name(platform),
            },
            None => platform_name(platform),
        },
{
    match host_info {
        Some(h) => match &h.client_name {
            Some(n) => n.clone(),
            None => platform.name().to_owned(),
        },
        None => platform.name().to_owned(),
    }
}

// ---------------------------------------------------------------------------
// Tool categories
// ---------------------------------------------------------------------------

/// What kind of thing a tool does, by its name.
#[derive(Clone, Copy, PartialEq, Eq, Structural, Debug)]
pub enum ToolCategory {
    Shell,
    Read,
    Write,
    Other,
}

/// The category of the part of a tool's name that follows the last `__`.
pub open spec fn category_of(local: Seq<char>) -> ToolCategory {
    if local == "shell"@ || local == "bash"@ || local == "exec"@ || local == "run"@ {
        ToolCategory::Shell
    } else if local == "read"@ || local == "view"@ || local == "cat"@ || local == "read_file"@ {
        ToolCategory::Read
    } else if local == "write"@ || local == "edit"@ || local == "patch"@ || local == "write_file"@
        || local == "edit_file"@ {
        ToolCategory::Write
    } else {
        ToolCategory::Other
    }
}

pub fn categorize_tool(tool_name: &str) -> (r: ToolCategory)
    ensures
        r == category_of(after_last_of(tool_name@, "__"@)),
{
    let local = after_last(tool_name, "__");
    let l = local.as_str();
    if str_eq(l, "shell") || str_eq(l, "bash") || str_eq(l, "exec") || str_eq(l, "run") {
        ToolCategory::Shell
    } else if str_eq(l, "read") || str_eq(l, "view") || str_eq(l, "cat") || str_eq(
        l,
        "read_file",
    ) {
        ToolCategory::Read
    } else if str_eq(l, "write") || str_eq(l, "edit") || str_eq(l, "patch") || str_eq(
        l,
        "write_file",
    ) || str_eq(l, "edit_file") {
        ToolCategory::Write
    } else {
        ToolCategory::Other
    }
}

/// The texts of some string slices.
pub open spec fn slice_texts(v: Seq<&str>) -> Seq<Seq<char>> {
    Seq::new(v.len(), |i: int| v[i]@)
}

/// The text of the first of the members `keys` that is a string and not empty.
pub open spec fn first_text(input: Tree, keys: Seq<Seq<char>>) -> Option<Seq<char>>
    decreases keys.len(),
{
    if keys.len() == 0 {
        None
    } else {
        match input.get_text(keys[0]) {
            Some(s) => if s.len() > 0 {
                Some(s)
            } else {
                first_text(input, keys.skip(1))
            },
            None => first_text(input, keys.skip(1)),
        }
    }
}

/// The text of the first of the members `keys` that is a string and not empty.
pub fn extract_string_arg(input: &Json, keys: &[&str]) -> (r: Option<String>)
    ensures
        text_opt(r) == first_text(input@, slice_texts(keys@)),
{
    let ghost all = slice_texts(keys@);
    let mut i: usize = 0;
    assert(all.skip(0) =~= all);
    while i < keys.len()
        invariant
            all == slice_texts(keys@),
            i <= keys@.len(),
            first_text(input@, all) == first_text(input@, all.skip(i as int)),
        decreases keys@.len() - i,
    {
        assert(all.skip(i as int)[0] == keys@[i as int]@);
        assert(all.skip(i as int).skip(1) =~= all.skip(i + 1));
        if let Some(s) = input.get_str(keys[i]) {
            if !s.is_empty() {
                return Some(s.to_owned());
            }
        }
        i = i + 1;
    }
    None
}

pub open spec fn path_keys() -> Seq<Seq<char>> {
    seq!["path"@, "file"@, "file_path"@]
}

/// The text of `command`, where it is a string and not empty.
fn command_arg(input: &Json) -> (r: Option<String>)
    ensures
        text_opt(r) == first_text(input@, seq!["command"@]),
{
    let keys: [&str; 1] = ["command"];
    assert(slice_texts(keys@) =~= seq!["command"@]);
    extract_string_arg(input, &keys)
}

/// The text of the first member that names a file.
fn path_arg(input: &Json) -> (r: Option<String>)
    ensures
        text_opt(r) == first_text(input@, path_keys()),
{
    let keys: [&str; 3] = ["path", "file", "file_path"];
    assert(slice_texts(keys@) =~= path_keys());
    extract_string_arg(input, &keys)
}

/// The further event before a tool call, with what its patterns are tested on: the command of a
/// shell, the path of a file that is read.
pub open spec fn extended_before(tool_name: Seq<char>, input: Option<Tree>) -> Option<
    (HookEvent, Seq<char>),
> {
    match (category_of(after_last_of(tool_name, "__"@)), input) {
        (ToolCategory::Shell, Some(v)) => match first_text(v, seq!["command"@]) {
            Some(s) => Some((HookEvent::BeforeShellExecution, s)),
            None => None,
        },
        (ToolCategory::Read, Some(v)) => match first_text(v, path_keys()) {
            Some(s) => Some((HookEvent::BeforeReadFile, s)),
            None => None,
        },
        _ => None,
    }
}

/// The further event after a tool call that went well: the command of a shell, the path of a
/// file that was written.
pub open spec fn extended_after(tool_name: Seq<char>, input: Option<Tree>) -> Option<
    (HookEvent, Seq<char>),
> {
    match (category_of(after_last_of(tool_name, "__"@)), input) {
        (ToolCategory::Shell, Some(v)) => match first_text(v, seq!["command"@]) {
            Some(s) => Some((HookEvent::AfterShellExecution, s)),
            None => None,
        },
        (ToolCategory::Write, Some(v)) => match first_text(v, path_keys()) {
            Some(s) => Some((HookEvent::AfterFileEdit, s)),
            None => None,
        },
        _ => None,
    }
}

pub open spec fn event_opt(o: Option<(HookEvent, String)>) -> Option<(HookEvent, Seq<char>)> {
    match o {
        Some(p) => Some((p.0, p.1@)),
        None => None,
    }
}

/// The further event before a tool call.
pub fn pre_tool_extended(tool_name: &str, input: Option<&Json>) -> (r: Option<
    (HookEvent, String),
>)
    ensures
        event_opt(r) == extended_before(tool_name@, crate::json::tree_ref(input)),
{
    match (categorize_tool(tool_name), input) {
        (ToolCategory::Shell, Some(v)) => match command_arg(v) {
            Some(s) => Some((HookEvent::BeforeShellExecution, s)),
            None => None,
        },
        (ToolCategory::Read, Some(v)) => match path_arg(v) {
            Some(s) => Some((HookEvent::BeforeReadFile, s)),
            None => None,
        },
        _ => None,
    }
}

/// The further event after a tool call that went well.
pub fn post_tool_extended(tool_name: &str, input: Option<&Json>) -> (r: Option<
    (HookEvent, String),
>)
    ensures
        event_opt(r) == extended_after(tool_name@, crate::json::tree_ref(input)),
{
    match (categorize_tool(tool_name), input) {
        (ToolCategory::Shell, Some(v)) => match command_arg(v) {
            Some(s) => Some((HookEvent::AfterShellExecution, s)),
            None => None,
        },
        (ToolCategory::Write, Some(v)) => match path_arg(v) {
            Some(s) => Some((HookEvent::AfterFileEdit, s)),
            None => None,
        },
        _ => None,
    }
}

/// The event after a tool call.
pub open spec fn event_after_call(succeeded: bool, is_error: Option<bool>) -> HookEvent {
    if succeeded && is_error != Some(true) {
        HookEvent::PostToolUse
    } else {
        HookEvent::PostToolUseFailure
    }
}

/// A call counts as failed where it failed, or where its output says so; no other does.
pub proof fn law_failed_calls_are_told(succeeded: bool, is_error: Option<bool>)
    ensures
        event_after_call(succeeded, is_error) == HookEvent::PostToolUseFailure <==> !succeeded
            || is_error == Some(true),
        event_after_call(succeeded, is_error) == HookEvent::PostToolUse <==> succeeded && is_error
            != Some(true),
{
}

/// The event after a tool call: of a failure where the call failed or its output says so.
pub fn post_tool_event(succeeded: bool, is_error: Option<bool>) -> (r: HookEvent)
    ensures
        r == event_after_call(succeeded, is_error),
{
    let failed = match is_error {
        Some(b) => b,
        None => false,
    };
    if succeeded && !failed {
        HookEvent::PostToolUse
    } else {
        HookEvent::PostToolUseFailure
    }
}

/// The context of an event of a tool call.
pub fn tool_context(
    event: HookEvent,
    session_id: &str,
    tool_name: &str,
    tool_input: Option<Json>,
    working_dir: &str,
) -> (r: HookContext)
    ensures
        r.event@ == event_name(event),
        r.session_id@ == session_id@,
        text_opt(r.matcher_context) == Some(tool_name@),
        text_opt(r.tool_name) == Some(tool_name@),
        r.tool_input == tool_input,
        r.tool_output is None,
        r.message is None,
        r.last_assistant_message is None,
        text_opt(r.working_dir) == Some(working_dir@),
{
    HookContext::new(event, session_id.to_owned()).with_tool(
        tool_name.to_owned(),
        tool_input,
    ).with_working_dir(working_dir.to_owned())
}

/// The context of a further event of a tool call: patterns are tested on `matcher`.
pub fn extended_context(
    event: HookEvent,
    session_id: &str,
    matcher: String,
    tool_name: &str,
    tool_input: Option<Json>,
    working_dir: &str,
) -> (r: HookContext)
    ensures
        r.event@ == event_name(event),
        r.session_id@ == session_id@,
        r.matcher_context == Some(matcher),
        text_opt(r.tool_name) == Some(tool_name@),
        r.tool_input == tool_input,
        r.tool_output is None,
        r.message is None,
        r.last_assistant_message is None,
        text_opt(r.working_dir) == Some(working_dir@),
{
    let mut ctx = tool_context(event, session_id, tool_name, tool_input, working_dir);
    ctx.matcher_context = Some(matcher);
    ctx
}

/// The context of the event that ends a turn.
pub fn stop_hook_context(session_id: &str, last_assistant_message: &str) -> (r: HookContext)
    ensures
        r.event@ == event_name(HookEvent::Stop),
        r.session_id@ == session_id@,
        text_opt(r.last_assistant_message) == if last_assistant_message@.len() > 0 {
            Some(last_assistant_message@)
        } else {
            None
        },
        r.matcher_context is None,
        r.tool_name is None,
        r.tool_input is None,
        r.tool_output is None,
        r.message is None,
        r.working_dir is None,
{
    HookContext::new(HookEvent::Stop, session_id.to_owned()).with_last_assistant_message(
        last_assistant_message.to_owned(),
    )
}

// ---------------------------------------------------------------------------
// Stop hooks
// ---------------------------------------------------------------------------

/// How often a stop hook may keep a turn from ending.
pub fn stop_hook_block_cap(configured: Option<u32>) -> (r: u32)
    ensures
        r == match configured {
            Some(n) => n,
            None => DEFAULT_STOP_HOOK_BLOCK_CAP,
        },
{
    match configured {
        Some(n) => n,
        None => DEFAULT_STOP_HOOK_BLOCK_CAP,
    }
}

pub open spec fn denial_context_text(plugin: Seq<char>, reason: Seq<char>) -> Seq<char> {
    "Stop hook `"@ + plugin + "` blocked ending this turn:\n\n"@ + reason
        + "\n\nAddress this policy hook denial before trying to stop again."@
}

pub open spec fn denial_context(created: i64, plugin: Seq<char>, reason: Seq<char>) -> MessageModel {
    text_message(Role::User, created, denial_context_text(plugin, reason)).with_visibility(
        false,
        true,
    )
}

pub open spec fn denial_notice(created: i64, plugin: Seq<char>) -> MessageModel {
    notice(
        created,
        NotificationKind::InlineMessage,
        "Stop hook `"@ + plugin + "` blocked ending this turn."@,
    )
}

pub open spec fn cap_warning(created: i64, plugin: Seq<char>, cap: u32) -> MessageModel {
    notice(
        created,
        NotificationKind::InlineMessage,
        "Stop hook `"@ + plugin + "` blocked the turn from ending more than "@ + decimal(cap as nat)
            + " consecutive times — overriding and ending turn to avoid an infinite loop. Set GOOSE_STOP_HOOK_BLOCK_CAP to raise this limit."@,
    )
}

/// What the model is told when a stop hook keeps the turn from ending. The user does not see it.
pub fn stop_hook_denial_context_message(created: i64, plugin: &str, reason: &str) -> (r: Message)
    ensures
        r@ == denial_context(created, plugin@, reason@),
{
    let nudge = cat5(
        "Stop hook `",
        plugin,
        "` blocked ending this turn:\n\n",
        reason,
        "\n\nAddress this policy hook denial before trying to stop again.",
    );
    Message::text(Role::User, created, nudge).with_visibility(false, true)
}

/// What the user is told when a stop hook keeps the turn from ending.
pub fn stop_hook_denial_notification(created: i64, plugin: &str) -> (r: Message)
    ensures
        r@ == denial_notice(created, plugin@),
{
    Message::notification(
        created,
        NotificationKind::InlineMessage,
        cat3("Stop hook `", plugin, "` blocked ending this turn."),
    )
}

/// What the user is told when a stop hook is overridden.
pub fn stop_hook_block_cap_warning(created: i64, plugin: &str, cap: u32) -> (r: Message)
    ensures
        r@ == cap_warning(created, plugin@, cap),
{
    let n = decimal_of(cap as u64);
    Message::notification(
        created,
        NotificationKind::InlineMessage,
        cat5(
            "Stop hook `",
            plugin,
            "` blocked the turn from ending more than ",
            n.as_str(),
            " consecutive times — overriding and ending turn to avoid an infinite loop. Set GOOSE_STOP_HOOK_BLOCK_CAP to raise this limit.",
        ),
    )
}

// ---------------------------------------------------------------------------
// Steering messages
// ---------------------------------------------------------------------------

/// The messages that wait for one session.
#[derive(Debug, PartialEq, Eq)]
pub struct SteerQueue {
    pub session_id: String,
    pub messages: Vec<Message>,
}

/// The messages that wait to steer a running reply, by session.
#[derive(Debug, PartialEq, Eq)]
pub struct PendingSteers {
    pub queues: Vec<SteerQueue>,
}

/// The messages that wait for a session.
pub open spec fn queued(queues: Seq<SteerQueue>, session: Seq<char>) -> Seq<MessageModel>
    decreases queues.len(),
{
    if queues.len() == 0 {
        Seq::empty()
    } else if queues[0].session_id@ == session {
        messages(queues[0].messages@)
    } else {
        queued(queues.skip(1), session)
    }
}

/// A message that came as a steering message.
pub open spec fn as_steer(m: MessageModel) -> MessageModel {
    MessageModel { steer: true, ..m }
}

/// The messages as they come out of a queue.
pub open spec fn steers(v: Seq<MessageModel>) -> Seq<MessageModel> {
    Seq::new(v.len(), |i: int| as_steer(v[i]))
}

/// That a message was added for a session: it waits after those that waited there, and nothing
/// changed for another session.
pub open spec fn steered(
    before: PendingSteers,
    after: PendingSteers,
    session: Seq<char>,
    message: MessageModel,
) -> bool {
    &&& after.waiting(session) == before.waiting(session).push(message)
    &&& forall|s: Seq<char>|
        s != session ==> (#[trigger] after.waiting(s)) == before.waiting(s)
}

/// That the messages of a session were taken: they came out as steering messages, none is left,
/// and nothing changed for another session.
pub open spec fn drained(
    before: PendingSteers,
    after: PendingSteers,
    session: Seq<char>,
    out: Seq<MessageModel>,
) -> bool {
    &&& out == steers(before.waiting(session))
    &&& after.waiting(session) == Seq::<MessageModel>::empty()
    &&& forall|s: Seq<char>|
        s != session ==> (#[trigger] after.waiting(s)) == before.waiting(s)
}

impl PendingSteers {
    /// Each session has one queue.
    pub open spec fn wf(&self) -> bool {
        forall|i: int, j: int|
            0 <= i < j < self.queues@.len() ==> (#[trigger] self.queues@[i]).session_id@ != (
            #[trigger] self.queues@[j]).session_id@
    }

    /// The messages that wait for a session.
    pub open spec fn waiting(&self, session: Seq<char>) -> Seq<MessageModel> {
        queued(self.queues@, session)
    }

    pub fn new() -> (r: PendingSteers)
        ensures
            r.wf(),
            forall|s: Seq<char>| (#[trigger] r.waiting(s)) == Seq::<MessageModel>::empty(),
    {
        PendingSteers { queues: Vec::new() }
    }

    proof fn lemma_queued_at(queues: Seq<SteerQueue>, session: Seq<char>, k: int)
        requires
            0 <= k < queues.len(),
            queues[k].session_id@ == session,
            forall|j: int| 0 <= j < k ==> (#[trigger] queues[j]).session_id@ != session,
        ensures
            queued(queues, session) == messages(queues[k].messages@),
        decreases k,
    {
        if k > 0 {
            assert(queues[0].session_id@ != session);
            Self::lemma_queued_at(queues.skip(1), session, k - 1);
        }
    }

    proof fn lemma_queued_none(queues: Seq<SteerQueue>, session: Seq<char>)
        requires
            forall|j: int| 0 <= j < queues.len() ==> (#[trigger] queues[j]).session_id@ != session,
        ensures
            queued(queues, session) == Seq::<MessageModel>::empty(),
        decreases queues.len(),
    {
        if queues.len() > 0 {
            assert(queues[0].session_id@ != session);
            Self::lemma_queued_none(queues.skip(1), session);
        }
    }

    /// Queues that differ only in the queue of another session hold the same for this one.
    proof fn lemma_queued_same(a: Seq<SteerQueue>, b: Seq<SteerQueue>, session: Seq<char>)
        requires
            a.len() == b.len(),
            forall|j: int|
                0 <= j < a.len() ==> (#[trigger] a[j]).session_id@ == b[j].session_id@ && (
                a[j].session_id@ == session ==> a[j].messages@ == b[j].messages@),
        ensures
            queued(a, session) == queued(b, session),
        decreases a.len(),
    {
        if a.len() > 0 {
            assert(a[0].session_id@ == b[0].session_id@);
            assert forall|j: int| 0 <= j < a.skip(1).len() implies (#[trigger] a.skip(
                1,
            )[j]).session_id@ == b.skip(1)[j].session_id@ && (a.skip(1)[j].session_id@ == session
                ==> a.skip(1)[j].messages@ == b.skip(1)[j].messages@) by {
                assert(a.skip(1)[j] == a[j + 1]);
            }
            Self::lemma_queued_same(a.skip(1), b.skip(1), session);
        }
    }

    proof fn lemma_queued_push(queues: Seq<SteerQueue>, q: SteerQueue, session: Seq<char>)
        requires
            q.session_id@ != session,
        ensures
            queued(queues.push(q), session) == queued(queues, session),
        decreases queues.len(),
    {
        let all = queues.push(q);
        if queues.len() == 0 {
            assert(all.skip(1) =~= Seq::empty());
            assert(queued(all.skip(1), session) == Seq::<MessageModel>::empty());
        } else {
            assert(all.skip(1) =~= queues.skip(1).push(q));
            Self::lemma_queued_push(queues.skip(1), q, session);
        }
    }

    proof fn lemma_queued_remove(queues: Seq<SteerQueue>, k: int, session: Seq<char>)
        requires
            0 <= k < queues.len(),
            queues[k].session_id@ != session,
        ensures
            queued(queues.remove(k), session) == queued(queues, session),
        decreases queues.len(),
    {
        if k == 0 {
            assert(queues.remove(0) =~= queues.skip(1));
        } else {
            assert(queues.remove(k).skip(1) =~= queues.skip(1).remove(k - 1));
            Self::lemma_queued_remove(queues.skip(1), k - 1, session);
        }
    }

    fn find(&self, session_id: &str) -> (r: Option<usize>)
        requires
            self.wf(),
        ensures
            match r {
                Some(i) => {
                    &&& i < self.queues@.len()
                    &&& self.queues@[i as int].session_id@ == session_id@
                    &&& self.waiting(session_id@) == messages(self.queues@[i as int].messages@)
                },
                None => {
                    &&& forall|j: int|
                        0 <= j < self.queues@.len() ==> (#[trigger] self.queues@[j]).session_id@
                            != session_id@
                    &&& self.waiting(session_id@) == Seq::<MessageModel>::empty()
                },
            },
    {
        let mut i: usize = 0;
        while i < self.queues.len()
            invariant
                i <= self.queues@.len(),
                forall|j: int|
                    0 <= j < i ==> (#[trigger] self.queues@[j]).session_id@ != session_id@,
            decreases self.queues@.len() - i,
        {
            if str_eq(self.queues[i].session_id.as_str(), session_id) {
                proof {
                    Self::lemma_queued_at(self.queues@, session_id@, i as int);
                }
                return Some(i);
            }
            i = i + 1;
        }
        proof {
            Self::lemma_queued_none(self.queues@, session_id@);
        }
        None
    }

    /// Adds a message for a session after those that wait already.
    pub fn steer(&mut self, session_id: &str, message: Message)
        requires
            old(self).wf(),
        ensures
            final(self).wf(),
            steered(*old(self), *final(self), session_id@, message@),
    {
        let ghost m = message@;
        match self.find(session_id) {
            Some(i) => {
                let mut list = copy_messages(&self.queues[i].messages);
                let ghost had = messages(list@);
                list.push(message);
                assert(messages(list@) =~= had.push(m));
                let q = SteerQueue { session_id: session_id.to_owned(), messages: list };
                let ghost before = self.queues@;
                self.queues.set(i, q);
                proof {
                    Self::lemma_queued_at(self.queues@, session_id@, i as int);
                    assert forall|s: Seq<char>| s != session_id@ implies (
                    #[trigger] self.waiting(s)) == queued(before, s) by {
                        Self::lemma_queued_same(self.queues@, before, s);
                    }
                }
            },
            None => {
                let ghost before = self.queues@;
                let list = vec![message];
                assert(messages(list@) =~= Seq::empty().push(m));
                let q = SteerQueue { session_id: session_id.to_owned(), messages: list };
                let ghost qm = q;
                self.queues.push(q);
                proof {
                    Self::lemma_queued_at(self.queues@, session_id@, before.len() as int);
                    assert forall|s: Seq<char>| s != session_id@ implies (
                    #[trigger] self.waiting(s)) == queued(before, s) by {
                        Self::lemma_queued_push(before, qm, s);
                    }
                }
            },
        }
    }

    /// Drops the messages that wait for a session.
    pub fn discard_pending_steers(&mut self, session_id: &str)
        requires
            old(self).wf(),
        ensures
            final(self).wf(),
            final(self).waiting(session_id@) == Seq::<MessageModel>::empty(),
            forall|s: Seq<char>|
                s != session_id@ ==> (#[trigger] final(self).waiting(s)) == old(self).waiting(s),
    {
        if let Some(i) = self.find(session_id) {
            let ghost before = self.queues@;
            let _ = self.queues.remove(i);
            proof {
                assert forall|j: int| 0 <= j < self.queues@.len() implies (
                #[trigger] self.queues@[j]).session_id@ != session_id@ by {
                    if j < i {
                        assert(self.queues@[j] == before[j]);
                    } else {
                        assert(self.queues@[j] == before[j + 1]);
                    }
                }
                Self::lemma_queued_none(self.queues@, session_id@);
                assert forall|s: Seq<char>| s != session_id@ implies (#[trigger] self.waiting(s))
                    == queued(before, s) by {
                    Self::lemma_queued_remove(before, i as int, s);
                }
                assert forall|a: int, b: int| 0 <= a < b < self.queues@.len() implies (
                #[trigger] self.queues@[a]).session_id@ != (
                #[trigger] self.queues@[b]).session_id@ by {
                    let x = if a < i { a } else { a + 1 };
                    let y = if b < i { b } else { b + 1 };
                    assert(self.queues@[a] == before[x] && self.queues@[b] == before[y]);
                }
            }
        }
    }

    /// Whether messages wait for a session.
    pub fn has_pending_steers(&self, session_id: &str) -> (r: bool)
        requires
            self.wf(),
        ensures
            r == (self.waiting(session_id@).len() > 0),
    {
        match self.find(session_id) {
            Some(i) => self.queues[i].messages.len() > 0,
            None => false,
        }
    }

    /// Takes the messages that wait for a session, in order, marked as steering messages.
    pub fn drain_pending_steers(&mut self, session_id: &str) -> (r: Vec<Message>)
        requires
            old(self).wf(),
        ensures
            final(self).wf(),
            drained(*old(self), *final(self), session_id@, messages(r@)),
    {
        let mut out: Vec<Message> = Vec::new();
        if let Some(k) = self.find(session_id) {
            let ghost had = messages(self.queues@[k as int].messages@);
            let mut i: usize = 0;
            while i < self.queues[k].messages.len()
                invariant
                    k < self.queues@.len(),
                    had == messages(self.queues@[k as int].messages@),
                    i <= had.len(),
                    out@.len() == i,
                    forall|j: int| 0 <= j < i ==> #[trigger] out@[j]@ == as_steer(had[j]),
                decreases had.len() - i,
            {
                let mut m = self.queues[k].messages[i].copy();
                m.steer = true;
                out.push(m);
                i = i + 1;
            }
        }
        assert(messages(out@) =~= steers(self.waiting(session_id@)));
        self.discard_pending_steers(session_id);
        out
    }
}

/// What is steered to a session comes out of it in order and marked as steering, after what waited
/// already; it comes out once, and what goes to another session stays there.
pub proof fn law_steers_come_out_once_in_order(
    start: PendingSteers,
    one: PendingSteers,
    two: PendingSteers,
    three: PendingSteers,
    four: PendingSteers,
    five: PendingSteers,
    session: Seq<char>,
    elsewhere: Seq<char>,
    first: MessageModel,
    stray: MessageModel,
    second: MessageModel,
    out: Seq<MessageModel>,
    again: Seq<MessageModel>,
)
    requires
        session != elsewhere,
        steered(start, one, session, first),
        steered(one, two, elsewhere, stray),
        steered(two, three, session, second),
        drained(three, four, session, out),
        drained(four, five, session, again),
    ensures
        out == steers(start.waiting(session)).push(as_steer(first)).push(as_steer(second)),
        again == Seq::<MessageModel>::empty(),
        five.waiting(elsewhere) == start.waiting(elsewhere).push(stray),
{
    assert(two.waiting(session) == one.waiting(session));
    assert(one.waiting(elsewhere) == start.waiting(elsewhere));
    assert(five.waiting(elsewhere) == four.waiting(elsewhere));
    assert(four.waiting(elsewhere) == three.waiting(elsewhere));
    assert(three.waiting(elsewhere) == two.waiting(elsewhere));
    assert(out =~= steers(start.waiting(session)).push(as_steer(first)).push(as_steer(second)));
    assert(again =~= Seq::empty());
}

// ---------------------------------------------------------------------------
// Recipes that are checked after a run
// ---------------------------------------------------------------------------

/// What the check of a recipe came to.
#[derive(Clone, Copy, PartialEq, Eq, Structural, Debug)]
pub enum RetryResult {
    Skipped,
    MaxAttemptsReached,
    SuccessChecksPassed,
    Retried,
}

/// Whether the reply starts over.
pub fn retried(result: RetryResult) -> (r: bool)
    ensures
        r == (result == RetryResult::Retried),
{
    result == RetryResult::Retried
}

/// The instructions of a project: a heading with its name, and its description and content where
/// they are not empty.
pub open spec fn project_parts(
    name: Seq<char>,
    description: Seq<char>,
    content: Seq<char>,
) -> Seq<Seq<char>> {
    let head = seq!["# Project: "@ + name];
    let with_description = if description.len() > 0 {
        head.push(description)
    } else {
        head
    };
    if content.len() > 0 {
        with_description.push(content)
    } else {
        with_description
    }
}

/// The instructions of a project.
pub fn project_instructions(name: &str, description: &str, content: &str) -> (r: String)
    ensures
        r@ == joined(project_parts(name@, description@, content@), "\n\n"@),
{
    let mut parts: Vec<String> = Vec::new();
    parts.push(cat("# Project: ", name));
    assert(texts(parts@) =~= seq!["# Project: "@ + name@]);
    if !description.is_empty() {
        let ghost before = texts(parts@);
        parts.push(description.to_owned());
        assert(texts(parts@) =~= before.push(description@));
    }
    if !content.is_empty() {
        let ghost before = texts(parts@);
        parts.push(content.to_owned());
        assert(texts(parts@) =~= before.push(content@));
    }
    join(&parts, "\n\n")
}

/// Which extension a tool belongs to has no say over its category.
pub proof fn law_categories_go_by_the_last_part(extension: Seq<char>, local: Seq<char>)
    requires
        !has_text(local, "__"@),
        local.len() > 0,
        local[0] != '_',
    ensures
        after_last_of(extension + "__"@ + local, "__"@) == local,
        after_last_of(local, "__"@) == local,
{
    reveal_strlit("__");
    let sep = "__"@;
    let s = extension + sep + local;
    let at = extension.len() as int;
    assert(s.subrange(at, at + 2) =~= sep);
    assert(occurs_at(s, sep, at));
    assert forall|j: int| at < j implies !#[trigger] occurs_at(s, sep, j) by {
        if occurs_at(s, sep, j) {
            assert(s.subrange(j, j + 2)[0] == '_');
            assert(s.subrange(j, j + 2)[1] == '_');
            if j == at + 1 {
                assert(s[at + 2] == local[0]);
            } else {
                let k = j - at - 2;
                assert(local.subrange(k, k + 2) =~= s.subrange(j, j + 2));
                assert(occurs_at(local, sep, k));
            }
        }
    }
    let last = last_at(s, sep);
    assert(occurs_at(s, sep, last) && forall|j: int|
        last < j ==> !#[trigger] occurs_at(s, sep, j));
    assert(last == at) by {
        if last < at {
            assert(!occurs_at(s, sep, at));
        }
    }
    assert(s.skip(at + 2) =~= local);
}

/// The tools of a shell, of reading and of writing are told apart: a name is of one category, and
/// of none of the three where no list has it.
pub proof fn law_categories_are_apart(local: Seq<char>)
    ensures
        category_of(local) == ToolCategory::Shell <==> seq![
            "shell"@,
            "bash"@,
            "exec"@,
            "run"@,
        ].contains(local),
        category_of(local) == ToolCategory::Read ==> seq![
            "read"@,
            "view"@,
            "cat"@,
            "read_file"@,
        ].contains(local),
        category_of(local) == ToolCategory::Write ==> seq![
            "write"@,
            "edit"@,
            "patch"@,
            "write_file"@,
            "edit_file"@,
        ].contains(local),
{
    let shell = seq!["shell"@, "bash"@, "exec"@, "run"@];
    assert(shell[0] == "shell"@ && shell[1] == "bash"@ && shell[2] == "exec"@ && shell[3]
        == "run"@);
    let read = seq!["read"@, "view"@, "cat"@, "read_file"@];
    assert(read[0] == "read"@ && read[1] == "view"@ && read[2] == "cat"@ && read[3]
        == "read_file"@);
    let write = seq!["write"@, "edit"@, "patch"@, "write_file"@, "edit_file"@];
    assert(write[0] == "write"@ && write[1] == "edit"@ && write[2] == "patch"@ && write[3]
        == "write_file"@ && write[4] == "edit_file"@);
}

/// The text that is found is that of the first of the keys that has one which is not empty.
pub proof fn law_the_first_text_is_found(input: Tree, keys: Seq<Seq<char>>, k: int)
    requires
        0 <= k < keys.len(),
        input.get_text(keys[k]) matches Some(s) && s.len() > 0,
        forall|i: int|
            0 <= i < k ==> (input.get_text(#[trigger] keys[i]) matches Some(s) ==> s.len() == 0),
    ensures
        first_text(input, keys) == input.get_text(keys[k]),
    decreases k,
{
    if k > 0 {
        assert(input.get_text(keys[0]) matches Some(s) ==> s.len() == 0);
        assert(keys.skip(1)[k - 1] == keys[k]);
        assert forall|i: int| 0 <= i < k - 1 implies (input.get_text(
            #[trigger] keys.skip(1)[i],
        ) matches Some(s) ==> s.len() == 0) by {
            assert(keys.skip(1)[i] == keys[i + 1]);
        }
        law_the_first_text_is_found(input, keys.skip(1), k - 1);
    }
}

/// No empty text is ever found.
pub proof fn law_found_texts_are_not_empty(input: Tree, keys: Seq<Seq<char>>)
    ensures
        first_text(input, keys) matches Some(s) ==> s.len() > 0 && exists|k: int|
            0 <= k < keys.len() && input.get_text(#[trigger] keys[k]) == Some(s),
        (forall|k: int|
            0 <= k < keys.len() ==> (input.get_text(#[trigger] keys[k]) matches Some(s) ==> s.len()
                == 0)) ==> first_text(input, keys) is None,
    decreases keys.len(),
{
    if keys.len() > 0 {
        law_found_texts_are_not_empty(input, keys.skip(1));
        if first_text(input, keys.skip(1)) is Some {
            let k = choose|k: int|
                0 <= k < keys.skip(1).len() && input.get_text(#[trigger] keys.skip(1)[k])
                    == first_text(input, keys.skip(1));
            assert(keys[k + 1] == keys.skip(1)[k]);
        }
        if input.get_text(keys[0]) is Some && input.get_text(keys[0])->0.len() > 0 {
            assert(input.get_text(keys[0]) == first_text(input, keys));
        }
        if forall|k: int|
            0 <= k < keys.len() ==> (input.get_text(#[trigger] keys[k]) matches Some(s) ==> s.len()
                == 0) {
            assert(input.get_text(keys[0]) matches Some(s) ==> s.len() == 0);
            assert forall|k: int| 0 <= k < keys.skip(1).len() implies (input.get_text(
                #[trigger] keys.skip(1)[k],
            ) matches Some(s) ==> s.len() == 0) by {
                assert(keys.skip(1)[k] == keys[k + 1]);
            }
        }
    }
}

/// Which further events a call brings: before it, those of a shell and of a file that is read;
/// after it, those of a shell and of a file that was written. What they are tested on is the
/// command, or the path.
pub proof fn law_further_events(tool_name: Seq<char>, input: Option<Tree>)
    ensures
        ({
            let category = category_of(after_last_of(tool_name, "__"@));
            let before = extended_before(tool_name, input);
            let after = extended_after(tool_name, input);
            &&& input is None ==> before is None && after is None
            &&& category == ToolCategory::Other ==> before is None && after is None
            &&& category == ToolCategory::Write ==> before is None
            &&& category == ToolCategory::Read ==> after is None
            &&& category == ToolCategory::Shell ==> {
                let text = match input {
                    Some(v) => first_text(v, seq!["command"@]),
                    None => None,
                };
                &&& before is Some <==> text is Some
                &&& after is Some <==> text is Some
                &&& text matches Some(t) ==> before == Some((HookEvent::BeforeShellExecution, t))
                    && after == Some((HookEvent::AfterShellExecution, t))
            }
            &&& before matches Some((e, t)) ==> t.len() > 0 && (e == HookEvent::BeforeReadFile
                <==> category == ToolCategory::Read)
            &&& after matches Some((e, t)) ==> t.len() > 0 && (e == HookEvent::AfterFileEdit
                <==> category == ToolCategory::Write)
        }),
{
    if let Some(v) = input {
        law_found_texts_are_not_empty(v, seq!["command"@]);
        law_found_texts_are_not_empty(v, path_keys());
    }
}

/// What is said of a denied stop names the plugin; the model is told the reason, which the user
/// does not see, and the user is told that the turn goes on, or that the hook is overridden.
#[verifier::rlimit(60)]
pub proof fn law_denied_stops_are_told(
    created: i64,
    plugin: Seq<char>,
    reason: Seq<char>,
    cap: u32,
)
    ensures
        denial_context(created, plugin, reason).role == Role::User,
        denial_context(created, plugin, reason).agent_visible,
        !denial_context(created, plugin, reason).user_visible,
        has_text(denial_context_text(plugin, reason), plugin),
        has_text(denial_context_text(plugin, reason), reason),
        denial_context(created, plugin, reason).content == seq![
            crate::conversation::text_content(denial_context_text(plugin, reason)),
        ],
        denial_notice(created, plugin).user_visible,
        denial_notice(created, plugin).content[0] matches
            crate::conversation::ContentModel::SystemNotification { text, .. } && has_text(
            text,
            plugin,
        ),
        cap_warning(created, plugin, cap).user_visible,
        cap_warning(created, plugin, cap).content[0] matches
            crate::conversation::ContentModel::SystemNotification { text, .. } && has_text(
            text,
            plugin,
        ) && has_text(text, decimal(cap as nat)),
{
    let a = "Stop hook `"@;
    let b = "` blocked ending this turn:\n\n"@;
    let c = "\n\nAddress this policy hook denial before trying to stop again."@;
    assert(denial_context_text(plugin, reason) =~= a + plugin + (b + reason + c));
    lemma_has_text(a, plugin, b + reason + c);
    lemma_has_text(a + plugin + b, reason, c);
    lemma_has_text(a, plugin, "` blocked ending this turn."@);
    let d = "` blocked the turn from ending more than "@;
    let e = " consecutive times — overriding and ending turn to avoid an infinite loop. Set GOOSE_STOP_HOOK_BLOCK_CAP to raise this limit."@;
    let n = decimal(cap as nat);
    lemma_has_text(a, plugin, d + n + e);
    assert(a + plugin + (d + n + e) =~= a + plugin + d + n + e);
    lemma_has_text(a + plugin + d, n, e);
}

/// The instructions of a project hold its name, and its description and content where there are
/// some, in this order and nothing else.
pub proof fn law_projects_are_introduced(
    name: Seq<char>,
    description: Seq<char>,
    content: Seq<char>,
)
    ensures
        has_text(project_parts(name, description, content)[0], name),
        project_parts(name, description, content).len() == 1 + (if description.len() > 0 {
            1int
        } else {
            0
        }) + (if content.len() > 0 {
            1int
        } else {
            0
        }),
        description.len() > 0 ==> project_parts(name, description, content)[1] == description,
        content.len() > 0 ==> project_parts(name, description, content).last() == content,
{
    lemma_has_text("# Project: "@, name, Seq::empty());
}

/// The platforms have names of their own.
pub proof fn law_platforms_are_told_apart(a: GoosePlatform, b: GoosePlatform)
    ensures
        platform_name(a) == platform_name(b) <==> a == b,
        has_text(platform_name(a), "goose"@),
{
    reveal_strlit("goose-cli");
    reveal_strlit("goose-desktop");
    reveal_strlit("goose");
    assert("goose-cli"@.len() != "goose-desktop"@.len());
    assert("goose-cli"@.subrange(0, 5) =~= "goose"@);
    assert("goose-desktop"@.subrange(0, 5) =~= "goose"@);
    assert(occurs_at("goose-cli"@, "goose"@, 0));
    assert(occurs_at("goose-desktop"@, "goose"@, 0));
}

/// A message that comes out of a queue is marked as steering and else as it was.
pub proof fn law_steers_are_marked(v: Seq<MessageModel>, i: int)
    requires
        0 <= i < v.len(),
    ensures
        steers(v).len() == v.len(),
        steers(v)[i].steer,
        steers(v)[i].content == v[i].content,
        steers(v)[i].role == v[i].role,
        steers(v)[i].id == v[i].id,
        steers(v)[i].agent_visible == v[i].agent_visible,
        steers(v)[i].user_visible == v[i].user_visible,
{
}

} // verus!
