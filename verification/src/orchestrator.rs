//! The tools by which one agent manages others.

use crate::conversation::members_opt;
use crate::json::{lookup, member, members, Member, Tree};
use crate::paths::{below, join_path};
use crate::text::{
    begins, cat, cat3, cat5, decimal, decimal_of, has_text, join, joined, lemma_each_place,
    lemma_has_text, lemma_in_longer, lemma_joined_holds, starts_with,
    str_eq, text_opt, texts,
};
use crate::times::{format_utc, utc_text};
use crate::tool_args::{extract_string, optional_string, optional_text, text_argument};
use crate::tools::{bare_tool, plain_tool, tool_models, Tool, ToolModel};
use vstd::prelude::*;
use vstd::string::*;

verus! {

broadcast use {crate::json::lemma_array_view, crate::json::lemma_object_view};

/// How many sessions are listed where nothing is said of it.
pub const DEFAULT_LIST_LIMIT: u64 = 10;

// ---------------------------------------------------------------------------
// Requests
// ---------------------------------------------------------------------------

/// What is asked of the orchestrator.
#[derive(Debug, PartialEq, Eq)]
pub enum OrchestratorRequest {
    ListSessions { session_type: Option<String>, limit: u64 },
    ViewSession { session_id: String, mode: String },
    StartAgent { working_dir: String, name: String },
    SendMessage { session_id: String, message: String },
    InterruptAgent { session_id: String },
}

#[verifier::ext_equal]
pub enum RequestModel {
    ListSessions { session_type: Option<Seq<char>>, limit: u64 },
    ViewSession { session_id: Seq<char>, mode: Seq<char> },
    StartAgent { working_dir: Seq<char>, name: Seq<char> },
    SendMessage { session_id: Seq<char>, message: Seq<char> },
    InterruptAgent { session_id: Seq<char> },
}

impl OrchestratorRequest {
    pub open spec fn view(&self) -> RequestModel {
        match self {
            OrchestratorRequest::ListSessions {
                session_type,
                limit,
            } => RequestModel::ListSessions { session_type: text_opt(*session_type), limit: *limit },
            OrchestratorRequest::ViewSession { session_id, mode } => RequestModel::ViewSession {
                session_id: session_id@,
                mode: mode@,
            },
            OrchestratorRequest::StartAgent { working_dir, name } => RequestModel::StartAgent {
                working_dir: working_dir@,
                name: name@,
            },
            OrchestratorRequest::SendMessage { session_id, message } => RequestModel::SendMessage {
                session_id: session_id@,
                message: message@,
            },
            OrchestratorRequest::InterruptAgent { session_id } => RequestModel::InterruptAgent {
                session_id: session_id@,
            },
        }
    }
}

pub open spec fn request_model(r: Result<OrchestratorRequest, String>) -> Result<
    RequestModel,
    Seq<char>,
> {
    match r {
        Ok(q) => Ok(q@),
        Err(e) => Err(e@),
    }
}

/// The number of sessions that a request wants.
pub open spec fn wanted_limit(args: Option<Seq<(Seq<char>, Tree)>>) -> u64 {
    match args {
        Some(a) => match lookup(a, "last_n"@) {
            Some(v) => match v.unsigned() {
                Some(n) => n,
                None => DEFAULT_LIST_LIMIT,
            },
            None => DEFAULT_LIST_LIMIT,
        },
        None => DEFAULT_LIST_LIMIT,
    }
}

pub open spec fn view_request(a: Seq<(Seq<char>, Tree)>) -> Result<RequestModel, Seq<char>> {
    match text_argument(a, "session_id"@) {
        Err(e) => Err(e),
        Ok(session_id) => Ok(
            RequestModel::ViewSession {
                session_id,
                mode: match optional_text(a, "mode"@) {
                    Some(m) => m,
                    None => "first_last"@,
                },
            },
        ),
    }
}

pub open spec fn start_request(a: Seq<(Seq<char>, Tree)>) -> Result<RequestModel, Seq<char>> {
    match text_argument(a, "working_dir"@) {
        Err(e) => Err(e),
        Ok(working_dir) => Ok(
            RequestModel::StartAgent {
                working_dir,
                name: match optional_text(a, "name"@) {
                    Some(n) => n,
                    None => "Orchestrated Agent"@,
                },
            },
        ),
    }
}

pub open spec fn send_request(a: Seq<(Seq<char>, Tree)>, own: Seq<char>) -> Result<
    RequestModel,
    Seq<char>,
> {
    match text_argument(a, "session_id"@) {
        Err(e) => Err(e),
        Ok(session_id) => match text_argument(a, "message"@) {
            Err(e) => Err(e),
            Ok(message) => if session_id == own {
                Err("Cannot send a message to the orchestrator's own session"@)
            } else {
                Ok(RequestModel::SendMessage { session_id, message })
            },
        },
    }
}

pub open spec fn interrupt_request(a: Seq<(Seq<char>, Tree)>) -> Result<RequestModel, Seq<char>> {
    match text_argument(a, "session_id"@) {
        Err(e) => Err(e),
        Ok(session_id) => Ok(RequestModel::InterruptAgent { session_id }),
    }
}

/// What a call asks of the orchestrator, in the session `own`.
pub open spec fn orchestrator_request(
    name: Seq<char>,
    args: Option<Seq<(Seq<char>, Tree)>>,
    own: Seq<char>,
) -> Result<RequestModel, Seq<char>> {
    if name == "list_sessions"@ {
        Ok(
            RequestModel::ListSessions {
                session_type: match args {
                    Some(a) => optional_text(a, "session_type"@),
                    None => None,
                },
                limit: wanted_limit(args),
            },
        )
    } else if name == "view_session"@ || name == "start_agent"@ || name == "send_message"@ || name
        == "interrupt_agent"@ {
        match args {
            None => Err("Missing arguments"@),
            Some(a) => if name == "view_session"@ {
                view_request(a)
            } else if name == "start_agent"@ {
                start_request(a)
            } else if name == "send_message"@ {
                send_request(a, own)
            } else {
                interrupt_request(a)
            },
        }
    } else {
        Err("Unknown tool: "@ + name)
    }
}

fn read_limit(args: &Option<Vec<Member>>) -> (r: u64)
    ensures
        r == wanted_limit(members_opt(*args)),
{
    if let Some(a) = args {
        if let Some(v) = member(a, "last_n") {
            if let Some(n) = v.as_u64() {
                return n;
            }
        }
    }
    DEFAULT_LIST_LIMIT
}

fn read_view(a: &Vec<Member>) -> (r: Result<OrchestratorRequest, String>)
    ensures
        request_model(r) == view_request(members(a@)),
{
    let session_id = match extract_string(a, "session_id") {
        Ok(s) => s,
        Err(e) => {
            return Err(e);
        },
    };
    let mode = match optional_string(a, "mode") {
        Some(m) => m,
        None => "first_last".to_owned(),
    };
    Ok(OrchestratorRequest::ViewSession { session_id, mode })
}

fn read_start(a: &Vec<Member>) -> (r: Result<OrchestratorRequest, String>)
    ensures
        request_model(r) == start_request(members(a@)),
{
    let working_dir = match extract_string(a, "working_dir") {
        Ok(s) => s,
        Err(e) => {
            return Err(e);
        },
    };
    let name = match optional_string(a, "name") {
        Some(n) => n,
        None => "Orchestrated Agent".to_owned(),
    };
    Ok(OrchestratorRequest::StartAgent { working_dir, name })
}

fn read_send(a: &Vec<Member>, own: &str) -> (r: Result<OrchestratorRequest, String>)
    ensures
        request_model(r) == send_request(members(a@), own@),
{
    let session_id = match extract_string(a, "session_id") {
        Ok(s) => s,
        Err(e) => {
            return Err(e);
        },
    };
    let message = match extract_string(a, "message") {
        Ok(s) => s,
        Err(e) => {
            return Err(e);
        },
    };
    if str_eq(session_id.as_str(), own) {
        return Err("Cannot send a message to the orchestrator's own session".to_owned());
    }
    Ok(OrchestratorRequest::SendMessage { session_id, message })
}

fn read_interrupt(a: &Vec<Member>) -> (r: Result<OrchestratorRequest, String>)
    ensures
        request_model(r) == interrupt_request(members(a@)),
{
    match extract_string(a, "session_id") {
        Ok(session_id) => Ok(OrchestratorRequest::InterruptAgent { session_id }),
        Err(e) => Err(e),
    }
}

/// What a call asks of the orchestrator, in the session `own`.
pub fn read_request(name: &str, arguments: &Option<Vec<Member>>, own: &str) -> (r: Result<
    OrchestratorRequest,
    String,
>)
    ensures
        request_model(r) == orchestrator_request(name@, members_opt(*arguments), own@),
{
    if str_eq(name, "list_sessions") {
        let session_type = match arguments {
            Some(a) => optional_string(a, "session_type"),
            None => None,
        };
        return Ok(
            OrchestratorRequest::ListSessions { session_type, limit: read_limit(arguments) },
        );
    }
    if str_eq(name, "view_session") || str_eq(name, "start_agent") || str_eq(name, "send_message")
        || str_eq(name, "interrupt_agent") {
        return match arguments {
            None => Err("Missing arguments".to_owned()),
            Some(a) => if str_eq(name, "view_session") {
                read_view(a)
            } else if str_eq(name, "start_agent") {
                read_start(a)
            } else if str_eq(name, "send_message") {
                read_send(a, own)
            } else {
                read_interrupt(a)
            },
        };
    }
    Err(cat("Unknown tool: ", name))
}

/// No message ever goes to the orchestrator's own session.
pub proof fn law_no_message_to_itself(
    name: Seq<char>,
    args: Option<Seq<(Seq<char>, Tree)>>,
    own: Seq<char>,
)
    ensures
        orchestrator_request(name, args, own) matches Ok(
            RequestModel::SendMessage { session_id, message },
        ) ==> session_id != own,
{
}

// ---------------------------------------------------------------------------
// Listing sessions
// ---------------------------------------------------------------------------

/// When a session last changed: a number that orders sessions by it, and the text that says it.
/// Nothing where there is no such point in time.
pub fn session_updated(seconds: i64, nanos: u32) -> (r: Option<(i128, String)>)
    ensures
        match utc_text(seconds, nanos, "%Y-%m-%d %H:%M"@) {
            Some(t) => r matches Some(p) && p.0 == seconds * 1_000_000_000 + nanos && p.1@ == t,
            None => r is None,
        },
{
    match format_utc(seconds, nanos, "%Y-%m-%d %H:%M") {
        Some(t) => Some((seconds as i128 * 1_000_000_000 + nanos as i128, t)),
        None => None,
    }
}

/// What is known of a session. `updated_at` orders sessions by when they last changed, and
/// `updated` says when that was.
#[derive(Debug, PartialEq, Eq)]
pub struct SessionInfo {
    pub name: String,
    pub id: String,
    pub session_type: String,
    pub message_count: u64,
    pub updated_at: i128,
    pub updated: String,
    pub loaded: bool,
    pub busy: bool,
}

pub open spec fn update_times(v: Seq<SessionInfo>) -> Seq<i128> {
    Seq::new(v.len(), |i: int| v[i].updated_at)
}

/// Whether `a` stands before `b`: it changed later, or as late and stood before it.
pub open spec fn more_recent(times: Seq<i128>, a: int, b: int) -> bool {
    times[a] > times[b] || (times[a] == times[b] && a < b)
}

/// Whether `order` holds each place once, the most recent first.
pub open spec fn is_recent_order(times: Seq<i128>, order: Seq<usize>) -> bool {
    &&& order.len() == times.len()
    &&& forall|i: int| 0 <= i < order.len() ==> 0 <= (#[trigger] order[i]) < times.len()
    &&& forall|i: int, j: int|
        0 <= i < j < order.len() ==> more_recent(
            times,
            #[trigger] order[i] as int,
            #[trigger] order[j] as int,
        )
}

/// There is one way to list sessions by when they changed.
pub proof fn law_one_recent_order(times: Seq<i128>, a: Seq<usize>, b: Seq<usize>)
    requires
        is_recent_order(times, a),
        is_recent_order(times, b),
    ensures
        a == b,
{
    assert forall|k: int| 0 <= k < a.len() implies a[k] == b[k] by {
        lemma_same_place(times, a, b, k);
    }
    assert(a =~= b);
}

proof fn lemma_same_place(times: Seq<i128>, a: Seq<usize>, b: Seq<usize>, k: int)
    requires
        is_recent_order(times, a),
        is_recent_order(times, b),
        0 <= k < a.len(),
    ensures
        a[k] == b[k],
    decreases k,
{
    assert forall|j: int| 0 <= j < k implies a[j] == b[j] by {
        lemma_same_place(times, a, b, j);
    }
    assert forall|i: int, j: int| 0 <= i < j < a.len() implies a[i] != a[j] by {
        assert(more_recent(times, a[i] as int, a[j] as int));
    }
    assert forall|i: int, j: int| 0 <= i < j < b.len() implies b[i] != b[j] by {
        assert(more_recent(times, b[i] as int, b[j] as int));
    }
    if a[k] != b[k] {
        lemma_each_place(a, b[k]);
        lemma_each_place(b, a[k]);
        let i = choose|i: int| 0 <= i < a.len() && a[i] == b[k];
        let j = choose|j: int| 0 <= j < b.len() && b[j] == a[k];
        assert(i > k);
        assert(j > k);
        assert(more_recent(times, a[k] as int, a[i] as int));
        assert(more_recent(times, b[k] as int, b[j] as int));
    }
}

/// The places of the sessions, the most recent first.
pub fn recent_order(v: &Vec<SessionInfo>) -> (order: Vec<usize>)
    ensures
        is_recent_order(update_times(v@), order@),
{
    let ghost times = update_times(v@);
    let mut order: Vec<usize> = Vec::new();
    let mut n: usize = 0;
    while n < v.len()
        invariant
            times == update_times(v@),
            n <= v@.len(),
            order@.len() == n,
            forall|i: int| 0 <= i < order@.len() ==> 0 <= (#[trigger] order@[i]) < n,
            forall|i: int, j: int|
                0 <= i < j < order@.len() ==> more_recent(
                    times,
                    #[trigger] order@[i] as int,
                    #[trigger] order@[j] as int,
                ),
        decreases v@.len() - n,
    {
        let mut p: usize = 0;
        while p < order.len() && v[order[p]].updated_at >= v[n].updated_at
            invariant
                times == update_times(v@),
                n < v@.len(),
                p <= order@.len(),
                order@.len() == n,
                forall|i: int| 0 <= i < order@.len() ==> 0 <= (#[trigger] order@[i]) < n,
                forall|i: int| 0 <= i < p ==> times[#[trigger] order@[i] as int] >= times[n as int],
            decreases order@.len() - p,
        {
            p = p + 1;
        }
        let ghost before = order@;
        order.insert(p, n);
        proof {
            assert(order@ =~= before.take(p as int).push(n) + before.skip(p as int));
            assert forall|i: int, j: int| 0 <= i < j < order@.len() implies more_recent(
                times,
                #[trigger] order@[i] as int,
                #[trigger] order@[j] as int,
            ) by {
                if i < p && j == p {
                    assert(order@[i] == before[i]);
                } else if i == p {
                    assert(order@[j] == before[j - 1]);
                    assert(times[before[p as int] as int] < times[n as int]);
                    if j - 1 > p {
                        assert(more_recent(times, before[p as int] as int, before[j - 1] as int));
                    }
                } else {
                    let a = if i < p {
                        i
                    } else {
                        i - 1
                    };
                    let b = if j < p {
                        j
                    } else {
                        j - 1
                    };
                    assert(order@[i] == before[a]);
                    assert(order@[j] == before[b]);
                    assert(more_recent(times, before[a] as int, before[b] as int));
                }
            }
        }
        n = n + 1;
    }
    order
}

/// What is said of a session: whether it works, is loaded, or neither.
pub open spec fn session_status(loaded: bool, busy: bool) -> Seq<char> {
    if loaded && busy {
        "🔄 busy"@
    } else if loaded {
        "✓ loaded"@
    } else {
        "○ idle"@
    }
}

/// A line on a session.
pub open spec fn session_line(s: SessionInfo) -> Seq<char> {
    "- **"@ + s.name@ + "** ("@ + s.id@ + ")\n  Type: "@ + s.session_type@ + " | Status: "@
        + session_status(s.loaded, s.busy) + " | Messages: "@ + decimal(s.message_count as nat)
        + " | Updated: "@ + s.updated@
}

/// The lines on the first sessions of an order.
pub open spec fn session_lines(v: Seq<SessionInfo>, order: Seq<usize>, shown: int) -> Seq<
    Seq<char>,
> {
    Seq::new(shown as nat, |i: int| session_line(v[order[i] as int]))
}

/// The text that lists the most recent sessions.
pub open spec fn sessions_text(v: Seq<SessionInfo>, order: Seq<usize>, limit: u64) -> Seq<char> {
    let shown = if v.len() < limit {
        v.len() as int
    } else {
        limit as int
    };
    if shown == 0 {
        "No sessions found."@
    } else {
        joined(
            seq![
                "Showing "@ + decimal(shown as nat) + " of "@ + decimal(v.len())
                    + " session(s):\n"@,
            ] + session_lines(v, order, shown),
            "\n"@,
        )
    }
}

fn line_of(s: &SessionInfo) -> (r: String)
    ensures
        r@ == session_line(*s),
{
    let status = if s.loaded && s.busy {
        "🔄 busy"
    } else if s.loaded {
        "✓ loaded"
    } else {
        "○ idle"
    };
    let count = decimal_of(s.message_count);
    let mut text = cat5("- **", s.name.as_str(), "** (", s.id.as_str(), ")\n  Type: ");
    text.append(s.session_type.as_str());
    text.append(" | Status: ");
    text.append(status);
    text.append(" | Messages: ");
    text.append(count.as_str());
    text.append(" | Updated: ");
    text.append(s.updated.as_str());
    text
}

/// The text that lists the most recent sessions.
pub fn list_sessions_text(v: &Vec<SessionInfo>, limit: u64) -> (r: String)
    ensures
        exists|order: Seq<usize>|
            #[trigger] is_recent_order(update_times(v@), order) && r@ == sessions_text(
                v@,
                order,
                limit,
            ),
{
    let order = recent_order(v);
    let total: usize = v.len();
    let shown: usize = if (total as u64) < limit {
        total
    } else {
        limit as usize
    };
    if shown == 0 {
        assert(is_recent_order(update_times(v@), order@));
        return "No sessions found.".to_owned();
    }
    let a = decimal_of(shown as u64);
    let b = decimal_of(total as u64);
    let head = cat5("Showing ", a.as_str(), " of ", b.as_str(), " session(s):\n");
    let mut lines: Vec<String> = Vec::new();
    lines.push(head);
    let mut i: usize = 0;
    while i < shown
        invariant
            is_recent_order(update_times(v@), order@),
            shown <= v@.len(),
            i <= shown,
            lines@.len() == i + 1,
            lines@[0]@ == head@,
            forall|j: int|
                0 <= j < i ==> (#[trigger] lines@[j + 1])@ == session_line(
                    v@[order@[j] as int],
                ),
        decreases shown - i,
    {
        let at: usize = order[i];
        assert(order@[i as int] < update_times(v@).len());
        let line = line_of(&v[at]);
        let ghost before = lines@;
        lines.push(line);
        assert forall|j: int| 0 <= j < i + 1 implies (#[trigger] lines@[j + 1])@ == session_line(
            v@[order@[j] as int],
        ) by {
            if j < i {
                assert(lines@[j + 1] == before[j + 1]);
            }
        }
        i = i + 1;
    }
    let ghost whole = seq![head@] + session_lines(v@, order@, shown as int);
    assert(texts(lines@) =~= whole) by {
        assert forall|j: int| 0 <= j < whole.len() implies texts(lines@)[j] == whole[j] by {
            if j > 0 {
                assert(lines@[(j - 1) + 1]@ == session_line(v@[order@[j - 1] as int]));
            }
        }
    }
    join(&lines, "\n")
}

// ---------------------------------------------------------------------------
// Viewing a session
// ---------------------------------------------------------------------------

/// A session to view: what is known of it, and its messages as texts.
#[derive(Debug, PartialEq, Eq)]
pub struct SessionView {
    pub info: SessionInfo,
    pub working_dir: String,
    pub messages: Vec<String>,
}

/// The heading of a session.
pub open spec fn session_heading(s: SessionView) -> Seq<char> {
    "# Session: "@ + s.info.name@ + " ("@ + s.info.id@ + ")\n\nType: "@ + s.info.session_type@
        + " | Status: "@ + (if s.info.busy {
        "🔄 busy"@
    } else {
        "idle"@
    }) + " | Working dir: "@ + s.working_dir@ + "\nMessages: "@ + decimal(
        s.info.message_count as nat,
    ) + " | Updated: "@ + s.info.updated@ + "\n"@
}

/// The first and the last of some messages.
pub open spec fn first_and_last(ms: Seq<Seq<char>>) -> Seq<Seq<char>> {
    if ms.len() == 0 {
        seq!["No messages in this session."@]
    } else if ms.len() == 1 {
        seq!["## First message\n"@, ms[0]]
    } else {
        seq![
            "## First message\n"@,
            ms[0],
            "\n*("@ + decimal((ms.len() - 2) as nat) + " messages omitted)*\n"@,
            "## Last message\n"@,
            ms.last(),
        ]
    }
}

/// The parts of the text on a session; nothing more than its heading where it is to be summarised
/// and has messages.
pub open spec fn view_parts(s: SessionView, mode: Seq<char>) -> Result<Seq<Seq<char>>, Seq<char>> {
    if mode == "first_last"@ {
        Ok(seq![session_heading(s)] + first_and_last(texts(s.messages@)))
    } else if mode == "summarize"@ {
        Ok(
            if s.messages@.len() == 0 {
                seq![session_heading(s), "No messages to summarize."@]
            } else {
                seq![session_heading(s)]
            },
        )
    } else {
        Err("Unknown mode '"@ + mode + "'. Use 'first_last' or 'summarize'."@)
    }
}

fn heading_of(s: &SessionView) -> (r: String)
    ensures
        r@ == session_heading(*s),
{
    let count = decimal_of(s.info.message_count);
    let mut text = cat5(
        "# Session: ",
        s.info.name.as_str(),
        " (",
        s.info.id.as_str(),
        ")\n\nType: ",
    );
    text.append(s.info.session_type.as_str());
    text.append(" | Status: ");
    text.append(
        if s.info.busy {
            "🔄 busy"
        } else {
            "idle"
        },
    );
    text.append(" | Working dir: ");
    text.append(s.working_dir.as_str());
    text.append("\nMessages: ");
    text.append(count.as_str());
    text.append(" | Updated: ");
    text.append(s.info.updated.as_str());
    text.append("\n");
    text
}

fn push_first_and_last(out: &mut Vec<String>, ms: &Vec<String>)
    ensures
        texts(final(out)@) == texts(old(out)@) + first_and_last(texts(ms@)),
{
    let ghost before = texts(out@);
    let ghost mm = texts(ms@);
    if ms.len() == 0 {
        out.push("No messages in this session.".to_owned());
        assert(texts(out@) =~= before + first_and_last(mm));
        return;
    }
    out.push("## First message\n".to_owned());
    out.push(ms[0].clone());
    if ms.len() > 1 {
        let n = decimal_of((ms.len() - 2) as u64);
        out.push(cat3("\n*(", n.as_str(), " messages omitted)*\n"));
        out.push("## Last message\n".to_owned());
        out.push(ms[ms.len() - 1].clone());
        assert(texts(out@) =~= before + first_and_last(mm));
    } else {
        assert(texts(out@) =~= before + first_and_last(mm));
    }
}

/// What is to be answered to a request to view a session.
#[derive(Debug, PartialEq, Eq)]
pub enum ViewAnswer {
    /// This text.
    Text(String),
    /// This text, followed by a summary of the session's messages.
    Summarise(String),
}

/// What is to be answered to a request to view a session.
pub fn view_session(s: &SessionView, mode: &str) -> (r: Result<ViewAnswer, String>)
    ensures
        match view_parts(*s, mode@) {
            Err(m) => r matches Err(e) && e@ == m,
            Ok(parts) => if mode@ == "summarize"@ && s.messages@.len() > 0 {
                r matches Ok(ViewAnswer::Summarise(t)) && t@ == joined(parts, "\n"@)
            } else {
                r matches Ok(ViewAnswer::Text(t)) && t@ == joined(parts, "\n"@)
            },
        },
{
    let mut out: Vec<String> = Vec::new();
    out.push(heading_of(s));
    assert(texts(out@) =~= seq![session_heading(*s)]);
    if str_eq(mode, "first_last") {
        proof {
            reveal_strlit("first_last");
            reveal_strlit("summarize");
            assert("first_last"@.len() != "summarize"@.len());
        }
        push_first_and_last(&mut out, &s.messages);
        let text = join(&out, "\n");
        return Ok(ViewAnswer::Text(text));
    }
    if str_eq(mode, "summarize") {
        if s.messages.len() == 0 {
            out.push("No messages to summarize.".to_owned());
            assert(texts(out@) =~= seq![session_heading(*s), "No messages to summarize."@]);
            let text = join(&out, "\n");
            return Ok(ViewAnswer::Text(text));
        }
        let text = join(&out, "\n");
        return Ok(ViewAnswer::Summarise(text));
    }
    Err(cat3("Unknown mode '", mode, "'. Use 'first_last' or 'summarize'."))
}

/// The text on a session with the summary of its messages.
pub fn with_summary(head: &str, summary: &str) -> (r: String)
    ensures
        r@ == head@ + "\n"@ + ("## Summary\n\n"@ + summary@),
{
    let tail = cat("## Summary\n\n", summary);
    cat3(head, "\n", tail.as_str())
}

/// The texts of the messages that the agent sees.
pub open spec fn visible_texts(v: Seq<(String, bool)>) -> Seq<Seq<char>>
    decreases v.len(),
{
    if v.len() == 0 {
        Seq::empty()
    } else {
        let head = visible_texts(v.drop_last());
        if v.last().1 {
            head.push(v.last().0@)
        } else {
            head
        }
    }
}

/// What the model is asked to summarise: each message comes with whether the agent sees it.
pub fn summary_request(messages: &Vec<(String, bool)>) -> (r: String)
    ensures
        r@ == "Summarize this conversation ("@ + decimal(messages@.len()) + " messages):\n\n"@
            + joined(visible_texts(messages@), "\n"@),
{
    let ghost all = messages@;
    let mut out: Vec<String> = Vec::new();
    let mut i: usize = 0;
    assert(texts(out@) =~= visible_texts(all.take(0)));
    while i < messages.len()
        invariant
            all == messages@,
            i <= all.len(),
            texts(out@) == visible_texts(all.take(i as int)),
        decreases all.len() - i,
    {
        assert(all.take(i + 1).drop_last() =~= all.take(i as int));
        assert(all.take(i + 1).last() == all[i as int]);
        if messages[i].1 {
            let ghost before = texts(out@);
            out.push(messages[i].0.clone());
            assert(texts(out@) =~= before.push(all[i as int].0@));
        }
        i = i + 1;
    }
    assert(all.take(i as int) =~= all);
    let text = join(&out, "\n");
    let n = decimal_of(messages.len() as u64);
    let mut r = cat3("Summarize this conversation (", n.as_str(), " messages):\n\n");
    r.append(text.as_str());
    r
}

// ---------------------------------------------------------------------------
// Starting an agent
// ---------------------------------------------------------------------------

/// The directory of a new agent: as it is given where it is absolute, else below the session's
/// directory, or below the current one.
pub fn agent_directory(working_dir: &str, base: &Option<String>) -> (r: String)
    ensures
        r@ == if begins(working_dir@, "/"@) {
            working_dir@
        } else {
            below(
                match text_opt(*base) {
                    Some(b) => b,
                    None => "."@,
                },
                working_dir@,
            )
        },
{
    if starts_with(working_dir, "/") {
        working_dir.to_owned()
    } else {
        match base {
            Some(b) => join_path(b.as_str(), working_dir),
            None => join_path(".", working_dir),
        }
    }
}

/// The error where the directory of a new agent cannot be used: it is not there, for the given
/// reason, or it is no directory.
pub fn directory_error(working_dir: &str, missing: Option<String>, is_dir: bool) -> (r: Option<
    String,
>)
    ensures
        text_opt(r) == match text_opt(missing) {
            Some(e) => Some("Invalid working directory '"@ + working_dir@ + "': "@ + e),
            None => if is_dir {
                None
            } else {
                Some("'"@ + working_dir@ + "' is not a directory"@)
            },
        },
{
    match missing {
        Some(e) => {
            let mut text = cat3("Invalid working directory '", working_dir, "': ");
            text.append(e.as_str());
            Some(text)
        },
        None => if is_dir {
            None
        } else {
            Some(cat3("'", working_dir, "' is not a directory"))
        },
    }
}

/// The answer once an agent was started.
pub fn started_text(name: &str, session_id: &str) -> (r: String)
    ensures
        r@ == "Started agent session '"@ + name@ + "' with ID: "@ + session_id@
            + "\n\nUse send_message with this session_id to interact with it."@,
{
    cat5(
        "Started agent session '",
        name,
        "' with ID: ",
        session_id,
        "\n\nUse send_message with this session_id to interact with it.",
    )
}

// ---------------------------------------------------------------------------
// Sending a message
// ---------------------------------------------------------------------------

/// Sees to it that the mark of a session that works is taken away, also where the work breaks off.
#[derive(Debug, PartialEq, Eq)]
pub struct CancelTokenGuard {
    pub session_id: String,
    pub disarmed: bool,
}

impl CancelTokenGuard {
    pub fn new(session_id: String) -> (r: CancelTokenGuard)
        ensures
            r.session_id == session_id,
            !r.disarmed,
    {
        CancelTokenGuard { session_id, disarmed: false }
    }

    /// The mark is taken away elsewhere.
    pub fn disarm(&mut self)
        ensures
            final(self).disarmed,
            final(self).session_id == old(self).session_id,
    {
        self.disarmed = true;
    }

    /// The session whose mark is to be taken away when the guard goes.
    pub fn releases(&self) -> (r: Option<String>)
        ensures
            text_opt(r) == if self.disarmed {
                None
            } else {
                Some(self.session_id@)
            },
    {
        if self.disarmed {
            None
        } else {
            Some(self.session_id.clone())
        }
    }
}

/// What an agent that got a message sends back.
#[derive(Debug, PartialEq, Eq)]
pub enum AgentReply {
    /// The text of a message.
    Message(String),
    /// Something else.
    Other,
    /// An error: nothing more comes.
    Error(String),
    /// Nothing more comes.
    End,
    /// The session that asked was cancelled.
    Cancelled,
}

/// What has come back once one more thing came: the text of each message that has one, and the
/// error.
pub open spec fn parts_with(parts: Seq<Seq<char>>, reply: AgentReply) -> Seq<Seq<char>> {
    match reply {
        AgentReply::Message(t) => if t@.len() > 0 {
            parts.push(t@)
        } else {
            parts
        },
        AgentReply::Error(e) => parts.push("Error during agent processing: "@ + e@),
        _ => parts,
    }
}

/// The answer to the session that asked, from what came back.
pub open spec fn collected(cancelled: bool, parts: Seq<Seq<char>>, session_id: Seq<char>) -> Result<
    Seq<char>,
    Seq<char>,
> {
    if cancelled {
        Err("Cancelled by parent session"@)
    } else if parts.len() == 0 {
        Ok("Agent completed without producing text output."@)
    } else {
        Ok("## Response from session "@ + session_id + "\n\n"@ + joined(parts, "\n\n"@))
    }
}

/// What has come back so far.
#[derive(Debug, PartialEq, Eq)]
pub struct ReplyCollector {
    pub parts: Vec<String>,
    pub cancelled: bool,
}

impl ReplyCollector {
    pub fn new() -> (r: ReplyCollector)
        ensures
            texts(r.parts@) == Seq::<Seq<char>>::empty(),
            !r.cancelled,
    {
        let r = ReplyCollector { parts: Vec::new(), cancelled: false };
        assert(texts(r.parts@) =~= Seq::<Seq<char>>::empty());
        r
    }

    /// Takes what came. Returns whether more is to be waited for.
    pub fn take(&mut self, reply: AgentReply) -> (r: bool)
        ensures
            r == (reply is Message || reply is Other),
            final(self).cancelled == (old(self).cancelled || reply is Cancelled),
            texts(final(self).parts@) == parts_with(texts(old(self).parts@), reply),
    {
        let ghost before = texts(self.parts@);
        match reply {
            AgentReply::Message(t) => {
                if !t.as_str().is_empty() {
                    let ghost tm = t@;
                    self.parts.push(t);
                    assert(texts(self.parts@) =~= before.push(tm));
                }
                true
            },
            AgentReply::Other => true,
            AgentReply::Error(e) => {
                let text = cat("Error during agent processing: ", e.as_str());
                self.parts.push(text);
                assert(texts(self.parts@) =~= before.push(text@));
                false
            },
            AgentReply::End => false,
            AgentReply::Cancelled => {
                self.cancelled = true;
                false
            },
        }
    }

    /// The answer to the session that asked.
    pub fn finish(&self, session_id: &str) -> (r: Result<String, String>)
        ensures
            match collected(self.cancelled, texts(self.parts@), session_id@) {
                Ok(m) => r matches Ok(t) && t@ == m,
                Err(m) => r matches Err(e) && e@ == m,
            },
    {
        if self.cancelled {
            return Err("Cancelled by parent session".to_owned());
        }
        if self.parts.len() == 0 {
            return Ok("Agent completed without producing text output.".to_owned());
        }
        let body = join(&self.parts, "\n\n");
        let mut text = cat3("## Response from session ", session_id, "\n\n");
        text.append(body.as_str());
        Ok(text)
    }
}

/// The error where a session works already.
pub fn busy_error(session_id: &str) -> (r: String)
    ensures
        r@ == "Session '"@ + session_id@
            + "' is currently busy. Use interrupt_agent first, or wait."@,
{
    cat3(
        "Session '",
        session_id,
        "' is currently busy. Use interrupt_agent first, or wait.",
    )
}

/// The answer once a session was interrupted, or could not be.
pub fn interrupted(session_id: &str, error: Option<String>) -> (r: Result<String, String>)
    ensures
        match text_opt(error) {
            None => r matches Ok(t) && t@ == "Interrupted agent session '"@ + session_id@ + "'."@,
            Some(e) => r matches Err(m) && m@ == "Failed to interrupt session '"@ + session_id@
                + "': "@ + e,
        },
{
    match error {
        None => Ok(cat3("Interrupted agent session '", session_id, "'.")),
        Some(e) => {
            let mut text = cat3("Failed to interrupt session '", session_id, "': ");
            text.append(e.as_str());
            Err(text)
        },
    }
}

// ---------------------------------------------------------------------------
// The tools
// ---------------------------------------------------------------------------

/// The tools for other agents, with the schemas of what they take.
pub open spec fn orchestrator_tools(
    list_schema: Seq<(Seq<char>, Tree)>,
    view_schema: Seq<(Seq<char>, Tree)>,
    start_schema: Seq<(Seq<char>, Tree)>,
    send_schema: Seq<(Seq<char>, Tree)>,
    interrupt_schema: Seq<(Seq<char>, Tree)>,
) -> Seq<ToolModel> {
    seq![
        bare_tool("list_sessions"@, "List agent sessions with their status (loaded, busy, idle). Returns the most recent 10 by default. Optionally filter by session type."@, list_schema),
        bare_tool("view_session"@, "View a session's details and conversation. Mode 'first_last' (default) returns the first and last message. Mode 'summarize' calls the LLM to produce a conversation summary."@, view_schema),
        bare_tool("start_agent"@, "Start a new agent session with its own working directory. Inherits the current provider and model. Returns a session_id for future interaction."@, start_schema),
        bare_tool("send_message"@, "Send a message to an existing agent session and get the response. Returns an error if the agent is currently busy."@, send_schema),
        bare_tool("interrupt_agent"@, "Interrupt a busy agent by cancelling its current operation."@, interrupt_schema),
    ]
}

/// The tools for other agents, with the schemas of what they take.
pub fn list_orchestrator_tools(
    list_schema: Vec<Member>,
    view_schema: Vec<Member>,
    start_schema: Vec<Member>,
    send_schema: Vec<Member>,
    interrupt_schema: Vec<Member>,
) -> (r: Vec<Tool>)
    ensures
        tool_models(r@) == orchestrator_tools(
            members(list_schema@),
            members(view_schema@),
            members(start_schema@),
            members(send_schema@),
            members(interrupt_schema@),
        ),
{
    let ghost list_schema_model = members(list_schema@);
    let ghost view_schema_model = members(view_schema@);
    let ghost start_schema_model = members(start_schema@);
    let ghost send_schema_model = members(send_schema@);
    let ghost interrupt_schema_model = members(interrupt_schema@);
    let mut out: Vec<Tool> = Vec::new();
    out.push(
        plain_tool("list_sessions", "List agent sessions with their status (loaded, busy, idle). Returns the most recent 10 by default. Optionally filter by session type.", list_schema),
    );
    out.push(
        plain_tool("view_session", "View a session's details and conversation. Mode 'first_last' (default) returns the first and last message. Mode 'summarize' calls the LLM to produce a conversation summary.", view_schema),
    );
    out.push(
        plain_tool("start_agent", "Start a new agent session with its own working directory. Inherits the current provider and model. Returns a session_id for future interaction.", start_schema),
    );
    out.push(
        plain_tool("send_message", "Send a message to an existing agent session and get the response. Returns an error if the agent is currently busy.", send_schema),
    );
    out.push(
        plain_tool("interrupt_agent", "Interrupt a busy agent by cancelling its current operation.", interrupt_schema),
    );
    assert(tool_models(out@) =~= orchestrator_tools(list_schema_model, view_schema_model, start_schema_model, send_schema_model, interrupt_schema_model));
    out
}

/// What a call asks for is told by its tool, and what it names is handed on as it is. Only listing
/// needs no arguments, and lists ten sessions where nothing else is said.
#[verifier::rlimit(60)]
pub proof fn law_which_calls_are_read(
    name: Seq<char>,
    a: Seq<(Seq<char>, Tree)>,
    own: Seq<char>,
)
    ensures
        orchestrator_request(name, Some(a), own) matches Ok(q) ==> {
            &&& q is ListSessions <==> name == "list_sessions"@
            &&& q is ViewSession <==> name == "view_session"@
            &&& q is StartAgent <==> name == "start_agent"@
            &&& q is SendMessage <==> name == "send_message"@
            &&& q is InterruptAgent <==> name == "interrupt_agent"@
            &&& q matches RequestModel::SendMessage { session_id, message } ==> text_argument(
                a,
                "session_id"@,
            ) == Ok::<Seq<char>, Seq<char>>(session_id) && text_argument(a, "message"@) == Ok::<
                Seq<char>,
                Seq<char>,
            >(message)
            &&& q matches RequestModel::InterruptAgent { session_id } ==> text_argument(
                a,
                "session_id"@,
            ) == Ok::<Seq<char>, Seq<char>>(session_id)
            &&& q matches RequestModel::ViewSession { session_id, mode } ==> text_argument(
                a,
                "session_id"@,
            ) == Ok::<Seq<char>, Seq<char>>(session_id) && (optional_text(a, "mode"@) matches Some(
                m,
            ) ==> mode == m)
            &&& q matches RequestModel::StartAgent { working_dir, name: n } ==> text_argument(
                a,
                "working_dir"@,
            ) == Ok::<Seq<char>, Seq<char>>(working_dir) && (optional_text(a, "name"@) matches Some(
                m,
            ) ==> n == m)
        },
        orchestrator_request(name, None, own) is Ok <==> name == "list_sessions"@,
        orchestrator_request("list_sessions"@, None, own) == Ok::<RequestModel, Seq<char>>(
            RequestModel::ListSessions { session_type: None, limit: 10 },
        ),
        text_argument(a, "session_id"@) is Ok ==> orchestrator_request(
            "interrupt_agent"@,
            Some(a),
            own,
        ) is Ok && orchestrator_request("view_session"@, Some(a), own) is Ok,
        text_argument(a, "working_dir"@) is Ok ==> orchestrator_request(
            "start_agent"@,
            Some(a),
            own,
        ) is Ok,
        text_argument(a, "session_id"@) is Ok && text_argument(a, "message"@) is Ok
            && text_argument(a, "session_id"@)->Ok_0 != own ==> orchestrator_request(
            "send_message"@,
            Some(a),
            own,
        ) is Ok,
{
    reveal_strlit("list_sessions");
    reveal_strlit("view_session");
    reveal_strlit("start_agent");
    reveal_strlit("send_message");
    reveal_strlit("interrupt_agent");
    assert("list_sessions"@[0] == 'l' && "view_session"@[0] == 'v' && "start_agent"@[0] == 's'
        && "send_message"@[0] == 's' && "interrupt_agent"@[0] == 'i');
    assert("start_agent"@[1] == 't' && "send_message"@[1] == 'e');
}

/// As many sessions are listed as were asked for, or all there are, and no session that is left out
/// changed later than one that is listed.
pub proof fn law_the_most_recent_sessions_are_listed(
    v: Seq<SessionInfo>,
    order: Seq<usize>,
    limit: u64,
    i: int,
    j: int,
)
    requires
        is_recent_order(update_times(v), order),
        0 <= i < v.len(),
        i < limit,
    ensures
        has_text(sessions_text(v, order, limit), session_line(v[order[i] as int])),
        i < j < v.len() ==> v[order[i] as int].updated_at >= v[order[j] as int].updated_at,
        limit == 0 || v.len() == 0 ==> sessions_text(v, order, limit) == "No sessions found."@,
{
    let shown = if v.len() < limit {
        v.len() as int
    } else {
        limit as int
    };
    let lines = seq![
        "Showing "@ + decimal(shown as nat) + " of "@ + decimal(v.len()) + " session(s):\n"@,
    ] + session_lines(v, order, shown);
    assert(lines[i + 1] == session_line(v[order[i] as int]));
    lemma_joined_holds(lines, "\n"@, i + 1);
    if i < j < v.len() {
        assert(more_recent(update_times(v), order[i] as int, order[j] as int));
    }
}

/// A line on a session names it, tells its id, and says that it works only where it does.
#[verifier::rlimit(60)]
pub proof fn law_session_lines_tell_the_session(s: SessionInfo)
    ensures
        has_text(session_line(s), s.name@),
        has_text(session_line(s), s.id@),
        has_text(session_line(s), session_status(s.loaded, s.busy)),
        session_status(s.loaded, s.busy) == "🔄 busy"@ <==> s.loaded && s.busy,
        session_status(s.loaded, s.busy) == "✓ loaded"@ <==> s.loaded && !s.busy,
        session_status(s.loaded, s.busy) == "○ idle"@ <==> !s.loaded,
{
    reveal_strlit("🔄 busy");
    reveal_strlit("✓ loaded");
    reveal_strlit("○ idle");
    assert("🔄 busy"@.len() == 6 && "✓ loaded"@.len() == 8 && "○ idle"@.len() == 6);
    assert("🔄 busy"@[2] == 'b' && "○ idle"@[2] == 'i');
    let a = "- **"@;
    let b = "** ("@;
    let c = ")\n  Type: "@ + s.session_type@ + " | Status: "@;
    let status = session_status(s.loaded, s.busy);
    let d = " | Messages: "@ + decimal(s.message_count as nat) + " | Updated: "@ + s.updated@;
    let line = session_line(s);
    assert(line =~= a + s.name@ + (b + s.id@ + c + status + d));
    assert(line =~= (a + s.name@ + b) + s.id@ + (c + status + d));
    assert(line =~= (a + s.name@ + b + s.id@ + c) + status + d);
    lemma_has_text(a, s.name@, b + s.id@ + c + status + d);
    lemma_has_text(a + s.name@ + b, s.id@, c + status + d);
    lemma_has_text(a + s.name@ + b + s.id@ + c, status, d);
}

/// A session can be viewed in two ways. By its first and last message it shows both; for a summary
/// it shows no message itself. Any other way is refused.
#[verifier::rlimit(60)]
pub proof fn law_how_sessions_are_viewed(s: SessionView, mode: Seq<char>)
    ensures
        view_parts(s, mode) is Ok <==> mode == "first_last"@ || mode == "summarize"@,
        view_parts(s, mode) matches Ok(parts) ==> parts.len() > 0 && parts[0] == session_heading(s),
        mode == "first_last"@ && s.messages@.len() > 0 ==> view_parts(s, mode)->Ok_0.contains(
            s.messages@[0]@,
        ) && view_parts(s, mode)->Ok_0.last() == s.messages@.last()@,
        mode == "summarize"@ && s.messages@.len() > 0 ==> view_parts(s, mode)->Ok_0.len() == 1,
{
    reveal_strlit("first_last");
    reveal_strlit("summarize");
    assert("first_last"@.len() != "summarize"@.len());
    let ms = texts(s.messages@);
    if mode == "first_last"@ && ms.len() > 0 {
        let parts = view_parts(s, mode)->Ok_0;
        assert(parts[2] == ms[0]);
        assert(parts.contains(ms[0]));
    }
}

/// The heading of a session names it and tells its id.
#[verifier::rlimit(60)]
pub proof fn law_session_headings_tell_the_session(s: SessionView)
    ensures
        has_text(session_heading(s), s.info.id@),
        has_text(session_heading(s), s.info.name@),
{
    let a = "# Session: "@;
    let b = " ("@;
    let c = ")\n\nType: "@ + s.info.session_type@ + " | Status: "@ + (if s.info.busy {
        "🔄 busy"@
    } else {
        "idle"@
    }) + " | Working dir: "@ + s.working_dir@ + "\nMessages: "@ + decimal(
        s.info.message_count as nat,
    ) + " | Updated: "@ + s.info.updated@ + "\n"@;
    assert(session_heading(s) =~= a + s.info.name@ + (b + s.info.id@ + c));
    assert(session_heading(s) =~= (a + s.info.name@ + b) + s.info.id@ + c);
    lemma_has_text(a, s.info.name@, b + s.info.id@ + c);
    lemma_has_text(a + s.info.name@ + b, s.info.id@, c);
}

/// The model sums up exactly the messages that the agent sees, in order.
pub proof fn law_only_visible_messages_are_summed_up(
    a: Seq<(String, bool)>,
    b: Seq<(String, bool)>,
    k: int,
)
    ensures
        visible_texts(a + b) == visible_texts(a) + visible_texts(b),
        a.len() == 1 && a[0].1 ==> visible_texts(a) == seq![a[0].0@],
        a.len() == 1 && !a[0].1 ==> visible_texts(a).len() == 0,
    decreases b.len(),
{
    if a.len() == 1 {
        assert(a.drop_last() =~= Seq::empty());
        assert(visible_texts(a.drop_last()) =~= Seq::empty());
        assert(a.last() == a[0]);
        if a[0].1 {
            assert(visible_texts(a) =~= seq![a[0].0@]);
        }
    }
    if b.len() > 0 {
        law_only_visible_messages_are_summed_up(a, b.drop_last(), k);
        assert((a + b).drop_last() =~= a + b.drop_last());
        assert((a + b).last() == b.last());
        assert(visible_texts(a + b) =~= visible_texts(a) + visible_texts(b));
    } else {
        assert(a + b =~= a);
        assert(visible_texts(a) + visible_texts(b) =~= visible_texts(a));
    }
}

/// Every text that an agent sends back is kept, after those before it, and an error is kept in
/// words; nothing that came is lost again.
pub proof fn law_replies_are_collected(parts: Seq<Seq<char>>, reply: AgentReply)
    ensures
        reply matches AgentReply::Message(t) ==> (t@.len() > 0 ==> parts_with(parts, reply)
            == parts.push(t@)),
        reply matches AgentReply::Error(e) ==> parts_with(parts, reply).len() == parts.len() + 1
            && has_text(parts_with(parts, reply).last(), e@),
        parts_with(parts, reply).take(parts.len() as int) == parts,
        reply is Other || reply is End || reply is Cancelled ==> parts_with(parts, reply) == parts,
{
    if let AgentReply::Error(e) = reply {
        lemma_has_text("Error during agent processing: "@, e@, Seq::empty());
    }
    assert(parts_with(parts, reply).take(parts.len() as int) =~= parts);
}

/// The session that asked gets all that came back, and whose answer it is; where it was cancelled
/// it gets an error, whatever came.
#[verifier::rlimit(60)]
pub proof fn law_the_answer_holds_every_part(
    parts: Seq<Seq<char>>,
    session_id: Seq<char>,
    i: int,
)
    ensures
        collected(true, parts, session_id) is Err,
        collected(false, parts, session_id) is Ok,
        0 <= i < parts.len() ==> has_text(collected(false, parts, session_id)->Ok_0, parts[i])
            && has_text(collected(false, parts, session_id)->Ok_0, session_id),
{
    if 0 <= i < parts.len() {
        let body = joined(parts, "\n\n"@);
        let head = "## Response from session "@ + session_id + "\n\n"@;
        lemma_joined_holds(parts, "\n\n"@, i);
        lemma_in_longer(head, body, Seq::empty(), parts[i]);
        assert(head + body + Seq::<char>::empty() =~= head + body);
        lemma_has_text("## Response from session "@, session_id, "\n\n"@ + body);
        assert("## Response from session "@ + session_id + ("\n\n"@ + body) =~= head + body);
    }
}

/// As many sessions are wanted as a number says that is not negative, and ten where nothing does.
pub proof fn law_how_many_sessions_are_wanted(a: Seq<(Seq<char>, Tree)>)
    ensures
        wanted_limit(None) == 10,
        lookup(a, "last_n"@) is None ==> wanted_limit(Some(a)) == 10,
        lookup(a, "last_n"@) matches Some(v) ==> (v.unsigned() matches Some(n) ==> wanted_limit(
            Some(a),
        ) == n) && (v.unsigned() is None ==> wanted_limit(Some(a)) == 10),
{
}

/// Every tool is one that a call of it is read by, with its own schema.
pub proof fn law_orchestrator_tools_can_be_called(
    list_schema: Seq<(Seq<char>, Tree)>,
    view_schema: Seq<(Seq<char>, Tree)>,
    start_schema: Seq<(Seq<char>, Tree)>,
    send_schema: Seq<(Seq<char>, Tree)>,
    interrupt_schema: Seq<(Seq<char>, Tree)>,
)
    ensures
        ({
            let tools = orchestrator_tools(
                list_schema,
                view_schema,
                start_schema,
                send_schema,
                interrupt_schema,
            );
            &&& tools.len() == 5
            &&& tools[0].name == "list_sessions"@ && tools[0].input_schema == list_schema
            &&& tools[1].name == "view_session"@ && tools[1].input_schema == view_schema
            &&& tools[2].name == "start_agent"@ && tools[2].input_schema == start_schema
            &&& tools[3].name == "send_message"@ && tools[3].input_schema == send_schema
            &&& tools[4].name == "interrupt_agent"@ && tools[4].input_schema == interrupt_schema
        }),
{
}

} // verus!
