//! The tool that manages scheduled jobs.

use crate::conversation::{internal_error, plain_error, ErrorCode, ErrorData, ErrorModel};
use crate::json::{Json, Tree};
use crate::text::{
    cat, cat3, cat5, decimal, decimal_of, ends, ends_with, has_text, join, joined, lemma_has_text,
    signed_decimal,
    signed_decimal_of, str_eq, text_opt, texts,
};
use crate::times::{rfc3339_text, seconds_between, seconds_since, to_rfc3339};
use vstd::prelude::*;
use vstd::string::*;

verus! {

/// What is asked of the scheduler.
#[derive(Debug, PartialEq, Eq)]
pub enum ScheduleAction {
    List,
    Create { recipe_path: String, cron: String, mode: String },
    RunNow(String),
    Pause(String),
    Unpause(String),
    Delete(String),
    Kill(String),
    Inspect(String),
    Sessions { job_id: String, limit: u64 },
    SessionContent(String),
}

#[verifier::ext_equal]
pub enum ActionModel {
    List,
    Create { recipe_path: Seq<char>, cron: Seq<char>, mode: Seq<char> },
    RunNow(Seq<char>),
    Pause(Seq<char>),
    Unpause(Seq<char>),
    Delete(Seq<char>),
    Kill(Seq<char>),
    Inspect(Seq<char>),
    Sessions { job_id: Seq<char>, limit: u64 },
    SessionContent(Seq<char>),
}

impl ScheduleAction {
    pub open spec fn view(&self) -> ActionModel {
        match self {
            ScheduleAction::List => ActionModel::List,
            ScheduleAction::Create { recipe_path, cron, mode } => ActionModel::Create {
                recipe_path: recipe_path@,
                cron: cron@,
                mode: mode@,
            },
            ScheduleAction::RunNow(id) => ActionModel::RunNow(id@),
            ScheduleAction::Pause(id) => ActionModel::Pause(id@),
            ScheduleAction::Unpause(id) => ActionModel::Unpause(id@),
            ScheduleAction::Delete(id) => ActionModel::Delete(id@),
            ScheduleAction::Kill(id) => ActionModel::Kill(id@),
            ScheduleAction::Inspect(id) => ActionModel::Inspect(id@),
            ScheduleAction::Sessions { job_id, limit } => ActionModel::Sessions {
                job_id: job_id@,
                limit: *limit,
            },
            ScheduleAction::SessionContent(id) => ActionModel::SessionContent(id@),
        }
    }
}

pub open spec fn action_model(r: Result<ScheduleAction, ErrorData>) -> Result<
    ActionModel,
    ErrorModel,
> {
    match r {
        Ok(a) => Ok(a@),
        Err(e) => Err(e@),
    }
}

// ---------------------------------------------------------------------------
// Reading a request
// ---------------------------------------------------------------------------

/// A parameter that has to be there and to be a text; without it the request is refused with the
/// given code.
pub open spec fn wanted(arguments: Tree, name: Seq<char>, code: ErrorCode) -> Result<
    Seq<char>,
    ErrorModel,
> {
    match arguments.get_text(name) {
        Some(s) => Ok(s),
        None => Err(plain_error(code, "Missing '"@ + name + "' parameter"@)),
    }
}

pub open spec fn text_result(r: Result<String, ErrorData>) -> Result<Seq<char>, ErrorModel> {
    match r {
        Ok(s) => Ok(s@),
        Err(e) => Err(e@),
    }
}

fn want(arguments: &Json, name: &str, code: ErrorCode) -> (r: Result<String, ErrorData>)
    ensures
        text_result(r) == wanted(arguments@, name@, code),
{
    match arguments.get_str(name) {
        Some(s) => Ok(s.to_owned()),
        None => Err(ErrorData::new(code, cat3("Missing '", name, "' parameter"))),
    }
}

/// A job to create.
pub open spec fn create_request(arguments: Tree) -> Result<ActionModel, ErrorModel> {
    match wanted(arguments, "recipe_path"@, ErrorCode::InvalidParams) {
        Err(e) => Err(e),
        Ok(recipe_path) => match wanted(
            arguments,
            "cron_expression"@,
            ErrorCode::InvalidParams,
        ) {
            Err(e) => Err(e),
            Ok(cron) => Ok(
                ActionModel::Create {
                    recipe_path,
                    cron,
                    mode: match arguments.get_text("execution_mode"@) {
                        Some(m) => m,
                        None => "background"@,
                    },
                },
            ),
        },
    }
}

/// The sessions of a job.
pub open spec fn sessions_request(arguments: Tree) -> Result<ActionModel, ErrorModel> {
    match wanted(arguments, "job_id"@, ErrorCode::InvalidParams) {
        Err(e) => Err(e),
        Ok(job_id) => Ok(
            ActionModel::Sessions {
                job_id,
                limit: match arguments.get("limit"@) {
                    Some(v) => match v.unsigned() {
                        Some(n) => n,
                        None => 50,
                    },
                    None => 50,
                },
            },
        ),
    }
}

/// What is asked of a job.
pub open spec fn job_request(arguments: Tree, action: Seq<char>) -> Result<
    ActionModel,
    ErrorModel,
> {
    match wanted(
        arguments,
        "job_id"@,
        if action == "run_now"@ {
            ErrorCode::InvalidParams
        } else {
            ErrorCode::InternalError
        },
    ) {
        Err(e) => Err(e),
        Ok(id) => Ok(
            if action == "run_now"@ {
                ActionModel::RunNow(id)
            } else if action == "pause"@ {
                ActionModel::Pause(id)
            } else if action == "unpause"@ {
                ActionModel::Unpause(id)
            } else if action == "delete"@ {
                ActionModel::Delete(id)
            } else if action == "kill"@ {
                ActionModel::Kill(id)
            } else {
                ActionModel::Inspect(id)
            },
        ),
    }
}

/// Whether an action is about one job and wants nothing but its id.
pub open spec fn is_job_action(action: Seq<char>) -> bool {
    action == "run_now"@ || action == "pause"@ || action == "unpause"@ || action == "delete"@
        || action == "kill"@ || action == "inspect"@
}

/// What is asked of the scheduler.
pub open spec fn schedule_request(available: bool, arguments: Tree) -> Result<
    ActionModel,
    ErrorModel,
> {
    if !available {
        Err(internal_error("Scheduler not available"@))
    } else {
        match wanted(arguments, "action"@, ErrorCode::InvalidParams) {
            Err(e) => Err(e),
            Ok(action) => if action == "list"@ {
                Ok(ActionModel::List)
            } else if action == "create"@ {
                create_request(arguments)
            } else if is_job_action(action) {
                job_request(arguments, action)
            } else if action == "sessions"@ {
                sessions_request(arguments)
            } else if action == "session_content"@ {
                match wanted(arguments, "session_id"@, ErrorCode::InternalError) {
                    Ok(id) => Ok(ActionModel::SessionContent(id)),
                    Err(e) => Err(e),
                }
            } else {
                Err(internal_error("Unknown action: "@ + action))
            },
        }
    }
}

fn read_create(arguments: &Json) -> (r: Result<ScheduleAction, ErrorData>)
    ensures
        action_model(r) == create_request(arguments@),
{
    let recipe_path = match want(arguments, "recipe_path", ErrorCode::InvalidParams) {
        Ok(s) => s,
        Err(e) => {
            return Err(e);
        },
    };
    let cron = match want(arguments, "cron_expression", ErrorCode::InvalidParams) {
        Ok(s) => s,
        Err(e) => {
            return Err(e);
        },
    };
    let mode = match arguments.get_str("execution_mode") {
        Some(m) => m.to_owned(),
        None => "background".to_owned(),
    };
    Ok(ScheduleAction::Create { recipe_path, cron, mode })
}

fn read_sessions(arguments: &Json) -> (r: Result<ScheduleAction, ErrorData>)
    ensures
        action_model(r) == sessions_request(arguments@),
{
    let job_id = match want(arguments, "job_id", ErrorCode::InvalidParams) {
        Ok(s) => s,
        Err(e) => {
            return Err(e);
        },
    };
    let limit = match arguments.get("limit") {
        Some(v) => match v.as_u64() {
            Some(n) => n,
            None => 50,
        },
        None => 50,
    };
    Ok(ScheduleAction::Sessions { job_id, limit })
}

fn read_job(arguments: &Json, action: &str) -> (r: Result<ScheduleAction, ErrorData>)
    ensures
        action_model(r) == job_request(arguments@, action@),
{
    let code = if str_eq(action, "run_now") {
        ErrorCode::InvalidParams
    } else {
        ErrorCode::InternalError
    };
    let id = match want(arguments, "job_id", code) {
        Ok(s) => s,
        Err(e) => {
            return Err(e);
        },
    };
    Ok(
        if str_eq(action, "run_now") {
            ScheduleAction::RunNow(id)
        } else if str_eq(action, "pause") {
            ScheduleAction::Pause(id)
        } else if str_eq(action, "unpause") {
            ScheduleAction::Unpause(id)
        } else if str_eq(action, "delete") {
            ScheduleAction::Delete(id)
        } else if str_eq(action, "kill") {
            ScheduleAction::Kill(id)
        } else {
            ScheduleAction::Inspect(id)
        },
    )
}

fn about_job(action: &str) -> (r: bool)
    ensures
        r == is_job_action(action@),
{
    str_eq(action, "run_now") || str_eq(action, "pause") || str_eq(action, "unpause") || str_eq(
        action,
        "delete",
    ) || str_eq(action, "kill") || str_eq(action, "inspect")
}

/// What is asked of the scheduler, by the arguments of a call; `available` tells whether there is
/// a scheduler.
pub fn handle_schedule_management(available: bool, arguments: &Json) -> (r: Result<
    ScheduleAction,
    ErrorData,
>)
    ensures
        action_model(r) == schedule_request(available, arguments@),
{
    if !available {
        return Err(ErrorData::internal("Scheduler not available".to_owned()));
    }
    let action = match want(arguments, "action", ErrorCode::InvalidParams) {
        Ok(a) => a,
        Err(e) => {
            return Err(e);
        },
    };
    let action = action.as_str();
    if str_eq(action, "list") {
        Ok(ScheduleAction::List)
    } else if str_eq(action, "create") {
        read_create(arguments)
    } else if about_job(action) {
        read_job(arguments, action)
    } else if str_eq(action, "sessions") {
        read_sessions(arguments)
    } else if str_eq(action, "session_content") {
        match want(arguments, "session_id", ErrorCode::InternalError) {
            Ok(id) => Ok(ScheduleAction::SessionContent(id)),
            Err(e) => Err(e),
        }
    } else {
        Err(ErrorData::internal(cat("Unknown action: ", action)))
    }
}

// ---------------------------------------------------------------------------
// Creating a job
// ---------------------------------------------------------------------------

/// A job that runs by a schedule.
#[derive(Debug, PartialEq, Eq)]
pub struct ScheduledJob {
    pub id: String,
    pub source: String,
    pub cron: String,
    pub currently_running: bool,
    pub paused: bool,
}

/// What is known of the file of a recipe.
#[derive(Debug, PartialEq, Eq)]
pub enum RecipeFile {
    Missing,
    /// It could not be read, for this reason.
    Unreadable(String),
    /// It holds no recipe, for this reason.
    Invalid(String),
    Valid,
}

/// Whether a file of a recipe is written in JSON.
pub fn is_json_recipe(recipe_path: &str) -> (r: bool)
    ensures
        r == ends(recipe_path@, ".json"@),
{
    ends_with(recipe_path, ".json")
}

/// The error where a file cannot be the recipe of a job.
pub open spec fn recipe_error(path: Seq<char>, file: RecipeFile) -> Option<ErrorModel> {
    match file {
        RecipeFile::Missing => Some(internal_error("Recipe file not found: "@ + path)),
        RecipeFile::Unreadable(e) => Some(internal_error("Cannot read recipe file: "@ + e@)),
        RecipeFile::Invalid(e) => Some(
            internal_error(
                (if ends(path, ".json"@) {
                    "Invalid JSON recipe: "@
                } else {
                    "Invalid YAML recipe: "@
                }) + e@,
            ),
        ),
        RecipeFile::Valid => None,
    }
}

/// The job to create for a recipe, at a time in seconds, unless the file cannot be its recipe.
pub fn create_job(recipe_path: &str, cron: &str, file: RecipeFile, now: i64) -> (r: Result<
    ScheduledJob,
    ErrorData,
>)
    ensures
        match recipe_error(recipe_path@, file) {
            Some(m) => r matches Err(e) && e@ == m,
            None => r matches Ok(j) && j.id@ == "agent_created_"@ + signed_decimal(now as int)
                && j.source@ == recipe_path@ && j.cron@ == cron@ && !j.currently_running
                && !j.paused,
        },
{
    match file {
        RecipeFile::Missing => {
            return Err(ErrorData::internal(cat("Recipe file not found: ", recipe_path)));
        },
        RecipeFile::Unreadable(e) => {
            return Err(ErrorData::internal(cat("Cannot read recipe file: ", e.as_str())));
        },
        RecipeFile::Invalid(e) => {
            let head = if is_json_recipe(recipe_path) {
                "Invalid JSON recipe: "
            } else {
                "Invalid YAML recipe: "
            };
            return Err(ErrorData::internal(cat(head, e.as_str())));
        },
        RecipeFile::Valid => {},
    }
    let seconds = signed_decimal_of(now);
    Ok(
        ScheduledJob {
            id: cat("agent_created_", seconds.as_str()),
            source: recipe_path.to_owned(),
            cron: cron.to_owned(),
            currently_running: false,
            paused: false,
        },
    )
}

// ---------------------------------------------------------------------------
// Answers
// ---------------------------------------------------------------------------

/// The answer once a job was created, or could not be.
pub fn created_answer(
    job_id: &str,
    recipe_path: &str,
    cron: &str,
    mode: &str,
    error: Option<String>,
) -> (r: Result<String, ErrorData>)
    ensures
        text_result(r) == match text_opt(error) {
            None => Ok::<Seq<char>, ErrorModel>(
                "Successfully created scheduled job '"@ + job_id@ + "' for recipe '"@ + recipe_path@
                    + "' with cron expression '"@ + cron@ + "' in "@ + mode@ + " mode"@,
            ),
            Some(e) => Err(internal_error("Failed to create job: "@ + e)),
        },
{
    match error {
        Some(e) => Err(ErrorData::internal(cat("Failed to create job: ", e.as_str()))),
        None => {
            let mut text = cat5(
                "Successfully created scheduled job '",
                job_id,
                "' for recipe '",
                recipe_path,
                "' with cron expression '",
            );
            text.append(cron);
            text.append("' in ");
            text.append(mode);
            text.append(" mode");
            Ok(text)
        },
    }
}

/// The answer once a job was started, or could not be.
pub fn run_now_answer(job_id: &str, session: Result<String, String>) -> (r: Result<
    String,
    ErrorData,
>)
    ensures
        text_result(r) == match session {
            Ok(s) => Ok::<Seq<char>, ErrorModel>(
                "Successfully started job '"@ + job_id@ + "'. Session ID: "@ + s@,
            ),
            Err(e) => Err(internal_error("Failed to run job: "@ + e@)),
        },
{
    match session {
        Ok(s) => {
            let mut text = cat3("Successfully started job '", job_id, "'. Session ID: ");
            text.append(s.as_str());
            Ok(text)
        },
        Err(e) => Err(ErrorData::internal(cat("Failed to run job: ", e.as_str()))),
    }
}

/// A change to a job that says nothing but whether it was made.
#[derive(Clone, Copy, PartialEq, Eq, Structural, Debug)]
pub enum JobChange {
    Pause,
    Unpause,
    Delete,
    Kill,
}

pub open spec fn change_done(change: JobChange) -> Seq<char> {
    match change {
        JobChange::Pause => "Successfully paused job '"@,
        JobChange::Unpause => "Successfully unpaused job '"@,
        JobChange::Delete => "Successfully removed schedule for job '"@,
        JobChange::Kill => "Successfully killed running job '"@,
    }
}

pub open spec fn change_failed(change: JobChange) -> Seq<char> {
    match change {
        JobChange::Pause => "Failed to pause job: "@,
        JobChange::Unpause => "Failed to unpause job: "@,
        JobChange::Delete => "Failed to remove schedule: "@,
        JobChange::Kill => "Failed to kill job: "@,
    }
}

/// The answer once a job was changed, or could not be.
pub fn change_answer(change: JobChange, job_id: &str, error: Option<String>) -> (r: Result<
    String,
    ErrorData,
>)
    ensures
        text_result(r) == match text_opt(error) {
            None => Ok::<Seq<char>, ErrorModel>(change_done(change) + job_id@ + "'"@),
            Some(e) => Err(internal_error(change_failed(change) + e)),
        },
{
    match error {
        None => {
            let head = match change {
                JobChange::Pause => "Successfully paused job '",
                JobChange::Unpause => "Successfully unpaused job '",
                JobChange::Delete => "Successfully removed schedule for job '",
                JobChange::Kill => "Successfully killed running job '",
            };
            Ok(cat3(head, job_id, "'"))
        },
        Some(e) => {
            let head = match change {
                JobChange::Pause => "Failed to pause job: ",
                JobChange::Unpause => "Failed to unpause job: ",
                JobChange::Delete => "Failed to remove schedule: ",
                JobChange::Kill => "Failed to kill job: ",
            };
            Err(ErrorData::internal(cat(head, e.as_str())))
        },
    }
}

/// A job that is running: its session, when it started, and for how many seconds it runs.
#[derive(Debug, PartialEq, Eq)]
pub struct RunningJob {
    pub session_id: String,
    pub started: String,
    pub seconds: i64,
}

/// A job that is running now, by when it started; nothing where one of the two is no point in
/// time.
pub fn running_job(
    session_id: String,
    start_seconds: i64,
    start_nanos: u32,
    now_seconds: i64,
    now_nanos: u32,
) -> (r: Option<RunningJob>)
    ensures
        match (
            rfc3339_text(start_seconds, start_nanos),
            seconds_between(start_seconds, start_nanos, now_seconds, now_nanos),
        ) {
            (Some(t), Some(n)) => r matches Some(j) && j.session_id == session_id && j.started@ == t
                && j.seconds == n,
            _ => r is None,
        },
{
    match (
        to_rfc3339(start_seconds, start_nanos),
        seconds_since(start_seconds, start_nanos, now_seconds, now_nanos),
    ) {
        (Some(started), Some(seconds)) => Some(RunningJob { session_id, started, seconds }),
        _ => None,
    }
}

/// The answer on whether a job is running.
pub fn inspect_answer(job_id: &str, job: Result<Option<RunningJob>, String>) -> (r: Result<
    String,
    ErrorData,
>)
    ensures
        text_result(r) == match job {
            Ok(Some(j)) => Ok::<Seq<char>, ErrorModel>(
                "Job '"@ + job_id@ + "' is currently running:\n- Session ID: "@ + j.session_id@
                    + "\n- Started: "@ + j.started@ + "\n- Duration: "@ + signed_decimal(
                    j.seconds as int,
                ) + " seconds"@,
            ),
            Ok(None) => Ok("Job '"@ + job_id@ + "' is not currently running"@),
            Err(e) => Err(internal_error("Failed to inspect job: "@ + e@)),
        },
{
    match job {
        Ok(Some(j)) => {
            let seconds = signed_decimal_of(j.seconds);
            let mut text = cat5(
                "Job '",
                job_id,
                "' is currently running:\n- Session ID: ",
                j.session_id.as_str(),
                "\n- Started: ",
            );
            text.append(j.started.as_str());
            text.append("\n- Duration: ");
            text.append(seconds.as_str());
            text.append(" seconds");
            Ok(text)
        },
        Ok(None) => Ok(cat3("Job '", job_id, "' is not currently running")),
        Err(e) => Err(ErrorData::internal(cat("Failed to inspect job: ", e.as_str()))),
    }
}

/// A session of a job.
#[derive(Debug, PartialEq, Eq)]
pub struct JobSession {
    pub name: String,
    pub message_count: u64,
    pub working_dir: String,
}

/// A line on each session.
pub open spec fn session_lines(v: Seq<JobSession>) -> Seq<Seq<char>> {
    Seq::new(
        v.len(),
        |i: int|
            "- Session: "@ + v[i].name@ + " (Messages: "@ + decimal(v[i].message_count as nat)
                + ", Working Dir: "@ + v[i].working_dir@ + ")"@,
    )
}

/// The answer that lists the sessions of a job.
pub fn sessions_answer(job_id: &str, sessions: Result<Vec<JobSession>, String>) -> (r: Result<
    String,
    ErrorData,
>)
    ensures
        text_result(r) == match sessions {
            Ok(v) => Ok::<Seq<char>, ErrorModel>(
                if v@.len() == 0 {
                    "No sessions found for job '"@ + job_id@ + "'"@
                } else {
                    "Sessions for job '"@ + job_id@ + "':\n"@ + joined(session_lines(v@), "\n"@)
                },
            ),
            Err(e) => Err(internal_error("Failed to list sessions: "@ + e@)),
        },
{
    let v = match sessions {
        Ok(v) => v,
        Err(e) => {
            return Err(ErrorData::internal(cat("Failed to list sessions: ", e.as_str())));
        },
    };
    if v.len() == 0 {
        return Ok(cat3("No sessions found for job '", job_id, "'"));
    }
    let mut out: Vec<String> = Vec::new();
    let mut i: usize = 0;
    while i < v.len()
        invariant
            i <= v@.len(),
            out@.len() == i,
            forall|j: int| 0 <= j < i ==> (#[trigger] out@[j])@ == session_lines(v@)[j],
        decreases v@.len() - i,
    {
        let n = decimal_of(v[i].message_count);
        let mut line = cat5(
            "- Session: ",
            v[i].name.as_str(),
            " (Messages: ",
            n.as_str(),
            ", Working Dir: ",
        );
        line.append(v[i].working_dir.as_str());
        line.append(")");
        out.push(line);
        i = i + 1;
    }
    assert(texts(out@) =~= session_lines(v@));
    let list = join(&out, "\n");
    let mut text = cat3("Sessions for job '", job_id, "':\n");
    text.append(list.as_str());
    Ok(text)
}

/// The answer that holds all jobs, as they are written down.
pub fn list_answer(jobs: Result<String, String>) -> (r: Result<String, ErrorData>)
    ensures
        text_result(r) == match jobs {
            Ok(s) => Ok::<Seq<char>, ErrorModel>("Scheduled Jobs:\n"@ + s@),
            Err(e) => Err(internal_error("Failed to serialize jobs: "@ + e@)),
        },
{
    match jobs {
        Ok(s) => Ok(cat("Scheduled Jobs:\n", s.as_str())),
        Err(e) => Err(ErrorData::internal(cat("Failed to serialize jobs: ", e.as_str()))),
    }
}

/// What became of reading a session.
#[derive(Debug, PartialEq, Eq)]
pub enum SessionRead {
    /// It could not be read, for this reason.
    Unreadable(String),
    /// It could not be written down, for this reason.
    Unwritable(String),
    /// It is this, as it is written down.
    Written(String),
}

/// The answer that holds a session.
pub fn session_content_answer(session_id: &str, session: SessionRead) -> (r: Result<
    String,
    ErrorData,
>)
    ensures
        text_result(r) == match session {
            SessionRead::Unreadable(e) => Err::<Seq<char>, ErrorModel>(
                internal_error("Failed to read session for '"@ + session_id@ + "': "@ + e@),
            ),
            SessionRead::Unwritable(e) => Err(
                internal_error("Failed to serialize metadata: "@ + e@),
            ),
            SessionRead::Written(s) => Ok(
                "Session '"@ + session_id@ + "' Content:\n\nSession:\n"@ + s@,
            ),
        },
{
    match session {
        SessionRead::Unreadable(e) => {
            let mut text = cat3("Failed to read session for '", session_id, "': ");
            text.append(e.as_str());
            Err(ErrorData::internal(text))
        },
        SessionRead::Unwritable(e) => Err(
            ErrorData::internal(cat("Failed to serialize metadata: ", e.as_str())),
        ),
        SessionRead::Written(s) => {
            let mut text = cat3("Session '", session_id, "' Content:\n\nSession:\n");
            text.append(s.as_str());
            Ok(text)
        },
    }
}

/// What the scheduler is asked for is told by the action, and the job, the recipe and the schedule
/// are handed on as they are named. Without a scheduler nothing is.
#[verifier::rlimit(60)]
pub proof fn law_which_actions_are_read(arguments: Tree)
    ensures
        schedule_request(false, arguments) is Err,
        schedule_request(true, arguments) matches Ok(a) ==> {
            let action = arguments.get_text("action"@);
            let job = arguments.get_text("job_id"@);
            &&& a is List <==> action == Some("list"@)
            &&& a is Create <==> action == Some("create"@)
            &&& a is RunNow <==> action == Some("run_now"@)
            &&& a is Pause <==> action == Some("pause"@)
            &&& a is Unpause <==> action == Some("unpause"@)
            &&& a is Delete <==> action == Some("delete"@)
            &&& a is Kill <==> action == Some("kill"@)
            &&& a is Inspect <==> action == Some("inspect"@)
            &&& a is Sessions <==> action == Some("sessions"@)
            &&& a is SessionContent <==> action == Some("session_content"@)
            &&& a matches ActionModel::RunNow(id) ==> job == Some(id)
            &&& a matches ActionModel::Pause(id) ==> job == Some(id)
            &&& a matches ActionModel::Unpause(id) ==> job == Some(id)
            &&& a matches ActionModel::Delete(id) ==> job == Some(id)
            &&& a matches ActionModel::Kill(id) ==> job == Some(id)
            &&& a matches ActionModel::Inspect(id) ==> job == Some(id)
            &&& a matches ActionModel::Sessions { job_id, .. } ==> job == Some(job_id)
            &&& a matches ActionModel::SessionContent(id) ==> arguments.get_text("session_id"@)
                == Some(id)
            &&& a matches ActionModel::Create { recipe_path, cron, .. } ==> arguments.get_text(
                "recipe_path"@,
            ) == Some(recipe_path) && arguments.get_text("cron_expression"@) == Some(cron)
        },
{
    reveal_strlit("list");
    reveal_strlit("create");
    reveal_strlit("run_now");
    reveal_strlit("pause");
    reveal_strlit("unpause");
    reveal_strlit("delete");
    reveal_strlit("kill");
    reveal_strlit("inspect");
    reveal_strlit("sessions");
    reveal_strlit("session_content");
    assert("list"@[0] == 'l' && "create"@[0] == 'c' && "run_now"@[0] == 'r' && "pause"@[0] == 'p'
        && "unpause"@[0] == 'u' && "delete"@[0] == 'd' && "kill"@[0] == 'k' && "inspect"@[0] == 'i'
        && "sessions"@[0] == 's' && "session_content"@[0] == 's');
    assert("sessions"@.len() != "session_content"@.len());
}

/// A request that names its action and what that needs is never refused.
pub proof fn law_complete_requests_are_read(arguments: Tree)
    ensures
        ({
            let action = arguments.get_text("action"@);
            let job = arguments.get_text("job_id"@) is Some;
            let r = schedule_request(true, arguments);
            &&& action == Some("list"@) ==> r is Ok
            &&& action matches Some(a) ==> (is_job_action(a) && a != "list"@ && a != "create"@ ==> (
            r is Ok <==> job))
            &&& action == Some("create"@) && arguments.get_text("recipe_path"@) is Some
                && arguments.get_text("cron_expression"@) is Some ==> r is Ok
            &&& action is None ==> (r matches Err(e) && e.code == ErrorCode::InvalidParams)
        }),
        arguments.get_text("action"@) == Some("create"@) ==> (schedule_request(true, arguments)
            matches Ok(ActionModel::Create { mode, .. }) ==> (arguments.get_text("execution_mode"@)
            matches Some(m) ==> mode == m)),
{
    reveal_strlit("list");
    reveal_strlit("create");
    assert("list"@.len() != "create"@.len());
}

/// A parameter that is there and a text is what was given; every other case is refused with an
/// error that names it.
pub proof fn law_missing_parameters_are_named(arguments: Tree, name: Seq<char>, code: ErrorCode)
    ensures
        wanted(arguments, name, code) is Ok <==> arguments.get_text(name) is Some,
        arguments.get_text(name) matches Some(s) ==> wanted(arguments, name, code) == Ok::<
            Seq<char>,
            ErrorModel,
        >(s),
        wanted(arguments, name, code) matches Err(e) ==> e.code == code && has_text(
            e.message,
            name,
        ),
{
    lemma_has_text("Missing '"@, name, "' parameter"@);
}

/// A job is made only of a file that holds a recipe, and any other is told with its reason.
pub proof fn law_jobs_need_a_recipe(path: Seq<char>, file: RecipeFile)
    ensures
        recipe_error(path, file) is None <==> file is Valid,
        file is Missing ==> has_text(recipe_error(path, file)->0.message, path),
        file matches RecipeFile::Unreadable(e) ==> has_text(recipe_error(path, file)->0.message, e@),
        file matches RecipeFile::Invalid(e) ==> has_text(recipe_error(path, file)->0.message, e@),
{
    lemma_has_text("Recipe file not found: "@, path, Seq::empty());
    if let RecipeFile::Unreadable(e) = file {
        lemma_has_text("Cannot read recipe file: "@, e@, Seq::empty());
    }
    if let RecipeFile::Invalid(e) = file {
        lemma_has_text("Invalid JSON recipe: "@, e@, Seq::empty());
        lemma_has_text("Invalid YAML recipe: "@, e@, Seq::empty());
    }
}

/// Each change of a job is told in its own words, done or not.
pub proof fn law_changes_are_told_apart(a: JobChange, b: JobChange)
    ensures
        change_done(a) == change_done(b) <==> a == b,
        change_failed(a) == change_failed(b) <==> a == b,
{
    reveal_strlit("Successfully paused job '");
    reveal_strlit("Successfully unpaused job '");
    reveal_strlit("Successfully removed schedule for job '");
    reveal_strlit("Successfully killed running job '");
    reveal_strlit("Failed to pause job: ");
    reveal_strlit("Failed to unpause job: ");
    reveal_strlit("Failed to remove schedule: ");
    reveal_strlit("Failed to kill job: ");
    assert(change_done(JobChange::Pause)[13] == 'p' && change_done(JobChange::Unpause)[13] == 'u'
        && change_done(JobChange::Delete)[13] == 'r' && change_done(JobChange::Kill)[13] == 'k');
    assert(change_failed(JobChange::Pause)[10] == 'p' && change_failed(JobChange::Unpause)[10]
        == 'u' && change_failed(JobChange::Delete)[10] == 'r' && change_failed(JobChange::Kill)[10]
        == 'k');
}

/// Every session of a job is listed with its name and its directory.
pub proof fn law_listed_sessions_are_named(v: Seq<JobSession>, i: int)
    requires
        0 <= i < v.len(),
    ensures
        session_lines(v).len() == v.len(),
        has_text(session_lines(v)[i], v[i].name@),
        has_text(session_lines(v)[i], v[i].working_dir@),
{
    let a = "- Session: "@;
    let n = v[i].name@;
    let b = " (Messages: "@ + decimal(v[i].message_count as nat) + ", Working Dir: "@;
    let d = v[i].working_dir@;
    assert(session_lines(v)[i] =~= a + n + (b + d + ")"@));
    assert(session_lines(v)[i] =~= (a + n + b) + d + ")"@);
    lemma_has_text(a, n, b + d + ")"@);
    lemma_has_text(a + n + b, d, ")"@);
}

} // verus!
