use goose::conversation::{ErrorCode, ErrorData};
use goose::json::{parse, Json};
use goose::schedule::{
    change_answer, create_job, created_answer, handle_schedule_management, inspect_answer,
    is_json_recipe, list_answer, run_now_answer, running_job, session_content_answer,
    sessions_answer,
    JobChange, JobSession, RecipeFile, RunningJob, ScheduleAction, SessionRead,
};

fn json(text: &str) -> Json {
    parse(text).unwrap()
}

fn asked(text: &str) -> Result<ScheduleAction, ErrorData> {
    handle_schedule_management(true, &json(text))
}

#[test]
fn schedule_requests_are_read() {
    assert_eq!(asked(r#"{"action":"list"}"#), Ok(ScheduleAction::List));
    assert_eq!(
        asked(r#"{"action":"create","recipe_path":"r.yaml","cron_expression":"* * * * *"}"#),
        Ok(ScheduleAction::Create {
            recipe_path: "r.yaml".to_string(),
            cron: "* * * * *".to_string(),
            mode: "background".to_string(),
        })
    );
    assert_eq!(
        asked(r#"{"action":"pause","job_id":"j"}"#),
        Ok(ScheduleAction::Pause("j".to_string()))
    );
    assert_eq!(
        asked(r#"{"action":"sessions","job_id":"j"}"#),
        Ok(ScheduleAction::Sessions { job_id: "j".to_string(), limit: 50 })
    );
    assert_eq!(
        asked(r#"{"action":"sessions","job_id":"j","limit":3}"#),
        Ok(ScheduleAction::Sessions { job_id: "j".to_string(), limit: 3 })
    );
    assert_eq!(
        asked(r#"{"action":"session_content","session_id":"s"}"#),
        Ok(ScheduleAction::SessionContent("s".to_string()))
    );
}

#[test]
fn bad_requests_are_refused() {
    let e = handle_schedule_management(false, &json(r#"{"action":"list"}"#)).unwrap_err();
    assert_eq!(e.message, "Scheduler not available");
    let e = asked("{}").unwrap_err();
    assert_eq!(e.code, ErrorCode::InvalidParams);
    assert_eq!(e.message, "Missing 'action' parameter");
    assert_eq!(asked(r#"{"action":"fly"}"#).unwrap_err().message, "Unknown action: fly");
    let e = asked(r#"{"action":"run_now"}"#).unwrap_err();
    assert_eq!(e.code, ErrorCode::InvalidParams);
    let e = asked(r#"{"action":"kill"}"#).unwrap_err();
    assert_eq!(e.code, ErrorCode::InternalError);
    assert_eq!(e.message, "Missing 'job_id' parameter");
}

#[test]
fn jobs_need_a_recipe() {
    let job = create_job("r.yaml", "* * * * *", RecipeFile::Valid, 17).unwrap();
    assert_eq!(job.id, "agent_created_17");
    assert_eq!(job.source, "r.yaml");
    assert!(!job.currently_running);
    assert!(!job.paused);
    let e = |file: RecipeFile, path: &str| create_job(path, "c", file, 1).unwrap_err().message;
    assert_eq!(e(RecipeFile::Missing, "r.yaml"), "Recipe file not found: r.yaml");
    assert_eq!(
        e(RecipeFile::Unreadable("denied".to_string()), "r.yaml"),
        "Cannot read recipe file: denied"
    );
    assert_eq!(e(RecipeFile::Invalid("x".to_string()), "r.yaml"), "Invalid YAML recipe: x");
    assert_eq!(e(RecipeFile::Invalid("x".to_string()), "r.json"), "Invalid JSON recipe: x");
    assert!(is_json_recipe("r.json"));
    assert!(!is_json_recipe("r.yaml"));
}

#[test]
fn answers_say_what_happened() {
    assert_eq!(
        created_answer("j", "r.yaml", "c", "background", None).unwrap(),
        "Successfully created scheduled job 'j' for recipe 'r.yaml' with cron expression 'c' in background mode"
    );
    assert!(created_answer("j", "r", "c", "m", Some("no".to_string())).is_err());
    assert_eq!(
        run_now_answer("j", Ok("s".to_string())).unwrap(),
        "Successfully started job 'j'. Session ID: s"
    );
    assert_eq!(
        run_now_answer("j", Err("busy".to_string())).unwrap_err().message,
        "Failed to run job: busy"
    );
    assert_eq!(
        change_answer(JobChange::Delete, "j", None).unwrap(),
        "Successfully removed schedule for job 'j'"
    );
    assert_eq!(
        change_answer(JobChange::Kill, "j", Some("gone".to_string())).unwrap_err().message,
        "Failed to kill job: gone"
    );
    assert_eq!(change_answer(JobChange::Pause, "j", None).unwrap(), "Successfully paused job 'j'");
    assert_eq!(
        change_answer(JobChange::Unpause, "j", None).unwrap(),
        "Successfully unpaused job 'j'"
    );
}

#[test]
fn running_jobs_know_when_they_started() {
    let job = running_job("s".to_string(), 1_700_000_000, 0, 1_700_000_090, 5).unwrap();
    assert_eq!(job.started, "2023-11-14T22:13:20+00:00");
    assert_eq!(job.seconds, 90);
    assert_eq!(job.session_id, "s");
    let job = running_job("s".to_string(), 1_700_000_000, 0, 1_699_999_998, 500_000_000).unwrap();
    assert_eq!(job.seconds, -1);
    assert_eq!(running_job("s".to_string(), i64::MAX, 0, 0, 0), None);
}

#[test]
fn jobs_are_shown() {
    let job = RunningJob {
        session_id: "s".to_string(),
        started: "noon".to_string(),
        seconds: -3,
    };
    assert_eq!(
        inspect_answer("j", Ok(Some(job))).unwrap(),
        "Job 'j' is currently running:\n- Session ID: s\n- Started: noon\n- Duration: -3 seconds"
    );
    assert_eq!(inspect_answer("j", Ok(None)).unwrap(), "Job 'j' is not currently running");
    assert!(inspect_answer("j", Err("x".to_string())).is_err());
    let session = JobSession {
        name: "n".to_string(),
        message_count: 2,
        working_dir: "/w".to_string(),
    };
    assert_eq!(
        sessions_answer("j", Ok(vec![session])).unwrap(),
        "Sessions for job 'j':\n- Session: n (Messages: 2, Working Dir: /w)"
    );
    assert_eq!(sessions_answer("j", Ok(vec![])).unwrap(), "No sessions found for job 'j'");
    assert_eq!(list_answer(Ok("[]".to_string())).unwrap(), "Scheduled Jobs:\n[]");
    assert!(list_answer(Err("x".to_string())).is_err());
    assert_eq!(
        session_content_answer("s", SessionRead::Written("{}".to_string())).unwrap(),
        "Session 's' Content:\n\nSession:\n{}"
    );
    assert!(session_content_answer("s", SessionRead::Unreadable("x".to_string())).is_err());
    assert!(session_content_answer("s", SessionRead::Unwritable("x".to_string())).is_err());
}
