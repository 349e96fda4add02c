use goose::download_manager::{
    authorization, bytes_present, delay_before, is_orphaned_partial, next_file, partial_path_for,
    resolved_total, total_of, DownloadManager, DownloadProgress, DownloadStatus, FileDownload,
    FileStep, NextFile, Percent, MAX_RETRIES,
};

#[test]
fn registered_partials_stay() {
    let destination = "/models/m.gguf";
    let partial = partial_path_for(destination);
    assert_ne!(partial, destination);
    assert!(!is_orphaned_partial(&partial, &vec![destination.to_string()]));
    assert!(is_orphaned_partial(&partial, &vec![]));
    assert!(!is_orphaned_partial("/models/m.gguf", &vec![]));
    assert!(!is_orphaned_partial("/models/.part", &vec![]));
}

#[test]
fn registered_paths_are_compared_by_their_components() {
    let registered = vec!["/models//sub/./m.gguf/".to_string()];
    assert!(!is_orphaned_partial("/models/sub/m.gguf.part", &registered));
    assert!(!is_orphaned_partial(&partial_path_for("/models/sub/m.gguf/"), &registered));
    assert!(is_orphaned_partial("/models/m.gguf.part", &registered));
}

#[test]
fn partial_files_have_one_more_extension() {
    for (path, extension) in [
        ("/models/m.gguf", "gguf.part"),
        ("/models//m.gguf/", "gguf.part"),
        ("/models/m", "part"),
        ("m./", ".part"),
        ("/models/.hidden", "part"),
        ("/models/..", "part"),
        ("/", "part"),
        (".", "part"),
    ] {
        let known = std::path::Path::new(path).with_extension(extension);
        assert_eq!(partial_path_for(path), known.to_str().unwrap());
    }
}

#[test]
fn one_task_runs_per_download() {
    let mut m = DownloadManager::new();
    assert_eq!(m.begin_download("a", 100), Ok(()));
    assert!(m.begin_download("a", 100).is_err());
    assert!(m.is_downloading("a"));
    assert!(m.begin_download("b", 0).is_ok());
    m.end_download("a", Ok(()));
    assert!(!m.is_downloading("a"));
    assert!(m.is_downloading("b"));
    assert!(m.begin_download("a", 100).is_ok());
}

#[test]
fn downloads_end_as_they_went() {
    let mut m = DownloadManager::new();
    m.begin_download("a", 100).unwrap();
    m.set_total("a", 200);
    m.add_total("a", 50);
    m.note_bytes("a", 125, Some(25));
    let p = m.get_progress("a").unwrap();
    assert_eq!(p.total_bytes, 250);
    assert_eq!(p.bytes_downloaded, 125);
    assert_eq!(p.percent, Percent::Ratio { done: 125, total: 250 });
    assert_eq!(p.speed_bps, Some(25));
    assert_eq!(p.eta_seconds, Some(5));
    m.end_download("a", Err("broken".to_string()));
    let p = m.get_progress("a").unwrap();
    assert_eq!(p.status, DownloadStatus::Failed);
    assert_eq!(p.error.as_deref(), Some("broken"));
    m.clear_completed("a");
    assert!(m.get_progress("a").is_none());
}

#[test]
fn downloads_can_be_cancelled() {
    let mut m = DownloadManager::new();
    assert!(m.cancel_download("a").is_err());
    m.begin_download("a", 100).unwrap();
    assert!(!m.is_cancelled("a"));
    assert_eq!(m.cancel_download("a"), Ok(()));
    assert!(m.is_cancelled("a"));
    m.end_download("a", Err("cancelled".to_string()));
    assert_eq!(m.get_progress("a").unwrap().status, DownloadStatus::Cancelled);
    assert_eq!(m.list_progress().len(), 1);
}

#[test]
fn progress_is_kept_by_id() {
    let progress = |id: &str| DownloadProgress {
        model_id: id.to_string(),
        status: DownloadStatus::Completed,
        bytes_downloaded: 1,
        total_bytes: 1,
        percent: Percent::Full,
        speed_bps: None,
        eta_seconds: None,
        error: None,
        task_exited: true,
    };
    let mut m = DownloadManager::new();
    m.set_progress(progress("a"));
    m.set_progress(progress("b"));
    assert_eq!(m.list_progress().len(), 2);
    assert!(m.reserve_download(progress("c")));
    let mut other = progress("a");
    other.bytes_downloaded = 7;
    m.update_progress("a", other);
    assert_eq!(m.get_progress("a").unwrap().bytes_downloaded, 7);
    assert_eq!(m.get_progress("b").unwrap().bytes_downloaded, 1);
}

#[test]
fn waits_grow_to_a_minute() {
    assert_eq!(delay_before(1), 2);
    assert_eq!(delay_before(2), 4);
    assert_eq!(delay_before(5), 32);
    assert_eq!(delay_before(6), 60);
    assert_eq!(delay_before(10), 60);
    assert_eq!(MAX_RETRIES, 10);
}

#[test]
fn retries_are_bounded() {
    let (mut f, first) = FileDownload::begin(0, 100, 0);
    assert_eq!(first, FileStep::Request);
    for _ in 0..MAX_RETRIES {
        assert!(matches!(f.on_connection_error("down"), FileStep::RetryAfter(_)));
    }
    match f.on_connection_error("down") {
        FileStep::Fail(text) => assert!(text.contains("down")),
        _ => panic!("not given up"),
    }
}

#[test]
fn downloads_go_on_where_they_stopped() {
    let (f, first) = FileDownload::begin(40, 100, 0);
    assert_eq!(first, FileStep::Request);
    assert_eq!(f.range_header().as_deref(), Some("bytes=40-"));
    let (_, done) = FileDownload::begin(100, 100, 0);
    assert_eq!(done, FileStep::Finish);
    let (f, _) = FileDownload::begin(0, 100, 0);
    assert_eq!(f.range_header(), None);
}

#[test]
fn only_successes_are_written() {
    let (mut f, _) = FileDownload::begin(40, 100, 40);
    assert_eq!(f.on_answer(206, ""), FileStep::Receive);
    f.on_chunk(10);
    assert_eq!(f.file_bytes, 50);
    let (mut f, _) = FileDownload::begin(40, 100, 40);
    assert_eq!(f.on_answer(200, ""), FileStep::ReceiveAnew);
    assert_eq!(f.file_bytes, 0);
    let (mut f, _) = FileDownload::begin(0, 100, 0);
    assert!(matches!(f.on_answer(404, "not found"), FileStep::Fail(_)));
    let (mut f, _) = FileDownload::begin(0, 100, 0);
    assert!(matches!(f.on_answer(503, "busy"), FileStep::RetryAfter(_)));
}

#[test]
fn sizes_are_learned() {
    let (mut f, _) = FileDownload::begin(10, 0, 0);
    assert_eq!(f.learn_size(&Some("bytes 10-99/100".to_string()), Some(90)), Some(100));
    assert_eq!(f.file_total, 100);
    assert_eq!(f.learn_size(&Some("bytes 10-99/200".to_string()), None), None);
    let (mut f, _) = FileDownload::begin(0, 0, 0);
    assert_eq!(f.learn_size(&Some("bytes 0-9/100".to_string()), Some(10)), Some(10));
    assert_eq!(total_of(&vec![1, 2, 3]), 6);
    assert_eq!(resolved_total(&vec![1, 2, 3]), Some(6));
    assert_eq!(bytes_present(Some(5), Some(3)), 5);
    assert_eq!(bytes_present(None, Some(3)), 3);
    assert_eq!(bytes_present(None, None), 0);
}

#[test]
fn files_are_taken_one_by_one() {
    assert!(matches!(next_file(true, false), NextFile::Cancelled(_)));
    assert_eq!(next_file(false, true), NextFile::Skip);
    assert_eq!(next_file(false, false), NextFile::Fetch);
    assert_eq!(authorization(&Some("t".to_string())).as_deref(), Some("Bearer t"));
    assert_eq!(authorization(&None), None);
    assert!(FileDownload::if_cancelled(true).is_some());
    assert!(FileDownload::if_cancelled(false).is_none());
}

#[test]
fn statuses_are_told_with_their_reason() {
    let (mut f, _) = FileDownload::begin(0, 10, 0);
    assert_eq!(
        f.on_status(404),
        Some(FileStep::Fail("Failed to download: HTTP 404 Not Found".to_string()))
    );
    assert_eq!(f.on_status(206), Some(FileStep::Receive));
    assert_eq!(f.on_status(42), None);
}
