use transcribe_chunks::task::{
    download_srt, duplicate_text, Download, JobOutcome, Task, TaskBoard, TaskStatus, TaskSummary,
};

fn queued(id: &str) -> Task {
    Task::queued(id.to_string(), "talk.mp3".to_string(), format!("uploads/{}", id))
}

fn is_hyphenated(id: &str) -> bool {
    id.len() == 36
        && id.chars().enumerate().all(|(i, c)| match i {
            8 | 13 | 18 | 23 => c == '-',
            _ => c.is_ascii_digit() || ('a'..='f').contains(&c),
        })
}

#[test]
fn queued_task_has_no_result() {
    let task = queued("t1");
    assert_eq!(
        task,
        Task {
            id: "t1".to_string(),
            status: TaskStatus::Queued,
            original_filename: "talk.mp3".to_string(),
            file_path: "uploads/t1".to_string(),
            result_srt: None,
        }
    );
}

#[test]
fn upload_is_stored_under_its_identifier() {
    let named = Task::for_upload("abc".to_string(), Some("a.wav".to_string()), "zzz".to_string());
    assert_eq!(named.file_path, "uploads/abc");
    assert_eq!(named.original_filename, "a.wav");
    assert_eq!(named.status, TaskStatus::Queued);
    let unnamed = Task::for_upload("abc".to_string(), None, "zzz".to_string());
    assert_eq!(unnamed.original_filename, "zzz");
    assert_eq!(unnamed.id, "abc");
}

#[test]
fn new_upload_gets_a_fresh_identifier() {
    let a = Task::new_upload(Some("a.wav".to_string()));
    let b = Task::new_upload(None);
    assert!(is_hyphenated(&a.id));
    assert!(is_hyphenated(&b.id));
    assert_ne!(a.id, b.id);
    assert!(uuid::Uuid::parse_str(&a.id).is_ok());
    assert_eq!(a.original_filename, "a.wav");
    assert!(is_hyphenated(&b.original_filename));
    assert_ne!(b.original_filename, b.id);
    assert_eq!(a.file_path, format!("uploads/{}", a.id));
    assert_eq!(a.status, TaskStatus::Queued);
    assert_eq!(b.result_srt, None);
}

#[test]
fn status_changes_at_three_points() {
    let mut task = queued("t1");
    task.mark_processing();
    assert_eq!(task.status, TaskStatus::Processing);
    assert_eq!(task.result_srt, None);
    task.settle(JobOutcome::Transcribed("1\n...".to_string()));
    assert_eq!(task.status, TaskStatus::Completed);
    assert_eq!(task.result_srt, Some("1\n...".to_string()));
    assert_eq!(task.file_path, "uploads/t1");
}

#[test]
fn failure_keeps_its_reason() {
    let mut task = queued("t1");
    task.mark_processing();
    task.settle(JobOutcome::Errored("FFmpeg conversion failed".to_string()));
    assert_eq!(task.status, TaskStatus::Failed("FFmpeg conversion failed".to_string()));
    assert_eq!(task.result_srt, None);
    let mut other = queued("t2");
    other.settle(JobOutcome::Panicked("task 7 panicked".to_string()));
    assert_eq!(other.status, TaskStatus::Failed("Worker panic: task 7 panicked".to_string()));
}

#[test]
fn download_needs_a_known_job_with_a_result() {
    assert_eq!(download_srt(None), Download::NotFound);
    let mut task = queued("t1");
    assert_eq!(download_srt(Some(&task)), Download::NotReady);
    task.mark_processing();
    assert_eq!(download_srt(Some(&task)), Download::NotReady);
    task.settle(JobOutcome::Transcribed("body".to_string()));
    assert_eq!(
        download_srt(Some(&task)),
        Download::Ready { file_name: "t1.srt".to_string(), body: "body".to_string() }
    );
    let mut failed = queued("t2");
    failed.settle(JobOutcome::Errored("no".to_string()));
    assert_eq!(download_srt(Some(&failed)), Download::NotReady);
}

#[test]
fn summary_leaves_out_path_and_result() {
    let mut task = queued("t1");
    task.settle(JobOutcome::Transcribed("body".to_string()));
    assert_eq!(
        task.summary(),
        TaskSummary {
            id: "t1".to_string(),
            status: TaskStatus::Completed,
            original_filename: "talk.mp3".to_string(),
        }
    );
}

#[test]
fn duplicates_are_equal() {
    let mut task = queued("t1");
    task.settle(JobOutcome::Errored("x".to_string()));
    assert_eq!(task.duplicate(), task);
    assert_eq!(task.status.duplicate(), TaskStatus::Failed("x".to_string()));
    assert_eq!(duplicate_text(&Some("a".to_string())), Some("a".to_string()));
    assert_eq!(duplicate_text(&None), None);
}

#[test]
fn board_follows_a_job_through() {
    let mut board = TaskBoard::new();
    assert_eq!(board.find("t1"), None);
    assert_eq!(board.download("t1"), Download::NotFound);
    assert_eq!(board.status("t1"), None);
    board.submit(queued("t1"));
    board.submit(queued("t2"));
    assert_eq!(board.find("t1"), Some(queued("t1")));
    assert_eq!(board.download("t1"), Download::NotReady);
    assert!(board.mark_processing("t1"));
    assert_eq!(board.status("t1").map(|s| s.status), Some(TaskStatus::Processing));
    assert_eq!(board.status("t2").map(|s| s.status), Some(TaskStatus::Queued));
    assert!(board.settle("t1", JobOutcome::Transcribed("body".to_string())));
    assert_eq!(
        board.download("t1"),
        Download::Ready { file_name: "t1.srt".to_string(), body: "body".to_string() }
    );
    assert_eq!(board.download("t2"), Download::NotReady);
    assert!(board.settle("t2", JobOutcome::Panicked("gone".to_string())));
    assert_eq!(
        board.status("t2").map(|s| s.status),
        Some(TaskStatus::Failed("Worker panic: gone".to_string()))
    );
}

#[test]
fn board_leaves_unknown_jobs_alone() {
    let mut board = TaskBoard::new();
    board.submit(queued("t1"));
    assert!(!board.mark_processing("nope"));
    assert!(!board.settle("nope", JobOutcome::Errored("x".to_string())));
    assert_eq!(board.find("nope"), None);
    assert_eq!(board.find("t1"), Some(queued("t1")));
}

#[test]
fn board_replaces_a_job_submitted_again() {
    let mut board = TaskBoard::new();
    board.submit(queued("t1"));
    assert!(board.mark_processing("t1"));
    board.submit(queued("t1"));
    assert_eq!(board.find("t1").map(|t| t.status), Some(TaskStatus::Queued));
}
