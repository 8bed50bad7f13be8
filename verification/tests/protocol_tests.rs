use transcribe_chunks::locate::first_available;
use transcribe_chunks::protocol::{prefixed, request_text, send_error, WorkerRequest, WorkerResponse};
use transcribe_chunks::segment::Segment;

#[test]
fn error_response_carries_the_message() {
    let response = send_error("Transcription failed: no audio".to_string());
    assert_eq!(
        response,
        WorkerResponse {
            success: false,
            segments: None,
            error: Some("Transcription failed: no audio".to_string()),
        }
    );
}

#[test]
fn failures_name_their_kind() {
    assert_eq!(
        WorkerResponse::unreadable("expected value at line 1 column 1").error,
        Some("JSON Parse Error: expected value at line 1 column 1".to_string())
    );
    assert_eq!(
        WorkerResponse::failed("model not loaded").error,
        Some("Transcription failed: model not loaded".to_string())
    );
    assert!(!WorkerResponse::unreadable("x").success);
    assert!(!WorkerResponse::failed("x").success);
}

#[test]
fn completed_response_hands_the_segments_back() {
    let segments = vec![Segment::new(0, 1_500, "hello".to_string())];
    let response = WorkerResponse::completed(Some(segments.clone()));
    assert!(response.success);
    assert_eq!(response.error, None);
    assert_eq!(response.into_result(), Ok(segments));
}

#[test]
fn success_without_segments_is_an_empty_list() {
    assert_eq!(WorkerResponse::completed(None).into_result(), Ok(vec![]));
}

#[test]
fn failure_becomes_a_worker_error() {
    assert_eq!(
        send_error("boom".to_string()).into_result(),
        Err("Worker error: boom".to_string())
    );
    let silent = WorkerResponse { success: false, segments: None, error: None };
    assert_eq!(silent.into_result(), Err("Worker error: ".to_string()));
    // A failure is a failure even if segments came along.
    let odd = WorkerResponse {
        success: false,
        segments: Some(vec![Segment::new(0, 1, "x".to_string())]),
        error: Some("e".to_string()),
    };
    assert_eq!(odd.into_result(), Err("Worker error: e".to_string()));
}

#[test]
fn empty_lines_are_no_requests() {
    assert_eq!(request_text(""), None);
    assert_eq!(request_text("  \r\n"), None);
    assert_eq!(
        request_text(" {\"chunk_path\": \"a.wav\"}\n"),
        Some("{\"chunk_path\": \"a.wav\"}".to_string())
    );
}

#[test]
fn request_names_the_file() {
    assert_eq!(WorkerRequest::new("a.wav".to_string()).chunk_path, "a.wav");
    assert_eq!(prefixed("ab", "cd"), "abcd");
    assert_eq!(prefixed("", ""), "");
}

#[test]
fn first_available_goes_by_preference() {
    assert_eq!(first_available(&[true, true, true]), Some(0));
    assert_eq!(first_available(&[false, true, true]), Some(1));
    assert_eq!(first_available(&[false, false, true]), Some(2));
    assert_eq!(first_available(&[false, false, false]), None);
    assert_eq!(first_available(&[]), None);
}
