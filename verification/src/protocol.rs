//! The messages between the orchestrator and a worker process: one request
//! and one response per line.
//!
//! This module holds what the two sides decide; turning messages into
//! lines and back is left to the program around the library.

use crate::segment::Segment;
use crate::text::{trim, trimmed};
use vstd::prelude::*;

verus! {

/// A request to transcribe one wave file.
#[derive(Clone, Debug, PartialEq, Eq)]
pub struct WorkerRequest {
    pub chunk_path: String,
}

/// The answer of a worker: the segments of the file, or the error.
#[derive(Debug, PartialEq, Eq)]
pub struct WorkerResponse {
    pub success: bool,
    pub segments: Option<Vec<Segment>>,
    pub error: Option<String>,
}

/// The text that stands in front of the error of a worker.
pub open spec fn worker_error(message: Seq<char>) -> Seq<char> {
    "Worker error: "@ + message
}

/// The message for a request that could not be read.
pub open spec fn parse_error(detail: Seq<char>) -> Seq<char> {
    "JSON Parse Error: "@ + detail
}

/// The message for a file that could not be transcribed.
pub open spec fn transcription_error(detail: Seq<char>) -> Seq<char> {
    "Transcription failed: "@ + detail
}

/// `prefix` followed by `rest`.
pub fn prefixed(prefix: &str, rest: &str) -> (out: String)
    ensures
        out@ == prefix@ + rest@,
{
    let mut out: String = String::new();
    out.append(prefix);
    out.append(rest);
    out
}

/// The response that reports the failure `msg`.
pub fn send_error(msg: String) -> (response: WorkerResponse)
    ensures
        !response.success,
        response.segments is None,
        response.error == Some(msg),
{
    WorkerResponse { success: false, segments: None, error: Some(msg) }
}

/// What a worker does with a line of its input: nothing if the line is
/// empty once trimmed, else it reads the trimmed line as a request.
pub fn request_text(line: &str) -> (out: Option<String>)
    ensures
        match out {
            Some(text) => text@ == trimmed(line@) && text@.len() > 0,
            None => trimmed(line@).len() == 0,
        },
{
    let text: String = trim(line);
    if text.as_str().is_empty() {
        None
    } else {
        Some(text)
    }
}

impl WorkerRequest {
    /// The request to transcribe the file at `chunk_path`.
    pub fn new(chunk_path: String) -> (request: WorkerRequest)
        ensures
            request.chunk_path == chunk_path,
    {
        WorkerRequest { chunk_path }
    }
}

impl WorkerResponse {
    /// The response that hands back the segments of a file. An engine that
    /// gives no timed segments hands back `None`.
    pub fn completed(segments: Option<Vec<Segment>>) -> (response: WorkerResponse)
        ensures
            response.success,
            response.segments == segments,
            response.error is None,
    {
        WorkerResponse { success: true, segments, error: None }
    }

    /// The response to a line that is no request.
    pub fn unreadable(detail: &str) -> (response: WorkerResponse)
        ensures
            !response.success,
            response.segments is None,
            response.error is Some,
            response.error->0@ == parse_error(detail@),
    {
        send_error(prefixed("JSON Parse Error: ", detail))
    }

    /// The response for a file that the engine could not transcribe.
    pub fn failed(detail: &str) -> (response: WorkerResponse)
        ensures
            !response.success,
            response.segments is None,
            response.error is Some,
            response.error->0@ == transcription_error(detail@),
    {
        send_error(prefixed("Transcription failed: ", detail))
    }

    /// What the orchestrator makes of the response: on success the
    /// segments, none if none were sent; else the error of the worker, an
    /// empty one if none was sent.
    pub fn into_result(self) -> (out: Result<Vec<Segment>, String>)
        ensures
            match out {
                Ok(segments) => self.success && match self.segments {
                    Some(sent) => segments == sent,
                    None => segments@.len() == 0,
                },
                Err(message) => !self.success && message@ == worker_error(
                    match self.error {
                        Some(sent) => sent@,
                        None => Seq::empty(),
                    },
                ),
            },
    {
        if self.success {
            match self.segments {
                Some(sent) => Ok(sent),
                None => Ok(Vec::new()),
            }
        } else {
            match self.error {
                Some(sent) => Err(prefixed("Worker error: ", sent.as_str())),
                None => Err(prefixed("Worker error: ", String::new().as_str())),
            }
        }
    }
}

} // verus!
