//! Jobs of the server: their status, the three points at which it changes,
//! and the board that holds them by identifier.

use vstd::hash_map::StringHashMap;
use vstd::prelude::*;

verus! {

/// Where a job stands.
#[derive(Clone, Debug, PartialEq, Eq)]
pub enum TaskStatus {
    Queued,
    Processing,
    Completed,
    Failed(String),
}

/// A status as contracts speak of it.
pub ghost enum TaskStatusView {
    Queued,
    Processing,
    Completed,
    Failed(Seq<char>),
}

impl View for TaskStatus {
    type V = TaskStatusView;

    open spec fn view(&self) -> TaskStatusView {
        match self {
            TaskStatus::Queued => TaskStatusView::Queued,
            TaskStatus::Processing => TaskStatusView::Processing,
            TaskStatus::Completed => TaskStatusView::Completed,
            TaskStatus::Failed(reason) => TaskStatusView::Failed(reason@),
        }
    }
}

/// A job: an uploaded file to be transcribed.
#[derive(Clone, Debug, PartialEq, Eq)]
pub struct Task {
    pub id: String,
    pub status: TaskStatus,
    pub original_filename: String,
    /// Where the uploaded file lies. It is never shown to a client.
    pub file_path: String,
    /// The subtitle text, once the job is completed.
    pub result_srt: Option<String>,
}

/// A job as contracts speak of it.
pub ghost struct TaskView {
    pub id: Seq<char>,
    pub status: TaskStatusView,
    pub original_filename: Seq<char>,
    pub file_path: Seq<char>,
    pub result_srt: Option<Seq<char>>,
}

/// The text of an optional string.
pub open spec fn text_of(s: Option<String>) -> Option<Seq<char>> {
    match s {
        Some(t) => Some(t@),
        None => None,
    }
}

impl View for Task {
    type V = TaskView;

    open spec fn view(&self) -> TaskView {
        TaskView {
            id: self.id@,
            status: self.status@,
            original_filename: self.original_filename@,
            file_path: self.file_path@,
            result_srt: text_of(self.result_srt),
        }
    }
}

/// What a client may see of a job: everything but the file path and the
/// result.
#[derive(Clone, Debug, PartialEq, Eq)]
pub struct TaskSummary {
    pub id: String,
    pub status: TaskStatus,
    pub original_filename: String,
}

/// How the transcription of a job ended.
#[derive(Clone, Debug, PartialEq, Eq)]
pub enum JobOutcome {
    /// The subtitle text.
    Transcribed(String),
    /// The error that stopped the job.
    Errored(String),
    /// The job's thread of execution died; what is known of it.
    Panicked(String),
}

/// An outcome as contracts speak of it.
pub ghost enum JobOutcomeView {
    Transcribed(Seq<char>),
    Errored(Seq<char>),
    Panicked(Seq<char>),
}

impl View for JobOutcome {
    type V = JobOutcomeView;

    open spec fn view(&self) -> JobOutcomeView {
        match self {
            JobOutcome::Transcribed(srt) => JobOutcomeView::Transcribed(srt@),
            JobOutcome::Errored(reason) => JobOutcomeView::Errored(reason@),
            JobOutcome::Panicked(detail) => JobOutcomeView::Panicked(detail@),
        }
    }
}

/// The answer to a request for the subtitle file of a job.
#[derive(Clone, Debug, PartialEq, Eq)]
pub enum Download {
    /// The subtitle text and the name under which it is offered.
    Ready { file_name: String, body: String },
    /// The job is known and has no result yet.
    NotReady,
    /// No job has this identifier.
    NotFound,
}

/// An answer as contracts speak of it.
pub ghost enum DownloadView {
    Ready { file_name: Seq<char>, body: Seq<char> },
    NotReady,
    NotFound,
}

impl View for Download {
    type V = DownloadView;

    open spec fn view(&self) -> DownloadView {
        match self {
            Download::Ready { file_name, body } => DownloadView::Ready {
                file_name: file_name@,
                body: body@,
            },
            Download::NotReady => DownloadView::NotReady,
            Download::NotFound => DownloadView::NotFound,
        }
    }
}

/// Whether `c` is a digit or one of the letters `a` to `f`.
pub open spec fn is_lower_hex(c: char) -> bool {
    ('0' as u32 <= c as u32 <= '9' as u32) || ('a' as u32 <= c as u32 <= 'f' as u32)
}

/// Whether `s` has the shape of a hyphenated identifier: 36 characters,
/// hyphens at the positions 8, 13, 18 and 23, digits and the letters `a` to
/// `f` elsewhere.
pub open spec fn is_hyphenated_id(s: Seq<char>) -> bool {
    &&& s.len() == 36
    &&& forall|i: int|
        0 <= i < 36 ==> if i == 8 || i == 13 || i == 18 || i == 23 {
            #[trigger] s[i] == '-'
        } else {
            is_lower_hex(s[i])
        }
}

/// Where the upload with the identifier `id` is stored.
pub open spec fn upload_path_of(id: Seq<char>) -> Seq<char> {
    "uploads/"@ + id
}

/// A job that waits in the queue.
pub open spec fn queued_task(id: Seq<char>, original_filename: Seq<char>, file_path: Seq<char>) -> TaskView {
    TaskView {
        id,
        status: TaskStatusView::Queued,
        original_filename,
        file_path,
        result_srt: None,
    }
}

/// The job `t` once a worker has taken it up.
pub open spec fn started(t: TaskView) -> TaskView {
    TaskView { status: TaskStatusView::Processing, ..t }
}

/// The reason recorded for a job whose thread of execution died.
pub open spec fn panic_reason(detail: Seq<char>) -> Seq<char> {
    "Worker panic: "@ + detail
}

/// The job `t` once its transcription has ended with `outcome`.
pub open spec fn settled(t: TaskView, outcome: JobOutcomeView) -> TaskView {
    match outcome {
        JobOutcomeView::Transcribed(srt) => TaskView {
            status: TaskStatusView::Completed,
            result_srt: Some(srt),
            ..t
        },
        JobOutcomeView::Errored(reason) => TaskView { status: TaskStatusView::Failed(reason), ..t },
        JobOutcomeView::Panicked(detail) => TaskView {
            status: TaskStatusView::Failed(panic_reason(detail)),
            ..t
        },
    }
}

/// The name under which the subtitle file of the job `id` is offered.
pub open spec fn download_name(id: Seq<char>) -> Seq<char> {
    id + ".srt"@
}

/// The answer to a request for the subtitle file of `task`.
pub open spec fn download_of(task: Option<TaskView>) -> DownloadView {
    match task {
        None => DownloadView::NotFound,
        Some(t) => match t.result_srt {
            None => DownloadView::NotReady,
            Some(srt) => DownloadView::Ready { file_name: download_name(t.id), body: srt },
        },
    }
}

/// A fresh random identifier: `uuid::Uuid::new_v4`, written out by its
/// `to_string`. Which identifier comes back is left open; its text is the
/// hyphenated form in lower case. The call fails hard if the operating
/// system hands out no random bytes.
#[verifier::external_body]
fn fresh_id() -> (id: String)
    ensures
        is_hyphenated_id(id@),
{
    uuid::Uuid::new_v4().to_string()
}

/// A copy of an optional string.
pub fn duplicate_text(s: &Option<String>) -> (out: Option<String>)
    ensures
        out == *s,
{
    match s {
        Some(t) => Some(t.clone()),
        None => None,
    }
}

impl TaskStatus {
    /// A status equal to this one.
    pub fn duplicate(&self) -> (out: TaskStatus)
        ensures
            out == *self,
    {
        match self {
            TaskStatus::Queued => TaskStatus::Queued,
            TaskStatus::Processing => TaskStatus::Processing,
            TaskStatus::Completed => TaskStatus::Completed,
            TaskStatus::Failed(reason) => TaskStatus::Failed(reason.clone()),
        }
    }
}

impl Task {
    /// A job that waits in the queue.
    pub fn queued(id: String, original_filename: String, file_path: String) -> (task: Task)
        ensures
            task@ == queued_task(id@, original_filename@, file_path@),
    {
        Task { id, status: TaskStatus::Queued, original_filename, file_path, result_srt: None }
    }

    /// The queued job for an upload with the identifier `id`: the file is
    /// stored under the identifier, and the job carries the name that the
    /// client gave, or `fallback` if it gave none.
    pub fn for_upload(id: String, filename: Option<String>, fallback: String) -> (task: Task)
        ensures
            task@ == queued_task(
                id@,
                match filename {
                    Some(name) => name@,
                    None => fallback@,
                },
                upload_path_of(id@),
            ),
    {
        let mut file_path: String = String::new();
        file_path.append("uploads/");
        file_path.append(id.as_str());
        let original_filename: String = match filename {
            Some(name) => name,
            None => fallback,
        };
        Task::queued(id, original_filename, file_path)
    }

    /// The queued job for a new upload, under a fresh identifier. The job
    /// carries the name that the client gave, or else a second fresh
    /// identifier.
    pub fn new_upload(filename: Option<String>) -> (task: Task)
        ensures
            is_hyphenated_id(task@.id),
            task@.status == TaskStatusView::Queued,
            task@.file_path == upload_path_of(task@.id),
            task@.result_srt is None,
            match filename {
                Some(name) => task@.original_filename == name@,
                None => is_hyphenated_id(task@.original_filename),
            },
    {
        let fallback: String = match &filename {
            Some(_) => String::new(),
            None => fresh_id(),
        };
        Task::for_upload(fresh_id(), filename, fallback)
    }

    /// A job equal to this one.
    pub fn duplicate(&self) -> (out: Task)
        ensures
            out == *self,
    {
        Task {
            id: self.id.clone(),
            status: self.status.duplicate(),
            original_filename: self.original_filename.clone(),
            file_path: self.file_path.clone(),
            result_srt: duplicate_text(&self.result_srt),
        }
    }

    /// Records that a worker has taken the job up.
    pub fn mark_processing(&mut self)
        ensures
            final(self)@ == started(old(self)@),
    {
        self.status = TaskStatus::Processing;
    }

    /// Records how the transcription ended: the job is completed and holds
    /// the subtitle text, or it has failed and holds the reason.
    pub fn settle(&mut self, outcome: JobOutcome)
        ensures
            final(self)@ == settled(old(self)@, outcome@),
    {
        match outcome {
            JobOutcome::Transcribed(srt) => {
                self.status = TaskStatus::Completed;
                self.result_srt = Some(srt);
            },
            JobOutcome::Errored(reason) => {
                self.status = TaskStatus::Failed(reason);
            },
            JobOutcome::Panicked(detail) => {
                let mut reason: String = String::new();
                reason.append("Worker panic: ");
                reason.append(detail.as_str());
                self.status = TaskStatus::Failed(reason);
            },
        }
    }

    /// What a client may see of the job.
    pub fn summary(&self) -> (out: TaskSummary)
        ensures
            out.id == self.id,
            out.status == self.status,
            out.original_filename == self.original_filename,
    {
        TaskSummary {
            id: self.id.clone(),
            status: self.status.duplicate(),
            original_filename: self.original_filename.clone(),
        }
    }
}

/// Answers a request for the subtitle file of `task`: not found if there is
/// no such job, not ready while it has no result, else the result under the
/// name of the job's identifier with `.srt` behind it.
pub fn download_srt(task: Option<&Task>) -> (answer: Download)
    ensures
        answer@ == download_of(
            match task {
                Some(t) => Some(t@),
                None => None,
            },
        ),
{
    match task {
        None => Download::NotFound,
        Some(t) => match &t.result_srt {
            None => Download::NotReady,
            Some(srt) => {
                let mut file_name: String = t.id.clone();
                file_name.append(".srt");
                Download::Ready { file_name, body: srt.clone() }
            },
        },
    }
}

/// The jobs of a server, by identifier.
pub struct TaskBoard {
    tasks: StringHashMap<Task>,
}

impl View for TaskBoard {
    type V = Map<Seq<char>, TaskView>;

    closed spec fn view(&self) -> Map<Seq<char>, TaskView> {
        self.tasks@.map_values(|t: Task| t@)
    }
}

impl TaskBoard {
    /// A board without jobs.
    pub fn new() -> (board: TaskBoard)
        ensures
            board@ == Map::<Seq<char>, TaskView>::empty(),
    {
        TaskBoard { tasks: StringHashMap::new() }
    }

    /// Puts `task` on the board under its identifier, in place of any job
    /// that was there under it.
    pub fn submit(&mut self, task: Task)
        ensures
            final(self)@ == old(self)@.insert(task@.id, task@),
    {
        self.tasks.insert(task.id.clone(), task);
    }

    /// The job with the identifier `id`, if there is one.
    pub fn find(&self, id: &str) -> (task: Option<Task>)
        ensures
            match task {
                Some(t) => self@.contains_key(id@) && t@ == self@[id@],
                None => !self@.contains_key(id@),
            },
    {
        match self.tasks.get(id) {
            Some(t) => Some(t.duplicate()),
            None => None,
        }
    }

    /// Records that a worker has taken up the job `id`. Gives `false`, and
    /// changes nothing, exactly if there is no such job.
    pub fn mark_processing(&mut self, id: &str) -> (known: bool)
        ensures
            known == old(self)@.contains_key(id@),
            final(self)@ == if known {
                old(self)@.insert(id@, started(old(self)@[id@]))
            } else {
                old(self)@
            },
    {
        match self.find(id) {
            Some(mut task) => {
                task.mark_processing();
                self.tasks.insert(id.to_owned(), task);
                true
            },
            None => false,
        }
    }

    /// Records how the transcription of the job `id` ended. Gives `false`,
    /// and changes nothing, exactly if there is no such job.
    pub fn settle(&mut self, id: &str, outcome: JobOutcome) -> (known: bool)
        ensures
            known == old(self)@.contains_key(id@),
            final(self)@ == if known {
                old(self)@.insert(id@, settled(old(self)@[id@], outcome@))
            } else {
                old(self)@
            },
    {
        match self.find(id) {
            Some(mut task) => {
                task.settle(outcome);
                self.tasks.insert(id.to_owned(), task);
                true
            },
            None => false,
        }
    }

    /// What a client may see of the job `id`, if there is such a job.
    pub fn status(&self, id: &str) -> (out: Option<TaskSummary>)
        ensures
            out is Some == self@.contains_key(id@),
            match out {
                Some(s) => s.id@ == self@[id@].id && s.status@ == self@[id@].status
                    && s.original_filename@ == self@[id@].original_filename,
                None => true,
            },
    {
        match self.tasks.get(id) {
            Some(t) => Some(t.summary()),
            None => None,
        }
    }

    /// Answers a request for the subtitle file of the job `id`.
    pub fn download(&self, id: &str) -> (answer: Download)
        ensures
            answer@ == download_of(
                if self@.contains_key(id@) {
                    Some(self@[id@])
                } else {
                    None
                },
            ),
    {
        download_srt(self.tasks.get(id))
    }
}

} // verus!
