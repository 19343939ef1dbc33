//! Task data model: task kinds, lifecycle statuses, requests, results,
//! payloads and queue statistics, together with the well-formedness
//! conditions that every stored record satisfies.

use vstd::prelude::*;

verus! {

/// Selects which collaborator a task invokes and how its payload is read.
#[derive(Clone, Copy, Debug, PartialEq, Eq, Structural)]
pub enum TaskType {
    Transcription,
    RiskAnalysis,
}

/// Lifecycle state of a task.
///
/// `Cancelled` is a defined terminal value that no engine transition
/// produces; it is reserved as an extension point.
#[derive(Clone, Copy, Debug, PartialEq, Eq, Structural)]
pub enum TaskStatus {
    Pending,
    Processing,
    Completed,
    Failed,
    Cancelled,
}

impl TaskStatus {
    /// A terminal status has no outgoing transitions.
    pub open spec fn is_terminal(self) -> bool {
        self == TaskStatus::Completed || self == TaskStatus::Failed
            || self == TaskStatus::Cancelled
    }

    /// Executable check for a terminal status.
    pub fn terminal(&self) -> (r: bool)
        ensures
            r == self.is_terminal(),
    {
        match self {
            TaskStatus::Completed => true,
            TaskStatus::Failed => true,
            TaskStatus::Cancelled => true,
            TaskStatus::Pending => false,
            TaskStatus::Processing => false,
        }
    }
}

/// The fields of a task payload that the engine reads.
///
/// A payload travels with the request; which fields are meaningful
/// depends on the task type. Transcription reads `file_path`, `backend`,
/// `language` and the size and duration hints; risk analysis reads
/// `text` and `auto_triggered`.
pub struct TaskPayload {
    pub file_path: Option<String>,
    pub backend: Option<String>,
    pub language: Option<String>,
    pub file_size_bytes: Option<u64>,
    pub duration_seconds: Option<u64>,
    pub text: Option<String>,
    pub auto_triggered: bool,
    pub source_file: Option<String>,
}

/// Mathematical value of a `TaskPayload`.
pub ghost struct PayloadView {
    pub file_path: Option<Seq<char>>,
    pub backend: Option<Seq<char>>,
    pub language: Option<Seq<char>>,
    pub file_size_bytes: Option<u64>,
    pub duration_seconds: Option<u64>,
    pub text: Option<Seq<char>>,
    pub auto_triggered: bool,
    pub source_file: Option<Seq<char>>,
}

/// The view of an optional owned string: the optional sequence of its
/// characters.
pub open spec fn opt_str_view(o: Option<String>) -> Option<Seq<char>> {
    match o {
        Some(s) => Some(s@),
        None => None,
    }
}

impl View for TaskPayload {
    type V = PayloadView;

    open spec fn view(&self) -> PayloadView {
        PayloadView {
            file_path: opt_str_view(self.file_path),
            backend: opt_str_view(self.backend),
            language: opt_str_view(self.language),
            file_size_bytes: self.file_size_bytes,
            duration_seconds: self.duration_seconds,
            text: opt_str_view(self.text),
            auto_triggered: self.auto_triggered,
            source_file: opt_str_view(self.source_file),
        }
    }
}

impl TaskPayload {
    /// A payload with every optional field absent.
    pub fn empty() -> (r: TaskPayload)
        ensures
            r@ == (PayloadView {
                file_path: None,
                backend: None,
                language: None,
                file_size_bytes: None,
                duration_seconds: None,
                text: None,
                auto_triggered: false,
                source_file: None,
            }),
    {
        TaskPayload {
            file_path: None,
            backend: None,
            language: None,
            file_size_bytes: None,
            duration_seconds: None,
            text: None,
            auto_triggered: false,
            source_file: None,
        }
    }
}

impl Clone for TaskPayload {
    fn clone(&self) -> (r: Self)
        ensures
            r@ == self@,
    {
        TaskPayload {
            file_path: clone_opt_string(&self.file_path),
            backend: clone_opt_string(&self.backend),
            language: clone_opt_string(&self.language),
            file_size_bytes: self.file_size_bytes,
            duration_seconds: self.duration_seconds,
            text: clone_opt_string(&self.text),
            auto_triggered: self.auto_triggered,
            source_file: clone_opt_string(&self.source_file),
        }
    }
}

/// Clones an optional string, keeping its characters.
pub fn clone_opt_string(o: &Option<String>) -> (r: Option<String>)
    ensures
        opt_str_view(r) == opt_str_view(*o),
{
    match o {
        Some(s) => Some(s.clone()),
        None => None,
    }
}

/// A submitted work request. Immutable once created; owned by the store
/// and deleted as soon as its task reaches a terminal status.
///
/// `priority` is recorded and reported, and auto-chained tasks carry an
/// elevated value, but dequeue order is admission time alone: the field
/// is reserved until a priority-aware dequeue policy is decided.
pub struct TaskRequest {
    pub id: u64,
    pub task_type: TaskType,
    pub created_at: u64,
    pub updated_at: u64,
    pub priority: i32,
    pub payload: TaskPayload,
}

/// Mathematical value of a `TaskRequest`.
pub ghost struct RequestView {
    pub id: u64,
    pub task_type: TaskType,
    pub created_at: u64,
    pub updated_at: u64,
    pub priority: i32,
    pub payload: PayloadView,
}

impl View for TaskRequest {
    type V = RequestView;

    open spec fn view(&self) -> RequestView {
        RequestView {
            id: self.id,
            task_type: self.task_type,
            created_at: self.created_at,
            updated_at: self.updated_at,
            priority: self.priority,
            payload: self.payload@,
        }
    }
}

impl Clone for TaskRequest {
    fn clone(&self) -> (r: Self)
        ensures
            r@ == self@,
    {
        TaskRequest {
            id: self.id,
            task_type: self.task_type,
            created_at: self.created_at,
            updated_at: self.updated_at,
            priority: self.priority,
            payload: self.payload.clone(),
        }
    }
}

/// The mutable status record of a task. All timestamps are seconds.
pub struct TaskResult {
    pub id: u64,
    pub status: TaskStatus,
    pub created_at: u64,
    pub updated_at: u64,
    pub started_at: Option<u64>,
    pub completed_at: Option<u64>,
    pub result: Option<String>,
    pub error: Option<String>,
    pub progress: u8,
}

/// Mathematical value of a `TaskResult`.
pub ghost struct ResultView {
    pub id: u64,
    pub status: TaskStatus,
    pub created_at: u64,
    pub updated_at: u64,
    pub started_at: Option<u64>,
    pub completed_at: Option<u64>,
    pub result: Option<Seq<char>>,
    pub error: Option<Seq<char>>,
    pub progress: u8,
}

impl View for TaskResult {
    type V = ResultView;

    open spec fn view(&self) -> ResultView {
        ResultView {
            id: self.id,
            status: self.status,
            created_at: self.created_at,
            updated_at: self.updated_at,
            started_at: self.started_at,
            completed_at: self.completed_at,
            result: opt_str_view(self.result),
            error: opt_str_view(self.error),
            progress: self.progress,
        }
    }
}

impl Clone for TaskResult {
    fn clone(&self) -> (r: Self)
        ensures
            r@ == self@,
    {
        TaskResult {
            id: self.id,
            status: self.status,
            created_at: self.created_at,
            updated_at: self.updated_at,
            started_at: self.started_at,
            completed_at: self.completed_at,
            result: clone_opt_string(&self.result),
            error: clone_opt_string(&self.error),
            progress: self.progress,
        }
    }
}

impl ResultView {
    /// Well-formedness of a stored status record:
    /// progress stays within 0 to 100 and reads 100 exactly on completion;
    /// `started_at` is set exactly when the task has entered `Processing`;
    /// `completed_at` is set exactly on the terminal statuses; the success
    /// payload exists exactly on completion and the error text exactly on
    /// failure.
    pub open spec fn wf(self) -> bool {
        &&& self.progress <= 100
        &&& (self.progress == 100 <==> self.status == TaskStatus::Completed)
        &&& (self.status == TaskStatus::Pending ==> {
            &&& self.started_at is None
            &&& self.completed_at is None
            &&& self.result is None
            &&& self.error is None
            &&& self.progress == 0
        })
        &&& (self.status == TaskStatus::Processing ==> {
            &&& self.started_at is Some
            &&& self.completed_at is None
            &&& self.result is None
            &&& self.error is None
        })
        &&& (self.status == TaskStatus::Completed ==> {
            &&& self.started_at is Some
            &&& self.completed_at is Some
            &&& self.result is Some
            &&& self.error is None
        })
        &&& (self.status == TaskStatus::Failed ==> {
            &&& self.started_at is Some
            &&& self.completed_at is Some
            &&& self.result is None
            &&& self.error is Some
        })
        &&& (self.status == TaskStatus::Cancelled ==> self.completed_at is Some)
    }
}

impl TaskResult {
    /// The initial record of a freshly admitted task.
    pub fn fresh(id: u64, now: u64) -> (r: TaskResult)
        ensures
            r@ == (ResultView {
                id,
                status: TaskStatus::Pending,
                created_at: now,
                updated_at: now,
                started_at: None,
                completed_at: None,
                result: None,
                error: None,
                progress: 0,
            }),
            r@.wf(),
    {
        TaskResult {
            id,
            status: TaskStatus::Pending,
            created_at: now,
            updated_at: now,
            started_at: None,
            completed_at: None,
            result: None,
            error: None,
            progress: 0,
        }
    }
}

/// Per-status counts over every known task, derived on demand.
#[derive(Clone, Copy, Debug, PartialEq, Eq, Structural)]
pub struct QueueStats {
    pub pending_count: usize,
    pub processing_count: usize,
    pub completed_count: usize,
    pub failed_count: usize,
    pub total_tasks: usize,
}

} // verus!
