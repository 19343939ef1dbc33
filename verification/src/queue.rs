//! The task-queue engine: admission, lifecycle transitions, FIFO
//! dispatch, terminal resolution, stale-task reaping, restart recovery,
//! statistics, history and the observer registry.
//!
//! The engine is a deterministic state machine over plain values. The
//! surrounding process owns the durable store, the clock and the
//! collaborator calls: it passes the current time and every collaborator
//! outcome in as arguments, mirrors each transition to the store, and
//! performs the sends that `fan_out` lays out. The engine state is the
//! model of the store's contents: the status records, the live requests
//! and the pending queue in admission order.

use vstd::prelude::*;
use vstd::multiset::Multiset;
use crate::event::{Event, EventKind, EventView};
use crate::task::{
    PayloadView, QueueStats, RequestView, ResultView, TaskPayload, TaskRequest, TaskResult,
    TaskStatus, TaskType,
};

verus! {

/// Mathematical state of the engine.
pub ghost struct QueueView {
    /// Every known status record, in admission order.
    pub tasks: Seq<ResultView>,
    /// The live requests: one per non-terminal task.
    pub requests: Seq<RequestView>,
    /// The ids still waiting to run, in admission order.
    pub queue: Seq<u64>,
    /// The registered observers, in registration order.
    pub observers: Seq<u64>,
    /// The next fresh task id.
    pub next_id: u64,
}

/// No two status records share an id.
pub open spec fn ids_unique(tasks: Seq<ResultView>) -> bool {
    forall|i: int, j: int|
        0 <= i < j < tasks.len() ==> #[trigger] tasks[i].id != #[trigger] tasks[j].id
}

/// No two live requests share an id.
pub open spec fn req_ids_unique(requests: Seq<RequestView>) -> bool {
    forall|i: int, j: int|
        0 <= i < j < requests.len() ==> #[trigger] requests[i].id != #[trigger] requests[j].id
}

/// Some status record carries this id.
pub open spec fn has_task(tasks: Seq<ResultView>, id: u64) -> bool {
    exists|i: int| 0 <= i < tasks.len() && (#[trigger] tasks[i]).id == id
}

/// The index of the status record with this id.
pub open spec fn task_idx(tasks: Seq<ResultView>, id: u64) -> int {
    choose|i: int| 0 <= i < tasks.len() && (#[trigger] tasks[i]).id == id
}

/// The status record with this id.
pub open spec fn task_of(tasks: Seq<ResultView>, id: u64) -> ResultView {
    tasks[task_idx(tasks, id)]
}

/// Some status record carries this id and is still pending.
pub open spec fn has_pending_task(tasks: Seq<ResultView>, id: u64) -> bool {
    exists|i: int|
        0 <= i < tasks.len() && (#[trigger] tasks[i]).id == id && tasks[i].status
            == TaskStatus::Pending
}

/// Some status record carries this id and has not reached a terminal
/// status.
pub open spec fn has_live_task(tasks: Seq<ResultView>, id: u64) -> bool {
    exists|i: int|
        0 <= i < tasks.len() && (#[trigger] tasks[i]).id == id
            && !tasks[i].status.is_terminal()
}

/// Some live request carries this id.
pub open spec fn has_request(requests: Seq<RequestView>, id: u64) -> bool {
    exists|i: int| 0 <= i < requests.len() && (#[trigger] requests[i]).id == id
}

/// The index of the live request with this id.
pub open spec fn request_idx(requests: Seq<RequestView>, id: u64) -> int {
    choose|i: int| 0 <= i < requests.len() && (#[trigger] requests[i]).id == id
}

/// The live request with this id.
pub open spec fn request_of(requests: Seq<RequestView>, id: u64) -> RequestView {
    requests[request_idx(requests, id)]
}

impl QueueView {
    /// The engine invariant.
    ///
    /// Ids are unique and below the fresh-id counter; every record is
    /// well formed; the pending queue holds, without duplicates, exactly
    /// the ids whose status is `Pending`; and the live requests are
    /// exactly the ids whose status is not terminal.
    pub open spec fn inv(self) -> bool {
        &&& ids_unique(self.tasks)
        &&& req_ids_unique(self.requests)
        &&& forall|i: int| 0 <= i < self.tasks.len() ==> (#[trigger] self.tasks[i]).wf()
        &&& forall|i: int| 0 <= i < self.tasks.len() ==> (#[trigger] self.tasks[i]).id < self.next_id
        &&& forall|k: int, l: int|
            0 <= k < l < self.queue.len() ==> #[trigger] self.queue[k] != #[trigger] self.queue[l]
        &&& forall|k: int|
            0 <= k < self.queue.len() ==> has_pending_task(self.tasks, #[trigger] self.queue[k])
        &&& forall|i: int|
            0 <= i < self.tasks.len() ==> ((#[trigger] self.tasks[i]).status == TaskStatus::Pending
                ==> self.queue.contains(self.tasks[i].id))
        &&& forall|j: int|
            0 <= j < self.requests.len() ==> has_live_task(
                self.tasks,
                (#[trigger] self.requests[j]).id,
            )
        &&& forall|i: int|
            0 <= i < self.tasks.len() ==> (!(#[trigger] self.tasks[i]).status.is_terminal()
                ==> has_request(self.requests, self.tasks[i].id))
    }
}

/// With unique ids, any index whose record carries the id is the index
/// the lookup functions name.
pub proof fn lemma_idx(tasks: Seq<ResultView>, id: u64, i: int)
    requires
        ids_unique(tasks),
        0 <= i < tasks.len(),
        tasks[i].id == id,
    ensures
        has_task(tasks, id),
        task_idx(tasks, id) == i,
        task_of(tasks, id) == tasks[i],
{
    assert(has_task(tasks, id));
    let j = task_idx(tasks, id);
    if i < j {
        assert(tasks[i].id != tasks[j].id);
    } else if j < i {
        assert(tasks[j].id != tasks[i].id);
    }
}

/// With unique request ids, any index whose request carries the id is
/// the index the lookup functions name.
pub proof fn lemma_req_idx(requests: Seq<RequestView>, id: u64, i: int)
    requires
        req_ids_unique(requests),
        0 <= i < requests.len(),
        requests[i].id == id,
    ensures
        has_request(requests, id),
        request_idx(requests, id) == i,
        request_of(requests, id) == requests[i],
{
    assert(has_request(requests, id));
    let j = request_idx(requests, id);
    if i < j {
        assert(requests[i].id != requests[j].id);
    } else if j < i {
        assert(requests[j].id != requests[i].id);
    }
}

/// The request admitted for a submission.
pub open spec fn submitted_request(
    s: QueueView,
    task_type: TaskType,
    payload: PayloadView,
    priority: Option<i32>,
    now: u64,
) -> RequestView {
    RequestView {
        id: s.next_id,
        task_type,
        created_at: now,
        updated_at: now,
        priority: match priority {
            Some(p) => p,
            None => 0,
        },
        payload,
    }
}

/// The initial status record admitted for a submission.
pub open spec fn submitted_result(s: QueueView, now: u64) -> ResultView {
    ResultView {
        id: s.next_id,
        status: TaskStatus::Pending,
        created_at: now,
        updated_at: now,
        started_at: None,
        completed_at: None,
        result: None,
        error: None,
        progress: 0,
    }
}

/// Admission: persist the request and an initial pending record, append
/// the id to the queue, and advance the fresh-id counter.
pub open spec fn submit_spec(
    s: QueueView,
    task_type: TaskType,
    payload: PayloadView,
    priority: Option<i32>,
    now: u64,
) -> QueueView {
    QueueView {
        tasks: s.tasks.push(submitted_result(s, now)),
        requests: s.requests.push(submitted_request(s, task_type, payload, priority, now)),
        queue: s.queue.push(s.next_id),
        observers: s.observers,
        next_id: (s.next_id + 1) as u64,
    }
}

/// The event broadcast for an admission.
pub open spec fn new_task_event(id: u64, now: u64) -> EventView {
    EventView {
        kind: EventKind::NewTask,
        task_id: id,
        status: Some(TaskStatus::Pending),
        progress: Some(0u8),
        message: None,
        related_task_id: None,
        timestamp: now,
    }
}

/// The task-queue engine.
pub struct TaskQueue {
    results: Vec<TaskResult>,
    requests: Vec<TaskRequest>,
    queue: Vec<u64>,
    observers: Vec<u64>,
    next_id: u64,
}

impl View for TaskQueue {
    type V = QueueView;

    closed spec fn view(&self) -> QueueView {
        QueueView {
            tasks: Seq::new(self.results@.len(), |i: int| self.results@[i]@),
            requests: Seq::new(self.requests@.len(), |i: int| self.requests@[i]@),
            queue: self.queue@,
            observers: self.observers@,
            next_id: self.next_id,
        }
    }
}

impl TaskQueue {
    /// The index of the status record carrying `id`, if any.
    fn find_result(&self, id: u64) -> (r: Option<usize>)
        ensures
            r is Some <==> has_task(self@.tasks, id),
            (r matches Some(i) ==> i < self@.tasks.len() && self@.tasks[i as int].id == id),
    {
        let mut i: usize = 0;
        while i < self.results.len()
            invariant
                i <= self.results@.len(),
                forall|j: int| 0 <= j < i ==> (#[trigger] self@.tasks[j]).id != id,
            decreases self.results@.len() - i,
        {
            if self.results[i].id == id {
                return Some(i);
            }
            i = i + 1;
        }
        None
    }

    /// The index of the live request carrying `id`, if any.
    fn find_request(&self, id: u64) -> (r: Option<usize>)
        ensures
            r is Some <==> has_request(self@.requests, id),
            (r matches Some(i) ==> i < self@.requests.len() && self@.requests[i as int].id == id),
    {
        let mut i: usize = 0;
        while i < self.requests.len()
            invariant
                i <= self.requests@.len(),
                forall|j: int| 0 <= j < i ==> (#[trigger] self@.requests[j]).id != id,
            decreases self.requests@.len() - i,
        {
            if self.requests[i].id == id {
                return Some(i);
            }
            i = i + 1;
        }
        None
    }

    /// Admits a task: persists its request and an initial `Pending`
    /// record with progress 0, appends its fresh id to the queue, and
    /// yields the event announcing it.
    pub fn submit_task(
        &mut self,
        task_type: TaskType,
        payload: TaskPayload,
        priority: Option<i32>,
        now: u64,
    ) -> (r: (u64, Event))
        requires
            old(self)@.inv(),
            old(self)@.next_id < u64::MAX,
        ensures
            final(self)@.inv(),
            final(self)@ == submit_spec(old(self)@, task_type, payload@, priority, now),
            r.0 == old(self)@.next_id,
            r.1@ == new_task_event(old(self)@.next_id, now),
    {
        let ghost o = self@;
        let id = self.next_id;
        self.next_id = self.next_id + 1;
        let request = TaskRequest {
            id,
            task_type,
            created_at: now,
            updated_at: now,
            priority: match priority {
                Some(p) => p,
                None => 0,
            },
            payload,
        };
        let result = TaskResult::fresh(id, now);
        self.results.push(result);
        self.requests.push(request);
        self.queue.push(id);
        let event = Event {
            kind: EventKind::NewTask,
            task_id: id,
            status: Some(TaskStatus::Pending),
            progress: Some(0u8),
            message: None,
            related_task_id: None,
            timestamp: now,
        };
        proof {
            let n = self@;
            let sp = submit_spec(o, task_type, payload@, priority, now);
            assert(n.tasks =~= sp.tasks);
            assert(n.requests =~= sp.requests);
            assert(n.queue =~= sp.queue);
            assert(n == sp);
            lemma_submit_preserves_inv(o, task_type, payload@, priority, now);
        }
        (id, event)
    }

    /// The status record of a task, if the id is known.
    pub fn get_task_status(&self, task_id: u64) -> (r: Option<TaskResult>)
        requires
            self@.inv(),
        ensures
            r is Some <==> has_task(self@.tasks, task_id),
            (r matches Some(t) ==> t@ == task_of(self@.tasks, task_id)),
    {
        match self.find_result(task_id) {
            None => None,
            Some(i) => {
                proof {
                    lemma_idx(self@.tasks, task_id, i as int);
                }
                Some(self.results[i].clone())
            },
        }
    }

    /// The stored request of a task, while the task is live.
    pub fn get_task_request(&self, task_id: u64) -> (r: Option<TaskRequest>)
        requires
            self@.inv(),
        ensures
            r is Some <==> has_request(self@.requests, task_id),
            (r matches Some(req) ==> req@ == request_of(self@.requests, task_id)),
    {
        match self.find_request(task_id) {
            None => None,
            Some(j) => {
                proof {
                    lemma_req_idx(self@.requests, task_id, j as int);
                }
                Some(self.requests[j].clone())
            },
        }
    }

    /// How many admitted tasks are still waiting to run.
    pub fn queue_depth(&self) -> (n: usize)
        ensures
            n == self@.queue.len(),
    {
        self.queue.len()
    }

    /// The id the next admitted task will receive. Admission demands
    /// that the id space is not exhausted; this lets a caller check.
    pub fn next_task_id(&self) -> (id: u64)
        ensures
            id == self@.next_id,
    {
        self.next_id
    }
}

/// Admission preserves the engine invariant.
pub proof fn lemma_submit_preserves_inv(
    s: QueueView,
    task_type: TaskType,
    payload: PayloadView,
    priority: Option<i32>,
    now: u64,
)
    requires
        s.inv(),
        s.next_id < u64::MAX,
    ensures
        submit_spec(s, task_type, payload, priority, now).inv(),
{
    let n = submit_spec(s, task_type, payload, priority, now);
    let id = s.next_id;
    let len = s.tasks.len() as int;

    // every queue entry of the old state names a task id, hence one
    // strictly below the fresh id
    assert forall|k: int| 0 <= k < s.queue.len() implies #[trigger] s.queue[k] != id by {
        let i = choose|i: int|
            0 <= i < s.tasks.len() && (#[trigger] s.tasks[i]).id == s.queue[k] && s.tasks[i].status
                == TaskStatus::Pending;
        assert(s.tasks[i].id < s.next_id);
    }

    assert(ids_unique(n.tasks));
    assert(req_ids_unique(n.requests));

    assert forall|k: int|
        0 <= k < n.queue.len() implies has_pending_task(n.tasks, #[trigger] n.queue[k]) by {
        if k < s.queue.len() {
            let i = choose|i: int|
                0 <= i < s.tasks.len() && (#[trigger] s.tasks[i]).id == s.queue[k]
                    && s.tasks[i].status == TaskStatus::Pending;
            assert(n.tasks[i].id == n.queue[k] && n.tasks[i].status == TaskStatus::Pending);
        } else {
            assert(n.tasks[len].id == id && n.tasks[len].status == TaskStatus::Pending);
        }
    }

    assert forall|i: int|
        0 <= i < n.tasks.len() && (#[trigger] n.tasks[i]).status == TaskStatus::Pending implies
        n.queue.contains(n.tasks[i].id) by {
        if i < len {
            let k = choose|k: int| 0 <= k < s.queue.len() && s.queue[k] == s.tasks[i].id;
            assert(n.queue[k] == n.tasks[i].id);
        } else {
            assert(n.queue[s.queue.len() as int] == id);
        }
    }

    assert forall|j: int|
        0 <= j < n.requests.len() implies has_live_task(
        n.tasks,
        (#[trigger] n.requests[j]).id,
    ) by {
        if j < s.requests.len() {
            let i = choose|i: int|
                0 <= i < s.tasks.len() && (#[trigger] s.tasks[i]).id == s.requests[j].id
                    && !s.tasks[i].status.is_terminal();
            assert(n.tasks[i].id == n.requests[j].id && !n.tasks[i].status.is_terminal());
        } else {
            assert(n.tasks[len].id == id && !n.tasks[len].status.is_terminal());
        }
    }

    assert forall|i: int|
        0 <= i < n.tasks.len() && !(#[trigger] n.tasks[i]).status.is_terminal() implies
        has_request(n.requests, n.tasks[i].id) by {
        if i < len {
            let j = choose|j: int|
                0 <= j < s.requests.len() && (#[trigger] s.requests[j]).id == s.tasks[i].id;
            assert(n.requests[j].id == n.tasks[i].id);
        } else {
            assert(n.requests[s.requests.len() as int].id == id);
        }
    }
}

/// The record of a task as it enters `Processing`.
pub open spec fn processing_version(t: ResultView, now: u64) -> ResultView {
    ResultView {
        id: t.id,
        status: TaskStatus::Processing,
        created_at: t.created_at,
        updated_at: now,
        started_at: Some(now),
        completed_at: t.completed_at,
        result: t.result,
        error: t.error,
        progress: t.progress,
    }
}

/// Dispatch: pop the front of the queue and mark that task `Processing`.
pub open spec fn dispatch_spec(s: QueueView, now: u64) -> QueueView
    recommends
        s.queue.len() > 0,
{
    let id = s.queue[0];
    QueueView {
        tasks: s.tasks.update(
            task_idx(s.tasks, id),
            processing_version(task_of(s.tasks, id), now),
        ),
        requests: s.requests,
        queue: s.queue.drop_first(),
        observers: s.observers,
        next_id: s.next_id,
    }
}

/// The event broadcast when a task enters `Processing`.
pub open spec fn processing_event(id: u64, now: u64) -> EventView {
    EventView {
        kind: EventKind::TaskStatusUpdate,
        task_id: id,
        status: Some(TaskStatus::Processing),
        progress: Some(0u8),
        message: Some("Task processing started"@),
        related_task_id: None,
        timestamp: now,
    }
}

/// What the dispatcher hands to a fresh execution supervisor: the task's
/// request and its status record, already marked `Processing`.
pub struct DispatchedTask {
    pub request: TaskRequest,
    pub result: TaskResult,
}

/// The record of a task after a progress report.
pub open spec fn progressed_version(t: ResultView, p: u8, now: u64) -> ResultView {
    ResultView {
        id: t.id,
        status: t.status,
        created_at: t.created_at,
        updated_at: now,
        started_at: t.started_at,
        completed_at: t.completed_at,
        result: t.result,
        error: t.error,
        progress: p,
    }
}

/// A progress report applies only to a task that is `Processing`, never
/// lowers the recorded progress, and never reaches 100 (only completion
/// does).
pub open spec fn can_report_progress(s: QueueView, id: u64, p: u8) -> bool {
    &&& has_task(s.tasks, id)
    &&& task_of(s.tasks, id).status == TaskStatus::Processing
    &&& task_of(s.tasks, id).progress <= p
    &&& p < 100
}

/// Progress report: update the task's progress, or leave the state
/// untouched when the report does not apply.
pub open spec fn report_progress_spec(s: QueueView, id: u64, p: u8, now: u64) -> QueueView {
    if can_report_progress(s, id, p) {
        QueueView {
            tasks: s.tasks.update(
                task_idx(s.tasks, id),
                progressed_version(task_of(s.tasks, id), p, now),
            ),
            requests: s.requests,
            queue: s.queue,
            observers: s.observers,
            next_id: s.next_id,
        }
    } else {
        s
    }
}

/// The event broadcast for a progress report.
pub open spec fn progress_event(id: u64, p: u8, message: Seq<char>, now: u64) -> EventView {
    EventView {
        kind: EventKind::TaskProgress,
        task_id: id,
        status: None,
        progress: Some(p),
        message: Some(message),
        related_task_id: None,
        timestamp: now,
    }
}

/// How a collaborator call ended: its opaque success payload, or its
/// error text (already worded for the record).
pub enum TaskOutcome {
    Success(String),
    Failure(String),
}

/// Mathematical value of a `TaskOutcome`.
pub ghost enum OutcomeView {
    Success(Seq<char>),
    Failure(Seq<char>),
}

impl View for TaskOutcome {
    type V = OutcomeView;

    open spec fn view(&self) -> OutcomeView {
        match self {
            TaskOutcome::Success(s) => OutcomeView::Success(s@),
            TaskOutcome::Failure(e) => OutcomeView::Failure(e@),
        }
    }
}

/// The record of a task completed with this success payload.
pub open spec fn completed_version(t: ResultView, result: Seq<char>, now: u64) -> ResultView {
    ResultView {
        id: t.id,
        status: TaskStatus::Completed,
        created_at: t.created_at,
        updated_at: now,
        started_at: t.started_at,
        completed_at: Some(now),
        result: Some(result),
        error: None,
        progress: 100,
    }
}

/// The record of a task failed with this error text.
pub open spec fn failed_version(t: ResultView, error: Seq<char>, now: u64) -> ResultView {
    ResultView {
        id: t.id,
        status: TaskStatus::Failed,
        created_at: t.created_at,
        updated_at: now,
        started_at: t.started_at,
        completed_at: Some(now),
        result: None,
        error: Some(error),
        progress: t.progress,
    }
}

/// The terminal record a task resolves to under an outcome.
pub open spec fn finished_version(t: ResultView, outcome: OutcomeView, now: u64) -> ResultView {
    match outcome {
        OutcomeView::Success(r) => completed_version(t, r, now),
        OutcomeView::Failure(e) => failed_version(t, e, now),
    }
}

/// Terminal resolution: record the outcome and delete the now-unneeded
/// request.
pub open spec fn finish_spec(s: QueueView, id: u64, outcome: OutcomeView, now: u64) -> QueueView
    recommends
        has_task(s.tasks, id),
        has_request(s.requests, id),
{
    QueueView {
        tasks: s.tasks.update(
            task_idx(s.tasks, id),
            finished_version(task_of(s.tasks, id), outcome, now),
        ),
        requests: s.requests.remove(request_idx(s.requests, id)),
        queue: s.queue,
        observers: s.observers,
        next_id: s.next_id,
    }
}

/// What the caller owes after a terminal transition.
pub enum FollowUp {
    /// Nothing further.
    Nothing,
    /// A transcription succeeded: consider chaining a risk analysis onto
    /// its result text.
    ChainRiskAnalysis { transcription_id: u64, source_payload: TaskPayload },
    /// An auto-chained risk analysis finished: fire the external
    /// notification, best effort.
    NotifyExternal { task_id: u64, succeeded: bool },
}

/// Mathematical value of a `FollowUp`.
pub ghost enum FollowUpView {
    Nothing,
    ChainRiskAnalysis { transcription_id: u64, source_payload: PayloadView },
    NotifyExternal { task_id: u64, succeeded: bool },
}

impl View for FollowUp {
    type V = FollowUpView;

    open spec fn view(&self) -> FollowUpView {
        match self {
            FollowUp::Nothing => FollowUpView::Nothing,
            FollowUp::ChainRiskAnalysis { transcription_id, source_payload } => (
            FollowUpView::ChainRiskAnalysis {
                transcription_id: *transcription_id,
                source_payload: source_payload@,
            }),
            FollowUp::NotifyExternal { task_id, succeeded } => (FollowUpView::NotifyExternal {
                task_id: *task_id,
                succeeded: *succeeded,
            }),
        }
    }
}

/// The follow-up owed after resolving the task of this request: chain a
/// risk analysis onto a successful transcription; notify the external
/// collaborator when an auto-chained risk analysis resolves either way.
pub open spec fn followup_spec(req: RequestView, outcome: OutcomeView) -> FollowUpView {
    if outcome is Success && req.task_type == TaskType::Transcription {
        FollowUpView::ChainRiskAnalysis {
            transcription_id: req.id,
            source_payload: req.payload,
        }
    } else if req.task_type == TaskType::RiskAnalysis && req.payload.auto_triggered {
        FollowUpView::NotifyExternal { task_id: req.id, succeeded: outcome is Success }
    } else {
        FollowUpView::Nothing
    }
}

/// The event broadcast when a task resolves to this terminal record.
pub open spec fn completed_event(t_new: ResultView, now: u64) -> EventView {
    EventView {
        kind: EventKind::TaskCompleted,
        task_id: t_new.id,
        status: Some(t_new.status),
        progress: Some(t_new.progress),
        message: t_new.error,
        related_task_id: None,
        timestamp: now,
    }
}

impl TaskQueue {
    /// One dispatcher iteration: pops the oldest waiting id, marks that
    /// task `Processing`, and hands its request and updated record to a
    /// fresh execution supervisor. Yields nothing when the queue is idle.
    pub fn process_next_task(&mut self, now: u64) -> (r: Option<(DispatchedTask, Event)>)
        requires
            old(self)@.inv(),
        ensures
            final(self)@.inv(),
            old(self)@.queue.len() == 0 ==> r is None && final(self)@ == old(self)@,
            old(self)@.queue.len() > 0 ==> (r matches Some((d, ev)) && {
                let id = old(self)@.queue[0];
                &&& final(self)@ == dispatch_spec(old(self)@, now)
                &&& d.result@ == processing_version(task_of(old(self)@.tasks, id), now)
                &&& d.request@ == request_of(old(self)@.requests, id)
                &&& ev@ == processing_event(id, now)
            }),
    {
        let ghost o = self@;
        if self.queue.len() == 0 {
            proof {
                assert(self@ == o);
            }
            return None;
        }
        let id = self.queue.remove(0);
        proof {
            assert(has_pending_task(o.tasks, id));
        }
        let idx = match self.find_result(id) {
            Some(i) => i,
            None => {
                proof {
                    let w = choose|w: int|
                        0 <= w < o.tasks.len() && (#[trigger] o.tasks[w]).id == id
                            && o.tasks[w].status == TaskStatus::Pending;
                    assert(has_task(self@.tasks, id));
                }
                unreached()
            },
        };
        proof {
            lemma_idx(o.tasks, id, idx as int);
        }
        let started = TaskResult {
            id,
            status: TaskStatus::Processing,
            created_at: self.results[idx].created_at,
            updated_at: now,
            started_at: Some(now),
            completed_at: None,
            result: None,
            error: None,
            progress: self.results[idx].progress,
        };
        self.results[idx] = started;
        let result_copy = self.results[idx].clone();
        let ridx = match self.find_request(id) {
            Some(j) => j,
            None => {
                proof {
                    assert(!o.tasks[idx as int].status.is_terminal());
                    assert(has_request(o.requests, id));
                    assert(has_request(self@.requests, id));
                }
                unreached()
            },
        };
        let request_copy = self.requests[ridx].clone();
        let event = Event {
            kind: EventKind::TaskStatusUpdate,
            task_id: id,
            status: Some(TaskStatus::Processing),
            progress: Some(0u8),
            message: Some({
                proof { reveal_strlit("Task processing started"); }
                "Task processing started".to_owned()
            }),
            related_task_id: None,
            timestamp: now,
        };
        proof {
            let n = self@;
            let sp = dispatch_spec(o, now);
            // the old record was pending, so its progress was 0
            assert(o.tasks[idx as int].wf());
            assert(n.tasks =~= sp.tasks);
            assert(n.requests =~= sp.requests);
            assert(n.queue =~= sp.queue);
            assert(n == sp);
            lemma_req_idx(o.requests, id, ridx as int);
            assert(event@ == processing_event(id, now));
            lemma_dispatch_preserves_inv(o, now);
        }
        Some((DispatchedTask { request: request_copy, result: result_copy }, event))
    }

    /// Records a progress report for a task, provided the task is still
    /// `Processing`, the report does not lower its progress, and the
    /// report stays below 100. Yields the event to broadcast, or nothing
    /// when the report does not apply.
    pub fn report_progress(&mut self, task_id: u64, progress: u8, message: &str, now: u64) -> (r:
        Option<Event>)
        requires
            old(self)@.inv(),
        ensures
            final(self)@.inv(),
            final(self)@ == report_progress_spec(old(self)@, task_id, progress, now),
            r is Some <==> can_report_progress(old(self)@, task_id, progress),
            (r matches Some(ev) ==> ev@ == progress_event(task_id, progress, message@, now)),
    {
        let ghost o = self@;
        let idx_opt = self.find_result(task_id);
        match idx_opt {
            None => {
                proof {
                    assert(self@ == o);
                }
                None
            },
            Some(idx) => {
                proof {
                    lemma_idx(o.tasks, task_id, idx as int);
                }
                let is_processing = match self.results[idx].status {
                    TaskStatus::Processing => true,
                    _ => false,
                };
                if !is_processing || self.results[idx].progress > progress || progress >= 100 {
                    proof {
                        assert(self@ == o);
                    }
                    return None;
                }
                let updated = TaskResult {
                    id: self.results[idx].id,
                    status: TaskStatus::Processing,
                    created_at: self.results[idx].created_at,
                    updated_at: now,
                    started_at: self.results[idx].started_at,
                    completed_at: None,
                    result: None,
                    error: None,
                    progress,
                };
                proof {
                    assert(o.tasks[idx as int].wf());
                }
                self.results[idx] = updated;
                let event = Event {
                    kind: EventKind::TaskProgress,
                    task_id,
                    status: None,
                    progress: Some(progress),
                    message: Some(message.to_owned()),
                    related_task_id: None,
                    timestamp: now,
                };
                proof {
                    let n = self@;
                    let sp = report_progress_spec(o, task_id, progress, now);
                    assert(n.tasks =~= sp.tasks);
                    assert(n == sp);
                    lemma_report_progress_preserves_inv(o, task_id, progress, now);
                }
                Some(event)
            },
        }
    }

    /// Resolves a `Processing` task to its terminal record: `Completed`
    /// with the collaborator's payload and progress 100, or `Failed` with
    /// the error text and the progress it had reached. Deletes the task's
    /// request and yields the completion event together with the
    /// follow-up the caller owes.
    pub fn finish_task(&mut self, task_id: u64, outcome: TaskOutcome, now: u64) -> (r: (
        Event,
        FollowUp,
    ))
        requires
            old(self)@.inv(),
            has_task(old(self)@.tasks, task_id),
            task_of(old(self)@.tasks, task_id).status == TaskStatus::Processing,
        ensures
            final(self)@.inv(),
            final(self)@ == finish_spec(old(self)@, task_id, outcome@, now),
            r.0@ == completed_event(
                finished_version(task_of(old(self)@.tasks, task_id), outcome@, now),
                now,
            ),
            r.1@ == followup_spec(request_of(old(self)@.requests, task_id), outcome@),
    {
        let ghost o = self@;
        let idx = match self.find_result(task_id) {
            Some(i) => i,
            None => { unreached() },
        };
        proof {
            lemma_idx(o.tasks, task_id, idx as int);
            assert(!o.tasks[idx as int].status.is_terminal());
            assert(has_request(o.requests, task_id));
        }
        let ridx = match self.find_request(task_id) {
            Some(j) => j,
            None => { unreached() },
        };
        proof {
            lemma_req_idx(o.requests, task_id, ridx as int);
        }
        let succeeded = match &outcome {
            TaskOutcome::Success(_) => true,
            TaskOutcome::Failure(_) => false,
        };
        let req_type = self.requests[ridx].task_type;
        let auto_triggered = self.requests[ridx].payload.auto_triggered;
        let follow_up = if succeeded && (match req_type {
            TaskType::Transcription => true,
            TaskType::RiskAnalysis => false,
        }) {
            FollowUp::ChainRiskAnalysis {
                transcription_id: task_id,
                source_payload: self.requests[ridx].payload.clone(),
            }
        } else if (match req_type {
            TaskType::RiskAnalysis => true,
            TaskType::Transcription => false,
        }) && auto_triggered {
            FollowUp::NotifyExternal { task_id, succeeded }
        } else {
            FollowUp::Nothing
        };
        let created = self.results[idx].created_at;
        let started = self.results[idx].started_at;
        let prior_progress = self.results[idx].progress;
        proof {
            assert(o.tasks[idx as int].wf());
        }
        let finished = match outcome {
            TaskOutcome::Success(result_text) => TaskResult {
                id: task_id,
                status: TaskStatus::Completed,
                created_at: created,
                updated_at: now,
                started_at: started,
                completed_at: Some(now),
                result: Some(result_text),
                error: None,
                progress: 100,
            },
            TaskOutcome::Failure(error_text) => TaskResult {
                id: task_id,
                status: TaskStatus::Failed,
                created_at: created,
                updated_at: now,
                started_at: started,
                completed_at: Some(now),
                result: None,
                error: Some(error_text),
                progress: prior_progress,
            },
        };
        self.results[idx] = finished;
        let _ = self.requests.remove(ridx);
        let event = Event {
            kind: EventKind::TaskCompleted,
            task_id,
            status: Some(self.results[idx].status),
            progress: Some(self.results[idx].progress),
            message: crate::task::clone_opt_string(&self.results[idx].error),
            related_task_id: None,
            timestamp: now,
        };
        proof {
            let n = self@;
            let sp = finish_spec(o, task_id, outcome@, now);
            assert(n.tasks =~= sp.tasks);
            assert(n.requests =~= sp.requests);
            assert(n == sp);
            lemma_finish_preserves_inv(o, task_id, outcome@, now);
        }
        (event, follow_up)
    }
}

/// Dispatch preserves the engine invariant.
pub proof fn lemma_dispatch_preserves_inv(s: QueueView, now: u64)
    requires
        s.inv(),
        s.queue.len() > 0,
    ensures
        dispatch_spec(s, now).inv(),
{
    let n = dispatch_spec(s, now);
    let id = s.queue[0];
    let w = choose|w: int|
        0 <= w < s.tasks.len() && (#[trigger] s.tasks[w]).id == id && s.tasks[w].status
            == TaskStatus::Pending;
    lemma_idx(s.tasks, id, w);
    let i0 = task_idx(s.tasks, id);

    assert forall|i: int| 0 <= i < n.tasks.len() implies (#[trigger] n.tasks[i]).id
        == s.tasks[i].id by {}
    assert(ids_unique(n.tasks));

    assert forall|k: int|
        0 <= k < n.queue.len() implies has_pending_task(n.tasks, #[trigger] n.queue[k]) by {
        assert(n.queue[k] == s.queue[k + 1]);
        let v = choose|v: int|
            0 <= v < s.tasks.len() && (#[trigger] s.tasks[v]).id == s.queue[k + 1]
                && s.tasks[v].status == TaskStatus::Pending;
        assert(s.queue[0] != s.queue[k + 1]);
        assert(v != i0);
        assert(n.tasks[v] == s.tasks[v]);
    }

    assert forall|i: int|
        0 <= i < n.tasks.len() && (#[trigger] n.tasks[i]).status == TaskStatus::Pending implies
        n.queue.contains(n.tasks[i].id) by {
        assert(i != i0);
        assert(s.tasks[i].status == TaskStatus::Pending);
        let k = choose|k: int| 0 <= k < s.queue.len() && s.queue[k] == s.tasks[i].id;
        assert(s.tasks[i].id != id);
        assert(k != 0);
        assert(n.queue[k - 1] == s.queue[k]);
        assert(n.queue.contains(n.tasks[i].id));
    }

    assert forall|j: int|
        0 <= j < n.requests.len() implies has_live_task(
        n.tasks,
        (#[trigger] n.requests[j]).id,
    ) by {
        let v = choose|v: int|
            0 <= v < s.tasks.len() && (#[trigger] s.tasks[v]).id == s.requests[j].id
                && !s.tasks[v].status.is_terminal();
        assert(n.tasks[v].id == s.tasks[v].id);
        assert(!n.tasks[v].status.is_terminal());
    }

    assert forall|i: int|
        0 <= i < n.tasks.len() && !(#[trigger] n.tasks[i]).status.is_terminal() implies
        has_request(n.requests, n.tasks[i].id) by {
        assert(!s.tasks[i].status.is_terminal());
    }
}

/// Progress reports preserve the engine invariant.
pub proof fn lemma_report_progress_preserves_inv(s: QueueView, id: u64, p: u8, now: u64)
    requires
        s.inv(),
    ensures
        report_progress_spec(s, id, p, now).inv(),
{
    if can_report_progress(s, id, p) {
        let n = report_progress_spec(s, id, p, now);
        let i0 = task_idx(s.tasks, id);
        assert forall|i: int| 0 <= i < n.tasks.len() implies (#[trigger] n.tasks[i]).id
            == s.tasks[i].id by {}
        assert forall|k: int|
            0 <= k < n.queue.len() implies has_pending_task(n.tasks, #[trigger] n.queue[k]) by {
            let v = choose|v: int|
                0 <= v < s.tasks.len() && (#[trigger] s.tasks[v]).id == s.queue[k]
                    && s.tasks[v].status == TaskStatus::Pending;
            assert(v != i0);
            assert(n.tasks[v] == s.tasks[v]);
        }
        assert forall|j: int|
            0 <= j < n.requests.len() implies has_live_task(
            n.tasks,
            (#[trigger] n.requests[j]).id,
        ) by {
            let v = choose|v: int|
                0 <= v < s.tasks.len() && (#[trigger] s.tasks[v]).id == s.requests[j].id
                    && !s.tasks[v].status.is_terminal();
            assert(n.tasks[v].id == s.tasks[v].id);
            assert(!n.tasks[v].status.is_terminal());
        }
    }
}

/// Terminal resolution preserves the engine invariant.
pub proof fn lemma_finish_preserves_inv(s: QueueView, id: u64, outcome: OutcomeView, now: u64)
    requires
        s.inv(),
        has_task(s.tasks, id),
        task_of(s.tasks, id).status == TaskStatus::Processing,
    ensures
        finish_spec(s, id, outcome, now).inv(),
{
    let n = finish_spec(s, id, outcome, now);
    let i0 = task_idx(s.tasks, id);
    assert(!s.tasks[i0].status.is_terminal());
    assert(has_request(s.requests, id));
    let j0 = request_idx(s.requests, id);
    assert(s.requests[j0].id == id);

    assert forall|i: int| 0 <= i < n.tasks.len() implies (#[trigger] n.tasks[i]).id
        == s.tasks[i].id by {}
    assert(ids_unique(n.tasks));
    assert(s.tasks[i0].wf());

    assert forall|j: int|
        0 <= j < n.requests.len() implies #[trigger] n.requests[j] == (if j < j0 {
        s.requests[j]
    } else {
        s.requests[j + 1]
    }) by {}

    assert(req_ids_unique(n.requests));

    assert forall|k: int|
        0 <= k < n.queue.len() implies has_pending_task(n.tasks, #[trigger] n.queue[k]) by {
        let v = choose|v: int|
            0 <= v < s.tasks.len() && (#[trigger] s.tasks[v]).id == s.queue[k]
                && s.tasks[v].status == TaskStatus::Pending;
        assert(v != i0);
        assert(n.tasks[v] == s.tasks[v]);
    }

    assert forall|i: int|
        0 <= i < n.tasks.len() && (#[trigger] n.tasks[i]).status == TaskStatus::Pending implies
        n.queue.contains(n.tasks[i].id) by {
        assert(i != i0);
        assert(s.tasks[i].status == TaskStatus::Pending);
    }

    assert forall|j: int|
        0 <= j < n.requests.len() implies has_live_task(
        n.tasks,
        (#[trigger] n.requests[j]).id,
    ) by {
        let rid = n.requests[j].id;
        let js: int = if j < j0 {
            j
        } else {
            j + 1
        };
        assert(s.requests[js].id == rid);
        assert(js != j0);
        assert(rid != id);
        let v = choose|v: int|
            0 <= v < s.tasks.len() && (#[trigger] s.tasks[v]).id == rid
                && !s.tasks[v].status.is_terminal();
        assert(v != i0);
        assert(n.tasks[v] == s.tasks[v]);
    }

    assert forall|i: int|
        0 <= i < n.tasks.len() && !(#[trigger] n.tasks[i]).status.is_terminal() implies
        has_request(n.requests, n.tasks[i].id) by {
        assert(i != i0);
        assert(!s.tasks[i].status.is_terminal());
        let j = choose|j: int|
            0 <= j < s.requests.len() && (#[trigger] s.requests[j]).id == s.tasks[i].id;
        assert(s.tasks[i].id != id);
        assert(j != j0);
        if j < j0 {
            assert(n.requests[j].id == n.tasks[i].id);
        } else {
            assert(n.requests[j - 1].id == n.tasks[i].id);
        }
    }
}

/// A task left `Processing` longer than this many seconds counts as
/// stale.
pub const STALE_AFTER_SECS: u64 = 3600;

/// The fixed error recorded for a reaped stale task.
pub open spec fn stale_error_text() -> Seq<char> {
    "Task timed out and was cleaned up"@
}

/// A task is stale when it has sat in `Processing` past the staleness
/// threshold.
pub open spec fn is_stale(t: ResultView, now: u64) -> bool {
    &&& t.status == TaskStatus::Processing
    &&& match t.started_at {
        Some(st) => st + STALE_AFTER_SECS < now,
        None => false,
    }
}

/// The record of a reaped stale task: failed with the fixed error.
pub open spec fn reaped_version(t: ResultView, now: u64) -> ResultView {
    failed_version(t, stale_error_text(), now)
}

/// Every stale task reaped, every other task untouched.
pub open spec fn reaped_tasks(tasks: Seq<ResultView>, now: u64) -> Seq<ResultView> {
    Seq::new(
        tasks.len(),
        |i: int|
            if is_stale(tasks[i], now) {
                reaped_version(tasks[i], now)
            } else {
                tasks[i]
            },
    )
}

/// The stale tasks themselves, in admission order.
pub open spec fn stale_tasks(tasks: Seq<ResultView>, now: u64) -> Seq<ResultView> {
    tasks.filter(|t: ResultView| is_stale(t, now))
}

/// The requests whose task is still live under these status records, in
/// their stored order.
pub open spec fn live_requests(
    requests: Seq<RequestView>,
    tasks: Seq<ResultView>,
) -> Seq<RequestView> {
    requests.filter(|r: RequestView| has_live_task(tasks, r.id))
}

/// Reaping: fail every stale task and delete its request; everything
/// else is untouched.
pub open spec fn reap_spec(s: QueueView, now: u64) -> QueueView {
    let tasks = reaped_tasks(s.tasks, now);
    QueueView {
        tasks,
        requests: live_requests(s.requests, tasks),
        queue: s.queue,
        observers: s.observers,
        next_id: s.next_id,
    }
}

/// Filtering keeps pairwise-distinct keys pairwise distinct.
pub proof fn lemma_filter_keeps_keys_distinct<T>(
    s: Seq<T>,
    p: spec_fn(T) -> bool,
    key: spec_fn(T) -> u64,
)
    requires
        forall|i: int, j: int| 0 <= i < j < s.len() ==> key(s[i]) != key(s[j]),
    ensures
        forall|i: int, j: int|
            0 <= i < j < s.filter(p).len() ==> key(#[trigger] s.filter(p)[i]) != key(
                #[trigger] s.filter(p)[j],
            ),
    decreases s.len(),
{
    reveal(Seq::filter);
    if s.len() > 0 {
        let rest = s.drop_last();
        let last = s.last();
        assert(forall|i: int, j: int| 0 <= i < j < rest.len() ==> key(rest[i]) != key(rest[j]));
        lemma_filter_keeps_keys_distinct(rest, p, key);
        if p(last) {
            let f = s.filter(p);
            let fr = rest.filter(p);
            assert(f == fr.push(last));
            assert forall|i: int, j: int|
                0 <= i < j < f.len() implies key(#[trigger] f[i]) != key(#[trigger] f[j]) by {
                if j < f.len() - 1 {
                    assert(f[i] == fr[i] && f[j] == fr[j]);
                } else {
                    assert(f[j] == last);
                    assert(f[i] == fr[i]);
                    assert(fr.contains(fr[i]));
                    rest.lemma_filter_contains_rev(p, fr[i]);
                    let w = choose|w: int| 0 <= w < rest.len() && rest[w] == fr[i];
                    assert(key(s[w]) != key(s[s.len() - 1]));
                }
            }
        }
    }
}

/// The views of a vector of status records.
pub open spec fn result_views(s: Seq<TaskResult>) -> Seq<ResultView> {
    Seq::new(s.len(), |i: int| s[i]@)
}

/// The views of a vector of requests.
pub open spec fn request_views(s: Seq<TaskRequest>) -> Seq<RequestView> {
    Seq::new(s.len(), |i: int| s[i]@)
}

/// The record of a task demoted to `Pending` at recovery: its supervisor
/// did not survive the restart, so it starts a fresh lifetime with
/// progress 0.
pub open spec fn demoted_version(t: ResultView, now: u64) -> ResultView {
    ResultView {
        id: t.id,
        status: TaskStatus::Pending,
        created_at: t.created_at,
        updated_at: now,
        started_at: None,
        completed_at: None,
        result: None,
        error: None,
        progress: 0,
    }
}

/// Every persisted `Processing` record demoted to `Pending`, everything
/// else untouched.
pub open spec fn demoted_tasks(tasks: Seq<ResultView>, now: u64) -> Seq<ResultView> {
    Seq::new(
        tasks.len(),
        |i: int|
            if tasks[i].status == TaskStatus::Processing {
                demoted_version(tasks[i], now)
            } else {
                tasks[i]
            },
    )
}

/// The persisted queue entries that still name a pending task, in their
/// persisted order.
pub open spec fn kept_queue(tasks: Seq<ResultView>, pq: Seq<u64>) -> Seq<u64> {
    pq.filter(|id: u64| has_pending_task(tasks, id))
}

/// The pending ids missing from the kept queue, in admission order: the
/// demoted tasks re-enqueued, plus any pending task whose queue entry was
/// lost.
pub open spec fn appended_ids(tasks: Seq<ResultView>, kept: Seq<u64>) -> Seq<u64> {
    tasks.filter(
        |t: ResultView| t.status == TaskStatus::Pending && !kept.contains(t.id),
    ).map_values(|t: ResultView| t.id)
}

/// The smallest id strictly above every persisted id: where fresh ids
/// start after recovery.
pub open spec fn fresh_id_after(results: Seq<ResultView>) -> u64
    decreases results.len(),
{
    if results.len() == 0 {
        0u64
    } else {
        let rest = fresh_id_after(results.drop_last());
        if results.last().id >= rest {
            (results.last().id + 1) as u64
        } else {
            rest
        }
    }
}

/// Recovery: demote every persisted `Processing` record, keep the
/// persisted queue entries that still name pending tasks, re-enqueue
/// every pending task missing from them exactly once, and keep exactly
/// the requests of live tasks. No observers are registered yet.
pub open spec fn recover_spec(
    results: Seq<ResultView>,
    requests: Seq<RequestView>,
    pq: Seq<u64>,
    now: u64,
    next_id: u64,
) -> QueueView {
    let tasks = demoted_tasks(results, now);
    let kept = kept_queue(tasks, pq);
    QueueView {
        tasks,
        requests: requests.filter(|r: RequestView| has_live_task(tasks, r.id)),
        queue: kept + appended_ids(tasks, kept),
        observers: Seq::empty(),
        next_id,
    }
}

/// Whether a vector of ids holds this id.
fn contains_id(v: &Vec<u64>, id: u64) -> (r: bool)
    ensures
        r == v@.contains(id),
{
    let mut i: usize = 0;
    while i < v.len()
        invariant
            i <= v@.len(),
            forall|j: int| 0 <= j < i ==> v@[j] != id,
        decreases v@.len() - i,
    {
        if v[i] == id {
            return true;
        }
        i = i + 1;
    }
    false
}

impl TaskQueue {
    /// Builds the engine from the persisted snapshot, running the
    /// recovery procedure: every record found `Processing` is assumed to
    /// have lost its supervisor in the restart, demoted to `Pending`, and
    /// re-enqueued exactly once; queue entries and requests that no
    /// longer name a live task are dropped; fresh ids start above every
    /// persisted id. The snapshot must be one the engine itself wrote:
    /// ids unique, every record well formed, the queue free of
    /// duplicates, and a request present for every non-terminal record.
    pub fn new(
        results: Vec<TaskResult>,
        requests: Vec<TaskRequest>,
        pending_queue: Vec<u64>,
        now: u64,
    ) -> (q: TaskQueue)
        requires
            ids_unique(result_views(results@)),
            forall|i: int|
                0 <= i < results@.len() ==> (#[trigger] result_views(results@)[i]).wf(),
            forall|i: int|
                0 <= i < results@.len() ==> (#[trigger] result_views(results@)[i]).id < u64::MAX,
            req_ids_unique(request_views(requests@)),
            forall|k: int, l: int|
                0 <= k < l < pending_queue@.len() ==> pending_queue@[k] != pending_queue@[l],
            forall|i: int|
                0 <= i < results@.len() ==> (!(#[trigger] result_views(results@)[i]
                ).status.is_terminal() ==> has_request(
                    request_views(requests@),
                    result_views(results@)[i].id,
                )),
        ensures
            q@.inv(),
            q@.next_id == fresh_id_after(result_views(results@)),
            q@ == recover_spec(
                result_views(results@),
                request_views(requests@),
                pending_queue@,
                now,
                q@.next_id,
            ),
    {
        let ghost orig_tasks = result_views(results@);
        let ghost orig_reqs = request_views(requests@);
        let ghost pq = pending_queue@;
        let mut engine = TaskQueue {
            results,
            requests,
            queue: Vec::new(),
            observers: Vec::new(),
            next_id: 0,
        };
        let mut next: u64 = 0;
        let mut i: usize = 0;
        while i < engine.results.len()
            invariant
                i <= engine.results@.len(),
                engine.results@.len() == orig_tasks.len(),
                engine@.requests == orig_reqs,
                engine@.queue == Seq::<u64>::empty(),
                engine@.observers == Seq::<u64>::empty(),
                forall|j: int|
                    0 <= j < orig_tasks.len() ==> (#[trigger] orig_tasks[j]).id < u64::MAX,
                forall|j: int| 0 <= j < orig_tasks.len() ==> (#[trigger] orig_tasks[j]).wf(),
                forall|j: int|
                    0 <= j < i ==> #[trigger] engine@.tasks[j] == (if orig_tasks[j].status
                        == TaskStatus::Processing {
                        demoted_version(orig_tasks[j], now)
                    } else {
                        orig_tasks[j]
                    }),
                forall|j: int|
                    i <= j < orig_tasks.len() ==> #[trigger] engine@.tasks[j] == orig_tasks[j],
                forall|j: int| 0 <= j < i ==> (#[trigger] orig_tasks[j]).id < next,
                next == fresh_id_after(orig_tasks.take(i as int)),
            decreases engine.results@.len() - i,
        {
            proof {
                assert(engine@.tasks[i as int] == orig_tasks[i as int]);
            }
            let is_processing = match engine.results[i].status {
                TaskStatus::Processing => true,
                _ => false,
            };
            if is_processing {
                let ghost pre = engine@;
                let demoted = TaskResult {
                    id: engine.results[i].id,
                    status: TaskStatus::Pending,
                    created_at: engine.results[i].created_at,
                    updated_at: now,
                    started_at: None,
                    completed_at: None,
                    result: None,
                    error: None,
                    progress: 0,
                };
                engine.results[i] = demoted;
                proof {
                    assert(engine@.tasks[i as int] == demoted_version(orig_tasks[i as int], now));
                    assert forall|j: int|
                        0 <= j < orig_tasks.len() && j != i as int implies #[trigger] engine@
                        .tasks[j] == pre.tasks[j] by {}
                    assert(engine@.requests =~= orig_reqs);
                }
            }
            proof {
                assert(engine@.tasks[i as int].id == orig_tasks[i as int].id);
                assert(orig_tasks.take(i as int + 1).drop_last() =~= orig_tasks.take(i as int));
                assert(orig_tasks.take(i as int + 1).last() == orig_tasks[i as int]);
            }
            if engine.results[i].id >= next {
                next = engine.results[i].id + 1;
            }
            i = i + 1;
        }
        let ghost tasks_new = demoted_tasks(orig_tasks, now);
        proof {
            assert(orig_tasks.take(orig_tasks.len() as int) =~= orig_tasks);
            assert(engine@.tasks =~= tasks_new);
        }
        engine.next_id = next;
        proof {
            assert(engine@.tasks =~= tasks_new);
            assert forall|a: int, b: int|
                0 <= a < b < tasks_new.len() implies (#[trigger] tasks_new[a]).id != (
            #[trigger] tasks_new[b]).id by {
                assert(tasks_new[a].id == orig_tasks[a].id);
                assert(tasks_new[b].id == orig_tasks[b].id);
            }
        }
        // keep the persisted queue entries that still name pending tasks
        let mut k: usize = 0;
        while k < pending_queue.len()
            invariant
                k <= pq.len(),
                pending_queue@ == pq,
                engine@.tasks == tasks_new,
                ids_unique(tasks_new),
                engine@.requests == orig_reqs,
                engine@.observers == Seq::<u64>::empty(),
                engine@.next_id == next,
                engine@.queue == kept_queue(tasks_new, pq.take(k as int)),
            decreases pq.len() - k,
        {
            proof {
                assert(pq.take(k as int + 1) =~= pq.take(k as int).push(pq[k as int]));
                pq.take(k as int).lemma_filter_push(
                    pq[k as int],
                    |id: u64| has_pending_task(tasks_new, id),
                );
            }
            let id = pending_queue[k];
            let keep = match engine.find_result(id) {
                Some(i) => {
                    let pending = match engine.results[i].status {
                        TaskStatus::Pending => true,
                        _ => false,
                    };
                    proof {
                        assert(tasks_new[i as int].id == id);
                        if pending {
                            assert(has_pending_task(tasks_new, id));
                        } else if has_pending_task(tasks_new, id) {
                            let w = choose|w: int|
                                0 <= w < tasks_new.len() && (#[trigger] tasks_new[w]).id == id
                                    && tasks_new[w].status == TaskStatus::Pending;
                            lemma_idx(tasks_new, id, w);
                            lemma_idx(tasks_new, id, i as int);
                            assert(false);
                        }
                    }
                    pending
                },
                None => {
                    proof {
                        if has_pending_task(tasks_new, id) {
                            let w = choose|w: int|
                                0 <= w < tasks_new.len() && (#[trigger] tasks_new[w]).id == id
                                    && tasks_new[w].status == TaskStatus::Pending;
                            assert(has_task(engine@.tasks, id));
                        }
                    }
                    false
                },
            };
            if keep {
                engine.queue.push(id);
            }
            proof {
                assert(engine@.queue =~= kept_queue(tasks_new, pq.take(k as int + 1)));
            }
            k = k + 1;
        }
        proof {
            assert(pq.take(pq.len() as int) =~= pq);
        }
        // re-enqueue, in admission order, every pending task the kept
        // entries miss: the demoted tasks and any entry the store lost
        let ghost kept = kept_queue(tasks_new, pq);
        let mut appended: Vec<u64> = Vec::new();
        let mut i2: usize = 0;
        while i2 < engine.results.len()
            invariant
                i2 <= engine.results@.len(),
                engine.results@.len() == tasks_new.len(),
                engine@.tasks == tasks_new,
                ids_unique(tasks_new),
                engine@.requests == orig_reqs,
                engine@.observers == Seq::<u64>::empty(),
                engine@.next_id == next,
                engine@.queue == kept,
                appended@ == appended_ids(tasks_new.take(i2 as int), kept),
            decreases engine.results@.len() - i2,
        {
            proof {
                assert(engine@.tasks[i2 as int] == tasks_new[i2 as int]);
                assert(tasks_new.take(i2 as int + 1) =~= tasks_new.take(i2 as int).push(
                    tasks_new[i2 as int],
                ));
                tasks_new.take(i2 as int).lemma_filter_push(
                    tasks_new[i2 as int],
                    |t: ResultView| t.status == TaskStatus::Pending && !kept.contains(t.id),
                );
            }
            let pending = match engine.results[i2].status {
                TaskStatus::Pending => true,
                _ => false,
            };
            if pending && !contains_id(&engine.queue, engine.results[i2].id) {
                appended.push(engine.results[i2].id);
            }
            proof {
                assert(appended@ =~= appended_ids(tasks_new.take(i2 as int + 1), kept));
            }
            i2 = i2 + 1;
        }
        proof {
            assert(tasks_new.take(tasks_new.len() as int) =~= tasks_new);
        }
        engine.queue.append(&mut appended);
        engine.rebuild_requests(Ghost(tasks_new));
        proof {
            let n = engine@;
            let sp = recover_spec(orig_tasks, orig_reqs, pq, now, next);
            assert(n.tasks =~= sp.tasks);
            assert(n.requests =~= sp.requests);
            assert(n.queue =~= sp.queue);
            assert(n.observers =~= sp.observers);
            assert(n == sp);
            lemma_recover_inv(orig_tasks, orig_reqs, pq, now, next);
        }
        engine
    }

    /// Whether this record is stale now.
    fn stale_check(t: &TaskResult, now: u64) -> (r: bool)
        ensures
            r == is_stale(t@, now),
    {
        match t.status {
            TaskStatus::Processing => match t.started_at {
                Some(st) => now > STALE_AFTER_SECS && st < now - STALE_AFTER_SECS,
                None => false,
            },
            _ => false,
        }
    }

    /// Fails every task stuck in `Processing` past the staleness
    /// threshold with the fixed cleanup error, deletes those tasks'
    /// requests, and yields how many tasks were reaped together with the
    /// completion events to broadcast, in admission order. Every other
    /// task is untouched.
    pub fn cleanup_stale_tasks(&mut self, now: u64) -> (r: (usize, Vec<Event>))
        requires
            old(self)@.inv(),
        ensures
            final(self)@.inv(),
            final(self)@ == reap_spec(old(self)@, now),
            r.0 == stale_tasks(old(self)@.tasks, now).len(),
            r.1@.len() == stale_tasks(old(self)@.tasks, now).len(),
            forall|k: int|
                0 <= k < r.1@.len() ==> (#[trigger] r.1@[k])@ == completed_event(
                    reaped_version(stale_tasks(old(self)@.tasks, now)[k], now),
                    now,
                ),
    {
        let ghost o = self@;
        let mut count: usize = 0;
        let mut events: Vec<Event> = Vec::new();
        let mut i: usize = 0;
        while i < self.results.len()
            invariant
                o.inv(),
                i <= self.results@.len(),
                self.results@.len() == o.tasks.len(),
                self@.requests == o.requests,
                self@.queue == o.queue,
                self@.observers == o.observers,
                self@.next_id == o.next_id,
                forall|j: int|
                    0 <= j < i ==> #[trigger] self@.tasks[j] == (if is_stale(o.tasks[j], now) {
                        reaped_version(o.tasks[j], now)
                    } else {
                        o.tasks[j]
                    }),
                forall|j: int| i <= j < o.tasks.len() ==> #[trigger] self@.tasks[j] == o.tasks[j],
                count == stale_tasks(o.tasks.take(i as int), now).len(),
                events@.len() == count,
                forall|k: int|
                    0 <= k < events@.len() ==> (#[trigger] events@[k])@ == completed_event(
                        reaped_version(stale_tasks(o.tasks.take(i as int), now)[k], now),
                        now,
                    ),
            decreases self.results@.len() - i,
        {
            proof {
                assert(self@.tasks[i as int] == o.tasks[i as int]);
                assert(o.tasks.take(i as int + 1) =~= o.tasks.take(i as int).push(
                    o.tasks[i as int],
                ));
                o.tasks.take(i as int).lemma_filter_push(
                    o.tasks[i as int],
                    |t: ResultView| is_stale(t, now),
                );
            }
            if Self::stale_check(&self.results[i], now) {
                proof {
                    assert(o.tasks[i as int].wf());
                }
                let reaped = TaskResult {
                    id: self.results[i].id,
                    status: TaskStatus::Failed,
                    created_at: self.results[i].created_at,
                    updated_at: now,
                    started_at: self.results[i].started_at,
                    completed_at: Some(now),
                    result: None,
                    error: Some({
                        proof { reveal_strlit("Task timed out and was cleaned up"); }
                        "Task timed out and was cleaned up".to_owned()
                    }),
                    progress: self.results[i].progress,
                };
                let event = Event {
                    kind: EventKind::TaskCompleted,
                    task_id: reaped.id,
                    status: Some(TaskStatus::Failed),
                    progress: Some(reaped.progress),
                    message: crate::task::clone_opt_string(&reaped.error),
                    related_task_id: None,
                    timestamp: now,
                };
                let ghost pre = self@;
                self.results[i] = reaped;
                events.push(event);
                count = count + 1;
                proof {
                    assert(self@.tasks[i as int] == reaped_version(o.tasks[i as int], now));
                    assert forall|j: int|
                        0 <= j <= i as int implies #[trigger] self@.tasks[j] == (if is_stale(
                        o.tasks[j],
                        now,
                    ) {
                        reaped_version(o.tasks[j], now)
                    } else {
                        o.tasks[j]
                    }) by {
                        if j < i as int {
                            assert(self@.tasks[j] == pre.tasks[j]);
                        }
                    }
                    assert forall|j: int|
                        i as int + 1 <= j < o.tasks.len() implies #[trigger] self@.tasks[j]
                        == o.tasks[j] by {
                        assert(self@.tasks[j] == pre.tasks[j]);
                    }
                }
            } else {
                proof {
                    assert(self@.tasks[i as int] == (if is_stale(o.tasks[i as int], now) {
                        reaped_version(o.tasks[i as int], now)
                    } else {
                        o.tasks[i as int]
                    }));
                }
            }
            i = i + 1;
        }
        proof {
            assert(o.tasks.take(o.tasks.len() as int) =~= o.tasks);
            assert(self@.tasks =~= reaped_tasks(o.tasks, now));
        }
        let ghost tasks_new = reaped_tasks(o.tasks, now);
        proof {
            assert forall|a: int, b: int| 0 <= a < b < tasks_new.len() implies (
            #[trigger] tasks_new[a]).id != (#[trigger] tasks_new[b]).id by {
                assert(tasks_new[a].id == o.tasks[a].id);
                assert(tasks_new[b].id == o.tasks[b].id);
            }
        }
        self.rebuild_requests(Ghost(tasks_new));
        proof {
            let n = self@;
            let sp = reap_spec(o, now);
            assert(n.tasks =~= sp.tasks);
            assert(n.queue =~= sp.queue);
            assert(n.observers =~= sp.observers);
            assert(n == sp);
            lemma_reap_preserves_inv(o, now);
        }
        (count, events)
    }

    /// Drops every request whose task is no longer live, keeping the
    /// rest in order. The caller has already brought the status records
    /// to their final shape.
    fn rebuild_requests(&mut self, Ghost(tasks_new): Ghost<Seq<ResultView>>)
        requires
            old(self)@.tasks == tasks_new,
            ids_unique(tasks_new),
        ensures
            final(self)@ == (QueueView {
                requests: live_requests(old(self)@.requests, tasks_new),
                ..old(self)@
            }),
    {
        let ghost o = self@;
        let mut kept: Vec<TaskRequest> = Vec::new();
        let mut j: usize = 0;
        while j < self.requests.len()
            invariant
                j <= self.requests@.len(),
                self@ == o,
                o.tasks == tasks_new,
                ids_unique(tasks_new),
                request_views(kept@) == live_requests(o.requests.take(j as int), tasks_new),
            decreases self.requests@.len() - j,
        {
            proof {
                assert(o.requests.take(j as int + 1) =~= o.requests.take(j as int).push(
                    o.requests[j as int],
                ));
                o.requests.take(j as int).lemma_filter_push(
                    o.requests[j as int],
                    |r: RequestView| has_live_task(tasks_new, r.id),
                );
            }
            let id = self.requests[j].id;
            let live = match self.find_result(id) {
                Some(i) => {
                    let terminal = self.results[i].status.terminal();
                    proof {
                        assert(tasks_new[i as int].id == id);
                        if !terminal {
                            assert(has_live_task(tasks_new, id));
                        } else if has_live_task(tasks_new, id) {
                            let w = choose|w: int|
                                0 <= w < tasks_new.len() && (#[trigger] tasks_new[w]).id == id
                                    && !tasks_new[w].status.is_terminal();
                            lemma_idx(tasks_new, id, w);
                            lemma_idx(tasks_new, id, i as int);
                            assert(false);
                        }
                    }
                    !terminal
                },
                None => {
                    proof {
                        if has_live_task(tasks_new, id) {
                            let w = choose|w: int|
                                0 <= w < tasks_new.len() && (#[trigger] tasks_new[w]).id == id
                                    && !tasks_new[w].status.is_terminal();
                            assert(has_task(self@.tasks, id));
                        }
                    }
                    false
                },
            };
            proof {
                assert(live == has_live_task(tasks_new, o.requests[j as int].id));
            }
            if live {
                kept.push(self.requests[j].clone());
            }
            proof {
                assert(request_views(kept@) =~= live_requests(
                    o.requests.take(j as int + 1),
                    tasks_new,
                ));
            }
            j = j + 1;
        }
        self.requests = kept;
        proof {
            assert(o.requests.take(o.requests.len() as int) =~= o.requests);
            let n = self@;
            let sp = QueueView { requests: live_requests(o.requests, tasks_new), ..o };
            assert(n.requests =~= sp.requests);
            assert(n.tasks =~= sp.tasks);
            assert(n == sp);
        }
    }
}

/// How many records carry this status.
pub open spec fn count_status(tasks: Seq<ResultView>, st: TaskStatus) -> nat
    decreases tasks.len(),
{
    if tasks.len() == 0 {
        0nat
    } else {
        count_status(tasks.drop_last(), st) + (if tasks.last().status == st {
            1nat
        } else {
            0nat
        })
    }
}

/// A status count never exceeds the number of records.
pub proof fn lemma_count_status_le(tasks: Seq<ResultView>, st: TaskStatus)
    ensures
        count_status(tasks, st) <= tasks.len(),
    decreases tasks.len(),
{
    if tasks.len() > 0 {
        lemma_count_status_le(tasks.drop_last(), st);
    }
}

/// Two different statuses never count more than the number of records
/// together.
pub proof fn lemma_count_status_pair_le(tasks: Seq<ResultView>, st1: TaskStatus, st2: TaskStatus)
    requires
        st1 != st2,
    ensures
        count_status(tasks, st1) + count_status(tasks, st2) <= tasks.len(),
    decreases tasks.len(),
{
    if tasks.len() > 0 {
        lemma_count_status_pair_le(tasks.drop_last(), st1, st2);
    }
}

/// Whether a record passes a status filter (no filter passes all).
pub open spec fn matches_filter(t: ResultView, f: Option<TaskStatus>) -> bool {
    match f {
        Some(st) => t.status == st,
        None => true,
    }
}

/// The records that pass a status filter, in admission order.
pub open spec fn history_filtered(
    tasks: Seq<ResultView>,
    f: Option<TaskStatus>,
) -> Seq<ResultView> {
    tasks.filter(|t: ResultView| matches_filter(t, f))
}

/// Sorted by `updated_at`, newest first.
pub open spec fn sorted_desc(s: Seq<ResultView>) -> bool {
    forall|a: int, b: int|
        0 <= a <= b < s.len() ==> (#[trigger] s[a]).updated_at >= (#[trigger] s[b]).updated_at
}

/// How many entries a history reply holds under an optional limit.
pub open spec fn clipped_len(limit: Option<usize>, len: nat) -> int {
    match limit {
        Some(l) => vstd::math::min(l as int, len as int),
        None => len as int,
    }
}

/// Whether two observer ids differ.
pub open spec fn differs(x: u64, id: u64) -> bool {
    x != id
}

/// The observer registry without one observer.
pub open spec fn observers_without(observers: Seq<u64>, id: u64) -> Seq<u64> {
    observers.filter(|x: u64| differs(x, id))
}

impl TaskQueue {
    /// Counts every known task by status, deriving the queue statistics
    /// on demand. `Cancelled` records count as failed.
    pub fn get_queue_stats(&self) -> (r: QueueStats)
        ensures
            r.pending_count == count_status(self@.tasks, TaskStatus::Pending),
            r.processing_count == count_status(self@.tasks, TaskStatus::Processing),
            r.completed_count == count_status(self@.tasks, TaskStatus::Completed),
            r.failed_count == count_status(self@.tasks, TaskStatus::Failed) + count_status(
                self@.tasks,
                TaskStatus::Cancelled,
            ),
            r.total_tasks == self@.tasks.len(),
    {
        let ghost tasks = self@.tasks;
        let mut pending: usize = 0;
        let mut processing: usize = 0;
        let mut completed: usize = 0;
        let mut failed: usize = 0;
        let mut i: usize = 0;
        while i < self.results.len()
            invariant
                i <= self.results@.len(),
                self@.tasks == tasks,
                self.results@.len() == tasks.len(),
                pending == count_status(tasks.take(i as int), TaskStatus::Pending),
                processing == count_status(tasks.take(i as int), TaskStatus::Processing),
                completed == count_status(tasks.take(i as int), TaskStatus::Completed),
                failed == count_status(tasks.take(i as int), TaskStatus::Failed) + count_status(
                    tasks.take(i as int),
                    TaskStatus::Cancelled,
                ),
            decreases self.results@.len() - i,
        {
            proof {
                assert(tasks.take(i as int + 1).drop_last() =~= tasks.take(i as int));
                assert(tasks.take(i as int + 1).last() == tasks[i as int]);
                assert(self@.tasks[i as int] == tasks[i as int]);
                lemma_count_status_le(tasks.take(i as int), TaskStatus::Pending);
                lemma_count_status_le(tasks.take(i as int), TaskStatus::Processing);
                lemma_count_status_le(tasks.take(i as int), TaskStatus::Completed);
                lemma_count_status_pair_le(
                    tasks.take(i as int),
                    TaskStatus::Failed,
                    TaskStatus::Cancelled,
                );
            }
            match self.results[i].status {
                TaskStatus::Pending => {
                    pending = pending + 1;
                },
                TaskStatus::Processing => {
                    processing = processing + 1;
                },
                TaskStatus::Completed => {
                    completed = completed + 1;
                },
                TaskStatus::Failed => {
                    failed = failed + 1;
                },
                TaskStatus::Cancelled => {
                    failed = failed + 1;
                },
            }
            i = i + 1;
        }
        proof {
            assert(tasks.take(tasks.len() as int) =~= tasks);
        }
        QueueStats {
            pending_count: pending,
            processing_count: processing,
            completed_count: completed,
            failed_count: failed,
            total_tasks: self.results.len(),
        }
    }

    /// The known task records that pass the status filter, sorted by
    /// `updated_at` newest first, clipped to the limit when one is given:
    /// some sorted rearrangement of the filtered records, cut after the
    /// first `limit` entries.
    pub fn get_task_history(&self, limit: Option<usize>, status_filter: Option<TaskStatus>) -> (r:
        Vec<TaskResult>)
        ensures
            sorted_desc(result_views(r@)),
            exists|full: Seq<ResultView>|
                #![auto]
                {
                    &&& full.to_multiset() == history_filtered(
                        self@.tasks,
                        status_filter,
                    ).to_multiset()
                    &&& sorted_desc(full)
                    &&& result_views(r@) == full.take(clipped_len(limit, full.len()))
                },
    {
        let ghost tasks = self@.tasks;
        let mut work: Vec<TaskResult> = Vec::new();
        let mut i: usize = 0;
        while i < self.results.len()
            invariant
                i <= self.results@.len(),
                self@.tasks == tasks,
                self.results@.len() == tasks.len(),
                result_views(work@) == history_filtered(tasks.take(i as int), status_filter),
            decreases self.results@.len() - i,
        {
            proof {
                assert(self@.tasks[i as int] == tasks[i as int]);
                assert(tasks.take(i as int + 1) =~= tasks.take(i as int).push(tasks[i as int]));
                tasks.take(i as int).lemma_filter_push(
                    tasks[i as int],
                    |t: ResultView| matches_filter(t, status_filter),
                );
            }
            let keep = match status_filter {
                None => true,
                Some(st) => self.results[i].status == st,
            };
            if keep {
                work.push(self.results[i].clone());
            }
            proof {
                assert(result_views(work@) =~= history_filtered(
                    tasks.take(i as int + 1),
                    status_filter,
                ));
            }
            i = i + 1;
        }
        proof {
            assert(tasks.take(tasks.len() as int) =~= tasks);
        }
        let mut out = Self::sort_newest_first(work);
        let ghost full = result_views(out@);
        match limit {
            Some(l) => {
                out.truncate(l);
            },
            None => {},
        }
        proof {
            assert(result_views(out@) =~= full.take(clipped_len(limit, full.len())));
            assert forall|a: int, b: int|
                0 <= a <= b < result_views(out@).len() implies (
            #[trigger] result_views(out@)[a]).updated_at >= (
            #[trigger] result_views(out@)[b]).updated_at by {
                assert(full[a].updated_at >= full[b].updated_at);
            }
        }
        out
    }

    /// Sorts records by `updated_at`, newest first, keeping exactly the
    /// same records.
    fn sort_newest_first(input: Vec<TaskResult>) -> (r: Vec<TaskResult>)
        ensures
            sorted_desc(result_views(r@)),
            result_views(r@).to_multiset() == result_views(input@).to_multiset(),
    {
        broadcast use vstd::seq_lib::group_to_multiset_ensures;

        let ghost orig = result_views(input@);
        let mut work = input;
        let mut out: Vec<TaskResult> = Vec::new();
        while work.len() > 0
            invariant
                result_views(out@).to_multiset().add(result_views(work@).to_multiset())
                    =~= orig.to_multiset(),
                sorted_desc(result_views(out@)),
                forall|a: int, b: int|
                    0 <= a < out@.len() && 0 <= b < work@.len() ==> (
                    #[trigger] result_views(out@)[a]).updated_at >= (
                    #[trigger] result_views(work@)[b]).updated_at,
            decreases work@.len(),
        {
            // pick the newest remaining record
            let mut m: usize = 0;
            let mut j: usize = 1;
            while j < work.len()
                invariant
                    m < j <= work@.len() || (j <= work@.len() && m == 0),
                    m < work@.len(),
                    work@.len() > 0,
                    forall|b: int|
                        0 <= b < j ==> (#[trigger] result_views(work@)[b]).updated_at
                            <= result_views(work@)[m as int].updated_at,
                decreases work@.len() - j,
            {
                if work[j].updated_at > work[m].updated_at {
                    m = j;
                }
                j = j + 1;
            }
            let ghost pre_work = result_views(work@);
            let ghost pre_out = result_views(out@);
            let picked = work.remove(m);
            out.push(picked);
            proof {
                broadcast use vstd::seq_lib::group_to_multiset_ensures;

                assert(result_views(work@) =~= pre_work.remove(m as int));
                assert(result_views(out@) =~= pre_out.push(picked@));
                assert(picked@ == pre_work[m as int]);
                assert(result_views(out@).to_multiset() =~= pre_out.to_multiset().insert(
                    picked@,
                ));
                assert(result_views(work@).to_multiset() =~= pre_work.to_multiset().remove(
                    picked@,
                ));
                assert(pre_work.to_multiset().count(picked@) > 0);
                assert(result_views(out@).to_multiset().add(result_views(work@).to_multiset())
                    =~= pre_out.to_multiset().add(pre_work.to_multiset()));
                // the picked record is newest among the remainder
                assert forall|a: int, b: int|
                    0 <= a < out@.len() && 0 <= b < work@.len() implies (
                #[trigger] result_views(out@)[a]).updated_at >= (
                #[trigger] result_views(work@)[b]).updated_at by {
                    if a < out@.len() - 1 {
                        if b < m as int {
                            assert(pre_work[b].updated_at <= pre_work[m as int].updated_at);
                        } else {
                            assert(pre_work[b + 1].updated_at <= pre_work[m as int].updated_at);
                        }
                    } else {
                        assert(result_views(out@)[a] == picked@);
                        if b < m as int {
                            assert(pre_work[b].updated_at <= pre_work[m as int].updated_at);
                        } else {
                            assert(pre_work[b + 1].updated_at <= pre_work[m as int].updated_at);
                        }
                    }
                }
                assert forall|a: int, b: int|
                    0 <= a <= b < out@.len() implies (
                #[trigger] result_views(out@)[a]).updated_at >= (
                #[trigger] result_views(out@)[b]).updated_at by {
                    if b < out@.len() - 1 {
                        assert(pre_out[a].updated_at >= pre_out[b].updated_at);
                    } else if a < out@.len() - 1 {
                        assert(result_views(out@)[a] == pre_out[a]);
                    }
                }
            }
        }
        proof {
            assert(result_views(work@).to_multiset() =~= Multiset::<ResultView>::empty());
            assert(result_views(out@).to_multiset().add(Multiset::<ResultView>::empty())
                =~= result_views(out@).to_multiset());
        }
        out
    }

    /// Registers an observer handle, once: a second registration under
    /// the same id changes nothing.
    pub fn add_websocket_session(&mut self, session_id: u64)
        ensures
            final(self)@ == (QueueView {
                observers: if old(self)@.observers.contains(session_id) {
                    old(self)@.observers
                } else {
                    old(self)@.observers.push(session_id)
                },
                ..old(self)@
            }),
            final(self)@.observers.contains(session_id),
            old(self)@.inv() ==> final(self)@.inv(),
    {
        let ghost o = self@;
        if !contains_id(&self.observers, session_id) {
            self.observers.push(session_id);
        }
        proof {
            let n = self@;
            assert(n.tasks =~= o.tasks);
            assert(n.requests =~= o.requests);
            if o.observers.contains(session_id) {
                assert(n == (QueueView { observers: o.observers, ..o }));
            } else {
                assert(n.observers[n.observers.len() - 1] == session_id);
            }
        }
    }

    /// Removes an observer handle; the rest keep their order.
    pub fn remove_websocket_session(&mut self, session_id: u64)
        ensures
            final(self)@ == (QueueView {
                observers: observers_without(old(self)@.observers, session_id),
                ..old(self)@
            }),
            old(self)@.inv() ==> final(self)@.inv(),
    {
        let ghost o = self@;
        let mut kept: Vec<u64> = Vec::new();
        let mut i: usize = 0;
        while i < self.observers.len()
            invariant
                i <= self.observers@.len(),
                self@ == o,
                kept@ == observers_without(o.observers.take(i as int), session_id),
            decreases self.observers@.len() - i,
        {
            proof {
                assert(o.observers.take(i as int + 1) =~= o.observers.take(i as int).push(
                    o.observers[i as int],
                ));
                o.observers.take(i as int).lemma_filter_push(
                    o.observers[i as int],
                    |x: u64| differs(x, session_id),
                );
            }
            let v = self.observers[i];
            if v != session_id {
                kept.push(v);
            }
            proof {
                assert(v == o.observers[i as int]);
                assert(kept@ =~= observers_without(o.observers.take(i as int + 1), session_id));
            }
            i = i + 1;
        }
        self.observers = kept;
        proof {
            assert(o.observers.take(o.observers.len() as int) =~= o.observers);
            let n = self@;
            let sp = QueueView { observers: observers_without(o.observers, session_id), ..o };
            assert(n.tasks =~= sp.tasks);
            assert(n.requests =~= sp.requests);
            assert(n == sp);
        }
    }

    /// Lays out the best-effort sends that broadcast one event: one
    /// delivery per registered observer, in registration order.
    pub fn broadcast_event(&self, event: &Event) -> (r: Vec<crate::event::Delivery>)
        ensures
            r@.len() == self@.observers.len(),
            forall|k: int|
                0 <= k < r@.len() ==> #[trigger] r@[k]@ == (self@.observers[k], event@),
    {
        crate::event::fan_out(&self.observers, event)
    }
}

/// Recovery establishes the engine invariant from any snapshot the
/// engine itself could have written.
pub proof fn lemma_recover_inv(
    results: Seq<ResultView>,
    requests: Seq<RequestView>,
    pq: Seq<u64>,
    now: u64,
    next_id: u64,
)
    requires
        ids_unique(results),
        forall|i: int| 0 <= i < results.len() ==> (#[trigger] results[i]).wf(),
        forall|i: int| 0 <= i < results.len() ==> (#[trigger] results[i]).id < next_id,
        req_ids_unique(requests),
        forall|k: int, l: int| 0 <= k < l < pq.len() ==> pq[k] != pq[l],
        forall|i: int|
            0 <= i < results.len() ==> (!(#[trigger] results[i]).status.is_terminal()
                ==> has_request(requests, results[i].id)),
    ensures
        recover_spec(results, requests, pq, now, next_id).inv(),
{
    let n = recover_spec(results, requests, pq, now, next_id);
    let tasks = demoted_tasks(results, now);
    let kept = kept_queue(tasks, pq);
    let appended = appended_ids(tasks, kept);
    let kl = kept.len() as int;
    let p1 = |id: u64| has_pending_task(tasks, id);
    let p2 = |t: ResultView| t.status == TaskStatus::Pending && !kept.contains(t.id);
    let p3 = |r: RequestView| has_live_task(tasks, r.id);
    let filtered = tasks.filter(p2);

    assert forall|i: int| 0 <= i < tasks.len() implies (#[trigger] tasks[i]).id
        == results[i].id by {}
    assert(ids_unique(n.tasks));
    assert forall|i: int| 0 <= i < tasks.len() implies (#[trigger] tasks[i]).wf() by {
        assert(results[i].wf());
    }

    // a task is live after demotion exactly when it was live before
    assert forall|i: int|
        0 <= i < tasks.len() implies ((#[trigger] tasks[i]).status.is_terminal()
        <==> results[i].status.is_terminal()) by {}

    lemma_filter_keeps_keys_distinct(requests, p3, |r: RequestView| r.id);
    assert(req_ids_unique(n.requests));

    // the kept entries are pairwise distinct and name pending tasks
    lemma_filter_keeps_keys_distinct(pq, p1, |id: u64| id);
    assert forall|k: int| 0 <= k < kl implies p1(#[trigger] kept[k]) by {
        pq.lemma_filter_pred(p1, k);
    }

    // the appended ids are pairwise distinct, name pending tasks, and
    // avoid the kept entries
    lemma_filter_keeps_keys_distinct(tasks, p2, |t: ResultView| t.id);
    assert forall|m: int|
        0 <= m < appended.len() implies p2(#[trigger] filtered[m]) && appended[m]
        == filtered[m].id by {
        tasks.lemma_filter_pred(p2, m);
    }
    assert forall|m: int|
        0 <= m < appended.len() implies has_pending_task(tasks, #[trigger] appended[m]) by {
        assert(filtered.contains(filtered[m]));
        tasks.lemma_filter_contains_rev(p2, filtered[m]);
        let w = choose|w: int| 0 <= w < tasks.len() && tasks[w] == filtered[m];
        assert(tasks[w].id == appended[m] && tasks[w].status == TaskStatus::Pending);
    }

    // the final queue is duplicate free
    assert forall|k: int, l: int|
        0 <= k < l < n.queue.len() implies #[trigger] n.queue[k] != #[trigger] n.queue[l] by {
        if k < kl && l >= kl {
            assert(n.queue[k] == kept[k]);
            assert(n.queue[l] == appended[l - kl]);
            assert(p2(filtered[l - kl]));
            if kept[k] == appended[l - kl] {
                assert(kept.contains(filtered[l - kl].id));
            }
        } else if k >= kl {
            assert(n.queue[k] == appended[k - kl]);
            assert(n.queue[l] == appended[l - kl]);
            assert(filtered[k - kl].id != filtered[l - kl].id);
        }
    }

    // every queue entry names a pending task
    assert forall|k: int|
        0 <= k < n.queue.len() implies has_pending_task(n.tasks, #[trigger] n.queue[k]) by {
        if k < kl {
            assert(p1(kept[k]));
        } else {
            assert(n.queue[k] == appended[k - kl]);
        }
    }

    // every pending task is queued
    assert forall|i: int|
        0 <= i < n.tasks.len() && (#[trigger] n.tasks[i]).status == TaskStatus::Pending implies
        n.queue.contains(n.tasks[i].id) by {
        if kept.contains(tasks[i].id) {
            let k = choose|k: int| 0 <= k < kept.len() && kept[k] == tasks[i].id;
            assert(n.queue[k] == tasks[i].id);
        } else {
            assert(p2(tasks[i]));
            tasks.lemma_filter_contains(p2, i);
            let m = choose|m: int| 0 <= m < filtered.len() && filtered[m] == tasks[i];
            assert(appended[m] == tasks[i].id);
            assert(n.queue[kl + m] == tasks[i].id);
        }
    }

    // every surviving request names a live task
    assert forall|j: int|
        0 <= j < n.requests.len() implies has_live_task(
        n.tasks,
        (#[trigger] n.requests[j]).id,
    ) by {
        requests.lemma_filter_pred(p3, j);
    }

    // every live task keeps its request
    assert forall|i: int|
        0 <= i < n.tasks.len() && !(#[trigger] n.tasks[i]).status.is_terminal() implies
        has_request(n.requests, n.tasks[i].id) by {
        assert(!results[i].status.is_terminal());
        let j = choose|j: int|
            0 <= j < requests.len() && (#[trigger] requests[j]).id == results[i].id;
        assert(has_live_task(tasks, requests[j].id));
        assert(p3(requests[j]));
        requests.lemma_filter_contains(p3, j);
        let w = choose|w: int| 0 <= w < n.requests.len() && #[trigger] n.requests[w]
            == requests[j];
        assert(n.requests[w].id == n.tasks[i].id);
    }
}

/// The non-terminal task ids are untouched by reaping a stale task: a
/// stale task was `Processing`, so it ends `Failed`, and reaping touches
/// nothing else.
pub proof fn lemma_reap_preserves_inv(s: QueueView, now: u64)
    requires
        s.inv(),
    ensures
        reap_spec(s, now).inv(),
{
    let n = reap_spec(s, now);
    let tasks = n.tasks;
    let pred = |r: RequestView| has_live_task(tasks, r.id);

    assert forall|i: int| 0 <= i < tasks.len() implies (#[trigger] tasks[i]).id
        == s.tasks[i].id by {}
    assert forall|i: int| 0 <= i < tasks.len() implies (#[trigger] tasks[i]).wf() by {
        assert(s.tasks[i].wf());
        if is_stale(s.tasks[i], now) {
            assert(s.tasks[i].status == TaskStatus::Processing);
        }
    }

    lemma_filter_keeps_keys_distinct(s.requests, pred, |r: RequestView| r.id);
    assert(req_ids_unique(n.requests));

    assert forall|k: int|
        0 <= k < n.queue.len() implies has_pending_task(n.tasks, #[trigger] n.queue[k]) by {
        let v = choose|v: int|
            0 <= v < s.tasks.len() && (#[trigger] s.tasks[v]).id == s.queue[k]
                && s.tasks[v].status == TaskStatus::Pending;
        assert(!is_stale(s.tasks[v], now));
        assert(n.tasks[v] == s.tasks[v]);
    }

    assert forall|i: int|
        0 <= i < n.tasks.len() && (#[trigger] n.tasks[i]).status == TaskStatus::Pending implies
        n.queue.contains(n.tasks[i].id) by {
        assert(!is_stale(s.tasks[i], now));
        assert(s.tasks[i].status == TaskStatus::Pending);
    }

    assert forall|j: int|
        0 <= j < n.requests.len() implies has_live_task(
        n.tasks,
        (#[trigger] n.requests[j]).id,
    ) by {
        s.requests.lemma_filter_pred(pred, j);
    }

    assert forall|i: int|
        0 <= i < n.tasks.len() && !(#[trigger] n.tasks[i]).status.is_terminal() implies
        has_request(n.requests, n.tasks[i].id) by {
        assert(!is_stale(s.tasks[i], now));
        assert(n.tasks[i] == s.tasks[i]);
        let j = choose|j: int|
            0 <= j < s.requests.len() && (#[trigger] s.requests[j]).id == s.tasks[i].id;
        assert(pred(s.requests[j]));
        s.requests.lemma_filter_contains(pred, j);
        assert(s.requests.filter(pred).contains(s.requests[j]));
        let w = choose|w: int|
            0 <= w < n.requests.len() && #[trigger] n.requests[w] == s.requests[j];
        assert(n.requests[w].id == n.tasks[i].id);
    }
}

} // verus!
