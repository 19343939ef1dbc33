//! Lifecycle events and the observer registry's fan-out records.
//!
//! Every state transition of the engine yields structured events. The
//! surrounding process serializes each event and sends it to every
//! registered observer, best effort: one observer's failure never affects
//! another observer or task execution.

use vstd::prelude::*;
use crate::task::{clone_opt_string, opt_str_view, TaskStatus};

verus! {

/// The kind of a lifecycle event.
#[derive(Clone, Copy, Debug, PartialEq, Eq, Structural)]
pub enum EventKind {
    /// A task was admitted.
    NewTask,
    /// A task changed status (used when a task enters `Processing`).
    TaskStatusUpdate,
    /// A task reported progress.
    TaskProgress,
    /// A task reached a terminal status.
    TaskCompleted,
    /// A risk-analysis task was chained onto a completed transcription.
    AutoRiskAnalysisTriggered,
    /// Chaining a risk-analysis task failed outside the engine; emitted by
    /// the surrounding process, never by the engine itself.
    AutoRiskAnalysisFailed,
    /// A periodic snapshot of the queue statistics.
    QueueStatsUpdate,
}

/// One structured lifecycle event.
pub struct Event {
    pub kind: EventKind,
    pub task_id: u64,
    pub status: Option<TaskStatus>,
    pub progress: Option<u8>,
    pub message: Option<String>,
    /// For chain events: the id of the other task involved.
    pub related_task_id: Option<u64>,
    pub timestamp: u64,
}

/// Mathematical value of an `Event`.
pub ghost struct EventView {
    pub kind: EventKind,
    pub task_id: u64,
    pub status: Option<TaskStatus>,
    pub progress: Option<u8>,
    pub message: Option<Seq<char>>,
    pub related_task_id: Option<u64>,
    pub timestamp: u64,
}

impl View for Event {
    type V = EventView;

    open spec fn view(&self) -> EventView {
        EventView {
            kind: self.kind,
            task_id: self.task_id,
            status: self.status,
            progress: self.progress,
            message: opt_str_view(self.message),
            related_task_id: self.related_task_id,
            timestamp: self.timestamp,
        }
    }
}

impl Clone for Event {
    fn clone(&self) -> (r: Self)
        ensures
            r@ == self@,
    {
        Event {
            kind: self.kind,
            task_id: self.task_id,
            status: self.status,
            progress: self.progress,
            message: clone_opt_string(&self.message),
            related_task_id: self.related_task_id,
            timestamp: self.timestamp,
        }
    }
}

/// One pending send: this event is to be delivered to this observer.
pub struct Delivery {
    pub observer: u64,
    pub event: Event,
}

impl View for Delivery {
    type V = (u64, EventView);

    open spec fn view(&self) -> (u64, EventView) {
        (self.observer, self.event@)
    }
}

/// The sends that broadcast one event to a registry of observers: one
/// delivery per registered observer, in registration order.
pub fn fan_out(observers: &Vec<u64>, event: &Event) -> (r: Vec<Delivery>)
    ensures
        r@.len() == observers@.len(),
        forall|k: int|
            0 <= k < r@.len() ==> #[trigger] r@[k]@ == (observers@[k], event@),
{
    let mut out: Vec<Delivery> = Vec::new();
    let mut i: usize = 0;
    while i < observers.len()
        invariant
            i <= observers@.len(),
            out@.len() == i,
            forall|k: int|
                0 <= k < i ==> #[trigger] out@[k]@ == (observers@[k], event@),
        decreases observers@.len() - i,
    {
        out.push(Delivery { observer: observers[i], event: event.clone() });
        i = i + 1;
    }
    out
}

} // verus!
