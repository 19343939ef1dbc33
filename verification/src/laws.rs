//! The engine's governing laws, stated and proved over the spec-level
//! transitions that every engine operation is pinned to: eventual
//! termination, FIFO dispatch, non-duplicating recovery, monotone
//! progress, the auto-chain skip rule and stale reaping.

use vstd::prelude::*;
use crate::chain::{chain_decision, chain_payload, CHAIN_PRIORITY, MIN_CHAIN_TEXT_CHARS};
use crate::queue::{
    dispatch_spec, failed_version, finish_spec, has_request, has_task, is_stale, lemma_idx,
    lemma_req_idx, lemma_dispatch_preserves_inv, lemma_finish_preserves_inv,
    lemma_recover_inv, lemma_report_progress_preserves_inv, lemma_submit_preserves_inv,
    reap_spec, recover_spec, report_progress_spec, request_of, stale_error_text, submit_spec,
    task_of, OutcomeView, QueueView,
};
use crate::task::{PayloadView, RequestView, ResultView, TaskStatus, TaskType};

verus! {

/// The engine state after `n` dispatcher iterations, all at one time.
pub open spec fn dispatch_iter(s: QueueView, n: nat, now: u64) -> QueueView
    decreases n,
{
    if n == 0 {
        s
    } else {
        dispatch_iter(dispatch_spec(s, now), (n - 1) as nat, now)
    }
}

/// After as many dispatcher iterations as there are entries ahead of it,
/// plus its own, the task at queue position `k` is `Processing`, its
/// request is still held for its supervisor, and the untouched tail of
/// the queue is what was behind it.
pub proof fn lemma_dispatch_progress(s: QueueView, k: int, now: u64)
    requires
        s.inv(),
        0 <= k < s.queue.len(),
    ensures
        ({
            let a = dispatch_iter(s, (k + 1) as nat, now);
            &&& a.inv()
            &&& a.queue =~= s.queue.skip(k + 1)
            &&& has_task(a.tasks, s.queue[k])
            &&& task_of(a.tasks, s.queue[k]).status == TaskStatus::Processing
            &&& has_request(a.requests, s.queue[k])
        }),
    decreases k,
{
    let id = s.queue[k];
    let s1 = dispatch_spec(s, now);
    lemma_dispatch_preserves_inv(s, now);
    if k == 0 {
        let w = choose|w: int|
            0 <= w < s.tasks.len() && (#[trigger] s.tasks[w]).id == id && s.tasks[w].status
                == TaskStatus::Pending;
        lemma_idx(s.tasks, id, w);
        let i0 = crate::queue::task_idx(s.tasks, id);
        assert forall|i: int| 0 <= i < s1.tasks.len() implies (#[trigger] s1.tasks[i]).id
            == s.tasks[i].id by {}
        lemma_idx(s1.tasks, id, i0);
        assert(task_of(s1.tasks, id).status == TaskStatus::Processing);
        assert(dispatch_iter(s, 1, now) == dispatch_iter(s1, 0, now));
        assert(s1.queue =~= s.queue.skip(1));
    } else {
        assert(s1.queue == s.queue.drop_first());
        assert(s1.queue[k - 1] == s.queue[k]);
        lemma_dispatch_progress(s1, k - 1, now);
        assert(dispatch_iter(s, (k + 1) as nat, now) == dispatch_iter(s1, k as nat, now));
        assert(dispatch_iter(s1, k as nat, now).queue =~= s1.queue.skip(k));
        assert(s1.queue.skip(k) =~= s.queue.skip(k + 1));
    }
}

/// Law: every submitted task eventually reaches a terminal status, given
/// a collaborator that terminates. Once the dispatcher has worked off the
/// `k` entries admitted ahead of a queued task and dispatched the task
/// itself, the task is `Processing`; recording any collaborator outcome
/// for it then leaves it `Completed` or `Failed`, which is what
/// `get_task_status` reports from then on.
pub proof fn lemma_eventual_termination(
    s: QueueView,
    k: int,
    now1: u64,
    outcome: OutcomeView,
    now2: u64,
)
    requires
        s.inv(),
        0 <= k < s.queue.len(),
    ensures
        ({
            let a = dispatch_iter(s, (k + 1) as nat, now1);
            let id = s.queue[k];
            let done = finish_spec(a, id, outcome, now2);
            &&& task_of(a.tasks, id).status == TaskStatus::Processing
            &&& done.inv()
            &&& has_task(done.tasks, id)
            &&& task_of(done.tasks, id).status.is_terminal()
        }),
{
    let id = s.queue[k];
    lemma_dispatch_progress(s, k, now1);
    let a = dispatch_iter(s, (k + 1) as nat, now1);
    lemma_finish_preserves_inv(a, id, outcome, now2);
    let done = finish_spec(a, id, outcome, now2);
    let i0 = crate::queue::task_idx(a.tasks, id);
    let w = choose|w: int| 0 <= w < a.tasks.len() && (#[trigger] a.tasks[w]).id == id;
    lemma_idx(a.tasks, id, w);
    assert forall|i: int| 0 <= i < done.tasks.len() implies (#[trigger] done.tasks[i]).id
        == a.tasks[i].id by {}
    lemma_idx(done.tasks, id, i0);
}

/// Law: dequeue order equals admission order. Submitting task A and then
/// task B appends A's id before B's; after the dispatcher has worked off
/// what was already queued and then dispatched once more, A is
/// `Processing` while B is still `Pending` — A is marked `Processing`
/// strictly before B under a single dispatcher.
pub proof fn lemma_fifo_admission_order(
    s: QueueView,
    type_a: TaskType,
    payload_a: PayloadView,
    prio_a: Option<i32>,
    now_a: u64,
    type_b: TaskType,
    payload_b: PayloadView,
    prio_b: Option<i32>,
    now_b: u64,
    now: u64,
)
    requires
        s.inv(),
        s.next_id < u64::MAX - 1,
    ensures
        ({
            let a = s.next_id;
            let s1 = submit_spec(s, type_a, payload_a, prio_a, now_a);
            let b = s1.next_id;
            let s2 = submit_spec(s1, type_b, payload_b, prio_b, now_b);
            let m = s.queue.len() as int;
            let run = dispatch_iter(s2, (m + 1) as nat, now);
            &&& a != b
            &&& s2.queue[m] == a && s2.queue[m + 1] == b
            &&& task_of(run.tasks, a).status == TaskStatus::Processing
            &&& task_of(run.tasks, b).status == TaskStatus::Pending
        }),
{
    let a = s.next_id;
    let s1 = submit_spec(s, type_a, payload_a, prio_a, now_a);
    let b = s1.next_id;
    let s2 = submit_spec(s1, type_b, payload_b, prio_b, now_b);
    let m = s.queue.len() as int;
    lemma_submit_preserves_inv(s, type_a, payload_a, prio_a, now_a);
    lemma_submit_preserves_inv(s1, type_b, payload_b, prio_b, now_b);
    assert(s2.queue[m] == a && s2.queue[m + 1] == b);
    lemma_dispatch_progress(s2, m, now);
    let run = dispatch_iter(s2, (m + 1) as nat, now);
    assert(task_of(run.tasks, a).status == TaskStatus::Processing);
    // b is the one queue entry left, so it is still pending
    assert(run.queue =~= s2.queue.skip(m + 1));
    assert(run.queue[0] == b);
    let w = choose|w: int|
        0 <= w < run.tasks.len() && (#[trigger] run.tasks[w]).id == b && run.tasks[w].status
            == TaskStatus::Pending;
    lemma_idx(run.tasks, b, w);
}

/// Law: recovery is non-duplicating. A persisted `Processing` task is
/// re-enqueued by recovery exactly once: its id stands at exactly one
/// position of the rebuilt queue.
pub proof fn lemma_recovery_non_duplicating(
    results: Seq<ResultView>,
    requests: Seq<RequestView>,
    pq: Seq<u64>,
    now: u64,
    next_id: u64,
    i: int,
)
    requires
        crate::queue::ids_unique(results),
        forall|j: int| 0 <= j < results.len() ==> (#[trigger] results[j]).wf(),
        forall|j: int| 0 <= j < results.len() ==> (#[trigger] results[j]).id < next_id,
        crate::queue::req_ids_unique(requests),
        forall|k: int, l: int| 0 <= k < l < pq.len() ==> pq[k] != pq[l],
        forall|j: int|
            0 <= j < results.len() ==> (!(#[trigger] results[j]).status.is_terminal()
                ==> has_request(requests, results[j].id)),
        0 <= i < results.len(),
        results[i].status == TaskStatus::Processing,
    ensures
        ({
            let q = recover_spec(results, requests, pq, now, next_id).queue;
            let id = results[i].id;
            exists|k: int|
                0 <= k < q.len() && #[trigger] q[k] == id && (forall|l: int|
                    0 <= l < q.len() && l != k ==> q[l] != id)
        }),
{
    lemma_recover_inv(results, requests, pq, now, next_id);
    let n = recover_spec(results, requests, pq, now, next_id);
    let id = results[i].id;
    assert(n.tasks[i].id == id && n.tasks[i].status == TaskStatus::Pending);
    assert(n.queue.contains(n.tasks[i].id));
    let k = choose|k: int| 0 <= k < n.queue.len() && n.queue[k] == id;
    assert forall|l: int| 0 <= l < n.queue.len() && l != k implies n.queue[l] != id by {
        if l < k {
            assert(n.queue[l] != n.queue[k]);
        } else {
            assert(n.queue[k] != n.queue[l]);
        }
    }
    assert(n.queue[k] == id);
}

/// Law: in every engine state, a task's progress reads 100 exactly when
/// its status is `Completed`.
pub proof fn lemma_progress_100_iff_completed(s: QueueView, id: u64)
    requires
        s.inv(),
        has_task(s.tasks, id),
    ensures
        task_of(s.tasks, id).progress == 100 <==> task_of(s.tasks, id).status
            == TaskStatus::Completed,
{
    let w = choose|w: int| 0 <= w < s.tasks.len() && (#[trigger] s.tasks[w]).id == id;
    lemma_idx(s.tasks, id, w);
    assert(s.tasks[w].wf());
}

/// Law: dispatching never lowers any task's recorded progress.
pub proof fn lemma_dispatch_progress_monotone(s: QueueView, now: u64, id: u64)
    requires
        s.inv(),
        s.queue.len() > 0,
        has_task(s.tasks, id),
    ensures
        has_task(dispatch_spec(s, now).tasks, id),
        task_of(dispatch_spec(s, now).tasks, id).progress >= task_of(s.tasks, id).progress,
{
    lemma_dispatch_preserves_inv(s, now);
    let n = dispatch_spec(s, now);
    let w = choose|w: int| 0 <= w < s.tasks.len() && (#[trigger] s.tasks[w]).id == id;
    lemma_idx(s.tasks, id, w);
    assert forall|i: int| 0 <= i < n.tasks.len() implies (#[trigger] n.tasks[i]).id
        == s.tasks[i].id by {}
    lemma_idx(n.tasks, id, w);
    assert(n.tasks[w].progress == s.tasks[w].progress);
}

/// Law: a progress report never lowers any task's recorded progress — a
/// report below the recorded value is refused.
pub proof fn lemma_report_progress_monotone(s: QueueView, rid: u64, p: u8, now: u64, id: u64)
    requires
        s.inv(),
        has_task(s.tasks, id),
    ensures
        has_task(report_progress_spec(s, rid, p, now).tasks, id),
        task_of(report_progress_spec(s, rid, p, now).tasks, id).progress >= task_of(
            s.tasks,
            id,
        ).progress,
{
    lemma_report_progress_preserves_inv(s, rid, p, now);
    let n = report_progress_spec(s, rid, p, now);
    let w = choose|w: int| 0 <= w < s.tasks.len() && (#[trigger] s.tasks[w]).id == id;
    lemma_idx(s.tasks, id, w);
    if crate::queue::can_report_progress(s, rid, p) {
        assert forall|i: int| 0 <= i < n.tasks.len() implies (#[trigger] n.tasks[i]).id
            == s.tasks[i].id by {}
        lemma_idx(n.tasks, id, w);
        let wr = choose|wr: int| 0 <= wr < s.tasks.len() && (#[trigger] s.tasks[wr]).id == rid;
        lemma_idx(s.tasks, rid, wr);
    } else {
        lemma_idx(n.tasks, id, w);
    }
}

/// Law: terminal resolution never lowers any task's recorded progress —
/// completion raises it to 100 and failure freezes it.
pub proof fn lemma_finish_progress_monotone(
    s: QueueView,
    fid: u64,
    outcome: OutcomeView,
    now: u64,
    id: u64,
)
    requires
        s.inv(),
        has_task(s.tasks, fid),
        task_of(s.tasks, fid).status == TaskStatus::Processing,
        has_task(s.tasks, id),
    ensures
        has_task(finish_spec(s, fid, outcome, now).tasks, id),
        task_of(finish_spec(s, fid, outcome, now).tasks, id).progress >= task_of(
            s.tasks,
            id,
        ).progress,
{
    lemma_finish_preserves_inv(s, fid, outcome, now);
    let n = finish_spec(s, fid, outcome, now);
    let w = choose|w: int| 0 <= w < s.tasks.len() && (#[trigger] s.tasks[w]).id == id;
    lemma_idx(s.tasks, id, w);
    assert forall|i: int| 0 <= i < n.tasks.len() implies (#[trigger] n.tasks[i]).id
        == s.tasks[i].id by {}
    lemma_idx(n.tasks, id, w);
    assert(s.tasks[w].wf());
}

/// Law: reaping never lowers any task's recorded progress.
pub proof fn lemma_reap_progress_monotone(s: QueueView, now: u64, id: u64)
    requires
        s.inv(),
        has_task(s.tasks, id),
    ensures
        has_task(reap_spec(s, now).tasks, id),
        task_of(reap_spec(s, now).tasks, id).progress >= task_of(s.tasks, id).progress,
{
    crate::queue::lemma_reap_preserves_inv(s, now);
    let n = reap_spec(s, now);
    let w = choose|w: int| 0 <= w < s.tasks.len() && (#[trigger] s.tasks[w]).id == id;
    lemma_idx(s.tasks, id, w);
    assert forall|i: int| 0 <= i < n.tasks.len() implies (#[trigger] n.tasks[i]).id
        == s.tasks[i].id by {}
    lemma_idx(n.tasks, id, w);
}

/// Law: the auto-chain skip rule. A missing transcription text, or one
/// shorter than `MIN_CHAIN_TEXT_CHARS` characters, chains no
/// risk-analysis submission at all; a longer text chains exactly one:
/// one new task, queued once, whose request is an auto-triggered
/// risk analysis at `CHAIN_PRIORITY` carrying that text.
pub proof fn lemma_auto_chain_skip_rule(
    s: QueueView,
    text: Option<Seq<char>>,
    source: PayloadView,
    now: u64,
)
    requires
        s.inv(),
        s.next_id < u64::MAX,
    ensures
        ({
            match text {
                None => chain_decision(text, source) is None,
                Some(t) => if t.len() < MIN_CHAIN_TEXT_CHARS {
                    chain_decision(text, source) is None
                } else {
                    let d = chain_decision(text, source);
                    let s2 = submit_spec(s, TaskType::RiskAnalysis, chain_payload(t, source), Some(
                        CHAIN_PRIORITY,
                    ), now);
                    &&& d == Some(chain_payload(t, source))
                    &&& s2.tasks.len() == s.tasks.len() + 1
                    &&& s2.queue =~= s.queue.push(s.next_id)
                    &&& has_request(s2.requests, s.next_id)
                    &&& request_of(s2.requests, s.next_id).task_type == TaskType::RiskAnalysis
                    &&& request_of(s2.requests, s.next_id).payload.auto_triggered
                    &&& request_of(s2.requests, s.next_id).payload.text == Some(t)
                    &&& request_of(s2.requests, s.next_id).priority == CHAIN_PRIORITY
                },
            }
        }),
{
    match text {
        Some(t) => {
            if t.len() >= MIN_CHAIN_TEXT_CHARS {
                let s2 = submit_spec(s, TaskType::RiskAnalysis, chain_payload(t, source), Some(
                    CHAIN_PRIORITY,
                ), now);
                lemma_submit_preserves_inv(s, TaskType::RiskAnalysis, chain_payload(t, source), Some(
                    CHAIN_PRIORITY,
                ), now);
                lemma_req_idx(s2.requests, s.next_id, s.requests.len() as int);
            }
        },
        None => {},
    }
}

/// With unique task ids, a duplicate-free queue whose entries name
/// exactly the pending tasks has exactly one entry per pending task.
proof fn lemma_queue_counts_pending(tasks: Seq<ResultView>, queue: Seq<u64>)
    requires
        crate::queue::ids_unique(tasks),
        forall|k: int, l: int| 0 <= k < l < queue.len() ==> queue[k] != queue[l],
        forall|k: int|
            0 <= k < queue.len() ==> crate::queue::has_pending_task(tasks, #[trigger] queue[k]),
        forall|i: int|
            0 <= i < tasks.len() ==> ((#[trigger] tasks[i]).status == TaskStatus::Pending
                ==> queue.contains(tasks[i].id)),
    ensures
        queue.len() == crate::queue::count_status(tasks, TaskStatus::Pending),
    decreases tasks.len(),
{
    if tasks.len() == 0 {
        if queue.len() > 0 {
            assert(crate::queue::has_pending_task(tasks, queue[0]));
            assert(false);
        }
    } else {
        let rest = tasks.drop_last();
        let t = tasks.last();
        if t.status != TaskStatus::Pending {
            assert forall|k: int|
                0 <= k < queue.len() implies crate::queue::has_pending_task(
                rest,
                #[trigger] queue[k],
            ) by {
                let w = choose|w: int|
                    0 <= w < tasks.len() && (#[trigger] tasks[w]).id == queue[k]
                        && tasks[w].status == TaskStatus::Pending;
                assert(w != tasks.len() - 1);
                assert(rest[w] == tasks[w]);
            }
            assert forall|i: int|
                0 <= i < rest.len() && (#[trigger] rest[i]).status == TaskStatus::Pending implies
                queue.contains(rest[i].id) by {
                assert(tasks[i].status == TaskStatus::Pending);
            }
            lemma_queue_counts_pending(rest, queue);
        } else {
            assert(queue.contains(t.id));
            let k0 = choose|k0: int| 0 <= k0 < queue.len() && queue[k0] == t.id;
            let queue2 = queue.remove(k0);
            assert forall|k: int|
                0 <= k < queue2.len() implies #[trigger] queue2[k] == (if k < k0 {
                queue[k]
            } else {
                queue[k + 1]
            }) by {}
            assert forall|k: int, l: int| 0 <= k < l < queue2.len() implies queue2[k]
                != queue2[l] by {}
            assert forall|k: int|
                0 <= k < queue2.len() implies crate::queue::has_pending_task(
                rest,
                #[trigger] queue2[k],
            ) by {
                assert(queue2[k] != t.id);
                let w = choose|w: int|
                    0 <= w < tasks.len() && (#[trigger] tasks[w]).id == queue2[k]
                        && tasks[w].status == TaskStatus::Pending;
                assert(w != tasks.len() - 1);
                assert(rest[w] == tasks[w]);
            }
            assert forall|i: int|
                0 <= i < rest.len() && (#[trigger] rest[i]).status == TaskStatus::Pending implies
                queue2.contains(rest[i].id) by {
                assert(tasks[i].status == TaskStatus::Pending);
                let k = choose|k: int| 0 <= k < queue.len() && queue[k] == tasks[i].id;
                assert(tasks[i].id != t.id);
                assert(k != k0);
                if k < k0 {
                    assert(queue2[k] == rest[i].id);
                } else {
                    assert(queue2[k - 1] == rest[i].id);
                }
            }
            lemma_queue_counts_pending(rest, queue2);
        }
    }
}

/// Law: in every engine state, the queue depth — the ids still waiting —
/// equals the number of tasks whose status is `Pending`: waiting tasks
/// are exactly the pending ones, each queued once.
pub proof fn lemma_queue_depth_is_pending_count(s: QueueView)
    requires
        s.inv(),
    ensures
        s.queue.len() == crate::queue::count_status(s.tasks, TaskStatus::Pending),
{
    lemma_queue_counts_pending(s.tasks, s.queue);
}

/// Law: stale reaping fails exactly the tasks stuck in `Processing` past
/// the staleness threshold, with the fixed cleanup error, and leaves
/// every other task untouched.
pub proof fn lemma_stale_reaping(s: QueueView, now: u64, i: int)
    requires
        s.inv(),
        0 <= i < s.tasks.len(),
    ensures
        is_stale(s.tasks[i], now) ==> reap_spec(s, now).tasks[i] == failed_version(
            s.tasks[i],
            stale_error_text(),
            now,
        ),
        !is_stale(s.tasks[i], now) ==> reap_spec(s, now).tasks[i] == s.tasks[i],
{
}

} // verus!
