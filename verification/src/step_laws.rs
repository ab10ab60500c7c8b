//! What each operation of a sync queue does, and what a submission leads to.
//!
//! The first laws say of one operation what it hands out and what it changes, and that it changes
//! nothing else. The last ones follow a submission through a history: to the job that the worker
//! is given, to the wake, and to the completion.

use crate::error::{CompletionError, ErrorKind, LimboError};
use crate::sync_laws::SyncEvent;
use crate::sync_queue::{
    Dispatch, FileSyncType, JobStep, PendingSync, SyncQueueView, SyncResult, WakeStep,
};
use vstd::prelude::*;

verus! {

/// The sync `id` is pending, and its outcome is not known.
pub open spec fn outstanding<F, C, W>(v: SyncQueueView<F, C, W>, id: u64) -> bool {
    exists|i: int|
        0 <= i < v.pending.len() && (#[trigger] v.pending[i]).id == id
            && v.pending[i].result.value is None
}

/// A fresh queue accepts syncs, has none, and gives its first sync the number zero.
pub proof fn law_fresh_queue_is_open_and_empty<F, C, W>()
    ensures
        ({
            let v = SyncQueueView::<F, C, W>::fresh();
            &&& v.open && v.worker_running
            &&& v.next_id == 0
            &&& v.jobs.len() == 0
            &&& v.active is None
            &&& v.pending.len() == 0
            &&& v.notifications.len() == 0
            &&& v.submit_answer() == Ok::<u64, LimboError>(0)
            &&& v.job_step() == JobStep::<F>::Wait
            &&& v.wake_step() == WakeStep::<W>::Wait
        }),
{
}

/// There is a number for a sync unless it would be accepted and all numbers are used up.
pub proof fn law_numbers_run_out_only_at_the_end<F, C, W>(v: SyncQueueView<F, C, W>)
    ensures
        v.has_number() <==> (!v.open || !v.worker_running || v.next_id < u64::MAX),
{
}

/// A sync that is accepted gets the next number. A job, an entry and a wake with this number are
/// added behind all others, with what was submitted; all that was queued before stays as it is.
pub proof fn law_submission_goes_behind_all_others<F, C, W>(
    v: SyncQueueView<F, C, W>,
    completion: C,
    file: F,
    sync_type: FileSyncType,
    context: W,
)
    requires
        v.open,
        v.worker_running,
        v.next_id < u64::MAX,
    ensures
        v.submit_answer() == Ok::<u64, LimboError>(v.next_id),
        ({
            let next = v.submitted(completion, file, sync_type, context);
            let (j, p, w) = (v.jobs.len(), v.pending.len(), v.notifications.len());
            &&& next.open && next.worker_running
            &&& next.next_id == v.next_id + 1
            &&& next.active == v.active
            &&& next.jobs.len() == j + 1
            &&& forall|i: int| 0 <= i < j ==> #[trigger] next.jobs[i] == v.jobs[i]
            &&& next.jobs[j as int].file == file
            &&& next.jobs[j as int].sync_type == sync_type
            &&& next.jobs[j as int].id == v.next_id
            &&& next.pending.len() == p + 1
            &&& forall|i: int| 0 <= i < p ==> #[trigger] next.pending[i] == v.pending[i]
            &&& next.pending[p as int].completion == completion
            &&& next.pending[p as int].id == v.next_id
            &&& next.pending[p as int].result.value is None
            &&& next.notifications.len() == w + 1
            &&& forall|i: int|
                0 <= i < w ==> #[trigger] next.notifications[i] == v.notifications[i]
            &&& next.notifications[w as int].context == context
            &&& next.notifications[w as int].id == v.next_id
        }),
{
}

/// A queue that is closed, or that has lost its worker, refuses every sync, says why, and stays as
/// it is.
pub proof fn law_refused_submission_changes_nothing<F, C, W>(
    v: SyncQueueView<F, C, W>,
    completion: C,
    file: F,
    sync_type: FileSyncType,
    context: W,
)
    requires
        !v.open || !v.worker_running,
    ensures
        v.submitted(completion, file, sync_type, context) == v,
        v.submit_answer() matches Err(LimboError::CompletionError(
            CompletionError::IOError(kind, reason),
        )) && kind == ErrorKind::BrokenPipe && reason == if v.open {
            "submit sync"
        } else {
            "sync IO stopped"
        },
{
}

/// The error of a refused sync is a broken pipe, with the reason that is given.
pub proof fn law_refusal_is_a_broken_pipe(reason: &'static str)
    ensures
        crate::sync_queue::submit_error(reason) matches LimboError::CompletionError(
            CompletionError::IOError(kind, op),
        ) && kind == ErrorKind::BrokenPipe && op == reason,
{
}

/// A free worker is given the oldest job, and nothing else changes.
pub proof fn law_free_worker_takes_the_oldest_job<F, C, W>(v: SyncQueueView<F, C, W>)
    requires
        v.active is None,
        v.jobs.len() > 0,
    ensures
        v.job_step() == JobStep::Run(v.jobs[0]),
        ({
            let next = v.job_taken();
            &&& next.active == Some(v.jobs[0].id)
            &&& next.jobs.len() == v.jobs.len() - 1
            &&& forall|i: int|
                0 <= i < next.jobs.len() ==> #[trigger] next.jobs[i] == v.jobs[i + 1]
            &&& next.open == v.open
            &&& next.worker_running == v.worker_running
            &&& next.next_id == v.next_id
            &&& next.pending == v.pending
            &&& next.notifications == v.notifications
        }),
{
}

/// A worker that is busy, or that has nothing to do, is given no job, and nothing changes. It stops
/// exactly if it has nothing to do and nothing can come any more.
pub proof fn law_other_worker_waits_or_stops<F, C, W>(v: SyncQueueView<F, C, W>)
    requires
        v.active is Some || v.jobs.len() == 0,
    ensures
        v.job_taken() == v,
        v.job_step() == JobStep::<F>::Stop || v.job_step() == JobStep::<F>::Wait,
        v.job_step() == JobStep::<F>::Stop <==> v.active is None && (!v.open
            || !v.worker_running),
{
}

/// The report of the worker on the sync that it is performing frees it and gives this outcome to
/// this sync. Completions, numbers and the other outcomes stay, and nothing else changes.
pub proof fn law_report_goes_to_its_sync_alone<F, C, W>(
    v: SyncQueueView<F, C, W>,
    id: u64,
    outcome: Result<(), CompletionError>,
)
    requires
        v.active == Some(id),
    ensures
        ({
            let next = v.job_finished(id, outcome);
            &&& next.active is None
            &&& next.pending.len() == v.pending.len()
            &&& forall|i: int|
                0 <= i < v.pending.len() ==> {
                    &&& (#[trigger] next.pending[i]).completion == v.pending[i].completion
                    &&& next.pending[i].id == v.pending[i].id
                    &&& next.pending[i].result.value == if v.pending[i].id == id {
                        Some(outcome)
                    } else {
                        v.pending[i].result.value
                    }
                }
            &&& next.open == v.open
            &&& next.worker_running == v.worker_running
            &&& next.next_id == v.next_id
            &&& next.jobs == v.jobs
            &&& next.notifications == v.notifications
        }),
{
}

/// A report on a sync that the worker is not performing changes nothing.
pub proof fn law_stray_report_changes_nothing<F, C, W>(
    v: SyncQueueView<F, C, W>,
    id: u64,
    outcome: Result<(), CompletionError>,
)
    requires
        v.active != Some(id),
    ensures
        v.job_finished(id, outcome) == v,
{
}

/// Losing the worker gives the error of a broken pipe to every sync without an outcome and leaves
/// the outcomes of the others. Nothing is left to perform; completions, numbers and wakes stay.
pub proof fn law_lost_worker_abandons_what_is_outstanding<F, C, W>(v: SyncQueueView<F, C, W>)
    ensures
        ({
            let next = v.worker_gone();
            &&& !next.worker_running
            &&& next.jobs.len() == 0
            &&& next.active is None
            &&& next.pending.len() == v.pending.len()
            &&& forall|i: int|
                0 <= i < v.pending.len() ==> {
                    &&& (#[trigger] next.pending[i]).completion == v.pending[i].completion
                    &&& next.pending[i].id == v.pending[i].id
                    &&& v.pending[i].result.value is Some ==> next.pending[i].result.value
                        == v.pending[i].result.value
                    &&& v.pending[i].result.value is None ==> next.pending[i].result.value == Some(
                        Err::<(), CompletionError>(
                            CompletionError::IOError(ErrorKind::BrokenPipe, "sync worker stopped"),
                        ),
                    )
                }
            &&& next.open == v.open
            &&& next.next_id == v.next_id
            &&& next.notifications == v.notifications
        }),
{
}

/// Retiring a result keeps an outcome, and gives the error of a broken pipe where there is none.
pub proof fn law_retired_result_keeps_an_outcome(result: SyncResult)
    ensures
        result.value is Some ==> result.retired() == result,
        result.value is None ==> result.retired().value == Some(
            Err::<(), CompletionError>(
                CompletionError::IOError(ErrorKind::BrokenPipe, "sync worker stopped"),
            ),
        ),
{
}

/// `d` is what the entry `entry` is to be completed with: its own completion and number, and zero
/// or its error.
pub open spec fn completes<C>(d: Dispatch<C>, entry: PendingSync<C>) -> bool {
    &&& d.completion == entry.completion
    &&& d.id == entry.id
    &&& match entry.result.value {
        Some(Ok(_)) => d.outcome == Ok::<i32, CompletionError>(0),
        Some(Err(error)) => d.outcome == Err::<i32, CompletionError>(error),
        None => false,
    }
}

/// A step hands out the oldest settled sync with its own completion and outcome, and takes it and
/// nothing else out of the queue. Where no sync is settled, it does nothing.
pub proof fn law_step_hands_out_the_oldest_settled_sync<F, C, W>(v: SyncQueueView<F, C, W>)
    requires
        v.wf(),
    ensures
        ({
            let next = v.stepped();
            &&& next.open == v.open
            &&& next.worker_running == v.worker_running
            &&& next.next_id == v.next_id
            &&& next.jobs == v.jobs
            &&& next.active == v.active
            &&& next.notifications == v.notifications
            &&& if v.pending.len() > 0 && v.pending[0].result.value is Some {
                &&& v.step_dispatch() matches Some(d) && completes(d, v.pending[0])
                &&& next.pending == v.pending.drop_first()
            } else {
                &&& v.step_dispatch() is None
                &&& next.pending == v.pending
                &&& forall|i: int|
                    0 <= i < v.pending.len() ==> (#[trigger] v.pending[i]).result.value is None
            }
        }),
{
    crate::sync_queue::lemma_first_ready_is_first(v.pending);
    let k = crate::sync_queue::first_ready(v.pending);
    if v.pending.len() > 0 && v.pending[0].result.value is Some {
        assert(k == 0);
        assert(v.pending.remove(0) =~= v.pending.drop_first());
    } else if k < v.pending.len() {
        assert(v.pending[k].result.value is Some);
        assert(v.pending[0].result.value is Some);
    }
}

/// The step of the owner of a sync hands out this sync, if it is pending and settled, with its own
/// completion and outcome, and takes it and nothing else out of the queue.
pub proof fn law_owner_step_hands_out_its_settled_sync<F, C, W>(v: SyncQueueView<F, C, W>, i: int)
    requires
        v.wf(),
        0 <= i < v.pending.len(),
        v.pending[i].result.value is Some,
    ensures
        v.owner_dispatch(v.pending[i].id) matches Some(d) && completes(d, v.pending[i]),
        ({
            let next = v.owner_stepped(v.pending[i].id);
            &&& next.pending == v.pending.remove(i)
            &&& next.open == v.open
            &&& next.worker_running == v.worker_running
            &&& next.next_id == v.next_id
            &&& next.jobs == v.jobs
            &&& next.active == v.active
            &&& next.notifications == v.notifications
        }),
{
    crate::sync_laws::lemma_entry_at(v, i);
}

/// The step of the owner of a sync that is not settled, or not pending, does nothing.
pub proof fn law_owner_step_of_another_sync_does_nothing<F, C, W>(
    v: SyncQueueView<F, C, W>,
    id: u64,
)
    requires
        forall|i: int|
            0 <= i < v.pending.len() && (#[trigger] v.pending[i]).id == id
                ==> v.pending[i].result.value is None,
    ensures
        v.owner_dispatch(id) is None,
        v.owner_stepped(id) == v,
{
    crate::sync_queue::lemma_entry_of_is_entry(v.pending, id);
}

/// A sync is settled exactly if it is not outstanding: whoever waits for it waits as long as it is
/// pending without an outcome, and no longer, whether it is dispatched or not.
pub proof fn law_settled_means_not_outstanding<F, C, W>(v: SyncQueueView<F, C, W>, id: u64)
    requires
        v.wf(),
    ensures
        v.settled(id) <==> !outstanding(v, id),
{
    v.lemma_unsettled_is_pending(id);
    crate::sync_queue::lemma_entry_of_is_entry(v.pending, id);
    let k = crate::sync_queue::entry_of(v.pending, id);
    if outstanding(v, id) {
        let i = choose|i: int|
            0 <= i < v.pending.len() && (#[trigger] v.pending[i]).id == id
                && v.pending[i].result.value is None;
        crate::sync_laws::lemma_entry_at(v, i);
    }
    if !v.settled(id) {
        assert(v.pending[k].id == id);
    }
}

/// Closing a queue makes it refuse syncs, and changes nothing else.
pub proof fn law_closing_only_closes<F, C, W>(v: SyncQueueView<F, C, W>)
    ensures
        ({
            let next = v.closed();
            &&& !next.open
            &&& next.worker_running == v.worker_running
            &&& next.next_id == v.next_id
            &&& next.jobs == v.jobs
            &&& next.active == v.active
            &&& next.pending == v.pending
            &&& next.notifications == v.notifications
        }),
{
}

/// The oldest wake is performed once its sync is not outstanding, and wakes what was registered
/// with it. The others stay, and nothing else changes.
pub proof fn law_due_wake_is_performed<F, C, W>(v: SyncQueueView<F, C, W>)
    requires
        v.wf(),
        v.notifications.len() > 0,
        !outstanding(v, v.notifications[0].id),
    ensures
        v.wake_step() == WakeStep::Wake(v.notifications[0].context),
        ({
            let next = v.woken();
            &&& next.notifications.len() == v.notifications.len() - 1
            &&& forall|i: int|
                0 <= i < next.notifications.len() ==> #[trigger] next.notifications[i]
                    == v.notifications[i + 1]
            &&& next.open == v.open
            &&& next.worker_running == v.worker_running
            &&& next.next_id == v.next_id
            &&& next.jobs == v.jobs
            &&& next.active == v.active
            &&& next.pending == v.pending
        }),
{
    law_settled_means_not_outstanding(v, v.notifications[0].id);
}

/// While the sync of the oldest wake is outstanding, or there is no wake, nothing is woken and
/// nothing changes. The second worker stops exactly if there is no wake and none can come.
pub proof fn law_early_wake_is_not_performed<F, C, W>(v: SyncQueueView<F, C, W>)
    requires
        v.wf(),
        v.notifications.len() > 0 ==> outstanding(v, v.notifications[0].id),
    ensures
        v.woken() == v,
        v.wake_step() == WakeStep::<W>::Stop || v.wake_step() == WakeStep::<W>::Wait,
        v.wake_step() == WakeStep::<W>::Stop <==> v.notifications.len() == 0 && !v.open,
{
    if v.notifications.len() > 0 {
        law_settled_means_not_outstanding(v, v.notifications[0].id);
    }
}

/// The event `k` of a history is a submission that is answered with the number `n`.
pub open spec fn submits<F, C, W>(
    v: SyncQueueView<F, C, W>,
    events: Seq<SyncEvent<F, C, W>>,
    k: int,
    n: u64,
) -> bool {
    &&& 0 <= k < events.len()
    &&& events[k] is Submit
    &&& crate::sync_laws::run(v, events.take(k)).submit_answer() == Ok::<u64, LimboError>(n)
}

/// Every job with the number `n` that is queued has this file and this sync type.
spec fn jobs_agree<F, C, W>(
    v: SyncQueueView<F, C, W>,
    n: u64,
    file: F,
    sync_type: FileSyncType,
) -> bool {
    forall|i: int|
        0 <= i < v.jobs.len() && (#[trigger] v.jobs[i]).id == n ==> v.jobs[i].file == file
            && v.jobs[i].sync_type == sync_type
}

/// Every wake with the number `n` that is queued wakes `context`.
spec fn wakes_agree<F, C, W>(v: SyncQueueView<F, C, W>, n: u64, context: W) -> bool {
    forall|i: int|
        0 <= i < v.notifications.len() && (#[trigger] v.notifications[i]).id == n
            ==> v.notifications[i].context == context
}

/// Once a number is given out, its job and its wake stay what they are.
proof fn lemma_submission_is_kept<F, C, W>(
    v: SyncQueueView<F, C, W>,
    events: Seq<SyncEvent<F, C, W>>,
    n: u64,
    file: F,
    sync_type: FileSyncType,
    context: W,
)
    requires
        v.wf(),
        crate::sync_laws::numbered(v, events),
        n < v.next_id,
        jobs_agree(v, n, file, sync_type),
        wakes_agree(v, n, context),
    ensures
        jobs_agree(crate::sync_laws::run(v, events), n, file, sync_type),
        wakes_agree(crate::sync_laws::run(v, events), n, context),
    decreases events.len(),
{
    if events.len() > 0 {
        let next = crate::sync_laws::apply(v, events[0]);
        crate::sync_laws::lemma_apply(v, events[0]);
        assert forall|i: int| 0 <= i < next.jobs.len() && (#[trigger] next.jobs[i]).id
            == n implies next.jobs[i].file == file && next.jobs[i].sync_type == sync_type by {
            if events[0] is TakeJob && v.has_job() {
                assert(next.jobs[i] == v.jobs[i + 1]);
            } else if i < v.jobs.len() {
                assert(next.jobs[i] == v.jobs[i]);
            }
        }
        assert forall|i: int| 0 <= i < next.notifications.len() && (
        #[trigger] next.notifications[i]).id == n implies next.notifications[i].context
            == context by {
            if events[0] is TakeNotification && v.wake_due() {
                assert(next.notifications[i] == v.notifications[i + 1]);
            } else if i < v.notifications.len() {
                assert(next.notifications[i] == v.notifications[i]);
            }
        }
        lemma_submission_is_kept(next, events.drop_first(), n, file, sync_type, context);
    }
}

/// A history up to the event `m` is well formed and numbered.
proof fn lemma_history_before<F, C, W>(
    v: SyncQueueView<F, C, W>,
    events: Seq<SyncEvent<F, C, W>>,
    m: int,
)
    requires
        v.wf(),
        crate::sync_laws::numbered(v, events),
        0 <= m <= events.len(),
    ensures
        crate::sync_laws::numbered(v, events.take(m)),
        run_to(v, events, m).wf(),
        crate::sync_laws::numbered(run_to(v, events, m), events.skip(m)),
{
    assert(events.take(m) + events.skip(m) =~= events);
    crate::sync_laws::lemma_history_parts(v, events.take(m), events.skip(m));
    crate::sync_laws::law_histories_keep_the_queue_well_formed(v, events.take(m));
}

/// The queue before the event `m` of a history.
pub open spec fn run_to<F, C, W>(
    v: SyncQueueView<F, C, W>,
    events: Seq<SyncEvent<F, C, W>>,
    m: int,
) -> SyncQueueView<F, C, W> {
    crate::sync_laws::run(v, events.take(m))
}

/// The queue before a later event is reached from the queue before an earlier one.
proof fn lemma_later<F, C, W>(
    v: SyncQueueView<F, C, W>,
    events: Seq<SyncEvent<F, C, W>>,
    k: int,
    m: int,
)
    requires
        v.wf(),
        crate::sync_laws::numbered(v, events),
        0 <= k <= m <= events.len(),
    ensures
        crate::sync_laws::numbered(run_to(v, events, k), events.subrange(k, m)),
        run_to(v, events, m) == crate::sync_laws::run(
            run_to(v, events, k),
            events.subrange(k, m),
        ),
        run_to(v, events, k).next_id <= run_to(v, events, m).next_id,
{
    lemma_history_before(v, events, k);
    lemma_history_before(v, events, m);
    assert(events.take(k) + events.subrange(k, m) =~= events.take(m));
    crate::sync_laws::lemma_history_parts(v, events.take(k), events.subrange(k, m));
    crate::sync_laws::law_histories_keep_the_queue_well_formed(
        run_to(v, events, k),
        events.subrange(k, m),
    );
}

/// The queue after the event `k`.
proof fn lemma_one_more<F, C, W>(
    v: SyncQueueView<F, C, W>,
    events: Seq<SyncEvent<F, C, W>>,
    k: int,
)
    requires
        v.wf(),
        crate::sync_laws::numbered(v, events),
        0 <= k < events.len(),
    ensures
        run_to(v, events, k + 1) == crate::sync_laws::apply(run_to(v, events, k), events[k]),
        events[k] is Submit ==> run_to(v, events, k).has_number(),
{
    lemma_later(v, events, k, k + 1);
    lemma_history_before(v, events, k);
    let one = events.subrange(k, k + 1);
    assert(one[0] == events[k]);
    assert(one.drop_first().len() == 0);
    assert(crate::sync_laws::run(
        crate::sync_laws::apply(run_to(v, events, k), events[k]),
        one.drop_first(),
    ) == crate::sync_laws::apply(run_to(v, events, k), events[k]));
    assert(events.skip(k)[0] == events[k]);
}

/// The job that the worker is given under the number `n` is a sync of the file, and of the type,
/// of the submission that was answered with `n`, in every history.
pub proof fn law_worker_syncs_the_submitted_file<F, C, W>(
    v: SyncQueueView<F, C, W>,
    events: Seq<SyncEvent<F, C, W>>,
    k: int,
    n: u64,
    m: int,
)
    requires
        v.wf(),
        crate::sync_laws::numbered(v, events),
        submits(v, events, k, n),
        0 <= m < events.len(),
        events[m] is TakeJob,
        run_to(v, events, m).job_step() matches JobStep::Run(job) && job.id == n,
    ensures
        k < m,
        events[k] matches SyncEvent::Submit { completion, file, sync_type, context } && (run_to(
            v,
            events,
            m,
        ).job_step() matches JobStep::Run(job) && job.file == file && job.sync_type == sync_type),
{
    let at = run_to(v, events, m);
    lemma_history_before(v, events, k);
    lemma_history_before(v, events, m);
    if m <= k {
        lemma_later(v, events, m, k);
        assert(at.jobs[0].id < at.next_id);
    } else {
        lemma_one_more(v, events, k);
        lemma_submitted_agrees(v, events, k, n);
        lemma_history_before(v, events, k + 1);
        lemma_later(v, events, k + 1, m);
        if let SyncEvent::Submit { completion, file, sync_type, context } = events[k] {
            lemma_submission_is_kept(
                run_to(v, events, k + 1),
                events.subrange(k + 1, m),
                n,
                file,
                sync_type,
                context,
            );
        }
        assert(at.jobs[0].id == n);
    }
}

proof fn lemma_submitted_agrees<F, C, W>(
    v: SyncQueueView<F, C, W>,
    events: Seq<SyncEvent<F, C, W>>,
    k: int,
    n: u64,
)
    requires
        v.wf(),
        crate::sync_laws::numbered(v, events),
        submits(v, events, k, n),
    ensures
        n < run_to(v, events, k + 1).next_id,
        events[k] matches SyncEvent::Submit { completion, file, sync_type, context } && {
            &&& jobs_agree(run_to(v, events, k + 1), n, file, sync_type)
            &&& wakes_agree(run_to(v, events, k + 1), n, context)
        },
{
    lemma_history_before(v, events, k);
    lemma_one_more(v, events, k);
}

/// The wake for the number `n` wakes what was handed in with the submission that was answered with
/// `n`, in every history.
pub proof fn law_wake_reaches_the_one_who_submitted<F, C, W>(
    v: SyncQueueView<F, C, W>,
    events: Seq<SyncEvent<F, C, W>>,
    k: int,
    n: u64,
    m: int,
)
    requires
        v.wf(),
        crate::sync_laws::numbered(v, events),
        submits(v, events, k, n),
        0 <= m < events.len(),
        events[m] is TakeNotification,
        run_to(v, events, m).wake_step() is Wake,
        run_to(v, events, m).notifications[0].id == n,
    ensures
        k < m,
        events[k] matches SyncEvent::Submit { completion, file, sync_type, context } && run_to(
            v,
            events,
            m,
        ).wake_step() == WakeStep::Wake(context),
        !outstanding(run_to(v, events, m), n),
{
    let at = run_to(v, events, m);
    lemma_history_before(v, events, k);
    lemma_history_before(v, events, m);
    law_settled_means_not_outstanding(at, n);
    assert(at.notifications.len() > 0);
    if m <= k {
        lemma_later(v, events, m, k);
        assert(at.notifications[0].id < at.next_id);
    } else {
        lemma_one_more(v, events, k);
        lemma_submitted_agrees(v, events, k, n);
        lemma_history_before(v, events, k + 1);
        lemma_later(v, events, k + 1, m);
        if let SyncEvent::Submit { completion, file, sync_type, context } = events[k] {
            lemma_submission_is_kept(
                run_to(v, events, k + 1),
                events.subrange(k + 1, m),
                n,
                file,
                sync_type,
                context,
            );
        }
    }
}

/// What is handed out under the number `n` is the completion of the submission that was answered
/// with `n`, in every history.
pub proof fn law_dispatch_reaches_the_submitted_completion<F, C, W>(
    v: SyncQueueView<F, C, W>,
    events: Seq<SyncEvent<F, C, W>>,
    k: int,
    n: u64,
    d: Dispatch<C>,
)
    requires
        v.wf(),
        crate::sync_laws::numbered(v, events),
        submits(v, events, k, n),
        crate::sync_laws::dispatches(v, events).contains(d),
        d.id == n,
    ensures
        events[k] matches SyncEvent::Submit { completion, file, sync_type, context }
            && d.completion == completion,
{
    let before = run_to(v, events, k);
    let after = run_to(v, events, k + 1);
    let first = events.take(k + 1);
    let rest = events.skip(k + 1);
    lemma_history_before(v, events, k);
    lemma_history_before(v, events, k + 1);
    lemma_one_more(v, events, k);
    assert(first + rest =~= events);
    crate::sync_laws::lemma_history_parts(v, first, rest);
    let out = crate::sync_laws::dispatches(v, first);
    let later = crate::sync_laws::dispatches(after, rest);
    crate::sync_laws::law_nothing_is_lost_or_doubled(v, first, n);
    if let SyncEvent::Submit { completion, file, sync_type, context } = events[k] {
        let p = before.pending.len() as int;
        let entry = PendingSync { completion, id: n, result: SyncResult { value: None } };
        assert(after.pending[p] == entry);
        assert(crate::sync_laws::has_entry(after, entry));
        assert(after.is_pending(n));
        let j = choose|j: int| 0 <= j < (out + later).len() && (out + later)[j] == d;
        if j < out.len() {
            assert(out[j].id == n);
            assert(crate::sync_laws::handed_out(out, n));
        } else {
            assert(later[j - out.len()] == d);
            crate::sync_laws::law_dispatch_matches_acceptance_and_outcome(after, rest, entry, d);
        }
    }
}

} // verus!
