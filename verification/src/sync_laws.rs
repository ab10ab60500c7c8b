//! What holds of every history of a sync queue.

use crate::error::CompletionError;
use crate::sync_queue::{Dispatch, FileSyncType, PendingSync, SyncQueueView, SyncResult};
use vstd::prelude::*;

verus! {

/// One thing that happens to a queue.
pub enum SyncEvent<F, C, W> {
    Submit { completion: C, file: F, sync_type: FileSyncType, context: W },
    TakeJob,
    Finish { id: u64, outcome: Result<(), CompletionError> },
    StopWorker,
    TakeReady,
    TakeResult { id: u64 },
    Close,
    TakeNotification,
}

/// The queue after one event.
pub open spec fn apply<F, C, W>(
    v: SyncQueueView<F, C, W>,
    event: SyncEvent<F, C, W>,
) -> SyncQueueView<F, C, W> {
    match event {
        SyncEvent::Submit { completion, file, sync_type, context } => v.submitted(
            completion,
            file,
            sync_type,
            context,
        ),
        SyncEvent::TakeJob => v.job_taken(),
        SyncEvent::Finish { id, outcome } => v.job_finished(id, outcome),
        SyncEvent::StopWorker => v.worker_gone(),
        SyncEvent::TakeReady => v.stepped(),
        SyncEvent::TakeResult { id } => v.owner_stepped(id),
        SyncEvent::Close => v.closed(),
        SyncEvent::TakeNotification => v.woken(),
    }
}

/// What one event hands out to be completed.
pub open spec fn dispatch_by<F, C, W>(
    v: SyncQueueView<F, C, W>,
    event: SyncEvent<F, C, W>,
) -> Option<Dispatch<C>> {
    match event {
        SyncEvent::TakeReady => v.step_dispatch(),
        SyncEvent::TakeResult { id } => v.owner_dispatch(id),
        _ => None,
    }
}

/// The queue after a history.
pub open spec fn run<F, C, W>(
    v: SyncQueueView<F, C, W>,
    events: Seq<SyncEvent<F, C, W>>,
) -> SyncQueueView<F, C, W>
    decreases events.len(),
{
    if events.len() == 0 {
        v
    } else {
        run(apply(v, events[0]), events.drop_first())
    }
}

/// There is a number for every sync that a history has accepted.
pub open spec fn numbered<F, C, W>(
    v: SyncQueueView<F, C, W>,
    events: Seq<SyncEvent<F, C, W>>,
) -> bool
    decreases events.len(),
{
    events.len() > 0 ==> {
        &&& events[0] is Submit ==> v.has_number()
        &&& numbered(apply(v, events[0]), events.drop_first())
    }
}

/// What a history hands out to be completed, in order.
pub open spec fn dispatches<F, C, W>(
    v: SyncQueueView<F, C, W>,
    events: Seq<SyncEvent<F, C, W>>,
) -> Seq<Dispatch<C>>
    decreases events.len(),
{
    if events.len() == 0 {
        Seq::empty()
    } else {
        let rest = dispatches(apply(v, events[0]), events.drop_first());
        match dispatch_by(v, events[0]) {
            Some(dispatch) => seq![dispatch] + rest,
            None => rest,
        }
    }
}

/// The numbers of the syncs that a history gives to the worker, in order.
pub open spec fn performed<F, C, W>(
    v: SyncQueueView<F, C, W>,
    events: Seq<SyncEvent<F, C, W>>,
) -> Seq<u64>
    decreases events.len(),
{
    if events.len() == 0 {
        Seq::empty()
    } else {
        let rest = performed(apply(v, events[0]), events.drop_first());
        if events[0] is TakeJob && v.has_job() {
            seq![v.jobs[0].id] + rest
        } else {
            rest
        }
    }
}

/// The numbers of the syncs whose wakes a history performs, in order.
pub open spec fn wakes<F, C, W>(
    v: SyncQueueView<F, C, W>,
    events: Seq<SyncEvent<F, C, W>>,
) -> Seq<u64>
    decreases events.len(),
{
    if events.len() == 0 {
        Seq::empty()
    } else {
        let rest = wakes(apply(v, events[0]), events.drop_first());
        if events[0] is TakeNotification && v.wake_due() {
            seq![v.notifications[0].id] + rest
        } else {
            rest
        }
    }
}

/// One event keeps the queue well formed, and what is settled stays settled.
pub(crate) proof fn lemma_apply<F, C, W>(v: SyncQueueView<F, C, W>, event: SyncEvent<F, C, W>)
    requires
        v.wf(),
        event is Submit ==> v.has_number(),
    ensures
        apply(v, event).wf(),
        v.next_id <= apply(v, event).next_id <= v.next_id + 1,
        apply(v, event).settled_count() >= v.settled_count(),
{
    match event {
        SyncEvent::Submit { completion, file, sync_type, context } => {
            v.lemma_submitted_wf(completion, file, sync_type, context);
        },
        SyncEvent::TakeJob => {
            v.lemma_job_taken_wf();
        },
        SyncEvent::Finish { id, outcome } => {
            v.lemma_job_finished_wf(id, outcome);
        },
        SyncEvent::StopWorker => {
            v.lemma_worker_gone_wf();
        },
        SyncEvent::TakeReady => {
            v.lemma_stepped_wf();
        },
        SyncEvent::TakeResult { id } => {
            v.lemma_owner_stepped_wf(id);
        },
        SyncEvent::Close => {},
        SyncEvent::TakeNotification => {
            v.lemma_woken_wf();
        },
    }
}

/// Every history keeps the queue well formed, and what is settled stays settled.
pub proof fn law_histories_keep_the_queue_well_formed<F, C, W>(
    v: SyncQueueView<F, C, W>,
    events: Seq<SyncEvent<F, C, W>>,
)
    requires
        v.wf(),
        numbered(v, events),
    ensures
        run(v, events).wf(),
        v.next_id <= run(v, events).next_id <= v.next_id + events.len(),
        run(v, events).settled_count() >= v.settled_count(),
        forall|id: u64|
            id < v.next_id && v.settled(id) ==> #[trigger] run(v, events).settled(id),
    decreases events.len(),
{
    if events.len() > 0 {
        lemma_apply(v, events[0]);
        law_histories_keep_the_queue_well_formed(apply(v, events[0]), events.drop_first());
    }
}

/// A history is the first part of it, and then the rest.
pub(crate) proof fn lemma_history_parts<F, C, W>(
    v: SyncQueueView<F, C, W>,
    first: Seq<SyncEvent<F, C, W>>,
    rest: Seq<SyncEvent<F, C, W>>,
)
    ensures
        run(v, first + rest) == run(run(v, first), rest),
        dispatches(v, first + rest) == dispatches(v, first) + dispatches(run(v, first), rest),
        numbered(v, first + rest) <==> numbered(v, first) && numbered(run(v, first), rest),
    decreases first.len(),
{
    if first.len() == 0 {
        assert(first + rest =~= rest);
        assert(Seq::<Dispatch<C>>::empty() + dispatches(v, rest) =~= dispatches(v, rest));
    } else {
        let next = apply(v, first[0]);
        assert((first + rest).drop_first() =~= first.drop_first() + rest);
        assert((first + rest)[0] == first[0]);
        lemma_history_parts(next, first.drop_first(), rest);
        let end = run(v, first);
        match dispatch_by(v, first[0]) {
            Some(d) => {
                assert(seq![d] + (dispatches(next, first.drop_first()) + dispatches(end, rest))
                    =~= dispatches(v, first) + dispatches(end, rest));
            },
            None => {},
        }
    }
}

/// There are numbers for every history that is not longer than the numbers that are left.
pub proof fn law_short_histories_are_numbered<F, C, W>(
    v: SyncQueueView<F, C, W>,
    events: Seq<SyncEvent<F, C, W>>,
)
    requires
        v.next_id + events.len() <= u64::MAX,
    ensures
        numbered(v, events),
    decreases events.len(),
{
    if events.len() > 0 {
        law_short_histories_are_numbered(apply(v, events[0]), events.drop_first());
    }
}

/// A queue that accepts nothing needs no numbers: it has none to give, for any history.
pub proof fn law_refusing_queues_need_no_numbers<F, C, W>(
    v: SyncQueueView<F, C, W>,
    events: Seq<SyncEvent<F, C, W>>,
)
    requires
        !(v.open && v.worker_running),
    ensures
        numbered(v, events),
        run(v, events).next_id == v.next_id,
        !(run(v, events).open && run(v, events).worker_running),
    decreases events.len(),
{
    if events.len() > 0 {
        law_refusing_queues_need_no_numbers(apply(v, events[0]), events.drop_first());
    }
}

/// What one event does to the pending syncs: nothing appears but a sync that is accepted now,
/// nothing disappears but what is handed out now.
proof fn lemma_pending_step<F, C, W>(
    v: SyncQueueView<F, C, W>,
    event: SyncEvent<F, C, W>,
    id: u64,
)
    requires
        v.wf(),
        event is Submit ==> v.has_number(),
    ensures
        ({
            let next = apply(v, event);
            match dispatch_by(v, event) {
                Some(d) => {
                    &&& v.is_pending(d.id)
                    &&& v.settled(d.id)
                    &&& next.next_id == v.next_id
                    &&& next.is_pending(id) <==> (v.is_pending(id) && id != d.id)
                },
                None => next.is_pending(id) <==> (v.is_pending(id) || v.next_id <= id
                    < next.next_id),
            }
        }),
{
    let next = apply(v, event);
    match event {
        SyncEvent::Submit { completion, file, sync_type, context } => {
            if v.is_pending(id) {
                let i = choose|i: int|
                    0 <= i < v.pending.len() && (#[trigger] v.pending[i]).id == id;
                assert(next.pending[i].id == id);
            }
            if id == v.next_id && next.next_id > v.next_id {
                assert(next.pending[v.pending.len() as int].id == id);
            }
            if next.is_pending(id) {
                let i = choose|i: int|
                    0 <= i < next.pending.len() && (#[trigger] next.pending[i]).id == id;
                if i < v.pending.len() {
                    assert(v.pending[i].id == id);
                }
            }
        },
        SyncEvent::TakeReady => {
            crate::sync_queue::lemma_first_ready_is_first(v.pending);
            let k = crate::sync_queue::first_ready(v.pending);
            if k < v.pending.len() {
                lemma_removed(v, k, id);
            }
        },
        SyncEvent::TakeResult { id: wanted } => {
            crate::sync_queue::lemma_entry_of_is_entry(v.pending, wanted);
            let k = crate::sync_queue::entry_of(v.pending, wanted);
            if v.is_ready(wanted) {
                lemma_removed(v, k, id);
            }
        },
        _ => {
            if v.is_pending(id) {
                let i = choose|i: int|
                    0 <= i < v.pending.len() && (#[trigger] v.pending[i]).id == id;
                assert(next.pending[i].id == id);
            }
            if next.is_pending(id) {
                let i = choose|i: int|
                    0 <= i < next.pending.len() && (#[trigger] next.pending[i]).id == id;
                assert(v.pending[i].id == id);
            }
        },
    }
}

/// Taking out the entry `k` takes out its sync and no other.
proof fn lemma_removed<F, C, W>(v: SyncQueueView<F, C, W>, k: int, id: u64)
    requires
        v.wf(),
        0 <= k < v.pending.len(),
        v.pending[k].result.value is Some,
    ensures
        v.is_pending(v.pending[k].id),
        v.settled(v.pending[k].id),
        v.dispatched(k).is_pending(id) <==> (v.is_pending(id) && id != v.pending[k].id),
{
    let next = v.dispatched(k);
    let t = v.pending.len() - v.in_flight();
    if v.in_flight() > 0 {
        assert(v.pending[k].id < v.pending[t].id);
    }
    if v.is_pending(id) && id != v.pending[k].id {
        let i = choose|i: int| 0 <= i < v.pending.len() && (#[trigger] v.pending[i]).id == id;
        if i < k {
            assert(next.pending[i].id == id);
        } else {
            assert(next.pending[i - 1].id == id);
        }
    }
    if next.is_pending(id) {
        let i = choose|i: int|
            0 <= i < next.pending.len() && (#[trigger] next.pending[i]).id == id;
        if i < k {
            assert(v.pending[i].id == id);
            assert(v.pending[i].id < v.pending[k].id);
        } else {
            assert(v.pending[i + 1].id == id);
            assert(v.pending[k].id < v.pending[i + 1].id);
        }
    }
}

/// The sync `id` is among those handed out.
pub open spec fn handed_out<C>(out: Seq<Dispatch<C>>, id: u64) -> bool {
    exists|i: int| 0 <= i < out.len() && (#[trigger] out[i]).id == id
}

/// No sync is handed out twice.
pub open spec fn no_repeats<C>(out: Seq<Dispatch<C>>) -> bool {
    forall|i: int, j: int|
        0 <= i < j < out.len() ==> (#[trigger] out[i]).id != (#[trigger] out[j]).id
}

/// A sync that is pending, or is accepted in the course of a history, is at the end either
/// pending or handed out, and never both; nothing else is handed out, and nothing twice.
pub proof fn law_nothing_is_lost_or_doubled<F, C, W>(
    v: SyncQueueView<F, C, W>,
    events: Seq<SyncEvent<F, C, W>>,
    id: u64,
)
    requires
        v.wf(),
        numbered(v, events),
    ensures
        ({
            let end = run(v, events);
            let out = dispatches(v, events);
            &&& (v.is_pending(id) || v.next_id <= id < end.next_id) <==> (end.is_pending(id)
                || handed_out(out, id))
            &&& !(end.is_pending(id) && handed_out(out, id))
            &&& no_repeats(out)
        }),
    decreases events.len(),
{
    if events.len() > 0 {
        let event = events[0];
        let next = apply(v, event);
        let rest = events.drop_first();
        let out = dispatches(next, rest);
        lemma_apply(v, event);
        lemma_pending_step(v, event, id);
        law_nothing_is_lost_or_doubled(next, rest, id);
        law_histories_keep_the_queue_well_formed(next, rest);
        match dispatch_by(v, event) {
            Some(d) => {
                let all = seq![d] + out;
                lemma_pending_step(v, event, d.id);
                law_nothing_is_lost_or_doubled(next, rest, d.id);
                lemma_pending_below(v, d.id);
                assert(!handed_out(out, d.id));
                assert forall|i: int, j: int| 0 <= i < j < all.len() implies (
                #[trigger] all[i]).id != (#[trigger] all[j]).id by {
                    assert(all[j] == out[j - 1]);
                    if i > 0 {
                        assert(all[i] == out[i - 1]);
                    }
                }
                if id == d.id {
                    assert(all[0].id == id);
                } else {
                    if handed_out(out, id) {
                        let i = choose|i: int|
                            0 <= i < out.len() && (#[trigger] out[i]).id == id;
                        assert(all[i + 1].id == id);
                    }
                    if handed_out(all, id) {
                        let i = choose|i: int|
                            0 <= i < all.len() && (#[trigger] all[i]).id == id;
                        assert(out[i - 1].id == id);
                    }
                }
            },
            None => {
                if v.is_pending(id) {
                    lemma_pending_below(v, id);
                }
            },
        }
    }
}

/// A pending sync was accepted.
pub(crate) proof fn lemma_pending_below<F, C, W>(v: SyncQueueView<F, C, W>, id: u64)
    requires
        v.wf(),
        v.is_pending(id),
    ensures
        id < v.next_id,
{
}

/// Every accepted sync is dispatched exactly once, or is still pending.
pub proof fn law_accepted_syncs_are_dispatched_once<F, C, W>(
    events: Seq<SyncEvent<F, C, W>>,
    id: u64,
)
    requires
        numbered(SyncQueueView::<F, C, W>::fresh(), events),
    ensures
        ({
            let end = run(SyncQueueView::<F, C, W>::fresh(), events);
            let out = dispatches(SyncQueueView::<F, C, W>::fresh(), events);
            &&& id < end.next_id <==> (end.is_pending(id) || handed_out(out, id))
            &&& !(end.is_pending(id) && handed_out(out, id))
            &&& no_repeats(out)
        }),
{
    law_nothing_is_lost_or_doubled(SyncQueueView::<F, C, W>::fresh(), events, id);
}

/// A history settles the sync `id` with `result`: the worker reports it, or is gone.
pub open spec fn settles_with<F, C, W>(
    events: Seq<SyncEvent<F, C, W>>,
    id: u64,
    result: Result<(), CompletionError>,
) -> bool {
    exists|k: int|
        0 <= k < events.len() && match #[trigger] events[k] {
            SyncEvent::Finish { id: finished, outcome } => finished == id && outcome == result,
            SyncEvent::StopWorker => result == crate::sync_queue::abandoned(),
            _ => false,
        }
}

/// The entry `entry` stands in the queue.
pub open spec fn has_entry<F, C, W>(v: SyncQueueView<F, C, W>, entry: PendingSync<C>) -> bool {
    exists|i: int| 0 <= i < v.pending.len() && #[trigger] v.pending[i] == entry
}

/// One event leaves an entry as it is, or records its outcome, or hands it out.
proof fn lemma_entry_step<F, C, W>(
    v: SyncQueueView<F, C, W>,
    event: SyncEvent<F, C, W>,
    entry: PendingSync<C>,
)
    requires
        v.wf(),
        event is Submit ==> v.has_number(),
        has_entry(v, entry),
    ensures
        ({
            let next = apply(v, event);
            ||| has_entry(next, entry)
            ||| exists|result: Result<(), CompletionError>|
                {
                    &&& entry.result.value is None
                    &&& settles_with(seq![event], entry.id, result)
                    &&& #[trigger] has_entry(next, PendingSync { result: SyncResult { value: Some(result) }, ..entry })
                }
            ||| dispatch_by(v, event) == Some(crate::sync_queue::dispatch_of(entry))
                && entry.result.value is Some
        }),
{
    let next = apply(v, event);
    let i = choose|i: int| 0 <= i < v.pending.len() && #[trigger] v.pending[i] == entry;
    match event {
        SyncEvent::Submit { completion, file, sync_type, context } => {
            assert(next.pending[i] == entry);
        },
        SyncEvent::Finish { id, outcome } => {
            if v.active == Some(id) && entry.id == id {
                let t = v.pending.len() - v.in_flight();
                assert(v.pending[t].id == id);
                if i < t {
                    assert(v.pending[i].id < v.pending[t].id);
                } else if i > t {
                    assert(v.pending[t].id < v.pending[i].id);
                }
                assert(next.pending[i] == PendingSync { result: SyncResult { value: Some(outcome) }, ..entry });
                assert(seq![event][0] == event);
                assert(settles_with(seq![event], entry.id, outcome));
                assert(has_entry(next, PendingSync { result: SyncResult { value: Some(outcome) }, ..entry }));
            } else {
                assert(next.pending[i] == entry);
            }
        },
        SyncEvent::StopWorker => {
            if entry.result.value is None {
                let result = crate::sync_queue::abandoned();
                assert(next.pending[i] == PendingSync { result: SyncResult { value: Some(result) }, ..entry });
                assert(seq![event][0] == event);
                assert(settles_with(seq![event], entry.id, result));
                assert(has_entry(next, PendingSync { result: SyncResult { value: Some(result) }, ..entry }));
            } else {
                assert(next.pending[i] == entry);
            }
        },
        SyncEvent::TakeReady => {
            crate::sync_queue::lemma_first_ready_is_first(v.pending);
            lemma_entry_removed(v, crate::sync_queue::first_ready(v.pending), i);
        },
        SyncEvent::TakeResult { id } => {
            crate::sync_queue::lemma_entry_of_is_entry(v.pending, id);
            if v.is_ready(id) {
                lemma_entry_removed(v, crate::sync_queue::entry_of(v.pending, id), i);
            }
        },
        _ => {
            assert(next.pending[i] == entry);
        },
    }
}

proof fn lemma_entry_removed<F, C, W>(v: SyncQueueView<F, C, W>, k: int, i: int)
    requires
        0 <= k <= v.pending.len(),
        0 <= i < v.pending.len(),
    ensures
        k < v.pending.len() && k != i ==> has_entry(v.dispatched(k), v.pending[i]),
{
    if k < v.pending.len() && k != i {
        if i < k {
            assert(v.dispatched(k).pending[i] == v.pending[i]);
        } else {
            assert(v.dispatched(k).pending[i - 1] == v.pending[i]);
        }
    }
}

/// A sync is handed out with the completion that it was accepted with, and with the outcome that
/// the worker reported for it, or the error of a worker that is gone. An outcome, once known,
/// does not change.
pub proof fn law_dispatch_matches_acceptance_and_outcome<F, C, W>(
    v: SyncQueueView<F, C, W>,
    events: Seq<SyncEvent<F, C, W>>,
    entry: PendingSync<C>,
    d: Dispatch<C>,
)
    requires
        v.wf(),
        numbered(v, events),
        has_entry(v, entry),
        dispatches(v, events).contains(d),
        d.id == entry.id,
    ensures
        d.completion == entry.completion,
        match entry.result.value {
            Some(result) => d.outcome == crate::sync_queue::completed_with(result),
            None => exists|result: Result<(), CompletionError>| #[trigger]
                settles_with(events, entry.id, result) && d.outcome == crate::sync_queue::completed_with(result),
        },
    decreases events.len(),
{
    if events.len() > 0 {
        let event = events[0];
        let next = apply(v, event);
        let rest = events.drop_first();
        let out = dispatches(next, rest);
        lemma_apply(v, event);
        lemma_entry_step(v, event, entry);
        law_nothing_is_lost_or_doubled(v, events, entry.id);
        let k = choose|k: int|
            0 <= k < dispatches(v, events).len() && dispatches(v, events)[k] == d;
        if dispatch_by(v, event) == Some(crate::sync_queue::dispatch_of(entry))
            && entry.result.value is Some {
            let first = crate::sync_queue::dispatch_of(entry);
            assert(dispatches(v, events)[0] == first);
            if k > 0 {
                assert(dispatches(v, events)[0].id != dispatches(v, events)[k].id);
            }
        } else {
            if let Some(first) = dispatch_by(v, event) {
                assert(dispatches(v, events)[0] == first);
                if k == 0 {
                    // The entry would have been handed out, and would not be there any more.
                    lemma_pending_step(v, event, entry.id);
                    assert(!next.is_pending(entry.id));
                    if has_entry(next, entry) {
                        let j = choose|j: int|
                            0 <= j < next.pending.len() && #[trigger] next.pending[j] == entry;
                        assert(next.pending[j].id == entry.id);
                    } else {
                        let result = choose|result: Result<(), CompletionError>|
                            {
                                &&& entry.result.value is None
                                &&& settles_with(seq![event], entry.id, result)
                                &&& #[trigger] has_entry(
                                    next,
                                    PendingSync { result: SyncResult { value: Some(result) }, ..entry },
                                )
                            };
                        let e = PendingSync { result: SyncResult { value: Some(result) }, ..entry };
                        let j = choose|j: int|
                            0 <= j < next.pending.len() && #[trigger] next.pending[j] == e;
                        assert(next.pending[j].id == entry.id);
                    }
                }
                assert(out[k - 1] == d);
            } else {
                assert(out[k] == d);
            }
            assert(out.contains(d));
            if has_entry(next, entry) {
                law_dispatch_matches_acceptance_and_outcome(next, rest, entry, d);
                if entry.result.value is None {
                    let result = choose|result: Result<(), CompletionError>| #[trigger]
                        settles_with(rest, entry.id, result) && d.outcome == crate::sync_queue::completed_with(result);
                    let m = choose|m: int|
                        0 <= m < rest.len() && match #[trigger] rest[m] {
                            SyncEvent::Finish { id: finished, outcome } => finished == entry.id
                                && outcome == result,
                            SyncEvent::StopWorker => result == crate::sync_queue::abandoned(),
                            _ => false,
                        };
                    assert(events[m + 1] == rest[m]);
                    assert(settles_with(events, entry.id, result));
                }
            } else {
                let result = choose|result: Result<(), CompletionError>|
                    {
                        &&& entry.result.value is None
                        &&& settles_with(seq![event], entry.id, result)
                        &&& #[trigger] has_entry(
                            next,
                            PendingSync { result: SyncResult { value: Some(result) }, ..entry },
                        )
                    };
                let e = PendingSync { result: SyncResult { value: Some(result) }, ..entry };
                law_dispatch_matches_acceptance_and_outcome(next, rest, e, d);
                assert(seq![event][0] == events[0]);
                assert(settles_with(events, entry.id, result));
            }
        }
    }
}

/// The sync `id` is pending with the outcome success.
pub open spec fn succeeded_in<F, C, W>(v: SyncQueueView<F, C, W>, id: u64) -> bool {
    exists|i: int|
        0 <= i < v.pending.len() && (#[trigger] v.pending[i]).id == id && v.pending[i].result.value
            == Some(Ok::<(), CompletionError>(()))
}

/// Only the report of the worker makes a pending sync a success.
proof fn lemma_success_step<F, C, W>(
    v: SyncQueueView<F, C, W>,
    event: SyncEvent<F, C, W>,
    id: u64,
)
    requires
        succeeded_in(apply(v, event), id),
    ensures
        succeeded_in(v, id) || (v.active == Some(id) && event == (SyncEvent::<F, C, W>::Finish {
            id,
            outcome: Ok::<(), CompletionError>(()),
        })),
{
    let next = apply(v, event);
    let i = choose|i: int|
        0 <= i < next.pending.len() && (#[trigger] next.pending[i]).id == id
            && next.pending[i].result.value == Some(Ok::<(), CompletionError>(()));
    match event {
        SyncEvent::TakeReady => {
            crate::sync_queue::lemma_first_ready_is_first(v.pending);
            let k = crate::sync_queue::first_ready(v.pending);
            if k < v.pending.len() && i >= k {
                assert(v.pending[i + 1] == next.pending[i]);
            } else {
                assert(v.pending[i] == next.pending[i]);
            }
        },
        SyncEvent::TakeResult { id: wanted } => {
            crate::sync_queue::lemma_entry_of_is_entry(v.pending, wanted);
            let k = crate::sync_queue::entry_of(v.pending, wanted);
            if v.is_ready(wanted) && i >= k {
                assert(v.pending[i + 1] == next.pending[i]);
            } else {
                assert(v.pending[i] == next.pending[i]);
            }
        },
        _ => {
            assert(v.pending[i].id == id);
        },
    }
}

/// A sync that is handed out as a success was one before the history, or was reported as one by
/// the worker in its course; then the worker had begun with it before, or began with it in the
/// course of the history.
proof fn lemma_success_was_reported<F, C, W>(
    v: SyncQueueView<F, C, W>,
    events: Seq<SyncEvent<F, C, W>>,
    d: Dispatch<C>,
)
    requires
        dispatches(v, events).contains(d),
        d.outcome is Ok,
    ensures
        succeeded_in(v, d.id) || {
            &&& events.contains(
                SyncEvent::Finish { id: d.id, outcome: Ok::<(), CompletionError>(()) },
            )
            &&& v.active == Some(d.id) || performed(v, events).contains(d.id)
        },
    decreases events.len(),
{
    if events.len() > 0 {
        let event = events[0];
        let next = apply(v, event);
        let rest = events.drop_first();
        let out = dispatches(next, rest);
        let report = SyncEvent::<F, C, W>::Finish {
            id: d.id,
            outcome: Ok::<(), CompletionError>(()),
        };
        let k = choose|k: int|
            0 <= k < dispatches(v, events).len() && dispatches(v, events)[k] == d;
        crate::sync_queue::lemma_first_ready_is_first(v.pending);
        if dispatch_by(v, event) == Some(d) {
            if event is TakeReady {
                let i = crate::sync_queue::first_ready(v.pending);
                assert(v.pending[i].id == d.id);
                assert(v.pending[i].result.value->0 is Ok);
                assert(v.pending[i].result.value->0->Ok_0 == ());
            } else if let SyncEvent::TakeResult { id } = event {
                crate::sync_queue::lemma_entry_of_is_entry(v.pending, id);
                let i = crate::sync_queue::entry_of(v.pending, id);
                assert(v.pending[i].id == d.id);
                assert(v.pending[i].result.value->0 is Ok);
                assert(v.pending[i].result.value->0->Ok_0 == ());
            }
            assert(succeeded_in(v, d.id));
        } else {
            if dispatch_by(v, event) is Some {
                assert(out[k - 1] == d);
            } else {
                assert(out[k] == d);
            }
            assert(out.contains(d));
            lemma_success_was_reported(next, rest, d);
            if succeeded_in(next, d.id) {
                lemma_success_step(v, event, d.id);
                assert(events[0] == event);
            } else {
                let m = choose|m: int| 0 <= m < rest.len() && rest[m] == report;
                assert(events[m + 1] == report);
                lemma_performed_step(v, events, d.id);
            }
        }
    }
}

/// What the worker performs after the first event, it performs in the whole history.
proof fn lemma_performed_step<F, C, W>(
    v: SyncQueueView<F, C, W>,
    events: Seq<SyncEvent<F, C, W>>,
    id: u64,
)
    requires
        events.len() > 0,
        ({
            let next = apply(v, events[0]);
            next.active == Some(id) || performed(next, events.drop_first()).contains(id)
        }),
    ensures
        v.active == Some(id) || performed(v, events).contains(id),
{
    let rest = performed(apply(v, events[0]), events.drop_first());
    let all = performed(v, events);
    if rest.contains(id) {
        let k = choose|k: int| 0 <= k < rest.len() && rest[k] == id;
        if events[0] is TakeJob && v.has_job() {
            assert(all[k + 1] == id);
        } else {
            assert(all[k] == id);
        }
    } else if events[0] is TakeJob && v.has_job() {
        assert(all[0] == id);
    }
}

/// A sync is reported as done only after the worker has begun with it and has performed it with
/// success.
pub proof fn law_success_means_the_sync_was_performed<F, C, W>(
    events: Seq<SyncEvent<F, C, W>>,
    d: Dispatch<C>,
)
    requires
        dispatches(SyncQueueView::<F, C, W>::fresh(), events).contains(d),
        d.outcome is Ok,
    ensures
        d.outcome == Ok::<i32, CompletionError>(0),
        events.contains(SyncEvent::Finish { id: d.id, outcome: Ok::<(), CompletionError>(()) }),
        performed(SyncQueueView::<F, C, W>::fresh(), events).contains(d.id),
{
    lemma_success_was_reported(SyncQueueView::<F, C, W>::fresh(), events, d);
    lemma_success_is_zero(SyncQueueView::<F, C, W>::fresh(), events, d);
}

proof fn lemma_success_is_zero<F, C, W>(
    v: SyncQueueView<F, C, W>,
    events: Seq<SyncEvent<F, C, W>>,
    d: Dispatch<C>,
)
    requires
        dispatches(v, events).contains(d),
        d.outcome is Ok,
    ensures
        d.outcome == Ok::<i32, CompletionError>(0),
    decreases events.len(),
{
    if events.len() > 0 {
        let out = dispatches(apply(v, events[0]), events.drop_first());
        let k = choose|k: int|
            0 <= k < dispatches(v, events).len() && dispatches(v, events)[k] == d;
        if dispatch_by(v, events[0]) != Some(d) {
            if dispatch_by(v, events[0]) is Some {
                assert(out[k - 1] == d);
            } else {
                assert(out[k] == d);
            }
            lemma_success_is_zero(apply(v, events[0]), events.drop_first(), d);
        }
    }
}

/// The worker performs the syncs in the order in which they were accepted, leaving none out.
pub proof fn law_worker_performs_in_order<F, C, W>(
    v: SyncQueueView<F, C, W>,
    events: Seq<SyncEvent<F, C, W>>,
    i: int,
)
    requires
        v.wf(),
        numbered(v, events),
        0 <= i < performed(v, events).len(),
    ensures
        v.worker_running,
        performed(v, events)[i] == v.next_id - v.jobs.len() + i,
    decreases events.len(),
{
    if events.len() > 0 {
        let next = apply(v, events[0]);
        lemma_apply(v, events[0]);
        if events[0] is TakeJob && v.has_job() {
            if i > 0 {
                law_worker_performs_in_order(next, events.drop_first(), i - 1);
            }
        } else {
            law_worker_performs_in_order(next, events.drop_first(), i);
        }
    }
}

/// The wakes come in the order of acceptance, leaving none out.
pub proof fn law_wakes_come_in_order<F, C, W>(
    v: SyncQueueView<F, C, W>,
    events: Seq<SyncEvent<F, C, W>>,
    i: int,
)
    requires
        v.wf(),
        numbered(v, events),
        0 <= i < wakes(v, events).len(),
    ensures
        wakes(v, events)[i] == v.next_id - v.notifications.len() + i,
        run(v, events).settled(wakes(v, events)[i]),
    decreases events.len(),
{
    if events.len() > 0 {
        let next = apply(v, events[0]);
        lemma_apply(v, events[0]);
        law_histories_keep_the_queue_well_formed(next, events.drop_first());
        if events[0] is TakeNotification && v.wake_due() {
            if i > 0 {
                law_wakes_come_in_order(next, events.drop_first(), i - 1);
            }
        } else {
            law_wakes_come_in_order(next, events.drop_first(), i);
        }
    }
}

/// No wake is lost: there is one for each sync that is accepted, and it is performed or still due.
pub proof fn law_no_wake_is_lost<F, C, W>(
    v: SyncQueueView<F, C, W>,
    events: Seq<SyncEvent<F, C, W>>,
)
    requires
        v.wf(),
        numbered(v, events),
    ensures
        wakes(v, events).len() + run(v, events).notifications.len() == v.notifications.len() + (run(
            v,
            events,
        ).next_id - v.next_id),
    decreases events.len(),
{
    if events.len() > 0 {
        lemma_apply(v, events[0]);
        law_no_wake_is_lost(apply(v, events[0]), events.drop_first());
    }
}

/// Where a sync is settled, so are all that were accepted before it. Waiting for the last sync of
/// a file is therefore waiting for all of them.
pub proof fn law_earlier_syncs_are_settled_first<F, C, W>(
    v: SyncQueueView<F, C, W>,
    last: u64,
    id: u64,
)
    requires
        v.wf(),
        id <= last < v.next_id,
        v.settled(last),
    ensures
        v.settled(id),
{
}

/// Whether a sync is settled does not depend on those that are accepted after it, nor on an
/// outcome of another one: whoever waits for it waits for no unrelated sync.
pub proof fn law_waiting_ignores_other_syncs<F, C, W>(
    v: SyncQueueView<F, C, W>,
    event: SyncEvent<F, C, W>,
    id: u64,
)
    requires
        v.wf(),
        event is Submit ==> v.has_number(),
        id < v.next_id,
        !(event is StopWorker),
        event matches SyncEvent::Finish { id: finished, .. } ==> finished != id,
    ensures
        apply(v, event).settled(id) == v.settled(id),
{
}

/// The report of the worker settles the sync that it performed, whatever is queued behind it.
pub proof fn law_report_settles_its_sync<F, C, W>(
    v: SyncQueueView<F, C, W>,
    id: u64,
    outcome: Result<(), CompletionError>,
)
    requires
        v.wf(),
        v.active == Some(id),
    ensures
        !v.settled(id),
        v.job_finished(id, outcome).settled(id),
        v.job_finished(id, outcome).owner_dispatch(id) matches Some(d) && d.outcome
            == crate::sync_queue::completed_with(outcome),
{
    let next = v.job_finished(id, outcome);
    v.lemma_job_finished_wf(id, outcome);
    next.lemma_unsettled_is_pending(id);
    crate::sync_queue::lemma_entry_of_is_entry(next.pending, id);
    let t = v.pending.len() - v.in_flight();
    assert(v.pending[t].id == id);
    assert(next.pending[t].id == id);
    let i = crate::sync_queue::entry_of(next.pending, id);
    if i < t {
        assert(v.pending[i].id < v.pending[t].id);
    }
}

/// The sync of an owner is handed out at most once.
pub proof fn law_owner_step_hands_out_once<F, C, W>(v: SyncQueueView<F, C, W>, id: u64)
    requires
        v.wf(),
    ensures
        v.owner_dispatch(id) is Some <==> v.is_pending(id) && v.settled(id),
        v.owner_stepped(id).owner_dispatch(id) is None,
        v.settled(id) ==> !v.owner_stepped(id).is_pending(id),
        forall|other: u64|
            other != id ==> (v.owner_stepped(id).is_pending(other) == #[trigger] v.is_pending(
                other,
            )),
{
    crate::sync_queue::lemma_entry_of_is_entry(v.pending, id);
    v.lemma_unsettled_is_pending(id);
    let k = crate::sync_queue::entry_of(v.pending, id);
    if k < v.pending.len() {
        assert(v.pending[k].id == id);
    }
    if v.is_pending(id) {
        assert(k < v.pending.len());
    }
    let next = v.owner_stepped(id);
    crate::sync_queue::lemma_entry_of_is_entry(next.pending, id);
    if v.is_ready(id) {
        lemma_removed(v, k, id);
        if next.is_ready(id) {
            assert(next.pending[crate::sync_queue::entry_of(next.pending, id)].id == id);
        }
        assert forall|other: u64| other != id implies v.owner_stepped(id).is_pending(other)
            == #[trigger] v.is_pending(other) by {
            lemma_removed(v, k, other);
        }
    }
}

/// A sync that was dispatched is never pending again, and never handed out again.
pub proof fn law_dispatched_syncs_stay_dispatched<F, C, W>(
    v: SyncQueueView<F, C, W>,
    events: Seq<SyncEvent<F, C, W>>,
    id: u64,
)
    requires
        v.wf(),
        numbered(v, events),
        id < v.next_id,
        !v.is_pending(id),
    ensures
        !run(v, events).is_pending(id),
        !handed_out(dispatches(v, events), id),
{
    law_nothing_is_lost_or_doubled(v, events, id);
}

/// A sync that is settled, and that its owner steps at some time after, is dispatched: it is no
/// longer pending, and was handed out once if it was pending before. Whatever else happens
/// before and after the step makes no difference.
pub proof fn law_owner_step_dispatches_a_settled_sync<F, C, W>(
    v: SyncQueueView<F, C, W>,
    events: Seq<SyncEvent<F, C, W>>,
    id: u64,
)
    requires
        v.wf(),
        numbered(v, events),
        id < v.next_id,
        v.settled(id),
        events.contains(SyncEvent::TakeResult { id }),
    ensures
        !run(v, events).is_pending(id),
        handed_out(dispatches(v, events), id) <==> v.is_pending(id),
        no_repeats(dispatches(v, events)),
    decreases events.len(),
{
    let event = events[0];
    let next = apply(v, event);
    let rest = events.drop_first();
    let step = SyncEvent::<F, C, W>::TakeResult { id };
    lemma_apply(v, event);
    if event == step {
        law_owner_step_hands_out_once(v, id);
        law_dispatched_syncs_stay_dispatched(next, rest, id);
    } else {
        let k = choose|k: int| 0 <= k < events.len() && events[k] == step;
        assert(rest[k - 1] == step);
        law_owner_step_dispatches_a_settled_sync(next, rest, id);
    }
    law_nothing_is_lost_or_doubled(v, events, id);
}

/// The steps of the owners of these syncs, one after the other.
pub open spec fn owner_steps<F, C, W>(ids: Seq<u64>) -> Seq<SyncEvent<F, C, W>> {
    ids.map_values(|id: u64| SyncEvent::<F, C, W>::TakeResult { id })
}

/// Where nobody comes in between, the owners of settled syncs step them all out of the queue.
pub proof fn law_owner_steps_dispatch_settled_syncs<F, C, W>(
    v: SyncQueueView<F, C, W>,
    ids: Seq<u64>,
)
    requires
        v.wf(),
        forall|i: int| 0 <= i < ids.len() ==> v.settled(#[trigger] ids[i]),
    ensures
        numbered(v, owner_steps(ids)),
        run(v, owner_steps(ids)).wf(),
        run(v, owner_steps(ids)).in_flight() == v.in_flight(),
        forall|i: int|
            0 <= i < ids.len() ==> {
                &&& !run(v, owner_steps(ids)).is_pending(#[trigger] ids[i])
                &&& handed_out(dispatches(v, owner_steps(ids)), ids[i]) <==> v.is_pending(ids[i])
            },
        no_repeats(dispatches(v, owner_steps(ids))),
{
    let events = owner_steps::<F, C, W>(ids);
    lemma_owner_steps(v, ids);
    law_histories_keep_the_queue_well_formed(v, events);
    law_nothing_is_lost_or_doubled(v, events, 0);
    assert forall|i: int| 0 <= i < ids.len() implies {
        &&& !run(v, events).is_pending(#[trigger] ids[i])
        &&& handed_out(dispatches(v, events), ids[i]) <==> v.is_pending(ids[i])
    } by {
        law_nothing_is_lost_or_doubled(v, events, ids[i]);
        if ids[i] < v.next_id {
            assert(events[i] == SyncEvent::<F, C, W>::TakeResult { id: ids[i] });
            law_owner_step_dispatches_a_settled_sync(v, events, ids[i]);
        } else if run(v, events).is_pending(ids[i]) {
            lemma_pending_below(run(v, events), ids[i]);
        } else if v.is_pending(ids[i]) {
            lemma_pending_below(v, ids[i]);
        }
    }
}

/// Steps of owners accept nothing and begin nothing.
pub(crate) proof fn lemma_owner_steps<F, C, W>(v: SyncQueueView<F, C, W>, ids: Seq<u64>)
    ensures
        numbered(v, owner_steps(ids)),
        run(v, owner_steps(ids)).next_id == v.next_id,
        run(v, owner_steps(ids)).in_flight() == v.in_flight(),
    decreases ids.len(),
{
    if ids.len() > 0 {
        let events = owner_steps::<F, C, W>(ids);
        let rest = ids.drop_first();
        assert(events.drop_first() =~= owner_steps::<F, C, W>(rest));
        assert(events[0] == SyncEvent::<F, C, W>::TakeResult { id: ids[0] });
        lemma_owner_steps(v.owner_stepped(ids[0]), rest);
    }
}

/// An outcome, once known, is what everyone who waits for the sync gets, as long as the sync is
/// pending, and what its completion is completed with in the end. There is one exactly if the
/// sync is settled.
pub proof fn law_outcome_is_kept<F, C, W>(
    v: SyncQueueView<F, C, W>,
    events: Seq<SyncEvent<F, C, W>>,
    entry: PendingSync<C>,
)
    requires
        v.wf(),
        numbered(v, events),
        has_entry(v, entry),
    ensures
        entry.result.value is Some <==> v.settled(entry.id),
        entry.result.value is Some ==> has_entry(run(v, events), entry) || dispatches(
            v,
            events,
        ).contains(crate::sync_queue::dispatch_of(entry)),
    decreases events.len(),
{
    let i = choose|i: int| 0 <= i < v.pending.len() && #[trigger] v.pending[i] == entry;
    lemma_entry_at(v, i);
    v.lemma_unsettled_is_pending(entry.id);
    if events.len() > 0 {
        let event = events[0];
        let next = apply(v, event);
        let rest = events.drop_first();
        let out = dispatches(next, rest);
        let wanted = crate::sync_queue::dispatch_of(entry);
        lemma_apply(v, event);
        lemma_entry_step(v, event, entry);
        if entry.result.value is Some {
            if dispatch_by(v, event) == Some(wanted) {
                assert(dispatches(v, events)[0] == wanted);
            } else {
                law_outcome_is_kept(next, rest, entry);
                if out.contains(wanted) {
                    let k = choose|k: int| 0 <= k < out.len() && out[k] == wanted;
                    if dispatch_by(v, event) is Some {
                        assert(dispatches(v, events)[k + 1] == wanted);
                    } else {
                        assert(dispatches(v, events)[k] == wanted);
                    }
                }
            }
        }
    }
}

/// The entry `i` is the entry of its sync.
pub(crate) proof fn lemma_entry_at<F, C, W>(v: SyncQueueView<F, C, W>, i: int)
    requires
        v.wf(),
        0 <= i < v.pending.len(),
    ensures
        crate::sync_queue::entry_of(v.pending, v.pending[i].id) == i,
{
    let id = v.pending[i].id;
    crate::sync_queue::lemma_entry_of_is_entry(v.pending, id);
    let k = crate::sync_queue::entry_of(v.pending, id);
    if k < i {
        assert(v.pending[k].id < v.pending[i].id);
    } else if k > i {
        assert(v.pending[i].id != id);
    }
}

/// The backend is stepped until a step hands out nothing. The completions that are completed on
/// the way may do with the queue whatever they like: submit syncs, step it, wait for others. In
/// the end every sync that was pending before, or was accepted on the way, was handed out exactly
/// once if it is settled, and only those in flight are left.
pub proof fn law_stepping_may_be_reentered<F, C, W>(
    v: SyncQueueView<F, C, W>,
    events: Seq<SyncEvent<F, C, W>>,
    id: u64,
)
    requires
        v.wf(),
        numbered(v, events),
        run(v, events).step_dispatch() is None,
    ensures
        ({
            let end = run(v, events);
            let out = dispatches(v, events);
            &&& end.wf()
            &&& handed_out(out, id) <==> (v.is_pending(id) || v.next_id <= id < end.next_id)
                && end.settled(id)
            &&& no_repeats(out)
            &&& end.is_pending(id) <==> !end.settled(id)
            &&& end.pending.len() == end.in_flight()
        }),
{
    let end = run(v, events);
    law_histories_keep_the_queue_well_formed(v, events);
    law_nothing_is_lost_or_doubled(v, events, id);
    crate::sync_queue::lemma_first_ready_is_first(end.pending);
    crate::sync_queue::lemma_entry_of_is_entry(end.pending, id);
    end.lemma_unsettled_is_pending(id);
    if v.is_pending(id) {
        lemma_pending_below(v, id);
    }
    if end.pending.len() > end.in_flight() {
        assert(end.pending[0].result.value is Some);
    }
    if end.is_pending(id) {
        let i = choose|i: int| 0 <= i < end.pending.len() && (#[trigger] end.pending[i]).id == id;
        lemma_entry_at(end, i);
    } else if !end.settled(id) {
        let i = crate::sync_queue::entry_of(end.pending, id);
        assert(end.pending[i].id == id);
    }
}

/// A closed queue stays closed and accepts nothing.
pub proof fn law_closed_queue_accepts_nothing<F, C, W>(
    v: SyncQueueView<F, C, W>,
    events: Seq<SyncEvent<F, C, W>>,
)
    requires
        !v.open,
    ensures
        !run(v, events).open,
        run(v, events).next_id == v.next_id,
    decreases events.len(),
{
    if events.len() > 0 {
        law_closed_queue_accepts_nothing(apply(v, events[0]), events.drop_first());
    }
}

/// The queue after all settled syncs were dispatched one by one, and what was handed out.
pub open spec fn step_all<F, C, W>(v: SyncQueueView<F, C, W>) -> (
    SyncQueueView<F, C, W>,
    Seq<Dispatch<C>>,
)
    decreases v.pending.len(),
{
    match v.step_dispatch() {
        Some(dispatch) => {
            if v.stepped().pending.len() < v.pending.len() {
                let (end, out) = step_all(v.stepped());
                (end, seq![dispatch] + out)
            } else {
                (v, Seq::empty())
            }
        },
        None => (v, Seq::empty()),
    }
}

/// Dispatching until nothing is ready hands out every settled sync, in the order of acceptance,
/// and leaves exactly those in flight.
pub proof fn law_stepping_hands_out_all_settled_syncs<F, C, W>(v: SyncQueueView<F, C, W>)
    requires
        v.wf(),
    ensures
        ({
            let (end, out) = step_all(v);
            let n = v.pending.len() - v.in_flight();
            &&& end.wf()
            &&& end.pending == v.pending.skip(n)
            &&& end.in_flight() == v.in_flight()
            &&& end.pending.len() == v.in_flight()
            &&& out == v.pending.take(n).map_values(
                |entry: PendingSync<C>| crate::sync_queue::dispatch_of(entry),
            )
        }),
    decreases v.pending.len(),
{
    let n = v.pending.len() - v.in_flight();
    let of = |entry: PendingSync<C>| crate::sync_queue::dispatch_of(entry);
    crate::sync_queue::lemma_first_ready_is_first(v.pending);
    let k = crate::sync_queue::first_ready(v.pending);
    if n > 0 {
        assert(v.pending[0].result.value is Some);
        assert(k == 0);
        let next = v.stepped();
        v.lemma_stepped_wf();
        law_stepping_hands_out_all_settled_syncs(next);
        let (end, out) = step_all(next);
        assert(next.pending =~= v.pending.drop_first());
        assert(next.pending.skip(n - 1) =~= v.pending.skip(n));
        assert(seq![of(v.pending[0])] + out =~= v.pending.take(n).map_values(of));
    } else {
        if k < v.pending.len() {
            assert(v.pending[k].result.value is Some);
        }
        assert(v.pending.skip(n) =~= v.pending);
        assert(Seq::<Dispatch<C>>::empty() =~= v.pending.take(n).map_values(of));
    }
}

/// This many steps of the backend.
pub open spec fn ready_steps<F, C, W>(n: nat) -> Seq<SyncEvent<F, C, W>> {
    Seq::new(n, |i: int| SyncEvent::<F, C, W>::TakeReady)
}

/// Steps of the backend accept nothing and begin nothing.
pub(crate) proof fn lemma_ready_steps<F, C, W>(v: SyncQueueView<F, C, W>, n: nat)
    ensures
        numbered(v, ready_steps(n)),
        run(v, ready_steps(n)).next_id == v.next_id,
        run(v, ready_steps(n)).in_flight() == v.in_flight(),
    decreases n,
{
    if n > 0 {
        let events = ready_steps::<F, C, W>(n);
        assert(events[0] == SyncEvent::<F, C, W>::TakeReady);
        assert(events.drop_first() =~= ready_steps::<F, C, W>((n - 1) as nat));
        lemma_ready_steps(v.stepped(), (n - 1) as nat);
    }
}

/// As many steps as there are pending syncs are enough to dispatch all that are settled, and
/// further ones do nothing.
pub proof fn law_enough_steps_hand_out_all_settled_syncs<F, C, W>(
    v: SyncQueueView<F, C, W>,
    n: nat,
)
    requires
        n >= v.pending.len() || v.step_dispatch() is None,
    ensures
        numbered(v, ready_steps(n)),
        run(v, ready_steps(n)) == step_all(v).0,
        dispatches(v, ready_steps(n)) == step_all(v).1,
    decreases n,
{
    crate::sync_queue::lemma_first_ready_is_first(v.pending);
    if n > 0 {
        let events = ready_steps::<F, C, W>(n);
        assert(events[0] == SyncEvent::<F, C, W>::TakeReady);
        assert(events.drop_first() =~= ready_steps::<F, C, W>((n - 1) as nat));
        law_enough_steps_hand_out_all_settled_syncs(v.stepped(), (n - 1) as nat);
    }
}

/// Once nothing is in flight, as when the worker of a closed queue has stopped, every accepted sync
/// is settled, and dispatching leaves the queue empty.
pub proof fn law_shutdown_drains_accepted_syncs<F, C, W>(v: SyncQueueView<F, C, W>)
    requires
        v.wf(),
        v.in_flight() == 0,
    ensures
        forall|id: u64| #[trigger] v.settled(id),
        step_all(v).0.pending.len() == 0,
        step_all(v).1.len() == v.pending.len(),
{
    law_stepping_hands_out_all_settled_syncs(v);
}

/// While a sync is in flight, the worker is there and is performing one or can begin with one.
pub proof fn law_worker_never_stalls<F, C, W>(v: SyncQueueView<F, C, W>)
    requires
        v.wf(),
        v.in_flight() > 0,
    ensures
        v.worker_running,
        v.active is Some || v.has_job(),
{
}

} // verus!
