//! The I/O backend: its workers, and what it does with files and completions as a whole.

use crate::error::{io_error, CompletionError, ErrorKind, LimboError};
use crate::file::{FlockOperation, OpenFlags, OpenPlan};
use crate::sync_laws::SyncEvent;
use crate::sync_queue::{Dispatch, SyncQueue, SyncQueueView};
use vstd::prelude::*;

verus! {

/// The threads of the backend.
#[derive(Clone, Copy, Debug, PartialEq, Eq, Structural)]
pub enum Worker {
    /// The one that wakes those who asked for a sync.
    Wake,
    /// The one that performs the syncs.
    Sync,
}

/// What follows the start of a thread.
#[derive(Debug, PartialEq, Eq)]
pub enum StartStep {
    /// Start this thread.
    Start(Worker),
    /// The backend is ready.
    Ready,
    /// Stop the thread that was started before, if `stop_wake`, and return the error.
    Fail { stop_wake: bool, error: LimboError },
}

/// Something that is done with a set of requests, or by the backend itself.
#[derive(Clone, Copy, Debug, PartialEq, Eq, Structural)]
pub enum DriverAction {
    /// Wait, for each request, until the system call behind it has returned.
    WaitForIo,
    /// Abort each request.
    Abort,
    /// Dispatch each request whose outcome is known.
    StepIo,
    /// Step the backend until nothing is left to dispatch.
    Step,
    /// Let other threads run.
    Yield,
}

/// What draining does next.
#[derive(Debug, PartialEq, Eq)]
pub enum DrainStep {
    /// Do this, in order, and ask again.
    More(Vec<DriverAction>),
    /// Do this, in order, and return.
    Last(Vec<DriverAction>),
}

/// The actions of a cancellation.
pub open spec fn cancel_actions() -> Seq<DriverAction> {
    seq![DriverAction::WaitForIo, DriverAction::Abort, DriverAction::StepIo, DriverAction::Step]
}

/// The actions with which draining begins.
pub open spec fn drain_first_actions() -> Seq<DriverAction> {
    seq![DriverAction::WaitForIo, DriverAction::StepIo]
}

/// The actions of draining while requests are unfinished.
pub open spec fn drain_round_actions() -> Seq<DriverAction> {
    seq![DriverAction::StepIo, DriverAction::Step, DriverAction::Yield]
}

/// The actions with which a shutdown ends.
pub open spec fn shutdown_actions() -> Seq<DriverAction> {
    seq![DriverAction::Step]
}

/// All actions of draining, with this many rounds.
pub open spec fn drain_actions(rounds: nat) -> Seq<DriverAction> {
    drain_first_actions() + drain_rounds(rounds) + seq![DriverAction::Step]
}

/// The actions of this many rounds of draining.
pub open spec fn drain_rounds(rounds: nat) -> Seq<DriverAction>
    decreases rounds,
{
    if rounds == 0 {
        Seq::empty()
    } else {
        drain_round_actions() + drain_rounds((rounds - 1) as nat)
    }
}

/// What an action does to the queue, where `ids` are the syncs behind the requests.
pub open spec fn action_events<F, C, W>(
    v: SyncQueueView<F, C, W>,
    ids: Seq<u64>,
    action: DriverAction,
) -> Seq<SyncEvent<F, C, W>> {
    match action {
        DriverAction::StepIo => crate::sync_laws::owner_steps(ids),
        DriverAction::Step => crate::sync_laws::ready_steps(v.pending.len()),
        _ => Seq::empty(),
    }
}

/// What actions do to the queue, one after the other.
pub open spec fn driver_events<F, C, W>(
    v: SyncQueueView<F, C, W>,
    ids: Seq<u64>,
    actions: Seq<DriverAction>,
) -> Seq<SyncEvent<F, C, W>>
    decreases actions.len(),
{
    if actions.len() == 0 {
        Seq::empty()
    } else {
        let first = action_events(v, ids, actions[0]);
        first + driver_events(crate::sync_laws::run(v, first), ids, actions.drop_first())
    }
}

/// The backend: the queue of syncs. See `SyncQueue` for the parameters.
pub struct UnixIO<F, C, W> {
    pub sync_queue: SyncQueue<F, C, W>,
}

/// The name of a thread.
pub fn worker_name(worker: Worker) -> (name: &'static str)
    ensures
        name@ == match worker {
            Worker::Wake => "turso-sync-wake"@,
            Worker::Sync => "turso-sync"@,
        },
{
    match worker {
        Worker::Wake => "turso-sync-wake",
        Worker::Sync => "turso-sync",
    }
}

/// How the backend is started: the thread that wakes comes first.
pub fn first_start() -> (step: StartStep)
    ensures
        step == StartStep::Start(Worker::Wake),
{
    StartStep::Start(Worker::Wake)
}

/// What follows an attempt to start the thread `worker`.
pub fn after_start(worker: Worker, answer: Result<(), ErrorKind>) -> (step: StartStep)
    ensures
        step == match (worker, answer) {
            (Worker::Wake, Ok(_)) => StartStep::Start(Worker::Sync),
            (Worker::Wake, Err(kind)) => StartStep::Fail {
                stop_wake: false,
                error: LimboError::CompletionError(
                    CompletionError::IOError(kind, "start sync wake worker"),
                ),
            },
            (Worker::Sync, Ok(_)) => StartStep::Ready,
            (Worker::Sync, Err(kind)) => StartStep::Fail {
                stop_wake: true,
                error: LimboError::CompletionError(
                    CompletionError::IOError(kind, "start sync worker"),
                ),
            },
        },
{
    match worker {
        Worker::Wake => match answer {
            Ok(_) => StartStep::Start(Worker::Sync),
            Err(kind) => StartStep::Fail {
                stop_wake: false,
                error: io_error(kind, "start sync wake worker"),
            },
        },
        Worker::Sync => match answer {
            Ok(_) => StartStep::Ready,
            Err(kind) => StartStep::Fail {
                stop_wake: true,
                error: io_error(kind, "start sync worker"),
            },
        },
    }
}

/// How a file with these flags is opened and locked. `lock_disabled` says that the environment
/// switches file locks off.
pub open spec fn open_plan(flags: OpenFlags, lock_disabled: bool) -> OpenPlan {
    OpenPlan {
        read: true,
        write: !flags.read_only,
        create: !flags.read_only && flags.create,
        lock: if lock_disabled || flags.read_only || flags.no_lock {
            None
        } else {
            Some(FlockOperation::NonBlockingLockExclusive)
        },
    }
}

impl<F, C, W> UnixIO<F, C, W> {
    /// A backend with an empty queue.
    pub fn new() -> (io: Self)
        ensures
            io.sync_queue@ == SyncQueueView::<F, C, W>::fresh(),
            io.sync_queue@.wf(),
    {
        UnixIO { sync_queue: SyncQueue::new() }
    }

    /// Processes can share a write-ahead log through this backend.
    pub fn supports_shared_wal_coordination(&self) -> (supported: bool)
        ensures
            supported,
    {
        true
    }

    /// How a file is opened and locked.
    pub fn open_file(&self, flags: OpenFlags, lock_disabled: bool) -> (plan: OpenPlan)
        ensures
            plan == open_plan(flags, lock_disabled),
            plan.read,
            plan.write == !flags.read_only,
            plan.create == (flags.create && !flags.read_only),
            plan.lock is None <==> lock_disabled || flags.read_only || flags.no_lock,
            plan.lock matches Some(operation) ==> operation
                == FlockOperation::NonBlockingLockExclusive,
    {
        let mut plan = OpenPlan { read: true, write: false, create: false, lock: None };
        if !flags.read_only {
            plan.write = true;
            plan.create = flags.create;
        }
        if !lock_disabled && !(flags.read_only || flags.no_lock) {
            plan.lock = Some(FlockOperation::NonBlockingLockExclusive);
        }
        plan
    }

    /// The error of a file that could not be opened.
    pub fn open_failed(&self, kind: ErrorKind) -> (error: LimboError)
        ensures
            error == LimboError::CompletionError(CompletionError::IOError(kind, "open")),
    {
        io_error(kind, "open")
    }

    /// What the answer to the removal of a file means.
    pub fn remove_file_answer(&self, answer: Result<(), ErrorKind>) -> (result: Result<
        (),
        LimboError,
    >)
        ensures
            result == match answer {
                Ok(_) => Ok::<(), LimboError>(()),
                Err(kind) => Err::<(), LimboError>(
                    LimboError::CompletionError(CompletionError::IOError(kind, "remove_file")),
                ),
            },
    {
        match answer {
            Ok(_) => Ok(()),
            Err(kind) => Err(io_error(kind, "remove_file")),
        }
    }

    /// One step of the backend: takes out the first settled sync, where there is one. Its
    /// completion is completed before the next step.
    pub fn step(&mut self) -> (dispatch: Option<Dispatch<C>>)
        requires
            old(self).sync_queue@.wf(),
        ensures
            final(self).sync_queue@.wf(),
            final(self).sync_queue@ == old(self).sync_queue@.stepped(),
            dispatch == old(self).sync_queue@.step_dispatch(),
    {
        self.sync_queue.take_ready()
    }

    /// Shuts the backend down: nothing more is accepted. Returns the threads to wait for, in this
    /// order; `after_join` says what comes then. The thread that wakes does not
    /// wait for itself: `on_wake_thread` says that it is the one that shuts down.
    pub fn shutdown(&mut self, on_wake_thread: bool) -> (join: Vec<Worker>)
        requires
            old(self).sync_queue@.wf(),
        ensures
            final(self).sync_queue@.wf(),
            final(self).sync_queue@ == old(self).sync_queue@.closed(),
            join@ == if on_wake_thread {
                seq![Worker::Sync]
            } else {
                seq![Worker::Sync, Worker::Wake]
            },
    {
        self.sync_queue.close();
        let mut join: Vec<Worker> = Vec::new();
        join.push(Worker::Sync);
        if !on_wake_thread {
            join.push(Worker::Wake);
        }
        assert(join@ =~= if on_wake_thread {
            seq![Worker::Sync]
        } else {
            seq![Worker::Sync, Worker::Wake]
        });
        join
    }

    /// How a shutdown ends, once the threads were waited for: what was accepted is dispatched.
    pub fn after_join(&self) -> (actions: Vec<DriverAction>)
        ensures
            actions@ == shutdown_actions(),
    {
        let mut actions: Vec<DriverAction> = Vec::new();
        actions.push(DriverAction::Step);
        assert(actions@ =~= shutdown_actions());
        actions
    }

    /// The sync to wait for next, where all of `ids` are waited for: the first one that is not
    /// settled, until there is none.
    pub fn wait_for_syncs(&self, ids: &Vec<u64>) -> (next: Option<u64>)
        requires
            self.sync_queue@.wf(),
        ensures
            match next {
                Some(id) => exists|i: int|
                    {
                        &&& 0 <= i < ids@.len()
                        &&& #[trigger] ids@[i] == id
                        &&& !self.sync_queue@.settled(id)
                        &&& forall|j: int| 0 <= j < i ==> self.sync_queue@.settled(ids@[j])
                    },
                None => forall|i: int|
                    0 <= i < ids@.len() ==> self.sync_queue@.settled(#[trigger] ids@[i]),
            },
    {
        let mut i: usize = 0;
        while i < ids.len()
            invariant
                i <= ids@.len(),
                self.sync_queue@.wf(),
                forall|j: int| 0 <= j < i ==> self.sync_queue@.settled(#[trigger] ids@[j]),
            decreases ids@.len() - i,
        {
            if !self.sync_queue.is_settled(ids[i]) {
                assert(ids@[i as int] == ids[i as int]);
                return Some(ids[i]);
            }
            i = i + 1;
        }
        None
    }

    /// How requests are cancelled. The syncs among them are waited for before anything is given
    /// up: an aborted request may still be on its way to the disk.
    pub fn cancel(&self) -> (actions: Vec<DriverAction>)
        ensures
            actions@ == cancel_actions(),
    {
        let mut actions: Vec<DriverAction> = Vec::new();
        actions.push(DriverAction::WaitForIo);
        actions.push(DriverAction::Abort);
        actions.push(DriverAction::StepIo);
        actions.push(DriverAction::Step);
        assert(actions@ =~= cancel_actions());
        actions
    }

    /// How requests are brought to an end. `begun` says that draining has begun, and `finished`
    /// which of the requests are finished. After the actions, draining goes on with
    /// `DrainStep::More`, and ends with `DrainStep::Last`.
    pub fn drain_completions(&self, begun: bool, finished: &Vec<bool>) -> (step: DrainStep)
        ensures
            if !begun {
                step matches DrainStep::More(actions) && actions@ == drain_first_actions()
            } else if exists|i: int| 0 <= i < finished@.len() && !#[trigger] finished@[i] {
                step matches DrainStep::More(actions) && actions@ == drain_round_actions()
            } else {
                step matches DrainStep::Last(actions) && actions@ == seq![DriverAction::Step]
            },
    {
        let mut actions: Vec<DriverAction> = Vec::new();
        if !begun {
            actions.push(DriverAction::WaitForIo);
            actions.push(DriverAction::StepIo);
            assert(actions@ =~= drain_first_actions());
            return DrainStep::More(actions);
        }
        let mut i: usize = 0;
        while i < finished.len()
            invariant
                i <= finished@.len(),
                begun,
                actions@.len() == 0,
                forall|j: int| 0 <= j < i ==> #[trigger] finished@[j],
            decreases finished@.len() - i,
        {
            if !finished[i] {
                actions.push(DriverAction::StepIo);
                actions.push(DriverAction::Step);
                actions.push(DriverAction::Yield);
                assert(actions@ =~= drain_round_actions());
                assert(!finished@[i as int]);
                return DrainStep::More(actions);
            }
            i = i + 1;
        }
        actions.push(DriverAction::Step);
        assert(actions@ =~= seq![DriverAction::Step]);
        DrainStep::Last(actions)
    }

    /// What waiting for a completion returns, once it is finished with `error` or without one.
    pub fn wait_for_completion(&self, error: Option<CompletionError>) -> (result: Result<
        (),
        LimboError,
    >)
        ensures
            result == match error {
                Some(error) => Err::<(), LimboError>(LimboError::CompletionError(error)),
                None => Ok::<(), LimboError>(()),
            },
    {
        match error {
            Some(error) => Err(LimboError::CompletionError(error)),
            None => Ok(()),
        }
    }
}

/// The actions accept nothing and begin nothing; the step of the owner of each sync is among what
/// they do, if they step requests; and nothing settled is left, if they end with a step of the
/// backend.
proof fn lemma_driver_events<F, C, W>(
    v: SyncQueueView<F, C, W>,
    ids: Seq<u64>,
    actions: Seq<DriverAction>,
)
    requires
        v.wf(),
    ensures
        ({
            let events = driver_events(v, ids, actions);
            let end = crate::sync_laws::run(v, events);
            &&& crate::sync_laws::numbered(v, events)
            &&& end.next_id == v.next_id
            &&& end.in_flight() == v.in_flight()
            &&& actions.contains(DriverAction::StepIo) ==> forall|i: int|
                0 <= i < ids.len() ==> events.contains(
                    SyncEvent::TakeResult { id: #[trigger] ids[i] },
                )
            &&& actions.len() > 0 && actions.last() == DriverAction::Step ==> end.pending.len()
                == v.in_flight()
        }),
    decreases actions.len(),
{
    if actions.len() > 0 {
        let action = actions[0];
        let first = action_events(v, ids, action);
        let next = crate::sync_laws::run(v, first);
        let others = actions.drop_first();
        let rest = driver_events(next, ids, others);
        let events = driver_events(v, ids, actions);
        match action {
            DriverAction::StepIo => {
                crate::sync_laws::lemma_owner_steps(v, ids);
            },
            DriverAction::Step => {
                crate::sync_laws::law_enough_steps_hand_out_all_settled_syncs(v, v.pending.len());
                crate::sync_laws::law_stepping_hands_out_all_settled_syncs(v);
                crate::sync_laws::lemma_ready_steps(v, v.pending.len());
            },
            _ => {},
        }
        crate::sync_laws::law_histories_keep_the_queue_well_formed(v, first);
        crate::sync_laws::lemma_history_parts(v, first, rest);
        lemma_driver_events(next, ids, others);
        if actions.contains(DriverAction::StepIo) {
            let k = choose|k: int| 0 <= k < actions.len() && actions[k] == DriverAction::StepIo;
            assert forall|i: int| 0 <= i < ids.len() implies events.contains(
                SyncEvent::TakeResult { id: #[trigger] ids[i] },
            ) by {
                let step = SyncEvent::<F, C, W>::TakeResult { id: ids[i] };
                if k == 0 {
                    assert(first[i] == step);
                    assert(events[i] == step);
                } else {
                    assert(others[k - 1] == DriverAction::StepIo);
                    assert(others.contains(DriverAction::StepIo));
                    let m = choose|m: int| 0 <= m < rest.len() && rest[m] == step;
                    assert(events[first.len() + m] == step);
                }
            }
        }
        if others.len() > 0 {
            assert(others.last() == actions.last());
        }
    }
}

/// Requests whose syncs are settled, because they were waited for, and which are stepped, leave no
/// sync of theirs in the queue: each one that was pending is handed out, and only once.
pub proof fn law_stepped_requests_leave_no_sync_behind<F, C, W>(
    v: SyncQueueView<F, C, W>,
    ids: Seq<u64>,
    actions: Seq<DriverAction>,
    i: int,
)
    requires
        v.wf(),
        forall|j: int| 0 <= j < ids.len() ==> v.settled(#[trigger] ids[j]),
        actions.contains(DriverAction::StepIo),
        0 <= i < ids.len(),
    ensures
        ({
            let events = driver_events(v, ids, actions);
            let out = crate::sync_laws::dispatches(v, events);
            &&& !crate::sync_laws::run(v, events).is_pending(ids[i])
            &&& crate::sync_laws::handed_out(out, ids[i]) <==> v.is_pending(ids[i])
            &&& crate::sync_laws::no_repeats(out)
        }),
{
    let events = driver_events(v, ids, actions);
    let end = crate::sync_laws::run(v, events);
    lemma_driver_events(v, ids, actions);
    crate::sync_laws::law_histories_keep_the_queue_well_formed(v, events);
    crate::sync_laws::law_nothing_is_lost_or_doubled(v, events, ids[i]);
    if ids[i] < v.next_id {
        crate::sync_laws::law_owner_step_dispatches_a_settled_sync(v, events, ids[i]);
    } else if end.is_pending(ids[i]) {
        crate::sync_laws::lemma_pending_below(end, ids[i]);
    } else if v.is_pending(ids[i]) {
        crate::sync_laws::lemma_pending_below(v, ids[i]);
    }
}

/// A cancellation waits for the syncs of its requests, and then takes each of them out of the
/// queue, once, aborted or not; of all syncs only those in flight are left.
pub proof fn law_cancelled_syncs_are_dispatched<F, C, W>(
    v: SyncQueueView<F, C, W>,
    ids: Seq<u64>,
    i: int,
)
    requires
        v.wf(),
        forall|j: int| 0 <= j < ids.len() ==> v.settled(#[trigger] ids[j]),
        0 <= i < ids.len(),
    ensures
        ({
            let events = driver_events(v, ids, cancel_actions());
            let end = crate::sync_laws::run(v, events);
            let out = crate::sync_laws::dispatches(v, events);
            &&& !end.is_pending(ids[i])
            &&& crate::sync_laws::handed_out(out, ids[i]) <==> v.is_pending(ids[i])
            &&& crate::sync_laws::no_repeats(out)
            &&& end.pending.len() == v.in_flight()
        }),
{
    assert(cancel_actions()[2] == DriverAction::StepIo);
    lemma_driver_events(v, ids, cancel_actions());
    law_stepped_requests_leave_no_sync_behind(v, ids, cancel_actions(), i);
}

/// Draining waits for the syncs of its requests, and then takes each of them out of the queue,
/// once, however many rounds it takes; of all syncs only those in flight are left.
pub proof fn law_drained_syncs_are_dispatched<F, C, W>(
    v: SyncQueueView<F, C, W>,
    ids: Seq<u64>,
    rounds: nat,
    i: int,
)
    requires
        v.wf(),
        forall|j: int| 0 <= j < ids.len() ==> v.settled(#[trigger] ids[j]),
        0 <= i < ids.len(),
    ensures
        ({
            let events = driver_events(v, ids, drain_actions(rounds));
            let end = crate::sync_laws::run(v, events);
            let out = crate::sync_laws::dispatches(v, events);
            &&& !end.is_pending(ids[i])
            &&& crate::sync_laws::handed_out(out, ids[i]) <==> v.is_pending(ids[i])
            &&& crate::sync_laws::no_repeats(out)
            &&& end.pending.len() == v.in_flight()
        }),
{
    assert(drain_actions(rounds)[1] == DriverAction::StepIo);
    lemma_driver_events(v, ids, drain_actions(rounds));
    law_stepped_requests_leave_no_sync_behind(v, ids, drain_actions(rounds), i);
}

/// A shutdown, once its worker has performed everything, dispatches every accepted sync, once,
/// and leaves the queue empty; whatever comes later, it stays empty, and hands out nothing.
pub proof fn law_shutdown_leaves_the_queue_empty<F, C, W>(
    v: SyncQueueView<F, C, W>,
    later: Seq<SyncEvent<F, C, W>>,
    id: u64,
)
    requires
        v.wf(),
        !v.open,
        v.in_flight() == 0,
    ensures
        ({
            let events = driver_events(v, Seq::empty(), shutdown_actions());
            let end = crate::sync_laws::run(v, events);
            let out = crate::sync_laws::dispatches(v, events);
            &&& end.pending.len() == 0
            &&& crate::sync_laws::handed_out(out, id) <==> v.is_pending(id)
            &&& crate::sync_laws::no_repeats(out)
            &&& crate::sync_laws::run(end, later).pending.len() == 0
            &&& crate::sync_laws::dispatches(end, later).len() == 0
        }),
{
    let events = driver_events(v, Seq::empty(), shutdown_actions());
    let end = crate::sync_laws::run(v, events);
    lemma_driver_events(v, Seq::empty(), shutdown_actions());
    crate::sync_laws::law_histories_keep_the_queue_well_formed(v, events);
    crate::sync_laws::law_closed_queue_accepts_nothing(v, events);
    crate::sync_laws::law_nothing_is_lost_or_doubled(v, events, id);
    crate::sync_laws::law_closed_queue_accepts_nothing(end, later);
    crate::sync_laws::law_refusing_queues_need_no_numbers(end, later);
    let last = crate::sync_laws::run(end, later);
    let out = crate::sync_laws::dispatches(end, later);
    if last.pending.len() > 0 {
        let other = last.pending[0].id;
        assert(last.is_pending(other));
        crate::sync_laws::law_nothing_is_lost_or_doubled(end, later, other);
    }
    if out.len() > 0 {
        let other = out[0].id;
        assert(crate::sync_laws::handed_out(out, other));
        crate::sync_laws::law_nothing_is_lost_or_doubled(end, later, other);
    }
}

/// A file that is only read is never written, created or locked, whatever else is asked for.
pub proof fn law_read_only_files_are_left_alone(flags: OpenFlags, lock_disabled: bool)
    requires
        flags.read_only,
    ensures
        open_plan(flags, lock_disabled) == (OpenPlan {
            read: true,
            write: false,
            create: false,
            lock: None,
        }),
{
}

/// A file is locked exclusively whenever it can be written, unless the flags or the environment
/// say otherwise.
pub proof fn law_writable_files_are_locked(flags: OpenFlags)
    requires
        !flags.no_lock,
    ensures
        open_plan(flags, false).write <==> open_plan(flags, false).lock == Some(
            FlockOperation::NonBlockingLockExclusive,
        ),
        open_plan(flags, true).lock is None,
{
}

/// A file that is opened with the flag against locks is never locked, whatever else is asked for.
pub proof fn law_no_lock_files_are_never_locked(flags: OpenFlags, lock_disabled: bool)
    requires
        flags.no_lock,
    ensures
        open_plan(flags, lock_disabled).lock is None,
{
}

/// Each thing that is done to open a file depends on the flags for it alone: it is always read, it
/// is written unless it is only read, it is created if that is asked for and it is written, and it
/// is locked exclusively unless it is only read, or locks are ruled out for it or for all files.
pub proof fn law_files_are_opened_as_the_flags_say(flags: OpenFlags, lock_disabled: bool)
    ensures
        ({
            let plan = open_plan(flags, lock_disabled);
            &&& plan.read
            &&& plan.write <==> !flags.read_only
            &&& plan.create <==> flags.create && plan.write
            &&& plan.lock is Some <==> !flags.read_only && !flags.no_lock && !lock_disabled
            &&& plan.lock is Some ==> plan.lock->0 == FlockOperation::NonBlockingLockExclusive
        }),
{
}

/// Both actions are among `actions`, and the first one never comes after the second one.
pub open spec fn comes_before(
    actions: Seq<DriverAction>,
    first: DriverAction,
    second: DriverAction,
) -> bool {
    &&& actions.contains(first)
    &&& actions.contains(second)
    &&& forall|i: int, j: int|
        0 <= i < actions.len() && 0 <= j < actions.len() && #[trigger] actions[i] == first
            && #[trigger] actions[j] == second ==> i < j
}

/// A cancellation waits for what is on its way before it aborts anything, aborts before it
/// dispatches, and ends with a step of the backend.
pub proof fn law_cancellation_waits_before_it_aborts()
    ensures
        comes_before(cancel_actions(), DriverAction::WaitForIo, DriverAction::Abort),
        comes_before(cancel_actions(), DriverAction::Abort, DriverAction::StepIo),
        comes_before(cancel_actions(), DriverAction::StepIo, DriverAction::Step),
        cancel_actions().last() == DriverAction::Step,
{
    let actions = cancel_actions();
    assert(actions[0] == DriverAction::WaitForIo);
    assert(actions[1] == DriverAction::Abort);
    assert(actions[2] == DriverAction::StepIo);
    assert(actions[3] == DriverAction::Step);
}

/// The rounds of draining neither wait for I/O nor abort anything.
proof fn lemma_drain_rounds(rounds: nat)
    ensures
        !drain_rounds(rounds).contains(DriverAction::WaitForIo),
        !drain_rounds(rounds).contains(DriverAction::Abort),
        drain_rounds(rounds).len() == 3 * rounds,
    decreases rounds,
{
    if rounds > 0 {
        let rest = drain_rounds((rounds - 1) as nat);
        lemma_drain_rounds((rounds - 1) as nat);
        assert forall|i: int| 0 <= i < drain_rounds(rounds).len() implies {
            &&& #[trigger] drain_rounds(rounds)[i] != DriverAction::WaitForIo
            &&& drain_rounds(rounds)[i] != DriverAction::Abort
        } by {
            if i >= 3 {
                assert(drain_rounds(rounds)[i] == rest[i - 3]);
                assert(rest.contains(rest[i - 3]));
            }
        }
    }
}

/// Draining waits for what is on its way before it dispatches anything, aborts nothing, and ends
/// with a step of the backend, however many rounds it takes. Each round dispatches the requests,
/// steps the backend, and then lets others run.
pub proof fn law_draining_waits_and_aborts_nothing(rounds: nat)
    ensures
        comes_before(drain_actions(rounds), DriverAction::WaitForIo, DriverAction::StepIo),
        comes_before(drain_actions(rounds), DriverAction::WaitForIo, DriverAction::Step),
        !drain_actions(rounds).contains(DriverAction::Abort),
        drain_actions(rounds).last() == DriverAction::Step,
        comes_before(drain_round_actions(), DriverAction::StepIo, DriverAction::Step),
        comes_before(drain_round_actions(), DriverAction::Step, DriverAction::Yield),
{
    let actions = drain_actions(rounds);
    let middle = drain_rounds(rounds);
    lemma_drain_rounds(rounds);
    assert(actions[0] == DriverAction::WaitForIo);
    assert(actions[1] == DriverAction::StepIo);
    assert(actions[actions.len() - 1] == DriverAction::Step);
    assert forall|i: int| 0 < i < actions.len() implies #[trigger] actions[i]
        != DriverAction::WaitForIo && actions[i] != DriverAction::Abort by {
        if 2 <= i < actions.len() - 1 {
            assert(actions[i] == middle[i - 2]);
            assert(middle.contains(middle[i - 2]));
        }
    }
    let round = drain_round_actions();
    assert(round[0] == DriverAction::StepIo);
    assert(round[1] == DriverAction::Step);
    assert(round[2] == DriverAction::Yield);
}

} // verus!
