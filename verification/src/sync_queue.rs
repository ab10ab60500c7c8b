//! The queue between those who ask for a file sync and the one worker that performs it.
//!
//! A sync is accepted, performed by the worker in the order of acceptance, and then dispatched:
//! its completion is handed out together with the outcome. A sync is settled once its outcome is
//! known. A second worker wakes whoever asked for a sync once it is settled.
//!
//! `F` is a handle of the file, `C` the completion of a request, `W` what is woken.

use crate::error::{io_error, CompletionError, ErrorKind, LimboError};
use std::collections::VecDeque;
use vstd::prelude::*;

verus! {

/// How thoroughly a file is synced.
#[derive(Clone, Copy, Debug, PartialEq, Eq, Structural)]
pub enum FileSyncType {
    Fsync,
    FullFsync,
}

/// A sync that the worker is to perform.
#[derive(Debug, PartialEq, Eq)]
pub struct SyncJob<F> {
    pub file: F,
    pub sync_type: FileSyncType,
    pub id: u64,
}

/// The outcome of a sync, once it has one.
#[derive(Clone, Copy, Debug, PartialEq, Eq)]
pub struct SyncResult {
    pub value: Option<Result<(), CompletionError>>,
}

/// A sync that was accepted and is not dispatched yet, with its outcome once it has one.
#[derive(Debug, PartialEq, Eq)]
pub struct PendingSync<C> {
    pub completion: C,
    pub id: u64,
    pub result: SyncResult,
}

/// Who is to be woken when a sync is settled.
#[derive(Debug, PartialEq, Eq)]
pub struct SyncNotification<W> {
    pub context: W,
    pub id: u64,
}

/// A settled sync: the completion of the request, and what it is to be completed with.
#[derive(Debug, PartialEq, Eq)]
pub struct Dispatch<C> {
    pub completion: C,
    pub id: u64,
    pub outcome: Result<i32, CompletionError>,
}

/// What the worker does next.
#[derive(Debug, PartialEq, Eq)]
pub enum JobStep<F> {
    /// Perform this sync and hand its outcome to `SyncQueue::finish`.
    Run(SyncJob<F>),
    /// Wait until something changes.
    Wait,
    /// Nothing will come any more.
    Stop,
}

/// What the second worker does next.
#[derive(Debug, PartialEq, Eq)]
pub enum WakeStep<W> {
    /// Wake this.
    Wake(W),
    /// Wait until something changes.
    Wait,
    /// Nothing will come any more.
    Stop,
}

/// The state of the queue.
#[verifier::ext_equal]
pub struct SyncQueueView<F, C, W> {
    /// New syncs are accepted.
    pub open: bool,
    /// The worker is there.
    pub worker_running: bool,
    /// How many syncs were accepted; they are numbered from zero.
    pub next_id: u64,
    /// Syncs that the worker has not begun.
    pub jobs: Seq<SyncJob<F>>,
    /// The sync that the worker is performing.
    pub active: Option<u64>,
    /// Syncs that are not dispatched.
    pub pending: Seq<PendingSync<C>>,
    /// Wakes that are due when their sync is settled.
    pub notifications: Seq<SyncNotification<W>>,
}

/// The index of the first entry that has an outcome, or the length of the list.
pub open spec fn first_ready<C>(pending: Seq<PendingSync<C>>) -> int
    decreases pending.len(),
{
    if pending.len() == 0 || pending[0].result.value is Some {
        0
    } else {
        1 + first_ready(pending.drop_first())
    }
}

/// The index of the entry of the sync `id`, or the length of the list.
pub open spec fn entry_of<C>(pending: Seq<PendingSync<C>>, id: u64) -> int
    decreases pending.len(),
{
    if pending.len() == 0 || pending[0].id == id {
        0
    } else {
        1 + entry_of(pending.drop_first(), id)
    }
}

/// An entry with its outcome recorded, if it is that of the sync `id`.
pub open spec fn recorded<C>(
    entry: PendingSync<C>,
    id: u64,
    outcome: Result<(), CompletionError>,
) -> PendingSync<C> {
    if entry.id == id {
        PendingSync { result: SyncResult { value: Some(outcome) }, ..entry }
    } else {
        entry
    }
}

/// The outcome of a sync that no worker will perform.
pub open spec fn abandoned() -> Result<(), CompletionError> {
    Err(CompletionError::IOError(ErrorKind::BrokenPipe, "sync worker stopped"))
}

impl SyncResult {
    /// The outcome, or that of an abandoned sync where there is none.
    pub open spec fn retired(self) -> SyncResult {
        match self.value {
            Some(_) => self,
            None => SyncResult { value: Some(abandoned()) },
        }
    }

    /// No outcome yet.
    pub fn new() -> (result: Self)
        ensures
            result.value is None,
    {
        SyncResult { value: None }
    }

    /// The sync was performed, with this outcome.
    pub fn record(&mut self, outcome: Result<(), CompletionError>)
        ensures
            final(self).value == Some(outcome),
    {
        self.value = Some(outcome);
    }

    /// Nobody works on the sync any more: where it has no outcome, it is abandoned.
    pub fn retire(&mut self)
        ensures
            *final(self) == old(self).retired(),
    {
        if self.value.is_none() {
            self.value = Some(
                Err(CompletionError::IOError(ErrorKind::BrokenPipe, "sync worker stopped")),
            );
        }
    }

    /// The outcome, which stays there for whoever asks next. Without one there is nothing to
    /// return yet, and whoever waits asks again when something has changed.
    pub fn wait(&self) -> (outcome: Option<Result<(), CompletionError>>)
        ensures
            outcome == self.value,
    {
        self.value
    }

    /// There is an outcome.
    pub fn finished(&self) -> (finished: bool)
        ensures
            finished == (self.value is Some),
    {
        self.value.is_some()
    }
}

/// An entry that has an outcome in any case.
pub open spec fn retired_entry<C>(entry: PendingSync<C>) -> PendingSync<C> {
    PendingSync { result: entry.result.retired(), ..entry }
}

/// The outcome that a completion is given for an outcome of the worker.
pub open spec fn completed_with(result: Result<(), CompletionError>) -> Result<
    i32,
    CompletionError,
> {
    match result {
        Ok(_) => Ok(0i32),
        Err(error) => Err(error),
    }
}

/// What the completion of an entry is completed with.
pub open spec fn dispatch_of<C>(entry: PendingSync<C>) -> Dispatch<C>
    recommends
        entry.result.value is Some,
{
    Dispatch {
        completion: entry.completion,
        id: entry.id,
        outcome: completed_with(entry.result.value->0),
    }
}

impl<F, C, W> SyncQueueView<F, C, W> {
    /// How many syncs are accepted and not settled.
    pub open spec fn in_flight(self) -> int {
        self.jobs.len() + if self.active is Some {
            1int
        } else {
            0int
        }
    }

    /// How many syncs are settled. They are the first ones.
    pub open spec fn settled_count(self) -> int {
        self.next_id - self.in_flight()
    }

    /// Nothing is outstanding for `id`: its outcome is known, or it was never accepted.
    pub open spec fn settled(self, id: u64) -> bool {
        id < self.settled_count() || id >= self.next_id
    }

    /// The sync `id` is accepted and not dispatched.
    pub open spec fn is_pending(self, id: u64) -> bool {
        exists|i: int| 0 <= i < self.pending.len() && (#[trigger] self.pending[i]).id == id
    }

    /// The worker takes syncs in the order of acceptance, so those in flight are the last ones;
    /// each of them is pending, and a pending sync has an outcome exactly if it is not in
    /// flight; there is a wake for each sync that is not settled.
    pub open spec fn wf(self) -> bool {
        &&& self.in_flight() <= self.next_id
        &&& self.active is Some ==> self.active->0 == self.settled_count()
        &&& forall|i: int|
            0 <= i < self.jobs.len() ==> (#[trigger] self.jobs[i]).id == self.next_id
                - self.jobs.len() + i
        &&& !self.worker_running ==> self.in_flight() == 0
        &&& self.in_flight() <= self.pending.len()
        &&& forall|i: int|
            self.pending.len() - self.in_flight() <= i < self.pending.len() ==> (
            #[trigger] self.pending[i]).id == self.next_id - self.pending.len() + i
        &&& forall|i: int|
            0 <= i < self.pending.len() ==> (#[trigger] self.pending[i]).id < self.next_id
        &&& forall|i: int, j: int|
            0 <= i < j < self.pending.len() ==> (#[trigger] self.pending[i]).id < (
            #[trigger] self.pending[j]).id
        &&& forall|i: int|
            0 <= i < self.pending.len() ==> ((#[trigger] self.pending[i]).result.value is Some <==> i
                < self.pending.len() - self.in_flight())
        &&& self.in_flight() <= self.notifications.len() <= self.next_id
        &&& forall|i: int|
            0 <= i < self.notifications.len() ==> (#[trigger] self.notifications[i]).id
                == self.next_id - self.notifications.len() + i
    }

    /// The queue before anything was accepted.
    pub open spec fn fresh() -> Self {
        SyncQueueView {
            open: true,
            worker_running: true,
            next_id: 0,
            jobs: Seq::empty(),
            active: None,
            pending: Seq::empty(),
            notifications: Seq::empty(),
        }
    }

    /// Where a sync would be accepted, there is a number for it.
    pub open spec fn has_number(self) -> bool {
        self.open && self.worker_running ==> self.next_id < u64::MAX
    }

    /// A sync is accepted: it goes behind all others.
    pub open spec fn submitted(
        self,
        completion: C,
        file: F,
        sync_type: FileSyncType,
        context: W,
    ) -> Self {
        if self.open && self.worker_running {
            SyncQueueView {
                next_id: (self.next_id + 1) as u64,
                jobs: self.jobs.push(SyncJob { file, sync_type, id: self.next_id }),
                pending: self.pending.push(
                    PendingSync { completion, id: self.next_id, result: SyncResult { value: None } },
                ),
                notifications: self.notifications.push(
                    SyncNotification { context, id: self.next_id },
                ),
                ..self
            }
        } else {
            self
        }
    }

    /// The answer to a submission: the number of the sync, or why it is refused.
    pub open spec fn submit_answer(self) -> Result<u64, LimboError> {
        if !self.open {
            Err(submit_error("sync IO stopped"))
        } else if !self.worker_running {
            Err(submit_error("submit sync"))
        } else {
            Ok(self.next_id)
        }
    }

    /// What the worker does next.
    pub open spec fn job_step(self) -> JobStep<F> {
        if self.has_job() {
            JobStep::Run(self.jobs[0])
        } else if self.in_flight() == 0 && !(self.open && self.worker_running) {
            JobStep::Stop
        } else {
            JobStep::Wait
        }
    }

    /// What the second worker does next.
    pub open spec fn wake_step(self) -> WakeStep<W> {
        if self.wake_due() {
            WakeStep::Wake(self.notifications[0].context)
        } else if self.notifications.len() == 0 && !self.open {
            WakeStep::Stop
        } else {
            WakeStep::Wait
        }
    }

    /// The worker is free and there is a sync to perform.
    pub open spec fn has_job(self) -> bool {
        self.active is None && self.jobs.len() > 0
    }

    /// The worker begins with the oldest sync.
    pub open spec fn job_taken(self) -> Self {
        if self.has_job() {
            SyncQueueView {
                jobs: self.jobs.drop_first(),
                active: Some(self.jobs[0].id),
                ..self
            }
        } else {
            self
        }
    }

    /// The worker has performed the sync `id`.
    pub open spec fn job_finished(self, id: u64, outcome: Result<(), CompletionError>) -> Self {
        if self.active == Some(id) {
            SyncQueueView {
                active: None,
                pending: self.pending.map_values(
                    |entry: PendingSync<C>| recorded(entry, id, outcome),
                ),
                ..self
            }
        } else {
            self
        }
    }

    /// The worker is gone: what it has not performed, nobody will.
    pub open spec fn worker_gone(self) -> Self {
        SyncQueueView {
            worker_running: false,
            jobs: Seq::empty(),
            active: None,
            pending: self.pending.map_values(|entry: PendingSync<C>| retired_entry(entry)),
            ..self
        }
    }

    /// The entry `i` is dispatched.
    pub open spec fn dispatched(self, i: int) -> Self {
        SyncQueueView { pending: self.pending.remove(i), ..self }
    }

    /// The settled sync that comes next is dispatched, where there is one.
    pub open spec fn stepped(self) -> Self {
        let i = first_ready(self.pending);
        if i < self.pending.len() {
            self.dispatched(i)
        } else {
            self
        }
    }

    /// What that step hands out.
    pub open spec fn step_dispatch(self) -> Option<Dispatch<C>> {
        let i = first_ready(self.pending);
        if i < self.pending.len() {
            Some(dispatch_of(self.pending[i]))
        } else {
            None
        }
    }

    /// The sync `id` can be dispatched: it is settled, and still pending.
    pub open spec fn is_ready(self, id: u64) -> bool {
        let i = entry_of(self.pending, id);
        i < self.pending.len() && self.pending[i].result.value is Some
    }

    /// The sync `id` is dispatched, where it can be.
    pub open spec fn owner_stepped(self, id: u64) -> Self {
        if self.is_ready(id) {
            self.dispatched(entry_of(self.pending, id))
        } else {
            self
        }
    }

    /// What that step hands out.
    pub open spec fn owner_dispatch(self, id: u64) -> Option<Dispatch<C>> {
        if self.is_ready(id) {
            Some(dispatch_of(self.pending[entry_of(self.pending, id)]))
        } else {
            None
        }
    }

    /// Nothing more is accepted.
    pub open spec fn closed(self) -> Self {
        SyncQueueView { open: false, ..self }
    }

    /// The next wake is due.
    pub open spec fn wake_due(self) -> bool {
        self.notifications.len() > 0 && self.settled(self.notifications[0].id)
    }

    /// The next wake is performed, where it is due.
    pub open spec fn woken(self) -> Self {
        if self.wake_due() {
            SyncQueueView { notifications: self.notifications.drop_first(), ..self }
        } else {
            self
        }
    }
}

proof fn lemma_first_ready<C>(pending: Seq<PendingSync<C>>, i: int)
    requires
        0 <= i <= pending.len(),
        forall|j: int| 0 <= j < i ==> (#[trigger] pending[j]).result.value is None,
        i < pending.len() ==> pending[i].result.value is Some,
    ensures
        first_ready(pending) == i,
    decreases pending.len(),
{
    if i > 0 {
        assert(pending[0].result.value is None);
        let rest = pending.drop_first();
        assert forall|j: int| 0 <= j < i - 1 implies (#[trigger] rest[j]).result.value is None by {
            assert(rest[j] == pending[j + 1]);
        }
        lemma_first_ready(rest, i - 1);
    }
}

/// The first entry with an outcome has one, and none before it has.
pub(crate) proof fn lemma_first_ready_is_first<C>(pending: Seq<PendingSync<C>>)
    ensures
        0 <= first_ready(pending) <= pending.len(),
        forall|j: int|
            0 <= j < first_ready(pending) ==> (#[trigger] pending[j]).result.value is None,
        first_ready(pending) < pending.len() ==> pending[first_ready(pending)].result.value is Some,
    decreases pending.len(),
{
    if pending.len() > 0 && pending[0].result.value is None {
        let rest = pending.drop_first();
        lemma_first_ready_is_first(rest);
        assert forall|j: int| 0 <= j < first_ready(pending) implies (
        #[trigger] pending[j]).result.value is None by {
            if j > 0 {
                assert(pending[j] == rest[j - 1]);
            }
        }
    }
}

proof fn lemma_entry_of<C>(pending: Seq<PendingSync<C>>, id: u64, i: int)
    requires
        0 <= i <= pending.len(),
        forall|j: int| 0 <= j < i ==> (#[trigger] pending[j]).id != id,
        i < pending.len() ==> pending[i].id == id,
    ensures
        entry_of(pending, id) == i,
    decreases pending.len(),
{
    if i > 0 {
        assert(pending[0].id != id);
        let rest = pending.drop_first();
        assert forall|j: int| 0 <= j < i - 1 implies (#[trigger] rest[j]).id != id by {
            assert(rest[j] == pending[j + 1]);
        }
        lemma_entry_of(rest, id, i - 1);
    }
}

/// The entry of a sync is the first one with its number, where there is one.
pub(crate) proof fn lemma_entry_of_is_entry<C>(pending: Seq<PendingSync<C>>, id: u64)
    ensures
        0 <= entry_of(pending, id) <= pending.len(),
        forall|j: int| 0 <= j < entry_of(pending, id) ==> (#[trigger] pending[j]).id != id,
        entry_of(pending, id) < pending.len() ==> pending[entry_of(pending, id)].id == id,
    decreases pending.len(),
{
    if pending.len() > 0 && pending[0].id != id {
        let rest = pending.drop_first();
        lemma_entry_of_is_entry(rest, id);
        assert forall|j: int| 0 <= j < entry_of(pending, id) implies (
        #[trigger] pending[j]).id != id by {
            if j > 0 {
                assert(pending[j] == rest[j - 1]);
            }
        }
    }
}

impl<F, C, W> SyncQueueView<F, C, W> {
    /// Accepting a sync keeps the queue well formed.
    pub(crate) proof fn lemma_submitted_wf(
        self,
        completion: C,
        file: F,
        sync_type: FileSyncType,
        context: W,
    )
        requires
            self.wf(),
            self.has_number(),
        ensures
            self.submitted(completion, file, sync_type, context).wf(),
    {
    }

    /// Beginning with a sync keeps the queue well formed, and settles nothing.
    pub(crate) proof fn lemma_job_taken_wf(self)
        requires
            self.wf(),
        ensures
            self.job_taken().wf(),
            self.job_taken().in_flight() == self.in_flight(),
    {
    }

    /// Recording an outcome keeps the queue well formed.
    pub(crate) proof fn lemma_job_finished_wf(self, id: u64, outcome: Result<(), CompletionError>)
        requires
            self.wf(),
        ensures
            self.job_finished(id, outcome).wf(),
    {
        if self.active == Some(id) {
            let next = self.job_finished(id, outcome);
            let t = self.pending.len() - self.in_flight();
            assert(self.pending[t].id == id);
            assert forall|i: int| 0 <= i < next.pending.len() implies ((
            #[trigger] next.pending[i]).result.value is Some <==> i < next.pending.len()
                - next.in_flight()) by {
                if i < t {
                    assert(self.pending[i].id < self.pending[t].id);
                } else if i > t {
                    assert(self.pending[t].id < self.pending[i].id);
                }
            }
        }
    }

    /// Losing the worker keeps the queue well formed.
    pub(crate) proof fn lemma_worker_gone_wf(self)
        requires
            self.wf(),
        ensures
            self.worker_gone().wf(),
    {
    }

    /// Taking out an entry that has an outcome keeps the queue well formed.
    pub(crate) proof fn lemma_dispatched_wf(self, i: int)
        requires
            self.wf(),
            0 <= i < self.pending.len(),
            self.pending[i].result.value is Some,
        ensures
            self.dispatched(i).wf(),
    {
    }

    /// A step keeps the queue well formed.
    pub(crate) proof fn lemma_stepped_wf(self)
        requires
            self.wf(),
        ensures
            self.stepped().wf(),
    {
        lemma_first_ready_is_first(self.pending);
        if first_ready(self.pending) < self.pending.len() {
            self.lemma_dispatched_wf(first_ready(self.pending));
        }
    }

    /// A step of an owner keeps the queue well formed.
    pub(crate) proof fn lemma_owner_stepped_wf(self, id: u64)
        requires
            self.wf(),
        ensures
            self.owner_stepped(id).wf(),
    {
        lemma_entry_of_is_entry(self.pending, id);
        if self.is_ready(id) {
            self.lemma_dispatched_wf(entry_of(self.pending, id));
        }
    }

    /// A wake keeps the queue well formed.
    pub(crate) proof fn lemma_woken_wf(self)
        requires
            self.wf(),
        ensures
            self.woken().wf(),
    {
    }

    /// A sync is not settled exactly if it is pending without an outcome.
    pub(crate) proof fn lemma_unsettled_is_pending(self, id: u64)
        requires
            self.wf(),
        ensures
            !self.settled(id) <==> {
                let i = entry_of(self.pending, id);
                i < self.pending.len() && self.pending[i].result.value is None
            },
    {
        lemma_entry_of_is_entry(self.pending, id);
        if !self.settled(id) {
            let i = id - self.next_id + self.pending.len();
            assert(self.pending[i].id == id);
            if entry_of(self.pending, id) < i {
                assert(self.pending[entry_of(self.pending, id)].id < self.pending[i].id);
            }
        }
    }
}

/// The queue.
pub struct SyncQueue<F, C, W> {
    open: bool,
    worker_running: bool,
    next_id: u64,
    jobs: VecDeque<SyncJob<F>>,
    active: Option<u64>,
    pending: Vec<PendingSync<C>>,
    notifications: VecDeque<SyncNotification<W>>,
}

impl<F, C, W> View for SyncQueue<F, C, W> {
    type V = SyncQueueView<F, C, W>;

    closed spec fn view(&self) -> SyncQueueView<F, C, W> {
        SyncQueueView {
            open: self.open,
            worker_running: self.worker_running,
            next_id: self.next_id,
            jobs: self.jobs@,
            active: self.active,
            pending: self.pending@,
            notifications: self.notifications@,
        }
    }
}

/// The error of a sync that could not be submitted.
pub open spec fn submit_error(reason: &'static str) -> LimboError {
    LimboError::CompletionError(CompletionError::IOError(ErrorKind::BrokenPipe, reason))
}

impl<F, C, W> SyncQueue<F, C, W> {
    /// An open queue with its worker and nothing in it.
    pub fn new() -> (queue: Self)
        ensures
            queue@ == SyncQueueView::<F, C, W>::fresh(),
            queue@.wf(),
    {
        SyncQueue {
            open: true,
            worker_running: true,
            next_id: 0,
            jobs: VecDeque::new(),
            active: None,
            pending: Vec::new(),
            notifications: VecDeque::new(),
        }
    }

    /// Accepts a sync and returns its number, or refuses it and changes nothing.
    pub fn submit(&mut self, completion: C, file: F, sync_type: FileSyncType, context: W) -> (id:
        Result<u64, LimboError>)
        requires
            old(self)@.wf(),
            old(self)@.has_number(),
        ensures
            final(self)@.wf(),
            final(self)@ == old(self)@.submitted(completion, file, sync_type, context),
            id == if !old(self)@.open {
                Err::<u64, LimboError>(submit_error("sync IO stopped"))
            } else if !old(self)@.worker_running {
                Err::<u64, LimboError>(submit_error("submit sync"))
            } else {
                Ok::<u64, LimboError>(old(self)@.next_id)
            },
            id == old(self)@.submit_answer(),
            id is Err ==> final(self)@ == old(self)@,
            id matches Ok(n) ==> {
                &&& n == old(self)@.next_id
                &&& final(self)@.next_id == n + 1
                &&& final(self)@.jobs == old(self)@.jobs.push(SyncJob { file, sync_type, id: n })
                &&& final(self)@.notifications == old(self)@.notifications.push(
                    SyncNotification { context, id: n },
                )
                &&& final(self)@.pending == old(self)@.pending.push(
                    PendingSync { completion, id: n, result: SyncResult { value: None } },
                )
            },
    {
        if !self.open {
            return Err(io_error(ErrorKind::BrokenPipe, "sync IO stopped"));
        }
        if !self.worker_running {
            return Err(io_error(ErrorKind::BrokenPipe, "submit sync"));
        }
        proof {
            self@.lemma_submitted_wf(completion, file, sync_type, context);
        }
        let id: u64 = self.next_id;
        self.next_id = id + 1;
        self.jobs.push_back(SyncJob { file, sync_type, id });
        self.pending.push(PendingSync { completion, id, result: SyncResult::new() });
        self.notifications.push_back(SyncNotification { context, id });
        Ok(id)
    }

    /// What the worker does next: it performs the syncs in the order in which they were
    /// accepted, and stops when the queue is closed and all are performed.
    pub fn take_job(&mut self) -> (step: JobStep<F>)
        requires
            old(self)@.wf(),
        ensures
            final(self)@.wf(),
            final(self)@ == old(self)@.job_taken(),
            step == if old(self)@.has_job() {
                JobStep::Run(old(self)@.jobs[0])
            } else if old(self)@.in_flight() == 0 && !(old(self)@.open
                && old(self)@.worker_running) {
                JobStep::Stop
            } else {
                JobStep::Wait
            },
            step == old(self)@.job_step(),
    {
        proof {
            self@.lemma_job_taken_wf();
        }
        if self.active.is_some() {
            return JobStep::Wait;
        }
        match self.jobs.pop_front() {
            Some(job) => {
                self.active = Some(job.id);
                assert(self@.jobs =~= old(self)@.jobs.drop_first());
                JobStep::Run(job)
            },
            None => {
                if self.open && self.worker_running {
                    JobStep::Wait
                } else {
                    JobStep::Stop
                }
            },
        }
    }

    /// Records the outcome of the sync that the worker was performing, and returns whether it
    /// was `id`. If not, nothing changes.
    pub fn finish(&mut self, id: u64, outcome: Result<(), CompletionError>) -> (recorded: bool)
        requires
            old(self)@.wf(),
        ensures
            final(self)@.wf(),
            final(self)@ == old(self)@.job_finished(id, outcome),
            recorded == (old(self)@.active == Some(id)),
    {
        proof {
            self@.lemma_job_finished_wf(id, outcome);
        }
        match self.active {
            Some(active) => {
                if active != id {
                    return false;
                }
            },
            None => {
                return false;
            },
        }
        self.active = None;
        let n: usize = self.pending.len();
        let mut i: usize = 0;
        while i < n
            invariant
                i <= n,
                n == self.pending@.len(),
                n == old(self)@.pending.len(),
                self.open == old(self).open,
                self.worker_running == old(self).worker_running,
                self.next_id == old(self).next_id,
                self.jobs == old(self).jobs,
                self.active is None,
                self.notifications == old(self).notifications,
                forall|j: int|
                    0 <= j < i ==> #[trigger] self.pending@[j] == recorded(
                        old(self)@.pending[j],
                        id,
                        outcome,
                    ),
                forall|j: int|
                    i <= j < n ==> #[trigger] self.pending@[j] == old(self)@.pending[j],
            decreases n - i,
        {
            if self.pending[i].id == id {
                self.pending[i].result.record(outcome);
            }
            i = i + 1;
        }
        assert(self@.pending =~= old(self)@.job_finished(id, outcome).pending);
        true
    }

    /// The worker is gone. The syncs that it has not performed are settled with an error, and
    /// none is accepted any more.
    pub fn stop_worker(&mut self)
        requires
            old(self)@.wf(),
        ensures
            final(self)@.wf(),
            final(self)@ == old(self)@.worker_gone(),
    {
        proof {
            self@.lemma_worker_gone_wf();
        }
        self.worker_running = false;
        self.jobs.clear();
        self.active = None;
        let n: usize = self.pending.len();
        let mut i: usize = 0;
        while i < n
            invariant
                i <= n,
                n == self.pending@.len(),
                n == old(self)@.pending.len(),
                self.open == old(self).open,
                !self.worker_running,
                self.next_id == old(self).next_id,
                self.jobs@ == Seq::<SyncJob<F>>::empty(),
                self.active is None,
                self.notifications == old(self).notifications,
                forall|j: int|
                    0 <= j < i ==> #[trigger] self.pending@[j] == retired_entry(
                        old(self)@.pending[j],
                    ),
                forall|j: int|
                    i <= j < n ==> #[trigger] self.pending@[j] == old(self)@.pending[j],
            decreases n - i,
        {
            self.pending[i].result.retire();
            i = i + 1;
        }
        assert(self@.pending =~= old(self)@.worker_gone().pending);
    }

    fn dispatch(&mut self, index: usize) -> (dispatch: Dispatch<C>)
        requires
            old(self)@.wf(),
            index < old(self)@.pending.len(),
            old(self)@.pending[index as int].result.value is Some,
        ensures
            final(self)@.wf(),
            final(self)@ == old(self)@.dispatched(index as int),
            dispatch == dispatch_of(old(self)@.pending[index as int]),
    {
        proof {
            self@.lemma_dispatched_wf(index as int);
        }
        let entry: PendingSync<C> = self.pending.remove(index);
        let outcome: Result<i32, CompletionError> = match entry.result.wait() {
            Some(Err(error)) => Err(error),
            _ => Ok(0),
        };
        Dispatch { completion: entry.completion, id: entry.id, outcome }
    }

    /// Takes the first settled sync out of the queue, where there is one, for its completion to
    /// be completed.
    pub fn take_ready(&mut self) -> (dispatch: Option<Dispatch<C>>)
        requires
            old(self)@.wf(),
        ensures
            final(self)@.wf(),
            final(self)@ == old(self)@.stepped(),
            dispatch == old(self)@.step_dispatch(),
    {
        let mut i: usize = 0;
        while i < self.pending.len()
            invariant
                i <= self.pending@.len(),
                *self == *old(self),
                self@.wf(),
                forall|j: int| 0 <= j < i ==> (#[trigger] self@.pending[j]).result.value is None,
            decreases self.pending@.len() - i,
        {
            if self.pending[i].result.finished() {
                proof {
                    lemma_first_ready(self@.pending, i as int);
                }
                return Some(self.dispatch(i));
            }
            i = i + 1;
        }
        proof {
            lemma_first_ready(self@.pending, i as int);
        }
        None
    }

    /// Takes the sync `id` out of the queue, if it is settled and was not taken out before.
    pub fn take_result(&mut self, id: u64) -> (dispatch: Option<Dispatch<C>>)
        requires
            old(self)@.wf(),
        ensures
            final(self)@.wf(),
            final(self)@ == old(self)@.owner_stepped(id),
            dispatch == old(self)@.owner_dispatch(id),
    {
        let mut i: usize = 0;
        while i < self.pending.len()
            invariant
                i <= self.pending@.len(),
                *self == *old(self),
                self@.wf(),
                forall|j: int| 0 <= j < i ==> (#[trigger] self@.pending[j]).id != id,
            decreases self.pending@.len() - i,
        {
            if self.pending[i].id == id {
                proof {
                    lemma_entry_of(self@.pending, id, i as int);
                }
                if self.pending[i].result.finished() {
                    return Some(self.dispatch(i));
                }
                return None;
            }
            i = i + 1;
        }
        proof {
            lemma_entry_of(self@.pending, id, i as int);
        }
        None
    }

    /// Nothing is outstanding for the sync `id`. Whoever waits for it waits until this holds.
    pub fn is_settled(&self, id: u64) -> (settled: bool)
        requires
            self@.wf(),
        ensures
            settled == self@.settled(id),
    {
        let mut i: usize = 0;
        while i < self.pending.len()
            invariant
                i <= self.pending@.len(),
                self@.wf(),
                forall|j: int| 0 <= j < i ==> (#[trigger] self@.pending[j]).id != id,
            decreases self.pending@.len() - i,
        {
            if self.pending[i].id == id {
                proof {
                    lemma_entry_of(self@.pending, id, i as int);
                    self@.lemma_unsettled_is_pending(id);
                }
                return self.pending[i].result.finished();
            }
            i = i + 1;
        }
        proof {
            lemma_entry_of(self@.pending, id, i as int);
            self@.lemma_unsettled_is_pending(id);
        }
        true
    }

    /// Closes the queue: nothing more is accepted; what was accepted is still performed.
    pub fn close(&mut self)
        requires
            old(self)@.wf(),
        ensures
            final(self)@.wf(),
            final(self)@ == old(self)@.closed(),
    {
        self.open = false;
    }

    /// What the second worker does next: it wakes in the order of acceptance, each once its
    /// sync is settled, and stops when the queue is closed and all are woken.
    pub fn take_notification(&mut self) -> (step: WakeStep<W>)
        requires
            old(self)@.wf(),
        ensures
            final(self)@.wf(),
            final(self)@ == old(self)@.woken(),
            step == if old(self)@.wake_due() {
                WakeStep::Wake(old(self)@.notifications[0].context)
            } else if old(self)@.notifications.len() == 0 && !old(self)@.open {
                WakeStep::Stop
            } else {
                WakeStep::Wait
            },
            step == old(self)@.wake_step(),
    {
        proof {
            self@.lemma_woken_wf();
        }
        if self.notifications.len() == 0 {
            return if self.open {
                WakeStep::Wait
            } else {
                WakeStep::Stop
            };
        }
        let id: u64 = self.notifications[0].id;
        if !self.is_settled(id) {
            return WakeStep::Wait;
        }
        match self.notifications.pop_front() {
            Some(notification) => {
                assert(self@.notifications =~= old(self)@.notifications.drop_first());
                WakeStep::Wake(notification.context)
            },
            None => WakeStep::Wait,
        }
    }

    /// Where a sync would be accepted now, there is a number for it.
    pub fn has_number(&self) -> (has: bool)
        ensures
            has == self@.has_number(),
    {
        !self.open || !self.worker_running || self.next_id < u64::MAX
    }

    /// A sync would not be refused because the queue is closed.
    pub fn is_open(&self) -> (open: bool)
        ensures
            open == self@.open,
    {
        self.open
    }

    /// How many syncs were accepted so far.
    pub fn accepted(&self) -> (count: u64)
        ensures
            count == self@.next_id,
    {
        self.next_id
    }

    /// How many syncs are accepted and not dispatched.
    pub fn pending_len(&self) -> (len: usize)
        ensures
            len == self@.pending.len(),
    {
        self.pending.len()
    }
}

} // verus!
