use rustix::fd::OwnedFd;
use std::cell::{Cell, RefCell};
use std::rc::Rc;
use unix_io::error::{io_error, CompletionError, ErrorKind, LimboError};
use unix_io::file::{sync_call, sync_file, FlockOperation, SyncCall, UnixFile, UnlockStep};
use unix_io::sync_queue::{FileSyncType, JobStep, SyncJob, SyncQueue, SyncResult, WakeStep};
use unix_io::unix_io::{DrainStep, DriverAction, UnixIO, Worker};
use unix_io::write::{PwriteStep, WriteAnswer};

type Outcome = Result<i32, CompletionError>;

/// A completion that keeps its first result and counts how often it was called.
struct Completion {
    result: Cell<Option<Outcome>>,
    calls: Cell<usize>,
}

impl Completion {
    fn new() -> Rc<Completion> {
        Rc::new(Completion { result: Cell::new(None), calls: Cell::new(0) })
    }

    fn deliver(&self, outcome: Outcome) {
        if self.result.get().is_none() {
            self.calls.set(self.calls.get() + 1);
            self.result.set(Some(outcome));
        }
    }

    fn abort(&self) {
        self.deliver(Err(CompletionError::Aborted));
    }

    fn finished(&self) -> bool {
        self.result.get().is_some()
    }

    fn succeeded(&self) -> bool {
        matches!(self.result.get(), Some(Ok(_)))
    }

    fn get_error(&self) -> Option<CompletionError> {
        match self.result.get() {
            Some(Err(error)) => Some(error),
            _ => None,
        }
    }
}

/// A request: a sync with its completion, or a group of requests.
#[derive(Clone)]
enum Request {
    Sync(u64, Rc<Completion>),
    Group(Vec<Request>),
}

impl Request {
    /// The syncs behind the request.
    fn syncs(&self) -> Vec<(u64, Rc<Completion>)> {
        match self {
            Request::Sync(id, c) => vec![(*id, c.clone())],
            Request::Group(members) => members.iter().flat_map(Request::syncs).collect(),
        }
    }

    fn finished(&self) -> bool {
        self.syncs().iter().all(|(_, c)| c.finished())
    }

    fn get_error(&self) -> Option<CompletionError> {
        self.syncs().iter().find_map(|(_, c)| c.get_error())
    }
}

fn nested_group(request: &Request) -> Request {
    Request::Group(vec![Request::Group(vec![request.clone()])])
}

type Backend<F> = UnixIO<F, Rc<Completion>, &'static str>;
type Io = Backend<&'static str>;

/// Dispatches all that is settled.
fn step<F>(io: &mut Backend<F>) {
    while let Some(dispatch) = io.step() {
        dispatch.completion.deliver(dispatch.outcome);
    }
}

/// Dispatches the syncs of the requests that are settled, each through its owner.
fn step_io<F>(io: &mut Backend<F>, requests: &[Request]) {
    for (id, _) in requests.iter().flat_map(Request::syncs) {
        if let Some(dispatch) = io.sync_queue.take_result(id) {
            dispatch.completion.deliver(dispatch.outcome);
        }
    }
}

/// Performs the actions on the requests. Returns false where it would have to wait for a sync.
fn act<F>(io: &mut Backend<F>, actions: &[DriverAction], requests: &[Request]) -> bool {
    for action in actions {
        match action {
            DriverAction::WaitForIo => {
                let ids = requests.iter().flat_map(Request::syncs).map(|(id, _)| id).collect();
                if io.wait_for_syncs(&ids).is_some() {
                    return false;
                }
            }
            DriverAction::Abort => {
                requests.iter().flat_map(Request::syncs).for_each(|(_, c)| c.abort())
            }
            DriverAction::StepIo => step_io(io, requests),
            DriverAction::Step => step(io),
            DriverAction::Yield => {}
        }
    }
    true
}

/// Cancels the requests. Returns false where it would have to wait for a sync.
fn cancel<F>(io: &mut Backend<F>, requests: &[Request]) -> bool {
    let actions = io.cancel();
    act(io, &actions, requests)
}

/// Drains the requests. Returns false where it would have to wait for a sync.
fn drain<F>(io: &mut Backend<F>, requests: &[Request]) -> bool {
    let mut begun = false;
    loop {
        let finished = requests.iter().map(Request::finished).collect();
        match io.drain_completions(begun, &finished) {
            DrainStep::More(actions) => {
                if !act(io, &actions, requests) {
                    return false;
                }
            }
            DrainStep::Last(actions) => return act(io, &actions, requests),
        }
        begun = true;
    }
}

/// Waits for the request. Returns nothing where it would have to wait for a sync.
fn wait_for_completion<F>(
    io: &mut Backend<F>,
    request: &Request,
) -> Option<Result<(), LimboError>> {
    if drain(io, std::slice::from_ref(request)) {
        Some(io.wait_for_completion(request.get_error()))
    } else {
        None
    }
}

/// Lets the worker begin with the next sync.
fn next_job<F>(io: &mut Backend<F>) -> SyncJob<F> {
    match io.sync_queue.take_job() {
        JobStep::Run(job) => job,
        JobStep::Wait => panic!("the worker waits"),
        JobStep::Stop => panic!("the worker stops"),
    }
}

/// Lets the worker begin with the next sync, and returns its number.
fn begin<F>(io: &mut Backend<F>) -> u64 {
    next_job(io).id
}

fn submit(io: &mut Io, file: &mut UnixFile) -> (u64, Rc<Completion>) {
    let c = Completion::new();
    let id = file
        .sync(Some(&mut io.sync_queue), c.clone(), "sync.db", FileSyncType::Fsync, "wake")
        .unwrap();
    (id, c)
}

fn submit_request(io: &mut Io, file: &mut UnixFile) -> (u64, Rc<Completion>, Request) {
    let (id, c) = submit(io, file);
    (id, c.clone(), Request::Sync(id, c))
}

/// The kinds that the system calls of these tests fail with.
fn kind(error: rustix::io::Errno) -> ErrorKind {
    match error {
        rustix::io::Errno::INVAL => ErrorKind::InvalidInput,
        rustix::io::Errno::ROFS => ErrorKind::ReadOnlyFilesystem,
        other => panic!("unexpected error {other}"),
    }
}

/// Makes the system call of a sync.
fn perform(file: &OwnedFd, sync_type: FileSyncType) -> Result<(), CompletionError> {
    assert_eq!(sync_call(sync_type, false), SyncCall::Fsync);
    sync_file(rustix::fs::fsync(file).map_err(kind))
}

/// Makes the system calls of a write of `bytes` at `pos`.
fn write(file: &UnixFile, fd: &OwnedFd, pos: u64, bytes: &[u8]) -> Result<i32, LimboError> {
    let mut op = file.pwrite(pos, bytes);
    loop {
        match op.next() {
            PwriteStep::Complete(n) => return Ok(n),
            PwriteStep::Write { bytes, offset } => {
                let answer = match rustix::io::pwrite(fd, bytes, offset as u64) {
                    Ok(n) => WriteAnswer::Wrote(n),
                    Err(error) => WriteAnswer::Failed(kind(error)),
                };
                assert!(op.accepts(answer));
                op.answer(answer)?;
            }
        }
    }
}

fn contents(fd: &OwnedFd) -> Vec<u8> {
    let mut bytes = vec![0; 64];
    let n = rustix::io::pread(fd, &mut bytes[..], 0).unwrap();
    bytes.truncate(n);
    bytes
}

#[test]
fn sync_submission_and_step_return_before_syscall_finishes() {
    let mut io = Io::new();
    let mut file = UnixFile::new("sync.db");
    let (id, c) = submit(&mut io, &mut file);
    assert_eq!(begin(&mut io), id);
    step(&mut io);
    let pending = !c.finished();
    assert!(io.sync_queue.finish(id, Ok(())));
    assert!(pending, "sync completed before the held syscall returned");
    step(&mut io);
    assert_eq!(c.result.get(), Some(Ok(0)));
}

#[test]
fn reviewfix_ready_callback_waits_for_ready_sibling() {
    let mut io = Io::new();
    let mut file = UnixFile::new("sync.db");
    let (a, first) = submit(&mut io, &mut file);
    let (b, sibling) = submit(&mut io, &mut file);
    for id in [a, b] {
        assert_eq!(begin(&mut io), id);
        assert!(io.sync_queue.finish(id, Ok(())));
    }
    assert!(io.sync_queue.is_settled(b));
    let dispatch = io.step().unwrap();
    assert_eq!(dispatch.id, a);
    // In the callback of the first, the sibling is waited for.
    let request = Request::Sync(b, sibling.clone());
    assert_eq!(wait_for_completion(&mut io, &request), Some(Ok(())));
    dispatch.completion.deliver(dispatch.outcome);
    step(&mut io);
    assert!(first.succeeded() && sibling.succeeded());
    assert_eq!(io.sync_queue.pending_len(), 0);
}

#[test]
fn reviewfix_callback_unwind_preserves_ready_sibling() {
    let mut io = Io::new();
    let mut file = UnixFile::new("sync.db");
    let (a, first) = submit(&mut io, &mut file);
    let (b, sibling) = submit(&mut io, &mut file);
    for id in [a, b] {
        assert_eq!(begin(&mut io), id);
        assert!(io.sync_queue.finish(id, Ok(())));
    }
    // The callback of the first unwinds: its dispatch is dropped.
    assert_eq!(io.step().unwrap().id, a);
    assert!(!first.finished());
    assert_eq!(io.sync_queue.pending_len(), 1);
    let request = Request::Sync(b, sibling.clone());
    assert_eq!(wait_for_completion(&mut io, &request), Some(Ok(())));
    assert!(sibling.succeeded());
    assert_eq!(io.sync_queue.pending_len(), 0);
}

#[test]
fn reviewfix_waker_drops_last_io_with_queued_job() {
    let mut io = Io::new();
    let mut file = UnixFile::new("sync.db");
    let (a, first) = submit(&mut io, &mut file);
    assert_eq!(begin(&mut io), a);
    let (b, second) = submit(&mut io, &mut file);
    assert!(io.sync_queue.take_notification() == WakeStep::Wait);
    assert!(io.sync_queue.finish(a, Ok(())));
    assert!(io.sync_queue.take_notification() == WakeStep::Wake("wake"));
    // The waker of the first drops the backend, on the thread that wakes.
    assert_eq!(io.shutdown(true), vec![Worker::Sync]);
    assert_eq!(begin(&mut io), b);
    assert!(io.sync_queue.finish(b, Ok(())));
    assert!(matches!(io.sync_queue.take_job(), JobStep::Stop));
    step(&mut io);
    assert!(first.succeeded() && second.succeeded());
    assert!(io.sync_queue.take_notification() == WakeStep::Wake("wake"));
    assert!(io.sync_queue.take_notification() == WakeStep::Stop);
}

#[test]
fn reviewfix_waker_drops_file_with_queued_job() {
    let mut io = Io::new();
    let mut file = UnixFile::new("sync.db");
    let (a, first) = submit(&mut io, &mut file);
    assert_eq!(begin(&mut io), a);
    let (b, second) = submit(&mut io, &mut file);
    assert!(io.sync_queue.finish(a, Ok(())));
    assert!(io.sync_queue.take_notification() == WakeStep::Wake("wake"));
    assert_eq!(file.unlock_file(Some(&io.sync_queue)), UnlockStep::WaitFor(b));
    assert_eq!(begin(&mut io), b);
    assert!(io.sync_queue.finish(b, Ok(())));
    assert_eq!(
        file.unlock_file(Some(&io.sync_queue)),
        UnlockStep::Unlock(FlockOperation::NonBlockingUnlock)
    );
    step(&mut io);
    assert!(first.succeeded() && second.succeeded());
}

#[test]
fn sync_types_persist_data_and_dispatch_once_on_driver() {
    let mut io: Backend<Rc<OwnedFd>> = UnixIO::new();
    let fd = Rc::new(
        rustix::fs::memfd_create("sync.db", rustix::fs::MemfdFlags::empty()).unwrap(),
    );
    let mut file = UnixFile::new("sync.db");
    let mut count = 0;
    for sync_type in [FileSyncType::Fsync, FileSyncType::FullFsync] {
        assert_eq!(write(&file, &fd, 0, b"durable"), Ok(7));
        let c = Completion::new();
        let id = file
            .sync(Some(&mut io.sync_queue), c.clone(), fd.clone(), sync_type, "wake")
            .unwrap();
        let request = Request::Sync(id, c.clone());
        assert_eq!(wait_for_completion(&mut io, &request), None);
        let job = next_job(&mut io);
        assert_eq!((job.id, job.sync_type), (id, sync_type));
        assert_eq!(wait_for_completion(&mut io, &request), None);
        let outcome = perform(&job.file, job.sync_type);
        assert!(io.sync_queue.finish(job.id, outcome));
        assert_eq!(wait_for_completion(&mut io, &request), Some(Ok(())));
        assert_eq!(c.result.get(), Some(Ok(0)));
        step(&mut io);
        count += c.calls.get();
        assert_eq!(io.sync_queue.pending_len(), 0);
        assert_eq!(contents(&fd), b"durable");
    }
    assert_eq!(count, 2);
}

#[test]
fn real_syscall_error_is_delivered_as_error() {
    let mut io: Backend<Rc<OwnedFd>> = UnixIO::new();
    let open = || {
        rustix::fs::open(
            "/dev/null",
            rustix::fs::OFlags::RDONLY,
            rustix::fs::Mode::empty(),
        )
        .unwrap()
    };
    let mut file = UnixFile::new("/dev/null");
    let expected = perform(&open(), FileSyncType::FullFsync).unwrap_err();
    assert_eq!(expected, CompletionError::IOError(ErrorKind::InvalidInput, "sync"));
    let c = Completion::new();
    let id = file
        .sync(
            Some(&mut io.sync_queue),
            c.clone(),
            Rc::new(open()),
            FileSyncType::FullFsync,
            "wake",
        )
        .unwrap();
    let job = next_job(&mut io);
    assert_eq!(job.sync_type, FileSyncType::FullFsync);
    let outcome = perform(&job.file, job.sync_type);
    assert!(io.sync_queue.finish(id, outcome));
    let request = Request::Sync(id, c.clone());
    assert_eq!(
        wait_for_completion(&mut io, &request),
        Some(Err(LimboError::CompletionError(expected)))
    );
    assert_eq!(c.get_error(), Some(expected));
    step(&mut io);
    assert_eq!(c.calls.get(), 1);
}

/// Drives a request until it is finished. Where nothing can be done, `release` lets the system
/// call of the sync return, and the driver has to be woken.
fn wait_async(io: &mut Io, request: &Request, release: Option<u64>) {
    let mut release = release;
    loop {
        step_io(io, std::slice::from_ref(request));
        if request.finished() {
            return;
        }
        assert!(io.sync_queue.take_notification() == WakeStep::Wait);
        if let Some(id) = release.take() {
            assert!(io.sync_queue.finish(id, Ok(())));
        }
        assert!(
            io.sync_queue.take_notification() == WakeStep::Wake("wake"),
            "async driver was not woken"
        );
    }
}

#[test]
fn async_driver_wakes_before_and_after_registration_with_groups() {
    for before_registration in [true, false] {
        let mut io = Io::new();
        let mut file = UnixFile::new("sync.db");
        let (id, c, request) = submit_request(&mut io, &mut file);
        let outer = nested_group(&request);
        assert_eq!(begin(&mut io), id);
        assert_eq!(io.wait_for_syncs(&vec![id]), Some(id));
        let signal = if before_registration {
            assert!(io.sync_queue.finish(id, Ok(())));
            assert_eq!(io.wait_for_syncs(&vec![id]), None);
            None
        } else {
            Some(id)
        };
        wait_async(&mut io, &outer, signal);
        assert_eq!(c.result.get(), Some(Ok(0)));
        assert!(c.succeeded());
        assert_eq!(io.sync_queue.pending_len(), 0);
    }
}

#[test]
fn aborted_completion_does_not_retire_physical_sync() {
    let mut io = Io::new();
    let mut file = UnixFile::new("sync.db");
    let (id, c, request) = submit_request(&mut io, &mut file);
    assert_eq!(begin(&mut io), id);
    c.abort();
    assert!(c.finished());
    assert!(!io.sync_queue.is_settled(id));
    let early = drain(&mut io, std::slice::from_ref(&request));
    assert_eq!(io.sync_queue.pending_len(), 1);
    assert!(io.sync_queue.finish(id, Ok(())));
    assert!(!early, "logical abort bypassed physical retirement");
    assert!(drain(&mut io, &[request]));
    assert!(io.sync_queue.is_settled(id));
    assert_eq!(io.sync_queue.pending_len(), 0);
    assert_eq!(c.result.get(), Some(Err(CompletionError::Aborted)));
    assert_eq!(c.calls.get(), 1);
}

#[test]
fn owner_nested_async_wait_uses_origin_before_and_after_group_registration() {
    for late in [false, true] {
        let mut io = Io::new();
        let mut file = UnixFile::new("sync.db");
        let (id, c, request) = submit_request(&mut io, &mut file);
        let early = if late { None } else { Some(nested_group(&request)) };
        assert_eq!(begin(&mut io), id);
        let group = early.unwrap_or_else(|| nested_group(&request));
        wait_async(&mut io, &group, Some(id));
        assert!(c.succeeded());
        assert_eq!(io.sync_queue.pending_len(), 0);
    }
}

#[test]
fn owner_nested_blocking_wait_uses_origin() {
    let mut io = Io::new();
    let mut file = UnixFile::new("sync.db");
    let (id, _, request) = submit_request(&mut io, &mut file);
    assert_eq!(begin(&mut io), id);
    let group = nested_group(&request);
    step_io(&mut io, std::slice::from_ref(&group));
    assert!(!group.finished());
    assert!(io.sync_queue.finish(id, Ok(())));
    // The group is driven through the owner of its sync, without a step of the backend.
    step_io(&mut io, std::slice::from_ref(&group));
    let completed = group.finished();
    assert_eq!(wait_for_completion(&mut io, &request), Some(Ok(())));
    assert!(completed, "exported group did not drive its originating IO");
}

#[test]
fn owner_memory_drain_waits_for_aborted_physical_sync() {
    let mut io = Io::new();
    let mut file = UnixFile::new("sync.db");
    let (id, c, request) = submit_request(&mut io, &mut file);
    assert_eq!(begin(&mut io), id);
    let group = nested_group(&request);
    c.abort();
    assert!(group.finished());
    let early = drain(&mut io, std::slice::from_ref(&group));
    assert!(io.sync_queue.finish(id, Ok(())));
    assert!(drain(&mut io, &[group]));
    assert!(drain(&mut io, &[request]));
    assert!(!early, "main IO drain ignored the origin's physical work");
    assert_eq!(io.sync_queue.pending_len(), 0);
}

#[test]
fn owner_late_group_after_physical_result_releases_callback_captures() {
    let mut io = Io::new();
    let mut file = UnixFile::new("sync.db");
    let (id, c, request) = submit_request(&mut io, &mut file);
    let lifetime = Rc::downgrade(&c);
    assert_eq!(begin(&mut io), id);
    assert!(io.sync_queue.finish(id, Ok(())));
    assert_eq!(io.wait_for_syncs(&vec![id]), None);
    let outer = nested_group(&request);
    wait_async(&mut io, &outer, None);
    assert_eq!(io.sync_queue.pending_len(), 0);
    drop(outer);
    drop(request);
    drop(c);
    assert!(lifetime.upgrade().is_none());
}

#[test]
fn owner_cancel_nested_group_waits_and_dispatches_aborted_once() {
    let mut io = Io::new();
    let mut file = UnixFile::new("sync.db");
    let (id, c, request) = submit_request(&mut io, &mut file);
    assert_eq!(begin(&mut io), id);
    let group = nested_group(&request);
    let early = cancel(&mut io, std::slice::from_ref(&group));
    assert!(!c.finished());
    assert!(io.sync_queue.finish(id, Ok(())));
    assert!(cancel(&mut io, std::slice::from_ref(&group)));
    assert!(drain(&mut io, std::slice::from_ref(&group)));
    assert_eq!(group.get_error(), Some(CompletionError::Aborted));
    assert!(!early);
    assert_eq!(c.result.get(), Some(Err(CompletionError::Aborted)));
    assert_eq!(c.calls.get(), 1);
    assert_eq!(io.sync_queue.pending_len(), 0);
}

#[test]
fn owner_wait_does_not_wait_for_unrelated_sync() {
    let mut io = Io::new();
    let mut file = UnixFile::new("sync.db");
    let (a, first) = submit(&mut io, &mut file);
    assert_eq!(begin(&mut io), a);
    assert!(io.sync_queue.finish(a, Ok(())));
    let (b, second) = submit(&mut io, &mut file);
    assert_eq!(begin(&mut io), b);
    let independent = io.sync_queue.is_settled(a);
    let dispatch = io.sync_queue.take_result(a).unwrap();
    dispatch.completion.deliver(dispatch.outcome);
    assert!(independent, "wait included an unrelated held syscall");
    assert!(first.succeeded() && !second.finished());
    assert!(io.sync_queue.take_result(a).is_none());
    assert!(io.sync_queue.take_result(b).is_none());
    assert!(io.sync_queue.finish(b, Ok(())));
    step(&mut io);
    assert!(second.succeeded());
}

#[test]
fn shutdown_drains_accepted_work_and_releases_queue() {
    let mut io = Io::new();
    let mut file = UnixFile::new("sync.db");
    let (id, c) = submit(&mut io, &mut file);
    assert_eq!(begin(&mut io), id);
    assert_eq!(io.shutdown(false), vec![Worker::Sync, Worker::Wake]);
    let early = matches!(io.sync_queue.take_job(), JobStep::Stop);
    assert!(!early, "shutdown returned with a live syscall");
    assert!(io.sync_queue.finish(id, Ok(())));
    assert!(matches!(io.sync_queue.take_job(), JobStep::Stop));
    step(&mut io);
    assert!(c.succeeded());
    assert_eq!(io.sync_queue.pending_len(), 0);
    let rejected = Completion::new();
    assert_eq!(
        file.sync(Some(&mut io.sync_queue), rejected.clone(), "sync.db", FileSyncType::Fsync, "wake"),
        Err(io_error(ErrorKind::BrokenPipe, "sync IO stopped"))
    );
    step(&mut io);
    drop(io);
    let gone: Option<&mut SyncQueue<&str, Rc<Completion>, &str>> = None;
    assert_eq!(
        file.sync(gone, rejected.clone(), "sync.db", FileSyncType::Fsync, "wake"),
        Err(io_error(ErrorKind::BrokenPipe, "sync IO dropped"))
    );
    assert_eq!(rejected.calls.get(), 0, "rejected submission ran callback");
    assert_eq!(Rc::strong_count(&rejected), 1);
}

#[test]
fn callback_can_submit_another_sync_and_reenter_step() {
    let mut io = Io::new();
    let mut file = UnixFile::new("sync.db");
    let (a, c) = submit(&mut io, &mut file);
    assert_eq!(begin(&mut io), a);
    assert!(io.sync_queue.finish(a, Ok(())));
    let dispatch = io.step().unwrap();
    // The callback submits another sync and steps.
    let (b, next) = submit(&mut io, &mut file);
    step(&mut io);
    assert!(!next.finished());
    dispatch.completion.deliver(dispatch.outcome);
    assert_eq!(c.result.get(), Some(Ok(0)));
    assert_eq!(begin(&mut io), b);
    assert!(io.sync_queue.finish(b, Ok(())));
    step(&mut io);
    assert_eq!(next.result.get(), Some(Ok(0)));
    assert_eq!(io.sync_queue.pending_len(), 0);
}

#[test]
fn dropping_file_retains_process_lock_until_sync_retires() {
    let mut io = Io::new();
    let mut file = UnixFile::new("sync.db");
    let (id, c) = submit(&mut io, &mut file);
    assert_eq!(begin(&mut io), id);
    let retained = file.unlock_file(Some(&io.sync_queue)) == UnlockStep::WaitFor(id);
    assert!(io.sync_queue.finish(id, Ok(())));
    assert!(retained, "file lock was released during the held syscall");
    assert_eq!(
        file.unlock_file(Some(&io.sync_queue)),
        UnlockStep::Unlock(FlockOperation::NonBlockingUnlock)
    );
    step(&mut io);
    assert!(c.succeeded());
    assert_eq!(io.sync_queue.pending_len(), 0);
}

#[test]
fn a_worker_that_is_gone_settles_everything_with_an_error() {
    let mut io = Io::new();
    let mut file = UnixFile::new("sync.db");
    let (a, done) = submit(&mut io, &mut file);
    let (b, active) = submit(&mut io, &mut file);
    let (_, queued) = submit(&mut io, &mut file);
    assert_eq!(begin(&mut io), a);
    assert!(io.sync_queue.finish(a, Ok(())));
    assert_eq!(begin(&mut io), b);
    io.sync_queue.stop_worker();
    assert!(!io.sync_queue.finish(b, Ok(())));
    step(&mut io);
    let stopped = Err(CompletionError::IOError(ErrorKind::BrokenPipe, "sync worker stopped"));
    assert_eq!(done.result.get(), Some(Ok(0)));
    assert_eq!(active.result.get(), Some(stopped));
    assert_eq!(queued.result.get(), Some(stopped));
    assert_eq!(
        file.sync(Some(&mut io.sync_queue), done, "sync.db", FileSyncType::Fsync, "wake"),
        Err(io_error(ErrorKind::BrokenPipe, "submit sync"))
    );
    assert!(matches!(io.sync_queue.take_job(), JobStep::Stop));
}

#[test]
fn no_wake_is_lost() {
    let mut io = Io::new();
    let mut file = UnixFile::new("sync.db");
    let mut woken = 0;
    for round in 0..3u64 {
        let (id, _) = submit(&mut io, &mut file);
        submit(&mut io, &mut file);
        assert!(io.sync_queue.take_notification() == WakeStep::Wait);
        assert_eq!(begin(&mut io), id);
        assert!(io.sync_queue.finish(id, Ok(())));
        let next = begin(&mut io);
        assert!(io.sync_queue.take_notification() == WakeStep::Wake("wake"));
        assert!(io.sync_queue.take_notification() == WakeStep::Wait);
        assert!(io.sync_queue.finish(next, Ok(())));
        // The dispatch of a sync does not take its wake away.
        step(&mut io);
        assert!(io.sync_queue.take_notification() == WakeStep::Wake("wake"));
        woken += 2;
        assert_eq!(io.sync_queue.accepted(), 2 * (round + 1));
    }
    submit(&mut io, &mut file);
    io.sync_queue.stop_worker();
    io.sync_queue.close();
    while io.sync_queue.take_notification() == WakeStep::Wake("wake") {
        woken += 1;
    }
    assert_eq!(woken, io.sync_queue.accepted());
    assert!(io.sync_queue.take_notification() == WakeStep::Stop);
}

#[test]
fn the_worker_takes_one_sync_at_a_time_in_order() {
    let mut io = Io::new();
    let mut file = UnixFile::new("sync.db");
    assert!(matches!(io.sync_queue.take_job(), JobStep::Wait));
    let order = RefCell::new(Vec::new());
    for _ in 0..3 {
        submit(&mut io, &mut file);
    }
    for _ in 0..3 {
        let id = begin(&mut io);
        assert!(matches!(io.sync_queue.take_job(), JobStep::Wait));
        assert!(!io.sync_queue.finish(id + 1, Ok(())));
        assert!(io.sync_queue.finish(id, Ok(())));
        assert!(!io.sync_queue.finish(id, Ok(())));
        order.borrow_mut().push(id);
    }
    assert_eq!(*order.borrow(), vec![0, 1, 2]);
    let dispatched: Vec<u64> = (0..3).map(|_| io.step().unwrap().id).collect();
    assert_eq!(dispatched, vec![0, 1, 2]);
    assert_eq!(io.sync_queue.accepted(), 3);
}

#[test]
fn a_settled_sync_stays_settled_and_is_dispatched_once() {
    let mut io = Io::new();
    let mut file = UnixFile::new("sync.db");
    let (id, c) = submit(&mut io, &mut file);
    assert!(!io.sync_queue.is_settled(id));
    assert!(io.sync_queue.is_settled(id + 1));
    assert!(io.sync_queue.take_result(id).is_none());
    begin(&mut io);
    io.sync_queue.finish(id, Ok(()));
    let dispatch = io.sync_queue.take_result(id).unwrap();
    assert_eq!(dispatch.outcome, Ok(0));
    dispatch.completion.deliver(dispatch.outcome);
    assert!(io.sync_queue.take_result(id).is_none());
    assert!(io.step().is_none());
    io.sync_queue.stop_worker();
    assert!(io.sync_queue.is_settled(id));
    assert_eq!(c.calls.get(), 1);
}

#[test]
fn an_outcome_is_given_to_everyone_who_waits() {
    let stopped = Err(CompletionError::IOError(ErrorKind::BrokenPipe, "sync worker stopped"));
    let mut result = SyncResult::new();
    assert!(!result.finished());
    assert_eq!(result.wait(), None);
    result.record(Ok(()));
    for _ in 0..2 {
        assert_eq!(result.wait(), Some(Ok(())));
        assert!(result.finished());
    }
    result.retire();
    assert_eq!(result.wait(), Some(Ok(())));
    let mut abandoned = SyncResult::new();
    abandoned.retire();
    assert_eq!(abandoned.wait(), Some(stopped));
    abandoned.retire();
    assert_eq!(abandoned.wait(), Some(stopped));
}

#[test]
fn a_refused_sync_changes_nothing() {
    let mut io = Io::new();
    let mut file = UnixFile::new("sync.db");
    let (id, c) = submit(&mut io, &mut file);
    assert!(io.sync_queue.is_open() && io.sync_queue.has_number());
    io.shutdown(false);
    assert!(!io.sync_queue.is_open() && io.sync_queue.has_number());
    let rejected = Completion::new();
    for _ in 0..2 {
        assert_eq!(
            file.sync(
                Some(&mut io.sync_queue),
                rejected.clone(),
                "sync.db",
                FileSyncType::Fsync,
                "wake"
            ),
            Err(io_error(ErrorKind::BrokenPipe, "sync IO stopped"))
        );
    }
    assert_eq!((io.sync_queue.accepted(), io.sync_queue.pending_len()), (1, 1));
    assert_eq!(file.unlock_file(Some(&io.sync_queue)), UnlockStep::WaitFor(id));
    assert_eq!(begin(&mut io), id);
    assert!(io.sync_queue.finish(id, Ok(())));
    step(&mut io);
    assert!(c.succeeded() && !rejected.finished());
}

#[test]
fn drained_and_cancelled_syncs_leave_the_queue_and_others_stay() {
    for cancelled in [false, true] {
        let mut io = Io::new();
        let mut file = UnixFile::new("sync.db");
        let (a, first, one) = submit_request(&mut io, &mut file);
        let (b, second, two) = submit_request(&mut io, &mut file);
        let (other, unrelated) = submit(&mut io, &mut file);
        let requests = [one, two];
        for id in [a, b] {
            assert_eq!(begin(&mut io), id);
            assert!(io.sync_queue.finish(id, Ok(())));
        }
        assert_eq!(io.wait_for_syncs(&vec![a, b]), None);
        assert_eq!(io.wait_for_syncs(&vec![a, other, b]), Some(other));
        let ended =
            if cancelled { cancel(&mut io, &requests) } else { drain(&mut io, &requests) };
        assert!(ended);
        assert_eq!((first.calls.get(), second.calls.get()), (1, 1));
        assert_eq!(first.succeeded(), !cancelled);
        assert_eq!(io.sync_queue.pending_len(), 1);
        assert!(!unrelated.finished());
        assert!(io.sync_queue.take_result(a).is_none());
    }
}
