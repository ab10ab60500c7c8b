use unix_io::error::{io_error, CompletionError, ErrorKind, IoError, LimboError};
use unix_io::file::{FlockOperation, OpenFlags, OpenPlan, UnixFile};
use unix_io::sync_queue::FileSyncType;
use unix_io::unix_io::{
    after_start, first_start, worker_name, DrainStep, DriverAction, StartStep, UnixIO, Worker,
};

type Io = UnixIO<u8, u32, u16>;

#[test]
fn starting_the_workers() {
    assert_eq!(worker_name(Worker::Wake), "turso-sync-wake");
    assert_eq!(worker_name(Worker::Sync), "turso-sync");
    assert_eq!(first_start(), StartStep::Start(Worker::Wake));
    assert_eq!(after_start(Worker::Wake, Ok(())), StartStep::Start(Worker::Sync));
    assert_eq!(after_start(Worker::Sync, Ok(())), StartStep::Ready);
    assert_eq!(
        after_start(Worker::Wake, Err(ErrorKind::WouldBlock)),
        StartStep::Fail {
            stop_wake: false,
            error: io_error(ErrorKind::WouldBlock, "start sync wake worker")
        }
    );
    assert_eq!(
        after_start(Worker::Sync, Err(ErrorKind::OutOfMemory)),
        StartStep::Fail {
            stop_wake: true,
            error: io_error(ErrorKind::OutOfMemory, "start sync worker")
        }
    );
}

#[test]
fn opening_files() {
    let io = Io::new();
    assert!(io.supports_shared_wal_coordination());
    let lock = Some(FlockOperation::NonBlockingLockExclusive);
    let flags = |create, read_only, no_lock| OpenFlags { create, read_only, no_lock };
    let plan = |write, create, lock| OpenPlan { read: true, write, create, lock };
    assert_eq!(io.open_file(flags(false, false, false), false), plan(true, false, lock));
    assert_eq!(io.open_file(flags(true, false, false), false), plan(true, true, lock));
    assert_eq!(io.open_file(flags(true, false, true), false), plan(true, true, None));
    assert_eq!(io.open_file(flags(true, false, false), true), plan(true, true, None));
    assert_eq!(io.open_file(flags(true, true, false), false), plan(false, false, None));
    assert_eq!(io.open_failed(ErrorKind::NotFound), io_error(ErrorKind::NotFound, "open"));
    assert_eq!(io.remove_file_answer(Ok(())), Ok(()));
    assert_eq!(
        io.remove_file_answer(Err(ErrorKind::NotFound)),
        Err(io_error(ErrorKind::NotFound, "remove_file"))
    );
}

#[test]
fn waiting_for_completions() {
    let io = Io::new();
    let first = DrainStep::More(vec![DriverAction::WaitForIo, DriverAction::StepIo]);
    let round =
        DrainStep::More(vec![DriverAction::StepIo, DriverAction::Step, DriverAction::Yield]);
    let last = DrainStep::Last(vec![DriverAction::Step]);
    assert_eq!(io.drain_completions(false, &vec![true, true]), first);
    assert_eq!(io.drain_completions(false, &vec![]), first);
    assert_eq!(io.drain_completions(true, &vec![true, false]), round);
    assert_eq!(io.drain_completions(true, &vec![true, true]), last);
    assert_eq!(io.drain_completions(true, &vec![]), last);
    assert_eq!(
        io.cancel(),
        vec![
            DriverAction::WaitForIo,
            DriverAction::Abort,
            DriverAction::StepIo,
            DriverAction::Step
        ]
    );
    assert_eq!(io.wait_for_completion(None), Ok(()));
    assert_eq!(
        io.wait_for_completion(Some(CompletionError::Aborted)),
        Err(LimboError::CompletionError(CompletionError::Aborted))
    );
}

#[test]
fn shutting_down() {
    let mut io = Io::new();
    assert_eq!(io.sync_queue.submit(1, 2, FileSyncType::Fsync, 3), Ok(0));
    assert_eq!(io.shutdown(false), vec![Worker::Sync, Worker::Wake]);
    assert_eq!(io.shutdown(true), vec![Worker::Sync]);
    assert_eq!(io.step(), None);
    io.sync_queue.take_job();
    io.sync_queue.finish(0, Ok(()));
    assert_eq!(io.after_join(), vec![DriverAction::Step]);
    assert_eq!(io.step().unwrap().completion, 1);
    assert_eq!(io.step(), None);
    assert_eq!(io.sync_queue.pending_len(), 0);
}

/// A process that opens a file: it has a backend of its own, and `holder` is the process that holds
/// the lock of the file.
fn open_in_process(process: u32, holder: &mut Option<u32>, path: &str) -> Result<(), LimboError> {
    let io = Io::new();
    let flags = OpenFlags { create: true, read_only: false, no_lock: false };
    let plan = io.open_file(flags, false);
    assert_eq!(plan.lock, Some(FlockOperation::NonBlockingLockExclusive));
    let file = UnixFile::new(path);
    assert_eq!(file.lock_file(true), FlockOperation::NonBlockingLockExclusive);
    let answer = match *holder {
        Some(other) if other != process => {
            Err(IoError { kind: ErrorKind::WouldBlock, text: "would block".to_string() })
        }
        _ => Ok(()),
    };
    file.lock_file_answer(answer)?;
    *holder = Some(process);
    Ok(())
}

#[test]
fn test_multiple_processes_cannot_open_file() {
    let path = "/tmp/shared.db";
    let mut holder = None;
    assert_eq!(open_in_process(1, &mut holder, path), Ok(()));
    assert_eq!(
        open_in_process(2, &mut holder, path),
        Err(LimboError::LockingError(
            "Failed locking file '/tmp/shared.db'. File is locked by another process".to_string()
        ))
    );
    assert_eq!(holder, Some(1));
    assert_eq!(open_in_process(1, &mut holder, path), Ok(()));
}
