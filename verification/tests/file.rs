use unix_io::error::{CompletionError, ErrorKind, IoError, LimboError};
use unix_io::file::{
    sync_call, sync_file, ByteUnlockStep, FlockOperation, ReadCall, SyncCall, UnixFile, UnlockStep,
};
use unix_io::shared_wal::{LockCommand, LockType, SharedWalLockKind};
use unix_io::sync_queue::{FileSyncType, JobStep, SyncQueue};

type Queue = SyncQueue<&'static str, u32, u8>;

fn failed<T>(kind: ErrorKind, op: &'static str) -> Result<T, LimboError> {
    Err(LimboError::CompletionError(CompletionError::IOError(kind, op)))
}

fn error(kind: ErrorKind, text: &str) -> Result<(), IoError> {
    Err(IoError { kind, text: text.to_string() })
}

#[test]
fn lock_operations() {
    let file = UnixFile::new("db");
    assert_eq!(file.lock_file(true), FlockOperation::NonBlockingLockExclusive);
    assert_eq!(file.lock_file(false), FlockOperation::NonBlockingLockShared);
    assert_eq!(
        file.unlock_file::<(), (), ()>(None),
        UnlockStep::Unlock(FlockOperation::NonBlockingUnlock)
    );
}

#[test]
fn lock_answers_name_the_path() {
    let file = UnixFile::new("/tmp/a.db");
    assert_eq!(file.lock_file_answer(Ok(())), Ok(()));
    assert_eq!(
        file.lock_file_answer(error(ErrorKind::WouldBlock, "busy")),
        Err(LimboError::LockingError(
            "Failed locking file '/tmp/a.db'. File is locked by another process".to_string()
        ))
    );
    assert_eq!(
        file.lock_file_answer(error(ErrorKind::InvalidInput, "Bad file (os error 9)")),
        Err(LimboError::LockingError(
            "Failed locking file '/tmp/a.db', Bad file (os error 9)".to_string()
        ))
    );
    assert_eq!(file.unlock_file_answer(Ok(())), Ok(()));
    assert_eq!(
        file.unlock_file_answer(error(ErrorKind::WouldBlock, "busy")),
        Err(LimboError::LockingError("Failed to release file lock: busy".to_string()))
    );
}

#[test]
fn plain_answers() {
    let file = UnixFile::new("db");
    assert_eq!(file.pread(4096, &[0; 512]), ReadCall { len: 512, offset: 4096 });
    assert_eq!(file.pread(u64::MAX, &[]), ReadCall { len: 0, offset: -1 });
    assert_eq!(file.pread_answer(Ok(0)), Ok(0));
    assert_eq!(file.pread_answer(Ok(4096)), Ok(4096));
    assert_eq!(
        file.pread_answer(Err(ErrorKind::Interrupted)),
        failed(ErrorKind::Interrupted, "pread")
    );
    assert_eq!(file.size_answer(Ok(77)), Ok(77));
    assert_eq!(file.size_answer(Err(ErrorKind::NotFound)), failed(ErrorKind::NotFound, "metadata"));
    assert_eq!(file.truncate_answer(Ok(())), Ok(0));
    assert_eq!(
        file.truncate_answer(Err(ErrorKind::PermissionDenied)),
        failed(ErrorKind::PermissionDenied, "truncate")
    );
    assert_eq!(file.shared_wal_set_len_answer(Ok(())), Ok(()));
    assert_eq!(
        file.shared_wal_set_len_answer(Err(ErrorKind::StorageFull)),
        failed(ErrorKind::StorageFull, "resize shared WAL coordination file")
    );
}

#[test]
fn sync_calls() {
    assert_eq!(sync_call(FileSyncType::Fsync, true), SyncCall::Fsync);
    assert_eq!(sync_call(FileSyncType::FullFsync, true), SyncCall::FullFsync);
    assert_eq!(sync_call(FileSyncType::Fsync, false), SyncCall::Fsync);
    assert_eq!(sync_call(FileSyncType::FullFsync, false), SyncCall::Fsync);
    assert_eq!(sync_file(Ok(())), Ok(()));
    assert_eq!(
        sync_file(Err(ErrorKind::InvalidInput)),
        Err(CompletionError::IOError(ErrorKind::InvalidInput, "sync"))
    );
}

#[test]
fn byte_locks_of_a_file() {
    let file = UnixFile::new("db-shm");
    let ofd = SharedWalLockKind::LinuxOfd;
    let wait = file.shared_wal_lock_byte(3, true, ofd, true).unwrap();
    assert_eq!((wait.command, wait.lock_type), (LockCommand::OfdSetLkW, LockType::Write));
    let attempt = file.shared_wal_try_lock_byte(3, false, ofd, true).unwrap();
    assert_eq!((attempt.command, attempt.lock_type), (LockCommand::OfdSetLk, LockType::Read));
    assert!(file.shared_wal_lock_byte(3, true, ofd, false).is_err());
    assert!(file.shared_wal_try_lock_byte(3, true, ofd, false).is_err());
    match file.shared_wal_unlock_byte::<(), (), ()>(None, 3, ofd, true) {
        ByteUnlockStep::Unlock(Ok(call)) => {
            assert_eq!(call.command, LockCommand::OfdSetLk);
            assert_eq!(call.lock_type, LockType::Unlock);
            assert_eq!(call.start, 3);
        }
        other => panic!("{:?}", other),
    }
    assert_eq!(file.shared_wal_map(8, 9).unwrap().offset, 8);
    assert_eq!(file.shared_wal_map(8, 9).unwrap().len, 9);
    assert!(file.shared_wal_map(8, 0).is_err());
}

#[test]
fn unlocking_waits_for_the_last_sync_only_of_this_file() {
    let mut queue: Queue = SyncQueue::new();
    let mut a = UnixFile::new("a");
    let mut b = UnixFile::new("b");
    assert_eq!(a.sync(Some(&mut queue), 1, "a", FileSyncType::Fsync, 0), Ok(0));
    assert_eq!(a.sync(Some(&mut queue), 2, "a", FileSyncType::FullFsync, 0), Ok(1));
    assert_eq!(b.sync(Some(&mut queue), 3, "b", FileSyncType::Fsync, 0), Ok(2));
    assert_eq!(a.unlock_file(Some(&queue)), UnlockStep::WaitFor(1));
    assert_eq!(
        a.shared_wal_unlock_byte(Some(&queue), 0, SharedWalLockKind::ProcessScopedFcntl, true),
        ByteUnlockStep::WaitFor(1)
    );
    for id in 0..2 {
        assert!(matches!(queue.take_job(), JobStep::Run(job) if job.id == id && job.file == "a"));
        assert_eq!(a.unlock_file(Some(&queue)), UnlockStep::WaitFor(1));
        assert!(queue.finish(id, Ok(())));
    }
    assert_eq!(
        a.unlock_file(Some(&queue)),
        UnlockStep::Unlock(FlockOperation::NonBlockingUnlock)
    );
    assert!(matches!(
        a.shared_wal_unlock_byte(Some(&queue), 0, SharedWalLockKind::ProcessScopedFcntl, true),
        ByteUnlockStep::Unlock(Ok(_))
    ));
    assert_eq!(b.unlock_file(Some(&queue)), UnlockStep::WaitFor(2));
}

#[test]
fn refused_syncs_change_nothing() {
    let mut queue: Queue = SyncQueue::new();
    let mut file = UnixFile::new("a");
    queue.stop_worker();
    assert_eq!(
        file.sync(Some(&mut queue), 1, "a", FileSyncType::Fsync, 0),
        failed(ErrorKind::BrokenPipe, "submit sync")
    );
    queue.close();
    assert_eq!(
        file.sync(Some(&mut queue), 1, "a", FileSyncType::Fsync, 0),
        failed(ErrorKind::BrokenPipe, "sync IO stopped")
    );
    assert_eq!(queue.accepted(), 0);
    assert_eq!(queue.pending_len(), 0);
    let gone: Option<&mut Queue> = None;
    assert_eq!(
        file.sync(gone, 1, "a", FileSyncType::Fsync, 0),
        failed(ErrorKind::BrokenPipe, "sync IO dropped")
    );
    assert_eq!(
        file.unlock_file(Some(&queue)),
        UnlockStep::Unlock(FlockOperation::NonBlockingUnlock)
    );
}
