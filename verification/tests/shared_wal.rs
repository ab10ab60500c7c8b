use unix_io::error::{ErrorKind, IoError, LimboError};
use unix_io::shared_wal::{
    byte_lock_answer, byte_unlock_answer, unix_shared_wal_lock_byte, unix_shared_wal_map,
    unix_shared_wal_unlock_byte, ByteLockCall, ByteLockStep, LockCommand, LockType,
    SharedWalLockKind,
};

fn error(kind: ErrorKind, text: &str) -> Result<(), IoError> {
    Err(IoError { kind, text: text.to_string() })
}

fn locking(message: &str) -> LimboError {
    LimboError::LockingError(message.to_string())
}

#[test]
fn test_shared_wal_map_supports_unaligned_logical_offset() {
    let backing_len = 128 * 1024;
    let bytes: Vec<u8> = (0..backing_len).map(|i| (i % 251) as u8).collect();

    for page_size in [1024isize, 4096, 16384, 65536] {
        let plan = unix_shared_wal_map(4096, 81920).unwrap().plan(page_size, "").unwrap();
        assert_eq!(plan.file_offset() % page_size as i64, 0);
        let start = plan.file_offset() as usize;
        let map = &bytes[start..start + plan.mapping_len];
        let mapped = plan.mapped(1 << 20);
        assert_eq!(mapped.len(), 81920);
        let region = mapped.ptr() - (1 << 20);
        let slice = &map[region..region + mapped.len()];
        assert_eq!(&slice[..128], &bytes[4096..4096 + 128]);
        assert_eq!(
            &slice[mapped.len() - 128..],
            &bytes[4096 + 81920 - 128..4096 + 81920]
        );
        assert_eq!(mapped.unmap(), (1 << 20, plan.mapping_len));
    }
}

#[test]
fn map_plan_values() {
    let plan = unix_shared_wal_map(20000, 100).unwrap().plan(16384, "").unwrap();
    assert_eq!(plan.aligned_offset, 16384);
    assert_eq!(plan.prefix_len, 3616);
    assert_eq!(plan.mapping_len, 3716);
    assert_eq!(plan.len, 100);
    assert_eq!(plan.offset, 20000);
}

#[test]
fn map_errors() {
    assert_eq!(
        unix_shared_wal_map(0, 0),
        Err(LimboError::InternalError(
            "cannot mmap shared WAL coordination region with zero length".to_string()
        ))
    );
    let request = unix_shared_wal_map(5, 10).unwrap();
    assert_eq!(
        request.plan(0, "Invalid argument"),
        Err(locking("failed to determine shared WAL mmap page size: Invalid argument"))
    );
    assert_eq!(
        request.plan(-1, "oops"),
        Err(locking("failed to determine shared WAL mmap page size: oops"))
    );
    assert_eq!(
        unix_shared_wal_map(1, usize::MAX).unwrap().plan(4096, ""),
        Err(LimboError::InternalError("shared WAL mmap length overflow".to_string()))
    );
    assert!(unix_shared_wal_map(4096, usize::MAX).unwrap().plan(4096, "").is_ok());
}

#[test]
fn map_failure_message() {
    let plan = unix_shared_wal_map(20000, 100).unwrap().plan(16384, "").unwrap();
    assert_eq!(
        plan.failed("Cannot allocate memory (os error 12)", 10, Some(131072)),
        locking(
            "mmap shared WAL coordination file failed: Cannot allocate memory (os error 12) \
             (offset=20000, aligned_offset=16384, len=100, mapping_len=3716, fd=10, \
             file_size=131072)"
        )
    );
    assert_eq!(
        plan.failed("x", -7, None),
        locking(
            "mmap shared WAL coordination file failed: x (offset=20000, aligned_offset=16384, \
             len=100, mapping_len=3716, fd=-7, file_size=-1)"
        )
    );
    let widest = unix_shared_wal_map(u64::MAX, 1).unwrap().plan(1, "").unwrap();
    assert_eq!(
        widest.failed("", i32::MIN, Some(i64::MIN)),
        locking(
            "mmap shared WAL coordination file failed:  (offset=18446744073709551615, \
             aligned_offset=18446744073709551615, len=1, mapping_len=1, fd=-2147483648, \
             file_size=-9223372036854775808)"
        )
    );
}

#[test]
fn lock_calls() {
    let cases = [
        (SharedWalLockKind::LinuxOfd, true, LockCommand::OfdSetLkW),
        (SharedWalLockKind::LinuxOfd, false, LockCommand::OfdSetLk),
        (SharedWalLockKind::ProcessScopedFcntl, true, LockCommand::SetLkW),
        (SharedWalLockKind::ProcessScopedFcntl, false, LockCommand::SetLk),
    ];
    for (kind, blocking, command) in cases {
        for (exclusive, lock_type) in [(true, LockType::Write), (false, LockType::Read)] {
            assert_eq!(
                unix_shared_wal_lock_byte(120, exclusive, blocking, kind, true),
                Ok(ByteLockCall { command, lock_type, start: 120, len: 1, pid: 0 })
            );
        }
    }
}

#[test]
fn unlock_calls_reach_what_was_locked() {
    for (kind, command) in [
        (SharedWalLockKind::LinuxOfd, LockCommand::OfdSetLk),
        (SharedWalLockKind::ProcessScopedFcntl, LockCommand::SetLk),
    ] {
        let unlock = unix_shared_wal_unlock_byte(7, kind, true).unwrap();
        let lock = unix_shared_wal_lock_byte(7, true, true, kind, true).unwrap();
        assert_eq!(unlock.command, command);
        assert_eq!(unlock.lock_type, LockType::Unlock);
        assert_eq!((unlock.start, unlock.len, unlock.pid), (lock.start, lock.len, lock.pid));
    }
}

#[test]
fn ofd_locks_need_linux() {
    let refused = Err(LimboError::InternalError(
        "linux OFD locks are not supported on this platform".to_string(),
    ));
    let ofd = SharedWalLockKind::LinuxOfd;
    assert_eq!(unix_shared_wal_lock_byte(0, true, true, ofd, false), refused);
    assert_eq!(unix_shared_wal_unlock_byte(0, ofd, false), refused);
    let fcntl = SharedWalLockKind::ProcessScopedFcntl;
    assert!(unix_shared_wal_lock_byte(0, true, true, fcntl, false).is_ok());
    assert!(unix_shared_wal_unlock_byte(0, fcntl, false).is_ok());
}

#[test]
fn lock_offsets_keep_their_bits() {
    let fcntl = SharedWalLockKind::ProcessScopedFcntl;
    let call = unix_shared_wal_lock_byte(u64::MAX, false, false, fcntl, true).unwrap();
    assert_eq!(call.start, -1);
}

#[test]
fn lock_answers() {
    for kind in [SharedWalLockKind::LinuxOfd, SharedWalLockKind::ProcessScopedFcntl] {
        check_lock_answers(|blocking| {
            unix_shared_wal_lock_byte(3, true, blocking, kind, true).unwrap()
        });
    }
}

fn check_lock_answers(call: impl Fn(bool) -> ByteLockCall) {
    assert_eq!(byte_lock_answer(call(true), Ok(())), ByteLockStep::Return(Ok(true)));
    assert_eq!(byte_lock_answer(call(false), Ok(())), ByteLockStep::Return(Ok(true)));
    assert_eq!(byte_lock_answer(call(true), error(ErrorKind::Interrupted, "i")), ByteLockStep::Retry);
    assert_eq!(
        byte_lock_answer(call(false), error(ErrorKind::WouldBlock, "w")),
        ByteLockStep::Return(Ok(false))
    );
    assert_eq!(
        byte_lock_answer(call(true), error(ErrorKind::WouldBlock, "w")),
        ByteLockStep::Return(Err(locking(
            "Failed locking shared WAL coordination file. File is locked by another process"
        )))
    );
    assert_eq!(
        byte_lock_answer(call(false), error(ErrorKind::Interrupted, "interrupted call")),
        ByteLockStep::Return(Err(locking(
            "Failed locking shared WAL coordination file, interrupted call"
        )))
    );
    assert_eq!(
        byte_lock_answer(call(true), error(ErrorKind::Deadlock, "deadlock")),
        ByteLockStep::Return(Err(locking(
            "Failed locking shared WAL coordination file, deadlock"
        )))
    );
}

#[test]
fn unlock_answers() {
    assert_eq!(byte_unlock_answer(Ok(())), Ok(()));
    assert_eq!(
        byte_unlock_answer(error(ErrorKind::InvalidInput, "bad")),
        Err(locking("Failed to release shared WAL coordination lock: bad"))
    );
}

#[test]
fn locks_on_different_bytes_are_apart() {
    let fcntl = SharedWalLockKind::ProcessScopedFcntl;
    let offsets = [0, 1, 4096, i64::MAX as u64, i64::MAX as u64 + 1, u64::MAX];
    for a in offsets {
        for b in offsets {
            let x = unix_shared_wal_lock_byte(a, true, false, fcntl, true).unwrap();
            let y = unix_shared_wal_lock_byte(b, true, false, fcntl, true).unwrap();
            assert_eq!(x.start == y.start, a == b);
        }
    }
}
