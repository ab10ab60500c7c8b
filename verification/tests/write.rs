use unix_io::error::{CompletionError, ErrorKind, LimboError};
use unix_io::file::{UnixFile, WriteOp};
use unix_io::iovec::{MAX_IOV, MAX_PWRITE_LEN};
use unix_io::write::{Pwrite, PwriteStep, Pwritev, PwritevStep, WriteAnswer};

fn write_at(file: &mut Vec<u8>, pos: usize, bytes: &[u8]) {
    if bytes.is_empty() {
        return;
    }
    if file.len() < pos + bytes.len() {
        file.resize(pos + bytes.len(), 0);
    }
    file[pos..pos + bytes.len()].copy_from_slice(bytes);
}

fn failed(kind: ErrorKind, op: &'static str) -> Result<(), LimboError> {
    Err(LimboError::CompletionError(CompletionError::IOError(kind, op)))
}

/// Performs a write with a kernel that writes at most `most` bytes at a time and interrupts
/// every other call.
fn drive_pwrite(mut op: Pwrite, file: &mut Vec<u8>, most: usize) -> i32 {
    let mut interrupt = false;
    loop {
        match op.next() {
            PwriteStep::Complete(n) => return n,
            PwriteStep::Write { bytes, offset } => {
                interrupt = !interrupt;
                let answer = if interrupt {
                    WriteAnswer::Failed(ErrorKind::Interrupted)
                } else {
                    let n = bytes.len().min(most);
                    write_at(file, offset as usize, &bytes[..n]);
                    WriteAnswer::Wrote(n)
                };
                assert!(op.accepts(answer));
                assert_eq!(op.answer(answer), Ok(()));
            }
        }
    }
}

fn drive_pwritev(mut op: Pwritev, file: &mut Vec<u8>, most: usize) -> i32 {
    let mut interrupt = false;
    loop {
        match op.next() {
            PwritevStep::Complete(n) => return n,
            PwritevStep::Write { offset } => {
                interrupt = !interrupt;
                let joined: Vec<u8> =
                    op.iovecs().iter().flat_map(|entry| entry.bytes.to_vec()).collect();
                assert!(op.iovecs().len() <= MAX_IOV);
                assert_eq!(op.requested(), joined.len());
                let answer = if interrupt {
                    WriteAnswer::Failed(ErrorKind::Interrupted)
                } else {
                    let n = joined.len().min(most);
                    write_at(file, offset as usize, &joined[..n]);
                    WriteAnswer::Wrote(n)
                };
                assert!(op.accepts(answer));
                assert_eq!(op.answer(answer), Ok(()));
            }
        }
    }
}

#[test]
fn pwrite_goes_on_after_short_writes() {
    let mut file = b"0123456789".to_vec();
    assert_eq!(drive_pwrite(Pwrite::new(3, b"abcde"), &mut file, 2), 5);
    assert_eq!(file, b"012abcde89");
}

#[test]
fn pwrite_past_the_end_leaves_zeros() {
    let mut file = b"01".to_vec();
    assert_eq!(drive_pwrite(Pwrite::new(4, b"xy"), &mut file, 1), 2);
    assert_eq!(file, b"01\0\0xy");
}

#[test]
fn pwrite_of_nothing_completes_at_once() {
    assert_eq!(Pwrite::new(9, b"").next(), PwriteStep::Complete(0));
}

#[test]
fn pwrite_asks_for_at_most_the_limit() {
    let buf = vec![0u8; MAX_PWRITE_LEN + 5];
    let mut op = Pwrite::new(10, &buf);
    match op.next() {
        PwriteStep::Write { bytes, offset } => {
            assert_eq!(bytes.len(), MAX_PWRITE_LEN);
            assert_eq!(offset, 10);
        }
        PwriteStep::Complete(_) => panic!("completed early"),
    }
    assert_eq!(op.answer(WriteAnswer::Wrote(MAX_PWRITE_LEN)), Ok(()));
    match op.next() {
        PwriteStep::Write { bytes, offset } => {
            assert_eq!(bytes.len(), 5);
            assert_eq!(offset, 10 + MAX_PWRITE_LEN as i64);
        }
        PwriteStep::Complete(_) => panic!("completed early"),
    }
    assert_eq!(op.answer(WriteAnswer::Wrote(5)), Ok(()));
    assert_eq!(op.next(), PwriteStep::Complete((MAX_PWRITE_LEN + 5) as i32));
}

#[test]
fn pwrite_errors() {
    let mut op = Pwrite::new(0, b"abc");
    assert_eq!(
        op.answer(WriteAnswer::Failed(ErrorKind::StorageFull)),
        failed(ErrorKind::StorageFull, "pwrite")
    );
    assert_eq!(op.answer(WriteAnswer::Wrote(0)), failed(ErrorKind::UnexpectedEof, "pwrite"));
    assert_eq!(op.next(), PwriteStep::Write { bytes: b"abc", offset: 0 });
}

#[test]
fn pwrite_position_keeps_its_bits() {
    assert_eq!(
        Pwrite::new(u64::MAX, b"a").next(),
        PwriteStep::Write { bytes: b"a", offset: -1 }
    );
    let op = Pwrite::new(u64::MAX, b"a");
    assert!(!op.accepts(WriteAnswer::Wrote(1)));
    assert!(op.accepts(WriteAnswer::Failed(ErrorKind::InvalidInput)));
}

#[test]
fn pwritev_equals_pwrite_of_the_joined_buffers() {
    let buffers: Vec<&[u8]> = vec![b"ab", b"", b"cdefg", b"h", b"", b"ij"];
    let joined: Vec<u8> = buffers.concat();
    for most in 1..12 {
        let mut one = b"................".to_vec();
        let mut many = one.clone();
        let n = drive_pwrite(Pwrite::new(4, &joined), &mut one, most);
        let m = drive_pwritev(Pwritev::new(4, buffers.clone()), &mut many, most);
        assert_eq!(n, 10);
        assert_eq!(m, 10);
        assert_eq!(one, many);
        assert_eq!(one, b"....abcdefghij..");
    }
}

#[test]
fn pwritev_submits_at_most_the_limit_of_entries() {
    let byte = [7u8];
    let buffers: Vec<&[u8]> = vec![&byte[..]; MAX_IOV + 3];
    let mut op = Pwritev::new(0, buffers);
    assert_eq!(op.next(), PwritevStep::Write { offset: 0 });
    assert_eq!(op.iovecs().len(), MAX_IOV);
    assert_eq!(op.answer(WriteAnswer::Wrote(2)), Ok(()));
    assert_eq!(op.iovecs().len(), MAX_IOV - 2);
    assert_eq!(op.next(), PwritevStep::Write { offset: 2 });
    assert_eq!(op.iovecs().len(), MAX_IOV);
    assert_eq!(op.answer(WriteAnswer::Wrote(MAX_IOV)), Ok(()));
    assert_eq!(op.next(), PwritevStep::Write { offset: 2 + MAX_IOV as i64 });
    assert_eq!(op.iovecs().len(), 1);
    assert_eq!(op.answer(WriteAnswer::Wrote(1)), Ok(()));
    assert_eq!(op.next(), PwritevStep::Complete(MAX_IOV as i32 + 3));
}

#[test]
fn pwritev_of_nothing_completes_at_once() {
    let mut none = Pwritev::new(3, Vec::new());
    assert_eq!(none.next(), PwritevStep::Complete(0));
    let mut empty = Pwritev::new(3, vec![&b""[..], &b""[..]]);
    assert_eq!(empty.next(), PwritevStep::Complete(0));
}

#[test]
fn pwritev_errors() {
    let mut op = Pwritev::new(5, vec![&b"ab"[..], &b"c"[..]]);
    assert_eq!(op.next(), PwritevStep::Write { offset: 5 });
    assert_eq!(
        op.answer(WriteAnswer::Failed(ErrorKind::StorageFull)),
        failed(ErrorKind::StorageFull, "pwritev")
    );
    assert_eq!(op.answer(WriteAnswer::Wrote(0)), failed(ErrorKind::UnexpectedEof, "pwritev"));
    assert!(!op.accepts(WriteAnswer::Wrote(4)));
    assert!(op.accepts(WriteAnswer::Wrote(3)));
    assert_eq!(op.next(), PwritevStep::Write { offset: 5 });
    assert_eq!(op.requested(), 3);
}

#[test]
fn a_single_buffer_goes_by_plain_writes() {
    let file = UnixFile::new("db");
    match file.pwritev(8, vec![&b"abc"[..]]) {
        WriteOp::Single(op) => {
            assert_eq!(op.next(), PwriteStep::Write { bytes: b"abc", offset: 8 })
        }
        WriteOp::Vectored(_) => panic!("vectored"),
    }
    assert!(matches!(file.pwritev(8, vec![&b"a"[..], &b"b"[..]]), WriteOp::Vectored(_)));
    assert!(matches!(file.pwritev(8, Vec::new()), WriteOp::Vectored(_)));
    assert_eq!(file.pwrite(1, b"z").next(), PwriteStep::Write { bytes: b"z", offset: 1 });
}

#[test]
fn writes_end_after_at_most_one_call_per_byte() {
    let mut one = Pwrite::new(0, b"abcdef");
    let mut calls = 0;
    while let PwriteStep::Write { .. } = one.next() {
        assert_eq!(one.answer(WriteAnswer::Wrote(1)), Ok(()));
        calls += 1;
    }
    assert_eq!(calls, 6);
    let mut many = Pwritev::new(0, vec![&b"abc"[..], &b"def"[..]]);
    let mut calls = 0;
    while let PwritevStep::Write { .. } = many.next() {
        assert_eq!(many.answer(WriteAnswer::Wrote(1)), Ok(()));
        calls += 1;
    }
    assert_eq!(calls, 6);
}

#[test]
fn interrupted_calls_are_made_again_unchanged() {
    let interrupted = WriteAnswer::Failed(ErrorKind::Interrupted);
    let mut one = Pwrite::new(2, b"abc");
    let before = one.next();
    assert_eq!(one.answer(interrupted), Ok(()));
    assert_eq!(one.next(), before);
    let mut many = Pwritev::new(2, vec![&b"ab"[..], &b"cd"[..]]);
    assert_eq!(many.next(), PwritevStep::Write { offset: 2 });
    assert_eq!(many.answer(WriteAnswer::Wrote(1)), Ok(()));
    let before = many.next();
    let entries: Vec<Vec<u8>> = many.iovecs().iter().map(|entry| entry.bytes.to_vec()).collect();
    assert_eq!(entries, vec![b"b".to_vec(), b"cd".to_vec()]);
    assert_eq!(many.answer(interrupted), Ok(()));
    assert_eq!(many.next(), before);
    let again: Vec<Vec<u8>> = many.iovecs().iter().map(|entry| entry.bytes.to_vec()).collect();
    assert_eq!(again, entries);
}
