use unix_io::iovec::{buf_to_iovecs, trim_iovecs, IoVec, MAX_IOV, MAX_PWRITE_LEN};

fn list<'a>(iov: &[IoVec<'a>]) -> Vec<&'a [u8]> {
    iov.iter().map(|entry| entry.bytes).collect()
}

#[test]
fn limits_are_those_of_the_kernel() {
    assert_eq!(MAX_PWRITE_LEN, 2147483647);
    assert_eq!(MAX_IOV, 1024);
}

#[test]
fn a_small_buffer_is_one_entry() {
    let mut iov = Vec::new();
    assert_eq!(buf_to_iovecs(b"hello", &mut iov, MAX_IOV), 5);
    assert_eq!(list(&iov), vec![&b"hello"[..]]);
}

#[test]
fn an_empty_buffer_is_no_entry() {
    let mut iov = Vec::new();
    assert_eq!(buf_to_iovecs(b"", &mut iov, MAX_IOV), 0);
    assert!(iov.is_empty());
}

#[test]
fn entries_are_appended() {
    let mut iov = vec![IoVec { bytes: b"one" }];
    assert_eq!(buf_to_iovecs(b"two", &mut iov, 2), 3);
    assert_eq!(list(&iov), vec![&b"one"[..], &b"two"[..]]);
}

#[test]
fn a_full_list_takes_nothing() {
    let mut iov = vec![IoVec { bytes: b"one" }];
    assert_eq!(buf_to_iovecs(b"two", &mut iov, 1), 0);
    assert_eq!(list(&iov), vec![&b"one"[..]]);
    assert_eq!(buf_to_iovecs(b"two", &mut iov, 0), 0);
    assert_eq!(iov.len(), 1);
}

#[test]
fn a_large_buffer_is_split_and_resumed() {
    let len = MAX_PWRITE_LEN + 7;
    let buf = vec![0u8; len];
    let mut iov = Vec::new();
    assert_eq!(buf_to_iovecs(&buf, &mut iov, MAX_IOV), len);
    let lens: Vec<usize> = iov.iter().map(|entry| entry.bytes.len()).collect();
    assert_eq!(lens, vec![MAX_PWRITE_LEN, 7]);

    let mut first = Vec::new();
    let taken = buf_to_iovecs(&buf, &mut first, 1);
    assert_eq!(taken, MAX_PWRITE_LEN);
    let mut second = Vec::new();
    assert_eq!(buf_to_iovecs(&buf[taken..], &mut second, 1), 7);
    assert_eq!(second[0].bytes.len(), 7);
    assert_eq!(first[0].bytes.as_ptr(), iov[0].bytes.as_ptr());
    assert_eq!(second[0].bytes.as_ptr(), iov[1].bytes.as_ptr());
}

#[test]
fn trimming_drops_entries_and_cuts_the_front() {
    let whole = || vec![IoVec { bytes: b"abc" }, IoVec { bytes: b"de" }, IoVec { bytes: b"f" }];
    let mut iov = whole();
    trim_iovecs(&mut iov, 0);
    assert_eq!(list(&iov), vec![&b"abc"[..], &b"de"[..], &b"f"[..]]);
    let mut iov = whole();
    trim_iovecs(&mut iov, 2);
    assert_eq!(list(&iov), vec![&b"c"[..], &b"de"[..], &b"f"[..]]);
    let mut iov = whole();
    trim_iovecs(&mut iov, 3);
    assert_eq!(list(&iov), vec![&b"de"[..], &b"f"[..]]);
    let mut iov = whole();
    trim_iovecs(&mut iov, 4);
    assert_eq!(list(&iov), vec![&b"e"[..], &b"f"[..]]);
    let mut iov = whole();
    trim_iovecs(&mut iov, 6);
    assert!(iov.is_empty());
}

#[test]
fn trims_add_up() {
    let whole = || vec![IoVec { bytes: b"abc" }, IoVec { bytes: b"de" }, IoVec { bytes: b"f" }];
    for a in 0..7 {
        for b in 0..(7 - a) {
            let mut twice = whole();
            trim_iovecs(&mut twice, a);
            trim_iovecs(&mut twice, b);
            let mut once = whole();
            trim_iovecs(&mut once, a + b);
            assert_eq!(list(&twice), list(&once));
        }
    }
}
