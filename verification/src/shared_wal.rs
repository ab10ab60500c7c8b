//! Byte locks on, and memory maps of, the file through which processes share a write-ahead log.

use crate::error::{ErrorKind, IoError, LimboError};
use crate::text::{append_decimal, append_signed_decimal, join};
use vstd::prelude::*;
use vstd::string::StringExecFns;

verus! {

/// How a byte lock is held.
#[derive(Clone, Copy, Debug, PartialEq, Eq, Structural)]
pub enum SharedWalLockKind {
    /// By the open file description. Linux alone has these.
    LinuxOfd,
    /// By the process.
    ProcessScopedFcntl,
}

/// The lock that a call sets.
#[derive(Clone, Copy, Debug, PartialEq, Eq, Structural)]
pub enum LockType {
    Read,
    Write,
    Unlock,
}

/// The command of a lock call. Those that end in `W` wait until the lock is free.
#[derive(Clone, Copy, Debug, PartialEq, Eq, Structural)]
pub enum LockCommand {
    OfdSetLkW,
    OfdSetLk,
    SetLkW,
    SetLk,
}

/// A lock call: its command and its record. `start` counts from the start of the file.
#[derive(Clone, Copy, Debug, PartialEq, Eq, Structural)]
pub struct ByteLockCall {
    pub command: LockCommand,
    pub lock_type: LockType,
    pub start: i64,
    pub len: i64,
    pub pid: i32,
}

/// What follows the answer to a lock call.
#[derive(Debug, PartialEq, Eq)]
pub enum ByteLockStep {
    /// Make the call again.
    Retry,
    /// Return this: whether the lock is held.
    Return(Result<bool, LimboError>),
}

/// The command for a lock of the given kind that waits or does not.
pub open spec fn lock_command(kind: SharedWalLockKind, blocking: bool) -> LockCommand {
    match kind {
        SharedWalLockKind::LinuxOfd => if blocking {
            LockCommand::OfdSetLkW
        } else {
            LockCommand::OfdSetLk
        },
        SharedWalLockKind::ProcessScopedFcntl => if blocking {
            LockCommand::SetLkW
        } else {
            LockCommand::SetLk
        },
    }
}

/// A call with this command waits until the lock is free.
pub open spec fn waits(command: LockCommand) -> bool {
    command == LockCommand::OfdSetLkW || command == LockCommand::SetLkW
}

/// The type of a lock that is held exclusively or shared.
pub open spec fn lock_type(exclusive: bool) -> LockType {
    if exclusive {
        LockType::Write
    } else {
        LockType::Read
    }
}

/// The call that sets a lock of type `lock_type` on the byte at `offset`.
pub open spec fn byte_lock_call(
    offset: u64,
    lock_type: LockType,
    blocking: bool,
    kind: SharedWalLockKind,
) -> ByteLockCall {
    ByteLockCall {
        command: lock_command(kind, blocking),
        lock_type,
        start: offset as i64,
        len: 1,
        pid: 0,
    }
}

/// `result` refuses a kind of lock that the platform does not have.
pub open spec fn refuses_ofd(result: Result<ByteLockCall, LimboError>) -> bool {
    result matches Err(LimboError::InternalError(message)) && message@
        == "linux OFD locks are not supported on this platform"@
}

fn byte_lock(
    offset: u64,
    lock_type: LockType,
    blocking: bool,
    kind: SharedWalLockKind,
    linux: bool,
) -> (call: Result<ByteLockCall, LimboError>)
    ensures
        if kind == SharedWalLockKind::LinuxOfd && !linux {
            refuses_ofd(call)
        } else {
            call == Ok::<ByteLockCall, LimboError>(
                byte_lock_call(offset, lock_type, blocking, kind),
            )
        },
{
    let command: LockCommand = match kind {
        SharedWalLockKind::LinuxOfd => {
            if !linux {
                return Err(
                    LimboError::InternalError(
                        String::from_str("linux OFD locks are not supported on this platform"),
                    ),
                );
            }
            if blocking {
                LockCommand::OfdSetLkW
            } else {
                LockCommand::OfdSetLk
            }
        },
        SharedWalLockKind::ProcessScopedFcntl => if blocking {
            LockCommand::SetLkW
        } else {
            LockCommand::SetLk
        },
    };
    Ok(
        ByteLockCall {
            command,
            lock_type,
            start: #[verifier::truncate]
            (offset as i64),
            len: 1,
            pid: 0,
        },
    )
}

/// The call that locks the byte at `offset`, exclusively or shared, waiting for it or not.
/// `linux` says whether the platform is Linux.
pub fn unix_shared_wal_lock_byte(
    offset: u64,
    exclusive: bool,
    blocking: bool,
    kind: SharedWalLockKind,
    linux: bool,
) -> (call: Result<ByteLockCall, LimboError>)
    ensures
        if kind == SharedWalLockKind::LinuxOfd && !linux {
            refuses_ofd(call)
        } else {
            call == Ok::<ByteLockCall, LimboError>(
                byte_lock_call(offset, lock_type(exclusive), blocking, kind),
            )
        },
{
    let lock_type: LockType = if exclusive {
        LockType::Write
    } else {
        LockType::Read
    };
    byte_lock(offset, lock_type, blocking, kind, linux)
}

/// The message of a lock call that failed with `error`.
pub open spec fn byte_lock_message(error: IoError) -> Seq<char> {
    if error.kind == ErrorKind::WouldBlock {
        "Failed locking shared WAL coordination file. File is locked by another process"@
    } else {
        "Failed locking shared WAL coordination file, "@ + error.text@
    }
}

/// What follows the answer to `call`, which came from `unix_shared_wal_lock_byte`. A call that
/// waits is made again when it is interrupted; one that does not wait reports a lock that is
/// taken.
pub fn byte_lock_answer(call: ByteLockCall, answer: Result<(), IoError>) -> (step: ByteLockStep)
    ensures
        match answer {
            Ok(_) => step == ByteLockStep::Return(Ok(true)),
            Err(error) => if waits(call.command) && error.kind == ErrorKind::Interrupted {
                step == ByteLockStep::Retry
            } else if !waits(call.command) && error.kind == ErrorKind::WouldBlock {
                step == ByteLockStep::Return(Ok(false))
            } else {
                step matches ByteLockStep::Return(Err(LimboError::LockingError(message)))
                    && message@ == byte_lock_message(error)
            },
        },
{
    let blocking: bool = match call.command {
        LockCommand::OfdSetLkW | LockCommand::SetLkW => true,
        LockCommand::OfdSetLk | LockCommand::SetLk => false,
    };
    match answer {
        Ok(_) => ByteLockStep::Return(Ok(true)),
        Err(error) => {
            if blocking && error.kind == ErrorKind::Interrupted {
                return ByteLockStep::Retry;
            }
            if !blocking && error.kind == ErrorKind::WouldBlock {
                return ByteLockStep::Return(Ok(false));
            }
            let message: String = if error.kind == ErrorKind::WouldBlock {
                String::from_str(
                    "Failed locking shared WAL coordination file. File is locked by another process",
                )
            } else {
                join("Failed locking shared WAL coordination file, ", error.text.as_str())
            };
            ByteLockStep::Return(Err(LimboError::LockingError(message)))
        },
    }
}

/// The call that unlocks the byte at `offset`. It never waits.
pub fn unix_shared_wal_unlock_byte(offset: u64, kind: SharedWalLockKind, linux: bool) -> (call:
    Result<ByteLockCall, LimboError>)
    ensures
        if kind == SharedWalLockKind::LinuxOfd && !linux {
            refuses_ofd(call)
        } else {
            call == Ok::<ByteLockCall, LimboError>(
                byte_lock_call(offset, LockType::Unlock, false, kind),
            )
        },
{
    byte_lock(offset, LockType::Unlock, false, kind, linux)
}

/// What the answer to the call of `unix_shared_wal_unlock_byte` means.
pub fn byte_unlock_answer(answer: Result<(), IoError>) -> (result: Result<(), LimboError>)
    ensures
        match answer {
            Ok(_) => result == Ok::<(), LimboError>(()),
            Err(error) => result matches Err(LimboError::LockingError(message)) && message@
                == "Failed to release shared WAL coordination lock: "@ + error.text@,
        },
{
    match answer {
        Ok(_) => Ok(()),
        Err(error) => Err(
            LimboError::LockingError(
                join("Failed to release shared WAL coordination lock: ", error.text.as_str()),
            ),
        ),
    }
}

/// A lock and the unlock of the same byte and kind reach the same bytes of the file, under the
/// same owner: the second undoes the first.
pub proof fn law_unlock_reaches_what_was_locked(
    offset: u64,
    lock_type: LockType,
    blocking: bool,
    kind: SharedWalLockKind,
)
    ensures
        ({
            let lock = byte_lock_call(offset, lock_type, blocking, kind);
            let unlock = byte_lock_call(offset, LockType::Unlock, false, kind);
            &&& unlock.start == lock.start
            &&& unlock.len == lock.len == 1
            &&& unlock.pid == lock.pid
            &&& (unlock.command == LockCommand::OfdSetLk) == (lock.command
                == LockCommand::OfdSetLk || lock.command == LockCommand::OfdSetLkW)
        }),
{
}

/// A lock call waits exactly if it was asked to.
pub proof fn law_lock_call_waits_as_asked(
    offset: u64,
    lock_type: LockType,
    blocking: bool,
    kind: SharedWalLockKind,
)
    ensures
        waits(byte_lock_call(offset, lock_type, blocking, kind).command) == blocking,
{
}

/// Locks on different bytes never overlap.
pub proof fn law_locks_on_different_bytes_are_apart(
    a: u64,
    b: u64,
    lock_type: LockType,
    blocking: bool,
    kind: SharedWalLockKind,
)
    requires
        a != b,
    ensures
        byte_lock_call(a, lock_type, blocking, kind).start != byte_lock_call(
            b,
            lock_type,
            blocking,
            kind,
        ).start,
{
    assert(a != b ==> a as i64 != b as i64) by (bit_vector);
}

/// A region of the coordination file that is to be mapped.
#[derive(Clone, Copy, Debug, PartialEq, Eq, Structural)]
pub struct SharedWalMapRequest {
    pub offset: u64,
    pub len: usize,
}

/// A memory map: it starts at `aligned_offset` of the file, which the page size divides, and is
/// `mapping_len` long. The region that was asked for starts `prefix_len` bytes into it.
#[derive(Clone, Copy, Debug, PartialEq, Eq, Structural)]
pub struct SharedWalMapPlan {
    pub offset: u64,
    pub len: usize,
    pub aligned_offset: u64,
    pub prefix_len: usize,
    pub mapping_len: usize,
}

/// A mapped region: where the map and the region in it are in memory. There is one value for each
/// map, and it is given up for the map to be unmapped, so that this happens once.
#[derive(Debug)]
pub struct UnixSharedWalMapping {
    mapping_ptr: usize,
    mapping_len: usize,
    ptr: usize,
    len: usize,
}

/// Where a map and the region in it are in memory.
pub struct UnixSharedWalMappingView {
    pub mapping_ptr: usize,
    pub mapping_len: usize,
    pub ptr: usize,
    pub len: usize,
}

impl View for UnixSharedWalMapping {
    type V = UnixSharedWalMappingView;

    closed spec fn view(&self) -> UnixSharedWalMappingView {
        UnixSharedWalMappingView {
            mapping_ptr: self.mapping_ptr,
            mapping_len: self.mapping_len,
            ptr: self.ptr,
            len: self.len,
        }
    }
}

/// A request to map `len` bytes of the file from `offset` on.
pub fn unix_shared_wal_map(offset: u64, len: usize) -> (request: Result<
    SharedWalMapRequest,
    LimboError,
>)
    ensures
        if len == 0 {
            request matches Err(LimboError::InternalError(message)) && message@
                == "cannot mmap shared WAL coordination region with zero length"@
        } else {
            request == Ok::<SharedWalMapRequest, LimboError>(SharedWalMapRequest { offset, len })
        },
{
    if len == 0 {
        return Err(
            LimboError::InternalError(
                String::from_str("cannot mmap shared WAL coordination region with zero length"),
            ),
        );
    }
    Ok(SharedWalMapRequest { offset, len })
}

/// `plan` maps `len` bytes from `offset` on with pages of `page` bytes: the map starts on the
/// page of `offset` and ends with the region.
pub open spec fn is_plan_for(plan: SharedWalMapPlan, offset: u64, len: usize, page: int) -> bool {
    &&& plan.offset == offset
    &&& plan.len == len
    &&& plan.aligned_offset == offset - offset as int % page
    &&& plan.prefix_len == offset as int % page
    &&& plan.mapping_len == plan.prefix_len + len
}

impl SharedWalMapRequest {
    /// The map for this request with pages of `page_size` bytes, as the operating system names
    /// it; where that is no size, `os_error` are the operating system's words.
    pub fn plan(&self, page_size: isize, os_error: &str) -> (plan: Result<
        SharedWalMapPlan,
        LimboError,
    >)
        ensures
            if page_size <= 0 {
                plan matches Err(LimboError::LockingError(message)) && message@
                    == "failed to determine shared WAL mmap page size: "@ + os_error@
            } else if self.offset as int % page_size as int + self.len > usize::MAX {
                plan matches Err(LimboError::InternalError(message)) && message@
                    == "shared WAL mmap length overflow"@
            } else {
                plan matches Ok(p) && is_plan_for(p, self.offset, self.len, page_size as int)
            },
    {
        if page_size <= 0 {
            return Err(
                LimboError::LockingError(
                    join("failed to determine shared WAL mmap page size: ", os_error),
                ),
            );
        }
        let page: u64 = page_size as u64;
        proof {
            vstd::arithmetic::div_mod::lemma_fundamental_div_mod(self.offset as int, page as int);
            vstd::arithmetic::mul::lemma_mul_is_commutative(
                self.offset as int / page as int,
                page as int,
            );
            vstd::arithmetic::div_mod::lemma_mod_bound(self.offset as int, page as int);
        }
        let aligned_offset: u64 = self.offset / page * page;
        let prefix_len: usize = (self.offset - aligned_offset) as usize;
        match prefix_len.checked_add(self.len) {
            Some(mapping_len) => Ok(
                SharedWalMapPlan {
                    offset: self.offset,
                    len: self.len,
                    aligned_offset,
                    prefix_len,
                    mapping_len,
                },
            ),
            None => Err(
                LimboError::InternalError(String::from_str("shared WAL mmap length overflow")),
            ),
        }
    }
}

/// The message of a map that failed.
pub open spec fn map_failed_message(
    plan: SharedWalMapPlan,
    error: Seq<char>,
    fd: i32,
    file_size: Option<i64>,
) -> Seq<char> {
    "mmap shared WAL coordination file failed: "@ + error + " (offset="@
        + crate::text::decimal(plan.offset as nat) + ", aligned_offset="@ + crate::text::decimal(
        plan.aligned_offset as nat,
    ) + ", len="@ + crate::text::decimal(plan.len as nat) + ", mapping_len="@
        + crate::text::decimal(plan.mapping_len as nat) + ", fd="@ + crate::text::signed_decimal(
        fd as int,
    ) + ", file_size="@ + crate::text::signed_decimal(
        match file_size {
            Some(n) => n as int,
            None => -1,
        },
    ) + ")"@
}

impl SharedWalMapPlan {
    /// The offset of the map in the file, as the call takes it: a signed number of the same bits.
    pub fn file_offset(&self) -> (offset: i64)
        ensures
            offset == self.aligned_offset as i64,
    {
        #[verifier::truncate]
        (self.aligned_offset as i64)
    }

    /// The region, once the map stands at the address `mapping_ptr`.
    pub fn mapped(&self, mapping_ptr: usize) -> (mapping: UnixSharedWalMapping)
        requires
            mapping_ptr != 0,
            mapping_ptr + self.prefix_len <= usize::MAX,
        ensures
            mapping@ == (UnixSharedWalMappingView {
                mapping_ptr,
                mapping_len: self.mapping_len,
                ptr: (mapping_ptr + self.prefix_len) as usize,
                len: self.len,
            }),
    {
        UnixSharedWalMapping {
            mapping_ptr,
            mapping_len: self.mapping_len,
            ptr: mapping_ptr + self.prefix_len,
            len: self.len,
        }
    }

    /// The error of a map that failed. `file_size` is the size of the file, where it is known.
    pub fn failed(&self, error: &str, fd: i32, file_size: Option<i64>) -> (result: LimboError)
        ensures
            result matches LimboError::LockingError(message) && message@ == map_failed_message(
                *self,
                error@,
                fd,
                file_size,
            ),
    {
        let mut message: String = join("mmap shared WAL coordination file failed: ", error);
        message.append(" (offset=");
        append_decimal(&mut message, self.offset);
        message.append(", aligned_offset=");
        append_decimal(&mut message, self.aligned_offset);
        message.append(", len=");
        append_decimal(&mut message, self.len as u64);
        message.append(", mapping_len=");
        append_decimal(&mut message, self.mapping_len as u64);
        message.append(", fd=");
        append_signed_decimal(&mut message, fd as i64);
        message.append(", file_size=");
        let size: i64 = match file_size {
            Some(n) => n,
            None => -1,
        };
        append_signed_decimal(&mut message, size);
        message.append(")");
        LimboError::LockingError(message)
    }
}

impl UnixSharedWalMapping {
    /// The address of the region.
    pub fn ptr(&self) -> (address: usize)
        ensures
            address == self@.ptr,
    {
        self.ptr
    }

    /// The length of the region.
    pub fn len(&self) -> (len: usize)
        ensures
            len == self@.len,
    {
        self.len
    }

    /// Gives the region up. What is to be unmapped is the whole map: its address and length.
    pub fn unmap(self) -> (whole: (usize, usize))
        ensures
            whole == (self@.mapping_ptr, self@.mapping_len),
    {
        (self.mapping_ptr, self.mapping_len)
    }
}

/// The map starts on a page boundary, at most one page before the region, and holds the region;
/// nothing of it lies behind the region.
pub proof fn law_map_is_aligned_and_holds_the_region(
    plan: SharedWalMapPlan,
    offset: u64,
    len: usize,
    page: int,
)
    requires
        page > 0,
        is_plan_for(plan, offset, len, page),
    ensures
        plan.aligned_offset as int % page == 0,
        plan.aligned_offset <= offset < plan.aligned_offset + page,
        plan.aligned_offset + plan.prefix_len == offset,
        plan.aligned_offset + plan.mapping_len == offset + len,
{
    vstd::arithmetic::div_mod::lemma_fundamental_div_mod(offset as int, page);
    vstd::arithmetic::div_mod::lemma_mod_bound(offset as int, page);
    vstd::arithmetic::div_mod::lemma_mod_multiples_basic(offset as int / page, page);
    vstd::arithmetic::mul::lemma_mul_is_commutative(offset as int / page, page);
}

/// Whatever the page size, the region shows the bytes of the file from the offset that was asked
/// for: where the map shows the file from its aligned start on, byte `i` of the region is byte
/// `offset + i` of the file.
pub proof fn law_region_shows_the_file_at_its_offset(
    plan: SharedWalMapPlan,
    offset: u64,
    len: usize,
    page: int,
    file: Seq<u8>,
)
    requires
        page > 0,
        is_plan_for(plan, offset, len, page),
        offset + len <= file.len(),
    ensures
        ({
            let map = file.subrange(
                plan.aligned_offset as int,
                plan.aligned_offset + plan.mapping_len,
            );
            map.subrange(plan.prefix_len as int, plan.prefix_len + plan.len) == file.subrange(
                offset as int,
                offset + len,
            )
        }),
{
    law_map_is_aligned_and_holds_the_region(plan, offset, len, page);
    let map = file.subrange(plan.aligned_offset as int, plan.aligned_offset + plan.mapping_len);
    assert(map.subrange(plan.prefix_len as int, plan.prefix_len + plan.len) =~= file.subrange(
        offset as int,
        offset + len,
    ));
}

/// The lock call for one byte says what it was asked for: who holds the lock, whether it waits, what
/// it locks. The offset goes to it as a signed number of the same bits.
pub proof fn law_lock_call_says_what_was_asked(
    offset: u64,
    exclusive: bool,
    blocking: bool,
    kind: SharedWalLockKind,
)
    ensures
        ({
            let call = byte_lock_call(offset, lock_type(exclusive), blocking, kind);
            let ofd = call.command == LockCommand::OfdSetLk || call.command
                == LockCommand::OfdSetLkW;
            let waiting = call.command == LockCommand::SetLkW || call.command
                == LockCommand::OfdSetLkW;
            &&& ofd <==> kind == SharedWalLockKind::LinuxOfd
            &&& waiting <==> blocking
            &&& call.lock_type == LockType::Write <==> exclusive
            &&& call.lock_type == LockType::Read <==> !exclusive
            &&& call.start as u64 == offset
            &&& offset <= i64::MAX ==> call.start == offset
            &&& call.len == 1
            &&& call.pid == 0
        }),
{
    assert((offset as i64) as u64 == offset) by (bit_vector);
}

/// The unlock call for one byte gives up this byte alone, and never waits.
pub proof fn law_unlock_call_never_waits(offset: u64, kind: SharedWalLockKind)
    ensures
        ({
            let call = byte_lock_call(offset, LockType::Unlock, false, kind);
            &&& call.lock_type == LockType::Unlock
            &&& call.command == LockCommand::OfdSetLk <==> kind == SharedWalLockKind::LinuxOfd
            &&& call.command == LockCommand::SetLk <==> kind
                == SharedWalLockKind::ProcessScopedFcntl
            &&& call.start as u64 == offset
            &&& call.len == 1
        }),
{
    assert((offset as i64) as u64 == offset) by (bit_vector);
}

/// The calls that wait are the two whose command says so.
pub proof fn law_waiting_commands(command: LockCommand)
    ensures
        waits(command) <==> command != LockCommand::OfdSetLk && command != LockCommand::SetLk,
{
}

/// A lock that another process holds is reported as such; any other failure is reported with the
/// operating system's words.
pub proof fn law_lock_failures_are_told_apart(error: IoError)
    ensures
        error.kind == ErrorKind::WouldBlock ==> byte_lock_message(error)
            == "Failed locking shared WAL coordination file. File is locked by another process"@,
        error.kind != ErrorKind::WouldBlock ==> byte_lock_message(error)
            == "Failed locking shared WAL coordination file, "@ + error.text@,
{
}

/// The refusal of a kind of lock that the platform does not have is an internal error that says so.
pub proof fn law_refusal_names_the_missing_locks(result: Result<ByteLockCall, LimboError>)
    ensures
        refuses_ofd(result) <==> (result matches Err(LimboError::InternalError(message))
            && message@ == "linux OFD locks are not supported on this platform"@),
{
}

/// The map for a request is determined: it starts on the page of the offset, ends with the region,
/// and keeps what was asked for. Every map that does so is the map for the request.
pub proof fn law_map_is_determined_by_the_request(
    plan: SharedWalMapPlan,
    offset: u64,
    len: usize,
    page: int,
)
    requires
        page > 0,
    ensures
        is_plan_for(plan, offset, len, page) <==> {
            &&& plan.offset == offset
            &&& plan.len == len
            &&& plan.aligned_offset as int % page == 0
            &&& plan.aligned_offset <= offset < plan.aligned_offset + page
            &&& plan.prefix_len == offset - plan.aligned_offset
            &&& plan.mapping_len == plan.prefix_len + len
        },
{
    if is_plan_for(plan, offset, len, page) {
        law_map_is_aligned_and_holds_the_region(plan, offset, len, page);
    }
    if plan.aligned_offset as int % page == 0 && plan.aligned_offset <= offset
        < plan.aligned_offset + page {
        let start = plan.aligned_offset as int;
        vstd::arithmetic::div_mod::lemma_mod_adds(start, offset - start, page);
        vstd::arithmetic::div_mod::lemma_small_mod((offset - start) as nat, page as nat);
    }
}

/// The message of a map that failed gives the operating system's words, the request, the map that
/// was tried, the file and its size, where an unknown size is minus one.
pub proof fn law_failed_map_is_described(
    plan: SharedWalMapPlan,
    error: Seq<char>,
    fd: i32,
    size: i64,
)
    ensures
        map_failed_message(plan, error, fd, None) == map_failed_message(
            plan,
            error,
            fd,
            Some(-1i64),
        ),
        map_failed_message(plan, error, fd, Some(size)) == seq![
            "mmap shared WAL coordination file failed: "@,
            error,
            " (offset="@,
            crate::text::decimal(plan.offset as nat),
            ", aligned_offset="@,
            crate::text::decimal(plan.aligned_offset as nat),
            ", len="@,
            crate::text::decimal(plan.len as nat),
            ", mapping_len="@,
            crate::text::decimal(plan.mapping_len as nat),
            ", fd="@,
            crate::text::signed_decimal(fd as int),
            ", file_size="@,
            crate::text::signed_decimal(size as int),
            ")"@,
        ].fold_left(Seq::<char>::empty(), |text: Seq<char>, part: Seq<char>| text + part),
{
    let parts = seq![
        "mmap shared WAL coordination file failed: "@,
        error,
        " (offset="@,
        crate::text::decimal(plan.offset as nat),
        ", aligned_offset="@,
        crate::text::decimal(plan.aligned_offset as nat),
        ", len="@,
        crate::text::decimal(plan.len as nat),
        ", mapping_len="@,
        crate::text::decimal(plan.mapping_len as nat),
        ", fd="@,
        crate::text::signed_decimal(fd as int),
        ", file_size="@,
        crate::text::signed_decimal(size as int),
        ")"@,
    ];
    let join = |text: Seq<char>, part: Seq<char>| text + part;
    reveal_with_fuel(Seq::fold_left, 16);
    assert(Seq::<char>::empty() + parts[0] =~= parts[0]);
}

} // verus!
