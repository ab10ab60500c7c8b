//! An open file: how it is opened, locked, read, written and synced.

use crate::error::{io_error, CompletionError, ErrorKind, IoError, LimboError};
use crate::shared_wal::{
    unix_shared_wal_lock_byte, unix_shared_wal_map, unix_shared_wal_unlock_byte, ByteLockCall,
    SharedWalLockKind, SharedWalMapRequest,
};
use crate::sync_laws::SyncEvent;
use crate::sync_queue::{FileSyncType, SyncQueue, SyncQueueView};
use crate::text::join;
use crate::write::{Pwrite, Pwritev};
use vstd::prelude::*;
use vstd::string::StringExecFns;

verus! {

/// How a file is to be opened.
#[derive(Clone, Copy, Debug, PartialEq, Eq, Structural)]
pub struct OpenFlags {
    /// Create the file if it is not there.
    pub create: bool,
    /// Only read the file.
    pub read_only: bool,
    /// Do not lock the file.
    pub no_lock: bool,
}

/// A lock call on a whole file. None of them waits.
#[derive(Clone, Copy, Debug, PartialEq, Eq, Structural)]
pub enum FlockOperation {
    NonBlockingLockExclusive,
    NonBlockingLockShared,
    NonBlockingUnlock,
}

/// How the operating system is asked to open a file, and the lock that is taken then.
#[derive(Clone, Copy, Debug, PartialEq, Eq, Structural)]
pub struct OpenPlan {
    pub read: bool,
    pub write: bool,
    pub create: bool,
    pub lock: Option<FlockOperation>,
}

/// The call that syncs a file.
#[derive(Clone, Copy, Debug, PartialEq, Eq, Structural)]
pub enum SyncCall {
    Fsync,
    /// The call of Apple's systems that also empties the cache of the drive.
    FullFsync,
}

/// How a file is unlocked.
#[derive(Clone, Copy, Debug, PartialEq, Eq, Structural)]
pub enum UnlockStep {
    /// Wait until this sync is settled, and ask again.
    WaitFor(u64),
    /// Make this call.
    Unlock(FlockOperation),
}

/// How a byte is unlocked.
#[derive(Debug, PartialEq, Eq)]
pub enum ByteUnlockStep {
    /// Wait until this sync is settled, and ask again.
    WaitFor(u64),
    /// Make this call, or return the error.
    Unlock(Result<ByteLockCall, LimboError>),
}

/// A read call: how many bytes it asks for, and where they are in the file.
#[derive(Clone, Copy, Debug, PartialEq, Eq, Structural)]
pub struct ReadCall {
    pub len: usize,
    pub offset: i64,
}

/// A write of buffers.
pub enum WriteOp<'a> {
    /// A single buffer goes by plain writes.
    Single(Pwrite<'a>),
    Vectored(Pwritev<'a>),
}

/// An open file: its path, and the last sync of it that was accepted.
pub struct UnixFile {
    path: String,
    pending_sync: Option<u64>,
}

/// What an open file is to its users.
pub struct UnixFileView {
    pub path: Seq<char>,
    pub pending_sync: Option<u64>,
}

impl UnixFileView {
    /// The file after a sync of it was submitted with this answer.
    pub open spec fn synced(self, id: Result<u64, LimboError>) -> Self {
        match id {
            Ok(accepted) => UnixFileView { pending_sync: Some(accepted), ..self },
            Err(_) => self,
        }
    }

    /// The last sync of the file is `id` or a later one.
    pub open spec fn not_before(self, id: u64) -> bool {
        self.pending_sync matches Some(last) && id <= last
    }

    /// The last sync of the file went to this queue.
    pub open spec fn known_to<F, C, W>(self, v: SyncQueueView<F, C, W>) -> bool {
        self.pending_sync matches Some(id) ==> id < v.next_id
    }
}

impl View for UnixFile {
    type V = UnixFileView;

    closed spec fn view(&self) -> UnixFileView {
        UnixFileView { path: self.path@, pending_sync: self.pending_sync }
    }
}

/// The sync that has to be settled before a file with the last sync `pending_sync` is unlocked,
/// where there is one. Without a queue nothing is outstanding.
pub open spec fn awaited<F, C, W>(
    pending_sync: Option<u64>,
    queue: Option<&SyncQueue<F, C, W>>,
) -> Option<u64> {
    match (pending_sync, queue) {
        (Some(id), Some(queue)) => if queue@.settled(id) {
            None
        } else {
            Some(id)
        },
        _ => None,
    }
}

/// How a file with the last sync `pending_sync` is unlocked.
pub open spec fn unlock_step<F, C, W>(
    pending_sync: Option<u64>,
    queue: Option<&SyncQueue<F, C, W>>,
) -> UnlockStep {
    match awaited(pending_sync, queue) {
        Some(id) => UnlockStep::WaitFor(id),
        None => UnlockStep::Unlock(FlockOperation::NonBlockingUnlock),
    }
}

/// The message of a lock on the file `path` that failed with `error`.
pub open spec fn lock_message(path: Seq<char>, error: IoError) -> Seq<char> {
    if error.kind == ErrorKind::WouldBlock {
        "Failed locking file '"@ + path + "'. File is locked by another process"@
    } else {
        "Failed locking file '"@ + path + "', "@ + error.text@
    }
}

/// The operation that locks a file.
pub open spec fn lock_operation(exclusive: bool) -> FlockOperation {
    if exclusive {
        FlockOperation::NonBlockingLockExclusive
    } else {
        FlockOperation::NonBlockingLockShared
    }
}

impl UnixFile {
    /// The file that was opened under `path`. No sync of it was accepted yet.
    pub fn new(path: &str) -> (file: Self)
        ensures
            file@ == (UnixFileView { path: path@, pending_sync: None }),
    {
        UnixFile { path: String::from_str(path), pending_sync: None }
    }

    /// The call that locks the file, exclusively or shared. The lock ends when the file is closed
    /// or unlocked, or the process exits.
    pub fn lock_file(&self, exclusive: bool) -> (operation: FlockOperation)
        ensures
            operation == lock_operation(exclusive),
    {
        if exclusive {
            FlockOperation::NonBlockingLockExclusive
        } else {
            FlockOperation::NonBlockingLockShared
        }
    }

    /// What the answer to the call of `lock_file` means.
    pub fn lock_file_answer(&self, answer: Result<(), IoError>) -> (result: Result<(), LimboError>)
        ensures
            match answer {
                Ok(_) => result == Ok::<(), LimboError>(()),
                Err(error) => result matches Err(LimboError::LockingError(message)) && message@
                    == lock_message(self@.path, error),
            },
    {
        match answer {
            Ok(_) => Ok(()),
            Err(error) => {
                let mut message: String = join("Failed locking file '", self.path.as_str());
                if error.kind == ErrorKind::WouldBlock {
                    message.append("'. File is locked by another process");
                } else {
                    message.append("', ");
                    message.append(error.text.as_str());
                }
                Err(LimboError::LockingError(message))
            },
        }
    }

    fn awaited_sync<F, C, W>(&self, queue: Option<&SyncQueue<F, C, W>>) -> (id: Option<u64>)
        requires
            queue matches Some(q) ==> q@.wf(),
        ensures
            id == awaited(self@.pending_sync, queue),
    {
        if let Some(id) = self.pending_sync {
            if let Some(queue) = queue {
                if !queue.is_settled(id) {
                    return Some(id);
                }
            }
        }
        None
    }

    /// The call that unlocks the file, once its last sync is settled. `queue` is the queue that
    /// the syncs went to, if it is still there.
    pub fn unlock_file<F, C, W>(&self, queue: Option<&SyncQueue<F, C, W>>) -> (step: UnlockStep)
        requires
            queue matches Some(q) ==> q@.wf(),
        ensures
            step == match awaited(self@.pending_sync, queue) {
                Some(id) => UnlockStep::WaitFor(id),
                None => UnlockStep::Unlock(FlockOperation::NonBlockingUnlock),
            },
            step == unlock_step(self@.pending_sync, queue),
            step matches UnlockStep::WaitFor(id) <==> {
                &&& self@.pending_sync matches Some(id)
                &&& queue matches Some(q)
                &&& !q@.settled(id)
            },
            step matches UnlockStep::WaitFor(id) ==> self@.pending_sync == Some(id),
            step matches UnlockStep::Unlock(operation) ==> operation
                == FlockOperation::NonBlockingUnlock,
    {
        match self.awaited_sync(queue) {
            Some(id) => UnlockStep::WaitFor(id),
            None => UnlockStep::Unlock(FlockOperation::NonBlockingUnlock),
        }
    }

    /// What the answer to the call of `unlock_file` means.
    pub fn unlock_file_answer(&self, answer: Result<(), IoError>) -> (result: Result<
        (),
        LimboError,
    >)
        ensures
            match answer {
                Ok(_) => result == Ok::<(), LimboError>(()),
                Err(error) => result matches Err(LimboError::LockingError(message)) && message@
                    == "Failed to release file lock: "@ + error.text@,
            },
    {
        match answer {
            Ok(_) => Ok(()),
            Err(error) => Err(
                LimboError::LockingError(
                    join("Failed to release file lock: ", error.text.as_str()),
                ),
            ),
        }
    }

    /// The call that reads into `buf` from `pos` on. It asks for the whole buffer; the position
    /// goes to it as a signed number of the same bits.
    pub fn pread(&self, pos: u64, buf: &[u8]) -> (call: ReadCall)
        ensures
            call.len == buf@.len(),
            call.offset == pos as i64,
    {
        ReadCall {
            len: buf.len(),
            offset: #[verifier::truncate]
            (pos as i64),
        }
    }

    /// What a read completes with: the number of bytes that were read.
    pub fn pread_answer(&self, answer: Result<isize, ErrorKind>) -> (result: Result<
        i32,
        LimboError,
    >)
        ensures
            result == match answer {
                Ok(n) => Ok::<i32, LimboError>(n as i32),
                Err(kind) => Err::<i32, LimboError>(
                    LimboError::CompletionError(CompletionError::IOError(kind, "pread")),
                ),
            },
    {
        match answer {
            Ok(n) => Ok(
                #[verifier::truncate]
                (n as i32),
            ),
            Err(kind) => Err(io_error(kind, "pread")),
        }
    }

    /// A write of `buffer` at `pos`.
    pub fn pwrite<'a>(&self, pos: u64, buffer: &'a [u8]) -> (op: Pwrite<'a>)
        ensures
            op@ == (crate::write::PwriteView { data: buffer@, written: 0, pos }),
    {
        Pwrite::new(pos, buffer)
    }

    /// A write of `buffers`, one behind the other, at `pos`.
    pub fn pwritev<'a>(&self, pos: u64, buffers: Vec<&'a [u8]>) -> (op: WriteOp<'a>)
        requires
            crate::write::buffer_bytes(buffers@).flatten().len() <= usize::MAX,
        ensures
            match op {
                WriteOp::Single(single) => {
                    &&& buffers@.len() == 1
                    &&& single@ == (crate::write::PwriteView {
                        data: buffers@[0]@,
                        written: 0,
                        pos,
                    })
                },
                WriteOp::Vectored(vectored) => {
                    &&& buffers@.len() != 1
                    &&& vectored.wf()
                    &&& vectored@ == (crate::write::PwritevView {
                        buffers: crate::write::buffer_bytes(buffers@),
                        iov: Seq::empty(),
                        rest: crate::write::all_chunks(crate::write::buffer_bytes(buffers@)),
                        written: 0,
                        pos,
                    })
                },
            },
    {
        if buffers.len() == 1 {
            return WriteOp::Single(self.pwrite(pos, buffers[0]));
        }
        WriteOp::Vectored(Pwritev::new(pos, buffers))
    }

    /// Submits a sync of the file to `queue`, if it is still there. `handle` keeps the file open
    /// until the sync is performed. Where it is refused, nothing changes.
    pub fn sync<F, C, W>(
        &mut self,
        queue: Option<&mut SyncQueue<F, C, W>>,
        completion: C,
        handle: F,
        sync_type: FileSyncType,
        context: W,
    ) -> (id: Result<u64, LimboError>)
        requires
            queue matches Some(q) ==> q@.wf() && q@.has_number(),
        ensures
            match queue {
                None => id == Err::<u64, LimboError>(
                    crate::sync_queue::submit_error("sync IO dropped"),
                ),
                Some(q) => {
                    &&& final(q)@.wf()
                    &&& final(q)@ == q@.submitted(completion, handle, sync_type, context)
                    &&& id == if !q@.open {
                        Err::<u64, LimboError>(crate::sync_queue::submit_error("sync IO stopped"))
                    } else if !q@.worker_running {
                        Err::<u64, LimboError>(crate::sync_queue::submit_error("submit sync"))
                    } else {
                        Ok::<u64, LimboError>(q@.next_id)
                    }
                    &&& id is Err ==> final(q)@ == q@
                },
            },
            final(self)@ == old(self)@.synced(id),
    {
        match queue {
            None => Err(io_error(ErrorKind::BrokenPipe, "sync IO dropped")),
            Some(queue) => match queue.submit(completion, handle, sync_type, context) {
                Ok(id) => {
                    self.pending_sync = Some(id);
                    Ok(id)
                },
                Err(error) => Err(error),
            },
        }
    }

    /// The size of the file.
    pub fn size_answer(&self, answer: Result<u64, ErrorKind>) -> (result: Result<u64, LimboError>)
        ensures
            result == match answer {
                Ok(size) => Ok::<u64, LimboError>(size),
                Err(kind) => Err::<u64, LimboError>(
                    LimboError::CompletionError(CompletionError::IOError(kind, "metadata")),
                ),
            },
    {
        match answer {
            Ok(size) => Ok(size),
            Err(kind) => Err(io_error(kind, "metadata")),
        }
    }

    /// What a truncation completes with.
    pub fn truncate_answer(&self, answer: Result<(), ErrorKind>) -> (result: Result<
        i32,
        LimboError,
    >)
        ensures
            result == match answer {
                Ok(_) => Ok::<i32, LimboError>(0),
                Err(kind) => Err::<i32, LimboError>(
                    LimboError::CompletionError(CompletionError::IOError(kind, "truncate")),
                ),
            },
    {
        match answer {
            Ok(_) => Ok(0),
            Err(kind) => Err(io_error(kind, "truncate")),
        }
    }

    /// The call that locks the byte at `offset` and waits for it.
    pub fn shared_wal_lock_byte(
        &self,
        offset: u64,
        exclusive: bool,
        kind: SharedWalLockKind,
        linux: bool,
    ) -> (call: Result<ByteLockCall, LimboError>)
        ensures
            if kind == SharedWalLockKind::LinuxOfd && !linux {
                crate::shared_wal::refuses_ofd(call)
            } else {
                call == Ok::<ByteLockCall, LimboError>(
                    crate::shared_wal::byte_lock_call(
                        offset,
                        crate::shared_wal::lock_type(exclusive),
                        true,
                        kind,
                    ),
                )
            },
    {
        unix_shared_wal_lock_byte(offset, exclusive, true, kind, linux)
    }

    /// The call that locks the byte at `offset` if it is free.
    pub fn shared_wal_try_lock_byte(
        &self,
        offset: u64,
        exclusive: bool,
        kind: SharedWalLockKind,
        linux: bool,
    ) -> (call: Result<ByteLockCall, LimboError>)
        ensures
            if kind == SharedWalLockKind::LinuxOfd && !linux {
                crate::shared_wal::refuses_ofd(call)
            } else {
                call == Ok::<ByteLockCall, LimboError>(
                    crate::shared_wal::byte_lock_call(
                        offset,
                        crate::shared_wal::lock_type(exclusive),
                        false,
                        kind,
                    ),
                )
            },
    {
        unix_shared_wal_lock_byte(offset, exclusive, false, kind, linux)
    }

    /// The call that unlocks the byte at `offset`, once the last sync of the file is settled.
    pub fn shared_wal_unlock_byte<F, C, W>(
        &self,
        queue: Option<&SyncQueue<F, C, W>>,
        offset: u64,
        kind: SharedWalLockKind,
        linux: bool,
    ) -> (step: ByteUnlockStep)
        requires
            queue matches Some(q) ==> q@.wf(),
        ensures
            match awaited(self@.pending_sync, queue) {
                Some(id) => step == ByteUnlockStep::WaitFor(id),
                None => step matches ByteUnlockStep::Unlock(call) && if kind
                    == SharedWalLockKind::LinuxOfd && !linux {
                    crate::shared_wal::refuses_ofd(call)
                } else {
                    call == Ok::<ByteLockCall, LimboError>(
                        crate::shared_wal::byte_lock_call(
                            offset,
                            crate::shared_wal::LockType::Unlock,
                            false,
                            kind,
                        ),
                    )
                },
            },
    {
        match self.awaited_sync(queue) {
            Some(id) => ByteUnlockStep::WaitFor(id),
            None => ByteUnlockStep::Unlock(unix_shared_wal_unlock_byte(offset, kind, linux)),
        }
    }

    /// What the answer to a resize of the coordination file means.
    pub fn shared_wal_set_len_answer(&self, answer: Result<(), ErrorKind>) -> (result: Result<
        (),
        LimboError,
    >)
        ensures
            result == match answer {
                Ok(_) => Ok::<(), LimboError>(()),
                Err(kind) => Err::<(), LimboError>(
                    LimboError::CompletionError(
                        CompletionError::IOError(kind, "resize shared WAL coordination file"),
                    ),
                ),
            },
    {
        match answer {
            Ok(_) => Ok(()),
            Err(kind) => Err(io_error(kind, "resize shared WAL coordination file")),
        }
    }

    /// A request to map `len` bytes of the file from `offset` on.
    pub fn shared_wal_map(&self, offset: u64, len: usize) -> (request: Result<
        SharedWalMapRequest,
        LimboError,
    >)
        ensures
            if len == 0 {
                request matches Err(LimboError::InternalError(message)) && message@
                    == "cannot mmap shared WAL coordination region with zero length"@
            } else {
                request == Ok::<SharedWalMapRequest, LimboError>(
                    SharedWalMapRequest { offset, len },
                )
            },
    {
        unix_shared_wal_map(offset, len)
    }
}

/// The call that syncs a file. `apple` says whether the platform is one of Apple's; the others
/// have one call for both ways.
pub fn sync_call(sync_type: FileSyncType, apple: bool) -> (call: SyncCall)
    ensures
        call == if apple && sync_type == FileSyncType::FullFsync {
            SyncCall::FullFsync
        } else {
            SyncCall::Fsync
        },
{
    if apple {
        match sync_type {
            FileSyncType::Fsync => SyncCall::Fsync,
            FileSyncType::FullFsync => SyncCall::FullFsync,
        }
    } else {
        SyncCall::Fsync
    }
}

/// The outcome of a sync.
pub fn sync_file(answer: Result<(), ErrorKind>) -> (outcome: Result<(), CompletionError>)
    ensures
        outcome == match answer {
            Ok(_) => Ok::<(), CompletionError>(()),
            Err(kind) => Err::<(), CompletionError>(CompletionError::IOError(kind, "sync")),
        },
{
    match answer {
        Ok(_) => Ok(()),
        Err(kind) => Err(CompletionError::IOError(kind, "sync")),
    }
}

/// One thing that happens to a file and to the queue of its syncs.
pub enum FileEvent<F, C, W> {
    /// A sync of the file is submitted.
    Sync { completion: C, handle: F, sync_type: FileSyncType, context: W },
    /// Anything else happens to the queue, such as the sync of another file.
    Other(SyncEvent<F, C, W>),
}

/// What happens to the queue.
pub open spec fn queue_event<F, C, W>(event: FileEvent<F, C, W>) -> SyncEvent<F, C, W> {
    match event {
        FileEvent::Sync { completion, handle, sync_type, context } => SyncEvent::Submit {
            completion,
            file: handle,
            sync_type,
            context,
        },
        FileEvent::Other(event) => event,
    }
}

/// What a history of the file does to the queue.
pub open spec fn queue_events<F, C, W>(events: Seq<FileEvent<F, C, W>>) -> Seq<
    SyncEvent<F, C, W>,
> {
    events.map_values(|event: FileEvent<F, C, W>| queue_event(event))
}

/// This event is a sync of the file that the queue accepts.
pub open spec fn accepts_sync<F, C, W>(
    v: SyncQueueView<F, C, W>,
    event: FileEvent<F, C, W>,
) -> bool {
    event is Sync && v.open && v.worker_running
}

/// The file after a history of it, where its queue is `v` before.
pub open spec fn file_run<F, C, W>(
    file: UnixFileView,
    v: SyncQueueView<F, C, W>,
    events: Seq<FileEvent<F, C, W>>,
) -> UnixFileView
    decreases events.len(),
{
    if events.len() == 0 {
        file
    } else {
        let next = crate::sync_laws::apply(v, queue_event(events[0]));
        if accepts_sync(v, events[0]) {
            file_run(file.synced(Ok(v.next_id)), next, events.drop_first())
        } else {
            file_run(file, next, events.drop_first())
        }
    }
}

/// The numbers of the syncs of the file that a history has accepted.
pub open spec fn own_syncs<F, C, W>(
    v: SyncQueueView<F, C, W>,
    events: Seq<FileEvent<F, C, W>>,
) -> Seq<u64>
    decreases events.len(),
{
    if events.len() == 0 {
        Seq::empty()
    } else {
        let rest = own_syncs(
            crate::sync_laws::apply(v, queue_event(events[0])),
            events.drop_first(),
        );
        if accepts_sync(v, events[0]) {
            seq![v.next_id] + rest
        } else {
            rest
        }
    }
}

/// A file that was just opened is known to every queue.
pub proof fn law_new_file_is_known_to_every_queue<F, C, W>(
    path: Seq<char>,
    v: SyncQueueView<F, C, W>,
)
    ensures
        (UnixFileView { path, pending_sync: None }).known_to(v),
{
}

/// Every history leaves a file known to its queue, and the sync that the file remembers is the
/// last one of all that were accepted of it.
pub proof fn law_file_remembers_its_last_sync<F, C, W>(
    file: UnixFileView,
    v: SyncQueueView<F, C, W>,
    events: Seq<FileEvent<F, C, W>>,
)
    requires
        v.wf(),
        crate::sync_laws::numbered(v, queue_events(events)),
        file.known_to(v),
    ensures
        file_run(file, v, events).known_to(crate::sync_laws::run(v, queue_events(events))),
        file.pending_sync matches Some(id) ==> file_run(file, v, events).not_before(id),
        forall|k: int|
            0 <= k < own_syncs(v, events).len() ==> file_run(file, v, events).not_before(
                #[trigger] own_syncs(v, events)[k],
            ),
    decreases events.len(),
{
    if events.len() > 0 {
        let event = queue_event(events[0]);
        let next = crate::sync_laws::apply(v, event);
        let rest = events.drop_first();
        assert(queue_events(events)[0] == event);
        assert(queue_events(events).drop_first() =~= queue_events(rest));
        assert(queue_events(events) =~= seq![event] + queue_events(rest));
        crate::sync_laws::lemma_apply(v, event);
        if accepts_sync(v, events[0]) {
            law_file_remembers_its_last_sync(file.synced(Ok(v.next_id)), next, rest);
            let end = file_run(file, v, events);
            assert forall|k: int| 0 <= k < own_syncs(v, events).len() implies end.not_before(
                #[trigger] own_syncs(v, events)[k],
            ) by {
                if k > 0 {
                    assert(own_syncs(v, events)[k] == own_syncs(next, rest)[k - 1]);
                }
            }
        } else {
            law_file_remembers_its_last_sync(file, next, rest);
        }
    }
}

/// The sync that a file remembers is the last one of all that were accepted of it, or, where none
/// was, the one that it remembered before.
pub proof fn law_file_remembers_exactly_its_last_sync<F, C, W>(
    file: UnixFileView,
    v: SyncQueueView<F, C, W>,
    events: Seq<FileEvent<F, C, W>>,
)
    ensures
        ({
            let own = own_syncs(v, events);
            let end = file_run(file, v, events);
            &&& end.path == file.path
            &&& own.len() == 0 ==> end.pending_sync == file.pending_sync
            &&& own.len() > 0 ==> end.pending_sync == Some(own.last())
        }),
    decreases events.len(),
{
    if events.len() > 0 {
        let next = crate::sync_laws::apply(v, queue_event(events[0]));
        let rest = events.drop_first();
        if accepts_sync(v, events[0]) {
            law_file_remembers_exactly_its_last_sync(file.synced(Ok(v.next_id)), next, rest);
        } else {
            law_file_remembers_exactly_its_last_sync(file, next, rest);
        }
    }
}

/// An accepted sync is what the file remembers from then on; a refused one leaves the file as it
/// is.
pub proof fn law_file_remembers_accepted_syncs_alone(
    file: UnixFileView,
    id: u64,
    error: LimboError,
)
    ensures
        file.synced(Ok(id)).pending_sync == Some(id),
        file.synced(Ok(id)).path == file.path,
        file.synced(Err(error)) == file,
{
}

/// Unlocking waits for a sync exactly if it is the last one of the file, the queue is there, and the
/// sync is pending without an outcome. In every other case, and so when the sync is settled,
/// dispatched or not, the file is unlocked at once, by a call that does not wait.
pub proof fn law_unlock_waits_for_an_outstanding_sync_alone<F, C, W>(
    pending_sync: Option<u64>,
    queue: Option<&SyncQueue<F, C, W>>,
    id: u64,
)
    requires
        queue matches Some(q) ==> q@.wf(),
    ensures
        awaited(pending_sync, queue) == Some(id) <==> {
            &&& pending_sync == Some(id)
            &&& queue is Some
            &&& crate::step_laws::outstanding(queue->0@, id)
        },
        unlock_step(pending_sync, queue) == UnlockStep::WaitFor(id) <==> {
            &&& pending_sync == Some(id)
            &&& queue is Some
            &&& crate::step_laws::outstanding(queue->0@, id)
        },
        unlock_step(pending_sync, queue) matches UnlockStep::Unlock(operation) ==> operation
            == FlockOperation::NonBlockingUnlock,
{
    if let Some(q) = queue {
        crate::step_laws::law_settled_means_not_outstanding(q@, id);
    }
}

/// A file whose syncs are all settled, dispatched or not, is unlocked at once: nothing is awaited,
/// in whatever way its syncs and others were submitted, performed and dispatched.
pub proof fn law_unlock_is_not_held_up_by_settled_syncs<F, C, W>(
    file: UnixFileView,
    v: SyncQueueView<F, C, W>,
    events: Seq<FileEvent<F, C, W>>,
    queue: SyncQueue<F, C, W>,
)
    requires
        queue@.wf(),
        file.pending_sync is None,
        queue@ == crate::sync_laws::run(v, queue_events(events)),
        forall|k: int|
            0 <= k < own_syncs(v, events).len() ==> !crate::step_laws::outstanding(
                queue@,
                #[trigger] own_syncs(v, events)[k],
            ),
    ensures
        awaited(file_run(file, v, events).pending_sync, Some(&queue)) is None,
        unlock_step(file_run(file, v, events).pending_sync, Some(&queue)) == UnlockStep::Unlock(
            FlockOperation::NonBlockingUnlock,
        ),
{
    law_file_remembers_exactly_its_last_sync(file, v, events);
    let own = own_syncs(v, events);
    if own.len() > 0 {
        assert(!crate::step_laws::outstanding(queue@, own[own.len() - 1]));
        crate::step_laws::law_settled_means_not_outstanding(queue@, own.last());
    }
}

/// A lock on a whole file is exclusive exactly if that was asked for, and shared otherwise.
pub proof fn law_lock_is_exclusive_as_asked(exclusive: bool)
    ensures
        lock_operation(exclusive) == FlockOperation::NonBlockingLockExclusive <==> exclusive,
        lock_operation(exclusive) == FlockOperation::NonBlockingLockShared <==> !exclusive,
{
}

/// The message of a lock that failed names the file. It says that another process holds the lock, if
/// this is so, and otherwise ends with the operating system's words.
pub proof fn law_lock_failure_names_the_file(path: Seq<char>, error: IoError)
    ensures
        ({
            let head = "Failed locking file '"@;
            let message = lock_message(path, error);
            let n = head.len() + path.len();
            &&& message.len() >= n
            &&& message.take(n as int) == head + path
            &&& message.skip(n as int) == if error.kind == ErrorKind::WouldBlock {
                "'. File is locked by another process"@
            } else {
                "', "@ + error.text@
            }
        }),
{
    let n = ("Failed locking file '"@ + path).len() as int;
    let message = lock_message(path, error);
    assert(message.take(n) =~= "Failed locking file '"@ + path);
    if error.kind == ErrorKind::WouldBlock {
        assert(message.skip(n) =~= "'. File is locked by another process"@);
    } else {
        assert(message.skip(n) =~= "', "@ + error.text@);
    }
}

/// A file is unlocked only after every sync of it that was accepted is settled: in whatever way
/// syncs of this file and of others were submitted and performed, once nothing is awaited, the
/// sync `k` of the file is settled.
pub proof fn law_unlock_waits_for_every_sync_of_the_file<F, C, W>(
    file: UnixFileView,
    v: SyncQueueView<F, C, W>,
    events: Seq<FileEvent<F, C, W>>,
    queue: SyncQueue<F, C, W>,
    k: int,
)
    requires
        v.wf(),
        crate::sync_laws::numbered(v, queue_events(events)),
        file.known_to(v),
        queue@ == crate::sync_laws::run(v, queue_events(events)),
        awaited(file_run(file, v, events).pending_sync, Some(&queue)) is None,
        0 <= k < own_syncs(v, events).len(),
    ensures
        queue@.settled(own_syncs(v, events)[k]),
{
    law_file_remembers_its_last_sync(file, v, events);
    crate::sync_laws::law_histories_keep_the_queue_well_formed(v, queue_events(events));
    let id = own_syncs(v, events)[k];
    let last = file_run(file, v, events).pending_sync->0;
    assert(file_run(file, v, events).not_before(id));
    crate::sync_laws::law_earlier_syncs_are_settled_first(queue@, last, id);
}

} // verus!
