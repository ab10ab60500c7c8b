//! Positioned writes that go on until every byte is written.
//!
//! A write call may be interrupted, and may write fewer bytes than it was given. `Pwrite` and
//! `Pwritev` say which call comes next and take the answer to it, until all is written or a
//! call fails.

use crate::error::{io_error, CompletionError, ErrorKind, LimboError};
use crate::iovec::{buf_to_iovecs, trim_iovecs, IoVec, MAX_IOV, MAX_PWRITE_LEN};
use vstd::prelude::*;
use vstd::slice::slice_subrange;

verus! {

/// What came back from one write call.
#[derive(Clone, Copy, Debug, PartialEq, Eq, Structural)]
pub enum WriteAnswer {
    /// The call failed.
    Failed(ErrorKind),
    /// So many bytes were written.
    Wrote(usize),
}

/// The error that ends the operation `op` after `answer`, where one does. An interrupted call
/// is made again; a call that writes nothing has met an end of file that cannot be there.
pub open spec fn fatal(answer: WriteAnswer, op: &'static str) -> Option<CompletionError> {
    match answer {
        WriteAnswer::Failed(kind) => if kind == ErrorKind::Interrupted {
            None
        } else {
            Some(CompletionError::IOError(kind, op))
        },
        WriteAnswer::Wrote(n) => if n == 0 {
            Some(CompletionError::IOError(ErrorKind::UnexpectedEof, op))
        } else {
            None
        },
    }
}

/// How many bytes an answer says were written.
pub open spec fn advance(answer: WriteAnswer) -> int {
    match answer {
        WriteAnswer::Failed(_) => 0,
        WriteAnswer::Wrote(n) => n as int,
    }
}

/// The state of a write of one buffer: the bytes, how many of them are written, and where the
/// next one goes.
pub struct PwriteView {
    pub data: Seq<u8>,
    pub written: usize,
    pub pos: u64,
}

impl PwriteView {
    /// The bytes that the next call is given.
    pub open spec fn request(self) -> Seq<u8> {
        self.data.skip(self.written as int).take(
            vstd::math::min(self.data.len() - self.written, MAX_PWRITE_LEN as int),
        )
    }

    pub open spec fn is_complete(self) -> bool {
        self.written >= self.data.len()
    }

    /// Neither of the two positions leaves its type when `answer` is taken.
    pub open spec fn can_take(self, answer: WriteAnswer) -> bool {
        self.written + advance(answer) <= usize::MAX && self.pos + advance(answer) <= u64::MAX
    }

    /// The state after `answer`.
    pub open spec fn after(self, answer: WriteAnswer) -> PwriteView {
        PwriteView {
            data: self.data,
            written: (self.written + advance(answer)) as usize,
            pos: (self.pos + advance(answer)) as u64,
        }
    }
}

/// A write of one buffer at a position of a file.
pub struct Pwrite<'a> {
    buf: &'a [u8],
    total_written: usize,
    current_pos: u64,
}

/// What a write of one buffer does next.
#[derive(Clone, Copy, Debug, PartialEq, Eq)]
pub enum PwriteStep<'a> {
    /// Write `bytes` at `offset`, and hand the answer to `Pwrite::answer`.
    Write { bytes: &'a [u8], offset: i64 },
    /// All is written: complete with this result.
    Complete(i32),
}

impl<'a> View for Pwrite<'a> {
    type V = PwriteView;

    closed spec fn view(&self) -> PwriteView {
        PwriteView { data: self.buf@, written: self.total_written, pos: self.current_pos }
    }
}

impl<'a> Pwrite<'a> {
    /// A write of `buf` at `pos`, of which nothing is done yet.
    pub fn new(pos: u64, buf: &'a [u8]) -> (op: Self)
        ensures
            op@ == (PwriteView { data: buf@, written: 0, pos }),
    {
        Pwrite { buf, total_written: 0, current_pos: pos }
    }

    /// What to do next. The position goes to the call as a signed number of the same bits.
    pub fn next(&self) -> (step: PwriteStep<'a>)
        ensures
            match step {
                PwriteStep::Write { bytes, offset } => {
                    &&& !self@.is_complete()
                    &&& bytes@ == self@.request()
                    &&& offset == self@.pos as i64
                },
                PwriteStep::Complete(n) => {
                    &&& self@.is_complete()
                    &&& n == self@.written as i32
                },
            },
    {
        let total_size: usize = self.buf.len();
        if self.total_written < total_size {
            let remaining: &'a [u8] = slice_subrange(self.buf, self.total_written, total_size);
            let write_len: usize = if remaining.len() < MAX_PWRITE_LEN {
                remaining.len()
            } else {
                MAX_PWRITE_LEN
            };
            let bytes: &'a [u8] = slice_subrange(remaining, 0, write_len);
            assert(bytes@ =~= self@.request());
            PwriteStep::Write {
                bytes,
                offset: #[verifier::truncate]
                (self.current_pos as i64),
            }
        } else {
            PwriteStep::Complete(
                #[verifier::truncate]
                (self.total_written as i32),
            )
        }
    }

    /// Whether `answer` can take this answer.
    pub fn accepts(&self, answer: WriteAnswer) -> (accepted: bool)
        ensures
            accepted == self@.can_take(answer),
    {
        match answer {
            WriteAnswer::Failed(_) => true,
            WriteAnswer::Wrote(n) => n <= usize::MAX - self.total_written && n as u64 <= u64::MAX
                - self.current_pos,
        }
    }

    /// Takes the answer to the write that `next` asked for.
    pub fn answer(&mut self, answer: WriteAnswer) -> (result: Result<(), LimboError>)
        requires
            old(self)@.can_take(answer),
        ensures
            match fatal(answer, "pwrite") {
                Some(error) => {
                    &&& result == Err::<(), LimboError>(LimboError::CompletionError(error))
                    &&& final(self)@ == old(self)@
                },
                None => {
                    &&& result == Ok::<(), LimboError>(())
                    &&& final(self)@ == old(self)@.after(answer)
                },
            },
            result is Err <==> match answer {
                WriteAnswer::Failed(kind) => kind != ErrorKind::Interrupted,
                WriteAnswer::Wrote(n) => n == 0,
            },
            answer matches WriteAnswer::Wrote(n) ==> {
                &&& final(self)@.data == old(self)@.data
                &&& final(self)@.written == old(self)@.written + n
                &&& final(self)@.pos == old(self)@.pos + n
            },
    {
        match answer {
            WriteAnswer::Failed(kind) => {
                if kind == ErrorKind::Interrupted {
                    return Ok(());
                }
                Err(io_error(kind, "pwrite"))
            },
            WriteAnswer::Wrote(written) => {
                if written == 0 {
                    return Err(
                        LimboError::CompletionError(
                            CompletionError::IOError(ErrorKind::UnexpectedEof, "pwrite"),
                        ),
                    );
                }
                self.total_written = self.total_written + written;
                self.current_pos = self.current_pos + written as u64;
                Ok(())
            },
        }
    }
}

/// What each buffer of a list holds.
pub open spec fn buffer_bytes(buffers: Seq<&[u8]>) -> Seq<Seq<u8>> {
    buffers.map_values(|buf: &[u8]| buf@)
}

/// The pieces of every buffer of a list, in order.
pub open spec fn all_chunks(buffers: Seq<Seq<u8>>) -> Seq<Seq<u8>>
    decreases buffers.len(),
{
    if buffers.len() == 0 {
        Seq::empty()
    } else {
        crate::iovec::chunks(buffers[0]) + all_chunks(buffers.drop_first())
    }
}

/// The pieces of a list of buffers from byte `offset` of the buffer `idx` on.
pub open spec fn chunks_from(buffers: Seq<Seq<u8>>, idx: int, offset: int) -> Seq<Seq<u8>> {
    if idx < buffers.len() {
        crate::iovec::chunks(buffers[idx].skip(offset)) + all_chunks(buffers.skip(idx + 1))
    } else {
        Seq::empty()
    }
}

/// The pieces of the buffers joined are the buffers joined.
pub(crate) proof fn lemma_all_chunks_join(buffers: Seq<Seq<u8>>)
    ensures
        all_chunks(buffers).flatten() == buffers.flatten(),
        crate::iovec::well_sized(all_chunks(buffers)),
    decreases buffers.len(),
{
    if buffers.len() > 0 {
        let first = crate::iovec::chunks(buffers[0]);
        let rest = all_chunks(buffers.drop_first());
        crate::iovec::law_chunks_join_to_the_buffer(buffers[0]);
        lemma_all_chunks_join(buffers.drop_first());
        vstd::seq_lib::lemma_flatten_concat(first, rest);
    }
}

/// With nothing taken from the buffer `idx`, all pieces of the buffers from it on remain.
proof fn lemma_chunks_from_start(buffers: Seq<Seq<u8>>, idx: int)
    requires
        0 <= idx <= buffers.len(),
    ensures
        chunks_from(buffers, idx, 0) == all_chunks(buffers.skip(idx)),
{
    if idx < buffers.len() {
        assert(buffers.skip(idx)[0] == buffers[idx]);
        assert(buffers[idx].skip(0) =~= buffers[idx]);
        assert(buffers.skip(idx).drop_first() =~= buffers.skip(idx + 1));
    } else {
        assert(buffers.skip(idx).len() == 0);
    }
}

/// Of the pieces `rest`, the first `k` stand in the list behind `iov`, and the others are those
/// from byte `offset` of the buffer `idx` on. Then `taken` bytes of that buffer, its next `j`
/// pieces, go behind them.
proof fn lemma_fill_step(
    iov: Seq<Seq<u8>>,
    rest: Seq<Seq<u8>>,
    k: int,
    all: Seq<Seq<u8>>,
    idx: int,
    offset: int,
    taken: int,
    j: int,
)
    requires
        0 <= k <= rest.len(),
        0 <= idx < all.len(),
        0 <= offset <= offset + taken <= all[idx].len(),
        0 <= taken,
        rest.skip(k) == chunks_from(all, idx, offset),
        ({
            let tail = all[idx].skip(offset);
            &&& 0 <= j <= crate::iovec::chunks(tail).len()
            &&& crate::iovec::chunks(tail.skip(taken)) == crate::iovec::chunks(tail).skip(j)
        }),
    ensures
        k + j <= rest.len(),
        iov + rest.take(k) + crate::iovec::chunks(all[idx].skip(offset)).take(j) == iov
            + rest.take(k + j),
        chunks_from(all, idx, offset + taken) == rest.skip(k + j),
        offset + taken == all[idx].len() ==> chunks_from(all, idx + 1, 0) == rest.skip(k + j),
{
    let tail = all[idx].skip(offset);
    let pieces = crate::iovec::chunks(tail);
    let behind = all_chunks(all.skip(idx + 1));
    assert(rest.skip(k).len() == rest.len() - k);
    assert(all[idx].skip(offset + taken) =~= tail.skip(taken));
    assert(rest.skip(k + j) =~= rest.skip(k).skip(j));
    assert((pieces + behind).skip(j) =~= pieces.skip(j) + behind);
    assert((pieces + behind).take(j) =~= pieces.take(j));
    assert(rest.take(k + j) =~= rest.take(k) + rest.skip(k).take(j));
    assert(iov + rest.take(k) + pieces.take(j) =~= iov + rest.take(k + j));
    if offset + taken == all[idx].len() {
        assert(tail.skip(taken).len() == 0);
        assert(chunks_from(all, idx, offset + taken) =~= behind);
        lemma_chunks_from_start(all, idx + 1);
    }
}

/// The state of a write of several buffers: what they hold, the entries that are made and not
/// yet written, the pieces that are not made into entries yet, how many bytes are written, and
/// where the next one goes.
pub struct PwritevView {
    pub buffers: Seq<Seq<u8>>,
    pub iov: Seq<Seq<u8>>,
    pub rest: Seq<Seq<u8>>,
    pub written: usize,
    pub pos: u64,
}

impl PwritevView {
    /// The bytes of all buffers.
    pub open spec fn data(self) -> Seq<u8> {
        self.buffers.flatten()
    }

    /// What is left to write is in the entries and then in the pieces behind them, in order;
    /// the entries are as many and as large as a call takes.
    pub open spec fn wf(self) -> bool {
        &&& self.written <= self.data().len() <= usize::MAX
        &&& self.iov.flatten() + self.rest.flatten() == self.data().skip(self.written as int)
        &&& crate::iovec::well_sized(self.iov)
        &&& crate::iovec::well_sized(self.rest)
        &&& self.iov.len() <= MAX_IOV
    }

    /// The state after as many pieces as fit were made into entries.
    pub open spec fn filled(self) -> PwritevView {
        let k = crate::iovec::fitting(self.rest, self.iov.len(), MAX_IOV as int);
        PwritevView { iov: self.iov + self.rest.take(k), rest: self.rest.skip(k), ..self }
    }

    /// The answer names no more bytes than the call was given, and the position stays in its
    /// type.
    pub open spec fn can_take(self, answer: WriteAnswer) -> bool {
        &&& advance(answer) <= self.iov.flatten().len()
        &&& self.pos + advance(answer) <= u64::MAX
    }

    /// The state after `answer`.
    pub open spec fn after(self, answer: WriteAnswer) -> PwritevView {
        match answer {
            WriteAnswer::Failed(_) => self,
            WriteAnswer::Wrote(n) => PwritevView {
                iov: crate::iovec::trimmed(self.iov, n as int),
                written: (self.written + n) as usize,
                pos: (self.pos + n) as u64,
                ..self
            },
        }
    }
}

/// A write of several buffers, one behind the other, at a position of a file.
pub struct Pwritev<'a> {
    buffers: Vec<&'a [u8]>,
    iov: Vec<IoVec<'a>>,
    buf_idx: usize,
    buf_offset: usize,
    total_written: usize,
    current_pos: u64,
}

/// What a write of several buffers does next.
#[derive(Clone, Copy, Debug, PartialEq, Eq)]
pub enum PwritevStep {
    /// Write the entries of `Pwritev::iovecs` at `offset`, and hand the answer to
    /// `Pwritev::answer`.
    Write { offset: i64 },
    /// All is written: complete with this result.
    Complete(i32),
}

impl<'a> View for Pwritev<'a> {
    type V = PwritevView;

    closed spec fn view(&self) -> PwritevView {
        PwritevView {
            buffers: buffer_bytes(self.buffers@),
            iov: crate::iovec::contents(self.iov@),
            rest: chunks_from(
                buffer_bytes(self.buffers@),
                self.buf_idx as int,
                self.buf_offset as int,
            ),
            written: self.total_written,
            pos: self.current_pos,
        }
    }
}

impl<'a> Pwritev<'a> {
    /// The cursor stands in the buffers.
    pub closed spec fn cursor_wf(self) -> bool {
        &&& self.buf_idx <= self.buffers@.len()
        &&& self.buf_idx < self.buffers@.len() ==> self.buf_offset
            <= self.buffers@[self.buf_idx as int]@.len()
    }

    /// What holds of every write of several buffers between its steps.
    pub open spec fn wf(self) -> bool {
        &&& self.cursor_wf()
        &&& self@.wf()
    }

    /// A write of `buffers` at `pos`, of which nothing is done yet.
    pub fn new(pos: u64, buffers: Vec<&'a [u8]>) -> (op: Self)
        requires
            buffer_bytes(buffers@).flatten().len() <= usize::MAX,
        ensures
            op.wf(),
            op@ == (PwritevView {
                buffers: buffer_bytes(buffers@),
                iov: Seq::empty(),
                rest: all_chunks(buffer_bytes(buffers@)),
                written: 0,
                pos,
            }),
    {
        let op = Pwritev {
            buffers,
            iov: Vec::with_capacity(MAX_IOV),
            buf_idx: 0,
            buf_offset: 0,
            total_written: 0,
            current_pos: pos,
        };
        proof {
            let all = buffer_bytes(buffers@);
            lemma_chunks_from_start(all, 0);
            lemma_all_chunks_join(all);
            assert(all.skip(0) =~= all);
            assert(op@.iov =~= Seq::empty());
            assert(op@.data().skip(0) =~= op@.data());
            assert(op@.iov.flatten() + op@.rest.flatten() =~= op@.data());
        }
        op
    }

    /// The entries that the next call is given.
    pub fn iovecs(&self) -> (iov: &Vec<IoVec<'a>>)
        ensures
            crate::iovec::contents(iov@) == self@.iov,
    {
        &self.iov
    }

    /// Makes pieces into entries as far as they fit. Where a buffer does not fit in full, its
    /// offset is kept, and the next call goes on from there.
    #[verifier::spinoff_prover]
    fn fill(&mut self)
        requires
            old(self).wf(),
        ensures
            final(self).wf(),
            final(self)@ == old(self)@.filled(),
    {
        let ghost v = self@;
        let ghost all = buffer_bytes(self.buffers@);
        let ghost mut k: int = 0;
        proof {
            assert(v.rest.skip(0) =~= v.rest);
            assert(v.iov + v.rest.take(0) =~= v.iov);
        }
        while self.buf_idx < self.buffers.len()
            invariant
                self.cursor_wf(),
                v == old(self)@,
                all == buffer_bytes(self.buffers@),
                all == v.buffers,
                self.buffers == old(self).buffers,
                self.total_written == old(self).total_written,
                self.current_pos == old(self).current_pos,
                v.iov.len() <= MAX_IOV,
                0 <= k <= v.rest.len(),
                self@.iov == v.iov + v.rest.take(k),
                self@.rest == v.rest.skip(k),
                self.iov@.len() <= MAX_IOV,
            ensures
                self.buf_idx >= self.buffers@.len() || self.iov@.len() >= MAX_IOV,
            decreases self.buffers@.len() - self.buf_idx,
        {
            let ghost idx = self.buf_idx as int;
            let ghost offset = self.buf_offset as int;
            let buf: &'a [u8] = self.buffers[self.buf_idx];
            assert(all[idx] == buf@);
            let tail: &'a [u8] = slice_subrange(buf, self.buf_offset, buf.len());
            assert(tail@ =~= buf@.skip(offset));
            let taken: usize = buf_to_iovecs(tail, &mut self.iov, MAX_IOV);
            self.buf_offset = self.buf_offset + taken;
            proof {
                let pieces = crate::iovec::chunks(tail@);
                let j = crate::iovec::fitting(pieces, v.iov.len() + k as nat, MAX_IOV as int);
                lemma_fill_step(v.iov, v.rest, k, all, idx, offset, taken as int, j);
                k = k + j;
            }
            if self.buf_offset < buf.len() {
                break;
            }
            self.buf_idx = self.buf_idx + 1;
            self.buf_offset = 0;
        }
        proof {
            assert(v.rest.skip(k).len() == v.rest.len() - k);
            assert(k == crate::iovec::fitting(v.rest, v.iov.len(), MAX_IOV as int));
            lemma_filled_wf(v);
        }
    }
}

impl<'a> Pwritev<'a> {
    /// What to do next. The position goes to the call as a signed number of the same bits.
    pub fn next(&mut self) -> (step: PwritevStep)
        requires
            old(self).wf(),
        ensures
            final(self).wf(),
            final(self)@ == old(self)@.filled(),
            match step {
                PwritevStep::Write { offset } => {
                    &&& final(self)@.iov.len() > 0
                    &&& offset == final(self)@.pos as i64
                },
                PwritevStep::Complete(n) => {
                    &&& final(self)@.iov.len() == 0
                    &&& n == final(self)@.written as i32
                },
            },
    {
        self.fill();
        if self.iov.is_empty() {
            return PwritevStep::Complete(
                #[verifier::truncate]
                (self.total_written as i32),
            );
        }
        PwritevStep::Write {
            offset: #[verifier::truncate]
            (self.current_pos as i64),
        }
    }

    /// How many bytes the next call is given.
    pub fn requested(&self) -> (bytes: usize)
        requires
            self.wf(),
        ensures
            bytes == self@.iov.flatten().len(),
    {
        let ghost iov = self@.iov;
        let mut bytes: usize = 0;
        let mut i: usize = 0;
        proof {
            let left = self@.data().skip(self@.written as int);
            assert(left.len() == iov.flatten().len() + self@.rest.flatten().len());
            assert(iov.take(0).flatten().len() == 0);
        }
        while i < self.iov.len()
            invariant
                i <= self.iov@.len(),
                iov == crate::iovec::contents(self.iov@),
                iov.flatten().len() <= usize::MAX,
                bytes == iov.take(i as int).flatten().len(),
            decreases self.iov@.len() - i,
        {
            proof {
                assert(iov[i as int] == self.iov@[i as int]@);
                assert(iov.take(i + 1) =~= iov.take(i as int).push(iov[i as int]));
                iov.take(i as int).lemma_flatten_push(iov[i as int]);
                crate::iovec::lemma_flatten_split(iov, i + 1);
            }
            bytes = bytes + self.iov[i].bytes.len();
            i = i + 1;
        }
        assert(iov.take(i as int) =~= iov);
        bytes
    }

    /// Whether `answer` can take this answer.
    pub fn accepts(&self, answer: WriteAnswer) -> (accepted: bool)
        requires
            self.wf(),
        ensures
            accepted == self@.can_take(answer),
    {
        match answer {
            WriteAnswer::Failed(_) => true,
            WriteAnswer::Wrote(n) => n <= self.requested() && n as u64 <= u64::MAX
                - self.current_pos,
        }
    }

    /// Takes the answer to the write that `next` asked for.
    pub fn answer(&mut self, answer: WriteAnswer) -> (result: Result<(), LimboError>)
        requires
            old(self).wf(),
            old(self)@.can_take(answer),
        ensures
            final(self).wf(),
            match fatal(answer, "pwritev") {
                Some(error) => {
                    &&& result == Err::<(), LimboError>(LimboError::CompletionError(error))
                    &&& final(self)@ == old(self)@
                },
                None => {
                    &&& result == Ok::<(), LimboError>(())
                    &&& final(self)@ == old(self)@.after(answer)
                },
            },
            result is Err <==> match answer {
                WriteAnswer::Failed(kind) => kind != ErrorKind::Interrupted,
                WriteAnswer::Wrote(n) => n == 0,
            },
            answer matches WriteAnswer::Wrote(n) ==> {
                &&& final(self)@.buffers == old(self)@.buffers
                &&& final(self)@.written == old(self)@.written + n
                &&& final(self)@.pos == old(self)@.pos + n
            },
    {
        match answer {
            WriteAnswer::Failed(kind) => {
                if kind == ErrorKind::Interrupted {
                    return Ok(());
                }
                Err(io_error(kind, "pwritev"))
            },
            WriteAnswer::Wrote(written) => {
                if written == 0 {
                    return Err(
                        LimboError::CompletionError(
                            CompletionError::IOError(ErrorKind::UnexpectedEof, "pwritev"),
                        ),
                    );
                }
                proof {
                    lemma_after_wf(self@, answer);
                }
                self.total_written = self.total_written + written;
                self.current_pos = self.current_pos + written as u64;
                trim_iovecs(&mut self.iov, written);
                Ok(())
            },
        }
    }
}

/// Taking an answer keeps what is left to write, less what the answer says was written.
pub(crate) proof fn lemma_after_wf(v: PwritevView, answer: WriteAnswer)
    requires
        v.wf(),
        v.can_take(answer),
    ensures
        v.after(answer).wf(),
        v.written + advance(answer) <= usize::MAX,
        v.after(answer).written == v.written + advance(answer),
{
    if let WriteAnswer::Wrote(n) = answer {
        let left = v.data().skip(v.written as int);
        crate::iovec::law_trimming_drops_a_prefix(v.iov, n as int);
        assert(left.len() == v.iov.flatten().len() + v.rest.flatten().len());
        assert(v.iov.flatten().skip(n as int) + v.rest.flatten() =~= left.skip(n as int));
        assert(left.skip(n as int) =~= v.data().skip(v.written + n));
    }
}

/// Making pieces into entries keeps what is left to write.
pub(crate) proof fn lemma_filled_wf(v: PwritevView)
    requires
        v.wf(),
    ensures
        v.filled().wf(),
{
    let k = crate::iovec::fitting(v.rest, v.iov.len(), MAX_IOV as int);
    let taken = v.rest.take(k);
    let left = v.rest.skip(k);
    crate::iovec::lemma_flatten_split(v.rest, k);
    vstd::seq_lib::lemma_flatten_concat(v.iov, taken);
    assert(v.iov.flatten() + taken.flatten() + left.flatten() =~= v.iov.flatten()
        + v.rest.flatten());
    assert forall|i: int| 0 <= i < left.len() implies 0 < (#[trigger] left[i]).len()
        <= MAX_PWRITE_LEN by {
        assert(left[i] == v.rest[i + k]);
    }
}

} // verus!
