//! What a finished write leaves in the file.
//!
//! A file is a sequence of bytes. The laws take any answers that a kernel can give which never
//! claims to have written more than it was given.

use crate::error::{CompletionError, ErrorKind};
use crate::iovec::{MAX_IOV, MAX_PWRITE_LEN};
use crate::write::{PwriteView, PwritevView, WriteAnswer};
use vstd::prelude::*;

verus! {

/// `file` after `bytes` were written at `pos`. A gap that this leaves behind the old end reads
/// as zeros.
pub open spec fn write_at(file: Seq<u8>, pos: int, bytes: Seq<u8>) -> Seq<u8> {
    if bytes.len() == 0 {
        file
    } else {
        Seq::new(
            vstd::math::max(file.len() as int, pos + bytes.len()) as nat,
            |i: int|
                if pos <= i < pos + bytes.len() {
                    bytes[i - pos]
                } else if i < file.len() {
                    file[i]
                } else {
                    0
                },
        )
    }
}

/// Writing one piece and then another right behind it is writing the two joined.
pub proof fn law_adjacent_writes_join(file: Seq<u8>, pos: int, a: Seq<u8>, b: Seq<u8>)
    requires
        0 <= pos,
    ensures
        write_at(write_at(file, pos, a), pos + a.len(), b) == write_at(file, pos, a + b),
{
    if a.len() == 0 {
        assert(a + b =~= b);
    } else if b.len() == 0 {
        assert(a + b =~= a);
    } else {
        assert(write_at(write_at(file, pos, a), pos + a.len(), b) =~= write_at(file, pos, a + b));
    }
}

/// Each answer comes while bytes are left, does not end the write, and claims no more than the
/// call was given.
pub open spec fn pwrite_faithful(v: PwriteView, answers: Seq<WriteAnswer>) -> bool
    decreases answers.len(),
{
    answers.len() > 0 ==> {
        &&& !v.is_complete()
        &&& crate::write::fatal(answers[0], "pwrite") is None
        &&& crate::write::advance(answers[0]) <= v.request().len()
        &&& pwrite_faithful(v.after(answers[0]), answers.drop_first())
    }
}

/// The state and the file after the calls that got `answers`.
pub open spec fn pwrite_run(v: PwriteView, file: Seq<u8>, answers: Seq<WriteAnswer>) -> (
    PwriteView,
    Seq<u8>,
)
    decreases answers.len(),
{
    if answers.len() == 0 {
        (v, file)
    } else {
        let n = crate::write::advance(answers[0]);
        pwrite_run(
            v.after(answers[0]),
            write_at(file, (v.pos as i64) as int, v.request().take(n)),
            answers.drop_first(),
        )
    }
}

/// At every moment of a write the file holds the bytes that are written so far, at their place,
/// and is otherwise as it was.
pub proof fn law_pwrite_writes_a_prefix(v: PwriteView, file: Seq<u8>, answers: Seq<WriteAnswer>)
    requires
        v.written <= v.data.len() <= usize::MAX,
        v.pos + v.data.len() - v.written <= i64::MAX,
        pwrite_faithful(v, answers),
    ensures
        ({
            let (end, out) = pwrite_run(v, file, answers);
            &&& end.data == v.data
            &&& v.written <= end.written <= v.data.len()
            &&& end.pos - v.pos == end.written - v.written
            &&& out == write_at(
                file,
                v.pos as int,
                v.data.subrange(v.written as int, end.written as int),
            )
        }),
    decreases answers.len(),
{
    if answers.len() == 0 {
        assert(v.data.subrange(v.written as int, v.written as int).len() == 0);
    } else {
        let n = crate::write::advance(answers[0]);
        let bytes = v.request().take(n);
        let v2 = v.after(answers[0]);
        let file2 = write_at(file, v.pos as int, bytes);
        law_pwrite_writes_a_prefix(v2, file2, answers.drop_first());
        let (end, out) = pwrite_run(v2, file2, answers.drop_first());
        let more = v.data.subrange(v2.written as int, end.written as int);
        law_adjacent_writes_join(file, v.pos as int, bytes, more);
        assert(bytes + more =~= v.data.subrange(v.written as int, end.written as int));
    }
}

/// A write that completes has written the whole buffer at its position and nothing else, and
/// counts the bytes of the buffer.
pub proof fn law_completed_pwrite_wrote_the_buffer(
    pos: u64,
    buf: Seq<u8>,
    file: Seq<u8>,
    answers: Seq<WriteAnswer>,
)
    requires
        buf.len() <= usize::MAX,
        pos + buf.len() <= i64::MAX,
        ({
            let v = PwriteView { data: buf, written: 0, pos };
            &&& pwrite_faithful(v, answers)
            &&& pwrite_run(v, file, answers).0.is_complete()
        }),
    ensures
        ({
            let v = PwriteView { data: buf, written: 0, pos };
            let (end, out) = pwrite_run(v, file, answers);
            &&& end.written == buf.len()
            &&& out == write_at(file, pos as int, buf)
        }),
{
    let v = PwriteView { data: buf, written: 0, pos };
    law_pwrite_writes_a_prefix(v, file, answers);
    assert(buf.subrange(0, buf.len() as int) =~= buf);
}

/// While bytes are left, the next call is given at least one and no more than a call takes,
/// and an answer that neither ends the write nor asks for the call again leaves fewer.
pub proof fn law_pwrite_makes_progress(v: PwriteView, answer: WriteAnswer)
    requires
        !v.is_complete(),
    ensures
        0 < v.request().len() <= MAX_PWRITE_LEN,
        v.can_take(answer) && crate::write::fatal(answer, "pwrite") is None && answer
            != WriteAnswer::Failed(ErrorKind::Interrupted) ==> v.after(answer).written > v.written,
{
}

/// A write ends: of the calls that are not interrupted there are at most as many as bytes.
pub proof fn law_pwrite_ends(v: PwriteView, answers: Seq<WriteAnswer>)
    requires
        v.written <= v.data.len() <= usize::MAX,
        v.pos + v.data.len() - v.written <= u64::MAX,
        pwrite_faithful(v, answers),
        forall|i: int|
            0 <= i < answers.len() ==> #[trigger] answers[i] != WriteAnswer::Failed(
                ErrorKind::Interrupted,
            ),
    ensures
        answers.len() <= v.data.len() - v.written,
    decreases answers.len(),
{
    if answers.len() > 0 {
        let rest = answers.drop_first();
        assert forall|i: int| 0 <= i < rest.len() implies #[trigger] rest[i]
            != WriteAnswer::Failed(ErrorKind::Interrupted) by {
            assert(rest[i] == answers[i + 1]);
        }
        assert(answers[0] != WriteAnswer::Failed(ErrorKind::Interrupted));
        law_pwrite_ends(v.after(answers[0]), rest);
    }
}

/// An interrupted call is made again, unchanged.
pub proof fn law_interrupted_pwrite_is_retried(v: PwriteView)
    ensures
        crate::write::fatal(WriteAnswer::Failed(ErrorKind::Interrupted), "pwrite") is None,
        v.after(WriteAnswer::Failed(ErrorKind::Interrupted)) == v,
{
}

/// As `pwrite_faithful`, for a write of several buffers.
pub open spec fn pwritev_faithful(v: PwritevView, answers: Seq<WriteAnswer>) -> bool
    decreases answers.len(),
{
    answers.len() > 0 ==> {
        &&& v.filled().iov.len() > 0
        &&& crate::write::fatal(answers[0], "pwritev") is None
        &&& crate::write::advance(answers[0]) <= v.filled().iov.flatten().len()
        &&& pwritev_faithful(v.filled().after(answers[0]), answers.drop_first())
    }
}

/// As `pwrite_run`, for a write of several buffers: a call writes the bytes of its entries one
/// behind the other.
pub open spec fn pwritev_run(v: PwritevView, file: Seq<u8>, answers: Seq<WriteAnswer>) -> (
    PwritevView,
    Seq<u8>,
)
    decreases answers.len(),
{
    if answers.len() == 0 {
        (v, file)
    } else {
        let n = crate::write::advance(answers[0]);
        pwritev_run(
            v.filled().after(answers[0]),
            write_at(file, (v.pos as i64) as int, v.filled().iov.flatten().take(n)),
            answers.drop_first(),
        )
    }
}

/// As `law_pwrite_writes_a_prefix`, for a write of several buffers: the bytes are those of the
/// buffers joined.
pub proof fn law_pwritev_writes_a_prefix(v: PwritevView, file: Seq<u8>, answers: Seq<WriteAnswer>)
    requires
        v.wf(),
        v.pos + v.data().len() - v.written <= i64::MAX,
        pwritev_faithful(v, answers),
    ensures
        ({
            let (end, out) = pwritev_run(v, file, answers);
            &&& end.wf()
            &&& end.buffers == v.buffers
            &&& v.written <= end.written
            &&& end.pos - v.pos == end.written - v.written
            &&& out == write_at(
                file,
                v.pos as int,
                v.data().subrange(v.written as int, end.written as int),
            )
        }),
    decreases answers.len(),
{
    if answers.len() == 0 {
        assert(v.data().subrange(v.written as int, v.written as int).len() == 0);
    } else {
        let full = v.filled();
        let n = crate::write::advance(answers[0]);
        crate::write::lemma_filled_wf(v);
        let left = v.data().skip(v.written as int);
        assert(left.len() == full.iov.flatten().len() + full.rest.flatten().len());
        crate::write::lemma_after_wf(full, answers[0]);
        let bytes = full.iov.flatten().take(n);
        let v2 = full.after(answers[0]);
        let file2 = write_at(file, v.pos as int, bytes);
        law_pwritev_writes_a_prefix(v2, file2, answers.drop_first());
        let (end, out) = pwritev_run(v2, file2, answers.drop_first());
        let more = v.data().subrange(v2.written as int, end.written as int);
        law_adjacent_writes_join(file, v.pos as int, bytes, more);
        assert(bytes =~= left.take(n));
        assert(bytes + more =~= v.data().subrange(v.written as int, end.written as int));
    }
}

/// The entries that a call is given are never more nor larger than a call takes; there are none
/// exactly when every byte is written.
pub proof fn law_pwritev_asks_until_all_is_written(v: PwritevView)
    requires
        v.wf(),
    ensures
        v.filled().wf(),
        v.filled().iov.len() <= MAX_IOV,
        crate::iovec::well_sized(v.filled().iov),
        v.filled().iov.len() == 0 <==> v.written == v.data().len(),
        v.filled().iov.len() > 0 ==> v.filled().iov.flatten().len() > 0,
{
    crate::write::lemma_filled_wf(v);
    let full = v.filled();
    let left = v.data().skip(v.written as int);
    assert(left.len() == full.iov.flatten().len() + full.rest.flatten().len());
    if full.iov.len() == 0 {
        assert(v.rest.len() == 0);
        assert(full.rest.len() == 0);
    } else {
        assert(full.iov.flatten() == full.iov.first() + full.iov.drop_first().flatten());
        assert(full.iov[0].len() > 0);
    }
}

/// A write of several buffers that completes has written them one behind the other at its
/// position and nothing else, and counts their bytes.
pub proof fn law_completed_pwritev_wrote_the_buffers(
    pos: u64,
    buffers: Seq<Seq<u8>>,
    file: Seq<u8>,
    answers: Seq<WriteAnswer>,
)
    requires
        buffers.flatten().len() <= usize::MAX,
        pos + buffers.flatten().len() <= i64::MAX,
        ({
            let v = PwritevView {
                buffers,
                iov: Seq::empty(),
                rest: crate::write::all_chunks(buffers),
                written: 0,
                pos,
            };
            &&& pwritev_faithful(v, answers)
            &&& pwritev_run(v, file, answers).0.filled().iov.len() == 0
        }),
    ensures
        ({
            let v = PwritevView {
                buffers,
                iov: Seq::empty(),
                rest: crate::write::all_chunks(buffers),
                written: 0,
                pos,
            };
            let (end, out) = pwritev_run(v, file, answers);
            &&& end.written == buffers.flatten().len()
            &&& out == write_at(file, pos as int, buffers.flatten())
        }),
{
    let v = PwritevView {
        buffers,
        iov: Seq::empty(),
        rest: crate::write::all_chunks(buffers),
        written: 0,
        pos,
    };
    crate::write::lemma_all_chunks_join(buffers);
    assert(v.iov.flatten() + v.rest.flatten() =~= v.data().skip(0));
    law_pwritev_writes_a_prefix(v, file, answers);
    law_pwritev_asks_until_all_is_written(pwritev_run(v, file, answers).0);
    assert(buffers.flatten().subrange(0, buffers.flatten().len() as int) =~= buffers.flatten());
}

/// An interrupted vectored call is made again with the same entries at the same position.
pub proof fn law_interrupted_pwritev_is_retried(v: PwritevView)
    requires
        v.wf(),
    ensures
        crate::write::fatal(WriteAnswer::Failed(ErrorKind::Interrupted), "pwritev") is None,
        v.filled().after(WriteAnswer::Failed(ErrorKind::Interrupted)).filled() == v.filled(),
{
    let full = v.filled();
    let k = crate::iovec::fitting(full.rest, full.iov.len(), MAX_IOV as int);
    assert(k == 0);
    assert(full.rest.skip(0) =~= full.rest);
    assert(full.iov + full.rest.take(0) =~= full.iov);
}

/// A write of several buffers ends, as a write of one does.
pub proof fn law_pwritev_ends(v: PwritevView, answers: Seq<WriteAnswer>)
    requires
        v.wf(),
        v.pos + v.data().len() - v.written <= u64::MAX,
        pwritev_faithful(v, answers),
        forall|i: int|
            0 <= i < answers.len() ==> #[trigger] answers[i] != WriteAnswer::Failed(
                ErrorKind::Interrupted,
            ),
    ensures
        answers.len() <= v.data().len() - v.written,
    decreases answers.len(),
{
    if answers.len() > 0 {
        let full = v.filled();
        let rest = answers.drop_first();
        crate::write::lemma_filled_wf(v);
        let left = v.data().skip(v.written as int);
        assert(left.len() == full.iov.flatten().len() + full.rest.flatten().len());
        crate::write::lemma_after_wf(full, answers[0]);
        assert forall|i: int| 0 <= i < rest.len() implies #[trigger] rest[i]
            != WriteAnswer::Failed(ErrorKind::Interrupted) by {
            assert(rest[i] == answers[i + 1]);
        }
        assert(answers[0] != WriteAnswer::Failed(ErrorKind::Interrupted));
        law_pwritev_ends(full.after(answers[0]), rest);
    }
}

/// How the bytes are spread over buffers makes no difference to the file: a completed write of
/// several buffers leaves what a completed write of them joined leaves.
pub proof fn law_pwritev_is_pwrite_of_the_joined_buffers(
    pos: u64,
    buffers: Seq<Seq<u8>>,
    file: Seq<u8>,
    one: Seq<WriteAnswer>,
    many: Seq<WriteAnswer>,
)
    requires
        buffers.flatten().len() <= usize::MAX,
        pos + buffers.flatten().len() <= i64::MAX,
        ({
            let v = PwriteView { data: buffers.flatten(), written: 0, pos };
            &&& pwrite_faithful(v, one)
            &&& pwrite_run(v, file, one).0.is_complete()
        }),
        ({
            let v = PwritevView {
                buffers,
                iov: Seq::empty(),
                rest: crate::write::all_chunks(buffers),
                written: 0,
                pos,
            };
            &&& pwritev_faithful(v, many)
            &&& pwritev_run(v, file, many).0.filled().iov.len() == 0
        }),
    ensures
        ({
            let v = PwriteView { data: buffers.flatten(), written: 0, pos };
            let w = PwritevView {
                buffers,
                iov: Seq::empty(),
                rest: crate::write::all_chunks(buffers),
                written: 0,
                pos,
            };
            &&& pwrite_run(v, file, one).0.written == pwritev_run(w, file, many).0.written
            &&& pwrite_run(v, file, one).1 == pwritev_run(w, file, many).1
        }),
{
    law_completed_pwrite_wrote_the_buffer(pos, buffers.flatten(), file, one);
    law_completed_pwritev_wrote_the_buffers(pos, buffers, file, many);
}

/// A write call ends the operation with an error exactly if it failed otherwise than by an
/// interruption, or wrote nothing. The error is that of the call, or the end of the file, under the
/// name of the operation.
pub proof fn law_only_failed_and_empty_calls_are_errors(answer: WriteAnswer, op: &'static str)
    ensures
        match answer {
            WriteAnswer::Failed(kind) => {
                &&& kind == ErrorKind::Interrupted ==> crate::write::fatal(answer, op) is None
                &&& kind != ErrorKind::Interrupted ==> crate::write::fatal(answer, op) == Some(
                    CompletionError::IOError(kind, op),
                )
            },
            WriteAnswer::Wrote(n) => {
                &&& n > 0 ==> crate::write::fatal(answer, op) is None
                &&& n == 0 ==> crate::write::fatal(answer, op) == Some(
                    CompletionError::IOError(ErrorKind::UnexpectedEof, op),
                )
            },
        },
{
}

/// A call is given the bytes that come next, as many as are left, but no more than an `i32`
/// counts. There is no call exactly if every byte is written.
pub proof fn law_pwrite_asks_for_what_is_left(v: PwriteView)
    ensures
        v.is_complete() <==> v.written >= v.data.len(),
        v.written <= v.data.len() ==> v.request().len() == if v.data.len() - v.written
            <= i32::MAX {
            v.data.len() - v.written
        } else {
            i32::MAX as int
        },
        v.written <= v.data.len() ==> forall|i: int|
            0 <= i < v.request().len() ==> #[trigger] v.request()[i] == v.data[v.written + i],
{
}

/// A call that wrote something is never an error: it moves the write and its position on by what
/// was written, and the bytes stay what they are. An answer is refused only where a position would
/// leave its type.
pub proof fn law_pwrite_moves_on_by_what_was_written(v: PwriteView, n: usize, kind: ErrorKind)
    ensures
        v.can_take(WriteAnswer::Failed(kind)),
        v.can_take(WriteAnswer::Wrote(n)) <==> v.written + n <= usize::MAX && v.pos + n
            <= u64::MAX,
        n > 0 && v.written + n <= usize::MAX && v.pos + n <= u64::MAX ==> {
            let next = v.after(WriteAnswer::Wrote(n));
            &&& crate::write::fatal(WriteAnswer::Wrote(n), "pwrite") is None
            &&& next.data == v.data
            &&& next.written == v.written + n
            &&& next.pos == v.pos + n
        },
{
}

/// The answers of up to `calls` calls that each write all that they are given.
pub open spec fn full_answers(v: PwriteView, calls: nat) -> Seq<WriteAnswer>
    decreases calls,
{
    if calls == 0 || v.written >= v.data.len() {
        Seq::empty()
    } else {
        let answer = WriteAnswer::Wrote(v.request().len() as usize);
        seq![answer] + full_answers(v.after(answer), (calls - 1) as nat)
    }
}

/// Where each call writes all that it is given, a write goes through without an error, and
/// completes with the number of bytes of its buffer.
pub proof fn law_full_pwrite_completes(v: PwriteView, file: Seq<u8>, calls: nat)
    requires
        v.written <= v.data.len() <= usize::MAX,
        v.pos + v.data.len() - v.written <= u64::MAX,
        calls >= v.data.len() - v.written,
    ensures
        pwrite_faithful(v, full_answers(v, calls)),
        pwrite_run(v, file, full_answers(v, calls)).0.is_complete(),
        pwrite_run(v, file, full_answers(v, calls)).0.written == v.data.len(),
    decreases calls,
{
    if v.written < v.data.len() {
        let n = v.request().len();
        let answer = WriteAnswer::Wrote(n as usize);
        let answers = full_answers(v, calls);
        let next = v.after(answer);
        law_pwrite_asks_for_what_is_left(v);
        let file2 = write_at(
            file,
            (v.pos as i64) as int,
            v.request().take(crate::write::advance(answer)),
        );
        law_full_pwrite_completes(next, file2, (calls - 1) as nat);
        assert(answers[0] == answer);
        assert(answers.drop_first() =~= full_answers(next, (calls - 1) as nat));
    }
}

/// Entries are made from the pieces that come next, in order and unchanged, until there are as many
/// as a call takes or no piece is left. Nothing else changes.
pub proof fn law_pwritev_fills_its_list(v: PwritevView)
    requires
        v.wf(),
    ensures
        ({
            let full = v.filled();
            &&& full.iov + full.rest == v.iov + v.rest
            &&& v.iov.len() <= full.iov.len()
            &&& full.rest.len() == 0 || full.iov.len() == 1024
            &&& full.buffers == v.buffers
            &&& full.written == v.written
            &&& full.pos == v.pos
        }),
{
    let k = crate::iovec::fitting(v.rest, v.iov.len(), MAX_IOV as int);
    assert(v.filled().iov + v.filled().rest =~= v.iov + v.rest);
}

/// As `law_pwrite_moves_on_by_what_was_written`, for a write of several buffers: the entries lose
/// the bytes that were written. An answer is refused only where it claims more than the call was
/// given, or where the position would leave its type.
pub proof fn law_pwritev_moves_on_by_what_was_written(v: PwritevView, n: usize, kind: ErrorKind)
    requires
        v.wf(),
    ensures
        v.can_take(WriteAnswer::Failed(kind)) <==> v.pos <= u64::MAX,
        v.can_take(WriteAnswer::Wrote(n)) <==> n <= v.iov.flatten().len() && v.pos + n
            <= u64::MAX,
        0 < n <= v.iov.flatten().len() && v.pos + n <= u64::MAX ==> {
            let next = v.after(WriteAnswer::Wrote(n));
            &&& crate::write::fatal(WriteAnswer::Wrote(n), "pwritev") is None
            &&& next.wf()
            &&& next.buffers == v.buffers
            &&& next.rest == v.rest
            &&& next.iov.flatten() == v.iov.flatten().skip(n as int)
            &&& next.written == v.written + n
            &&& next.pos == v.pos + n
        },
{
    if n <= v.iov.flatten().len() && v.pos + n <= u64::MAX {
        crate::write::lemma_after_wf(v, WriteAnswer::Wrote(n));
        crate::iovec::law_trimming_drops_a_prefix(v.iov, n as int);
    }
}

/// The pieces of a list of buffers are those of its buffers, one buffer after the other: no piece
/// reaches over the end of a buffer.
pub proof fn law_pieces_stay_within_their_buffers(a: Seq<Seq<u8>>, b: Seq<Seq<u8>>)
    ensures
        crate::write::all_chunks(a + b) == crate::write::all_chunks(a)
            + crate::write::all_chunks(b),
        a.len() == 1 ==> crate::write::all_chunks(a) == crate::iovec::chunks(a[0]),
    decreases a.len(),
{
    if a.len() == 0 {
        assert(a + b =~= b);
        assert(crate::write::all_chunks(a) + crate::write::all_chunks(b)
            =~= crate::write::all_chunks(b));
    } else {
        assert((a + b).drop_first() =~= a.drop_first() + b);
        assert((a + b)[0] == a[0]);
        law_pieces_stay_within_their_buffers(a.drop_first(), b);
        assert(crate::write::all_chunks(a) + crate::write::all_chunks(b)
            =~= crate::iovec::chunks(a[0]) + (crate::write::all_chunks(a.drop_first())
            + crate::write::all_chunks(b)));
        if a.len() == 1 {
            assert(crate::write::all_chunks(a.drop_first()) =~= Seq::empty());
            assert(crate::write::all_chunks(a) =~= crate::iovec::chunks(a[0]));
        }
    }
}

/// What a list of buffers holds is what its buffers hold, one by one.
pub proof fn law_buffers_hold_their_bytes(buffers: Seq<&[u8]>)
    ensures
        crate::write::buffer_bytes(buffers).len() == buffers.len(),
        forall|i: int|
            0 <= i < buffers.len() ==> #[trigger] crate::write::buffer_bytes(buffers)[i]
                == buffers[i]@,
{
}

/// As `full_answers`, for a write of several buffers.
pub open spec fn full_vectored_answers(v: PwritevView, calls: nat) -> Seq<WriteAnswer>
    decreases calls,
{
    if calls == 0 || v.written >= v.data().len() {
        Seq::empty()
    } else {
        let answer = WriteAnswer::Wrote(v.filled().iov.flatten().len() as usize);
        seq![answer] + full_vectored_answers(v.filled().after(answer), (calls - 1) as nat)
    }
}

/// As `law_full_pwrite_completes`, for a write of several buffers.
pub proof fn law_full_pwritev_completes(v: PwritevView, file: Seq<u8>, calls: nat)
    requires
        v.wf(),
        v.pos + v.data().len() - v.written <= u64::MAX,
        calls >= v.data().len() - v.written,
    ensures
        pwritev_faithful(v, full_vectored_answers(v, calls)),
        pwritev_run(v, file, full_vectored_answers(v, calls)).0.filled().iov.len() == 0,
        pwritev_run(v, file, full_vectored_answers(v, calls)).0.written == v.data().len(),
    decreases calls,
{
    law_pwritev_asks_until_all_is_written(v);
    if v.written < v.data().len() {
        let full = v.filled();
        let n = full.iov.flatten().len();
        let answer = WriteAnswer::Wrote(n as usize);
        let answers = full_vectored_answers(v, calls);
        let left = v.data().skip(v.written as int);
        assert(left.len() == n + full.rest.flatten().len());
        crate::write::lemma_after_wf(full, answer);
        let next = full.after(answer);
        let file2 = write_at(
            file,
            (v.pos as i64) as int,
            full.iov.flatten().take(crate::write::advance(answer)),
        );
        law_full_pwritev_completes(next, file2, (calls - 1) as nat);
        assert(answers[0] == answer);
        assert(answers.drop_first() =~= full_vectored_answers(next, (calls - 1) as nat));
    }
}

} // verus!
