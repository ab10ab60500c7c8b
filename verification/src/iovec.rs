//! Lists of buffers for vectored writes.

use vstd::prelude::*;
use vstd::slice::slice_subrange;

verus! {

/// The most bytes that one write call is given, and the most that one entry of a
/// vectored write holds. Darwin refuses anything larger than the largest `i32`.
pub const MAX_PWRITE_LEN: usize = 0x7fff_ffff;

/// The most entries that one vectored write is given.
pub const MAX_IOV: usize = 1024;

/// One entry of a vectored write: bytes of a buffer that outlives the write.
#[derive(Clone, Copy, Debug)]
pub struct IoVec<'a> {
    pub bytes: &'a [u8],
}

impl<'a> View for IoVec<'a> {
    type V = Seq<u8>;

    open spec fn view(&self) -> Seq<u8> {
        self.bytes@
    }
}

/// What the entries of a list hold, entry by entry.
pub open spec fn contents(iov: Seq<IoVec>) -> Seq<Seq<u8>> {
    iov.map_values(|entry: IoVec| entry@)
}

/// `buf` cut into pieces that are all as large as a piece may be, but for the last,
/// which holds what is left.
pub open spec fn chunks(buf: Seq<u8>) -> Seq<Seq<u8>>
    decreases buf.len(),
{
    if buf.len() == 0 {
        Seq::empty()
    } else {
        let n = vstd::math::min(buf.len() as int, MAX_PWRITE_LEN as int);
        seq![buf.take(n)] + chunks(buf.skip(n))
    }
}

/// How many of `pieces` fit into a list of at most `max` entries that has `used` already.
pub open spec fn fitting(pieces: Seq<Seq<u8>>, used: nat, max: int) -> int {
    if used < max {
        vstd::math::min(pieces.len() as int, max - used)
    } else {
        0
    }
}

/// The list `iov` without its first `n` bytes.
pub open spec fn trimmed(iov: Seq<Seq<u8>>, n: int) -> Seq<Seq<u8>>
    decreases iov.len(),
{
    if iov.len() == 0 {
        iov
    } else if iov[0].len() <= n {
        trimmed(iov.drop_first(), n - iov[0].len())
    } else {
        seq![iov[0].skip(n)] + iov.drop_first()
    }
}

/// Every piece is non-empty and none is larger than a piece may be.
pub open spec fn well_sized(pieces: Seq<Seq<u8>>) -> bool {
    forall|i: int| 0 <= i < pieces.len() ==> 0 < (#[trigger] pieces[i]).len() <= MAX_PWRITE_LEN
}

/// Cutting a buffer loses nothing and reorders nothing: the pieces joined are the buffer.
pub proof fn law_chunks_join_to_the_buffer(buf: Seq<u8>)
    ensures
        chunks(buf).flatten() == buf,
        well_sized(chunks(buf)),
    decreases buf.len(),
{
    if buf.len() > 0 {
        let n = vstd::math::min(buf.len() as int, MAX_PWRITE_LEN as int);
        let rest = chunks(buf.skip(n));
        law_chunks_join_to_the_buffer(buf.skip(n));
        assert(chunks(buf).first() == buf.take(n));
        assert(chunks(buf).drop_first() =~= rest);
        assert(buf.take(n) + buf.skip(n) =~= buf);
        assert forall|i: int| 0 <= i < chunks(buf).len() implies 0 < (
        #[trigger] chunks(buf)[i]).len() <= MAX_PWRITE_LEN by {
            if i > 0 {
                assert(chunks(buf)[i] == rest[i - 1]);
            }
        }
    }
}

/// The first pieces of a list joined are a prefix of all pieces joined, and the others
/// are the rest of it.
pub(crate) proof fn lemma_flatten_split(pieces: Seq<Seq<u8>>, k: int)
    requires
        0 <= k <= pieces.len(),
    ensures
        pieces.flatten() == pieces.take(k).flatten() + pieces.skip(k).flatten(),
        pieces.take(k).flatten().len() <= pieces.flatten().len(),
        pieces.take(k).flatten() == pieces.flatten().take(pieces.take(k).flatten().len() as int),
        pieces.skip(k).flatten() == pieces.flatten().skip(pieces.take(k).flatten().len() as int),
{
    assert(pieces.take(k) + pieces.skip(k) =~= pieces);
    vstd::seq_lib::lemma_flatten_concat(pieces.take(k), pieces.skip(k));
    let n = pieces.take(k).flatten().len() as int;
    assert(pieces.take(k).flatten() =~= pieces.flatten().take(n));
    assert(pieces.skip(k).flatten() =~= pieces.flatten().skip(n));
}

/// Appends entries for `buf` to `iovecs`, splitting `buf` into pieces of at most
/// `MAX_PWRITE_LEN` bytes. Stops once the list has `max_iovecs` entries. Returns the number
/// of bytes taken from `buf`.
pub fn buf_to_iovecs<'a>(buf: &'a [u8], iovecs: &mut Vec<IoVec<'a>>, max_iovecs: usize) -> (taken:
    usize)
    ensures
        ({
            let pieces = chunks(buf@);
            let k = fitting(pieces, old(iovecs)@.len(), max_iovecs as int);
            &&& contents(final(iovecs)@) == contents(old(iovecs)@) + pieces.take(k)
            &&& taken == pieces.take(k).flatten().len()
            &&& chunks(buf@.skip(taken as int)) == pieces.skip(k)
        }),
        taken <= buf@.len(),
        contents(final(iovecs)@).flatten() == contents(old(iovecs)@).flatten() + buf@.take(
            taken as int,
        ),
        taken < buf@.len() ==> final(iovecs)@.len() >= max_iovecs,
{
    let ghost before = contents(iovecs@);
    let ghost pieces = chunks(buf@);
    let ghost mut k: int = 0;
    let mut slice: &'a [u8] = buf;
    proof {
        law_chunks_join_to_the_buffer(buf@);
        assert(buf@.skip(0) =~= buf@);
        assert(pieces.skip(0) =~= pieces);
        assert(contents(iovecs@) =~= before + pieces.take(0));
    }
    while !slice.is_empty() && iovecs.len() < max_iovecs
        invariant
            pieces == chunks(buf@),
            pieces.flatten() == buf@,
            0 <= k <= pieces.len(),
            slice@.len() <= buf@.len(),
            slice@ == buf@.skip(buf@.len() - slice@.len()),
            chunks(slice@) == pieces.skip(k),
            pieces.take(k).flatten().len() == buf@.len() - slice@.len(),
            before == contents(old(iovecs)@),
            contents(iovecs@) == before + pieces.take(k),
            iovecs@.len() == old(iovecs)@.len() + k,
            k > 0 ==> iovecs@.len() <= max_iovecs,
        decreases slice@.len(),
    {
        let chunk_len: usize = if slice.len() < MAX_PWRITE_LEN {
            slice.len()
        } else {
            MAX_PWRITE_LEN
        };
        let ghost rest = slice@;
        let ghost list = iovecs@;
        let piece: &'a [u8] = slice_subrange(slice, 0, chunk_len);
        iovecs.push(IoVec { bytes: piece });
        slice = slice_subrange(slice, chunk_len, slice.len());
        proof {
            assert(piece@ =~= rest.take(chunk_len as int));
            assert(slice@ =~= rest.skip(chunk_len as int));
            assert(slice@ =~= buf@.skip(buf@.len() - slice@.len()));
            assert(chunks(rest)[0] == piece@);
            assert(pieces.skip(k).len() == pieces.len() - k);
            assert(pieces[k] == pieces.skip(k)[0]);
            assert(pieces.take(k + 1) =~= pieces.take(k).push(piece@));
            assert(pieces.skip(k + 1) =~= chunks(rest).drop_first());
            assert(chunks(rest).drop_first() =~= chunks(slice@));
            pieces.take(k).lemma_flatten_push(piece@);
            assert(contents(iovecs@) =~= contents(list).push(piece@));
            assert(contents(iovecs@) =~= before + pieces.take(k + 1));
            k = k + 1;
        }
    }
    proof {
        lemma_flatten_split(pieces, k);
        vstd::seq_lib::lemma_flatten_concat(before, pieces.take(k));
        assert(pieces.skip(k).len() == pieces.len() - k);
        assert(slice@.len() == 0 <==> chunks(slice@).len() == 0);
        assert(k == fitting(pieces, before.len(), max_iovecs as int));
    }
    buf.len() - slice.len()
}

/// Trimming a list drops exactly its first bytes.
pub proof fn law_trimming_drops_a_prefix(iov: Seq<Seq<u8>>, n: int)
    requires
        0 <= n <= iov.flatten().len(),
    ensures
        trimmed(iov, n).flatten() == iov.flatten().skip(n),
        trimmed(iov, n).len() <= iov.len(),
        well_sized(iov) ==> well_sized(trimmed(iov, n)),
    decreases iov.len(),
{
    if iov.len() == 0 {
        assert(iov.flatten().skip(n) =~= iov.flatten());
    } else {
        let rest = iov.drop_first();
        if iov[0].len() <= n {
            if well_sized(iov) {
                assert forall|i: int| 0 <= i < rest.len() implies 0 < (#[trigger] rest[i]).len()
                    <= MAX_PWRITE_LEN by {
                    assert(rest[i] == iov[i + 1]);
                }
            }
            law_trimming_drops_a_prefix(rest, n - iov[0].len());
            assert(rest.flatten().skip(n - iov[0].len()) =~= iov.flatten().skip(n));
        } else {
            let cut = seq![iov[0].skip(n)] + rest;
            assert(cut.first() == iov[0].skip(n));
            assert(cut.drop_first() =~= rest);
            assert(cut.flatten() =~= iov.flatten().skip(n));
            if well_sized(iov) {
                assert forall|i: int| 0 <= i < cut.len() implies 0 < (#[trigger] cut[i]).len()
                    <= MAX_PWRITE_LEN by {
                    if i > 0 {
                        assert(cut[i] == iov[i]);
                    } else {
                        assert(0 < iov[0].len() <= MAX_PWRITE_LEN);
                    }
                }
            }
        }
    }
}

/// Trimming a list twice is trimming it once by both amounts.
pub proof fn law_trims_add_up(iov: Seq<Seq<u8>>, a: int, b: int)
    requires
        0 <= a,
        0 <= b,
        a + b <= iov.flatten().len(),
    ensures
        trimmed(trimmed(iov, a), b) == trimmed(iov, a + b),
    decreases iov.len(),
{
    if iov.len() > 0 {
        let rest = iov.drop_first();
        if iov[0].len() <= a {
            law_trims_add_up(rest, a - iov[0].len(), b);
        } else {
            let cut = seq![iov[0].skip(a)] + rest;
            assert(cut.drop_first() =~= rest);
            if iov[0].len() > a + b {
                assert(iov[0].skip(a).skip(b) =~= iov[0].skip(a + b));
            }
        }
    }
}

/// Drops the first `n` bytes from the front of `iov`, cutting the leading entry if only a
/// part of it goes.
pub fn trim_iovecs<'a>(iov: &mut Vec<IoVec<'a>>, n: usize)
    requires
        n <= contents(old(iov)@).flatten().len(),
    ensures
        contents(final(iov)@) == trimmed(contents(old(iov)@), n as int),
        contents(final(iov)@).flatten() == contents(old(iov)@).flatten().skip(n as int),
{
    let ghost all = contents(iov@);
    let mut left: usize = n;
    let mut idx: usize = 0;
    proof {
        law_trimming_drops_a_prefix(all, n as int);
        assert(all.skip(0) =~= all);
    }
    while idx < iov.len()
        invariant
            idx <= iov@.len(),
            all == contents(iov@),
            left <= all.skip(idx as int).flatten().len(),
            trimmed(all, n as int) == trimmed(all.skip(idx as int), left as int),
        ensures
            idx == iov@.len() || all[idx as int].len() > left,
        decreases iov@.len() - idx,
    {
        let ghost tail = all.skip(idx as int);
        assert(tail[0] == iov@[idx as int]@);
        let entry_len: usize = iov[idx].bytes.len();
        if entry_len > left {
            break;
        }
        proof {
            assert(tail.drop_first() =~= all.skip(idx + 1));
        }
        left = left - entry_len;
        idx = idx + 1;
    }
    let ghost tail = all.skip(idx as int);
    let kept = iov.split_off(idx);
    *iov = kept;
    assert(contents(iov@) =~= tail);
    if left > 0 {
        let front: &'a [u8] = iov[0].bytes;
        let cut: &'a [u8] = slice_subrange(front, left, front.len());
        iov[0] = IoVec { bytes: cut };
        proof {
            assert(tail[0] == front@);
            assert(cut@ =~= front@.skip(left as int));
            assert(contents(iov@) =~= seq![tail[0].skip(left as int)] + tail.drop_first());
        }
    } else {
        proof {
            if tail.len() > 0 {
                assert(tail[0].skip(0) =~= tail[0]);
                assert(seq![tail[0].skip(0)] + tail.drop_first() =~= tail);
            }
        }
    }
}

/// The limits of a call: Darwin takes no more bytes than an `i32` counts, and no more than 1024
/// entries go into one list.
pub proof fn law_limits_of_a_call()
    ensures
        MAX_PWRITE_LEN == i32::MAX,
        MAX_IOV == 1024,
{
}

/// What a list of entries holds is what its entries point at, one by one.
pub proof fn law_entries_hold_their_bytes(iov: Seq<IoVec>)
    ensures
        contents(iov).len() == iov.len(),
        forall|i: int| 0 <= i < iov.len() ==> #[trigger] contents(iov)[i] == iov[i].bytes@,
{
}

/// A buffer is cut no more often than it has to be: every piece but the last is as large as a call
/// takes. An empty buffer has no pieces.
pub proof fn law_pieces_are_as_large_as_a_call_takes(buf: Seq<u8>)
    ensures
        chunks(buf).len() == 0 <==> buf.len() == 0,
        forall|i: int|
            0 <= i < chunks(buf).len() - 1 ==> (#[trigger] chunks(buf)[i]).len() == i32::MAX,
    decreases buf.len(),
{
    if buf.len() > 0 {
        let n = vstd::math::min(buf.len() as int, MAX_PWRITE_LEN as int);
        let rest = chunks(buf.skip(n));
        law_pieces_are_as_large_as_a_call_takes(buf.skip(n));
        assert forall|i: int| 0 <= i < chunks(buf).len() - 1 implies (#[trigger] chunks(
            buf,
        )[i]).len() == i32::MAX by {
            if i > 0 {
                assert(chunks(buf)[i] == rest[i - 1]);
            } else {
                assert(rest.len() > 0);
            }
        }
    }
}

/// As many pieces go into a list as there is room for: either all of them, or the list is full
/// then. A list that is full already takes none.
pub proof fn law_lists_are_filled_up(pieces: Seq<Seq<u8>>, used: nat, max: int)
    ensures
        0 <= fitting(pieces, used, max) <= pieces.len(),
        used >= max ==> fitting(pieces, used, max) == 0,
        used <= max ==> used + fitting(pieces, used, max) <= max,
        fitting(pieces, used, max) == pieces.len() || used + fitting(pieces, used, max) >= max,
{
}

/// Trimming drops whole entries from the front and cuts at most one: what is left are the last
/// entries of the list, all but the first of them unchanged, and of that one the end.
pub proof fn law_trimming_cuts_at_most_one_entry(iov: Seq<Seq<u8>>, n: int)
    requires
        0 <= n,
    ensures
        ({
            let left = trimmed(iov, n);
            let k = iov.len() - left.len();
            &&& 0 <= k
            &&& forall|j: int| 0 < j < left.len() ==> #[trigger] left[j] == iov[k + j]
            &&& left.len() > 0 ==> {
                &&& 0 < left[0].len() <= iov[k].len()
                &&& left[0] == iov[k].skip(iov[k].len() - left[0].len())
            }
        }),
    decreases iov.len(),
{
    if iov.len() > 0 {
        if iov[0].len() <= n {
            law_trimming_cuts_at_most_one_entry(iov.drop_first(), n - iov[0].len());
        }
    }
}

} // verus!
