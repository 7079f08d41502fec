//! Splitting lengths and contents into parts of one size.

use vstd::prelude::*;
use vstd::slice::{slice_subrange, slice_to_vec};

use crate::snapshots::hash_cache::{
    chunk_bound, chunk_count, chunk_count_facts, chunk_end, next_chunk_bound,
};

verus! {

/// A part of a length: from `start` up to but without `end`.
#[derive(Debug, Clone, Copy, PartialEq, Eq, Structural)]
pub struct PartRange {
    pub start: u64,
    pub end: u64,
}

/// Part `k` of a length that is split into parts of one size; the last may be shorter.
pub open spec fn part(total: u64, part_size: u64, k: int) -> PartRange {
    PartRange {
        start: chunk_bound(part_size, total, k) as u64,
        end: chunk_bound(part_size, total, k + 1) as u64,
    }
}

/// The parts of a length.
pub open spec fn parts(total: u64, part_size: u64) -> Seq<PartRange> {
    Seq::new(chunk_count(part_size, total) as nat, |k: int| part(total, part_size, k))
}

/// Split a length into parts of one size.
pub fn part_ranges(total: u64, part_size: u64) -> (r: Vec<PartRange>)
    requires
        part_size > 0,
    ensures
        r@ == parts(total, part_size),
{
    let mut r: Vec<PartRange> = Vec::new();
    let mut start: u64 = 0;
    assert(chunk_bound(part_size, total, 0) == 0) by {
        assert(0 * part_size == 0);
    }
    while start < total
        invariant
            part_size > 0,
            start <= total,
            start == chunk_bound(part_size, total, r@.len() as int),
            r@.len() > 0 ==> chunk_bound(part_size, total, r@.len() - 1) < total,
            forall|k: int| 0 <= k < r@.len() ==> #[trigger] r@[k] == part(total, part_size, k),
        decreases total - start,
    {
        proof {
            next_chunk_bound(part_size, total, r@.len() as int);
        }
        let end: u64 = chunk_end(start, part_size, total);
        r.push(PartRange { start, end });
        start = end;
    }
    proof {
        let n = r@.len() as int;
        chunk_count_facts(part_size, total, n);
        if n > 0 {
            chunk_count_facts(part_size, total, n - 1);
        }
        assert(n == chunk_count(part_size, total));
        assert(r@ =~= parts(total, part_size));
    }
    r
}

/// The parts of a length begin at 0, follow on each other without gap or overlap, hold at
/// least one and at most the given number of units each, and end where the length ends.
pub proof fn parts_tile_the_whole(total: u64, part_size: u64, k: int)
    requires
        part_size > 0,
        0 <= k < chunk_count(part_size, total),
    ensures
        parts(total, part_size)[k].start < parts(total, part_size)[k].end,
        parts(total, part_size)[k].end - parts(total, part_size)[k].start <= part_size,
        k == 0 ==> parts(total, part_size)[k].start == 0,
        k + 1 < chunk_count(part_size, total) ==> parts(total, part_size)[k].end == parts(
            total,
            part_size,
        )[k + 1].start && parts(total, part_size)[k].end - parts(total, part_size)[k].start
            == part_size,
        k + 1 == chunk_count(part_size, total) ==> parts(total, part_size)[k].end == total,
{
    next_chunk_bound(part_size, total, k);
    chunk_count_facts(part_size, total, k);
    chunk_count_facts(part_size, total, k + 1);
    assert(0 * part_size == 0);
}

/// There are no parts exactly where there is nothing to split.
pub proof fn nothing_has_no_parts(total: u64, part_size: u64)
    requires
        part_size > 0,
    ensures
        parts(total, part_size).len() == 0 <==> total == 0,
{
    chunk_count_facts(part_size, total, 0);
    assert(0 * part_size == 0);
}

/// Contents split into chunks of one size. Empty contents are one empty chunk.
pub open spec fn chunks_of(data: Seq<u8>, chunk_size: u64) -> Seq<Seq<u8>> {
    if data.len() == 0 {
        seq![data]
    } else {
        Seq::new(
            chunk_count(chunk_size, data.len() as u64) as nat,
            |k: int|
                data.subrange(
                    chunk_bound(chunk_size, data.len() as u64, k),
                    chunk_bound(chunk_size, data.len() as u64, k + 1),
                ),
        )
    }
}

/// The contents of chunks.
pub open spec fn chunk_bytes(v: Seq<Vec<u8>>) -> Seq<Seq<u8>> {
    Seq::new(v.len(), |i: int| v[i]@)
}

/// Split contents into chunks of one size. Empty contents are one empty chunk.
pub fn split_data(data: &Vec<u8>, chunk_size: u64) -> (r: Vec<Vec<u8>>)
    requires
        chunk_size > 0,
    ensures
        chunk_bytes(r@) == chunks_of(data@, chunk_size),
{
    let len: usize = data.len();
    let total: u64 = len as u64;
    let mut r: Vec<Vec<u8>> = Vec::new();
    if total == 0 {
        r.push(Vec::new());
        assert(chunk_bytes(r@) =~= chunks_of(data@, chunk_size)) by {
            assert(r@[0]@ =~= data@);
        }
        return r;
    }
    let ranges = part_ranges(total, chunk_size);
    let mut i: usize = 0;
    while i < ranges.len()
        invariant
            chunk_size > 0,
            i <= ranges.len(),
            total == len == data@.len(),
            r@.len() == i,
            ranges@ == parts(total, chunk_size),
            forall|k: int|
                0 <= k < i ==> (#[trigger] r@[k])@ == data@.subrange(
                    chunk_bound(chunk_size, total, k),
                    chunk_bound(chunk_size, total, k + 1),
                ),
        decreases ranges.len() - i,
    {
        proof {
            next_chunk_bound(chunk_size, total, i as int);
            assert(ranges@[i as int] == part(total, chunk_size, i as int));
        }
        let start: usize = ranges[i].start as usize;
        let end: usize = ranges[i].end as usize;
        let piece = slice_to_vec(slice_subrange(data.as_slice(), start, end));
        r.push(piece);
        i += 1;
    }
    assert(chunk_bytes(r@) =~= chunks_of(data@, chunk_size));
    r
}

/// Pieces put together again.
pub open spec fn concatenated(s: Seq<Seq<u8>>) -> Seq<u8>
    decreases s.len(),
{
    if s.len() == 0 {
        Seq::empty()
    } else {
        concatenated(s.drop_last()) + s.last()
    }
}

proof fn first_chunks(data: Seq<u8>, chunk_size: u64, n: int)
    requires
        chunk_size > 0,
        0 < data.len() <= u64::MAX,
        0 <= n <= chunk_count(chunk_size, data.len() as u64),
    ensures
        concatenated(chunks_of(data, chunk_size).take(n)) == data.take(
            chunk_bound(chunk_size, data.len() as u64, n),
        ),
    decreases n,
{
    let total = data.len() as u64;
    let all = chunks_of(data, chunk_size);
    if n == 0 {
        assert(0 * chunk_size == 0);
        assert(data.take(0) =~= Seq::empty());
        assert(all.take(0) =~= Seq::empty());
    } else {
        first_chunks(data, chunk_size, n - 1);
        next_chunk_bound(chunk_size, total, n - 1);
        let a = chunk_bound(chunk_size, total, n - 1);
        let b = chunk_bound(chunk_size, total, n);
        assert(all.take(n).drop_last() =~= all.take(n - 1));
        assert(all.take(n).last() == data.subrange(a, b));
        assert(data.take(a) + data.subrange(a, b) =~= data.take(b));
    }
}

/// The number of bytes in some pieces.
pub open spec fn total_len(s: Seq<Seq<u8>>) -> int
    decreases s.len(),
{
    if s.len() == 0 {
        0
    } else {
        total_len(s.drop_last()) + s.last().len()
    }
}

/// Pieces put together hold as many bytes as the pieces do.
pub proof fn lengths_add_up(s: Seq<Seq<u8>>)
    ensures
        total_len(s) == concatenated(s).len(),
    decreases s.len(),
{
    if s.len() > 0 {
        lengths_add_up(s.drop_last());
    }
}

/// Chunks put together again are the contents that were split, and hold as many bytes.
pub proof fn chunks_make_up_the_contents(data: Seq<u8>, chunk_size: u64)
    requires
        chunk_size > 0,
        data.len() <= u64::MAX,
    ensures
        concatenated(chunks_of(data, chunk_size)) == data,
        total_len(chunks_of(data, chunk_size)) == data.len(),
{
    let all = chunks_of(data, chunk_size);
    lengths_add_up(all);
    if data.len() == 0 {
        assert(all.drop_last() =~= Seq::empty());
        assert(concatenated(all.drop_last()) =~= Seq::empty());
        assert(concatenated(all) =~= data);
    } else {
        let total = data.len() as u64;
        let n = chunk_count(chunk_size, total);
        chunk_count_facts(chunk_size, total, n);
        first_chunks(data, chunk_size, n);
        assert(all.take(n) =~= all);
        assert(chunk_bound(chunk_size, total, n) == total);
        assert(data.take(total as int) =~= data);
    }
}

/// Contents are split into chunks that all have the chunk size, but for the last, which has
/// what is left and is never empty; only empty contents make an empty chunk, and only one.
pub proof fn chunks_have_one_size(data: Seq<u8>, chunk_size: u64, k: int)
    requires
        chunk_size > 0,
        data.len() <= u64::MAX,
        0 <= k < chunks_of(data, chunk_size).len(),
    ensures
        ({
            let all = chunks_of(data, chunk_size);
            &&& data.len() == 0 ==> all.len() == 1 && all[k] == data
            &&& data.len() > 0 ==> 0 < all[k].len() <= chunk_size
            &&& k + 1 < all.len() ==> all[k].len() == chunk_size
            &&& forall|i: int|
                0 <= i < all[k].len() ==> #[trigger] all[k][i] == data[k * chunk_size + i]
        }),
{
    if data.len() > 0 {
        let total = data.len() as u64;
        next_chunk_bound(chunk_size, total, k);
        chunk_count_facts(chunk_size, total, k);
        chunk_count_facts(chunk_size, total, k + 1);
    } else {
        assert(0 * chunk_size == 0);
    }
}

} // verus!
