//! Contents that are uploaded in chunks and downloaded again.

use vstd::prelude::*;

use crate::snapshots::download::{
    chunk_goes_back_to_its_place, chunk_len, chunk_offset, fetches, fetches_of_chunk, range_fetch,
    ranges_fill_the_chunk, FetchView,
};
use crate::snapshots::hash_cache::{chunk_bound, chunk_count, chunk_count_facts, next_chunk_bound};
use crate::snapshots::hashing::hash_text;
use crate::snapshots::parts::{chunks_of, part, parts, parts_tile_the_whole, PartRange};
use crate::snapshots::transfer::hashes_of;

verus! {

/// Whether a store holds every chunk of some contents under its hash.
pub open spec fn holds_chunks(
    store: Map<Seq<char>, Seq<u8>>,
    data: Seq<u8>,
    chunk_size: u64,
) -> bool {
    forall|k: int|
        0 <= k < chunks_of(data, chunk_size).len() ==> store.contains_key(
            hash_text(#[trigger] chunks_of(data, chunk_size)[k]),
        ) && store[hash_text(chunks_of(data, chunk_size)[k])] == chunks_of(data, chunk_size)[k]
}

/// The bytes that a store answers a fetch with.
pub open spec fn answer(store: Map<Seq<char>, Seq<u8>>, f: FetchView) -> Seq<u8> {
    match f {
        FetchView::Object { hash, .. } => store[hash],
        FetchView::Range { hash, start, end, .. } => store[hash].subrange(
            start as int,
            end + 1,
        ),
    }
}

/// Where in the file the answer to a fetch is written.
pub open spec fn write_place(f: FetchView) -> int {
    match f {
        FetchView::Object { offset, .. } => offset as int,
        FetchView::Range { write_offset, .. } => write_offset as int,
    }
}

/// A file with some bytes written over what it has at a place.
pub open spec fn overwritten(file: Seq<u8>, at: int, bytes: Seq<u8>) -> Seq<u8> {
    Seq::new(
        file.len(),
        |i: int|
            if at <= i < at + bytes.len() {
                bytes[i - at]
            } else {
                file[i]
            },
    )
}

/// A file after the answers to some fetches were written to it, one after the other.
pub open spec fn written(
    file: Seq<u8>,
    store: Map<Seq<char>, Seq<u8>>,
    done: Seq<FetchView>,
) -> Seq<u8>
    decreases done.len(),
{
    if done.len() == 0 {
        file
    } else {
        overwritten(
            written(file, store, done.drop_last()),
            write_place(done.last()),
            answer(store, done.last()),
        )
    }
}

/// The fetches of chunk `k`.
spec fn chunk_fetches(
    hashes: Seq<Seq<char>>,
    file_size: u64,
    chunk_size: u64,
    part_size: u64,
    supports_range: bool,
    k: int,
) -> Seq<FetchView> {
    fetches_of_chunk(
        hashes[k],
        chunk_offset(chunk_size, file_size, k),
        chunk_len(chunk_size, file_size, k),
        part_size,
        supports_range,
    )
}

proof fn fetch_is_of_a_chunk(
    hashes: Seq<Seq<char>>,
    file_size: u64,
    chunk_size: u64,
    part_size: u64,
    supports_range: bool,
    f: FetchView,
) -> (k: int)
    requires
        fetches(hashes, file_size, chunk_size, part_size, supports_range).contains(f),
    ensures
        0 <= k < hashes.len(),
        chunk_fetches(hashes, file_size, chunk_size, part_size, supports_range, k).contains(f),
    decreases hashes.len(),
{
    let all = fetches(hashes, file_size, chunk_size, part_size, supports_range);
    let front = hashes.drop_last();
    let before = fetches(front, file_size, chunk_size, part_size, supports_range);
    let last = hashes.len() - 1;
    let i = choose|i: int| 0 <= i < all.len() && all[i] == f;
    if i < before.len() {
        assert(before[i] == f);
        fetch_is_of_a_chunk(front, file_size, chunk_size, part_size, supports_range, f)
    } else {
        let own = chunk_fetches(hashes, file_size, chunk_size, part_size, supports_range, last);
        assert(own[i - before.len()] == f);
        last
    }
}

proof fn fetches_of_chunk_are_made(
    hashes: Seq<Seq<char>>,
    file_size: u64,
    chunk_size: u64,
    part_size: u64,
    supports_range: bool,
    k: int,
    f: FetchView,
)
    requires
        0 <= k < hashes.len(),
        chunk_fetches(hashes, file_size, chunk_size, part_size, supports_range, k).contains(f),
    ensures
        fetches(hashes, file_size, chunk_size, part_size, supports_range).contains(f),
    decreases hashes.len(),
{
    let all = fetches(hashes, file_size, chunk_size, part_size, supports_range);
    let front = hashes.drop_last();
    let before = fetches(front, file_size, chunk_size, part_size, supports_range);
    let own = chunk_fetches(hashes, file_size, chunk_size, part_size, supports_range, k);
    if k < front.len() {
        assert(own == chunk_fetches(front, file_size, chunk_size, part_size, supports_range, k));
        fetches_of_chunk_are_made(
            front,
            file_size,
            chunk_size,
            part_size,
            supports_range,
            k,
            f,
        );
        let i = choose|i: int| 0 <= i < before.len() && before[i] == f;
        assert(all[i] == f);
    } else {
        let i = choose|i: int| 0 <= i < own.len() && own[i] == f;
        assert(all[before.len() + i] == f);
    }
}

/// Every byte lies in a chunk.
proof fn byte_lies_in_a_chunk(chunk_size: u64, total: u64, i: int) -> (k: int)
    requires
        chunk_size > 0,
        0 <= i < total,
    ensures
        0 <= k < chunk_count(chunk_size, total),
        chunk_bound(chunk_size, total, k) <= i < chunk_bound(chunk_size, total, k + 1),
{
    let c = chunk_size as int;
    let k = i / c;
    assert(k >= 0 && k * c <= i < (k + 1) * c) by (nonlinear_arith)
        requires
            c > 0,
            i >= 0,
            k == i / c,
    ;
    chunk_count_facts(chunk_size, total, k);
    k
}

/// The answer to a fetch of chunk `k` is what the contents have at the place where it is
/// written.
proof fn answer_is_in_place(
    data: Seq<u8>,
    chunk_size: u64,
    part_size: u64,
    supports_range: bool,
    store: Map<Seq<char>, Seq<u8>>,
    k: int,
    f: FetchView,
)
    requires
        chunk_size > 0,
        supports_range ==> part_size > 0,
        data.len() <= u64::MAX,
        holds_chunks(store, data, chunk_size),
        0 <= k < chunks_of(data, chunk_size).len(),
        chunk_fetches(
            hashes_of(data, chunk_size),
            data.len() as u64,
            chunk_size,
            part_size,
            supports_range,
            k,
        ).contains(f),
    ensures
        0 <= write_place(f),
        write_place(f) + answer(store, f).len() <= data.len(),
        answer(store, f) == data.subrange(
            write_place(f),
            write_place(f) + answer(store, f).len(),
        ),
        f matches FetchView::Object { hash, .. } ==> hash_text(answer(store, f)) == hash,
{
    let total = data.len() as u64;
    let chunk = chunks_of(data, chunk_size)[k];
    let hash = hashes_of(data, chunk_size)[k];
    assert(store[hash] == chunk);
    let offset = chunk_offset(chunk_size, total, k);
    let size = chunk_len(chunk_size, total, k);
    let own = fetches_of_chunk(hash, offset, size, part_size, supports_range);
    let i = choose|i: int| 0 <= i < own.len() && own[i] == f;
    next_chunk_bound(chunk_size, total, k);
    if data.len() == 0 {
        assert(chunk =~= data);
        assert(f == FetchView::Object { hash, offset });
        assert(data.subrange(0, 0) =~= data);
    } else {
        chunk_goes_back_to_its_place(data, chunk_size, k);
        if size >= 2 * part_size && supports_range {
            ranges_fill_the_chunk(hash, offset, size, part_size, i);
            parts_tile_the_whole(size, part_size, i);
            next_chunk_bound(part_size, size, i);
            assert(f == range_fetch(hash, offset, size, part_size, i));
            assert(chunk.len() == size);
            let start = part(size, part_size, i).start as int;
            let end = part(size, part_size, i).end as int;
            assert(chunk.subrange(start, end) =~= data.subrange(offset + start, offset + end));
        } else {
            assert(f == FetchView::Object { hash, offset });
        }
    }
}

/// Whether the answer to fetch `j` of `done` is written over byte `i`.
spec fn reaches(
    store: Map<Seq<char>, Seq<u8>>,
    done: Seq<FetchView>,
    j: int,
    i: int,
) -> bool {
    0 <= j < done.len() && write_place(done[j]) <= i < write_place(done[j]) + answer(
        store,
        done[j],
    ).len()
}

/// Every byte is fetched.
proof fn byte_is_fetched(
    data: Seq<u8>,
    chunk_size: u64,
    part_size: u64,
    supports_range: bool,
    store: Map<Seq<char>, Seq<u8>>,
    i: int,
) -> (f: FetchView)
    requires
        chunk_size > 0,
        supports_range ==> part_size > 0,
        data.len() <= u64::MAX,
        holds_chunks(store, data, chunk_size),
        0 <= i < data.len(),
    ensures
        fetches(
            hashes_of(data, chunk_size),
            data.len() as u64,
            chunk_size,
            part_size,
            supports_range,
        ).contains(f),
        write_place(f) <= i < write_place(f) + answer(store, f).len(),
{
    let total = data.len() as u64;
    let hashes = hashes_of(data, chunk_size);
    let k = byte_lies_in_a_chunk(chunk_size, total, i);
    let chunk = chunks_of(data, chunk_size)[k];
    let hash = hashes[k];
    assert(store[hash] == chunk);
    let offset = chunk_offset(chunk_size, total, k);
    let size = chunk_len(chunk_size, total, k);
    next_chunk_bound(chunk_size, total, k);
    chunk_goes_back_to_its_place(data, chunk_size, k);
    let own = chunk_fetches(hashes, total, chunk_size, part_size, supports_range, k);
    let f = if size >= 2 * part_size && supports_range {
        let j = byte_lies_in_a_chunk(part_size, size, i - offset);
        ranges_fill_the_chunk(hash, offset, size, part_size, j);
        next_chunk_bound(part_size, size, j);
        assert(own[j] == range_fetch(hash, offset, size, part_size, j));
        own[j]
    } else {
        assert(own[0] == FetchView::Object { hash, offset });
        own[0]
    };
    assert(own.contains(f));
    fetches_of_chunk_are_made(hashes, total, chunk_size, part_size, supports_range, k, f);
    f
}

proof fn written_bytes_are_right(
    data: Seq<u8>,
    file: Seq<u8>,
    store: Map<Seq<char>, Seq<u8>>,
    done: Seq<FetchView>,
)
    requires
        file.len() == data.len(),
        forall|j: int|
            0 <= j < done.len() ==> {
                &&& 0 <= write_place(#[trigger] done[j])
                &&& write_place(done[j]) + answer(store, done[j]).len() <= data.len()
                &&& answer(store, done[j]) == data.subrange(
                    write_place(done[j]),
                    write_place(done[j]) + answer(store, done[j]).len(),
                )
            },
    ensures
        written(file, store, done).len() == data.len(),
        forall|j: int, i: int|
            0 <= i < data.len() && #[trigger] reaches(store, done, j, i) ==> written(
                file,
                store,
                done,
            )[i] == data[i],
    decreases done.len(),
{
    if done.len() > 0 {
        let front = done.drop_last();
        let last = done.len() - 1;
        assert forall|j: int| 0 <= j < front.len() implies {
            &&& 0 <= write_place(#[trigger] front[j])
            &&& write_place(front[j]) + answer(store, front[j]).len() <= data.len()
            &&& answer(store, front[j]) == data.subrange(
                write_place(front[j]),
                write_place(front[j]) + answer(store, front[j]).len(),
            )
        } by {
            assert(front[j] == done[j]);
        }
        written_bytes_are_right(data, file, store, front);
        let at = write_place(done[last]);
        let bytes = answer(store, done[last]);
        assert forall|j: int, i: int|
            0 <= i < data.len() && #[trigger] reaches(store, done, j, i) implies written(
            file,
            store,
            done,
        )[i] == data[i] by {
            if at <= i < at + bytes.len() {
                assert(bytes[i - at] == data[i]);
            } else {
                assert(j != last);
                assert(front[j] == done[j]);
                assert(reaches(store, front, j, i));
            }
        }
    }
}

/// Contents that are uploaded in chunks come back as they were.
///
/// The chunks of the contents have the hashes that a download is planned with, and a store
/// holds each chunk under its hash. Whatever fetches of the plan are done, in whatever order,
/// as long as each is done at least once: where every answer is written at its place in a file
/// of the right length, the file holds the contents, and every chunk that is fetched at once
/// has the hash that it is checked against.
pub proof fn chunks_come_back_as_they_were(
    data: Seq<u8>,
    chunk_size: u64,
    part_size: u64,
    supports_range: bool,
    store: Map<Seq<char>, Seq<u8>>,
    file: Seq<u8>,
    done: Seq<FetchView>,
)
    requires
        chunk_size > 0,
        supports_range ==> part_size > 0,
        data.len() <= u64::MAX,
        holds_chunks(store, data, chunk_size),
        file.len() == data.len(),
        forall|f: FetchView| #[trigger]
            done.contains(f) <==> fetches(
                hashes_of(data, chunk_size),
                data.len() as u64,
                chunk_size,
                part_size,
                supports_range,
            ).contains(f),
    ensures
        written(file, store, done) == data,
        forall|j: int|
            0 <= j < done.len() ==> (#[trigger] done[j] matches FetchView::Object { hash, .. }
                ==> hash_text(answer(store, done[j])) == hash),
{
    let total = data.len() as u64;
    let hashes = hashes_of(data, chunk_size);
    assert forall|j: int| 0 <= j < done.len() implies {
        &&& 0 <= write_place(#[trigger] done[j])
        &&& write_place(done[j]) + answer(store, done[j]).len() <= data.len()
        &&& answer(store, done[j]) == data.subrange(
            write_place(done[j]),
            write_place(done[j]) + answer(store, done[j]).len(),
        )
        &&& done[j] matches FetchView::Object { hash, .. } ==> hash_text(answer(store, done[j]))
            == hash
    } by {
        let f = done[j];
        assert(done.contains(f));
        let k = fetch_is_of_a_chunk(hashes, total, chunk_size, part_size, supports_range, f);
        answer_is_in_place(data, chunk_size, part_size, supports_range, store, k, f);
    }
    written_bytes_are_right(data, file, store, done);
    assert forall|i: int| 0 <= i < data.len() implies written(file, store, done)[i] == data[i] by {
        let f = byte_is_fetched(data, chunk_size, part_size, supports_range, store, i);
        assert(done.contains(f));
        let j = choose|j: int| 0 <= j < done.len() && done[j] == f;
        assert(reaches(store, done, j, i));
    }
    assert(written(file, store, done) =~= data);
}

/// The fetch of one part of the object of a whole file, to the same place in the file.
pub open spec fn part_fetch(hash: Seq<char>, p: PartRange) -> FetchView {
    FetchView::Range { hash, start: p.start, end: (p.end - 1) as u64, write_offset: p.start }
}

/// The fetches of some parts of the object of a whole file.
pub open spec fn part_fetches(hash: Seq<char>, done: Seq<PartRange>) -> Seq<FetchView> {
    Seq::new(done.len(), |j: int| part_fetch(hash, done[j]))
}

/// Contents that are stored as one object and fetched in parts come back as they were, in
/// whatever order the parts are fetched, as long as each is fetched at least once.
pub proof fn parts_come_back_as_they_were(
    data: Seq<u8>,
    part_size: u64,
    hash: Seq<char>,
    store: Map<Seq<char>, Seq<u8>>,
    file: Seq<u8>,
    done: Seq<PartRange>,
)
    requires
        part_size > 0,
        data.len() <= u64::MAX,
        store.contains_key(hash),
        store[hash] == data,
        file.len() == data.len(),
        forall|p: PartRange| #[trigger]
            done.contains(p) <==> parts(data.len() as u64, part_size).contains(p),
    ensures
        written(file, store, part_fetches(hash, done)) == data,
{
    let total = data.len() as u64;
    let all = parts(total, part_size);
    let fetched = part_fetches(hash, done);
    assert forall|j: int| 0 <= j < fetched.len() implies {
        &&& 0 <= write_place(#[trigger] fetched[j])
        &&& write_place(fetched[j]) + answer(store, fetched[j]).len() <= data.len()
        &&& answer(store, fetched[j]) == data.subrange(
            write_place(fetched[j]),
            write_place(fetched[j]) + answer(store, fetched[j]).len(),
        )
    } by {
        assert(done.contains(done[j]));
        let k = choose|k: int| 0 <= k < all.len() && all[k] == done[j];
        parts_tile_the_whole(total, part_size, k);
        next_chunk_bound(part_size, total, k);
        assert(all[k] == part(total, part_size, k));
    }
    written_bytes_are_right(data, file, store, fetched);
    assert forall|i: int| 0 <= i < data.len() implies written(file, store, fetched)[i]
        == data[i] by {
        let k = byte_lies_in_a_chunk(part_size, total, i);
        next_chunk_bound(part_size, total, k);
        assert(all[k] == part(total, part_size, k));
        assert(all.contains(all[k]));
        assert(done.contains(all[k]));
        let j = choose|j: int| 0 <= j < done.len() && done[j] == all[k];
        assert(reaches(store, fetched, j, i));
    }
    assert(written(file, store, fetched) =~= data);
}

} // verus!
