//! Remembered hashes of files on disk, and of parts of them.

use vstd::prelude::*;

use crate::text::{str_eq, texts};

verus! {

/// The end that stands for the end of the file in the range of a whole file.
pub const WHOLE_FILE_RANGE_END: i64 = -1;

/// A remembered hash: of which bytes of which file, by which algorithm, and the time of the
/// last change that it holds for.
#[derive(Debug)]
pub struct CacheRow {
    pub path: String,
    pub alg: String,
    pub start: i64,
    pub end: i64,
    pub hash: String,
    pub mtime: u64,
}

/// What a remembered hash is found by.
pub struct CacheKey {
    pub path: Seq<char>,
    pub alg: Seq<char>,
    pub start: i64,
    pub end: i64,
}

/// A remembered hash and the time that it holds for.
pub struct CacheEntry {
    pub hash: Seq<char>,
    pub mtime: u64,
}

/// What a row is found by.
pub open spec fn row_key(r: CacheRow) -> CacheKey {
    CacheKey { path: r.path@, alg: r.alg@, start: r.start, end: r.end }
}

/// What a row remembers.
pub open spec fn row_entry(r: CacheRow) -> CacheEntry {
    CacheEntry { hash: r.hash@, mtime: r.mtime }
}

/// What rows remember; of two rows with one key the later counts.
pub open spec fn remembered(s: Seq<CacheRow>) -> Map<CacheKey, CacheEntry>
    decreases s.len(),
{
    if s.len() == 0 {
        Map::empty()
    } else {
        remembered(s.drop_last()).insert(row_key(s.last()), row_entry(s.last()))
    }
}

/// Remembered hashes of files on disk.
#[derive(Debug)]
pub struct HashCache {
    pub rows: Vec<CacheRow>,
}

impl View for HashCache {
    type V = Map<CacheKey, CacheEntry>;

    open spec fn view(&self) -> Map<CacheKey, CacheEntry> {
        remembered(self.rows@)
    }
}

/// The hash that is remembered under a key for a time of change, if there is one.
pub open spec fn fresh_hash(
    m: Map<CacheKey, CacheEntry>,
    key: CacheKey,
    mtime: u64,
) -> Option<Seq<char>> {
    if m.contains_key(key) && m[key].mtime == mtime {
        Some(m[key].hash)
    } else {
        None
    }
}

/// Putting a row in the place of the last one with its key is remembering it.
proof fn replaced_row(s: Seq<CacheRow>, i: int, r: CacheRow)
    requires
        0 <= i < s.len(),
        row_key(s[i]) == row_key(r),
        forall|k: int| i < k < s.len() ==> row_key(#[trigger] s[k]) != row_key(r),
    ensures
        remembered(s.update(i, r)) =~= remembered(s).insert(row_key(r), row_entry(r)),
    decreases s.len(),
{
    let t = s.update(i, r);
    if i == s.len() - 1 {
        assert(t.drop_last() =~= s.drop_last());
    } else {
        assert(t.drop_last() =~= s.drop_last().update(i, r));
        assert forall|k: int| i < k < s.drop_last().len() implies row_key(
            #[trigger] s.drop_last()[k],
        ) != row_key(r) by {
            assert(row_key(s[k]) != row_key(r));
        }
        replaced_row(s.drop_last(), i, r);
        assert(row_key(s[s.len() - 1]) != row_key(r));
    }
}

impl HashCache {
    /// No remembered hash.
    pub fn new() -> (r: HashCache)
        ensures
            r@ == Map::<CacheKey, CacheEntry>::empty(),
    {
        HashCache { rows: Vec::new() }
    }

    /// The place of the last row with a key.
    fn position(&self, path: &str, alg: &str, start: i64, end: i64) -> (r: Option<usize>)
        ensures
            ({
                let key = CacheKey { path: path@, alg: alg@, start, end };
                match r {
                    Some(i) => {
                        &&& i < self.rows.len()
                        &&& row_key(self.rows@[i as int]) == key
                        &&& forall|k: int|
                            i < k < self.rows@.len() ==> row_key(#[trigger] self.rows@[k]) != key
                        &&& self@.contains_key(key)
                        &&& self@[key] == row_entry(self.rows@[i as int])
                    },
                    None => !self@.contains_key(key),
                }
            }),
    {
        let ghost key = CacheKey { path: path@, alg: alg@, start, end };
        let ghost all = self.rows@;
        let mut n: usize = self.rows.len();
        assert(all.take(n as int) =~= all);
        while n > 0
            invariant
                n <= self.rows.len(),
                all == self.rows@,
                key == (CacheKey { path: path@, alg: alg@, start, end }),
                forall|k: int| n <= k < all.len() ==> row_key(#[trigger] all[k]) != key,
                self@.contains_key(key) == remembered(all.take(n as int)).contains_key(key),
                self@.contains_key(key) ==> self@[key] == remembered(all.take(n as int))[key],
            decreases n,
        {
            assert(all.take(n as int).drop_last() =~= all.take(n - 1));
            let row = &self.rows[n - 1];
            if row.start == start && row.end == end && str_eq(row.path.as_str(), path) && str_eq(
                row.alg.as_str(),
                alg,
            ) {
                assert(row_key(all[n - 1]) == key);
                return Some(n - 1);
            }
            assert(row_key(all[n - 1]) != key);
            n -= 1;
        }
        None
    }

    /// The remembered hash of a range of a file, if it holds for the time of the last change.
    pub fn get_if_fresh(
        &self,
        path: &str,
        alg: &str,
        start: i64,
        end: i64,
        mtime: u64,
    ) -> (r: Option<String>)
        ensures
            match fresh_hash(self@, CacheKey { path: path@, alg: alg@, start, end }, mtime) {
                Some(h) => r matches Some(s) && s@ == h,
                None => r is None,
            },
    {
        match self.position(path, alg, start, end) {
            Some(i) => {
                if self.rows[i].mtime == mtime {
                    Some(self.rows[i].hash.clone())
                } else {
                    None
                }
            },
            None => None,
        }
    }

    /// Remember the hash of a range of a file, in place of what was remembered before.
    pub fn put(&mut self, path: &str, alg: &str, start: i64, end: i64, hash: &str, mtime: u64)
        ensures
            final(self)@ == old(self)@.insert(
                CacheKey { path: path@, alg: alg@, start, end },
                CacheEntry { hash: hash@, mtime },
            ),
    {
        let ghost before = self.rows@;
        let row = CacheRow {
            path: path.to_owned(),
            alg: alg.to_owned(),
            start,
            end,
            hash: hash.to_owned(),
            mtime,
        };
        let ghost new = row;
        match self.position(path, alg, start, end) {
            Some(i) => {
                proof {
                    replaced_row(before, i as int, new);
                }
                self.rows.set(i, row);
                assert(self.rows@ =~= before.update(i as int, new));
            },
            None => {
                self.rows.push(row);
                assert(self.rows@.drop_last() =~= before);
            },
        }
    }
}

/// What is remembered can be had back while the file has not changed, and not after.
pub proof fn remembered_hash_is_read_back(
    m: Map<CacheKey, CacheEntry>,
    key: CacheKey,
    e: CacheEntry,
    mtime: u64,
)
    ensures
        fresh_hash(m.insert(key, e), key, e.mtime) == Some(e.hash),
        mtime != e.mtime ==> fresh_hash(m.insert(key, e), key, mtime) is None,
{
}

/// Remembering a hash leaves those of other files, ranges and algorithms as they are.
pub proof fn other_hashes_are_kept(
    m: Map<CacheKey, CacheEntry>,
    key: CacheKey,
    e: CacheEntry,
    other: CacheKey,
    mtime: u64,
)
    requires
        other != key,
    ensures
        fresh_hash(m.insert(key, e), other, mtime) == fresh_hash(m, other, mtime),
{
}

/// Where the part of a file behind `k` chunks begins.
pub open spec fn chunk_bound(chunk_size: u64, file_size: u64, k: int) -> int {
    if k * chunk_size < file_size {
        k * chunk_size
    } else {
        file_size as int
    }
}

/// How many chunks a file is split into.
pub open spec fn chunk_count(chunk_size: u64, file_size: u64) -> int {
    (file_size + chunk_size - 1) / (chunk_size as int)
}

/// A length in a file as the cache holds it.
pub open spec fn cache_bound(n: int) -> i64 {
    (n as u64) as i64
}

/// What the hash of chunk `k` of a file is found by.
pub open spec fn chunk_key(
    path: Seq<char>,
    alg: Seq<char>,
    chunk_size: u64,
    file_size: u64,
    k: int,
) -> CacheKey {
    CacheKey {
        path,
        alg,
        start: cache_bound(chunk_bound(chunk_size, file_size, k)),
        end: cache_bound(chunk_bound(chunk_size, file_size, k + 1)),
    }
}

/// The remembered hash of chunk `k` of a file.
pub open spec fn fresh_chunk(
    m: Map<CacheKey, CacheEntry>,
    path: Seq<char>,
    alg: Seq<char>,
    chunk_size: u64,
    file_size: u64,
    mtime: u64,
    k: int,
) -> Option<Seq<char>> {
    fresh_hash(m, chunk_key(path, alg, chunk_size, file_size, k), mtime)
}

/// The end of the chunk that begins at `offset`: no further than the end of the file.
pub fn chunk_end(offset: u64, chunk_size: u64, file_size: u64) -> (end: u64)
    requires
        offset <= file_size,
    ensures
        end == if offset + chunk_size < file_size {
            offset + chunk_size
        } else {
            file_size as int
        },
{
    if chunk_size < file_size - offset {
        offset + chunk_size
    } else {
        file_size
    }
}

/// The next bound lies one chunk further, or at the end of the file.
pub proof fn next_chunk_bound(chunk_size: u64, file_size: u64, k: int)
    requires
        0 <= k,
    ensures
        chunk_bound(chunk_size, file_size, k + 1) == if chunk_bound(chunk_size, file_size, k)
            + chunk_size < file_size {
            chunk_bound(chunk_size, file_size, k) + chunk_size
        } else {
            file_size as int
        },
        0 <= chunk_bound(chunk_size, file_size, k) <= chunk_bound(chunk_size, file_size, k + 1)
            <= file_size,
{
    assert((k + 1) * chunk_size == k * chunk_size + chunk_size) by (nonlinear_arith);
    assert(k * chunk_size >= 0) by (nonlinear_arith)
        requires
            k >= 0,
    ;
}

/// There are as many chunks as bounds below the end of the file.
pub proof fn chunk_count_facts(chunk_size: u64, file_size: u64, k: int)
    requires
        chunk_size > 0,
        0 <= k,
    ensures
        k < chunk_count(chunk_size, file_size) <==> chunk_bound(chunk_size, file_size, k)
            < file_size,
        chunk_count(chunk_size, file_size) >= 0,
{
    let c = chunk_size as int;
    let f = file_size as int;
    let n = chunk_count(chunk_size, file_size);
    assert(n * c <= f + c - 1 < n * c + c) by (nonlinear_arith)
        requires
            c > 0,
            f >= 0,
            n == (f + c - 1) / c,
    ;
    assert(n >= 0) by (nonlinear_arith)
        requires
            c > 0,
            f >= 0,
            n == (f + c - 1) / c,
    ;
    if k < n {
        assert(k * c + c <= n * c) by (nonlinear_arith)
            requires
                k + 1 <= n,
                c > 0,
        ;
    } else {
        assert(n * c <= k * c) by (nonlinear_arith)
            requires
                n <= k,
                c > 0,
        ;
    }
}

/// Look up the remembered hashes of the chunks of a file: there are some only where every
/// chunk has one that still holds, and the file has at least one chunk.
pub fn cached_chunk_hashes(
    cache: &HashCache,
    path: &str,
    alg: &str,
    chunk_size: u64,
    file_size: u64,
    mtime: u64,
) -> (r: Option<Vec<String>>)
    requires
        chunk_size > 0 || file_size == 0,
    ensures
        r is Some <==> file_size > 0 && forall|k: int|
            0 <= k < chunk_count(chunk_size, file_size) ==> #[trigger] fresh_chunk(
                cache@,
                path@,
                alg@,
                chunk_size,
                file_size,
                mtime,
                k,
            ) is Some,
        r matches Some(hashes) ==> hashes@.len() == chunk_count(chunk_size, file_size)
            && forall|k: int|
            0 <= k < hashes@.len() ==> fresh_chunk(
                cache@,
                path@,
                alg@,
                chunk_size,
                file_size,
                mtime,
                k,
            ) == Some((#[trigger] hashes@[k])@),
{
    let mut hashes: Vec<String> = Vec::new();
    let mut offset: u64 = 0;
    while offset < file_size
        invariant
            chunk_size > 0 || file_size == 0,
            offset <= file_size,
            offset == chunk_bound(chunk_size, file_size, hashes@.len() as int),
            forall|k: int|
                0 <= k < hashes@.len() ==> fresh_chunk(
                    cache@,
                    path@,
                    alg@,
                    chunk_size,
                    file_size,
                    mtime,
                    k,
                ) == Some((#[trigger] hashes@[k])@),
            offset > 0 ==> hashes@.len() > 0,
            hashes@.len() > 0 ==> chunk_bound(chunk_size, file_size, hashes@.len() - 1)
                < file_size,
        decreases file_size - offset,
    {
        let ghost n = hashes@.len() as int;
        proof {
            next_chunk_bound(chunk_size, file_size, n);
            chunk_count_facts(chunk_size, file_size, n);
        }
        let end: u64 = chunk_end(offset, chunk_size, file_size);
        match cache.get_if_fresh(path, alg, offset as i64, end as i64, mtime) {
            Some(h) => {
                hashes.push(h);
            },
            None => {
                assert(fresh_chunk(cache@, path@, alg@, chunk_size, file_size, mtime, n) is None);
                return None;
            },
        }
        offset = end;
    }
    if hashes.len() == 0 {
        return None;
    }
    proof {
        let n = hashes@.len() as int;
        chunk_count_facts(chunk_size, file_size, n);
        chunk_count_facts(chunk_size, file_size, n - 1);
        assert(n == chunk_count(chunk_size, file_size));
        assert forall|k: int| 0 <= k < n implies #[trigger] fresh_chunk(
            cache@,
            path@,
            alg@,
            chunk_size,
            file_size,
            mtime,
            k,
        ) is Some by {
            assert(hashes@[k]@ == hashes@[k]@);
        }
    }
    Some(hashes)
}

/// What is remembered after the hashes of the chunks of a file were put.
pub open spec fn with_chunks(
    m: Map<CacheKey, CacheEntry>,
    path: Seq<char>,
    alg: Seq<char>,
    chunk_size: u64,
    file_size: u64,
    hashes: Seq<Seq<char>>,
    mtime: u64,
) -> Map<CacheKey, CacheEntry>
    decreases hashes.len(),
{
    if hashes.len() == 0 {
        m
    } else {
        with_chunks(m, path, alg, chunk_size, file_size, hashes.drop_last(), mtime).insert(
            chunk_key(path, alg, chunk_size, file_size, hashes.len() - 1),
            CacheEntry { hash: hashes.last(), mtime },
        )
    }
}

/// Remember the hashes of the chunks of a file.
pub fn put_chunk_hashes(
    cache: &mut HashCache,
    path: &str,
    alg: &str,
    chunk_size: u64,
    file_size: u64,
    hashes: &Vec<String>,
    mtime: u64,
)
    ensures
        final(cache)@ == with_chunks(
            old(cache)@,
            path@,
            alg@,
            chunk_size,
            file_size,
            texts(hashes@),
            mtime,
        ),
{
    let ghost all = texts(hashes@);
    let ghost before = cache@;
    let mut offset: u64 = 0;
    let mut i: usize = 0;
    assert(all.take(0) =~= Seq::empty());
    assert(chunk_bound(chunk_size, file_size, 0) == 0) by {
        assert(0 * chunk_size == 0);
    }
    while i < hashes.len()
        invariant
            i <= hashes.len(),
            all == texts(hashes@),
            offset <= file_size,
            offset == chunk_bound(chunk_size, file_size, i as int),
            cache@ == with_chunks(
                before,
                path@,
                alg@,
                chunk_size,
                file_size,
                all.take(i as int),
                mtime,
            ),
        decreases hashes.len() - i,
    {
        proof {
            next_chunk_bound(chunk_size, file_size, i as int);
            assert(all.take(i + 1).drop_last() =~= all.take(i as int));
        }
        let end: u64 = chunk_end(offset, chunk_size, file_size);
        cache.put(path, alg, offset as i64, end as i64, hashes[i].as_str(), mtime);
        offset = end;
        i += 1;
    }
    assert(all.take(all.len() as int) =~= all);
}

proof fn cache_bound_injective(a: int, b: int)
    requires
        0 <= a <= u64::MAX,
        0 <= b <= u64::MAX,
        cache_bound(a) == cache_bound(b),
    ensures
        a == b,
{
    let x = a as u64;
    let y = b as u64;
    assert(x as i64 == y as i64 ==> x == y) by (bit_vector);
}

proof fn chunk_keys_differ(
    path: Seq<char>,
    alg: Seq<char>,
    chunk_size: u64,
    file_size: u64,
    j: int,
    k: int,
)
    requires
        chunk_size > 0,
        0 <= j < k < chunk_count(chunk_size, file_size),
    ensures
        chunk_key(path, alg, chunk_size, file_size, j) != chunk_key(
            path,
            alg,
            chunk_size,
            file_size,
            k,
        ),
{
    chunk_count_facts(chunk_size, file_size, j);
    chunk_count_facts(chunk_size, file_size, k);
    let a = chunk_bound(chunk_size, file_size, j);
    let b = chunk_bound(chunk_size, file_size, k);
    assert(j * chunk_size < k * chunk_size) by (nonlinear_arith)
        requires
            j < k,
            chunk_size > 0,
    ;
    assert(0 <= j * chunk_size) by (nonlinear_arith)
        requires
            0 <= j,
    ;
    if cache_bound(a) == cache_bound(b) {
        cache_bound_injective(a, b);
    }
}

/// The hashes of the chunks of a file that were remembered are what a lookup of its chunks
/// finds, chunk by chunk.
pub proof fn remembered_chunks_are_read_back(
    m: Map<CacheKey, CacheEntry>,
    path: Seq<char>,
    alg: Seq<char>,
    chunk_size: u64,
    file_size: u64,
    hashes: Seq<Seq<char>>,
    mtime: u64,
    k: int,
)
    requires
        chunk_size > 0,
        hashes.len() <= chunk_count(chunk_size, file_size),
        0 <= k < hashes.len(),
    ensures
        fresh_chunk(
            with_chunks(m, path, alg, chunk_size, file_size, hashes, mtime),
            path,
            alg,
            chunk_size,
            file_size,
            mtime,
            k,
        ) == Some(hashes[k]),
    decreases hashes.len(),
{
    let n = hashes.len() - 1;
    if k < n {
        remembered_chunks_are_read_back(
            m,
            path,
            alg,
            chunk_size,
            file_size,
            hashes.drop_last(),
            mtime,
            k,
        );
        chunk_keys_differ(path, alg, chunk_size, file_size, k, n);
    }
}

proof fn chunk_key_is_not_the_whole(
    path: Seq<char>,
    alg: Seq<char>,
    chunk_size: u64,
    file_size: u64,
    k: int,
)
    requires
        chunk_size > 0,
        chunk_size < u64::MAX || file_size < u64::MAX,
        0 <= k,
    ensures
        chunk_key(path, alg, chunk_size, file_size, k) != (CacheKey {
            path,
            alg,
            start: 0,
            end: WHOLE_FILE_RANGE_END,
        }),
{
    let a = chunk_bound(chunk_size, file_size, k);
    let b = chunk_bound(chunk_size, file_size, k + 1);
    assert(0 <= k * chunk_size <= (k + 1) * chunk_size) by (nonlinear_arith)
        requires
            0 <= k,
    ;
    assert(k > 0 ==> k * chunk_size > 0) by (nonlinear_arith)
        requires
            chunk_size > 0,
    ;
    let x = a as u64;
    let y = b as u64;
    assert(x as i64 == 0 ==> x == 0) by (bit_vector);
    assert(y as i64 == -1i64 ==> y == 0xffff_ffff_ffff_ffff) by (bit_vector);
    if cache_bound(a) == 0 && cache_bound(b) == WHOLE_FILE_RANGE_END {
        assert(b == u64::MAX);
        assert(k == 0);
        assert((k + 1) * chunk_size == chunk_size) by (nonlinear_arith)
            requires
                k == 0,
        ;
    }
}

/// Remembering the hashes of chunks leaves the remembered hash of the whole file as it is,
/// but for one chunk of the largest size there is, whose end counts as that of the whole.
pub proof fn chunks_leave_the_whole(
    m: Map<CacheKey, CacheEntry>,
    path: Seq<char>,
    alg: Seq<char>,
    chunk_size: u64,
    file_size: u64,
    hashes: Seq<Seq<char>>,
    mtime: u64,
    asked: u64,
)
    requires
        chunk_size > 0,
        chunk_size < u64::MAX || file_size < u64::MAX,
    ensures
        fresh_hash(
            with_chunks(m, path, alg, chunk_size, file_size, hashes, mtime),
            CacheKey { path, alg, start: 0, end: WHOLE_FILE_RANGE_END },
            asked,
        ) == fresh_hash(
            m,
            CacheKey { path, alg, start: 0, end: WHOLE_FILE_RANGE_END },
            asked,
        ),
    decreases hashes.len(),
{
    if hashes.len() > 0 {
        chunks_leave_the_whole(
            m,
            path,
            alg,
            chunk_size,
            file_size,
            hashes.drop_last(),
            mtime,
            asked,
        );
        chunk_key_is_not_the_whole(path, alg, chunk_size, file_size, hashes.len() - 1);
    }
}

/// What is remembered under a key is what the last row with that key says, and where no row has
/// the key nothing is.
pub proof fn last_row_counts(s: Seq<CacheRow>, key: CacheKey, i: int)
    ensures
        remembered(s).contains_key(key) <==> exists|k: int|
            0 <= k < s.len() && (#[trigger] s[k]).path@ == key.path && s[k].alg@ == key.alg
                && s[k].start == key.start && s[k].end == key.end,
        0 <= i < s.len() && s[i].path@ == key.path && s[i].alg@ == key.alg && s[i].start
            == key.start && s[i].end == key.end && (forall|k: int|
            i < k < s.len() ==> (#[trigger] s[k]).path@ != key.path || s[k].alg@ != key.alg
                || s[k].start != key.start || s[k].end != key.end) ==> remembered(s)[key].hash
            == s[i].hash@ && remembered(s)[key].mtime == s[i].mtime,
    decreases s.len(),
{
    if s.len() > 0 {
        let front = s.drop_last();
        let n = s.len() - 1;
        last_row_counts(front, key, i);
        assert forall|k: int| 0 <= k < front.len() implies #[trigger] front[k] == s[k] by {}
        if exists|k: int|
            0 <= k < s.len() && (#[trigger] s[k]).path@ == key.path && s[k].alg@ == key.alg
                && s[k].start == key.start && s[k].end == key.end {
            let k = choose|k: int|
                0 <= k < s.len() && (#[trigger] s[k]).path@ == key.path && s[k].alg@ == key.alg
                    && s[k].start == key.start && s[k].end == key.end;
            if k < n {
                assert(front[k] == s[k]);
            } else {
                assert(row_key(s[n]) == key);
            }
        }
        if remembered(s).contains_key(key) {
            if row_key(s[n]) == key {
                assert(s[n].path@ == key.path);
            } else {
                let k = choose|k: int|
                    0 <= k < front.len() && (#[trigger] front[k]).path@ == key.path
                        && front[k].alg@ == key.alg && front[k].start == key.start && front[k].end
                        == key.end;
                assert(s[k] == front[k]);
            }
        }
        if 0 <= i < n && s[i].path@ == key.path && s[i].alg@ == key.alg && s[i].start == key.start
            && s[i].end == key.end && (forall|k: int|
            i < k < s.len() ==> (#[trigger] s[k]).path@ != key.path || s[k].alg@ != key.alg
                || s[k].start != key.start || s[k].end != key.end) {
            assert(s[n].path@ != key.path || s[n].alg@ != key.alg || s[n].start != key.start
                || s[n].end != key.end);
            assert(row_key(s[n]) != key);
            assert(front[i] == s[i]);
        }
    }
}

/// A remembered hash is given out exactly for the time of change that it was stored with, and
/// as it was stored.
pub proof fn only_the_same_time_is_fresh(m: Map<CacheKey, CacheEntry>, key: CacheKey, mtime: u64)
    ensures
        fresh_hash(m, key, mtime) is Some <==> m.contains_key(key) && m[key].mtime == mtime,
        fresh_hash(m, key, mtime) is Some ==> fresh_hash(m, key, mtime)->0 == m[key].hash,
{
}

/// The chunks of a file are of one size each, but for the last, which ends with the file; they
/// are as many as it takes to cover the file and no more. What the hash of a chunk is found by
/// holds the file, the algorithm and where the chunk begins and ends.
pub proof fn chunks_cover_the_file(
    path: Seq<char>,
    alg: Seq<char>,
    chunk_size: u64,
    file_size: u64,
    k: int,
)
    requires
        chunk_size > 0,
        file_size <= i64::MAX,
        0 <= k < chunk_count(chunk_size, file_size),
    ensures
        ({
            let key = chunk_key(path, alg, chunk_size, file_size, k);
            &&& key.path == path
            &&& key.alg == alg
            &&& key.start == k * chunk_size
            &&& k + 1 < chunk_count(chunk_size, file_size) ==> key.end == (k + 1) * chunk_size
            &&& k + 1 == chunk_count(chunk_size, file_size) ==> key.end == file_size
            &&& key.start < key.end <= file_size
        }),
{
    let n = chunk_count(chunk_size, file_size);
    chunk_count_facts(chunk_size, file_size, k);
    chunk_count_facts(chunk_size, file_size, k + 1);
    next_chunk_bound(chunk_size, file_size, k);
    let a = chunk_bound(chunk_size, file_size, k) as u64;
    let b = chunk_bound(chunk_size, file_size, k + 1) as u64;
    assert(a <= 0x7fff_ffff_ffff_ffff ==> a as i64 == a) by (bit_vector);
    assert(b <= 0x7fff_ffff_ffff_ffff ==> b as i64 == b) by (bit_vector);
}

/// There are no fewer chunks than it takes to cover a file, and one less would not do.
pub proof fn no_chunk_too_many(chunk_size: u64, file_size: u64)
    requires
        chunk_size > 0,
    ensures
        file_size <= chunk_count(chunk_size, file_size) * chunk_size < file_size + chunk_size,
{
    let c = chunk_size as int;
    let f = file_size as int;
    let n = chunk_count(chunk_size, file_size);
    assert(n * c <= f + c - 1 < n * c + c) by (nonlinear_arith)
        requires
            c > 0,
            f >= 0,
            n == (f + c - 1) / c,
    ;
}

/// Remembering the chunks of a file leaves what is remembered of other files, and by other
/// algorithms, as it was.
pub proof fn chunks_leave_other_files(
    m: Map<CacheKey, CacheEntry>,
    path: Seq<char>,
    alg: Seq<char>,
    chunk_size: u64,
    file_size: u64,
    hashes: Seq<Seq<char>>,
    mtime: u64,
    other: CacheKey,
)
    requires
        other.path != path || other.alg != alg,
    ensures
        ({
            let after = with_chunks(m, path, alg, chunk_size, file_size, hashes, mtime);
            &&& after.contains_key(other) <==> m.contains_key(other)
            &&& m.contains_key(other) ==> after[other] == m[other]
        }),
    decreases hashes.len(),
{
    if hashes.len() > 0 {
        chunks_leave_other_files(
            m,
            path,
            alg,
            chunk_size,
            file_size,
            hashes.drop_last(),
            mtime,
            other,
        );
    }
}

} // verus!
