//! Downloading files: which to skip, where they go, and how they are fetched.

use vstd::prelude::*;

use crate::snapshots::hash_cache::{
    chunk_bound, chunk_count, chunk_count_facts, chunk_end, chunk_key, chunks_leave_other_files,
    chunks_leave_the_whole, fresh_chunk, fresh_hash, next_chunk_bound, no_chunk_too_many,
    put_chunk_hashes, remembered_chunks_are_read_back, with_chunks, CacheEntry, CacheKey,
    HashCache, WHOLE_FILE_RANGE_END,
};
use crate::snapshots::hashing::{hash_data, hash_text};
use crate::snapshots::manifest::{
    file_views, FailureView, FileEntry, FileView, SnapshotError, SymlinkPolicy,
};
use crate::snapshots::parts::{chunks_of, part, part_ranges, parts, parts_tile_the_whole, PartRange};
use crate::snapshots::progress::{DownloadCounts, DownloadStatistics};
use crate::snapshots::upload::{opt_cache, regular_bytes, whole_key, OperationState};
use crate::text::{nat_text, push_u64, str_eq, texts};

verus! {

/// What is done where a file to download exists already.
#[derive(Debug, Clone, Copy, PartialEq, Eq, Structural)]
pub enum FileConflictResolution {
    /// The existing file is kept.
    Skip,
    /// The existing file is replaced.
    Overwrite,
    /// The file goes to a name that is free.
    CreateCopy,
}

/// How files are downloaded.
#[derive(Debug)]
pub struct DownloadOptions {
    pub file_conflict_resolution: FileConflictResolution,
    /// Whether files and directories that the manifest has as deleted are removed.
    pub apply_deletes: bool,
    pub symlink_policy: SymlinkPolicy,
    pub max_workers: Option<usize>,
    pub max_memory_bytes: Option<usize>,
}

impl Default for DownloadOptions {
    fn default() -> (r: DownloadOptions)
        ensures
            r.file_conflict_resolution == FileConflictResolution::Overwrite,
            r.apply_deletes,
            r.symlink_policy == SymlinkPolicy::Preserve,
            r.max_workers is None,
            r.max_memory_bytes is None,
    {
        DownloadOptions {
            file_conflict_resolution: FileConflictResolution::Overwrite,
            apply_deletes: true,
            symlink_policy: SymlinkPolicy::Preserve,
            max_workers: None,
            max_memory_bytes: None,
        }
    }
}

/// Whether symbolic links are created.
pub fn creates_symlinks(policy: SymlinkPolicy) -> (r: bool)
    ensures
        r == (policy != SymlinkPolicy::ExcludeAll),
{
    policy != SymlinkPolicy::ExcludeAll
}

/// What is on disk where a file is to go.
#[derive(Debug, Clone, Copy, PartialEq, Eq, Structural)]
pub struct DiskFacts {
    pub exists: bool,
    /// The time of the last change, where it can be read.
    pub mtime: Option<u64>,
}

/// What is to be done with a file.
#[derive(Debug, Clone, Copy, PartialEq, Eq, Structural)]
pub struct SkipEvaluation {
    /// The place of the file in the manifest.
    pub index: usize,
    pub skipped: bool,
    /// The time of the last change of a skipped file, 0 where it is not known.
    pub mtime: u64,
}

/// Whether the remembered hash of the whole file is that of the manifest.
pub open spec fn whole_is_remembered(
    f: FileView,
    alg: Seq<char>,
    m: Map<CacheKey, CacheEntry>,
    mtime: u64,
) -> bool {
    f.hash is Some && fresh_hash(m, whole_key(f.path, alg), mtime) == f.hash
}

/// Whether the remembered hashes of the chunks are those of the manifest.
pub open spec fn chunks_are_remembered(
    f: FileView,
    chunk_size: i64,
    alg: Seq<char>,
    m: Map<CacheKey, CacheEntry>,
    mtime: u64,
) -> bool {
    f.chunk_hashes matches Some(hashes) && chunk_size as u64 > 0 && hashes.len() > 0 && forall|
        k: int,
    |
        0 <= k < hashes.len() ==> fresh_chunk(
            m,
            f.path,
            alg,
            chunk_size as u64,
            f.size_or_zero(),
            mtime,
            k,
        ) == Some(#[trigger] hashes[k])
}

/// Whether the file on disk is known to be the one of the manifest.
pub open spec fn is_remembered(
    f: FileView,
    chunk_size: i64,
    alg: Seq<char>,
    cache: Option<Map<CacheKey, CacheEntry>>,
    disk: DiskFacts,
) -> bool {
    &&& cache is Some
    &&& f.mtime is Some
    &&& disk.exists
    &&& disk.mtime is Some
    &&& whole_is_remembered(f, alg, cache->0, disk.mtime->0) || chunks_are_remembered(
        f,
        chunk_size,
        alg,
        cache->0,
        disk.mtime->0,
    )
}

/// What is to be done with a file: it is skipped where the one on disk is known to be it, or
/// where one exists and is to be kept.
pub open spec fn evaluation(
    f: FileView,
    index: usize,
    chunk_size: i64,
    alg: Seq<char>,
    cache: Option<Map<CacheKey, CacheEntry>>,
    conflict: FileConflictResolution,
    disk: DiskFacts,
) -> SkipEvaluation {
    let mtime = match disk.mtime {
        Some(t) => t,
        None => 0,
    };
    if is_remembered(f, chunk_size, alg, cache, disk) || (disk.exists && conflict
        == FileConflictResolution::Skip) {
        SkipEvaluation { index, skipped: true, mtime }
    } else {
        SkipEvaluation { index, skipped: false, mtime: 0 }
    }
}

fn find_whole(file: &FileEntry, alg: &str, cache: &HashCache, mtime: u64) -> (r: bool)
    ensures
        r == whole_is_remembered(file@, alg@, cache@, mtime),
{
    match &file.hash {
        Some(h) => match cache.get_if_fresh(
            file.path.as_str(),
            alg,
            0,
            WHOLE_FILE_RANGE_END,
            mtime,
        ) {
            Some(c) => str_eq(c.as_str(), h.as_str()),
            None => false,
        },
        None => false,
    }
}

fn find_chunks(
    file: &FileEntry,
    chunk_size: i64,
    alg: &str,
    cache: &HashCache,
    mtime: u64,
) -> (r: bool)
    ensures
        r == chunks_are_remembered(file@, chunk_size, alg@, cache@, mtime),
{
    let cs: u64 = chunk_size as u64;
    let file_size: u64 = file.size_or_zero();
    match &file.chunk_hashes {
        Some(hashes) => {
            if cs == 0 || hashes.len() == 0 {
                return false;
            }
            let ghost all = texts(hashes@);
            let mut offset: u64 = 0;
            let mut i: usize = 0;
            assert(0 * cs == 0);
            while i < hashes.len()
                invariant
                    i <= hashes.len(),
                    cs == chunk_size as u64,
                    all == texts(hashes@),
                    file@.chunk_hashes == Some(all),
                    file_size == file@.size_or_zero(),
                    offset <= file_size,
                    offset == chunk_bound(cs, file_size, i as int),
                    forall|k: int|
                        0 <= k < i ==> fresh_chunk(
                            cache@,
                            file@.path,
                            alg@,
                            cs,
                            file_size,
                            mtime,
                            k,
                        ) == Some(#[trigger] all[k]),
                decreases hashes.len() - i,
            {
                proof {
                    next_chunk_bound(cs, file_size, i as int);
                }
                let end: u64 = chunk_end(offset, cs, file_size);
                let same: bool = match cache.get_if_fresh(
                    file.path.as_str(),
                    alg,
                    offset as i64,
                    end as i64,
                    mtime,
                ) {
                    Some(c) => str_eq(c.as_str(), hashes[i].as_str()),
                    None => false,
                };
                assert(same == (fresh_chunk(
                    cache@,
                    file@.path,
                    alg@,
                    cs,
                    file_size,
                    mtime,
                    i as int,
                ) == Some(all[i as int])));
                if !same {
                    return false;
                }
                offset = end;
                i += 1;
            }
            true
        },
        None => false,
    }
}

fn find_remembered(
    file: &FileEntry,
    chunk_size: i64,
    alg: &str,
    cache: &Option<HashCache>,
    disk: DiskFacts,
) -> (r: bool)
    ensures
        r == is_remembered(file@, chunk_size, alg@, opt_cache(*cache), disk),
{
    if let (Some(c), Some(t)) = (cache, disk.mtime) {
        if file.mtime.is_some() && disk.exists {
            return find_whole(file, alg, c, t) || find_chunks(file, chunk_size, alg, c, t);
        }
    }
    false
}

/// Decide whether one file is skipped or downloaded, and count it. Statistics that count the
/// decisions so far then count this one too.
pub fn collect_work_item(
    index: usize,
    file: &FileEntry,
    file_chunk_size_bytes: i64,
    alg: &str,
    hash_cache: &Option<HashCache>,
    conflict_res: FileConflictResolution,
    disk: DiskFacts,
    stats: &mut DownloadStatistics,
    work_items: &mut Vec<SkipEvaluation>,
)
    requires
        old(stats)@.wf(),
        old(stats).total_files < usize::MAX,
        old(stats).total_bytes + file@.size_or_zero() <= u64::MAX,
    ensures
        ({
            let e = evaluation(
                file@,
                index,
                file_chunk_size_bytes,
                alg@,
                opt_cache(*hash_cache),
                conflict_res,
                disk,
            );
            &&& final(work_items)@ == old(work_items)@.push(e)
            &&& final(stats)@ == old(stats)@.with_file(file@.size_or_zero(), e.skipped)
        }),
        final(stats)@.wf(),
        final(stats).progress_message@ == old(stats).progress_message@,
        forall|files: Seq<FileView>|
            index < files.len() && files[index as int] == file@ && old(stats)@
                == #[trigger] counted(old(work_items)@, files) ==> final(stats)@ == counted(
                final(work_items)@,
                files,
            ),
{
    let file_size: u64 = file.size_or_zero();
    stats.total_files = stats.total_files + 1;
    stats.total_bytes = stats.total_bytes + file_size;
    let skipped: bool = find_remembered(file, file_chunk_size_bytes, alg, hash_cache, disk) || (
    disk.exists && conflict_res == FileConflictResolution::Skip);
    if skipped {
        stats.skipped_files = stats.skipped_files + 1;
        stats.skipped_bytes = stats.skipped_bytes + file_size;
        let mtime: u64 = match disk.mtime {
            Some(t) => t,
            None => 0,
        };
        work_items.push(SkipEvaluation { index, skipped: true, mtime });
    } else {
        work_items.push(SkipEvaluation { index, skipped: false, mtime: 0 });
    }
    assert(work_items@.drop_last() =~= old(work_items)@);
}

/// A file that still needs downloading.
#[derive(Debug, Clone, Copy, PartialEq, Eq, Structural)]
pub struct DownloadWorkItem {
    pub index: usize,
    pub file_size: u64,
}

/// The files that still need downloading, in order.
pub open spec fn needed(work: Seq<SkipEvaluation>, files: Seq<FileView>) -> Seq<DownloadWorkItem>
    decreases work.len(),
{
    if work.len() == 0 {
        Seq::empty()
    } else {
        let before = needed(work.drop_last(), files);
        let e = work.last();
        if e.skipped {
            before
        } else {
            before.push(
                DownloadWorkItem {
                    index: e.index,
                    file_size: files[e.index as int].size_or_zero(),
                },
            )
        }
    }
}

/// The files that still need downloading.
pub fn download_items(
    work: &Vec<SkipEvaluation>,
    files: &Vec<FileEntry>,
) -> (r: Vec<DownloadWorkItem>)
    requires
        forall|k: int| 0 <= k < work@.len() ==> (#[trigger] work@[k]).index < files@.len(),
    ensures
        r@ == needed(work@, file_views(files@)),
{
    let mut r: Vec<DownloadWorkItem> = Vec::new();
    let mut i: usize = 0;
    assert(work@.take(0) =~= Seq::empty());
    while i < work.len()
        invariant
            i <= work.len(),
            forall|k: int| 0 <= k < work@.len() ==> (#[trigger] work@[k]).index < files@.len(),
            r@ == needed(work@.take(i as int), file_views(files@)),
        decreases work.len() - i,
    {
        assert(work@.take(i + 1).drop_last() =~= work@.take(i as int));
        let e = work[i];
        assert(work@[i as int].index < files@.len());
        if !e.skipped {
            r.push(
                DownloadWorkItem { index: e.index, file_size: files[e.index].size_or_zero() },
            );
        }
        i += 1;
    }
    assert(work@.take(work@.len() as int) =~= work@);
    r
}

/// Files with the times of the last change of those that were skipped.
pub open spec fn with_skipped_mtimes(
    files: Seq<FileView>,
    work: Seq<SkipEvaluation>,
) -> Seq<FileView>
    decreases work.len(),
{
    if work.len() == 0 {
        files
    } else {
        let before = with_skipped_mtimes(files, work.drop_last());
        let e = work.last();
        if e.skipped && e.mtime != 0 {
            before.update(
                e.index as int,
                FileView { mtime: Some(e.mtime), ..before[e.index as int] },
            )
        } else {
            before
        }
    }
}

/// Take over the times of the last change of skipped files.
pub fn apply_skipped_mtimes(files: &mut Vec<FileEntry>, work: &Vec<SkipEvaluation>)
    requires
        forall|k: int| 0 <= k < work@.len() ==> (#[trigger] work@[k]).index < old(files)@.len(),
    ensures
        file_views(final(files)@) == with_skipped_mtimes(file_views(old(files)@), work@),
{
    let ghost start = file_views(files@);
    let ghost n = files@.len();
    let mut i: usize = 0;
    assert(work@.take(0) =~= Seq::empty());
    while i < work.len()
        invariant
            i <= work.len(),
            files@.len() == n,
            forall|k: int| 0 <= k < work@.len() ==> (#[trigger] work@[k]).index < n,
            file_views(files@) == with_skipped_mtimes(start, work@.take(i as int)),
        decreases work.len() - i,
    {
        assert(work@.take(i + 1).drop_last() =~= work@.take(i as int));
        let e = work[i];
        assert(work@[i as int].index < n);
        if e.skipped && e.mtime != 0 {
            let ghost before = file_views(files@);
            set_mtime(&mut files[e.index], e.mtime);
            assert(file_views(files@) =~= before.update(
                e.index as int,
                FileView { mtime: Some(e.mtime), ..before[e.index as int] },
            ));
        }
        i += 1;
    }
    assert(work@.take(work@.len() as int) =~= work@);
}

fn set_mtime(file: &mut FileEntry, mtime: u64)
    ensures
        final(file)@ == (FileView { mtime: Some(mtime), ..old(file)@ }),
{
    file.mtime = Some(mtime);
}

/// How one piece of a chunk is fetched.
#[derive(Debug)]
pub enum ChunkFetch {
    /// The whole object, to be checked against its hash, to an offset of the file.
    Object { hash: String, offset: u64 },
    /// The bytes of the object from `start` to `end`, both included, to an offset of the file.
    Range { hash: String, start: u64, end: u64, write_offset: u64 },
}

/// What a contract reads of how a piece of a chunk is fetched.
pub enum FetchView {
    Object { hash: Seq<char>, offset: u64 },
    Range { hash: Seq<char>, start: u64, end: u64, write_offset: u64 },
}

impl View for ChunkFetch {
    type V = FetchView;

    open spec fn view(&self) -> FetchView {
        match self {
            ChunkFetch::Object { hash, offset } => FetchView::Object {
                hash: hash@,
                offset: *offset,
            },
            ChunkFetch::Range { hash, start, end, write_offset } => FetchView::Range {
                hash: hash@,
                start: *start,
                end: *end,
                write_offset: *write_offset,
            },
        }
    }
}

/// The views of how pieces are fetched.
pub open spec fn fetch_views(v: Seq<ChunkFetch>) -> Seq<FetchView> {
    Seq::new(v.len(), |i: int| v[i]@)
}

/// Piece `j` of a chunk that is fetched in ranges.
pub open spec fn range_fetch(
    hash: Seq<char>,
    offset: u64,
    size: u64,
    part_size: u64,
    j: int,
) -> FetchView {
    FetchView::Range {
        hash,
        start: part(size, part_size, j).start,
        end: (part(size, part_size, j).end - 1) as u64,
        write_offset: (offset + part(size, part_size, j).start) as u64,
    }
}

/// How one chunk is fetched: in ranges from twice the part size on, where the data cache can
/// do that.
pub open spec fn fetches_of_chunk(
    hash: Seq<char>,
    offset: u64,
    size: u64,
    part_size: u64,
    supports_range: bool,
) -> Seq<FetchView> {
    if size >= 2 * part_size && supports_range {
        Seq::new(
            chunk_count(part_size, size) as nat,
            |j: int| range_fetch(hash, offset, size, part_size, j),
        )
    } else {
        seq![FetchView::Object { hash, offset }]
    }
}

/// Where chunk `k` of a file begins.
pub open spec fn chunk_offset(chunk_size: u64, file_size: u64, k: int) -> u64 {
    chunk_bound(chunk_size, file_size, k) as u64
}

/// How many bytes chunk `k` of a file has.
pub open spec fn chunk_len(chunk_size: u64, file_size: u64, k: int) -> u64 {
    (chunk_bound(chunk_size, file_size, k + 1) - chunk_bound(chunk_size, file_size, k)) as u64
}

/// How the chunks of a file are fetched, in order.
pub open spec fn fetches(
    hashes: Seq<Seq<char>>,
    file_size: u64,
    chunk_size: u64,
    part_size: u64,
    supports_range: bool,
) -> Seq<FetchView>
    decreases hashes.len(),
{
    if hashes.len() == 0 {
        Seq::empty()
    } else {
        let k = hashes.len() - 1;
        fetches(hashes.drop_last(), file_size, chunk_size, part_size, supports_range)
            + fetches_of_chunk(
            hashes.last(),
            chunk_offset(chunk_size, file_size, k),
            chunk_len(chunk_size, file_size, k),
            part_size,
            supports_range,
        )
    }
}

fn push_fetches(
    out: &mut Vec<ChunkFetch>,
    hash: &String,
    offset: u64,
    size: u64,
    part_size: u64,
    supports_range: bool,
)
    requires
        supports_range ==> part_size > 0,
        offset + size <= u64::MAX,
    ensures
        fetch_views(final(out)@) == fetch_views(old(out)@) + fetches_of_chunk(
            hash@,
            offset,
            size,
            part_size,
            supports_range,
        ),
{
    let ghost before = fetch_views(out@);
    if size / 2 >= part_size && supports_range {
        let ranges = part_ranges(size, part_size);
        let ghost all = Seq::new(
            chunk_count(part_size, size) as nat,
            |j: int| range_fetch(hash@, offset, size, part_size, j),
        );
        let mut j: usize = 0;
        assert(fetch_views(out@) =~= before + all.take(0));
        while j < ranges.len()
            invariant
                j <= ranges.len(),
                part_size > 0,
                offset + size <= u64::MAX,
                ranges@ == parts(size, part_size),
                all == Seq::new(
                    chunk_count(part_size, size) as nat,
                    |j: int| range_fetch(hash@, offset, size, part_size, j),
                ),
                fetch_views(out@) == before + all.take(j as int),
            decreases ranges.len() - j,
        {
            proof {
                parts_tile_the_whole(size, part_size, j as int);
                next_chunk_bound(part_size, size, j as int);
                assert(ranges@[j as int] == part(size, part_size, j as int));
            }
            let ghost so_far = out@;
            let fetch = ChunkFetch::Range {
                hash: hash.clone(),
                start: ranges[j].start,
                end: ranges[j].end - 1,
                write_offset: offset + ranges[j].start,
            };
            let ghost view = fetch@;
            assert(view == all[j as int]);
            out.push(fetch);
            assert(fetch_views(out@) =~= fetch_views(so_far).push(view));
            assert(all.take(j + 1) =~= all.take(j as int).push(view));
            j += 1;
            assert(fetch_views(out@) =~= before + all.take(j as int));
        }
        assert(all.take(all.len() as int) =~= all);
    } else {
        let fetch = ChunkFetch::Object { hash: hash.clone(), offset };
        let ghost view = fetch@;
        out.push(fetch);
        assert(fetch_views(out@) =~= before.push(view));
        assert(before.push(view) =~= before + seq![view]);
    }
}

/// Plan how the chunks of a file are fetched.
pub fn plan_chunks(
    hashes: &Vec<String>,
    file_size: u64,
    chunk_size: u64,
    part_size: u64,
    supports_range: bool,
) -> (r: Vec<ChunkFetch>)
    requires
        supports_range ==> part_size > 0,
    ensures
        fetch_views(r@) == fetches(texts(hashes@), file_size, chunk_size, part_size, supports_range),
{
    let ghost all = texts(hashes@);
    let mut out: Vec<ChunkFetch> = Vec::new();
    let mut offset: u64 = 0;
    let mut i: usize = 0;
    assert(0 * chunk_size == 0);
    assert(all.take(0) =~= Seq::empty());
    assert(fetch_views(out@) =~= Seq::empty());
    while i < hashes.len()
        invariant
            i <= hashes.len(),
            supports_range ==> part_size > 0,
            all == texts(hashes@),
            offset <= file_size,
            offset == chunk_bound(chunk_size, file_size, i as int),
            fetch_views(out@) == fetches(
                all.take(i as int),
                file_size,
                chunk_size,
                part_size,
                supports_range,
            ),
        decreases hashes.len() - i,
    {
        proof {
            next_chunk_bound(chunk_size, file_size, i as int);
            assert(all.take(i + 1).drop_last() =~= all.take(i as int));
        }
        let end: u64 = chunk_end(offset, chunk_size, file_size);
        push_fetches(&mut out, &hashes[i], offset, end - offset, part_size, supports_range);
        offset = end;
        i += 1;
    }
    assert(all.take(all.len() as int) =~= all);
    out
}

/// The ranges in which a chunk is fetched fill it in the file: the first is written where the
/// chunk begins, each where the one before ends, and the last ends where the chunk does.
pub proof fn ranges_fill_the_chunk(
    hash: Seq<char>,
    offset: u64,
    size: u64,
    part_size: u64,
    j: int,
)
    requires
        part_size > 0,
        offset + size <= u64::MAX,
        0 <= j < chunk_count(part_size, size),
    ensures
        range_fetch(hash, offset, size, part_size, j) matches FetchView::Range {
            start,
            end,
            write_offset,
            ..
        } && start <= end < size && write_offset == offset + start && (j == 0 ==> write_offset
            == offset) && (j + 1 == chunk_count(part_size, size) ==> write_offset + (end - start)
            + 1 == offset + size) && (j + 1 < chunk_count(part_size, size) ==> (range_fetch(
            hash,
            offset,
            size,
            part_size,
            j + 1,
        ) matches FetchView::Range { write_offset: next, .. } && write_offset + (end - start) + 1
            == next)),
{
    parts_tile_the_whole(size, part_size, j);
    next_chunk_bound(part_size, size, j);
    next_chunk_bound(part_size, size, j + 1);
}

/// Chunks lie in a file one behind the other, and together they are the file where there are
/// as many as it is split into.
pub proof fn chunks_fill_the_file(chunk_size: u64, file_size: u64, k: int)
    requires
        chunk_size > 0,
        0 <= k,
    ensures
        chunk_offset(chunk_size, file_size, 0) == 0,
        chunk_offset(chunk_size, file_size, k) + chunk_len(chunk_size, file_size, k)
            == chunk_offset(chunk_size, file_size, k + 1),
        chunk_offset(chunk_size, file_size, chunk_count(chunk_size, file_size)) == file_size,
{
    next_chunk_bound(chunk_size, file_size, k);
    chunk_count_facts(chunk_size, file_size, k);
    chunk_count_facts(chunk_size, file_size, chunk_count(chunk_size, file_size));
    assert(0 * chunk_size == 0);
}

/// How a file is fetched.
#[derive(Debug)]
pub enum FetchPlan {
    /// Chunk by chunk.
    Chunks(Vec<ChunkFetch>),
    /// The object of the whole file, in parts.
    Parts(Vec<PartRange>),
    /// The object of the whole file at once, to be checked against its hash.
    Whole,
}

/// What a contract reads of how a file is fetched.
pub enum PlanView {
    Chunks(Seq<FetchView>),
    Parts(Seq<PartRange>),
    Whole,
}

impl View for FetchPlan {
    type V = PlanView;

    open spec fn view(&self) -> PlanView {
        match self {
            FetchPlan::Chunks(v) => PlanView::Chunks(fetch_views(v@)),
            FetchPlan::Parts(v) => PlanView::Parts(v@),
            FetchPlan::Whole => PlanView::Whole,
        }
    }
}

/// How a file is fetched, or why it cannot be.
pub open spec fn fetch_plan(
    f: FileView,
    chunk_size: i64,
    part_size: u64,
    supports_range: bool,
) -> Result<PlanView, FailureView> {
    if f.chunk_hashes is Some {
        Ok(
            PlanView::Chunks(
                fetches(
                    f.chunk_hashes->0,
                    f.size_or_zero(),
                    chunk_size as u64,
                    part_size,
                    supports_range,
                ),
            ),
        )
    } else if f.hash is Some {
        if f.size_or_zero() >= 2 * part_size && supports_range {
            Ok(PlanView::Parts(parts(f.size_or_zero(), part_size)))
        } else {
            Ok(PlanView::Whole)
        }
    } else {
        Err(FailureView::Validation("file has no hash or chunk_hashes: "@ + f.path))
    }
}

/// Plan how a file is fetched.
pub fn plan_fetch(
    file: &FileEntry,
    manifest_chunk_size: i64,
    part_size: u64,
    supports_range: bool,
) -> (r: Result<FetchPlan, SnapshotError>)
    requires
        supports_range ==> part_size > 0,
    ensures
        match fetch_plan(file@, manifest_chunk_size, part_size, supports_range) {
            Ok(p) => r matches Ok(plan) && plan@ == p,
            Err(f) => r matches Err(e) && e@ == f,
        },
{
    let size: u64 = file.size_or_zero();
    if let Some(hashes) = &file.chunk_hashes {
        return Ok(
            FetchPlan::Chunks(
                plan_chunks(hashes, size, manifest_chunk_size as u64, part_size, supports_range),
            ),
        );
    }
    if file.hash.is_some() {
        if size / 2 >= part_size && supports_range {
            return Ok(FetchPlan::Parts(part_ranges(size, part_size)));
        }
        return Ok(FetchPlan::Whole);
    }
    let mut m = "file has no hash or chunk_hashes: ".to_owned();
    m.append(file.path.as_str());
    Err(SnapshotError::Validation(m))
}

/// The refusal of contents that have another hash than expected.
pub open spec fn mismatch(what: Seq<char>, expected: Seq<char>, data: Seq<u8>) -> Seq<char> {
    "hash mismatch for "@ + what + ": expected "@ + expected + ", got "@ + hash_text(data)
}

fn check_hash(what: &str, expected: &str, data: &[u8]) -> (r: Result<(), SnapshotError>)
    ensures
        hash_text(data@) == expected@ ==> r is Ok,
        hash_text(data@) != expected@ ==> (r matches Err(e) && e@ == FailureView::Io(
            mismatch(what@, expected@, data@),
        )),
{
    let actual = hash_data(data);
    if str_eq(actual.as_str(), expected) {
        return Ok(());
    }
    let mut m = "hash mismatch for ".to_owned();
    m.append(what);
    m.append(": expected ");
    m.append(expected);
    m.append(", got ");
    m.append(actual.as_str());
    Err(SnapshotError::Io(m))
}

/// Check a fetched chunk against its hash.
pub fn verify_chunk(data: &[u8], expected: &str, offset: u64) -> (r: Result<(), SnapshotError>)
    ensures
        hash_text(data@) == expected@ ==> r is Ok,
        hash_text(data@) != expected@ ==> (r matches Err(e) && e@ == FailureView::Io(
            mismatch("chunk at offset "@ + nat_text(offset as nat), expected@, data@),
        )),
{
    let mut what = "chunk at offset ".to_owned();
    push_u64(&mut what, offset);
    check_hash(what.as_str(), expected, data)
}

/// Check a fetched file against its hash.
pub fn verify_whole(data: &[u8], expected: &str, path: &str) -> (r: Result<(), SnapshotError>)
    ensures
        hash_text(data@) == expected@ ==> r is Ok,
        hash_text(data@) != expected@ ==> (r matches Err(e) && e@ == FailureView::Io(
            mismatch(path@, expected@, data@),
        )),
{
    check_hash(path, expected, data)
}

/// What is remembered once a file was downloaded.
pub open spec fn downloaded_cache(
    m: Map<CacheKey, CacheEntry>,
    f: FileView,
    target: Seq<char>,
    alg: Seq<char>,
    chunk_size: i64,
    mtime: u64,
) -> Map<CacheKey, CacheEntry> {
    let with_whole = match f.hash {
        Some(hash) => m.insert(whole_key(target, alg), CacheEntry { hash, mtime }),
        None => m,
    };
    match f.chunk_hashes {
        Some(hashes) => if chunk_size as u64 > 0 {
            with_chunks(
                with_whole,
                target,
                alg,
                chunk_size as u64,
                f.size_or_zero(),
                hashes,
                mtime,
            )
        } else {
            with_whole
        },
        None => with_whole,
    }
}

/// Store the time of the last change that a downloaded file has on disk, and remember its
/// hashes.
pub fn finalize_downloaded_file(
    file: &mut FileEntry,
    target_path: &str,
    hash_cache: &mut Option<HashCache>,
    alg: &str,
    chunk_size: i64,
    actual_mtime: u64,
)
    ensures
        final(file)@ == (FileView { mtime: Some(actual_mtime), ..old(file)@ }),
        opt_cache(*final(hash_cache)) == match opt_cache(*old(hash_cache)) {
            Some(m) => Some(
                downloaded_cache(m, old(file)@, target_path@, alg@, chunk_size, actual_mtime),
            ),
            None => None,
        },
{
    file.mtime = Some(actual_mtime);
    let file_size: u64 = file.size_or_zero();
    if let Some(c) = hash_cache {
        if let Some(hash) = &file.hash {
            c.put(target_path, alg, 0, WHOLE_FILE_RANGE_END, hash.as_str(), actual_mtime);
        }
        if let Some(hashes) = &file.chunk_hashes {
            let cs: u64 = chunk_size as u64;
            if cs > 0 {
                put_chunk_hashes(c, target_path, alg, cs, file_size, hashes, actual_mtime);
            }
        }
    }
}

/// Whether the hashes of an entry are one for each of its first chunks.
pub open spec fn chunk_hashes_fit(f: FileView, chunk_size: i64) -> bool {
    f.chunk_hashes is Some && chunk_size as u64 > 0 && 0 < f.chunk_hashes->0.len() <= chunk_count(
        chunk_size as u64,
        f.size_or_zero(),
    )
}

/// A file that was downloaded to its own path is skipped when it is downloaded again and has
/// not changed on disk: by one hash for each of its chunks, or by the hash of the whole, which
/// only a chunk of the largest size there is can take the place of.
pub proof fn downloaded_file_is_skipped_next_time(
    m: Map<CacheKey, CacheEntry>,
    f: FileView,
    index: usize,
    alg: Seq<char>,
    chunk_size: i64,
    mtime: u64,
    conflict: FileConflictResolution,
)
    requires
        chunk_hashes_fit(f, chunk_size) || f.hash is Some && (f.chunk_hashes is None
            || chunk_size as u64 != u64::MAX || f.size_or_zero() != u64::MAX),
    ensures
        evaluation(
            FileView { mtime: Some(mtime), ..f },
            index,
            chunk_size,
            alg,
            Some(downloaded_cache(m, f, f.path, alg, chunk_size, mtime)),
            conflict,
            DiskFacts { exists: true, mtime: Some(mtime) },
        ) == (SkipEvaluation { index, skipped: true, mtime }),
{
    let after = downloaded_cache(m, f, f.path, alg, chunk_size, mtime);
    let again = FileView { mtime: Some(mtime), ..f };
    let cs = chunk_size as u64;
    let with_whole = match f.hash {
        Some(hash) => m.insert(whole_key(f.path, alg), CacheEntry { hash, mtime }),
        None => m,
    };
    if chunk_hashes_fit(f, chunk_size) {
        let hashes = f.chunk_hashes->0;
        assert forall|k: int| 0 <= k < hashes.len() implies fresh_chunk(
            after,
            f.path,
            alg,
            cs,
            f.size_or_zero(),
            mtime,
            k,
        ) == Some(#[trigger] hashes[k]) by {
            remembered_chunks_are_read_back(
                with_whole,
                f.path,
                alg,
                cs,
                f.size_or_zero(),
                hashes,
                mtime,
                k,
            );
        }
        assert(chunks_are_remembered(again, chunk_size, alg, after, mtime));
    } else {
        if let Some(hashes) = f.chunk_hashes {
            if cs > 0 {
                chunks_leave_the_whole(
                    with_whole,
                    f.path,
                    alg,
                    cs,
                    f.size_or_zero(),
                    hashes,
                    mtime,
                    mtime,
                );
            }
        }
        assert(whole_is_remembered(again, alg, after, mtime));
    }
}

/// What became of downloading a file: its place in the manifest, where it is on disk, and
/// when it was last changed there.
#[derive(Debug)]
pub struct Downloaded {
    pub index: usize,
    pub target_path: String,
    pub mtime: u64,
}

/// What a contract reads of a file that was downloaded.
pub struct DownloadedView {
    pub index: int,
    pub target_path: Seq<char>,
    pub mtime: u64,
}

/// What a contract reads of what downloading a file came to.
pub open spec fn download_view(r: Result<Downloaded, SnapshotError>) -> Result<
    DownloadedView,
    FailureView,
> {
    match r {
        Ok(d) => Ok(
            DownloadedView { index: d.index as int, target_path: d.target_path@, mtime: d.mtime },
        ),
        Err(e) => Err(e@),
    }
}

/// What downloading files came to.
pub open spec fn download_views(v: Seq<Result<Downloaded, SnapshotError>>) -> Seq<
    Result<DownloadedView, FailureView>,
> {
    Seq::new(v.len(), |i: int| download_view(v[i]))
}

/// Files and remembered hashes after downloads were taken note of in order, up to the first
/// failure.
pub open spec fn after_downloads(
    start: OperationState,
    results: Seq<Result<DownloadedView, FailureView>>,
    alg: Seq<char>,
    chunk_size: i64,
) -> (OperationState, Option<FailureView>)
    decreases results.len(),
{
    if results.len() == 0 {
        (start, None)
    } else {
        let (state, failure) = after_downloads(start, results.drop_last(), alg, chunk_size);
        if failure is Some {
            (state, failure)
        } else {
            match results.last() {
                Ok(d) => {
                    let f = state.files[d.index];
                    (
                        OperationState {
                            files: state.files.update(
                                d.index,
                                FileView { mtime: Some(d.mtime), ..f },
                            ),
                            cache: match state.cache {
                                Some(m) => Some(
                                    downloaded_cache(
                                        m,
                                        f,
                                        d.target_path,
                                        alg,
                                        chunk_size,
                                        d.mtime,
                                    ),
                                ),
                                None => None,
                            },
                        },
                        None,
                    )
                },
                Err(e) => (state, Some(e)),
            }
        }
    }
}

proof fn download_failure_stays(
    start: OperationState,
    results: Seq<Result<DownloadedView, FailureView>>,
    n: int,
    alg: Seq<char>,
    chunk_size: i64,
)
    requires
        0 <= n <= results.len(),
        after_downloads(start, results.take(n), alg, chunk_size).1 is Some,
    ensures
        after_downloads(start, results, alg, chunk_size) == after_downloads(
            start,
            results.take(n),
            alg,
            chunk_size,
        ),
    decreases results.len(),
{
    if n < results.len() {
        assert(results.drop_last().take(n) =~= results.take(n));
        download_failure_stays(start, results.drop_last(), n, alg, chunk_size);
    } else {
        assert(results.take(n) =~= results);
    }
}

/// Take note of what downloading files came to, in the order of the work, up to the first
/// failure.
pub fn apply_download_results(
    files: &mut Vec<FileEntry>,
    results: Vec<Result<Downloaded, SnapshotError>>,
    hash_cache: &mut Option<HashCache>,
    alg: &str,
    chunk_size: i64,
) -> (r: Result<(), SnapshotError>)
    requires
        forall|k: int|
            0 <= k < results@.len() ==> (#[trigger] results@[k] matches Ok(d) ==> d.index
                < old(files)@.len()),
    ensures
        ({
            let (state, failure) = after_downloads(
                OperationState {
                    files: file_views(old(files)@),
                    cache: opt_cache(*old(hash_cache)),
                },
                download_views(results@),
                alg@,
                chunk_size,
            );
            &&& file_views(final(files)@) == state.files
            &&& opt_cache(*final(hash_cache)) == state.cache
            &&& match failure {
                Some(f) => r matches Err(e) && e@ == f,
                None => r is Ok,
            }
        }),
{
    let ghost start = OperationState {
        files: file_views(files@),
        cache: opt_cache(*hash_cache),
    };
    let ghost all = download_views(results@);
    let ghost given = results@;
    let ghost n = files@.len();
    assert(all.take(0) =~= Seq::empty());
    for result in it: results
        invariant
            it.seq() == given,
            given == results@,
            start == (OperationState {
                files: file_views(old(files)@),
                cache: opt_cache(*old(hash_cache)),
            }),
            all == download_views(given),
            files@.len() == n,
            forall|k: int|
                0 <= k < given.len() ==> (#[trigger] given[k] matches Ok(d) ==> d.index < n),
            after_downloads(start, all.take(it.index() as int), alg@, chunk_size).1 is None,
            file_views(files@) == after_downloads(
                start,
                all.take(it.index() as int),
                alg@,
                chunk_size,
            ).0.files,
            opt_cache(*hash_cache) == after_downloads(
                start,
                all.take(it.index() as int),
                alg@,
                chunk_size,
            ).0.cache,
    {
        let ghost i = it.index() as int;
        assert(result == given[i]);
        assert(all.take(i + 1).drop_last() =~= all.take(i));
        match result {
            Ok(d) => {
                let ghost before = files@;
                let index: usize = d.index;
                finalize_downloaded_file(
                    &mut files[index],
                    d.target_path.as_str(),
                    hash_cache,
                    alg,
                    chunk_size,
                    d.mtime,
                );
                assert(file_views(files@) =~= file_views(before).update(
                    index as int,
                    files@[index as int]@,
                ));
            },
            Err(e) => {
                proof {
                    download_failure_stays(start, all, i + 1, alg@, chunk_size);
                }
                return Err(e);
            },
        }
    }
    assert(all.take(all.len() as int) =~= all);
    Ok(())
}

/// Every chunk that contents are split into for uploading is fetched to the place that it was
/// taken from.
pub proof fn chunk_goes_back_to_its_place(data: Seq<u8>, chunk_size: u64, k: int)
    requires
        chunk_size > 0,
        0 < data.len() <= u64::MAX,
        0 <= k < chunk_count(chunk_size, data.len() as u64),
    ensures
        chunks_of(data, chunk_size)[k] == data.subrange(
            chunk_offset(chunk_size, data.len() as u64, k) as int,
            chunk_offset(chunk_size, data.len() as u64, k) + chunk_len(
                chunk_size,
                data.len() as u64,
                k,
            ),
        ),
{
    next_chunk_bound(chunk_size, data.len() as u64, k);
}

/// The statistics after some decisions, counted one by one from nothing.
pub open spec fn counted(work: Seq<SkipEvaluation>, files: Seq<FileView>) -> DownloadCounts
    decreases work.len(),
{
    if work.len() == 0 {
        DownloadCounts::zero()
    } else {
        counted(work.drop_last(), files).with_file(
            files[work.last().index as int].size_or_zero(),
            work.last().skipped,
        )
    }
}

/// How many bytes the files have that were decided about.
pub open spec fn evaluated_bytes(work: Seq<SkipEvaluation>, files: Seq<FileView>) -> int
    decreases work.len(),
{
    if work.len() == 0 {
        0
    } else {
        evaluated_bytes(work.drop_last(), files) + files[work.last().index as int].size_or_zero()
    }
}

/// The decisions to skip a file.
pub open spec fn skips(work: Seq<SkipEvaluation>) -> Seq<SkipEvaluation> {
    work.filter(|e: SkipEvaluation| e.skipped)
}

/// How many bytes are to be fetched.
pub open spec fn bytes_to_fetch(items: Seq<DownloadWorkItem>) -> int
    decreases items.len(),
{
    if items.len() == 0 {
        0
    } else {
        bytes_to_fetch(items.drop_last()) + items.last().file_size
    }
}

/// After all decisions the statistics hold the number of files and the sum of their sizes, and
/// the number of skipped files and the sum of theirs. The rest are the files to be fetched and
/// the sum of their sizes. Nothing is downloaded yet.
pub proof fn statistics_count_every_decision(work: Seq<SkipEvaluation>, files: Seq<FileView>)
    ensures
        counted(work, files) == (DownloadCounts {
            total_files: work.len() as int,
            total_bytes: evaluated_bytes(work, files),
            downloaded_files: 0,
            downloaded_bytes: 0,
            skipped_files: skips(work).len() as int,
            skipped_bytes: evaluated_bytes(skips(work), files),
        }),
        counted(work, files).wf(),
        work.len() - skips(work).len() == needed(work, files).len(),
        evaluated_bytes(work, files) - evaluated_bytes(skips(work), files) == bytes_to_fetch(
            needed(work, files),
        ),
    decreases work.len(),
{
    reveal(Seq::filter);
    if work.len() > 0 {
        let front = work.drop_last();
        statistics_count_every_decision(front, files);
        if work.last().skipped {
            assert(skips(work).drop_last() =~= skips(front));
        } else {
            assert(needed(work, files).drop_last() =~= needed(front, files));
        }
    }
}

/// The places of the files that were decided about.
pub open spec fn evaluated_places(work: Seq<SkipEvaluation>) -> Seq<int> {
    Seq::new(work.len(), |k: int| work[k].index as int)
}

/// How many regular files there are.
pub open spec fn regular_count(files: Seq<FileView>) -> int
    decreases files.len(),
{
    if files.len() == 0 {
        0
    } else {
        regular_count(files.drop_last()) + if files.last().is_regular() {
            1int
        } else {
            0
        }
    }
}

proof fn bytes_without_one(work: Seq<SkipEvaluation>, files: Seq<FileView>, p: int)
    requires
        0 <= p < work.len(),
    ensures
        evaluated_bytes(work.remove(p), files) + files[work[p].index as int].size_or_zero()
            == evaluated_bytes(work, files),
    decreases work.len(),
{
    let rest = work.remove(p);
    if p < work.len() - 1 {
        bytes_without_one(work.drop_last(), files, p);
        assert(rest.drop_last() =~= work.drop_last().remove(p));
        assert(rest.last() == work.last());
    } else {
        assert(rest =~= work.drop_last());
    }
}

proof fn bytes_of_fewer_files(work: Seq<SkipEvaluation>, files: Seq<FileView>)
    requires
        files.len() > 0,
        forall|k: int| 0 <= k < work.len() ==> (#[trigger] work[k]).index < files.len() - 1,
    ensures
        evaluated_bytes(work, files) == evaluated_bytes(work, files.drop_last()),
    decreases work.len(),
{
    if work.len() > 0 {
        assert(work[work.len() - 1].index < files.len() - 1);
        bytes_of_fewer_files(work.drop_last(), files);
    }
}

/// Where every regular file was decided about exactly once and nothing else was, in whatever
/// order, the statistics hold the number of regular files and the sum of their sizes.
pub proof fn statistics_count_every_file(work: Seq<SkipEvaluation>, files: Seq<FileView>)
    requires
        evaluated_places(work).no_duplicates(),
        forall|i: int|
            #[trigger] evaluated_places(work).contains(i) <==> 0 <= i < files.len()
                && files[i].is_regular(),
    ensures
        counted(work, files).total_files == regular_count(files),
        counted(work, files).total_bytes == regular_bytes(files),
    decreases files.len(),
{
    statistics_count_every_decision(work, files);
    let places = evaluated_places(work);
    if files.len() == 0 {
        if work.len() > 0 {
            assert(places.contains(places[0]));
        }
    } else {
        let last = files.len() - 1;
        let front = files.drop_last();
        let rest = if files[last].is_regular() {
            assert(places.contains(last));
            let p = choose|p: int| 0 <= p < places.len() && places[p] == last;
            bytes_without_one(work, files, p);
            assert(evaluated_places(work.remove(p)) =~= places.remove(p));
            assert forall|i: int| #[trigger] places.remove(p).contains(i) <==> places.contains(i)
                && i != last by {
                if places.contains(i) && i != last {
                    let q = choose|q: int| 0 <= q < places.len() && places[q] == i;
                    if q < p {
                        assert(places.remove(p)[q] == i);
                    } else {
                        assert(places.remove(p)[q - 1] == i);
                    }
                }
                if places.remove(p).contains(i) {
                    let q = choose|q: int|
                        0 <= q < places.remove(p).len() && places.remove(p)[q] == i;
                    if q < p {
                        assert(places[q] == i);
                    } else {
                        assert(places[q + 1] == i);
                    }
                }
            }
            work.remove(p)
        } else {
            work
        };
        let left = evaluated_places(rest);
        assert forall|i: int| #[trigger] left.contains(i) <==> 0 <= i < front.len()
            && front[i].is_regular() by {
            assert(left.contains(i) <==> places.contains(i) && i != last);
            if 0 <= i < front.len() {
                assert(front[i] == files[i]);
            }
        }
        assert forall|k: int| 0 <= k < rest.len() implies (#[trigger] rest[k]).index < last by {
            assert(left.contains(left[k]));
        }
        bytes_of_fewer_files(rest, files);
        statistics_count_every_file(rest, front);
        statistics_count_every_decision(rest, front);
    }
}

/// A file is skipped only where one exists on disk, and then only where an existing file is to
/// be kept or its hash, or that of every chunk, is remembered for the time of the last change on
/// disk and is the one in the manifest. Without a cache, and where existing files are not to be
/// kept, nothing is skipped, whatever the times are.
pub proof fn skipped_file_is_kept_or_known(
    f: FileView,
    index: usize,
    chunk_size: i64,
    alg: Seq<char>,
    cache: Option<Map<CacheKey, CacheEntry>>,
    conflict: FileConflictResolution,
    disk: DiskFacts,
)
    ensures
        ({
            let e = evaluation(f, index, chunk_size, alg, cache, conflict, disk);
            &&& e.skipped ==> disk.exists && (conflict == FileConflictResolution::Skip || (cache
                is Some && f.mtime is Some && disk.mtime is Some && (hash_is_known(
                f,
                alg,
                cache->0,
                disk.mtime->0,
            ) || every_chunk_is_known(f, chunk_size, alg, cache->0, disk.mtime->0))))
            &&& cache is None && conflict != FileConflictResolution::Skip ==> !e.skipped
            &&& !disk.exists ==> !e.skipped
        }),
{
    if cache is Some && disk.mtime is Some && chunks_are_remembered(
        f,
        chunk_size,
        alg,
        cache->0,
        disk.mtime->0,
    ) {
        let hashes = f.chunk_hashes->0;
        assert forall|k: int| 0 <= k < hashes.len() implies entry_is_known(
            cache->0,
            chunk_key(f.path, alg, chunk_size as u64, f.size_or_zero(), k),
            disk.mtime->0,
            #[trigger] hashes[k],
        ) by {
            assert(fresh_chunk(
                cache->0,
                f.path,
                alg,
                chunk_size as u64,
                f.size_or_zero(),
                disk.mtime->0,
                k,
            ) == Some(hashes[k]));
        }
        assert(every_chunk_is_known(f, chunk_size, alg, cache->0, disk.mtime->0));
    }
}

/// Whether there is an entry for the whole of a file with a time of change and the hash that
/// the manifest has.
pub open spec fn hash_is_known(
    f: FileView,
    alg: Seq<char>,
    m: Map<CacheKey, CacheEntry>,
    mtime: u64,
) -> bool {
    f.hash is Some && entry_is_known(
        m,
        CacheKey { path: f.path, alg, start: 0, end: -1i64 },
        mtime,
        f.hash->0,
    )
}

/// Whether there is an entry for every chunk of a file with a time of change and the hash that
/// the manifest has.
pub open spec fn every_chunk_is_known(
    f: FileView,
    chunk_size: i64,
    alg: Seq<char>,
    m: Map<CacheKey, CacheEntry>,
    mtime: u64,
) -> bool {
    &&& f.chunk_hashes is Some
    &&& f.chunk_hashes->0.len() > 0
    &&& chunk_size != 0
    &&& forall|k: int|
        0 <= k < f.chunk_hashes->0.len() ==> entry_is_known(
            m,
            chunk_key(f.path, alg, chunk_size as u64, f.size_or_zero(), k),
            mtime,
            #[trigger] f.chunk_hashes->0[k],
        )
}

/// Whether there is an entry under a key with a time of change and a hash.
pub open spec fn entry_is_known(
    m: Map<CacheKey, CacheEntry>,
    key: CacheKey,
    mtime: u64,
    hash: Seq<char>,
) -> bool {
    m.contains_key(key) && m[key].mtime == mtime && m[key].hash == hash
}

/// An existing file that is to be kept is skipped, and so is one that is known to be that of the
/// manifest, whatever is to be done with existing files; replacing a file and copying it aside
/// do not differ in what is skipped.
pub proof fn kept_and_known_files_are_skipped(
    f: FileView,
    index: usize,
    chunk_size: i64,
    alg: Seq<char>,
    cache: Option<Map<CacheKey, CacheEntry>>,
    conflict: FileConflictResolution,
    disk: DiskFacts,
)
    ensures
        disk.exists ==> evaluation(
            f,
            index,
            chunk_size,
            alg,
            cache,
            FileConflictResolution::Skip,
            disk,
        ).skipped,
        disk.exists && cache is Some && f.mtime is Some && disk.mtime is Some && (hash_is_known(
            f,
            alg,
            cache->0,
            disk.mtime->0,
        ) || every_chunk_is_known(f, chunk_size, alg, cache->0, disk.mtime->0)) ==> evaluation(
            f,
            index,
            chunk_size,
            alg,
            cache,
            conflict,
            disk,
        ).skipped,
        evaluation(
            f,
            index,
            chunk_size,
            alg,
            cache,
            FileConflictResolution::Overwrite,
            disk,
        ) == evaluation(
            f,
            index,
            chunk_size,
            alg,
            cache,
            FileConflictResolution::CreateCopy,
            disk,
        ),
{
    let n = chunk_size;
    assert(n != 0 ==> n as u64 > 0) by (bit_vector);
    if cache is Some && disk.mtime is Some && every_chunk_is_known(
        f,
        chunk_size,
        alg,
        cache->0,
        disk.mtime->0,
    ) {
        let hashes = f.chunk_hashes->0;
        assert forall|k: int| 0 <= k < hashes.len() implies fresh_chunk(
            cache->0,
            f.path,
            alg,
            chunk_size as u64,
            f.size_or_zero(),
            disk.mtime->0,
            k,
        ) == Some(#[trigger] hashes[k]) by {
            let key = chunk_key(f.path, alg, chunk_size as u64, f.size_or_zero(), k);
            assert(entry_is_known(cache->0, key, disk.mtime->0, f.chunk_hashes->0[k]));
        }
        assert(chunks_are_remembered(f, chunk_size, alg, cache->0, disk.mtime->0));
    }
}

/// A decision is about its own file, and holds the time of change on disk of a file that is
/// skipped, 0 where that cannot be read.
pub proof fn decision_is_about_its_file(
    f: FileView,
    index: usize,
    chunk_size: i64,
    alg: Seq<char>,
    cache: Option<Map<CacheKey, CacheEntry>>,
    conflict: FileConflictResolution,
    disk: DiskFacts,
)
    ensures
        ({
            let e = evaluation(f, index, chunk_size, alg, cache, conflict, disk);
            &&& e.index == index
            &&& e.skipped && disk.mtime is Some ==> Some(e.mtime) == disk.mtime
            &&& e.skipped && disk.mtime is None ==> e.mtime == 0
            &&& !e.skipped ==> e.mtime == 0
        }),
{
}

/// Decisions are gone through in order: the files that need downloading by two lists of them are
/// those by the first and then those by the second, a single decision to skip needs none, and
/// one not to skip needs its own file with its size.
pub proof fn files_are_needed_in_order(
    a: Seq<SkipEvaluation>,
    b: Seq<SkipEvaluation>,
    e: SkipEvaluation,
    files: Seq<FileView>,
)
    ensures
        needed(a + b, files) == needed(a, files) + needed(b, files),
        e.skipped ==> needed(seq![e], files).len() == 0,
        !e.skipped ==> needed(seq![e], files).len() == 1 && needed(seq![e], files)[0].index
            == e.index && needed(seq![e], files)[0].file_size == match files[e.index as int].size {
            Some(n) => n,
            None => 0,
        },
    decreases b.len(),
{
    assert(seq![e].drop_last() =~= Seq::empty());
    assert(needed(seq![e].drop_last(), files) =~= Seq::empty());
    if b.len() == 0 {
        assert(a + b =~= a);
        assert(needed(a, files) + needed(b, files) =~= needed(a, files));
    } else {
        assert((a + b).drop_last() =~= a + b.drop_last());
        files_are_needed_in_order(a, b.drop_last(), e, files);
        assert(needed(a + b, files) =~= needed(a, files) + needed(b, files));
    }
}

/// The time of change of a skipped file is taken over into its entry where it is known, and
/// nothing else changes; decisions take effect in turn.
pub proof fn times_of_skipped_files_are_taken_over(
    files: Seq<FileView>,
    a: Seq<SkipEvaluation>,
    b: Seq<SkipEvaluation>,
    e: SkipEvaluation,
    j: int,
)
    requires
        e.index < files.len(),
    ensures
        with_skipped_mtimes(files, a + b) == with_skipped_mtimes(with_skipped_mtimes(files, a), b),
        ({
            let after = with_skipped_mtimes(files, seq![e]);
            let was = files[e.index as int];
            let is = after[e.index as int];
            &&& after.len() == files.len()
            &&& 0 <= j < files.len() && j != e.index ==> after[j] == files[j]
            &&& !e.skipped || e.mtime == 0 ==> is == was
            &&& e.skipped && e.mtime != 0 ==> is.mtime == Some(e.mtime)
            &&& is.path == was.path && is.hash == was.hash && is.size == was.size
            &&& is.chunk_hashes == was.chunk_hashes
            &&& is.symlink_target == was.symlink_target && is.deleted == was.deleted
        }),
    decreases b.len(),
{
    assert(seq![e].drop_last() =~= Seq::empty());
    assert(with_skipped_mtimes(files, seq![e].drop_last()) == files);
    if b.len() == 0 {
        assert(a + b =~= a);
    } else {
        assert((a + b).drop_last() =~= a + b.drop_last());
        times_of_skipped_files_are_taken_over(files, a, b.drop_last(), e, j);
    }
}

/// A chunk is fetched as one object, to its own place in the file, unless ranges can be had and
/// it has at least twice the size of a part. Then every range is of the chunk's object and goes
/// to where it lies in the file; range `j` begins `j` parts in and has the size of a part, but
/// for the last, which ends with the chunk.
pub proof fn chunk_is_fetched_whole_or_in_ranges(
    hash: Seq<char>,
    offset: u64,
    size: u64,
    part_size: u64,
    supports_range: bool,
    j: int,
)
    requires
        part_size > 0,
        offset + size <= u64::MAX,
    ensures
        ({
            let all = fetches_of_chunk(hash, offset, size, part_size, supports_range);
            let f = all[j];
            &&& !supports_range || size < part_size + part_size ==> all == seq![
                FetchView::Object { hash, offset },
            ]
            &&& supports_range && size >= part_size + part_size ==> size <= all.len() * part_size
                < size + part_size && (0 <= j < all.len() ==> f is Range && f->Range_hash == hash
                && f->start == j * part_size && f->write_offset == offset + j * part_size && (j + 1
                < all.len() ==> f->end + 1 == (j + 1) * part_size) && (j + 1 == all.len()
                ==> f->end + 1 == size))
        }),
{
    chunk_count_facts(part_size, size, 0);
    no_chunk_too_many(part_size, size);
    if 0 <= j < chunk_count(part_size, size) {
        parts_tile_the_whole(size, part_size, j);
        next_chunk_bound(part_size, size, j);
        chunk_count_facts(part_size, size, j);
        chunk_count_facts(part_size, size, j + 1);
    }
}

/// One more hash adds the fetches of one more chunk, behind those of the others: the chunk
/// begins where as many whole chunks end as there were hashes, and has the chunk size or what is
/// left of the file.
pub proof fn every_hash_is_fetched_to_its_chunk(
    hashes: Seq<Seq<char>>,
    h: Seq<char>,
    file_size: u64,
    chunk_size: u64,
    part_size: u64,
    supports_range: bool,
)
    ensures
        fetches(Seq::empty(), file_size, chunk_size, part_size, supports_range).len() == 0,
        ({
            let begin = hashes.len() * chunk_size;
            let offset = if begin < file_size {
                begin
            } else {
                file_size as int
            };
            let size = if begin + chunk_size < file_size {
                chunk_size as int
            } else {
                file_size - offset
            };
            fetches(hashes.push(h), file_size, chunk_size, part_size, supports_range) == fetches(
                hashes,
                file_size,
                chunk_size,
                part_size,
                supports_range,
            ) + fetches_of_chunk(h, offset as u64, size as u64, part_size, supports_range)
        }),
{
    assert(hashes.push(h).drop_last() =~= hashes);
    next_chunk_bound(chunk_size, file_size, hashes.len() as int);
}

/// A file with hashes of its chunks is fetched by them, whatever else it has; one with a hash
/// alone as one object, or in parts where ranges can be had and it has at least twice the size
/// of a part; and one with neither cannot be fetched, which is said with its path.
pub proof fn file_is_fetched_by_its_hashes(
    f: FileView,
    chunk_size: i64,
    part_size: u64,
    supports_range: bool,
)
    ensures
        ({
            let plan = fetch_plan(f, chunk_size, part_size, supports_range);
            let size = if f.size is Some {
                f.size->0
            } else {
                0
            };
            &&& plan is Err <==> f.hash is None && f.chunk_hashes is None
            &&& plan is Err ==> plan->Err_0 is Validation && plan->Err_0->Validation_0
                == "file has no hash or chunk_hashes: "@ + f.path
            &&& f.chunk_hashes is Some ==> plan is Ok && plan->Ok_0 is Chunks
                && plan->Ok_0->Chunks_0 == fetches(
                f.chunk_hashes->0,
                size,
                chunk_size as u64,
                part_size,
                supports_range,
            )
            &&& f.chunk_hashes is None && f.hash is Some ==> plan is Ok && (plan->Ok_0 is Parts
                <==> supports_range && size >= part_size + part_size) && !(plan->Ok_0 is Chunks)
            &&& plan is Ok && plan->Ok_0 is Parts ==> plan->Ok_0->Parts_0 == parts(size, part_size)
        }),
{
}

/// A refusal says what was checked, which hash was expected and which one the contents have, in
/// this order.
pub proof fn refusal_says_both_hashes(what: Seq<char>, expected: Seq<char>, data: Seq<u8>)
    ensures
        mismatch(what, expected, data) == "hash mismatch for "@ + (what + ": expected "@) + (expected
            + (", got "@ + hash_text(data))),
{
    assert(mismatch(what, expected, data) =~= "hash mismatch for "@ + (what + ": expected "@) + (
    expected + (", got "@ + hash_text(data))));
}

/// Once a file was downloaded, its hash is remembered for the place that it went to with its
/// time of change there. Nothing changes for other places and algorithms, nor for a file that
/// has no hashes.
pub proof fn download_is_remembered_where_it_went(
    m: Map<CacheKey, CacheEntry>,
    f: FileView,
    target: Seq<char>,
    alg: Seq<char>,
    chunk_size: i64,
    mtime: u64,
    key: CacheKey,
    k: int,
)
    ensures
        ({
            let after = downloaded_cache(m, f, target, alg, chunk_size, mtime);
            let whole = CacheKey { path: target, alg, start: 0, end: -1i64 };
            &&& key.path != target || key.alg != alg ==> (after.contains_key(key)
                <==> m.contains_key(key)) && (m.contains_key(key) ==> after[key] == m[key])
            &&& f.hash is None && f.chunk_hashes is None ==> after == m
            &&& f.hash is Some && f.chunk_hashes is None ==> after.contains_key(whole)
                && after[whole].hash == f.hash->0 && after[whole].mtime == mtime && (key != whole
                ==> (after.contains_key(key) <==> m.contains_key(key)) && (m.contains_key(key)
                ==> after[key] == m[key]))
            &&& f.chunk_hashes is Some && chunk_size > 0 && f.chunk_hashes->0.len() <= chunk_count(
                chunk_size as u64,
                f.size_or_zero(),
            ) && 0 <= k < f.chunk_hashes->0.len() ==> fresh_chunk(
                after,
                target,
                alg,
                chunk_size as u64,
                f.size_or_zero(),
                mtime,
                k,
            ) == Some(f.chunk_hashes->0[k])
        }),
{
    let with_whole = match f.hash {
        Some(hash) => m.insert(whole_key(target, alg), CacheEntry { hash, mtime }),
        None => m,
    };
    if let Some(hashes) = f.chunk_hashes {
        if key.path != target || key.alg != alg {
            chunks_leave_other_files(
                with_whole,
                target,
                alg,
                chunk_size as u64,
                f.size_or_zero(),
                hashes,
                mtime,
                key,
            );
        }
        if chunk_size > 0 && hashes.len() <= chunk_count(chunk_size as u64, f.size_or_zero()) && 0
            <= k < hashes.len() {
            remembered_chunks_are_read_back(
                with_whole,
                target,
                alg,
                chunk_size as u64,
                f.size_or_zero(),
                hashes,
                mtime,
                k,
            );
        }
    }
}

/// Downloads are taken note of one behind the other: those of two pieces as the second piece on
/// what the first left, unless one of the first failed, which ends it.
pub proof fn downloads_are_noted_in_turn(
    start: OperationState,
    a: Seq<Result<DownloadedView, FailureView>>,
    b: Seq<Result<DownloadedView, FailureView>>,
    alg: Seq<char>,
    chunk_size: i64,
)
    ensures
        after_downloads(start, Seq::empty(), alg, chunk_size) == (start, None::<FailureView>),
        after_downloads(start, a, alg, chunk_size).1 is Some ==> after_downloads(
            start,
            a + b,
            alg,
            chunk_size,
        ) == after_downloads(start, a, alg, chunk_size),
        after_downloads(start, a, alg, chunk_size).1 is None ==> after_downloads(
            start,
            a + b,
            alg,
            chunk_size,
        ) == after_downloads(after_downloads(start, a, alg, chunk_size).0, b, alg, chunk_size),
    decreases b.len(),
{
    if b.len() == 0 {
        assert(a + b =~= a);
    } else {
        assert((a + b).drop_last() =~= a + b.drop_last());
        downloads_are_noted_in_turn(start, a, b.drop_last(), alg, chunk_size);
    }
}

/// A single failure is reported and changes nothing. A single download gives its own entry the
/// time of change on disk and changes nothing else of it, nor any other entry, and is remembered
/// where it went.
pub proof fn single_download_changes_its_file(
    start: OperationState,
    d: DownloadedView,
    failure: FailureView,
    j: int,
    alg: Seq<char>,
    chunk_size: i64,
)
    requires
        0 <= d.index < start.files.len(),
    ensures
        after_downloads(start, seq![Err(failure)], alg, chunk_size) == (start, Some(failure)),
        ({
            let (state, f) = after_downloads(start, seq![Ok(d)], alg, chunk_size);
            let was = start.files[d.index];
            let is = state.files[d.index];
            &&& f is None
            &&& state.files.len() == start.files.len()
            &&& 0 <= j < start.files.len() && j != d.index ==> state.files[j] == start.files[j]
            &&& is.mtime == Some(d.mtime)
            &&& is.path == was.path && is.hash == was.hash && is.size == was.size
            &&& is.chunk_hashes == was.chunk_hashes
            &&& is.symlink_target == was.symlink_target && is.deleted == was.deleted
            &&& start.cache is None ==> state.cache is None
            &&& start.cache is Some ==> state.cache == Some(
                downloaded_cache(start.cache->0, was, d.target_path, alg, chunk_size, d.mtime),
            )
        }),
{
    let good: Seq<Result<DownloadedView, FailureView>> = seq![Ok(d)];
    let bad: Seq<Result<DownloadedView, FailureView>> = seq![Err(failure)];
    assert(good.drop_last() =~= Seq::empty());
    assert(bad.drop_last() =~= Seq::empty());
    assert(after_downloads(start, good.drop_last(), alg, chunk_size) == (
        start,
        None::<FailureView>,
    ));
}

} // verus!
