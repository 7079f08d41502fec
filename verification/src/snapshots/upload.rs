//! Hashing files and uploading their contents: what is to be done, and what it comes to.

use vstd::prelude::*;

use crate::snapshots::hash_cache::{
    cached_chunk_hashes, chunk_count, chunk_count_facts, chunk_key, chunks_cover_the_file,
    chunks_leave_other_files, fresh_chunk, fresh_hash, no_chunk_too_many, put_chunk_hashes,
    remembered_chunks_are_read_back, with_chunks, CacheEntry, CacheKey, HashCache,
    WHOLE_FILE_RANGE_END,
};
use crate::snapshots::manifest::{
    file_views, FailureView, FileEntry, FileView, Manifest, SnapshotError, WHOLE_FILE_CHUNK_SIZE,
};
use crate::text::{opt_text, texts};

verus! {

/// How files are hashed and uploaded.
#[derive(Debug)]
pub struct HashUploadOptions {
    /// Whether remembered hashes are left aside.
    pub force_rehash: bool,
    /// The chunk size to use in place of the manifest's.
    pub file_chunk_size_bytes: Option<i64>,
    pub max_workers: Option<usize>,
    pub max_memory_bytes: Option<usize>,
}

impl Default for HashUploadOptions {
    fn default() -> (r: HashUploadOptions)
        ensures
            !r.force_rehash,
            r.file_chunk_size_bytes is None,
            r.max_workers is None,
            r.max_memory_bytes is None,
    {
        HashUploadOptions {
            force_rehash: false,
            file_chunk_size_bytes: None,
            max_workers: None,
            max_memory_bytes: None,
        }
    }
}

/// How many workers there are where none are asked for.
pub const DEFAULT_WORKERS: usize = 10;

/// How many workers to use.
pub fn worker_count(max_workers: Option<usize>) -> (n: usize)
    ensures
        n == match max_workers {
            Some(n) => n,
            None => DEFAULT_WORKERS,
        },
{
    match max_workers {
        Some(n) => n,
        None => DEFAULT_WORKERS,
    }
}

impl HashUploadOptions {
    /// The chunk size that counts for a manifest.
    pub fn chunk_size(&self, manifest: &Manifest) -> (n: i64)
        ensures
            n == match self.file_chunk_size_bytes {
                Some(n) => n,
                None => manifest.file_chunk_size_bytes,
            },
    {
        match self.file_chunk_size_bytes {
            Some(n) => n,
            None => manifest.file_chunk_size_bytes,
        }
    }
}

/// How far hashing and uploading have come.
#[derive(Debug)]
pub struct UploadStatistics {
    pub total_files: usize,
    pub total_bytes: u64,
    pub hashed_files: usize,
    pub hashed_bytes: u64,
    pub uploaded_files: usize,
    pub uploaded_bytes: u64,
    pub skipped_files: usize,
    pub skipped_bytes: u64,
    /// A summary for people to read.
    pub progress_message: String,
}

/// The numbers of the statistics.
pub struct UploadCounts {
    pub total_files: int,
    pub total_bytes: int,
    pub hashed_files: int,
    pub hashed_bytes: int,
    pub uploaded_files: int,
    pub uploaded_bytes: int,
    pub skipped_files: int,
    pub skipped_bytes: int,
}

impl View for UploadStatistics {
    type V = UploadCounts;

    open spec fn view(&self) -> UploadCounts {
        UploadCounts {
            total_files: self.total_files as int,
            total_bytes: self.total_bytes as int,
            hashed_files: self.hashed_files as int,
            hashed_bytes: self.hashed_bytes as int,
            uploaded_files: self.uploaded_files as int,
            uploaded_bytes: self.uploaded_bytes as int,
            skipped_files: self.skipped_files as int,
            skipped_bytes: self.skipped_bytes as int,
        }
    }
}

impl UploadCounts {
    /// Nothing done of some files with some bytes in all.
    pub open spec fn of_total(files: int, bytes: int) -> UploadCounts {
        UploadCounts {
            total_files: files,
            total_bytes: bytes,
            hashed_files: 0,
            hashed_bytes: 0,
            uploaded_files: 0,
            uploaded_bytes: 0,
            skipped_files: 0,
            skipped_bytes: 0,
        }
    }

    /// Whether the numbers can be held.
    pub open spec fn fits(self) -> bool {
        &&& 0 <= self.total_files <= usize::MAX
        &&& 0 <= self.total_bytes <= u64::MAX
        &&& 0 <= self.hashed_files <= usize::MAX
        &&& 0 <= self.hashed_bytes <= u64::MAX
        &&& 0 <= self.uploaded_files <= usize::MAX
        &&& 0 <= self.uploaded_bytes <= u64::MAX
        &&& 0 <= self.skipped_files <= usize::MAX
        &&& 0 <= self.skipped_bytes <= u64::MAX
    }
}

/// A file to hash and, where need be, upload.
#[derive(Debug)]
pub struct UploadWorkItem {
    /// The place of the file in the manifest.
    pub index: usize,
    pub path: String,
    pub mtime: u64,
    /// Whether the file is split into chunks.
    pub use_chunks: bool,
    pub file_size: u64,
}

/// What a contract reads of a file to work on.
pub struct ItemView {
    pub index: int,
    pub path: Seq<char>,
    pub mtime: u64,
    pub use_chunks: bool,
    pub file_size: u64,
}

impl View for UploadWorkItem {
    type V = ItemView;

    open spec fn view(&self) -> ItemView {
        ItemView {
            index: self.index as int,
            path: self.path@,
            mtime: self.mtime,
            use_chunks: self.use_chunks,
            file_size: self.file_size,
        }
    }
}

/// The views of files to work on.
pub open spec fn item_views(v: Seq<UploadWorkItem>) -> Seq<ItemView> {
    Seq::new(v.len(), |i: int| v[i]@)
}

/// Whether a file of a size is split into chunks.
pub open spec fn splits(chunk_size: i64, file_size: u64) -> bool {
    chunk_size > 0 && chunk_size != WHOLE_FILE_CHUNK_SIZE && file_size as i64 > chunk_size
}

/// The work that one regular file makes.
pub open spec fn work_item(f: FileView, index: int, chunk_size: i64) -> ItemView {
    ItemView {
        index,
        path: f.path,
        mtime: f.mtime_or_zero(),
        use_chunks: splits(chunk_size, f.size_or_zero()),
        file_size: f.size_or_zero(),
    }
}

/// The work that files make: one item for each regular file, in order.
pub open spec fn work_items(files: Seq<FileView>, chunk_size: i64) -> Seq<ItemView>
    decreases files.len(),
{
    if files.len() == 0 {
        Seq::empty()
    } else {
        let before = work_items(files.drop_last(), chunk_size);
        if files.last().is_regular() {
            before.push(work_item(files.last(), files.len() - 1, chunk_size))
        } else {
            before
        }
    }
}

/// How many bytes the regular files have in all.
pub open spec fn regular_bytes(files: Seq<FileView>) -> int
    decreases files.len(),
{
    if files.len() == 0 {
        0
    } else {
        regular_bytes(files.drop_last()) + if files.last().is_regular() {
            files.last().size_or_zero() as int
        } else {
            0
        }
    }
}

proof fn regular_bytes_grow(files: Seq<FileView>, n: int)
    requires
        0 <= n <= files.len(),
    ensures
        0 <= regular_bytes(files.take(n)) <= regular_bytes(files),
    decreases files.len(),
{
    if n < files.len() {
        regular_bytes_grow(files.drop_last(), n);
        assert(files.drop_last().take(n) =~= files.take(n));
    } else {
        assert(files.take(n) =~= files);
        if n > 0 {
            regular_bytes_grow(files.drop_last(), n - 1);
        }
    }
}

/// Whether the sizes of the regular files can be added up.
pub fn sizes_fit(files: &Vec<FileEntry>) -> (r: bool)
    ensures
        r == (regular_bytes(file_views(files@)) <= u64::MAX),
{
    let ghost views = file_views(files@);
    let mut total: u64 = 0;
    let mut i: usize = 0;
    assert(views.take(0) =~= Seq::empty());
    while i < files.len()
        invariant
            i <= files.len(),
            views == file_views(files@),
            total == regular_bytes(views.take(i as int)),
        decreases files.len() - i,
    {
        assert(views.take(i + 1).drop_last() =~= views.take(i as int));
        if files[i].is_regular() {
            let size: u64 = files[i].size_or_zero();
            if size > u64::MAX - total {
                proof {
                    regular_bytes_grow(views, i + 1);
                }
                return false;
            }
            total = total + size;
        }
        i += 1;
    }
    assert(views.take(views.len() as int) =~= views);
    true
}

/// Build the list of work for all regular files, and statistics with their number and size.
pub fn build_upload_work_list(
    files: &Vec<FileEntry>,
    chunk_size: i64,
) -> (r: (Vec<UploadWorkItem>, UploadStatistics))
    requires
        regular_bytes(file_views(files@)) <= u64::MAX,
    ensures
        item_views(r.0@) == work_items(file_views(files@), chunk_size),
        r.1@ == UploadCounts::of_total(r.0@.len() as int, regular_bytes(file_views(files@))),
        r.1.progress_message@ == Seq::<char>::empty(),
{
    let ghost views = file_views(files@);
    let mut items: Vec<UploadWorkItem> = Vec::new();
    let mut total_bytes: u64 = 0;
    let mut i: usize = 0;
    assert(views.take(0) =~= Seq::empty());
    assert(item_views(items@) =~= Seq::empty());
    while i < files.len()
        invariant
            i <= files.len(),
            views == file_views(files@),
            regular_bytes(views) <= u64::MAX,
            item_views(items@) == work_items(views.take(i as int), chunk_size),
            total_bytes == regular_bytes(views.take(i as int)),
        decreases files.len() - i,
    {
        assert(views.take(i + 1).drop_last() =~= views.take(i as int));
        proof {
            regular_bytes_grow(views, i + 1);
        }
        let file = &files[i];
        if file.is_regular() {
            let file_size: u64 = file.size_or_zero();
            total_bytes = total_bytes + file_size;
            let use_chunks: bool = chunk_size > 0 && chunk_size != WHOLE_FILE_CHUNK_SIZE
                && file_size as i64 > chunk_size;
            let item = UploadWorkItem {
                index: i,
                path: file.path.clone(),
                mtime: file.mtime_or_zero(),
                use_chunks,
                file_size,
            };
            let ghost before = items@;
            let ghost view = item@;
            items.push(item);
            assert(item_views(items@) =~= item_views(before).push(view));
        }
        i += 1;
    }
    assert(views.take(views.len() as int) =~= views);
    let stats = UploadStatistics {
        total_files: items.len(),
        total_bytes,
        hashed_files: 0,
        hashed_bytes: 0,
        uploaded_files: 0,
        uploaded_bytes: 0,
        skipped_files: 0,
        skipped_bytes: 0,
        progress_message: String::new(),
    };
    (items, stats)
}

/// Every item of the work stands for a regular file of the manifest, and every regular file
/// for exactly one item.
pub proof fn work_covers_regular_files(files: Seq<FileView>, chunk_size: i64)
    ensures
        forall|k: int|
            0 <= k < work_items(files, chunk_size).len() ==> {
                let item = #[trigger] work_items(files, chunk_size)[k];
                &&& 0 <= item.index < files.len()
                &&& files[item.index].is_regular()
                &&& item == work_item(files[item.index], item.index, chunk_size)
            },
        forall|a: int, b: int|
            0 <= a < b < work_items(files, chunk_size).len() ==> (#[trigger] work_items(
                files,
                chunk_size,
            )[a]).index < (#[trigger] work_items(files, chunk_size)[b]).index,
        forall|i: int|
            0 <= i < files.len() && (#[trigger] files[i]).is_regular() ==> work_items(
                files,
                chunk_size,
            ).contains(work_item(files[i], i, chunk_size)),
    decreases files.len(),
{
    if files.len() > 0 {
        let front = files.drop_last();
        let n = files.len() - 1;
        let before = work_items(front, chunk_size);
        let all = work_items(files, chunk_size);
        work_covers_regular_files(front, chunk_size);
        assert forall|k: int| 0 <= k < all.len() implies {
            let item = #[trigger] all[k];
            &&& 0 <= item.index < files.len()
            &&& files[item.index].is_regular()
            &&& item == work_item(files[item.index], item.index, chunk_size)
        } by {
            if k < before.len() {
                assert(all[k] == before[k]);
                assert(front[before[k].index] == files[before[k].index]);
            }
        }
        assert forall|a: int, b: int| 0 <= a < b < all.len() implies (#[trigger] all[a]).index < (
        #[trigger] all[b]).index by {
            assert(all[a] == before[a]);
            if b < before.len() {
                assert(all[b] == before[b]);
            }
        }
        assert forall|i: int|
            0 <= i < files.len() && (#[trigger] files[i]).is_regular() implies all.contains(
            work_item(files[i], i, chunk_size),
        ) by {
            if i < n {
                assert(front[i] == files[i]);
                let k = choose|k: int|
                    0 <= k < before.len() && before[k] == work_item(files[i], i, chunk_size);
                assert(all[k] == before[k]);
            } else {
                assert(all[before.len() as int] == work_item(files[i], i, chunk_size));
            }
        }
    }
}

/// How a file is hashed and uploaded.
#[derive(Debug, Clone, Copy, PartialEq, Eq, Structural)]
pub enum UploadStrategy {
    /// Chunk by chunk.
    Chunked,
    /// As a whole, in several parts.
    Multipart,
    /// As a whole, at once.
    Whole,
}

/// How a file is hashed and uploaded: in parts from twice the part size on, where the data
/// cache can do that.
pub open spec fn strategy(
    use_chunks: bool,
    file_size: u64,
    part_size: u64,
    multipart: bool,
) -> UploadStrategy {
    if use_chunks {
        UploadStrategy::Chunked
    } else if file_size >= 2 * part_size && multipart {
        UploadStrategy::Multipart
    } else {
        UploadStrategy::Whole
    }
}

/// Choose how a file is hashed and uploaded.
pub fn choose_strategy(
    item: &UploadWorkItem,
    part_size: u64,
    multipart: bool,
) -> (r: UploadStrategy)
    ensures
        r == strategy(item.use_chunks, item.file_size, part_size, multipart),
{
    if item.use_chunks {
        UploadStrategy::Chunked
    } else if item.file_size / 2 >= part_size && multipart {
        UploadStrategy::Multipart
    } else {
        UploadStrategy::Whole
    }
}

/// What came of one file.
#[derive(Debug)]
pub enum FileResult {
    Whole { hash: String, uploaded: bool, size: u64 },
    Chunked { hashes: Vec<String>, uploaded: bool, hashed_bytes: u64 },
    /// The hashes were remembered and all objects exist.
    Skipped { size: u64, whole_hash: Option<String>, chunk_hashes: Option<Vec<String>> },
}

/// What a contract reads of what came of a file.
pub enum ResultView {
    Whole { hash: Seq<char>, uploaded: bool, size: u64 },
    Chunked { hashes: Seq<Seq<char>>, uploaded: bool, hashed_bytes: u64 },
    Skipped {
        size: u64,
        whole_hash: Option<Seq<char>>,
        chunk_hashes: Option<Seq<Seq<char>>>,
    },
}

/// The texts of a list that may be missing.
pub open spec fn opt_texts(t: Option<Vec<String>>) -> Option<Seq<Seq<char>>> {
    match t {
        Some(v) => Some(texts(v@)),
        None => None,
    }
}

impl View for FileResult {
    type V = ResultView;

    open spec fn view(&self) -> ResultView {
        match self {
            FileResult::Whole { hash, uploaded, size } => ResultView::Whole {
                hash: hash@,
                uploaded: *uploaded,
                size: *size,
            },
            FileResult::Chunked { hashes, uploaded, hashed_bytes } => ResultView::Chunked {
                hashes: texts(hashes@),
                uploaded: *uploaded,
                hashed_bytes: *hashed_bytes,
            },
            FileResult::Skipped { size, whole_hash, chunk_hashes } => ResultView::Skipped {
                size: *size,
                whole_hash: opt_text(*whole_hash),
                chunk_hashes: opt_texts(*chunk_hashes),
            },
        }
    }
}

/// Remembered hashes that would spare a file from being hashed.
#[derive(Debug)]
pub enum CachedHashes {
    Whole(String),
    Chunks(Vec<String>),
}

/// What a contract reads of remembered hashes.
pub enum CachedView {
    Whole(Seq<char>),
    Chunks(Seq<Seq<char>>),
}

impl View for CachedHashes {
    type V = CachedView;

    open spec fn view(&self) -> CachedView {
        match self {
            CachedHashes::Whole(h) => CachedView::Whole(h@),
            CachedHashes::Chunks(v) => CachedView::Chunks(texts(v@)),
        }
    }
}

/// The view of hashes that may not be remembered.
pub open spec fn opt_cached(c: Option<CachedHashes>) -> Option<CachedView> {
    match c {
        Some(c) => Some(c@),
        None => None,
    }
}

/// What the whole of a file is remembered by.
pub open spec fn whole_key(path: Seq<char>, alg: Seq<char>) -> CacheKey {
    CacheKey { path, alg, start: 0, end: WHOLE_FILE_RANGE_END }
}

/// Whether every chunk of a file has a remembered hash that still holds.
pub open spec fn all_chunks_fresh(
    m: Map<CacheKey, CacheEntry>,
    item: ItemView,
    alg: Seq<char>,
    chunk_size: i64,
) -> bool {
    item.file_size > 0 && forall|k: int|
        0 <= k < chunk_count(chunk_size as u64, item.file_size) ==> #[trigger] fresh_chunk(
            m,
            item.path,
            alg,
            chunk_size as u64,
            item.file_size,
            item.mtime,
            k,
        ) is Some
}

/// The remembered hashes of a file: of its chunks, where it is split and each of them has one
/// that still holds, or of the whole. There are none where hashing is forced.
pub open spec fn remembered(
    cache: Option<Map<CacheKey, CacheEntry>>,
    force_rehash: bool,
    item: ItemView,
    alg: Seq<char>,
    chunk_size: i64,
) -> Option<CachedView> {
    if force_rehash || cache is None {
        None
    } else if item.use_chunks {
        if all_chunks_fresh(cache->0, item, alg, chunk_size) {
            Some(
                CachedView::Chunks(
                    Seq::new(
                        chunk_count(chunk_size as u64, item.file_size) as nat,
                        |k: int|
                            fresh_chunk(
                                cache->0,
                                item.path,
                                alg,
                                chunk_size as u64,
                                item.file_size,
                                item.mtime,
                                k,
                            )->0,
                    ),
                ),
            )
        } else {
            None
        }
    } else {
        match fresh_hash(cache->0, whole_key(item.path, alg), item.mtime) {
            Some(h) => Some(CachedView::Whole(h)),
            None => None,
        }
    }
}

/// The remembered hashes of a file. Whether their objects exist remains to be asked.
pub fn remembered_hashes(
    cache: &Option<HashCache>,
    force_rehash: bool,
    item: &UploadWorkItem,
    alg: &str,
    chunk_size: i64,
) -> (r: Option<CachedHashes>)
    requires
        item.use_chunks ==> chunk_size > 0,
    ensures
        opt_cached(r) == remembered(opt_cache(*cache), force_rehash, item@, alg@, chunk_size),
{
    if force_rehash {
        return None;
    }
    match cache {
        Some(c) => {
            if item.use_chunks {
                match cached_chunk_hashes(
                    c,
                    item.path.as_str(),
                    alg,
                    chunk_size as u64,
                    item.file_size,
                    item.mtime,
                ) {
                    Some(v) => {
                        let ghost found = remembered(
                            Some(c@),
                            force_rehash,
                            item@,
                            alg@,
                            chunk_size,
                        );
                        assert(all_chunks_fresh(c@, item@, alg@, chunk_size));
                        assert(texts(v@) =~= found->0->Chunks_0);
                        Some(CachedHashes::Chunks(v))
                    },
                    None => {
                        assert(!all_chunks_fresh(c@, item@, alg@, chunk_size));
                        None
                    },
                }
            } else {
                match c.get_if_fresh(
                    item.path.as_str(),
                    alg,
                    0,
                    WHOLE_FILE_RANGE_END,
                    item.mtime,
                ) {
                    Some(h) => Some(CachedHashes::Whole(h)),
                    None => None,
                }
            }
        },
        None => None,
    }
}

/// Whether the replies say that every wanted object exists. A question that failed counts as
/// a missing object, and so does one that was not asked.
pub fn all_objects_exist(replies: &Vec<Option<bool>>, wanted: usize) -> (r: bool)
    ensures
        r == (replies@.len() >= wanted && forall|i: int|
            0 <= i < wanted ==> #[trigger] replies@[i] == Some(true)),
{
    if replies.len() < wanted {
        return false;
    }
    let mut i: usize = 0;
    while i < wanted
        invariant
            i <= wanted <= replies.len(),
            forall|k: int| 0 <= k < i ==> #[trigger] replies@[k] == Some(true),
        decreases wanted - i,
    {
        let exists: bool = match replies[i] {
            Some(b) => b,
            None => false,
        };
        if !exists {
            assert(replies@[i as int] != Some(true));
            return false;
        }
        i += 1;
    }
    true
}

/// The number of objects that remembered hashes stand for.
pub open spec fn cached_count(c: CachedView) -> int {
    match c {
        CachedView::Whole(_) => 1,
        CachedView::Chunks(v) => v.len() as int,
    }
}

/// What comes of a file whose hashes are remembered: it is skipped where the replies say that
/// all its objects exist.
pub open spec fn skip_result(
    item: ItemView,
    cached: CachedView,
    replies: Seq<Option<bool>>,
) -> Option<ResultView> {
    if replies.len() >= cached_count(cached) && forall|i: int|
        0 <= i < cached_count(cached) ==> #[trigger] replies[i] == Some(true) {
        Some(
            match cached {
                CachedView::Whole(h) => ResultView::Skipped {
                    size: item.file_size,
                    whole_hash: Some(h),
                    chunk_hashes: None,
                },
                CachedView::Chunks(v) => ResultView::Skipped {
                    size: item.file_size,
                    whole_hash: None,
                    chunk_hashes: Some(v),
                },
            },
        )
    } else {
        None
    }
}

/// The view of what may have come of a file.
pub open spec fn opt_result(r: Option<FileResult>) -> Option<ResultView> {
    match r {
        Some(f) => Some(f@),
        None => None,
    }
}

/// Skip a file whose hashes are remembered, if all its objects exist.
pub fn check_cache_skip(
    item: &UploadWorkItem,
    cached: CachedHashes,
    replies: &Vec<Option<bool>>,
) -> (r: Option<FileResult>)
    ensures
        opt_result(r) == skip_result(item@, cached@, replies@),
{
    match cached {
        CachedHashes::Whole(h) => {
            if !all_objects_exist(replies, 1) {
                return None;
            }
            Some(
                FileResult::Skipped {
                    size: item.file_size,
                    whole_hash: Some(h),
                    chunk_hashes: None,
                },
            )
        },
        CachedHashes::Chunks(v) => {
            if !all_objects_exist(replies, v.len()) {
                return None;
            }
            Some(
                FileResult::Skipped {
                    size: item.file_size,
                    whole_hash: None,
                    chunk_hashes: Some(v),
                },
            )
        },
    }
}

/// A file entry with what came of the file.
pub open spec fn applied_file(f: FileView, fr: ResultView) -> FileView {
    match fr {
        ResultView::Whole { hash, .. } => FileView { hash: Some(hash), ..f },
        ResultView::Chunked { hashes, .. } => FileView { chunk_hashes: Some(hashes), ..f },
        ResultView::Skipped { whole_hash, chunk_hashes, .. } => if whole_hash is Some {
            FileView { hash: whole_hash, ..f }
        } else if chunk_hashes is Some {
            FileView { chunk_hashes, ..f }
        } else {
            f
        },
    }
}

/// What is remembered once something has come of a file: new hashes, while those of a skipped
/// file were remembered before.
pub open spec fn applied_cache(
    m: Map<CacheKey, CacheEntry>,
    f: FileView,
    fr: ResultView,
    alg: Seq<char>,
    chunk_size: i64,
) -> Map<CacheKey, CacheEntry> {
    match fr {
        ResultView::Whole { hash, .. } => m.insert(
            whole_key(f.path, alg),
            CacheEntry { hash, mtime: f.mtime_or_zero() },
        ),
        ResultView::Chunked { hashes, .. } => with_chunks(
            m,
            f.path,
            alg,
            chunk_size as u64,
            f.size_or_zero(),
            hashes,
            f.mtime_or_zero(),
        ),
        ResultView::Skipped { .. } => m,
    }
}

/// What a cache that may be missing remembers.
pub open spec fn opt_cache(c: Option<HashCache>) -> Option<Map<CacheKey, CacheEntry>> {
    match c {
        Some(c) => Some(c@),
        None => None,
    }
}

/// What a cache that may be missing remembers once something has come of a file.
pub open spec fn applied_opt_cache(
    c: Option<Map<CacheKey, CacheEntry>>,
    f: FileView,
    fr: ResultView,
    alg: Seq<char>,
    chunk_size: i64,
) -> Option<Map<CacheKey, CacheEntry>> {
    match c {
        Some(m) => Some(applied_cache(m, f, fr, alg, chunk_size)),
        None => None,
    }
}

/// Store what came of a file in its entry, and remember new hashes.
pub fn apply_file_result(
    file: &mut FileEntry,
    fr: FileResult,
    hash_cache: &mut Option<HashCache>,
    alg: &str,
    chunk_size: i64,
)
    ensures
        final(file)@ == applied_file(old(file)@, fr@),
        opt_cache(*final(hash_cache)) == applied_opt_cache(
            opt_cache(*old(hash_cache)),
            old(file)@,
            fr@,
            alg@,
            chunk_size,
        ),
{
    let mtime: u64 = file.mtime_or_zero();
    let file_size: u64 = file.size_or_zero();
    match fr {
        FileResult::Whole { hash, .. } => {
            if let Some(c) = hash_cache {
                c.put(file.path.as_str(), alg, 0, WHOLE_FILE_RANGE_END, hash.as_str(), mtime);
            }
            file.hash = Some(hash);
        },
        FileResult::Chunked { hashes, .. } => {
            if let Some(c) = hash_cache {
                put_chunk_hashes(
                    c,
                    file.path.as_str(),
                    alg,
                    chunk_size as u64,
                    file_size,
                    &hashes,
                    mtime,
                );
            }
            file.chunk_hashes = Some(hashes);
        },
        FileResult::Skipped { whole_hash, chunk_hashes, .. } => {
            if whole_hash.is_some() {
                file.hash = whole_hash;
            } else if chunk_hashes.is_some() {
                file.chunk_hashes = chunk_hashes;
            }
        },
    }
}

/// The hashes that were stored for a file are those remembered when the same file is looked up
/// again: of the whole, or of every chunk where there is one hash for each.
pub proof fn stored_hashes_are_found_again(
    m: Map<CacheKey, CacheEntry>,
    f: FileView,
    index: int,
    fr: ResultView,
    alg: Seq<char>,
    chunk_size: i64,
)
    requires
        fr is Chunked <==> splits(chunk_size, f.size_or_zero()),
        fr matches ResultView::Chunked { hashes, .. } ==> hashes.len() == chunk_count(
            chunk_size as u64,
            f.size_or_zero(),
        ),
    ensures
        fr matches ResultView::Whole { hash, .. } ==> remembered(
            Some(applied_cache(m, f, fr, alg, chunk_size)),
            false,
            work_item(f, index, chunk_size),
            alg,
            chunk_size,
        ) == Some(CachedView::Whole(hash)),
        fr matches ResultView::Chunked { hashes, .. } ==> remembered(
            Some(applied_cache(m, f, fr, alg, chunk_size)),
            false,
            work_item(f, index, chunk_size),
            alg,
            chunk_size,
        ) == Some(CachedView::Chunks(hashes)),
{
    if let ResultView::Chunked { hashes, .. } = fr {
        let after = applied_cache(m, f, fr, alg, chunk_size);
        let item = work_item(f, index, chunk_size);
        assert forall|k: int|
            0 <= k < chunk_count(chunk_size as u64, f.size_or_zero()) implies #[trigger] fresh_chunk(
            after,
            f.path,
            alg,
            chunk_size as u64,
            f.size_or_zero(),
            f.mtime_or_zero(),
            k,
        ) == Some(hashes[k]) by {
            remembered_chunks_are_read_back(
                m,
                f.path,
                alg,
                chunk_size as u64,
                f.size_or_zero(),
                hashes,
                f.mtime_or_zero(),
                k,
            );
        }
        assert(f.size_or_zero() > 0) by {
            assert(0u64 as i64 == 0);
        }
        assert(all_chunks_fresh(after, item, alg, chunk_size));
        assert(remembered(Some(after), false, item, alg, chunk_size)->0->Chunks_0 =~= hashes);
    }
}

/// A file that is uploaded again without a change, while all its objects exist, is skipped,
/// and its entry gets the hashes that it got the first time.
pub proof fn unchanged_file_is_skipped_with_its_hashes(
    m: Map<CacheKey, CacheEntry>,
    f: FileView,
    index: int,
    fr: ResultView,
    alg: Seq<char>,
    chunk_size: i64,
    replies: Seq<Option<bool>>,
)
    requires
        !(fr is Skipped),
        fr is Chunked <==> splits(chunk_size, f.size_or_zero()),
        fr matches ResultView::Chunked { hashes, .. } ==> hashes.len() == chunk_count(
            chunk_size as u64,
            f.size_or_zero(),
        ) && replies.len() >= hashes.len(),
        replies.len() >= 1,
        forall|i: int| 0 <= i < replies.len() ==> #[trigger] replies[i] == Some(true),
    ensures
        ({
            let item = work_item(f, index, chunk_size);
            let cached = remembered(
                Some(applied_cache(m, f, fr, alg, chunk_size)),
                false,
                item,
                alg,
                chunk_size,
            );
            &&& cached is Some
            &&& skip_result(item, cached->0, replies) is Some
            &&& skip_result(item, cached->0, replies)->0 is Skipped
            &&& applied_file(f, skip_result(item, cached->0, replies)->0) == applied_file(f, fr)
        }),
{
    stored_hashes_are_found_again(m, f, index, fr, alg, chunk_size);
}

/// What a contract reads of what a task came to.
pub open spec fn task_view(r: Result<(usize, FileResult), SnapshotError>) -> Result<
    (int, ResultView),
    FailureView,
> {
    match r {
        Ok((i, fr)) => Ok((i as int, fr@)),
        Err(e) => Err(e@),
    }
}

/// What tasks came to.
pub open spec fn task_views(v: Seq<Result<(usize, FileResult), SnapshotError>>) -> Seq<
    Result<(int, ResultView), FailureView>,
> {
    Seq::new(v.len(), |i: int| task_view(v[i]))
}

/// Files and remembered hashes.
pub struct OperationState {
    pub files: Seq<FileView>,
    pub cache: Option<Map<CacheKey, CacheEntry>>,
}

/// Files and remembered hashes after results were applied in order, up to the first failure.
pub open spec fn after_results(
    start: OperationState,
    results: Seq<Result<(int, ResultView), FailureView>>,
    alg: Seq<char>,
    chunk_size: i64,
) -> (OperationState, Option<FailureView>)
    decreases results.len(),
{
    if results.len() == 0 {
        (start, None)
    } else {
        let (state, failure) = after_results(start, results.drop_last(), alg, chunk_size);
        if failure is Some {
            (state, failure)
        } else {
            match results.last() {
                Ok((i, fr)) => (
                    OperationState {
                        files: state.files.update(i, applied_file(state.files[i], fr)),
                        cache: applied_opt_cache(
                            state.cache,
                            state.files[i],
                            fr,
                            alg,
                            chunk_size,
                        ),
                    },
                    None,
                ),
                Err(e) => (state, Some(e)),
            }
        }
    }
}

proof fn failure_stays(
    start: OperationState,
    results: Seq<Result<(int, ResultView), FailureView>>,
    n: int,
    alg: Seq<char>,
    chunk_size: i64,
)
    requires
        0 <= n <= results.len(),
        after_results(start, results.take(n), alg, chunk_size).1 is Some,
    ensures
        after_results(start, results, alg, chunk_size) == after_results(
            start,
            results.take(n),
            alg,
            chunk_size,
        ),
    decreases results.len(),
{
    if n < results.len() {
        assert(results.drop_last().take(n) =~= results.take(n));
        failure_stays(start, results.drop_last(), n, alg, chunk_size);
    } else {
        assert(results.take(n) =~= results);
    }
}

/// Apply what tasks came to, in the order of the work, up to the first failure.
pub fn apply_upload_results(
    files: &mut Vec<FileEntry>,
    results: Vec<Result<(usize, FileResult), SnapshotError>>,
    hash_cache: &mut Option<HashCache>,
    alg: &str,
    chunk_size: i64,
) -> (r: Result<(), SnapshotError>)
    requires
        forall|k: int|
            0 <= k < results@.len() ==> (#[trigger] results@[k] matches Ok(t) ==> t.0
                < old(files)@.len()),
    ensures
        ({
            let (state, failure) = after_results(
                OperationState {
                    files: file_views(old(files)@),
                    cache: opt_cache(*old(hash_cache)),
                },
                task_views(results@),
                alg@,
                chunk_size,
            );
            &&& file_views(final(files)@) == state.files
            &&& opt_cache(*final(hash_cache)) == state.cache
            &&& match failure {
                Some(f) => r matches Err(e) && e@ == f,
                None => r is Ok,
            }
        }),
{
    let ghost start = OperationState {
        files: file_views(files@),
        cache: opt_cache(*hash_cache),
    };
    let ghost all = task_views(results@);
    let ghost given = results@;
    let ghost n = files@.len();
    assert(all.take(0) =~= Seq::empty());
    for result in it: results
        invariant
            it.seq() == given,
            given == results@,
            start == (OperationState {
                files: file_views(old(files)@),
                cache: opt_cache(*old(hash_cache)),
            }),
            all == task_views(given),
            files@.len() == n,
            forall|k: int|
                0 <= k < given.len() ==> (#[trigger] given[k] matches Ok(t) ==> t.0 < n),
            after_results(start, all.take(it.index() as int), alg@, chunk_size).1 is None,
            file_views(files@) == after_results(
                start,
                all.take(it.index() as int),
                alg@,
                chunk_size,
            ).0.files,
            opt_cache(*hash_cache) == after_results(
                start,
                all.take(it.index() as int),
                alg@,
                chunk_size,
            ).0.cache,
    {
        let ghost i = it.index() as int;
        assert(result == given[i]);
        assert(all.take(i + 1).drop_last() =~= all.take(i));
        match result {
            Ok((index, fr)) => {
                let ghost before = files@;
                apply_file_result(&mut files[index], fr, hash_cache, alg, chunk_size);
                assert(file_views(files@) =~= file_views(before).update(
                    index as int,
                    files@[index as int]@,
                ));
            },
            Err(e) => {
                proof {
                    failure_stays(start, all, i + 1, alg@, chunk_size);
                }
                return Err(e);
            },
        }
    }
    assert(all.take(all.len() as int) =~= all);
    Ok(())
}

/// A file whose hashes are remembered is skipped exactly where every one of their objects was
/// asked for and is there, the object of the whole or that of each chunk; and it is then skipped
/// with its size and those hashes. One object that is missing, or whose question failed or was
/// not asked, is enough for the file not to be skipped.
pub proof fn skipped_only_where_every_object_exists(
    item: ItemView,
    cached: CachedView,
    replies: Seq<Option<bool>>,
    i: int,
)
    ensures
        cached is Whole ==> (skip_result(item, cached, replies) is Some <==> replies.len() >= 1
            && replies[0] == Some(true)),
        cached is Chunks ==> (skip_result(item, cached, replies) is Some <==> forall|k: int|
            0 <= k < cached->Chunks_0.len() ==> k < replies.len() && #[trigger] replies[k] == Some(
                true,
            )),
        cached is Chunks && 0 <= i < cached->Chunks_0.len() && (i >= replies.len() || replies[i]
            == Some(false) || replies[i] is None) ==> skip_result(item, cached, replies) is None,
        cached is Whole && skip_result(item, cached, replies) is Some ==> skip_result(
            item,
            cached,
            replies,
        ) == Some(
            ResultView::Skipped {
                size: item.file_size,
                whole_hash: Some(cached->Whole_0),
                chunk_hashes: None,
            },
        ),
        cached is Chunks && skip_result(item, cached, replies) is Some ==> skip_result(
            item,
            cached,
            replies,
        ) == Some(
            ResultView::Skipped {
                size: item.file_size,
                whole_hash: None,
                chunk_hashes: Some(cached->Chunks_0),
            },
        ),
{
    if let CachedView::Chunks(v) = cached {
        if forall|k: int|
            0 <= k < v.len() ==> k < replies.len() && #[trigger] replies[k] == Some(true) {
            if replies.len() < v.len() {
                assert(replies[v.len() - 1] == Some(true));
            }
            assert(forall|k: int| 0 <= k < v.len() ==> #[trigger] replies[k] == Some(true));
        }
    }
}

/// Further replies change nothing, and taking one of the replies away never makes a file
/// skipped.
pub proof fn more_replies_do_not_unskip(
    item: ItemView,
    cached: CachedView,
    replies: Seq<Option<bool>>,
    more: Seq<Option<bool>>,
)
    ensures
        skip_result(item, cached, replies) is Some ==> skip_result(item, cached, replies + more)
            == skip_result(item, cached, replies),
{
}

/// Hashes are remembered for a file only where hashing is not forced and there is a cache. The
/// hash of the whole is that of an entry for the file's path and the algorithm, for the range
/// from 0 to -1, with the file's time of change; and a file that is not split has one wherever
/// there is such an entry.
pub proof fn whole_is_remembered_by_its_entry(
    m: Map<CacheKey, CacheEntry>,
    item: ItemView,
    alg: Seq<char>,
    chunk_size: i64,
)
    ensures
        remembered(None, false, item, alg, chunk_size) is None,
        remembered(None, true, item, alg, chunk_size) is None,
        remembered(Some(m), true, item, alg, chunk_size) is None,
        !item.use_chunks ==> ({
            let key = CacheKey { path: item.path, alg, start: 0, end: -1i64 };
            let found = remembered(Some(m), false, item, alg, chunk_size);
            &&& found is Some <==> m.contains_key(key) && m[key].mtime == item.mtime
            &&& found is Some ==> found == Some(CachedView::Whole(m[key].hash))
        }),
{
}

/// The hashes of the chunks of a file that is split are remembered only where every chunk has
/// an entry for its own range with the file's time of change, and they are the hashes of those
/// entries in the order of the chunks. An empty file has no chunks to remember.
pub proof fn chunks_are_remembered_by_their_entries(
    m: Map<CacheKey, CacheEntry>,
    item: ItemView,
    alg: Seq<char>,
    chunk_size: i64,
    k: int,
)
    requires
        item.use_chunks,
        chunk_size > 0,
        item.file_size <= i64::MAX,
        remembered(Some(m), false, item, alg, chunk_size) is Some,
    ensures
        ({
            let found = remembered(Some(m), false, item, alg, chunk_size)->0;
            let size = item.file_size as int;
            &&& item.file_size > 0
            &&& found is Chunks
            &&& size <= found->Chunks_0.len() * chunk_size < size + chunk_size
            &&& 0 <= k < found->Chunks_0.len() ==> ({
                let end = if (k + 1) * chunk_size < size {
                    (k + 1) * chunk_size
                } else {
                    size
                };
                let key = CacheKey {
                    path: item.path,
                    alg,
                    start: (k * chunk_size) as i64,
                    end: end as i64,
                };
                &&& m.contains_key(key)
                &&& m[key].mtime == item.mtime
                &&& m[key].hash == found->Chunks_0[k]
            })
        }),
{
    let n = chunk_count(chunk_size as u64, item.file_size);
    chunk_count_facts(chunk_size as u64, item.file_size, 0);
    no_chunk_too_many(chunk_size as u64, item.file_size);
    let found = remembered(Some(m), false, item, alg, chunk_size)->0;
    if 0 <= k < found->Chunks_0.len() {
        chunks_cover_the_file(item.path, alg, chunk_size as u64, item.file_size, k);
        chunk_count_facts(chunk_size as u64, item.file_size, k + 1);
        assert(fresh_chunk(
            m,
            item.path,
            alg,
            chunk_size as u64,
            item.file_size,
            item.mtime,
            k,
        ) is Some);
        let key = chunk_key(item.path, alg, chunk_size as u64, item.file_size, k);
        assert((k + 1) * chunk_size == (k + 1) * (chunk_size as u64)) by (nonlinear_arith)
            requires
                chunk_size > 0,
                chunk_size == chunk_size as u64,
        ;
    }
}

/// A file that is split and has a fresh entry for each of its chunks is remembered.
pub proof fn entries_of_all_chunks_are_enough(
    m: Map<CacheKey, CacheEntry>,
    item: ItemView,
    alg: Seq<char>,
    chunk_size: i64,
)
    requires
        item.use_chunks,
        item.file_size > 0,
        chunk_size > 0,
        forall|k: int|
            #![trigger chunk_key(item.path, alg, chunk_size as u64, item.file_size, k)]
            0 <= k < chunk_count(chunk_size as u64, item.file_size) ==> ({
                let key = chunk_key(item.path, alg, chunk_size as u64, item.file_size, k);
                m.contains_key(key) && m[key].mtime == item.mtime
            }),
    ensures
        remembered(Some(m), false, item, alg, chunk_size) is Some,
{
    assert forall|k: int|
        0 <= k < chunk_count(chunk_size as u64, item.file_size) implies #[trigger] fresh_chunk(
        m,
        item.path,
        alg,
        chunk_size as u64,
        item.file_size,
        item.mtime,
        k,
    ) is Some by {
        let key = chunk_key(item.path, alg, chunk_size as u64, item.file_size, k);
        assert(m.contains_key(key));
    }
}

/// The work that a file makes holds its own path, size and time of change, where they are not
/// given 0. A file is split where it is larger than one chunk; a chunk size that is not positive
/// splits none.
pub proof fn work_describes_the_file(f: FileView, index: int, chunk_size: i64)
    ensures
        ({
            let item = work_item(f, index, chunk_size);
            &&& item.index == index
            &&& item.path == f.path
            &&& f.size is Some ==> f.size == Some(item.file_size)
            &&& f.size is None ==> item.file_size == 0
            &&& f.mtime is Some ==> f.mtime == Some(item.mtime)
            &&& f.mtime is None ==> item.mtime == 0
            &&& chunk_size <= 0 ==> !item.use_chunks
            &&& item.file_size <= i64::MAX && chunk_size > 0 ==> (item.use_chunks
                <==> item.file_size > chunk_size)
            &&& item.file_size > i64::MAX ==> !item.use_chunks
        }),
{
    let n = f.size_or_zero();
    assert(n <= 0x7fff_ffff_ffff_ffff ==> n as i64 == n) by (bit_vector);
    assert(n > 0x7fff_ffff_ffff_ffff ==> (n as i64) < 0) by (bit_vector);
}

/// The bytes of two lists of files add up, and a single file counts with its size where it is
/// neither deleted nor a link.
pub proof fn bytes_add_up(a: Seq<FileView>, b: Seq<FileView>, f: FileView)
    ensures
        regular_bytes(Seq::empty()) == 0,
        regular_bytes(seq![f]) == if f.deleted || f.symlink_target is Some || f.size is None {
            0
        } else {
            f.size->0 as int
        },
        regular_bytes(a + b) == regular_bytes(a) + regular_bytes(b),
    decreases b.len(),
{
    assert(seq![f].drop_last() =~= Seq::empty());
    assert(regular_bytes(seq![f].drop_last()) == 0);
    if b.len() == 0 {
        assert(a + b =~= a);
    } else {
        assert((a + b).drop_last() =~= a + b.drop_last());
        bytes_add_up(a, b.drop_last(), f);
    }
}

/// A file that is split is uploaded chunk by chunk, and only such a one. Of the others those go
/// in parts that have at least twice the size of a part, where that can be done; with a larger
/// file or a smaller part a file that goes in parts still does.
pub proof fn larger_files_go_in_parts(size: u64, larger: u64, part: u64, smaller: u64, m: bool)
    ensures
        strategy(true, size, part, m) is Chunked,
        !(strategy(false, size, part, m) is Chunked),
        strategy(false, size, part, false) is Whole,
        strategy(false, size, part, true) is Multipart <==> size - part >= part,
        size <= larger && smaller <= part && strategy(false, size, part, m) is Multipart
            ==> strategy(false, larger, smaller, m) is Multipart,
{
}

/// What comes of a file is stored in its entry as its hash, or as the hashes of its chunks;
/// nothing else of the entry changes.
pub proof fn only_hashes_of_an_entry_change(f: FileView, fr: ResultView)
    ensures
        ({
            let g = applied_file(f, fr);
            &&& g.path == f.path
            &&& g.size == f.size
            &&& g.mtime == f.mtime
            &&& g.symlink_target == f.symlink_target
            &&& g.deleted == f.deleted
            &&& fr is Whole ==> g.hash == Some(fr->Whole_hash) && g.chunk_hashes == f.chunk_hashes
            &&& fr is Chunked ==> g.chunk_hashes == Some(fr->hashes) && g.hash == f.hash
            &&& fr is Skipped && fr->whole_hash is Some ==> g.hash == fr->whole_hash
                && g.chunk_hashes == f.chunk_hashes
            &&& fr is Skipped && fr->whole_hash is None && fr->chunk_hashes is Some
                ==> g.chunk_hashes == fr->chunk_hashes && g.hash == f.hash
            &&& fr is Skipped && fr->whole_hash is None && fr->chunk_hashes is None ==> g == f
        }),
{
}

/// Only what is remembered of the file itself, by the algorithm, changes with what comes of it;
/// a file that was skipped changes nothing, and a hash of the whole is remembered with the time
/// of change in the entry.
pub proof fn only_the_file_is_remembered_anew(
    m: Map<CacheKey, CacheEntry>,
    f: FileView,
    fr: ResultView,
    alg: Seq<char>,
    chunk_size: i64,
    key: CacheKey,
)
    ensures
        ({
            let after = applied_cache(m, f, fr, alg, chunk_size);
            let whole = CacheKey { path: f.path, alg, start: 0, end: -1i64 };
            &&& fr is Skipped ==> after == m
            &&& key.path != f.path || key.alg != alg ==> (after.contains_key(key)
                <==> m.contains_key(key)) && (m.contains_key(key) ==> after[key] == m[key])
            &&& fr is Whole ==> after.contains_key(whole) && after[whole].hash == fr->Whole_hash && (
            f.mtime is Some ==> after[whole].mtime == f.mtime->0) && (f.mtime is None
                ==> after[whole].mtime == 0)
            &&& fr is Whole && key != whole ==> (after.contains_key(key) <==> m.contains_key(key))
                && (m.contains_key(key) ==> after[key] == m[key])
            &&& applied_opt_cache(Some(m), f, fr, alg, chunk_size) == Some(after)
            &&& applied_opt_cache(None, f, fr, alg, chunk_size) is None
        }),
{
    if let ResultView::Chunked { hashes, .. } = fr {
        if key.path != f.path || key.alg != alg {
            chunks_leave_other_files(
                m,
                f.path,
                alg,
                chunk_size as u64,
                f.size_or_zero(),
                hashes,
                f.mtime_or_zero(),
                key,
            );
        }
    }
}

/// Results are applied one behind the other: those of two pieces as the second piece on what
/// the first left, unless a task of the first failed, which ends it. A single failure is
/// reported and changes nothing; a single result changes the entry of its file, and no other.
pub proof fn results_are_applied_in_turn(
    start: OperationState,
    a: Seq<Result<(int, ResultView), FailureView>>,
    b: Seq<Result<(int, ResultView), FailureView>>,
    alg: Seq<char>,
    chunk_size: i64,
)
    ensures
        after_results(start, Seq::empty(), alg, chunk_size) == (start, None::<FailureView>),
        after_results(start, a, alg, chunk_size).1 is Some ==> after_results(
            start,
            a + b,
            alg,
            chunk_size,
        ) == after_results(start, a, alg, chunk_size),
        after_results(start, a, alg, chunk_size).1 is None ==> after_results(
            start,
            a + b,
            alg,
            chunk_size,
        ) == after_results(after_results(start, a, alg, chunk_size).0, b, alg, chunk_size),
    decreases b.len(),
{
    if b.len() == 0 {
        assert(a + b =~= a);
    } else {
        assert((a + b).drop_last() =~= a + b.drop_last());
        results_are_applied_in_turn(start, a, b.drop_last(), alg, chunk_size);
    }
}

/// What a single task changes.
pub proof fn single_result_changes_its_file(
    start: OperationState,
    i: int,
    fr: ResultView,
    f: FailureView,
    j: int,
    alg: Seq<char>,
    chunk_size: i64,
)
    requires
        0 <= i < start.files.len(),
    ensures
        after_results(start, seq![Err(f)], alg, chunk_size) == (start, Some(f)),
        ({
            let (state, failure) = after_results(start, seq![Ok((i, fr))], alg, chunk_size);
            &&& failure is None
            &&& state.files.len() == start.files.len()
            &&& 0 <= j < start.files.len() && j != i ==> state.files[j] == start.files[j]
            &&& state.files[i] == applied_file(start.files[i], fr)
            &&& state.cache == applied_opt_cache(start.cache, start.files[i], fr, alg, chunk_size)
        }),
{
    let good: Seq<Result<(int, ResultView), FailureView>> = seq![Ok((i, fr))];
    let bad: Seq<Result<(int, ResultView), FailureView>> = seq![Err(f)];
    assert(good.drop_last() =~= Seq::empty());
    assert(bad.drop_last() =~= Seq::empty());
    assert(after_results(start, good.drop_last(), alg, chunk_size) == (
        start,
        None::<FailureView>,
    ));
}

/// The failure that is reported is that of the first task that failed; where none failed, none
/// is.
pub proof fn first_failure_is_reported(
    start: OperationState,
    results: Seq<Result<(int, ResultView), FailureView>>,
    k: int,
    alg: Seq<char>,
    chunk_size: i64,
)
    ensures
        after_results(start, results, alg, chunk_size).1 is None <==> forall|i: int|
            0 <= i < results.len() ==> #[trigger] results[i] is Ok,
        0 <= k < results.len() && results[k] is Err && (forall|i: int|
            0 <= i < k ==> #[trigger] results[i] is Ok) ==> after_results(
            start,
            results,
            alg,
            chunk_size,
        ).1 == Some(results[k]->Err_0),
    decreases results.len(),
{
    if results.len() > 0 {
        let front = results.drop_last();
        let n = results.len() - 1;
        first_failure_is_reported(start, front, k, alg, chunk_size);
        assert forall|i: int| 0 <= i < n implies #[trigger] front[i] == results[i] by {}
        if after_results(start, results, alg, chunk_size).1 is None {
            assert forall|i: int| 0 <= i < results.len() implies #[trigger] results[i] is Ok by {
                if i < n {
                    assert(front[i] is Ok);
                }
            }
        }
        if forall|i: int| 0 <= i < results.len() ==> #[trigger] results[i] is Ok {
            assert forall|i: int| 0 <= i < n implies #[trigger] front[i] is Ok by {
                assert(results[i] is Ok);
            }
            assert(results[n] is Ok);
        }
        if 0 <= k < results.len() && results[k] is Err && (forall|i: int|
            0 <= i < k ==> #[trigger] results[i] is Ok) {
            assert forall|i: int| 0 <= i < k && i < n implies #[trigger] front[i] is Ok by {
                assert(results[i] is Ok);
            }
            if k < n {
                assert(front[k] == results[k]);
            }
        }
    }
}

/// At the beginning only the totals are there; and numbers can be held exactly where none is
/// negative and each is no larger than what holds it.
pub proof fn counting_begins_with_the_totals(files: int, bytes: int, c: UploadCounts)
    ensures
        ({
            let s = UploadCounts::of_total(files, bytes);
            &&& s.total_files == files && s.total_bytes == bytes
            &&& s.hashed_files == 0 && s.hashed_bytes == 0
            &&& s.uploaded_files == 0 && s.uploaded_bytes == 0
            &&& s.skipped_files == 0 && s.skipped_bytes == 0
        }),
        c.fits() <==> (0 <= c.total_files <= usize::MAX && 0 <= c.hashed_files <= usize::MAX && 0
            <= c.uploaded_files <= usize::MAX && 0 <= c.skipped_files <= usize::MAX) && (0
            <= c.total_bytes <= u64::MAX && 0 <= c.hashed_bytes <= u64::MAX && 0 <= c.uploaded_bytes
            <= u64::MAX && 0 <= c.skipped_bytes <= u64::MAX),
{
}

} // verus!
