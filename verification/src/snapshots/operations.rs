//! Whole operations: what they begin with.

use vstd::prelude::*;

use crate::snapshots::download::{
    apply_skipped_mtimes, creates_symlinks, download_items, needed, with_skipped_mtimes,
    DownloadOptions, DownloadWorkItem, SkipEvaluation,
};
use crate::snapshots::layout::{
    build_download_work_list, delete_plan, deleted_files, dir_paths, step_views, steps_through,
    visits, DeletePlan, DownloadStep,
};
use crate::snapshots::manifest::{
    file_views, first_hashed, is_hashed, validate_files_not_hashed, FailureView, FileEntry,
    FileView, Manifest, SnapshotError, SymlinkPolicy,
};
use crate::snapshots::symlinks::{as_ints, creation_order, symlink_creation_order};
use crate::snapshots::upload::{
    build_upload_work_list, item_views, regular_bytes, work_items, worker_count, DEFAULT_WORKERS,
    HashUploadOptions, UploadCounts, UploadStatistics, UploadWorkItem,
};
use crate::text::{sorted_texts, texts};

verus! {

/// Whether no regular file carries hashes.
pub open spec fn none_hashed(files: Seq<FileView>) -> bool {
    forall|i: int| 0 <= i < files.len() ==> !is_hashed(#[trigger] files[i])
}

/// The chunk size that counts for an upload.
pub open spec fn upload_chunk_size(options: HashUploadOptions, manifest: Manifest) -> i64 {
    match options.file_chunk_size_bytes {
        Some(n) => n,
        None => manifest.file_chunk_size_bytes,
    }
}

/// What an upload begins with.
#[derive(Debug)]
pub struct UploadStart {
    pub chunk_size: i64,
    /// The files to work on. Where there are none, the upload is over.
    pub work: Vec<UploadWorkItem>,
    pub stats: UploadStatistics,
    pub workers: usize,
}

/// Begin an upload: refuse files that carry hashes, and list the work.
pub fn begin_upload(
    manifest: &Manifest,
    options: &HashUploadOptions,
) -> (r: Result<UploadStart, SnapshotError>)
    requires
        none_hashed(file_views(manifest.files@)) ==> regular_bytes(file_views(manifest.files@))
            <= u64::MAX,
    ensures
        r is Ok <==> none_hashed(file_views(manifest.files@)),
        r matches Ok(s) ==> {
            let files = file_views(manifest.files@);
            &&& s.chunk_size == upload_chunk_size(*options, *manifest)
            &&& item_views(s.work@) == work_items(files, s.chunk_size)
            &&& s.stats@ == UploadCounts::of_total(s.work@.len() as int, regular_bytes(files))
            &&& s.stats.progress_message@ == Seq::<char>::empty()
            &&& s.workers == match options.max_workers {
                Some(n) => n,
                None => DEFAULT_WORKERS,
            }
        },
        r matches Err(e) ==> exists|i: int|
            #[trigger] first_hashed(file_views(manifest.files@), i) && e@
                == FailureView::Validation(
                "file already has hashes set, cannot re-hash: "@ + manifest.files@[i].path@,
            ),
{
    match validate_files_not_hashed(&manifest.files) {
        Ok(_) => {
            let chunk_size: i64 = options.chunk_size(manifest);
            let (work, stats) = build_upload_work_list(&manifest.files, chunk_size);
            Ok(UploadStart { chunk_size, work, stats, workers: worker_count(options.max_workers) })
        },
        Err(e) => Err(e),
    }
}

/// What a download begins with, in the order in which it is done.
#[derive(Debug)]
pub struct DownloadStart {
    /// What is removed.
    pub deletes: DeletePlan,
    /// The places of the links to create.
    pub links: Vec<usize>,
    /// The directories to create and the files to decide about.
    pub steps: Vec<DownloadStep>,
    pub workers: usize,
}

/// Begin a download: nothing is removed and no link is created unless the options ask for it.
/// `parents` has the parent directory of every file.
pub fn begin_download(
    manifest: &Manifest,
    options: &DownloadOptions,
    parents: &Vec<String>,
) -> (r: DownloadStart)
    requires
        parents@.len() == manifest.files@.len(),
    ensures
        ({
            let files = file_views(manifest.files@);
            &&& texts(r.deletes.files@) == if options.apply_deletes {
                deleted_files(files)
            } else {
                Seq::empty()
            }
            &&& texts(r.deletes.dirs@) == if options.apply_deletes {
                sorted_texts(dir_paths(manifest.dirs@, true)).reverse()
            } else {
                Seq::empty()
            }
            &&& as_ints(r.links@) == if options.symlink_policy == SymlinkPolicy::ExcludeAll {
                Seq::empty()
            } else {
                creation_order(files)
            }
            &&& step_views(r.steps@) == steps_through(
                files,
                texts(parents@),
                visits(files, manifest.dirs@, texts(parents@)),
            )
            &&& r.workers == match options.max_workers {
                Some(n) => n,
                None => DEFAULT_WORKERS,
            }
        }),
{
    let deletes = if options.apply_deletes {
        delete_plan(&manifest.files, &manifest.dirs)
    } else {
        DeletePlan { files: Vec::new(), dirs: Vec::new() }
    };
    let links: Vec<usize> = if creates_symlinks(options.symlink_policy) {
        symlink_creation_order(&manifest.files)
    } else {
        Vec::new()
    };
    let steps = build_download_work_list(&manifest.files, &manifest.dirs, parents);
    proof {
        if !options.apply_deletes {
            assert(texts(deletes.files@) =~= Seq::empty());
            assert(texts(deletes.dirs@) =~= Seq::empty());
        }
        if options.symlink_policy == SymlinkPolicy::ExcludeAll {
            assert(as_ints(links@) =~= Seq::empty());
        }
    }
    DownloadStart { deletes, links, steps, workers: worker_count(options.max_workers) }
}

/// Divide the files into those to download, which are returned, and those skipped, whose
/// entries take over the times of the last change on disk.
pub fn divide_work(
    files: &mut Vec<FileEntry>,
    work: &Vec<SkipEvaluation>,
) -> (r: Vec<DownloadWorkItem>)
    requires
        forall|k: int| 0 <= k < work@.len() ==> (#[trigger] work@[k]).index < old(files)@.len(),
    ensures
        r@ == needed(work@, file_views(old(files)@)),
        file_views(final(files)@) == with_skipped_mtimes(file_views(old(files)@), work@),
{
    let items = download_items(work, files);
    apply_skipped_mtimes(files, work);
    items
}

/// A chunk size that is asked for counts, and else that of the manifest.
pub proof fn asked_chunk_size_counts(options: HashUploadOptions, manifest: Manifest, n: i64)
    ensures
        options.file_chunk_size_bytes == Some(n) ==> upload_chunk_size(options, manifest) == n,
        options.file_chunk_size_bytes is None && manifest.file_chunk_size_bytes == n
            ==> upload_chunk_size(options, manifest) == n,
{
}

/// Files carry no hashes exactly where no file that is neither deleted nor a link has a hash or
/// hashes of chunks.
pub proof fn one_hashed_file_is_enough(files: Seq<FileView>, i: int)
    ensures
        0 <= i < files.len() && !files[i].deleted && files[i].symlink_target is None && (
        files[i].hash is Some || files[i].chunk_hashes is Some) ==> !none_hashed(files),
        !none_hashed(files) ==> exists|k: int|
            0 <= k < files.len() && !(#[trigger] files[k]).deleted && files[k].symlink_target
                is None && (files[k].hash is Some || files[k].chunk_hashes is Some),
{
    if 0 <= i < files.len() && !files[i].deleted && files[i].symlink_target is None && (
    files[i].hash is Some || files[i].chunk_hashes is Some) {
        assert(is_hashed(files[i]));
    }
    if !none_hashed(files) {
        let k = choose|k: int| 0 <= k < files.len() && is_hashed(#[trigger] files[k]);
        assert(!files[k].deleted);
    }
}

} // verus!
