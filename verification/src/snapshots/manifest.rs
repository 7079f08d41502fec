//! Manifests: the files and directories of a snapshot or of a difference between two.

use vstd::prelude::*;

use crate::text::{opt_text, texts};

verus! {

/// The chunk size that stands for files that are not split.
pub const WHOLE_FILE_CHUNK_SIZE: i64 = -1;

/// How contents are hashed.
#[derive(Debug, Clone, Copy, PartialEq, Eq, Structural)]
pub enum HashAlgorithm {
    Xxh128,
}

impl HashAlgorithm {
    /// The name of the algorithm, as object names end with it.
    pub open spec fn spec_extension(self) -> Seq<char> {
        match self {
            HashAlgorithm::Xxh128 => "xxh128"@,
        }
    }

    /// The name of the algorithm, as object names end with it.
    pub fn extension(self) -> (s: &'static str)
        ensures
            s@ == self.spec_extension(),
    {
        match self {
            HashAlgorithm::Xxh128 => "xxh128",
        }
    }
}

/// What becomes of symbolic links.
#[derive(Debug, Clone, Copy, PartialEq, Eq, Structural)]
pub enum SymlinkPolicy {
    /// Links are created as links.
    Preserve,
    /// Links are left out.
    ExcludeAll,
}

/// A file of a manifest: a regular file, a symbolic link, or one that was deleted.
#[derive(Debug)]
pub struct FileEntry {
    pub path: String,
    /// The hash of the whole contents.
    pub hash: Option<String>,
    pub size: Option<u64>,
    /// The time of the last change, in microseconds since 1970.
    pub mtime: Option<u64>,
    /// The hashes of the chunks that the contents are split into.
    pub chunk_hashes: Option<Vec<String>>,
    pub symlink_target: Option<String>,
    pub deleted: bool,
}

/// What a contract reads of a file entry.
pub struct FileView {
    pub path: Seq<char>,
    pub hash: Option<Seq<char>>,
    pub size: Option<u64>,
    pub mtime: Option<u64>,
    pub chunk_hashes: Option<Seq<Seq<char>>>,
    pub symlink_target: Option<Seq<char>>,
    pub deleted: bool,
}

impl View for FileEntry {
    type V = FileView;

    open spec fn view(&self) -> FileView {
        FileView {
            path: self.path@,
            hash: opt_text(self.hash),
            size: self.size,
            mtime: self.mtime,
            chunk_hashes: match self.chunk_hashes {
                Some(v) => Some(texts(v@)),
                None => None,
            },
            symlink_target: opt_text(self.symlink_target),
            deleted: self.deleted,
        }
    }
}

/// The views of file entries.
pub open spec fn file_views(files: Seq<FileEntry>) -> Seq<FileView> {
    Seq::new(files.len(), |i: int| files[i]@)
}

impl FileView {
    /// Whether the entry is a file with contents: neither a link nor deleted.
    pub open spec fn is_regular(self) -> bool {
        self.symlink_target is None && !self.deleted
    }

    /// Whether the entry is a link that is not deleted.
    pub open spec fn is_symlink(self) -> bool {
        self.symlink_target is Some && !self.deleted
    }

    /// The size, where it is not given 0.
    pub open spec fn size_or_zero(self) -> u64 {
        match self.size {
            Some(n) => n,
            None => 0,
        }
    }

    /// The time of the last change, where it is not given 0.
    pub open spec fn mtime_or_zero(self) -> u64 {
        match self.mtime {
            Some(n) => n,
            None => 0,
        }
    }
}

impl FileEntry {
    /// A regular file without hashes.
    pub fn file(path: String, size: u64, mtime: u64) -> (r: FileEntry)
        ensures
            r@ == (FileView {
                path: path@,
                hash: None,
                size: Some(size),
                mtime: Some(mtime),
                chunk_hashes: None,
                symlink_target: None,
                deleted: false,
            }),
    {
        FileEntry {
            path,
            hash: None,
            size: Some(size),
            mtime: Some(mtime),
            chunk_hashes: None,
            symlink_target: None,
            deleted: false,
        }
    }

    /// A symbolic link.
    pub fn symlink(path: String, target: String) -> (r: FileEntry)
        ensures
            r@ == (FileView {
                path: path@,
                hash: None,
                size: None,
                mtime: None,
                chunk_hashes: None,
                symlink_target: Some(target@),
                deleted: false,
            }),
    {
        FileEntry {
            path,
            hash: None,
            size: None,
            mtime: None,
            chunk_hashes: None,
            symlink_target: Some(target),
            deleted: false,
        }
    }

    /// A file that was deleted.
    pub fn deleted(path: String) -> (r: FileEntry)
        ensures
            r@ == (FileView {
                path: path@,
                hash: None,
                size: None,
                mtime: None,
                chunk_hashes: None,
                symlink_target: None,
                deleted: true,
            }),
    {
        FileEntry {
            path,
            hash: None,
            size: None,
            mtime: None,
            chunk_hashes: None,
            symlink_target: None,
            deleted: true,
        }
    }

    /// Whether the entry is a file with contents.
    pub fn is_regular(&self) -> (r: bool)
        ensures
            r == self@.is_regular(),
    {
        self.symlink_target.is_none() && !self.deleted
    }

    /// The size, where it is not given 0.
    pub fn size_or_zero(&self) -> (n: u64)
        ensures
            n == self@.size_or_zero(),
    {
        match self.size {
            Some(n) => n,
            None => 0,
        }
    }

    /// The time of the last change, where it is not given 0.
    pub fn mtime_or_zero(&self) -> (n: u64)
        ensures
            n == self@.mtime_or_zero(),
    {
        match self.mtime {
            Some(n) => n,
            None => 0,
        }
    }
}

/// A directory of a manifest.
#[derive(Debug)]
pub struct DirEntry {
    pub path: String,
    pub deleted: bool,
}

impl DirEntry {
    /// A directory that exists.
    pub fn new(path: String) -> (r: DirEntry)
        ensures
            r.path@ == path@,
            !r.deleted,
    {
        DirEntry { path, deleted: false }
    }
}

/// The files and directories of a tree, with absolute paths.
#[derive(Debug)]
pub struct Manifest {
    pub hash_alg: HashAlgorithm,
    /// The size of the chunks that large files are split into; not positive where files are
    /// not split.
    pub file_chunk_size_bytes: i64,
    pub files: Vec<FileEntry>,
    pub dirs: Vec<DirEntry>,
}

/// A manifest of a tree, or of the difference between two.
#[derive(Debug)]
pub enum AbsManifest {
    Snapshot(Manifest),
    Diff(Manifest),
}

impl AbsManifest {
    /// The manifest itself.
    pub open spec fn spec_manifest(self) -> Manifest {
        match self {
            AbsManifest::Snapshot(m) => m,
            AbsManifest::Diff(m) => m,
        }
    }

    /// The manifest itself.
    pub fn manifest(&self) -> (m: &Manifest)
        ensures
            *m == self.spec_manifest(),
    {
        match self {
            AbsManifest::Snapshot(m) => m,
            AbsManifest::Diff(m) => m,
        }
    }

    /// What an operation made of the manifest: a snapshot stays one, and so does a difference.
    pub fn replaced(&self, manifest: Manifest) -> (r: AbsManifest)
        ensures
            r.spec_manifest() == manifest,
            r is Snapshot <==> self is Snapshot,
    {
        match self {
            AbsManifest::Snapshot(_) => AbsManifest::Snapshot(manifest),
            AbsManifest::Diff(_) => AbsManifest::Diff(manifest),
        }
    }
}

/// Why an operation on snapshots failed.
#[derive(Debug, PartialEq, Eq)]
pub enum SnapshotError {
    /// The manifest cannot be worked on.
    Validation(String),
    /// Reading, writing or transferring failed.
    Io(String),
    /// A task did not finish.
    Task(String),
    /// The operation was cancelled.
    Cancelled,
}

/// What a contract reads of an error.
pub enum FailureView {
    Validation(Seq<char>),
    Io(Seq<char>),
    Task(Seq<char>),
    Cancelled,
}

impl View for SnapshotError {
    type V = FailureView;

    open spec fn view(&self) -> FailureView {
        match self {
            SnapshotError::Validation(m) => FailureView::Validation(m@),
            SnapshotError::Io(m) => FailureView::Io(m@),
            SnapshotError::Task(m) => FailureView::Task(m@),
            SnapshotError::Cancelled => FailureView::Cancelled,
        }
    }
}

/// Whether a regular file already carries hashes.
pub open spec fn is_hashed(f: FileView) -> bool {
    f.is_regular() && (f.hash is Some || f.chunk_hashes is Some)
}

/// Whether `i` is the first regular file that already carries hashes.
pub open spec fn first_hashed(files: Seq<FileView>, i: int) -> bool {
    &&& 0 <= i < files.len()
    &&& is_hashed(files[i])
    &&& forall|k: int| 0 <= k < i ==> !is_hashed(#[trigger] files[k])
}

/// Reject manifests whose regular files already carry a whole-file hash or chunk hashes.
pub fn validate_files_not_hashed(files: &Vec<FileEntry>) -> (r: Result<(), SnapshotError>)
    ensures
        r is Ok <==> forall|i: int|
            0 <= i < files@.len() ==> !is_hashed(#[trigger] file_views(files@)[i]),
        r matches Err(e) ==> exists|i: int|
            #[trigger] first_hashed(file_views(files@), i) && e@ == FailureView::Validation(
                "file already has hashes set, cannot re-hash: "@ + files@[i].path@,
            ),
{
    let ghost views = file_views(files@);
    let mut i: usize = 0;
    while i < files.len()
        invariant
            i <= files.len(),
            views == file_views(files@),
            forall|k: int| 0 <= k < i ==> !is_hashed(#[trigger] views[k]),
        decreases files.len() - i,
    {
        let file = &files[i];
        if file.is_regular() && (file.hash.is_some() || file.chunk_hashes.is_some()) {
            assert(is_hashed(views[i as int]));
            assert(first_hashed(views, i as int));
            let mut m = "file already has hashes set, cannot re-hash: ".to_owned();
            m.append(file.path.as_str());
            return Err(SnapshotError::Validation(m));
        }
        i += 1;
    }
    Ok(())
}

/// Every entry is exactly one of deleted, a link and a file with contents, and a link is what
/// has a target. A size or a time that is not given counts as 0.
pub proof fn entries_are_of_one_sort(f: FileView)
    ensures
        f.deleted ==> !f.is_regular() && !f.is_symlink(),
        !f.deleted && f.symlink_target is Some ==> f.is_symlink() && !f.is_regular(),
        !f.deleted && f.symlink_target is None ==> f.is_regular() && !f.is_symlink(),
        f.size is Some ==> f.size == Some(f.size_or_zero()),
        f.size is None ==> f.size_or_zero() == 0,
        f.mtime is Some ==> f.mtime == Some(f.mtime_or_zero()),
        f.mtime is None ==> f.mtime_or_zero() == 0,
{
}

/// A file with contents carries hashes where it has a hash or hashes of its chunks; deleted
/// files and links never do.
pub proof fn only_files_carry_hashes(f: FileView)
    ensures
        is_hashed(f) ==> !f.deleted && f.symlink_target is None,
        !f.deleted && f.symlink_target is None ==> (is_hashed(f) <==> !(f.hash is None
            && f.chunk_hashes is None)),
{
}

/// The first file that carries hashes carries some, and no file before it does; there is only
/// one such place.
pub proof fn first_hashed_file_is_the_first(files: Seq<FileView>, i: int, j: int)
    ensures
        first_hashed(files, i) ==> 0 <= i < files.len() && is_hashed(files[i]),
        first_hashed(files, i) && 0 <= j < i ==> !is_hashed(files[j]),
        first_hashed(files, i) && first_hashed(files, j) ==> i == j,
        files.len() > 0 && is_hashed(files[0]) ==> first_hashed(files, 0),
{
    if first_hashed(files, i) && first_hashed(files, j) {
        if i < j {
            assert(!is_hashed(files[i]));
        } else if j < i {
            assert(!is_hashed(files[j]));
        }
    }
}

/// A snapshot and a difference hold the manifest that they were made of.
pub proof fn manifests_are_held_as_they_are(m: Manifest)
    ensures
        AbsManifest::Snapshot(m).spec_manifest() == m,
        AbsManifest::Diff(m).spec_manifest() == m,
{
}

} // verus!
