//! Whole uploads and downloads, on a disk and a store that are held in memory.

use std::collections::{BTreeMap, BTreeSet};

use openjd::snapshots::download::{
    apply_download_results, collect_work_item, verify_chunk, verify_whole, ChunkFetch, DiskFacts,
    DownloadOptions, DownloadWorkItem, Downloaded, FetchPlan, FileConflictResolution,
};
use openjd::snapshots::file_download::{fetch_step, DownloadSettings, FetchEvent, FetchPhase};
use openjd::snapshots::file_upload::{file_step, FileEvent, FilePhase, UploadSettings};
use openjd::snapshots::hash_cache::HashCache;
use openjd::snapshots::hashing::{hash_data, object_key};
use openjd::snapshots::layout::DownloadStep;
use openjd::snapshots::manifest::{
    DirEntry, FileEntry, HashAlgorithm, Manifest, SnapshotError, SymlinkPolicy,
};
use openjd::snapshots::names::resolve_target_path;
use openjd::snapshots::operations::{begin_download, begin_upload, divide_work, UploadStart};
use openjd::snapshots::progress::{
    can_count, record_downloaded_file, update_progress, DownloadStatistics,
};
use openjd::snapshots::transfer::{
    chunked_result, hash_chunks, step, upload_parts, SentPart, UploadDedup, UploadEvent,
    UploadPhase,
};
use openjd::snapshots::upload::{
    apply_upload_results, build_upload_work_list, sizes_fit, CachedHashes, FileResult, HashUploadOptions,
    UploadStatistics, UploadStrategy, UploadWorkItem,
};

const ALG: &str = "xxh128";
const DEFAULT_CHUNK: i64 = 256 * 1024 * 1024;

/// A disk, a store of objects, and remembered hashes.
struct World {
    disk: BTreeMap<String, (Vec<u8>, u64)>,
    dirs: BTreeSet<String>,
    links: Vec<(String, String)>,
    objects: BTreeMap<String, Vec<u8>>,
    pending: BTreeMap<i32, Vec<u8>>,
    dedup: UploadDedup,
    cache: Option<HashCache>,
    part_size: u64,
    takes_parts: bool,
    gives_ranges: bool,
    fails_part: Option<i32>,
    clock: u64,
    cancelled: bool,
    watched: usize,
    patience: usize,
}

fn world() -> World {
    World {
        disk: BTreeMap::new(),
        dirs: BTreeSet::new(),
        links: Vec::new(),
        objects: BTreeMap::new(),
        pending: BTreeMap::new(),
        dedup: UploadDedup::new(),
        cache: None,
        part_size: 1 << 20,
        takes_parts: false,
        gives_ranges: false,
        fails_part: None,
        clock: 5000,
        cancelled: false,
        watched: 0,
        patience: usize::MAX,
    }
}

fn parent(path: &str) -> String {
    path.rsplit_once('/').map(|(p, _)| p.to_string()).unwrap_or_default()
}

fn manifest(chunk_size: i64, files: Vec<FileEntry>) -> Manifest {
    Manifest {
        hash_alg: HashAlgorithm::Xxh128,
        file_chunk_size_bytes: chunk_size,
        files,
        dirs: vec![],
    }
}

fn file(path: &str, size: u64, mtime: u64) -> FileEntry {
    FileEntry::file(path.to_string(), size, mtime)
}

impl World {
    fn put_file(&mut self, path: &str, data: &[u8], mtime: u64) {
        self.disk.insert(path.to_string(), (data.to_vec(), mtime));
    }

    fn contents(&self, path: &str) -> Option<&[u8]> {
        self.disk.get(path).map(|(d, _)| d.as_slice())
    }

    fn put_data(&mut self, data: &[u8]) -> String {
        let hash = hash_data(data);
        self.objects.insert(object_key(&hash, ALG), data.to_vec());
        hash
    }

    fn get_data(&self, hash: &str) -> Option<&Vec<u8>> {
        self.objects.get(&object_key(hash, ALG))
    }

    fn store(&mut self, hash: &str, data: &[u8], in_parts: bool) -> Result<bool, SnapshotError> {
        let key = object_key(hash, ALG);
        let mut phase = UploadPhase::Checking;
        loop {
            let event = match phase {
                UploadPhase::Finished { outcome } => return outcome,
                UploadPhase::Checking => {
                    UploadEvent::Exists(Some(self.objects.contains_key(&key)))
                }
                UploadPhase::Claiming => UploadEvent::Claimed(self.dedup.claim(&key)),
                UploadPhase::Waiting => {
                    UploadEvent::OwnerFinished { stored: self.objects.contains_key(&key) }
                }
                UploadPhase::Putting => {
                    self.objects.insert(key.clone(), data.to_vec());
                    UploadEvent::PutDone(Ok(()))
                }
                UploadPhase::Creating => UploadEvent::Created(Ok("upload".to_string())),
                UploadPhase::Sending { .. } => UploadEvent::PartsSent(self.send(data)),
                UploadPhase::Completing { ref parts, .. } => {
                    let mut whole = Vec::new();
                    for p in parts {
                        assert_eq!(p.etag, format!("tag{}", p.number));
                        whole.extend(self.pending.remove(&p.number).expect("sent"));
                    }
                    self.objects.insert(key.clone(), whole);
                    UploadEvent::Completed(Ok(()))
                }
                UploadPhase::Aborting { .. } => {
                    self.pending.clear();
                    UploadEvent::Aborted
                }
                UploadPhase::Releasing { .. } => {
                    self.dedup.release(&key);
                    UploadEvent::Released
                }
            };
            phase = step(phase, event, in_parts);
        }
    }

    fn send(&mut self, data: &[u8]) -> Vec<Result<SentPart, SnapshotError>> {
        let mut sent = Vec::new();
        for part in upload_parts(data.len() as u64, self.part_size) {
            if self.fails_part == Some(part.number) {
                sent.push(Err(SnapshotError::Io(format!("part {} failed", part.number))));
                continue;
            }
            let (from, to) = (part.offset as usize, (part.offset + part.size) as usize);
            self.pending.insert(part.number, data[from..to].to_vec());
            sent.push(Ok(SentPart { number: part.number, etag: format!("tag{}", part.number) }));
        }
        // Parts may be done in any order.
        sent.reverse();
        sent
    }

    fn upload(
        &mut self,
        m: &mut Manifest,
        options: &HashUploadOptions,
    ) -> Result<UploadStatistics, SnapshotError> {
        assert!(sizes_fit(&m.files));
        let UploadStart { chunk_size, work, mut stats, .. } = begin_upload(m, options)?;
        let mut results = Vec::new();
        for item in work {
            results.push(self.upload_file(item, &mut stats, options.force_rehash, chunk_size));
        }
        apply_upload_results(&mut m.files, results, &mut self.cache, ALG, chunk_size)?;
        Ok(stats)
    }

    fn upload_file(
        &mut self,
        item: UploadWorkItem,
        stats: &mut UploadStatistics,
        force_rehash: bool,
        chunk_size: i64,
    ) -> Result<(usize, FileResult), SnapshotError> {
        let settings = UploadSettings {
            force_rehash,
            alg: ALG,
            chunk_size,
            part_size: self.part_size,
            multipart: self.takes_parts,
        };
        let mut phase = FilePhase::Queued;
        loop {
            let event = match &phase {
                FilePhase::Queued => {
                    FileEvent::Admitted { permit: Ok(()), cancelled: self.cancelled }
                }
                FilePhase::Asking { cached } => FileEvent::Replied(match cached {
                    CachedHashes::Whole(h) => vec![Some(self.get_data(h).is_some())],
                    CachedHashes::Chunks(v) => {
                        v.iter().map(|h| Some(self.get_data(h).is_some())).collect()
                    }
                }),
                FilePhase::Uploading { strategy } => {
                    FileEvent::Uploaded(self.hash_and_store(&item, *strategy, chunk_size))
                }
                FilePhase::Telling { result } => {
                    assert!(can_count(stats, result));
                    update_progress(stats, result);
                    self.watched += 1;
                    let go_on = self.watched < self.patience;
                    self.cancelled = self.cancelled || !go_on;
                    FileEvent::Told(go_on)
                }
                FilePhase::Done { .. } => break,
            };
            phase = file_step(phase, event, &item, &self.cache, &settings);
        }
        match phase {
            FilePhase::Done { outcome } => outcome,
            other => panic!("got {other:?}"),
        }
    }

    fn hash_and_store(
        &mut self,
        item: &UploadWorkItem,
        strategy: UploadStrategy,
        chunk_size: i64,
    ) -> Result<FileResult, SnapshotError> {
        let data = self.contents(&item.path).expect("on disk").to_vec();
        if strategy == UploadStrategy::Chunked {
            let chunks = hash_chunks(&data, chunk_size as u64);
            let mut outcomes = Vec::new();
            for c in &chunks {
                outcomes.push(self.store(&c.hash, &c.data, false));
            }
            return chunked_result(&chunks, outcomes);
        }
        let hash = hash_data(&data);
        let uploaded = self.store(&hash, &data, strategy == UploadStrategy::Multipart)?;
        Ok(FileResult::Whole { hash, uploaded, size: item.file_size })
    }

    fn download(
        &mut self,
        m: &mut Manifest,
        options: &DownloadOptions,
    ) -> Result<DownloadStatistics, SnapshotError> {
        let parents: Vec<String> = m.files.iter().map(|f| parent(&f.path)).collect();
        let begin = begin_download(m, options, &parents);
        for f in begin.deletes.files {
            self.disk.remove(&f);
        }
        for d in begin.deletes.dirs {
            self.dirs.remove(&d);
        }
        for i in begin.links {
            let target = m.files[i].symlink_target.clone().expect("a link");
            self.links.push((m.files[i].path.clone(), target));
        }
        let mut stats = DownloadStatistics::new();
        let mut work = Vec::new();
        for todo in begin.steps {
            match todo {
                DownloadStep::CreateDir(d) => {
                    self.dirs.insert(d);
                }
                DownloadStep::Evaluate(i) => {
                    let f = &m.files[i];
                    let found = self.disk.get(&f.path);
                    let disk =
                        DiskFacts { exists: found.is_some(), mtime: found.map(|(_, t)| *t) };
                    collect_work_item(
                        i,
                        f,
                        m.file_chunk_size_bytes,
                        ALG,
                        &self.cache,
                        options.file_conflict_resolution,
                        disk,
                        &mut stats,
                        &mut work,
                    );
                }
            }
        }
        let items = divide_work(&mut m.files, &work);
        let mut results = Vec::new();
        for item in items {
            let f = &m.files[item.index];
            let conflict = options.file_conflict_resolution;
            let result = self.download_file(item, f, m.file_chunk_size_bytes, conflict, &mut stats);
            results.push(result.map(|(index, target_path)| {
                let mtime = f.mtime.unwrap_or(self.clock);
                if let Some(entry) = self.disk.get_mut(&target_path) {
                    entry.1 = mtime;
                }
                Downloaded { index, target_path, mtime }
            }));
        }
        let chunk_size = m.file_chunk_size_bytes;
        apply_download_results(&mut m.files, results, &mut self.cache, ALG, chunk_size)?;
        Ok(stats)
    }

    fn target(&self, path: &str, conflict: FileConflictResolution) -> String {
        let dir = parent(path);
        assert!(self.dirs.contains(&dir));
        let name = path.rsplit('/').next().unwrap_or_default().to_string();
        let taken: Vec<String> = self
            .disk
            .keys()
            .filter(|p| parent(p) == dir)
            .map(|p| p.rsplit('/').next().unwrap_or_default().to_string())
            .collect();
        let exists = self.disk.contains_key(path);
        format!("{dir}/{}", resolve_target_path(&name, exists, conflict, &taken))
    }

    fn download_file(
        &mut self,
        item: DownloadWorkItem,
        f: &FileEntry,
        chunk_size: i64,
        conflict: FileConflictResolution,
        stats: &mut DownloadStatistics,
    ) -> Result<(usize, String), SnapshotError> {
        let settings = DownloadSettings {
            chunk_size,
            part_size: self.part_size,
            supports_range: self.gives_ranges,
        };
        let mut phase = FetchPhase::Queued;
        loop {
            let event = match &phase {
                FetchPhase::Queued => FetchEvent::Admitted {
                    permit: Ok(()),
                    cancelled: self.cancelled,
                    target: self.target(&f.path, conflict),
                },
                FetchPhase::Fetching { plan, target } => {
                    FetchEvent::Fetched(self.fetch(f, plan, target))
                }
                FetchPhase::Telling { .. } => {
                    record_downloaded_file(stats, item.file_size);
                    self.watched += 1;
                    let go_on = self.watched < self.patience;
                    self.cancelled = self.cancelled || !go_on;
                    FetchEvent::Told(go_on)
                }
                FetchPhase::Done { .. } => break,
            };
            phase = fetch_step(phase, event, item.index, f, &settings);
        }
        match phase {
            FetchPhase::Done { outcome } => outcome,
            other => panic!("got {other:?}"),
        }
    }

    fn fetch(
        &mut self,
        f: &FileEntry,
        plan: &FetchPlan,
        target: &str,
    ) -> Result<(), SnapshotError> {
        let missing = || SnapshotError::Io("no such object".to_string());
        let mut data = vec![0u8; f.size_or_zero() as usize];
        match plan {
            FetchPlan::Whole => {
                let hash = f.hash.clone().expect("a hash");
                data = self.get_data(&hash).ok_or_else(missing)?.clone();
                verify_whole(&data, &hash, &f.path)?;
            }
            FetchPlan::Parts(ranges) => {
                let hash = f.hash.clone().expect("a hash");
                let object = self.get_data(&hash).ok_or_else(missing)?;
                for r in ranges {
                    let (from, to) = (r.start as usize, r.end as usize);
                    data[from..to].copy_from_slice(&object[from..to]);
                }
            }
            FetchPlan::Chunks(fetches) => {
                for fetch in fetches {
                    match fetch {
                        ChunkFetch::Object { hash, offset } => {
                            let object = self.get_data(hash).ok_or_else(missing)?;
                            verify_chunk(object, hash, *offset)?;
                            let at = *offset as usize;
                            data[at..at + object.len()].copy_from_slice(object);
                        }
                        ChunkFetch::Range { hash, start, end, write_offset } => {
                            let object = self.get_data(hash).ok_or_else(missing)?;
                            let bytes = &object[*start as usize..=*end as usize];
                            let at = *write_offset as usize;
                            data[at..at + bytes.len()].copy_from_slice(bytes);
                        }
                    }
                }
            }
        }
        self.disk.insert(target.to_string(), (data, self.clock));
        Ok(())
    }
}

fn options(conflict: FileConflictResolution) -> DownloadOptions {
    DownloadOptions { file_conflict_resolution: conflict, ..DownloadOptions::default() }
}

#[test]
fn hash_upload_produces_hashes_and_stores_data() {
    let mut w = world();
    w.put_file("/tmp/a.txt", b"hello", 9);
    let mut m = manifest(DEFAULT_CHUNK, vec![file("/tmp/a.txt", 5, 9)]);
    let stats = w.upload(&mut m, &HashUploadOptions::default()).expect("uploads");
    let hash = m.files[0].hash.clone().expect("hashed");
    assert_eq!(w.get_data(&hash).map(|d| d.as_slice()), Some(b"hello".as_slice()));
    assert_eq!(stats.uploaded_files, 1);
    assert_eq!(stats.uploaded_bytes, 5);
}

#[test]
fn second_upload_skips() {
    let mut w = world();
    w.put_file("/tmp/a.txt", b"hello", 9);
    let mut m = manifest(DEFAULT_CHUNK, vec![file("/tmp/a.txt", 5, 9)]);
    w.upload(&mut m, &HashUploadOptions::default()).expect("uploads");
    let mut m = manifest(DEFAULT_CHUNK, vec![file("/tmp/a.txt", 5, 9)]);
    let stats = w.upload(&mut m, &HashUploadOptions::default()).expect("uploads");
    assert_eq!(stats.uploaded_files, 0);
    assert_eq!(stats.skipped_files, 1);
}

#[test]
fn hash_cache_enables_full_skip() {
    let mut w = world();
    w.cache = Some(HashCache::new());
    w.put_file("/tmp/a.txt", b"hello", 9);
    let mut m = manifest(DEFAULT_CHUNK, vec![file("/tmp/a.txt", 5, 9)]);
    w.upload(&mut m, &HashUploadOptions::default()).expect("uploads");
    let first = m.files[0].hash.clone();
    let mut m = manifest(DEFAULT_CHUNK, vec![file("/tmp/a.txt", 5, 9)]);
    let stats = w.upload(&mut m, &HashUploadOptions::default()).expect("uploads");
    assert_eq!(stats.skipped_files, 1);
    assert_eq!(stats.hashed_files, 0);
    assert_eq!(stats.uploaded_files, 0);
    assert_eq!(m.files[0].hash, first);

    let forced = HashUploadOptions { force_rehash: true, ..HashUploadOptions::default() };
    let mut m = manifest(DEFAULT_CHUNK, vec![file("/tmp/a.txt", 5, 9)]);
    assert_eq!(w.upload(&mut m, &forced).expect("uploads").hashed_files, 1);
}

#[test]
fn symlinks_and_deleted_pass_through() {
    let mut w = world();
    w.put_file("/tmp/real.txt", b"data", 9);
    let mut m = manifest(
        DEFAULT_CHUNK,
        vec![
            file("/tmp/real.txt", 4, 9),
            FileEntry::symlink("/tmp/link".to_string(), "/tmp/target".to_string()),
            FileEntry::deleted("/tmp/gone".to_string()),
        ],
    );
    let stats = w.upload(&mut m, &HashUploadOptions::default()).expect("uploads");
    assert!(m.files[0].hash.is_some());
    assert!(m.files[1].hash.is_none());
    assert!(m.files[2].hash.is_none());
    assert_eq!(stats.total_files, 1);
}

#[test]
fn rejects_already_hashed_files() {
    let mut w = world();
    w.put_file("/tmp/a.txt", b"hello", 9);
    let mut entry = file("/tmp/a.txt", 5, 9);
    entry.hash = Some("existing_hash".to_string());
    let mut m = manifest(DEFAULT_CHUNK, vec![entry]);
    match w.upload(&mut m, &HashUploadOptions::default()) {
        Err(SnapshotError::Validation(e)) => assert!(e.contains("already has hashes set")),
        other => panic!("got {other:?}"),
    }
}

#[test]
fn chunked_upload() {
    let mut w = world();
    w.put_file("/tmp/chunked_upload.bin", &[42u8; 1024], 9);
    let mut m = manifest(256, vec![file("/tmp/chunked_upload.bin", 1024, 9)]);
    let o = HashUploadOptions {
        file_chunk_size_bytes: Some(256),
        ..HashUploadOptions::default()
    };
    w.upload(&mut m, &o).expect("uploads");
    assert!(m.files[0].hash.is_none());
    let chunks = m.files[0].chunk_hashes.clone().expect("hashed");
    assert_eq!(chunks.len(), 4);
    for h in &chunks {
        assert_eq!(w.get_data(h).map(|d| d.len()), Some(256));
    }
}

#[test]
fn download_single_file() {
    let mut w = world();
    let mut entry = file("/tmp/output.txt", 11, 1000);
    entry.hash = Some(w.put_data(b"hello world"));
    let mut m = manifest(DEFAULT_CHUNK, vec![entry]);
    let stats = w.download(&mut m, &DownloadOptions::default()).expect("downloads");
    assert_eq!(w.contents("/tmp/output.txt"), Some(b"hello world".as_slice()));
    assert_eq!(stats.downloaded_files, 1);
    assert_eq!(stats.downloaded_bytes, 11);
}

#[test]
fn download_creates_parent_dirs() {
    let mut w = world();
    let mut entry = file("/tmp/a/b/c/file.txt", 6, 1000);
    entry.hash = Some(w.put_data(b"nested"));
    let mut m = manifest(DEFAULT_CHUNK, vec![entry]);
    w.download(&mut m, &DownloadOptions::default()).expect("downloads");
    assert!(w.dirs.contains("/tmp/a/b/c"));
    assert_eq!(w.contents("/tmp/a/b/c/file.txt"), Some(b"nested".as_slice()));
}

#[test]
fn download_skip_conflict() {
    let mut w = world();
    w.put_file("/tmp/existing.txt", b"old content", 77);
    let mut entry = file("/tmp/existing.txt", 11, 1000);
    entry.hash = Some(w.put_data(b"new content"));
    let mut m = manifest(DEFAULT_CHUNK, vec![entry]);
    let stats = w.download(&mut m, &options(FileConflictResolution::Skip)).expect("downloads");
    assert_eq!(w.contents("/tmp/existing.txt"), Some(b"old content".as_slice()));
    assert_eq!(stats.skipped_files, 1);
    assert_eq!(m.files[0].mtime, Some(77));
}

#[test]
fn download_overwrite_conflict() {
    let mut w = world();
    w.put_file("/tmp/existing.txt", b"old content", 77);
    let mut entry = file("/tmp/existing.txt", 11, 1000);
    entry.hash = Some(w.put_data(b"new content"));
    let mut m = manifest(DEFAULT_CHUNK, vec![entry]);
    w.download(&mut m, &DownloadOptions::default()).expect("downloads");
    assert_eq!(w.contents("/tmp/existing.txt"), Some(b"new content".as_slice()));
}

#[test]
fn download_create_copy_conflict() {
    let mut w = world();
    w.put_file("/tmp/file.txt", b"old", 77);
    let mut entry = file("/tmp/file.txt", 3, 1000);
    entry.hash = Some(w.put_data(b"new"));
    let mut m = manifest(DEFAULT_CHUNK, vec![entry]);
    let o = options(FileConflictResolution::CreateCopy);
    w.download(&mut m, &o).expect("downloads");
    assert_eq!(w.contents("/tmp/file.txt"), Some(b"old".as_slice()));
    assert_eq!(w.contents("/tmp/file (1).txt"), Some(b"new".as_slice()));
}

#[test]
fn download_applies_deletes() {
    let mut w = world();
    w.put_file("/tmp/gone.txt", b"bye", 7);
    let mut m = manifest(DEFAULT_CHUNK, vec![FileEntry::deleted("/tmp/gone.txt".to_string())]);
    let kept = DownloadOptions { apply_deletes: false, ..DownloadOptions::default() };
    w.download(&mut m, &kept).expect("downloads");
    assert!(w.contents("/tmp/gone.txt").is_some());
    w.download(&mut m, &DownloadOptions::default()).expect("downloads");
    assert!(w.contents("/tmp/gone.txt").is_none());
}

#[test]
fn download_chunked_file() {
    let mut w = world();
    let chunks: Vec<&[u8]> = vec![b"aaa", b"bbb", b"ccc", b"ddd"];
    let mut entry = file("/tmp/chunked.bin", 12, 1000);
    entry.chunk_hashes = Some(chunks.iter().map(|c| w.put_data(c)).collect());
    let mut m = manifest(3, vec![entry]);
    w.download(&mut m, &DownloadOptions::default()).expect("downloads");
    assert_eq!(w.contents("/tmp/chunked.bin"), Some(b"aaabbbcccddd".as_slice()));
}

#[test]
fn download_updates_mtime_in_manifest() {
    let mut w = world();
    let mut entry = file("/tmp/file.txt", 4, 1_577_836_800_000_000);
    entry.hash = Some(w.put_data(b"data"));
    let mut m = manifest(DEFAULT_CHUNK, vec![entry]);
    w.download(&mut m, &DownloadOptions::default()).expect("downloads");
    assert_eq!(m.files[0].mtime, Some(1_577_836_800_000_000));

    let mut entry = file("/tmp/other.txt", 4, 0);
    entry.mtime = None;
    entry.hash = Some(w.put_data(b"data"));
    let mut m = manifest(DEFAULT_CHUNK, vec![entry]);
    w.download(&mut m, &DownloadOptions::default()).expect("downloads");
    assert_eq!(m.files[0].mtime, Some(w.clock));
}

#[test]
fn download_creates_manifest_dirs() {
    let mut w = world();
    let mut m = manifest(DEFAULT_CHUNK, vec![]);
    m.dirs = vec![DirEntry::new("/tmp/new_dir".to_string())];
    w.download(&mut m, &DownloadOptions::default()).expect("downloads");
    assert!(w.dirs.contains("/tmp/new_dir"));
}

#[test]
fn uploaded_files_come_back_in_every_way() {
    let data: Vec<u8> = (0..1000u32).map(|i| (i * 31 % 253) as u8).collect();
    for chunk_size in [-1, 0, 1, 7, 300, 999, 1000, 5000] {
        for part_size in [1, 13, 100, 400, 2000] {
            let mut w = world();
            w.part_size = part_size;
            w.takes_parts = true;
            w.gives_ranges = true;
            w.put_file("/in/f", &data, 9);
            w.put_file("/in/empty", b"", 9);
            let mut m = manifest(
                chunk_size,
                vec![file("/in/f", 1000, 9), file("/in/empty", 0, 9)],
            );
            w.upload(&mut m, &HashUploadOptions::default()).expect("uploads");
            assert!(w.dedup.keys.is_empty());
            w.disk.clear();
            w.download(&mut m, &DownloadOptions::default()).expect("downloads");
            assert_eq!(w.contents("/in/f"), Some(data.as_slice()), "{chunk_size} {part_size}");
            assert_eq!(w.contents("/in/empty"), Some(b"".as_slice()));
        }
    }
}

#[test]
fn second_download_skips_what_is_on_disk() {
    let mut w = world();
    w.cache = Some(HashCache::new());
    w.put_file("/in/f", b"0123456789", 9);
    let mut m = manifest(4, vec![file("/in/f", 10, 9)]);
    w.upload(&mut m, &HashUploadOptions::default()).expect("uploads");
    w.disk.clear();
    w.cache = Some(HashCache::new());
    let stats = w.download(&mut m, &DownloadOptions::default()).expect("downloads");
    assert_eq!((stats.downloaded_files, stats.skipped_files), (1, 0));
    let stats = w.download(&mut m, &DownloadOptions::default()).expect("downloads");
    assert_eq!((stats.downloaded_files, stats.skipped_files), (0, 1));
    w.put_file("/in/f", b"changed!!!", 10);
    let stats = w.download(&mut m, &DownloadOptions::default()).expect("downloads");
    assert_eq!((stats.downloaded_files, stats.skipped_files), (1, 0));
    assert_eq!(w.contents("/in/f"), Some(b"0123456789".as_slice()));
}

#[test]
fn failed_part_leaves_nothing_behind() {
    let mut w = world();
    w.part_size = 4;
    w.takes_parts = true;
    w.fails_part = Some(2);
    w.put_file("/in/f", b"0123456789", 9);
    let mut m = manifest(0, vec![file("/in/f", 10, 9)]);
    match w.upload(&mut m, &HashUploadOptions::default()) {
        Err(e) => assert_eq!(e, SnapshotError::Io("part 2 failed".to_string())),
        other => panic!("got {other:?}"),
    }
    assert!(w.objects.is_empty() && w.pending.is_empty() && w.dedup.keys.is_empty());
    w.fails_part = None;
    w.upload(&mut m, &HashUploadOptions::default()).expect("uploads");
    let hash = hash_data(b"0123456789");
    assert_eq!(w.get_data(&hash).map(|d| d.as_slice()), Some(b"0123456789".as_slice()));
}

#[test]
fn damaged_objects_are_refused() {
    let mut w = world();
    let hash = w.put_data(b"good");
    w.objects.insert(object_key(&hash, ALG), b"evil".to_vec());
    let mut entry = file("/out/f", 4, 9);
    entry.hash = Some(hash.clone());
    let mut m = manifest(0, vec![entry]);
    assert!(w.download(&mut m, &DownloadOptions::default()).is_err());
    assert!(w.contents("/out/f").is_none());
    let mut entry = file("/out/f", 4, 9);
    entry.chunk_hashes = Some(vec![hash]);
    let mut m = manifest(4, vec![entry]);
    assert!(w.download(&mut m, &DownloadOptions::default()).is_err());
    assert!(w.contents("/out/f").is_none());
}

#[test]
fn links_are_created_behind_their_targets() {
    let mut w = world();
    let link = |a: &str, b: &str| FileEntry::symlink(a.to_string(), b.to_string());
    let mut m = manifest(0, vec![link("/b", "/a"), link("/a", "/x")]);
    w.download(&mut m, &DownloadOptions::default()).expect("downloads");
    let created: Vec<&str> = w.links.iter().map(|(l, _)| l.as_str()).collect();
    assert_eq!(created, vec!["/a", "/b"]);
}

#[test]
fn links_are_left_out_by_the_policy() {
    let mut w = world();
    let mut m =
        manifest(0, vec![FileEntry::symlink("/a".to_string(), "/x".to_string())]);
    let o = DownloadOptions {
        symlink_policy: SymlinkPolicy::ExcludeAll,
        ..DownloadOptions::default()
    };
    w.download(&mut m, &o).expect("downloads");
    assert!(w.links.is_empty());
}

#[test]
fn cancelled_upload_leaves_the_rest_alone() {
    let mut w = world();
    w.patience = 1;
    w.put_file("/in/a", b"a", 9);
    w.put_file("/in/b", b"b", 9);
    let mut m = manifest(0, vec![file("/in/a", 1, 9), file("/in/b", 1, 9)]);
    match w.upload(&mut m, &HashUploadOptions::default()) {
        Err(e) => assert_eq!(e, SnapshotError::Cancelled),
        other => panic!("got {other:?}"),
    }
    assert_eq!(w.watched, 1);
    assert!(w.get_data(&hash_data(b"b")).is_none());
}

#[test]
fn cancelled_download_leaves_the_rest_alone() {
    let mut w = world();
    w.patience = 1;
    let mut a = file("/out/a", 1, 9);
    a.hash = Some(w.put_data(b"a"));
    let mut b = file("/out/b", 1, 9);
    b.hash = Some(w.put_data(b"b"));
    let mut m = manifest(0, vec![a, b]);
    match w.download(&mut m, &DownloadOptions::default()) {
        Err(e) => assert_eq!(e, SnapshotError::Cancelled),
        other => panic!("got {other:?}"),
    }
    assert_eq!(w.watched, 1);
    assert!(w.contents("/out/b").is_none());
}

#[test]
fn file_without_hashes_cannot_be_downloaded() {
    let mut w = world();
    let mut m = manifest(0, vec![file("/out/a", 1, 9)]);
    match w.download(&mut m, &DownloadOptions::default()) {
        Err(e) => assert_eq!(
            e,
            SnapshotError::Validation("file has no hash or chunk_hashes: /out/a".to_string())
        ),
        other => panic!("got {other:?}"),
    }
}

#[test]
fn refused_permit_ends_a_file() {
    let (items, _) = build_upload_work_list(&vec![file("/a", 1, 1)], 0);
    let settings = UploadSettings {
        force_rehash: false,
        alg: ALG,
        chunk_size: 0,
        part_size: 8,
        multipart: false,
    };
    let closed = || SnapshotError::Task("closed".to_string());
    let event = FileEvent::Admitted { permit: Err(closed()), cancelled: false };
    match file_step(FilePhase::Queued, event, &items[0], &None, &settings) {
        FilePhase::Done { outcome: Err(e) } => assert_eq!(e, closed()),
        other => panic!("got {other:?}"),
    }
    // What does not belong here changes nothing.
    let p = file_step(FilePhase::Queued, FileEvent::Told(true), &items[0], &None, &settings);
    assert!(matches!(p, FilePhase::Queued));
    let settings = DownloadSettings { chunk_size: 0, part_size: 8, supports_range: false };
    let event = FetchEvent::Admitted {
        permit: Err(closed()),
        cancelled: false,
        target: "/a".to_string(),
    };
    match fetch_step(FetchPhase::Queued, event, 0, &file("/a", 1, 1), &settings) {
        FetchPhase::Done { outcome: Err(e) } => assert_eq!(e, closed()),
        other => panic!("got {other:?}"),
    }
}
