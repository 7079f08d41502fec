use openjd::snapshots::download::{
    apply_skipped_mtimes, collect_work_item, creates_symlinks, download_items,
    finalize_downloaded_file, plan_chunks, plan_fetch, verify_chunk, verify_whole, ChunkFetch,
    DiskFacts, DownloadOptions, DownloadWorkItem, FetchPlan, FileConflictResolution,
    SkipEvaluation,
};
use openjd::snapshots::hash_cache::{
    cached_chunk_hashes, put_chunk_hashes, HashCache, WHOLE_FILE_RANGE_END,
};
use openjd::snapshots::hashing::{hash_data, object_key, StreamHasher};
use openjd::snapshots::layout::{build_download_work_list, delete_plan, DownloadStep};
use openjd::snapshots::manifest::{
    validate_files_not_hashed, AbsManifest, DirEntry, FileEntry, HashAlgorithm, Manifest,
    SnapshotError, SymlinkPolicy,
};
use openjd::snapshots::names::{create_copy_path, resolve_target_path, temp_download_name};
use openjd::snapshots::parts::{part_ranges, split_data, PartRange};
use openjd::snapshots::progress::{
    can_count, download_progress, finalize_download_stats, finalize_upload_stats,
    finish_empty_download, finish_empty_upload, record_downloaded_file, update_progress,
    upload_progress, DownloadStatistics,
};
use openjd::snapshots::symlinks::symlink_creation_order;
use openjd::snapshots::transfer::{
    chunked_result, collect_parts, hash_chunks, step, upload_parts, Claim, HashedChunk, SentPart,
    UploadDedup, UploadEvent, UploadPart, UploadPhase,
};
use openjd::snapshots::upload::{
    all_objects_exist, apply_file_result, apply_upload_results, build_upload_work_list,
    check_cache_skip, choose_strategy, remembered_hashes, sizes_fit, worker_count, CachedHashes,
    FileResult, HashUploadOptions, UploadStrategy,
};

fn file(path: &str, size: u64, mtime: u64) -> FileEntry {
    FileEntry::file(path.to_string(), size, mtime)
}

fn link(path: &str, target: &str) -> FileEntry {
    FileEntry::symlink(path.to_string(), target.to_string())
}

fn hashes(v: &[&str]) -> Vec<String> {
    v.iter().map(|s| s.to_string()).collect()
}

fn failed(m: &str) -> SnapshotError {
    SnapshotError::Io(m.to_string())
}

#[test]
fn files_with_hashes_are_not_hashed_again() {
    let mut hashed = file("/a", 5, 1);
    hashed.hash = Some("existing_hash".to_string());
    assert_eq!(
        validate_files_not_hashed(&vec![file("/b", 1, 1), hashed]),
        Err(SnapshotError::Validation(
            "file already has hashes set, cannot re-hash: /a".to_string()
        ))
    );
    let mut gone = FileEntry::deleted("/c".to_string());
    gone.hash = Some("h".to_string());
    let mut linked = link("/d", "/e");
    linked.chunk_hashes = Some(vec![]);
    assert_eq!(validate_files_not_hashed(&vec![gone, linked, file("/b", 1, 1)]), Ok(()));
}

#[test]
fn hash_is_xxh3_in_thirty_two_digits() {
    assert_eq!(hash_data(b""), "99aa06d3014798d86001c324468d497f");
    let h = hash_data(b"hello");
    assert_eq!(h, format!("{:032x}", xxhash_rust::xxh3::xxh3_128(b"hello")));
    assert_eq!(h.len(), 32);
    assert_eq!(object_key("abc", HashAlgorithm::Xxh128.extension()), "abc.xxh128");
}

#[test]
fn hash_of_pieces_is_the_hash_of_the_whole() {
    let data: Vec<u8> = (0..5000u32).map(|i| (i * 7 % 251) as u8).collect();
    for size in [1, 64, 255, 256, 1000, 5000] {
        let mut h = StreamHasher::new();
        for piece in data.chunks(size) {
            h.update(piece);
        }
        assert_eq!(h.finish(), hash_data(&data), "pieces of {size}");
    }
    assert_eq!(StreamHasher::new().finish(), hash_data(b""));
}

#[test]
fn remembered_hash_holds_until_the_file_changes() {
    let mut c = HashCache::new();
    c.put("/a", "xxh128", 0, WHOLE_FILE_RANGE_END, "h1", 10);
    assert_eq!(c.get_if_fresh("/a", "xxh128", 0, -1, 10), Some("h1".to_string()));
    assert_eq!(c.get_if_fresh("/a", "xxh128", 0, -1, 11), None);
    assert_eq!(c.get_if_fresh("/a", "other", 0, -1, 10), None);
    assert_eq!(c.get_if_fresh("/b", "xxh128", 0, -1, 10), None);
    assert_eq!(c.get_if_fresh("/a", "xxh128", 0, 5, 10), None);
    c.put("/a", "xxh128", 0, WHOLE_FILE_RANGE_END, "h2", 11);
    assert_eq!(c.get_if_fresh("/a", "xxh128", 0, -1, 11), Some("h2".to_string()));
    assert_eq!(c.get_if_fresh("/a", "xxh128", 0, -1, 10), None);
    assert_eq!(c.rows.len(), 1);
}

#[test]
fn remembered_chunks_are_found_only_together() {
    let mut c = HashCache::new();
    let h = hashes(&["a", "b", "c"]);
    put_chunk_hashes(&mut c, "/f", "xxh128", 4, 10, &h, 7);
    assert_eq!(c.get_if_fresh("/f", "xxh128", 8, 10, 7), Some("c".to_string()));
    assert_eq!(cached_chunk_hashes(&c, "/f", "xxh128", 4, 10, 7), Some(h));
    assert_eq!(cached_chunk_hashes(&c, "/f", "xxh128", 4, 10, 8), None);
    assert_eq!(cached_chunk_hashes(&c, "/f", "xxh128", 4, 14, 7), None);
    assert_eq!(cached_chunk_hashes(&c, "/f", "xxh128", 4, 0, 7), None);
    assert_eq!(cached_chunk_hashes(&c, "/f", "xxh128", 0, 0, 7), None);
}

#[test]
fn links_come_behind_the_links_they_point_to() {
    let files = vec![
        link("/c", "/b"),
        file("/x", 1, 1),
        link("/b", "/a"),
        link("/a", "/x"),
        link("/d", "/a"),
    ];
    assert_eq!(symlink_creation_order(&files), vec![3, 2, 4, 0]);
}

#[test]
fn links_on_a_cycle_come_last_in_manifest_order() {
    let files = vec![
        link("/p", "/q"),
        link("/q", "/p"),
        link("/self", "/self"),
        link("/to_cycle", "/p"),
        link("/ok", "/elsewhere"),
        FileEntry::deleted("/ok2".to_string()),
    ];
    assert_eq!(symlink_creation_order(&files), vec![4, 0, 1, 2, 3]);
    assert_eq!(symlink_creation_order(&vec![]), Vec::<usize>::new());
}

#[test]
fn of_links_at_one_path_the_last_counts() {
    let files = vec![link("/a", "/b"), link("/b", "/a"), link("/b", "/x")];
    assert_eq!(symlink_creation_order(&files), vec![2, 0, 1]);
}

#[test]
fn symlinks_and_deleted_files_make_no_work() {
    let files = vec![
        file("/real.txt", 4, 9),
        link("/tmp/link", "/tmp/target"),
        FileEntry::deleted("/tmp/gone".to_string()),
    ];
    assert!(sizes_fit(&files));
    let (items, stats) = build_upload_work_list(&files, 256);
    assert_eq!(items.len(), 1);
    assert_eq!((items[0].index, items[0].mtime, items[0].file_size), (0, 9, 4));
    assert_eq!(items[0].path, "/real.txt");
    assert!(!items[0].use_chunks);
    assert_eq!((stats.total_files, stats.total_bytes), (1, 4));
}

#[test]
fn files_above_the_chunk_size_are_split() {
    let files = vec![file("/a", 256, 0), file("/b", 257, 0)];
    let (items, _) = build_upload_work_list(&files, 256);
    assert_eq!((items[0].use_chunks, items[1].use_chunks), (false, true));
    let (items, _) = build_upload_work_list(&files, -1);
    assert!(!items[1].use_chunks);
    let (items, _) = build_upload_work_list(&files, 0);
    assert!(!items[1].use_chunks);
}

#[test]
fn sizes_that_cannot_be_added_up_do_not_fit() {
    assert!(!sizes_fit(&vec![file("/a", u64::MAX, 0), file("/b", 1, 0)]));
    assert!(sizes_fit(&vec![file("/a", u64::MAX, 0), FileEntry::deleted("/b".to_string())]));
}

#[test]
fn strategy_goes_by_size_and_support() {
    let (items, _) = build_upload_work_list(&vec![file("/a", 20, 0)], 0);
    assert_eq!(choose_strategy(&items[0], 10, true), UploadStrategy::Multipart);
    assert_eq!(choose_strategy(&items[0], 10, false), UploadStrategy::Whole);
    assert_eq!(choose_strategy(&items[0], 11, true), UploadStrategy::Whole);
    let (items, _) = build_upload_work_list(&vec![file("/a", 20, 0)], 5);
    assert_eq!(choose_strategy(&items[0], 10, true), UploadStrategy::Chunked);
}

#[test]
fn remembered_file_is_skipped_where_its_objects_exist() {
    let mut entry = file("/a.txt", 5, 3);
    let (items, _) = build_upload_work_list(&vec![file("/a.txt", 5, 3)], 0);
    let mut cache = Some(HashCache::new());
    assert!(remembered_hashes(&cache, false, &items[0], "xxh128", 0).is_none());
    let hash = hash_data(b"hello");
    apply_file_result(
        &mut entry,
        FileResult::Whole { hash: hash.clone(), uploaded: true, size: 5 },
        &mut cache,
        "xxh128",
        0,
    );
    assert_eq!(entry.hash.as_ref(), Some(&hash));
    assert!(remembered_hashes(&cache, true, &items[0], "xxh128", 0).is_none());
    assert!(remembered_hashes(&None, false, &items[0], "xxh128", 0).is_none());
    let found = remembered_hashes(&cache, false, &items[0], "xxh128", 0).expect("remembered");
    match check_cache_skip(&items[0], found, &vec![Some(true)]) {
        Some(FileResult::Skipped { size: 5, whole_hash: Some(h), chunk_hashes: None }) => {
            assert_eq!(h, hash)
        }
        other => panic!("got {other:?}"),
    }
    for reply in [Some(false), None] {
        let found = CachedHashes::Whole(hash.clone());
        assert!(check_cache_skip(&items[0], found, &vec![reply]).is_none());
    }
}

#[test]
fn remembered_chunks_are_skipped_together() {
    let mut entry = file("/a", 10, 3);
    let (items, _) = build_upload_work_list(&vec![file("/a", 10, 3)], 4);
    let mut cache = Some(HashCache::new());
    apply_file_result(
        &mut entry,
        FileResult::Chunked {
            hashes: hashes(&["x", "y", "z"]),
            uploaded: false,
            hashed_bytes: 10,
        },
        &mut cache,
        "xxh128",
        4,
    );
    assert_eq!(entry.chunk_hashes, Some(hashes(&["x", "y", "z"])));
    match remembered_hashes(&cache, false, &items[0], "xxh128", 4) {
        Some(CachedHashes::Chunks(v)) => {
            assert_eq!(v, hashes(&["x", "y", "z"]));
            let some = vec![Some(true), Some(true)];
            assert!(check_cache_skip(&items[0], CachedHashes::Chunks(v), &some).is_none());
        }
        other => panic!("got {other:?}"),
    }
    assert!(all_objects_exist(&vec![Some(true), Some(false)], 1));
    assert!(!all_objects_exist(&vec![Some(true), Some(false)], 2));
    assert!(all_objects_exist(&vec![], 0));
}

#[test]
fn results_are_applied_up_to_the_first_failure() {
    let mut files = vec![file("/a", 1, 1), file("/b", 2, 2), file("/c", 3, 3)];
    let mut cache = Some(HashCache::new());
    let whole = |h: &str| FileResult::Whole { hash: h.to_string(), uploaded: true, size: 1 };
    let r = apply_upload_results(
        &mut files,
        vec![Ok((2, whole("hc"))), Err(failed("disk")), Ok((0, whole("ha")))],
        &mut cache,
        "xxh128",
        0,
    );
    assert_eq!(r, Err(failed("disk")));
    assert_eq!(files[2].hash.as_deref(), Some("hc"));
    assert_eq!(files[0].hash, None);
    let c = cache.expect("kept");
    assert_eq!(c.get_if_fresh("/c", "xxh128", 0, -1, 3), Some("hc".to_string()));
    assert_eq!(c.rows.len(), 1);
    let skipped = FileResult::Skipped {
        size: 2,
        whole_hash: None,
        chunk_hashes: Some(hashes(&["p"])),
    };
    let mut none = None;
    assert_eq!(
        apply_upload_results(&mut files, vec![Ok((1, skipped))], &mut none, "xxh128", 0),
        Ok(())
    );
    assert_eq!(files[1].chunk_hashes, Some(hashes(&["p"])));
}

#[test]
fn upload_counts_go_by_what_came_of_each_file() {
    let (_, mut s) = build_upload_work_list(&vec![file("/a", 10, 0), file("/b", 6, 0)], 0);
    let stored = FileResult::Whole { hash: "h".to_string(), uploaded: true, size: 10 };
    assert!(can_count(&s, &stored));
    update_progress(&mut s, &stored);
    assert_eq!((s.hashed_files, s.hashed_bytes), (1, 10));
    assert_eq!((s.uploaded_files, s.uploaded_bytes), (1, 10));
    assert_eq!(upload_progress(&s), 10);
    let known = FileResult::Whole { hash: "h".to_string(), uploaded: false, size: 6 };
    update_progress(&mut s, &known);
    assert_eq!((s.hashed_files, s.hashed_bytes), (2, 16));
    assert_eq!((s.skipped_files, s.skipped_bytes), (1, 6));
    // The second file was hashed and skipped; progress still ends at the total.
    assert_eq!(upload_progress(&s), 16);
    let chunks = FileResult::Chunked { hashes: vec![], uploaded: true, hashed_bytes: 4 };
    update_progress(&mut s, &chunks);
    assert_eq!((s.hashed_files, s.uploaded_files, s.uploaded_bytes), (3, 2, 10));
    let skipped = FileResult::Skipped { size: 1, whole_hash: None, chunk_hashes: None };
    update_progress(&mut s, &skipped);
    assert_eq!((s.skipped_files, s.skipped_bytes), (2, 7));
    let huge = FileResult::Skipped { size: u64::MAX, whole_hash: None, chunk_hashes: None };
    assert!(!can_count(&s, &huge));
}

#[test]
fn summaries_say_what_was_done() {
    let (_, mut s) = build_upload_work_list(&vec![file("/a", 10, 0)], 0);
    finish_empty_upload(&mut s, 0, "10 B");
    assert_eq!(s.progress_message, "Hashed/uploaded 10 B (1 files) in 0.00s");
    finalize_upload_stats(&mut s, 256, "10 B", "1.25", Some("8 B"));
    assert_eq!(s.progress_message, "Hashed/uploaded 10 B (1 chunks) in 1.25s (8 B/s)");
    let mut d = DownloadStatistics::new();
    finish_empty_download(&mut d, -1, "0 B");
    assert_eq!(d.progress_message, "Downloaded 0 B (0 files) in 0.00s");
    finalize_download_stats(&mut d, 1, "0 B", "0.50", None);
    assert_eq!(d.progress_message, "Downloaded 0 B (0 chunks) in 0.50s");
}

#[test]
fn only_one_uploads_an_object_at_a_time() {
    let mut d = UploadDedup::new();
    assert_eq!(d.claim("k"), Claim::Owner);
    assert_eq!(d.claim("k"), Claim::Other);
    assert_eq!(d.claim("other"), Claim::Owner);
    d.release("k");
    assert_eq!(d.claim("k"), Claim::Owner);
    assert_eq!(d.claim("other"), Claim::Other);
}

#[test]
fn upload_at_once_claims_puts_and_releases() {
    let p = step(UploadPhase::Checking, UploadEvent::Exists(None), false);
    assert!(matches!(p, UploadPhase::Claiming));
    let p = step(p, UploadEvent::Claimed(Claim::Owner), false);
    assert!(matches!(p, UploadPhase::Putting));
    // What does not belong here changes nothing.
    let p = step(p, UploadEvent::Released, false);
    assert!(matches!(p, UploadPhase::Putting));
    let p = step(p, UploadEvent::PutDone(Ok(())), false);
    assert!(matches!(p, UploadPhase::Releasing { failure: None }));
    let p = step(p, UploadEvent::Released, false);
    assert!(matches!(p, UploadPhase::Finished { outcome: Ok(true) }));

    let p = step(UploadPhase::Putting, UploadEvent::PutDone(Err(failed("full"))), false);
    let p = step(p, UploadEvent::Released, false);
    assert!(matches!(p, UploadPhase::Finished { outcome: Err(SnapshotError::Io(m)) } if m == "full"));
}

#[test]
fn existing_or_foreign_objects_are_not_uploaded() {
    let p = step(UploadPhase::Checking, UploadEvent::Exists(Some(true)), true);
    assert!(matches!(p, UploadPhase::Finished { outcome: Ok(false) }));
    let p = step(UploadPhase::Checking, UploadEvent::Exists(Some(false)), true);
    let p = step(p, UploadEvent::Claimed(Claim::Other), true);
    assert!(matches!(p, UploadPhase::Waiting));
    let p = step(p, UploadEvent::OwnerFinished { stored: true }, true);
    assert!(matches!(p, UploadPhase::Finished { outcome: Ok(false) }));
}

#[test]
fn whoever_waited_for_a_failed_owner_uploads_the_object() {
    let mut dedup = UploadDedup::new();
    let owner = step(UploadPhase::Claiming, UploadEvent::Claimed(dedup.claim("k")), false);
    let waiter = step(UploadPhase::Claiming, UploadEvent::Claimed(dedup.claim("k")), false);
    assert!(matches!(waiter, UploadPhase::Waiting));

    let owner = step(owner, UploadEvent::PutDone(Err(failed("full"))), false);
    assert!(matches!(owner, UploadPhase::Releasing { failure: Some(_) }));
    dedup.release("k");
    let owner = step(owner, UploadEvent::Released, false);
    assert!(matches!(owner, UploadPhase::Finished { outcome: Err(_) }));

    let waiter = step(waiter, UploadEvent::OwnerFinished { stored: false }, false);
    assert!(matches!(waiter, UploadPhase::Claiming));
    let waiter = step(waiter, UploadEvent::Claimed(dedup.claim("k")), false);
    assert!(matches!(waiter, UploadPhase::Putting));
    let waiter = step(waiter, UploadEvent::PutDone(Ok(())), false);
    dedup.release("k");
    let waiter = step(waiter, UploadEvent::Released, false);
    assert!(matches!(waiter, UploadPhase::Finished { outcome: Ok(true) }));
}

#[test]
fn claim_is_released_where_an_upload_in_parts_cannot_be_begun() {
    let mut dedup = UploadDedup::new();
    let p = step(UploadPhase::Claiming, UploadEvent::Claimed(dedup.claim("k")), true);
    let p = step(p, UploadEvent::Created(Err(failed("no"))), true);
    assert!(matches!(&p, UploadPhase::Releasing { failure: Some(e) } if *e == failed("no")));
    dedup.release("k");
    let p = step(p, UploadEvent::Released, true);
    assert!(matches!(p, UploadPhase::Finished { outcome: Err(SnapshotError::Io(m)) } if m == "no"));
    assert_eq!(dedup.claim("k"), Claim::Owner);
}

#[test]
fn upload_in_parts_completes_with_the_parts_in_order() {
    let sent = |n: i32| Ok(SentPart { number: n, etag: format!("e{n}") });
    let p = step(UploadPhase::Claiming, UploadEvent::Claimed(Claim::Owner), true);
    assert!(matches!(p, UploadPhase::Creating));
    let p = step(p, UploadEvent::Created(Ok("id".to_string())), true);
    let p = step(p, UploadEvent::PartsSent(vec![sent(2), sent(1), sent(3)]), true);
    match &p {
        UploadPhase::Completing { upload_id, parts } => {
            assert_eq!(upload_id, "id");
            let numbers: Vec<i32> = parts.iter().map(|p| p.number).collect();
            assert_eq!(numbers, vec![1, 2, 3]);
            assert_eq!(parts[1].etag, "e2");
        }
        other => panic!("got {other:?}"),
    }
    let p = step(p, UploadEvent::Completed(Ok(())), true);
    let p = step(p, UploadEvent::Released, true);
    assert!(matches!(p, UploadPhase::Finished { outcome: Ok(true) }));
}

#[test]
fn failed_upload_in_parts_is_given_up_and_released() {
    let sending = || UploadPhase::Sending { upload_id: "id".to_string() };
    let part = |n: i32| Ok(SentPart { number: n, etag: "e".to_string() });
    let p = step(
        sending(),
        UploadEvent::PartsSent(vec![part(1), Err(failed("first")), Err(failed("second"))]),
        true,
    );
    match &p {
        UploadPhase::Aborting { upload_id, cause } => {
            assert_eq!(upload_id, "id");
            assert_eq!(cause, &failed("first"));
        }
        other => panic!("got {other:?}"),
    }
    let p = step(p, UploadEvent::Aborted, true);
    assert!(matches!(p, UploadPhase::Releasing { failure: Some(_) }));
    let p = step(p, UploadEvent::Released, true);
    assert!(matches!(p, UploadPhase::Finished { outcome: Err(SnapshotError::Io(m)) } if m == "first"));

    let p = step(sending(), UploadEvent::PartsSent(vec![part(1)]), true);
    let p = step(p, UploadEvent::Completed(Err(failed("late"))), true);
    assert!(matches!(p, UploadPhase::Aborting { .. }));

    let p = step(UploadPhase::Creating, UploadEvent::Created(Err(failed("no"))), true);
    assert!(matches!(p, UploadPhase::Releasing { failure: Some(SnapshotError::Io(m)) } if m == "no"));
}

#[test]
fn parts_tile_a_file() {
    assert_eq!(
        part_ranges(10, 4),
        vec![
            PartRange { start: 0, end: 4 },
            PartRange { start: 4, end: 8 },
            PartRange { start: 8, end: 10 },
        ]
    );
    assert_eq!(part_ranges(8, 4).len(), 2);
    assert_eq!(part_ranges(0, 4), vec![]);
    assert_eq!(part_ranges(3, u64::MAX), vec![PartRange { start: 0, end: 3 }]);
    assert_eq!(
        upload_parts(10, 4),
        vec![
            UploadPart { number: 1, offset: 0, size: 4 },
            UploadPart { number: 2, offset: 4, size: 4 },
            UploadPart { number: 3, offset: 8, size: 2 },
        ]
    );
}

#[test]
fn chunks_are_hashed_one_by_one_and_make_up_the_file() {
    let data = vec![42u8; 1024];
    let chunks = hash_chunks(&data, 256);
    assert_eq!(chunks.len(), 4);
    for c in &chunks {
        assert_eq!(c.data.len(), 256);
        assert_eq!(c.hash, hash_data(&data[..256]));
    }
    let odd: Vec<u8> = (0..10).collect();
    let pieces = split_data(&odd, 4);
    assert_eq!(pieces.concat(), odd);
    assert_eq!(pieces[2], vec![8, 9]);
    let empty = hash_chunks(&vec![], 4);
    assert_eq!(empty.len(), 1);
    assert_eq!(empty[0].hash, hash_data(b""));
}

#[test]
fn chunks_come_back_whatever_the_order() {
    for len in [0usize, 1, 9, 10, 40, 41] {
        let data: Vec<u8> = (0..len as u8).collect();
        for (part_size, ranges) in [(2, true), (3, true), (100, true), (0, false)] {
            let chunks = hash_chunks(&data, 10);
            let hashes: Vec<String> = chunks.iter().map(|c| c.hash.clone()).collect();
            let mut plan = plan_chunks(&hashes, len as u64, 10, part_size, ranges);
            plan.reverse();
            let mut file = vec![255u8; len];
            for fetch in &plan {
                let stored = |h: &String| &chunks.iter().find(|c| c.hash == *h).unwrap().data;
                let (at, bytes) = match fetch {
                    ChunkFetch::Object { hash, offset } => {
                        assert_eq!(verify_chunk(stored(hash), hash, *offset), Ok(()));
                        (*offset as usize, stored(hash).clone())
                    }
                    ChunkFetch::Range { hash, start, end, write_offset } => {
                        let bytes = &stored(hash)[*start as usize..=*end as usize];
                        (*write_offset as usize, bytes.to_vec())
                    }
                };
                file[at..at + bytes.len()].copy_from_slice(&bytes);
            }
            assert_eq!(file, data);
        }
    }
}

#[test]
fn parts_of_an_object_come_back_whatever_the_order() {
    let data: Vec<u8> = (0..23).collect();
    let mut file = vec![255u8; 23];
    let mut ranges = part_ranges(23, 5);
    ranges.reverse();
    for r in ranges {
        let (from, to) = (r.start as usize, r.end as usize);
        file[from..to].copy_from_slice(&data[from..to]);
    }
    assert_eq!(file, data);
}

#[test]
fn collected_parts_have_increasing_numbers() {
    let sent = |n: i32| Ok(SentPart { number: n, etag: format!("e{n}") });
    let parts = collect_parts(vec![sent(4), sent(1), sent(3), sent(2)]).expect("all sent");
    let seen: Vec<(i32, &str)> = parts.iter().map(|p| (p.number, p.etag.as_str())).collect();
    assert_eq!(seen, vec![(1, "e1"), (2, "e2"), (3, "e3"), (4, "e4")]);
    assert!(collect_parts(vec![]).expect("nothing sent").is_empty());
    assert!(collect_parts(vec![sent(2), Err(failed("x")), sent(1)]).is_err());
}

#[test]
fn chunked_file_is_uploaded_if_any_chunk_was() {
    let data: Vec<u8> = (0..10).collect();
    let chunks = hash_chunks(&data, 8);
    match chunked_result(&chunks, vec![Ok(false), Ok(true)]) {
        Ok(FileResult::Chunked { hashes, uploaded: true, hashed_bytes: 10 }) => {
            assert_eq!(hashes, vec![hash_data(&data[..8]), hash_data(&data[8..])])
        }
        other => panic!("got {other:?}"),
    }
    assert!(matches!(
        chunked_result(&chunks, vec![Ok(false), Ok(false)]),
        Ok(FileResult::Chunked { uploaded: false, .. })
    ));
    match chunked_result(&chunks, vec![Ok(true), Err(failed("x")), Err(failed("y"))]) {
        Err(e) => assert_eq!(e, failed("x")),
        other => panic!("got {other:?}"),
    }
    let chunk = |hash: &str, n: usize| HashedChunk { hash: hash.to_string(), data: vec![0; n] };
    match chunked_result(&vec![chunk("a", 5), chunk("b", 3)], vec![Ok(false), Ok(false)]) {
        Ok(FileResult::Chunked { hashes: h, uploaded: false, hashed_bytes: 8 }) => {
            assert_eq!(h, hashes(&["a", "b"]))
        }
        other => panic!("got {other:?}"),
    }
}

#[test]
fn options_have_their_defaults() {
    let o = HashUploadOptions::default();
    assert!(!o.force_rehash && o.max_workers.is_none() && o.max_memory_bytes.is_none());
    let mut m = Manifest {
        hash_alg: HashAlgorithm::Xxh128,
        file_chunk_size_bytes: 7,
        files: vec![],
        dirs: vec![],
    };
    assert_eq!(o.chunk_size(&m), 7);
    let own = HashUploadOptions { file_chunk_size_bytes: Some(3), ..o };
    assert_eq!(own.chunk_size(&m), 3);
    assert_eq!(worker_count(None), 10);
    assert_eq!(worker_count(Some(2)), 2);
    let d = DownloadOptions::default();
    assert_eq!(d.file_conflict_resolution, FileConflictResolution::Overwrite);
    assert!(d.apply_deletes);
    assert!(creates_symlinks(d.symlink_policy));
    assert!(!creates_symlinks(SymlinkPolicy::ExcludeAll));
    m.file_chunk_size_bytes = 9;
    let diff = AbsManifest::Diff(Manifest {
        hash_alg: HashAlgorithm::Xxh128,
        file_chunk_size_bytes: 1,
        files: vec![],
        dirs: vec![],
    });
    assert_eq!(diff.manifest().file_chunk_size_bytes, 1);
    assert!(matches!(diff.replaced(m), AbsManifest::Diff(m) if m.file_chunk_size_bytes == 9));
}

fn evaluate(
    f: &FileEntry,
    cache: &Option<HashCache>,
    conflict: FileConflictResolution,
    disk: DiskFacts,
) -> (SkipEvaluation, DownloadStatistics) {
    let mut stats = DownloadStatistics::new();
    let mut work = Vec::new();
    collect_work_item(4, f, 3, "xxh128", cache, conflict, disk, &mut stats, &mut work);
    assert_eq!(work.len(), 1);
    assert_eq!(stats.total_files, 1);
    (work[0], stats)
}

#[test]
fn existing_file_is_kept_or_replaced_by_the_policy() {
    let mut f = file("/existing.txt", 11, 1000);
    f.hash = Some("h".to_string());
    let there = DiskFacts { exists: true, mtime: Some(5) };
    let (e, s) = evaluate(&f, &None, FileConflictResolution::Skip, there);
    assert_eq!(e, SkipEvaluation { index: 4, skipped: true, mtime: 5 });
    assert_eq!((s.skipped_files, s.skipped_bytes, s.total_bytes), (1, 11, 11));
    let unread = DiskFacts { exists: true, mtime: None };
    let (e, _) = evaluate(&f, &None, FileConflictResolution::Skip, unread);
    assert_eq!(e, SkipEvaluation { index: 4, skipped: true, mtime: 0 });
    for policy in [FileConflictResolution::Overwrite, FileConflictResolution::CreateCopy] {
        let (e, s) = evaluate(&f, &None, policy, there);
        assert_eq!(e, SkipEvaluation { index: 4, skipped: false, mtime: 0 });
        assert_eq!(s.skipped_files, 0);
    }
    let absent = DiskFacts { exists: false, mtime: None };
    let (e, _) = evaluate(&f, &None, FileConflictResolution::Skip, absent);
    assert!(!e.skipped);
}

#[test]
fn downloaded_file_is_skipped_while_it_stays_the_same() {
    let mut cache = Some(HashCache::new());
    let mut f = file("/f", 6, 1000);
    f.hash = Some("h".to_string());
    finalize_downloaded_file(&mut f, "/f", &mut cache, "xxh128", 3, 77);
    assert_eq!(f.mtime, Some(77));
    let policy = FileConflictResolution::Overwrite;
    let there = DiskFacts { exists: true, mtime: Some(77) };
    let (e, _) = evaluate(&f, &cache, policy, there);
    assert_eq!(e, SkipEvaluation { index: 4, skipped: true, mtime: 77 });
    let changed = DiskFacts { exists: true, mtime: Some(78) };
    assert!(!evaluate(&f, &cache, policy, changed).0.skipped);
    f.hash = Some("other".to_string());
    assert!(!evaluate(&f, &cache, policy, there).0.skipped);
    f.mtime = None;
    f.hash = Some("h".to_string());
    assert!(!evaluate(&f, &cache, policy, there).0.skipped);

    let mut g = file("/g", 7, 1000);
    g.chunk_hashes = Some(hashes(&["a", "b", "c"]));
    finalize_downloaded_file(&mut g, "/g", &mut cache, "xxh128", 3, 77);
    assert!(evaluate(&g, &cache, policy, there).0.skipped);
    g.chunk_hashes = Some(hashes(&["a", "x", "c"]));
    assert!(!evaluate(&g, &cache, policy, there).0.skipped);
    g.chunk_hashes = Some(vec![]);
    assert!(!evaluate(&g, &cache, policy, there).0.skipped);
}

#[test]
fn skipped_files_take_over_their_times() {
    let mut files = vec![file("/a", 1, 10), file("/b", 2, 20), file("/c", 3, 30)];
    let work = vec![
        SkipEvaluation { index: 2, skipped: true, mtime: 99 },
        SkipEvaluation { index: 0, skipped: false, mtime: 0 },
        SkipEvaluation { index: 1, skipped: true, mtime: 0 },
    ];
    assert_eq!(
        download_items(&work, &files),
        vec![DownloadWorkItem { index: 0, file_size: 1 }]
    );
    apply_skipped_mtimes(&mut files, &work);
    let times: Vec<Option<u64>> = files.iter().map(|f| f.mtime).collect();
    assert_eq!(times, vec![Some(10), Some(20), Some(99)]);
}

#[test]
fn statistics_hold_what_is_skipped_and_what_is_to_be_fetched() {
    let files = vec![file("/a", 1, 10), file("/b", 20, 20), file("/c", 300, 30), file("/d", 0, 1)];
    let mut stats = DownloadStatistics::new();
    let mut work = Vec::new();
    for index in [2, 0, 3, 1] {
        let disk = DiskFacts { exists: index % 2 == 0, mtime: None };
        let policy = FileConflictResolution::Skip;
        let f = &files[index];
        collect_work_item(index, f, 3, "xxh128", &None, policy, disk, &mut stats, &mut work);
    }
    assert_eq!((stats.total_files, stats.total_bytes), (4, 321));
    assert_eq!((stats.skipped_files, stats.skipped_bytes), (2, 301));
    assert_eq!((stats.downloaded_files, stats.downloaded_bytes), (0, 0));
    let items = download_items(&work, &files);
    assert_eq!(items.len(), 2);
    assert_eq!(items.iter().map(|i| i.file_size).sum::<u64>(), 20);
}

#[test]
fn downloads_are_counted() {
    let mut f = file("/f", 6, 1);
    f.hash = Some("h".to_string());
    let absent = DiskFacts { exists: false, mtime: None };
    let (_, mut s) = evaluate(&f, &None, FileConflictResolution::Overwrite, absent);
    assert_eq!(download_progress(&s), 0);
    record_downloaded_file(&mut s, 6);
    assert_eq!((s.downloaded_files, s.downloaded_bytes), (1, 6));
    assert_eq!(download_progress(&s), 6);
}

#[test]
fn deleted_directories_go_deepest_first() {
    let dir = |p: &str, deleted| DirEntry { path: p.to_string(), deleted };
    let plan = delete_plan(
        &vec![
            FileEntry::deleted("/z".to_string()),
            file("/kept", 1, 1),
            FileEntry::deleted("/a/gone.txt".to_string()),
        ],
        &vec![dir("/a", true), dir("/a/b/c", true), dir("/b", false), dir("/a/b", true)],
    );
    assert_eq!(plan.files, vec!["/z", "/a/gone.txt"]);
    assert_eq!(plan.dirs, vec!["/a/b/c", "/a/b", "/a"]);
}

#[test]
fn directories_are_created_before_their_files() {
    let files = vec![
        file("/d/x", 1, 1),
        file("/other/y", 1, 1),
        link("/d/l", "/d/x"),
        file("/d/z", 1, 1),
        file("here", 1, 1),
    ];
    let dirs = vec![
        DirEntry::new("/e".to_string()),
        DirEntry::new("/d".to_string()),
        DirEntry { path: "/gone".to_string(), deleted: true },
        DirEntry::new("/d".to_string()),
    ];
    let parents = hashes(&["/d", "/other", "/d", "/d", ""]);
    let steps: Vec<String> = build_download_work_list(&files, &dirs, &parents)
        .iter()
        .map(|s| match s {
            DownloadStep::CreateDir(d) => format!("mkdir {d}"),
            DownloadStep::Evaluate(i) => format!("file {i}"),
        })
        .collect();
    assert_eq!(
        steps,
        vec!["mkdir /d", "file 0", "file 3", "mkdir /e", "file 4", "mkdir /other", "file 1"]
    );
}

#[test]
fn copies_take_the_first_free_number() {
    assert_eq!(create_copy_path("file.txt", &hashes(&["file.txt"])), "file (1).txt");
    assert_eq!(
        create_copy_path("file.txt", &hashes(&["file (2).txt", "file (1).txt"])),
        "file (3).txt"
    );
    assert_eq!(create_copy_path("archive.tar.gz", &vec![]), "archive.tar (1).gz");
    assert_eq!(create_copy_path(".bashrc", &vec![]), ".bashrc (1)");
    assert_eq!(create_copy_path("name.", &vec![]), "name (1).");
    assert_eq!(create_copy_path("plain", &vec![]), "plain (1)");
    assert_eq!(create_copy_path("..", &vec![]), " (1)");
    assert_eq!(create_copy_path(".", &vec![]), " (1)");
    assert_eq!(create_copy_path("...", &vec![]), ".. (1).");
}

#[test]
fn target_is_a_copy_only_where_the_file_exists() {
    let taken = hashes(&["file.txt"]);
    let copy = FileConflictResolution::CreateCopy;
    assert_eq!(resolve_target_path("file.txt", true, copy, &taken), "file (1).txt");
    assert_eq!(resolve_target_path("file.txt", false, copy, &taken), "file.txt");
    let over = FileConflictResolution::Overwrite;
    assert_eq!(resolve_target_path("file.txt", true, over, &taken), "file.txt");
}

#[test]
fn temporary_names_end_in_a_number() {
    assert_eq!(temp_download_name("a.txt", 255), "a.txt.tmp000000ff");
    assert_eq!(temp_download_name("plain", u64::MAX), "plain.tmpffffffffffffffff");
    assert_eq!(temp_download_name("name.", 16), "name..tmp00000010");
    assert_eq!(temp_download_name("..", 1), "..");
    assert_eq!(temp_download_name(".", 1), ".");
    assert_eq!(temp_download_name("", 1), "");
}

#[test]
fn chunks_are_fetched_to_their_places() {
    let mut f = file("/chunked.bin", 12, 1000);
    f.chunk_hashes = Some(hashes(&["a", "b", "c", "d"]));
    match plan_fetch(&f, 3, 100, true) {
        Ok(FetchPlan::Chunks(v)) => {
            let offsets: Vec<u64> = v
                .iter()
                .map(|c| match c {
                    ChunkFetch::Object { offset, .. } => *offset,
                    other => panic!("got {other:?}"),
                })
                .collect();
            assert_eq!(offsets, vec![0, 3, 6, 9]);
        }
        other => panic!("got {other:?}"),
    }
}

#[test]
fn large_chunks_are_fetched_in_ranges() {
    let mut f = file("/f", 15, 1000);
    f.chunk_hashes = Some(hashes(&["a", "b"]));
    match plan_fetch(&f, 10, 4, true) {
        Ok(FetchPlan::Chunks(v)) => {
            let said: Vec<String> = v
                .iter()
                .map(|c| match c {
                    ChunkFetch::Object { hash, offset } => format!("{hash} at {offset}"),
                    ChunkFetch::Range { hash, start, end, write_offset } => {
                        format!("{hash} {start}-{end} at {write_offset}")
                    }
                })
                .collect();
            assert_eq!(said, vec!["a 0-3 at 0", "a 4-7 at 4", "a 8-9 at 8", "b at 10"]);
        }
        other => panic!("got {other:?}"),
    }
    assert!(matches!(
        plan_fetch(&f, 10, 4, false),
        Ok(FetchPlan::Chunks(v)) if v.len() == 2
    ));
}

#[test]
fn whole_files_are_fetched_at_once_or_in_parts() {
    let mut f = file("/f", 15, 1000);
    f.hash = Some("h".to_string());
    assert!(matches!(plan_fetch(&f, 10, 8, true), Ok(FetchPlan::Whole)));
    assert!(matches!(plan_fetch(&f, 10, 7, false), Ok(FetchPlan::Whole)));
    match plan_fetch(&f, 10, 7, true) {
        Ok(FetchPlan::Parts(v)) => assert_eq!(v, part_ranges(15, 7)),
        other => panic!("got {other:?}"),
    }
    f.hash = None;
    match plan_fetch(&f, 10, 7, true) {
        Err(e) => assert_eq!(
            e,
            SnapshotError::Validation("file has no hash or chunk_hashes: /f".to_string())
        ),
        other => panic!("got {other:?}"),
    }
}

#[test]
fn contents_with_another_hash_are_refused() {
    let h = hash_data(b"data");
    assert_eq!(verify_whole(b"data", &h, "/f"), Ok(()));
    assert_eq!(verify_chunk(b"data", &h, 12), Ok(()));
    let other = hash_data(b"datb");
    assert_eq!(
        verify_whole(b"datb", &h, "/f"),
        Err(failed(&format!("hash mismatch for /f: expected {h}, got {other}")))
    );
    assert_eq!(
        verify_chunk(b"datb", &h, 12),
        Err(failed(&format!(
            "hash mismatch for chunk at offset 12: expected {h}, got {other}"
        )))
    );
}

#[test]
fn hashes_of_chunks_leave_that_of_the_whole() {
    let mut cache = Some(HashCache::new());
    let mut f = file("/f", 7, 1000);
    f.hash = Some("h".to_string());
    f.chunk_hashes = Some(hashes(&["a", "b", "c"]));
    finalize_downloaded_file(&mut f, "/f", &mut cache, "xxh128", 3, 77);
    let there = DiskFacts { exists: true, mtime: Some(77) };
    let policy = FileConflictResolution::Overwrite;
    assert!(evaluate(&f, &cache, policy, there).0.skipped);
    f.chunk_hashes = None;
    assert!(evaluate(&f, &cache, policy, there).0.skipped);
    f.chunk_hashes = Some(hashes(&["a", "b", "c"]));
    f.hash = None;
    assert!(evaluate(&f, &cache, policy, there).0.skipped);
    let c = cache.expect("kept");
    assert_eq!(c.get_if_fresh("/f", "xxh128", 0, -1, 77), Some("h".to_string()));
    assert_eq!(c.rows.len(), 4);
}
