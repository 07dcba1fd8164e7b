use index_media_server::models::{ItemKind, ItemMeta, ScanStatus};
use index_media_server::scanner::{
    finish_directory, process_video_file, select_scan_candidate, complete_migration, FileStep,
    is_movie_in_matching_folder, SourcePathTracker, TempFileManager, ScanError,
};
use index_media_server::store::{MediaStore, StoreError};

fn new_index(store: &mut MediaStore) -> i64 {
    store
        .add_index("Library".to_string(), "videos".to_string(), None, Vec::new(), 1)
        .unwrap()
}

fn scan_file(
    store: &mut MediaStore,
    index_id: i64,
    temp: &mut TempFileManager,
    tracker: &mut SourcePathTracker,
    path: &str,
    size: i64,
    hash: &str,
    now: i64,
) -> FileStep {
    process_video_file(store, index_id, path, size, 10, hash, temp, tracker, now).unwrap()
}

#[test]
fn tv_hierarchy_from_season_folder() {
    let mut store = MediaStore::new();
    let idx = new_index(&mut store);
    let mut temp = TempFileManager::new("scratch".to_string());
    let mut tracker = SourcePathTracker::new();
    scan_file(&mut store, idx, &mut temp, &mut tracker, "/media/TV/Some Show/Season 2/E05.mkv", 1000, "h1", 100);
    let committed = finish_directory(&mut store, &mut temp, &mut tracker, "/media/TV/Some Show", idx, 100).unwrap();
    assert!(committed);

    let shows = store.get_video_items_by_source_path(idx, "/media/TV/Some Show");
    assert_eq!(shows.len(), 1);
    let show = &shows[0];
    assert_eq!(show.kind, ItemKind::Show);
    assert_eq!(show.title, "Some Show");

    let seasons = store.get_video_items_by_parent_and_number(show.id, 2);
    assert_eq!(seasons.len(), 1);
    assert_eq!(seasons[0].kind, ItemKind::Season);
    assert_eq!(seasons[0].title, "Season 2");

    let episodes = store.get_video_items_by_parent_and_number(seasons[0].id, 5);
    assert_eq!(episodes.len(), 1);
    assert_eq!(episodes[0].kind, ItemKind::Episode);
    assert_eq!(episodes[0].title, "Episode 5");

    let versions = store.get_video_versions_by_item(episodes[0].id);
    assert_eq!(versions.len(), 1);
    let parts = store.get_video_parts_by_version(versions[0].id);
    assert_eq!(parts.len(), 1);
    assert_eq!(parts[0].path, "/media/TV/Some Show/Season 2/E05.mkv");
}

#[test]
fn movie_with_extra_attached() {
    let mut store = MediaStore::new();
    let idx = new_index(&mut store);
    let mut temp = TempFileManager::new("scratch".to_string());
    let mut tracker = SourcePathTracker::new();
    scan_file(&mut store, idx, &mut temp, &mut tracker, "/Movies/Avatar (2009)/Avatar (2009).mkv", 5000, "hm", 100);
    scan_file(&mut store, idx, &mut temp, &mut tracker, "/Movies/Avatar (2009)/Behind The Scenes/Making Of.mkv", 600, "he", 100);
    let committed = finish_directory(&mut store, &mut temp, &mut tracker, "/Movies/Avatar (2009)", idx, 100).unwrap();
    assert!(committed);

    let movies = store.get_video_items_by_source_path(idx, "/Movies/Avatar (2009)");
    assert_eq!(movies.len(), 1);
    let movie = &movies[0];
    assert_eq!(movie.kind, ItemKind::Movie);
    assert_eq!(movie.title, "Avatar");
    assert_eq!(movie.year, Some(2009));

    let children = store.get_video_item_children(movie.id);
    assert_eq!(children.len(), 1);
    assert_eq!(children[0].kind, ItemKind::Extra);
    assert_eq!(children[0].title, "Making Of");
    assert_eq!(children[0].metadata.extra_type, Some("behindthescenes".to_string()));
}

#[test]
fn multi_part_movie_shares_one_version() {
    let mut store = MediaStore::new();
    let idx = new_index(&mut store);
    let mut temp = TempFileManager::new("scratch".to_string());
    let mut tracker = SourcePathTracker::new();
    scan_file(&mut store, idx, &mut temp, &mut tracker, "/Movies/Avatar (2009)/Avatar (2009) - part1.mkv", 5000, "p1", 100);
    scan_file(&mut store, idx, &mut temp, &mut tracker, "/Movies/Avatar (2009)/Avatar (2009) - part2.mkv", 5001, "p2", 100);
    finish_directory(&mut store, &mut temp, &mut tracker, "/Movies/Avatar (2009)", idx, 100).unwrap();

    let movies = store.get_video_items_by_source_path(idx, "/Movies/Avatar (2009)");
    assert_eq!(movies.len(), 1);
    let versions = store.get_video_versions_by_item(movies[0].id);
    assert_eq!(versions.len(), 1);
    let mut parts = store.get_video_parts_by_version(versions[0].id);
    assert_eq!(parts.len(), 2);
    parts.sort_by_key(|p| p.part_index);
    assert_eq!(parts[0].part_index, 1);
    assert_eq!(parts[1].part_index, 2);
}

#[test]
fn rename_within_source_path_updates_part() {
    let mut store = MediaStore::new();
    let idx = new_index(&mut store);
    let mut temp = TempFileManager::new("scratch".to_string());
    let mut tracker = SourcePathTracker::new();
    scan_file(&mut store, idx, &mut temp, &mut tracker, "/a/Show/Season 1/E01.mkv", 1000, "same", 100);
    finish_directory(&mut store, &mut temp, &mut tracker, "/a/Show", idx, 100).unwrap();
    let items_before = store.get_video_items_by_index(idx).len();

    // rescan after a rename that keeps the file inside the same source path
    let mut temp2 = TempFileManager::new("scratch".to_string());
    let mut tracker2 = SourcePathTracker::new();
    let step = scan_file(&mut store, idx, &mut temp2, &mut tracker2, "/a/Show/Season 1/E01 remastered.mkv", 1000, "same", 200);
    assert!(matches!(step, FileStep::PathUpdated));
    finish_directory(&mut store, &mut temp2, &mut tracker2, "/a/Show", idx, 200).unwrap();

    assert_eq!(store.get_video_items_by_index(idx).len(), items_before);
    let parts = store.get_video_parts_by_size_and_hash(1000, "same");
    assert_eq!(parts.len(), 1);
    assert_eq!(parts[0].path, "/a/Show/Season 1/E01 remastered.mkv");
}

#[test]
fn move_between_source_paths_migrates_item() {
    let mut store = MediaStore::new();
    let idx = new_index(&mut store);
    let mut temp = TempFileManager::new("scratch".to_string());
    let mut tracker = SourcePathTracker::new();
    scan_file(&mut store, idx, &mut temp, &mut tracker, "/a/Show/Season 1/E01.mkv", 1000, "same", 100);
    finish_directory(&mut store, &mut temp, &mut tracker, "/a/Show", idx, 100).unwrap();

    // the whole show folder moved from /a to /b; the old folder is gone
    let mut temp2 = TempFileManager::new("scratch".to_string());
    let mut tracker2 = SourcePathTracker::new();
    let step = scan_file(&mut store, idx, &mut temp2, &mut tracker2, "/b/Show/Season 1/E01.mkv", 1000, "same", 200);
    match step {
        FileStep::NeedsMigration { part_id, old_source_path, new_source_path } => {
            assert_eq!(old_source_path, "/a/Show");
            assert_eq!(new_source_path, "/b/Show");
            complete_migration(&mut store, part_id, &new_source_path, false, "/b/Show/Season 1/E01.mkv", 10, 200).unwrap();
        },
        other => panic!("expected a migration, got {:?}", other),
    }
    finish_directory(&mut store, &mut temp2, &mut tracker2, "/b/Show", idx, 200).unwrap();

    assert_eq!(store.get_video_items_by_source_path(idx, "/a/Show").len(), 0);
    assert_eq!(store.get_video_items_by_source_path(idx, "/b/Show").len(), 1);
    let parts = store.get_video_parts_by_size_and_hash(1000, "same");
    assert_eq!(parts.len(), 1);
    assert_eq!(parts[0].path, "/b/Show/Season 1/E01.mkv");
}

#[test]
fn rescan_is_idempotent() {
    let files = [
        ("/media/TV/Some Show/Season 1/E01.mkv", 100i64, "a1"),
        ("/media/TV/Some Show/Season 1/E02.mkv", 101, "a2"),
        ("/Movies/Avatar (2009)/Avatar (2009).mkv", 102, "a3"),
    ];
    let mut store = MediaStore::new();
    let idx = new_index(&mut store);
    for round in 0..2 {
        let now = 100 + round;
        let mut temp = TempFileManager::new("scratch".to_string());
        let mut tracker = SourcePathTracker::new();
        for (path, size, hash) in files.iter() {
            if path.starts_with("/media") {
                scan_file(&mut store, idx, &mut temp, &mut tracker, path, *size, hash, now);
            }
        }
        finish_directory(&mut store, &mut temp, &mut tracker, "/media/TV/Some Show", idx, now).unwrap();
        for (path, size, hash) in files.iter() {
            if path.starts_with("/Movies") {
                scan_file(&mut store, idx, &mut temp, &mut tracker, path, *size, hash, now);
            }
        }
        finish_directory(&mut store, &mut temp, &mut tracker, "/Movies/Avatar (2009)", idx, now).unwrap();
        store.cleanup_deleted_files(idx, 100 + round);
    }
    // same catalog after the second pass: one show, one season, two episodes, one movie
    let items = store.get_video_items_by_index(idx);
    assert_eq!(items.len(), 5);
    assert_eq!(store.get_video_parts_by_size_and_hash(100, "a1").len(), 1);
    assert_eq!(store.get_video_parts_by_size_and_hash(101, "a2").len(), 1);
    assert_eq!(store.get_video_parts_by_size_and_hash(102, "a3").len(), 1);
}

#[test]
fn interrupted_scan_recovers_to_same_state() {
    let mut store = MediaStore::new();
    let idx = new_index(&mut store);
    // a first scan dies before its commit: buffers are simply lost
    let mut temp = TempFileManager::new("scratch".to_string());
    let mut tracker = SourcePathTracker::new();
    scan_file(&mut store, idx, &mut temp, &mut tracker, "/media/TV/Some Show/Season 1/E01.mkv", 100, "x1", 100);
    drop(temp);
    drop(tracker);
    // the restarted scan runs from the beginning
    let mut temp2 = TempFileManager::new("scratch".to_string());
    let mut tracker2 = SourcePathTracker::new();
    scan_file(&mut store, idx, &mut temp2, &mut tracker2, "/media/TV/Some Show/Season 1/E01.mkv", 100, "x1", 200);
    finish_directory(&mut store, &mut temp2, &mut tracker2, "/media/TV/Some Show", idx, 200).unwrap();
    store.cleanup_deleted_files(idx, 150);

    let items = store.get_video_items_by_index(idx);
    assert_eq!(items.len(), 3);
    assert_eq!(store.get_video_parts_by_size_and_hash(100, "x1").len(), 1);
}

#[test]
fn reap_removes_unseen_files() {
    let mut store = MediaStore::new();
    let idx = new_index(&mut store);
    let mut temp = TempFileManager::new("scratch".to_string());
    let mut tracker = SourcePathTracker::new();
    scan_file(&mut store, idx, &mut temp, &mut tracker, "/media/TV/Some Show/Season 1/E01.mkv", 100, "r1", 100);
    scan_file(&mut store, idx, &mut temp, &mut tracker, "/media/TV/Some Show/Season 1/E02.mkv", 101, "r2", 100);
    finish_directory(&mut store, &mut temp, &mut tracker, "/media/TV/Some Show", idx, 100).unwrap();

    // the second file disappears from disk; the rescan only sees the first
    let mut temp2 = TempFileManager::new("scratch".to_string());
    let mut tracker2 = SourcePathTracker::new();
    scan_file(&mut store, idx, &mut temp2, &mut tracker2, "/media/TV/Some Show/Season 1/E01.mkv", 100, "r1", 300);
    finish_directory(&mut store, &mut temp2, &mut tracker2, "/media/TV/Some Show", idx, 300).unwrap();
    let (parts_gone, versions_gone, items_gone) = store.cleanup_deleted_files(idx, 200);

    assert_eq!(parts_gone, 1);
    assert_eq!(versions_gone, 1);
    assert_eq!(items_gone, 1);
    assert_eq!(store.get_video_parts_by_size_and_hash(101, "r2").len(), 0);
    assert_eq!(store.get_video_parts_by_size_and_hash(100, "r1").len(), 1);
}

#[test]
fn duplicate_content_key_is_refused() {
    let mut store = MediaStore::new();
    let idx = new_index(&mut store);
    let item = store
        .add_video_item(idx, ItemKind::Video, "v".to_string(), None, None, None, None, ItemMeta::empty(), 1)
        .unwrap();
    let version = store
        .add_video_version_with_params(item, None, None, None, None, false, None, None, None, None, 1)
        .unwrap();
    store
        .add_video_part_with_params(version, "/x/a.mkv".to_string(), Some(5), Some(1), 0, None, Some("k".to_string()), 1)
        .unwrap();
    let dup = store.add_video_part_with_params(
        version,
        "/x/b.mkv".to_string(),
        Some(5),
        Some(1),
        0,
        None,
        Some("k".to_string()),
        1,
    );
    assert_eq!(dup, Err(StoreError::DuplicateContentKey));
}

#[test]
fn duplicate_source_path_is_refused() {
    let mut store = MediaStore::new();
    let idx = new_index(&mut store);
    store
        .add_video_item(idx, ItemKind::Movie, "a".to_string(), None, Some("/m/A".to_string()), None, None, ItemMeta::empty(), 1)
        .unwrap();
    let dup = store.add_video_item(
        idx,
        ItemKind::Movie,
        "b".to_string(),
        None,
        Some("/m/A".to_string()),
        None,
        None,
        ItemMeta::empty(),
        1,
    );
    assert_eq!(dup, Err(StoreError::DuplicateSourcePath));
}

#[test]
fn duplicate_ordinal_is_refused() {
    let mut store = MediaStore::new();
    let idx = new_index(&mut store);
    let show = store
        .add_video_item(idx, ItemKind::Show, "s".to_string(), None, None, None, None, ItemMeta::empty(), 1)
        .unwrap();
    store
        .add_video_item(idx, ItemKind::Season, "Season 1".to_string(), Some(show), None, Some(1), None, ItemMeta::empty(), 1)
        .unwrap();
    let dup = store.add_video_item(
        idx,
        ItemKind::Season,
        "Season one".to_string(),
        Some(show),
        None,
        Some(1),
        None,
        ItemMeta::empty(),
        1,
    );
    assert_eq!(dup, Err(StoreError::DuplicateNumber));
}

#[test]
fn missing_parent_is_refused() {
    let mut store = MediaStore::new();
    let idx = new_index(&mut store);
    let r = store.add_video_item(
        idx,
        ItemKind::Season,
        "Season 1".to_string(),
        Some(999),
        None,
        Some(1),
        None,
        ItemMeta::empty(),
        1,
    );
    assert_eq!(r, Err(StoreError::MissingParent));
}

#[test]
fn delete_index_cascades() {
    let mut store = MediaStore::new();
    let idx = new_index(&mut store);
    let item = store
        .add_video_item(idx, ItemKind::Video, "v".to_string(), None, None, None, None, ItemMeta::empty(), 1)
        .unwrap();
    let version = store
        .add_video_version_with_params(item, None, None, None, None, false, None, None, None, None, 1)
        .unwrap();
    store
        .add_video_part_with_params(version, "/x/a.mkv".to_string(), Some(5), Some(1), 0, None, Some("k".to_string()), 1)
        .unwrap();
    store.delete_index(idx).unwrap();
    assert!(store.get_index_by_id(idx).is_none());
    assert_eq!(store.get_video_items_by_index(idx).len(), 0);
    assert_eq!(store.get_video_parts_by_size_and_hash(5, "k").len(), 0);
}

#[test]
fn layout_conflict_for_bare_movie_inside_source_path() {
    let mut store = MediaStore::new();
    let idx = new_index(&mut store);
    let mut temp = TempFileManager::new("scratch".to_string());
    let mut tracker = SourcePathTracker::new();
    scan_file(&mut store, idx, &mut temp, &mut tracker, "/Movies/Avatar (2009)/Avatar (2009).mkv", 10, "m1", 100);
    // a movie file whose folder does not carry its name, inside the tracked subtree
    let r = process_video_file(&mut store, idx, "/Movies/Avatar (2009)/Solaris.1972.mkv", 11, 10, "m2", &mut temp, &mut tracker, 100);
    assert!(matches!(r, Err(ScanError::LayoutConflict)));
}

#[test]
fn bare_movie_outside_source_path_added_immediately() {
    let mut store = MediaStore::new();
    let idx = new_index(&mut store);
    let mut temp = TempFileManager::new("scratch".to_string());
    let mut tracker = SourcePathTracker::new();
    let step = scan_file(&mut store, idx, &mut temp, &mut tracker, "/Movies/Solaris.1972.mkv", 10, "m1", 100);
    assert!(matches!(step, FileStep::AddedImmediately));
    let items = store.get_video_items_by_title(idx, "Solaris.1972");
    assert_eq!(items.len(), 1);
    assert_eq!(items[0].kind, ItemKind::Movie);
    assert!(items[0].source_path.is_none());
}

#[test]
fn scheduler_prefers_recovery_then_oldest_queued() {
    let mut store = MediaStore::new();
    let a = store.add_index("a".to_string(), "videos".to_string(), None, Vec::new(), 1).unwrap();
    let b = store.add_index("b".to_string(), "videos".to_string(), None, Vec::new(), 1).unwrap();
    let c = store.add_index("c".to_string(), "videos".to_string(), None, Vec::new(), 1).unwrap();
    store.update_scan_status_with_timestamp(a, ScanStatus::Queued, 50).unwrap();
    store.update_scan_status_with_timestamp(b, ScanStatus::Queued, 20).unwrap();
    let indexes = store.get_all_indexes();
    let pick = select_scan_candidate(&indexes).unwrap();
    assert_eq!(indexes[pick].id, b);

    store.update_scan_status(c, ScanStatus::Scanning).unwrap();
    let indexes2 = store.get_all_indexes();
    let pick2 = select_scan_candidate(&indexes2).unwrap();
    assert_eq!(indexes2[pick2].id, c);
}

#[test]
fn matching_folder_requires_title_and_year() {
    assert!(is_movie_in_matching_folder("Avatar", Some(2009), "Avatar (2009)"));
    assert!(is_movie_in_matching_folder("Avatar", None, "avatar.collection"));
    assert!(!is_movie_in_matching_folder("Avatar", Some(2009), "Avatar (2010)"));
    assert!(!is_movie_in_matching_folder("Solaris", None, "Movies"));
}

#[test]
fn empty_path_is_generic() {
    let r = index_media_server::classifier::classify_path("");
    assert_eq!(r.media_type, index_media_server::classifier::MediaType::Generic);
    assert_eq!(r.generic.unwrap().title, "");
}

#[test]
fn tracker_rejects_a_second_source_path() {
    let mut tracker = SourcePathTracker::new();
    assert!(tracker.track_source_path("/a/Show").is_ok());
    assert!(tracker.track_source_path("/a/Show").is_ok());
    assert!(matches!(
        tracker.track_source_path("/b/Other"),
        Err(ScanError::LayoutConflict)
    ));
    assert!(tracker.has_source_path("/a/Show"));
    assert!(tracker.remove_source_path("/a/Show"));
    assert!(tracker.get_source_path().is_none());
}

#[test]
fn buffers_fill_and_clear() {
    let mut store = MediaStore::new();
    let idx = new_index(&mut store);
    let mut temp = TempFileManager::new("scratch".to_string());
    let mut tracker = SourcePathTracker::new();
    assert_eq!(temp.temp_dir(), "scratch");
    scan_file(&mut store, idx, &mut temp, &mut tracker, "/media/TV/Some Show/Season 1/E01.mkv", 1, "b1", 100);
    scan_file(&mut store, idx, &mut temp, &mut tracker, "/media/TV/Some Show/trailers/teaser.mkv", 2, "b2", 100);
    assert_eq!(temp.load_new_content(), 1);
    assert_eq!(temp.load_extras(), 1);
    finish_directory(&mut store, &mut temp, &mut tracker, "/media/TV/Some Show", idx, 100).unwrap();
    assert_eq!(temp.load_new_content(), 0);
    assert_eq!(temp.load_extras(), 0);
}
