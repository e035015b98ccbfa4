use data_fortress::db::{
    compute_stats, get_all_backups, get_all_present_files, get_backup, get_duplicate_groups,
    get_file_by_path, get_files_under, get_files_with_hash, get_named_files, get_unhashed_files,
    insert_backup, mark_absent, mark_all_absent, mark_present, remove_backup, search_files_by_category,
    search_files_by_name, set_content_hash, upsert_file, Database,
};
use data_fortress::models::{BackupRecord, FileCategory, FileRecord};
use data_fortress::rows::{
    backup_record_in, backup_record_to_row, file_record_in, file_record_to_row, row_to_backup_record,
    row_to_file_record,
};
use data_fortress::time::Timestamp;

fn time(secs: i64, nanos: u32) -> Timestamp {
    Timestamp::new(secs, nanos).unwrap()
}

fn record(path: &str, size: u64, hash: Option<&str>) -> FileRecord {
    FileRecord {
        id: None,
        path: path.to_string(),
        name: path.rsplit('/').next().unwrap().to_string(),
        extension: "txt".to_string(),
        category: FileCategory::Document,
        mime_type: "text/plain".to_string(),
        size_bytes: size,
        content_hash: hash.map(|h| h.to_string()),
        modified_at: time(1_710_000_000, 123_000_000),
        scanned_at: time(1_720_000_000, 5),
        is_present: true,
    }
}

fn backup(path: &str, created: i64) -> BackupRecord {
    BackupRecord {
        id: None,
        label: "weekly".to_string(),
        archive_path: path.to_string(),
        original_bytes: 1000,
        compressed_bytes: 400,
        algorithm: "zstd".to_string(),
        created_at: time(created, 0),
    }
}

fn filled() -> Database {
    let mut db = Database::new();
    for (path, size, hash) in [
        ("/b/two.txt", 20, Some("h2")),
        ("/a/one.txt", 10, Some("h1")),
        ("/c/three.txt", 10, Some("h1")),
        ("/d/four.txt", 5, None),
        ("/e/five.txt", 20, Some("h2")),
    ] {
        upsert_file(&mut db, &record(path, size, hash)).unwrap();
    }
    db
}

fn paths(files: Vec<FileRecord>) -> Vec<String> {
    files.into_iter().map(|f| f.path).collect()
}

#[test]
fn records_are_kept_once_for_each_path() {
    let mut db = Database::new();
    assert_eq!(upsert_file(&mut db, &record("/a", 1, None)).unwrap(), 1);
    assert_eq!(upsert_file(&mut db, &record("/b", 2, None)).unwrap(), 2);
    assert_eq!(upsert_file(&mut db, &record("/a", 3, Some("h"))).unwrap(), 1);
    let a = get_file_by_path(&db, "/a").unwrap();
    assert_eq!((a.id, a.size_bytes, a.content_hash), (Some(1), 3, Some("h".to_string())));
    assert!(get_file_by_path(&db, "/c").is_none());
    assert_eq!(db.file_records().len(), 2);
}

#[test]
fn ids_run_out() {
    let mut db = Database::from_records(Vec::new(), Vec::new(), i64::MAX, i64::MAX).unwrap();
    let e = upsert_file(&mut db, &record("/a", 1, None)).unwrap_err();
    assert_eq!(e.to_string(), "Database error: database or disk is full");
    let e = insert_backup(&mut db, &backup("/x", 1)).unwrap_err();
    assert_eq!(e.to_string(), "Database error: database or disk is full");
}

#[test]
fn hashes_and_presence() {
    let mut db = filled();
    set_content_hash(&mut db, "/d/four.txt", "h9");
    set_content_hash(&mut db, "/nowhere", "h9");
    assert_eq!(get_file_by_path(&db, "/d/four.txt").unwrap().content_hash, Some("h9".to_string()));
    mark_absent(&mut db, "/a/one.txt");
    assert!(!get_file_by_path(&db, "/a/one.txt").unwrap().is_present);
    mark_present(&mut db, "/a/one.txt");
    assert!(get_file_by_path(&db, "/a/one.txt").unwrap().is_present);
    mark_all_absent(&mut db, "/b");
    assert_eq!(
        paths(get_all_present_files(&db)),
        vec!["/a/one.txt", "/c/three.txt", "/d/four.txt", "/e/five.txt"]
    );
    mark_all_absent(&mut db, "");
    assert!(get_all_present_files(&db).is_empty());
}

#[test]
fn directories_end_at_a_separator() {
    let mut db = Database::new();
    for path in ["/a/b", "/a/b/x", "/a/bc/x", "/a/B/x"] {
        upsert_file(&mut db, &record(path, 1, None)).unwrap();
    }
    assert_eq!(paths(get_files_under(&db, "/a/b")), vec!["/a/b", "/a/b/x"]);
    assert_eq!(paths(get_files_under(&db, "/a/b/")), vec!["/a/b/x"]);
    assert_eq!(get_files_under(&db, "/").len(), 4);
    mark_all_absent(&mut db, "/a/b");
    assert_eq!(paths(get_all_present_files(&db)), vec!["/a/B/x", "/a/bc/x"]);
}

#[test]
fn listings() {
    let mut db = filled();
    assert_eq!(
        paths(get_all_present_files(&db)),
        vec!["/a/one.txt", "/b/two.txt", "/c/three.txt", "/d/four.txt", "/e/five.txt"]
    );
    assert_eq!(paths(get_unhashed_files(&db, 5)), vec!["/d/four.txt"]);
    assert!(get_unhashed_files(&db, 4).is_empty());
    upsert_file(&mut db, &record("/z/small.txt", 1, None)).unwrap();
    assert_eq!(paths(get_unhashed_files(&db, u64::MAX)), vec!["/z/small.txt", "/d/four.txt"]);
    assert_eq!(
        paths(search_files_by_name(&db, "T")),
        vec!["/e/five.txt", "/d/four.txt", "/a/one.txt", "/z/small.txt", "/c/three.txt", "/b/two.txt"]
    );
    assert_eq!(paths(search_files_by_name(&db, "/E/")), vec!["/e/five.txt"]);
    assert!(search_files_by_name(&db, "%").is_empty());
    assert_eq!(search_files_by_category(&db, &FileCategory::Document).len(), 6);
    assert!(search_files_by_category(&db, &FileCategory::Code).is_empty());
    assert_eq!(paths(get_files_under(&db, "/c")), vec!["/c/three.txt"]);
    assert_eq!(paths(get_files_with_hash(&db, "h2")), vec!["/b/two.txt", "/e/five.txt"]);
}

#[test]
fn a_search_by_name_is_limited() {
    let mut db = Database::new();
    for i in 0..510 {
        upsert_file(&mut db, &record(&format!("/many/{:04}.txt", i), 1, None)).unwrap();
    }
    let found = search_files_by_name(&db, "many");
    assert_eq!(found.len(), 500);
    assert_eq!(found[499].name, "0499.txt");
    assert_eq!(get_named_files(&db, "many").len(), 510);
}

#[test]
fn groups_of_duplicates() {
    let mut db = filled();
    let groups = get_duplicate_groups(&db).unwrap();
    let shown: Vec<(&str, u64, usize)> =
        groups.iter().map(|g| (g.content_hash.as_str(), g.wasted_bytes, g.files.len())).collect();
    assert_eq!(shown, vec![("h2", 20, 2), ("h1", 10, 2)]);
    assert_eq!(paths(groups.into_iter().next().unwrap().files), vec!["/b/two.txt", "/e/five.txt"]);
    mark_absent(&mut db, "/e/five.txt");
    assert_eq!(get_duplicate_groups(&db).unwrap().len(), 1);
}

#[test]
fn equally_wasteful_groups_are_ordered_by_hash() {
    let mut db = Database::new();
    for (path, hash) in [("/1", "b"), ("/2", "a"), ("/3", "b"), ("/4", "a")] {
        upsert_file(&mut db, &record(path, 7, Some(hash))).unwrap();
    }
    let hashes: Vec<String> =
        get_duplicate_groups(&db).unwrap().into_iter().map(|g| g.content_hash).collect();
    assert_eq!(hashes, vec!["a", "b"]);
}

#[test]
fn statistics() {
    let mut db = filled();
    mark_absent(&mut db, "/b/two.txt");
    let stats = compute_stats(&db).unwrap();
    assert_eq!((stats.files_found, stats.total_bytes), (4, 45));
    assert_eq!((stats.files_new, stats.files_skipped, stats.duration_ms), (0, 0, 0));
    upsert_file(&mut db, &record("/huge", i64::MAX as u64, None)).unwrap();
    assert_eq!(compute_stats(&db).unwrap_err().to_string(), "Database error: integer overflow");
}

#[test]
fn backups() {
    let mut db = Database::new();
    assert_eq!(insert_backup(&mut db, &backup("/x", 100)).unwrap(), 1);
    assert_eq!(insert_backup(&mut db, &backup("/y", 300)).unwrap(), 2);
    assert_eq!(insert_backup(&mut db, &backup("/z", 100)).unwrap(), 3);
    let e = insert_backup(&mut db, &backup("/x", 500)).unwrap_err();
    assert_eq!(e.to_string(), "Database error: UNIQUE constraint failed: backups.archive_path");
    let listed: Vec<String> = get_all_backups(&db).into_iter().map(|b| b.archive_path).collect();
    assert_eq!(listed, vec!["/y", "/x", "/z"]);
    assert_eq!(get_backup(&db, 2).unwrap().archive_path, "/y");
    assert!(get_backup(&db, 9).is_none());
    remove_backup(&mut db, 2);
    remove_backup(&mut db, 9);
    assert_eq!(db.backup_records().len(), 2);
    assert_eq!(insert_backup(&mut db, &backup("/y", 300)).unwrap(), 4);
}

#[test]
fn databases_from_records() {
    let db = filled();
    let again = Database::from_records(db.file_records(), db.backup_records(), 5, 0).unwrap();
    assert_eq!(paths(get_all_present_files(&again)), paths(get_all_present_files(&db)));
    assert!(Database::from_records(db.file_records(), Vec::new(), 4, 0).is_none());
    assert!(Database::from_records(db.file_records(), Vec::new(), -1, 0).is_none());
    let mut unsorted = db.file_records();
    unsorted.reverse();
    assert!(Database::from_records(unsorted, Vec::new(), 5, 0).is_none());
    let mut same_id = db.file_records();
    same_id[0].id = same_id[1].id;
    assert!(Database::from_records(same_id, Vec::new(), 5, 0).is_none());
    let mut no_id = db.file_records();
    no_id[0].id = None;
    assert!(Database::from_records(no_id, Vec::new(), 5, 0).is_none());
}

#[test]
fn backups_from_records() {
    let numbered = |id: i64, path: &str| BackupRecord { id: Some(id), ..backup(path, 1) };
    assert!(Database::from_records(Vec::new(), vec![numbered(1, "/a"), numbered(3, "/b")], 0, 3).is_some());
    assert!(Database::from_records(Vec::new(), vec![numbered(3, "/a"), numbered(1, "/b")], 0, 3).is_none());
    assert!(Database::from_records(Vec::new(), vec![numbered(1, "/a"), numbered(2, "/a")], 0, 3).is_none());
    assert!(Database::from_records(Vec::new(), vec![numbered(4, "/a")], 0, 3).is_none());
    assert!(Database::from_records(Vec::new(), vec![backup("/a", 1)], 0, 3).is_none());
}

#[test]
fn rows_read_back() {
    let mut stored = record("/a/b.txt", u64::MAX, Some("h"));
    stored.id = Some(7);
    stored.is_present = false;
    stored.category = FileCategory::Archive;
    let row = file_record_to_row(&stored);
    assert_eq!(row.size_bytes, -1);
    assert_eq!(row.is_present, 0);
    assert_eq!(row.category, "archive");
    assert_eq!(row.modified_at, "2024-03-09T16:00:00.123+00:00");
    assert_eq!(row.scanned_at, "2024-07-03T09:46:40.000000005+00:00");
    let back = file_record_in(&row, &time(0, 0));
    assert_eq!(back.id, Some(7));
    assert_eq!(back.size_bytes, u64::MAX);
    assert_eq!(back.modified_at, stored.modified_at);
    assert_eq!(back.scanned_at, stored.scanned_at);
    assert_eq!(back.category, FileCategory::Archive);
    assert!(!back.is_present);
    assert_eq!(row_to_file_record(&row).path, "/a/b.txt");
}

#[test]
fn rows_with_bad_times() {
    let mut stored = record("/a/b.txt", 1, None);
    stored.id = Some(1);
    let mut row = file_record_to_row(&stored);
    row.modified_at = "yesterday".to_string();
    row.category = "hologram".to_string();
    row.is_present = 5;
    let back = file_record_in(&row, &time(77, 0));
    assert_eq!(back.modified_at, time(77, 0));
    assert_eq!(back.scanned_at, stored.scanned_at);
    assert_eq!(back.category, FileCategory::Other);
    assert!(back.is_present);
    let back = row_to_file_record(&row);
    assert!(back.modified_at.secs() > 1_600_000_000);
}

#[test]
fn backup_rows_read_back() {
    let mut stored = backup("/x.tar.zst", 1_700_000_000);
    stored.id = Some(3);
    let mut row = backup_record_to_row(&stored);
    assert_eq!(row.created_at, "2023-11-14T22:13:20+00:00");
    let back = row_to_backup_record(&row);
    assert_eq!(back.created_at, stored.created_at);
    assert_eq!((back.id, back.original_bytes, back.compressed_bytes), (Some(3), 1000, 400));
    row.created_at = "2024-01-01 00:00:00Z".to_string();
    assert_eq!(backup_record_in(&row, &time(1, 0)).created_at, time(1_704_067_200, 0));
    row.created_at = "nonsense".to_string();
    assert_eq!(backup_record_in(&row, &time(1, 0)).created_at, time(1, 0));
}
