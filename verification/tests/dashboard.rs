use data_fortress::db::{
    get_all_backups, get_all_present_files, get_file_by_path, insert_backup, mark_absent, upsert_file, Database,
};
use data_fortress::dedup::DeleteOutcome;
use data_fortress::models::{BackupRecord, FileCategory, FileRecord};
use data_fortress::time::Timestamp;
use data_fortress::web::{
    category_breakdown, delete_backup, duplicate_hashes, form_backup, form_label, last_scan, newest_first,
    order_groups, plan_keep_newest, query_backups, query_duplicates, query_overview, query_search,
    record_deletions, search_page,
};

const DAY: i64 = 86_400;

fn record(path: &str, category: FileCategory, size: u64, hash: Option<&str>, day: i64) -> FileRecord {
    FileRecord {
        id: None,
        path: path.to_string(),
        name: path.rsplit('/').next().unwrap().to_string(),
        extension: String::new(),
        category,
        mime_type: String::new(),
        size_bytes: size,
        content_hash: hash.map(|h| h.to_string()),
        modified_at: Timestamp::new(19_723 * DAY + day * DAY, 0).unwrap(),
        scanned_at: Timestamp::new(19_800 * DAY + day * DAY, 0).unwrap(),
        is_present: true,
    }
}

fn filled() -> Database {
    let mut db = Database::new();
    for f in [
        record("/a/one.jpg", FileCategory::Image, 100, Some("aaaaaaaaaaaaaaaa"), 0),
        record("/b/two.jpg", FileCategory::Image, 100, Some("aaaaaaaaaaaaaaaa"), 2),
        record("/c/three.jpg", FileCategory::Image, 100, Some("aaaaaaaaaaaaaaaa"), 1),
        record("/d/four.txt", FileCategory::Document, 500, Some("bbbb"), 3),
        record("/e/five.txt", FileCategory::Document, 500, Some("bbbb"), 3),
        record("/f/six.rs", FileCategory::Code, 300, None, 4),
    ] {
        upsert_file(&mut db, &f).unwrap();
    }
    db
}

#[test]
fn the_overview() {
    let mut db = filled();
    let o = query_overview(&db).unwrap();
    assert_eq!(o.total_files, 6);
    assert_eq!(o.total_bytes, "1.6 KiB");
    assert_eq!(o.duplicate_groups, 2);
    assert_eq!(o.wasted_bytes, "700 B");
    assert_eq!(o.last_scan, "2024-03-22");
    let rows: Vec<(String, u64, String)> =
        o.categories.into_iter().map(|c| (c.name, c.count, c.bytes)).collect();
    assert_eq!(
        rows,
        vec![
            ("document".to_string(), 2, "1000 B".to_string()),
            ("code".to_string(), 1, "300 B".to_string()),
            ("image".to_string(), 3, "300 B".to_string()),
        ]
    );
    mark_absent(&mut db, "/f/six.rs");
    let o = query_overview(&db).unwrap();
    assert_eq!((o.total_files, o.last_scan.as_str()), (5, "2024-03-22"));
    let empty = query_overview(&Database::new()).unwrap();
    assert_eq!(empty.last_scan, "Never");
    assert_eq!((empty.total_files, empty.wasted_bytes.as_str()), (0, "0 B"));
    assert!(empty.categories.is_empty());
}

#[test]
fn sums_that_are_too_large() {
    let mut db = Database::new();
    upsert_file(&mut db, &record("/x", FileCategory::Other, u64::MAX, None, 0)).unwrap();
    assert!(query_overview(&db).is_err());
    assert!(query_duplicates(&db).is_ok());
    for path in ["/p", "/q", "/r"] {
        upsert_file(&mut db, &record(path, FileCategory::Other, u64::MAX, Some("h"), 0)).unwrap();
    }
    assert!(query_duplicates(&db).is_err());
    assert!(duplicate_hashes(&db).is_err());
}

#[test]
fn categories_and_scans() {
    let db = filled();
    let files = get_all_present_files(&db);
    assert_eq!(category_breakdown(&files).len(), 3);
    assert_eq!(last_scan(&files).unwrap().secs(), 19_804 * DAY);
    assert!(last_scan(&Vec::new()).is_none());
}

#[test]
fn the_page_of_duplicates() {
    let page = query_duplicates(&filled()).unwrap();
    assert_eq!(page.group_count, 2);
    assert_eq!(page.total_wasted, "700 B");
    let g = &page.groups[0];
    assert_eq!((g.hash.as_str(), g.hash_preview.as_str()), ("bbbb", "bbbb"));
    assert_eq!((g.file_count, g.delete_count), (2, 1));
    assert_eq!((g.size_each.as_str(), g.wasted.as_str()), ("500 B", "500 B"));
    assert_eq!(g.paths[0].path, "/d/four.txt");
    let g = &page.groups[1];
    assert_eq!(g.hash_preview, "aaaaaaaaaaaa");
    let shown: Vec<(&str, &str, bool)> =
        g.paths.iter().map(|p| (p.path.as_str(), p.modified_at.as_str(), p.is_newest)).collect();
    assert_eq!(
        shown,
        vec![
            ("/b/two.jpg", "2024-01-03", true),
            ("/c/three.jpg", "2024-01-02", false),
            ("/a/one.jpg", "2024-01-01", false),
        ]
    );
}

#[test]
fn groups_of_the_same_size_are_ordered_by_hash() {
    let mut db = Database::new();
    for (path, hash) in [("/1", "b"), ("/2", "b"), ("/3", "b"), ("/4", "a"), ("/5", "a")] {
        upsert_file(&mut db, &record(path, FileCategory::Other, 5, Some(hash), 0)).unwrap();
    }
    let groups = data_fortress::db::get_duplicate_groups(&db).unwrap();
    assert_eq!(groups[0].content_hash, "b");
    let hashes: Vec<String> = order_groups(&groups).into_iter().map(|g| g.content_hash).collect();
    assert_eq!(hashes, vec!["a", "b"]);
}

#[test]
fn the_newest_copy_is_kept() {
    let mut db = filled();
    assert_eq!(plan_keep_newest(&db, "aaaaaaaaaaaaaaaa"), vec!["/c/three.jpg", "/a/one.jpg"]);
    assert_eq!(plan_keep_newest(&db, "bbbb"), vec!["/e/five.txt"]);
    assert!(plan_keep_newest(&db, "cccc").is_empty());
    let mut hashes = duplicate_hashes(&db).unwrap();
    hashes.sort();
    assert_eq!(hashes, vec!["aaaaaaaaaaaaaaaa", "bbbb"]);
    let paths = plan_keep_newest(&db, "aaaaaaaaaaaaaaaa");
    let outcomes = vec![DeleteOutcome::Deleted, DeleteOutcome::Kept("denied".to_string())];
    let (n, errors) = record_deletions(&mut db, &paths, &outcomes);
    assert_eq!((n, errors), (1, vec!["/a/one.jpg: denied".to_string()]));
    assert!(!get_file_by_path(&db, "/c/three.jpg").unwrap().is_present);
    assert!(get_file_by_path(&db, "/a/one.jpg").unwrap().is_present);
    assert!(get_file_by_path(&db, "/b/two.jpg").unwrap().is_present);
    let names: Vec<String> = newest_first(&get_all_present_files(&db)).into_iter().map(|f| f.name).collect();
    assert_eq!(names, vec!["six.rs", "four.txt", "five.txt", "two.jpg", "one.jpg"]);
}

#[test]
fn searches() {
    let db = filled();
    let rows = query_search(&db, ".JPG", &None, 2);
    let shown: Vec<(&str, &str, &str, &str, &str)> = rows
        .iter()
        .map(|r| {
            (r.name.as_str(), r.path.as_str(), r.size.as_str(), r.category.as_str(), r.modified.as_str())
        })
        .collect();
    assert_eq!(
        shown,
        vec![
            ("one.jpg", "/a/one.jpg", "100 B", "image", "2024-01-01"),
            ("three.jpg", "/c/three.jpg", "100 B", "image", "2024-01-02"),
        ]
    );
    assert_eq!(query_search(&db, "/", &Some("code".to_string()), 100).len(), 1);
    assert_eq!(query_search(&db, "/", &Some("nothing".to_string()), 100).len(), 0);
    let (query, rows) = search_page(&db, "  five ", &None);
    assert_eq!((query.as_str(), rows.len()), ("five", 1));
    let (query, rows) = search_page(&db, "   ", &None);
    assert_eq!((query.as_str(), rows.len()), ("", 0));
}

#[test]
fn pages_of_backups() {
    let mut db = Database::new();
    for (path, original, compressed, at) in [("/x.tar.zst", 1000, 400, 1), ("/y.tar.zst", 0, 30, 2)] {
        let b = BackupRecord {
            id: None,
            label: "weekly".to_string(),
            archive_path: path.to_string(),
            original_bytes: original,
            compressed_bytes: compressed,
            algorithm: "zstd".to_string(),
            created_at: Timestamp::new(at, 500_000_000).unwrap(),
        };
        insert_backup(&mut db, &b).unwrap();
    }
    let ratios = vec!["0.0".to_string(), "60.0".to_string()];
    let page = query_backups(&get_all_backups(&db), &ratios).unwrap();
    assert_eq!(page.backups[0].archive_path, "/y.tar.zst");
    assert_eq!(page.backups[0].ratio, "—");
    assert_eq!(page.backups[0].id, 2);
    assert_eq!(page.backups[1].ratio, "60.0%");
    assert_eq!(page.backups[1].created_at, "1970-01-01T00:00:01");
    assert_eq!((page.total_original.as_str(), page.total_compressed.as_str()), ("1000 B", "430 B"));
    assert_eq!(page.total_saved, "570 B");
    assert_eq!(
        delete_backup(&mut db, 1),
        Some(("/x.tar.zst".to_string(), "/x.json".to_string()))
    );
    assert_eq!(delete_backup(&mut db, 1), None);
    assert_eq!(get_all_backups(&db).len(), 1);
    let mut huge = get_all_backups(&db);
    huge[0].original_bytes = u64::MAX;
    huge.push(huge[0].clone());
    assert!(query_backups(&huge, &ratios).is_err());
}

#[test]
fn forms() {
    assert_eq!(form_label(None), None);
    assert_eq!(form_label(Some("  ".to_string())), None);
    assert_eq!(form_label(Some(" weekly ".to_string())), Some(" weekly ".to_string()));
    let args = form_backup(Some("weekly".to_string()));
    assert_eq!(args.label, Some("weekly".to_string()));
    assert_eq!((args.category, args.compression_level, args.dry_run), (None, 3, false));
}
