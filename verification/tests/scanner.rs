use data_fortress::config::Config;
use data_fortress::db::{
    get_all_present_files, get_file_by_path, get_unhashed_files, set_content_hash, Database,
};
use data_fortress::dedup::hasher::{hash_bytes, HashResult};
use data_fortress::dedup::record_hashes;
use data_fortress::models::{FileCategory, ScanStats};
use data_fortress::scanner::{
    bytes_fit, check_directories, dry_run_line, hashes_after_scan, make_record, merge_stats, process_file,
    scan_directory, should_skip_entry, stats_text, EntryKind, FileFacts, ScanOptions, WalkEvent,
};
use data_fortress::time::Timestamp;

fn time(secs: i64) -> Timestamp {
    Timestamp::new(secs, 0).unwrap()
}

fn facts(content: &[u8]) -> FileFacts {
    FileFacts {
        size_bytes: content.len() as u64,
        modified_at: Some(time(1000)),
        scanned_at: time(2000),
        head: content.iter().take(16).copied().collect(),
    }
}

fn file(path: &str, content: &[u8]) -> WalkEvent {
    WalkEvent::File { path: path.to_string(), facts: facts(content) }
}

fn png() -> Vec<u8> {
    vec![0x89, 0x50, 0x4E, 0x47, 0x0D, 0x0A, 0x1A, 0x0A, 0x00, 0x00, 0x00, 0x0D]
}

fn three_files() -> Vec<WalkEvent> {
    vec![
        WalkEvent::Directory,
        file("/scan/note.txt", b"sample text"),
        file("/scan/main.rs", b"fn main() {}"),
        file("/scan/photo.png", &png()),
    ]
}

#[test]
fn test_scan_exits_zero() {
    let mut db = Database::new();
    let stats = scan_directory(&mut db, "/scan", &vec![file("/scan/hello.txt", b"hello world")], false);
    assert_eq!(stats.files_found, 1);
}

#[test]
fn test_scan_indexes_files() {
    let mut db = Database::new();
    scan_directory(&mut db, "/scan", &three_files(), false);
    assert_eq!(get_all_present_files(&db).len(), 3);
}

#[test]
fn test_scan_classifies_categories() {
    let mut db = Database::new();
    scan_directory(&mut db, "/scan", &three_files(), false);
    let category_of = |path: &str| get_file_by_path(&db, path).unwrap().category.to_string();
    assert_eq!(category_of("/scan/note.txt"), "document");
    assert_eq!(category_of("/scan/main.rs"), "code");
    assert_eq!(category_of("/scan/photo.png"), "image");
}

#[test]
fn test_scan_json_output() {
    let mut db = Database::new();
    let stats = scan_directory(&mut db, "/scan", &vec![file("/scan/note.txt", b"hello")], false);
    assert_eq!(
        stats,
        ScanStats { files_found: 1, files_new: 1, files_skipped: 0, total_bytes: 5, duration_ms: 0 }
    );
}

#[test]
fn test_scan_marks_deleted_files_absent() {
    let mut db = Database::new();
    let both = vec![file("/scan/note.txt", b"hello"), file("/scan/keep.txt", b"keep me")];
    scan_directory(&mut db, "/scan", &both, false);
    let id = get_file_by_path(&db, "/scan/keep.txt").unwrap().id;
    let stats = scan_directory(&mut db, "/scan", &vec![file("/scan/keep.txt", b"keep me")], false);
    assert_eq!(stats.files_new, 0);
    assert!(!get_file_by_path(&db, "/scan/note.txt").unwrap().is_present);
    let kept = get_file_by_path(&db, "/scan/keep.txt").unwrap();
    assert!(kept.is_present);
    assert_eq!(kept.id, id);
}

#[test]
fn test_scan_with_hash_flag() {
    let mut db = Database::new();
    scan_directory(&mut db, "/scan", &vec![file("/scan/note.txt", b"content to hash")], false);
    let pending = get_unhashed_files(&db, 4_294_967_296);
    assert_eq!(pending.len(), 1);
    let results = vec![HashResult::Hashed {
        path: pending[0].path.clone(),
        hash: hash_bytes(b"content to hash"),
    }];
    record_hashes(&mut db, &results);
    let hash = get_file_by_path(&db, "/scan/note.txt").unwrap().content_hash.unwrap();
    assert_eq!(hash.len(), 64);
    assert!(hash.chars().all(|c| c.is_ascii_hexdigit()));
}

#[test]
fn a_dry_run_records_nothing() {
    let mut db = Database::new();
    scan_directory(&mut db, "/scan", &vec![file("/scan/old.txt", b"x")], false);
    let stats = scan_directory(&mut db, "/scan", &three_files(), true);
    assert_eq!((stats.files_found, stats.files_new), (3, 0));
    assert!(get_file_by_path(&db, "/scan/old.txt").unwrap().is_present);
    assert!(get_file_by_path(&db, "/scan/note.txt").is_none());
}

#[test]
fn what_cannot_be_read_is_skipped() {
    let mut db = Database::new();
    let events = vec![
        WalkEvent::Unreadable,
        WalkEvent::Symlink,
        WalkEvent::Directory,
        WalkEvent::Unknown,
        file("/scan/a", b"abc"),
        file("/scan/a", b"abcd"),
    ];
    let stats = scan_directory(&mut db, "/scan", &events, false);
    assert_eq!(
        stats,
        ScanStats { files_found: 2, files_new: 1, files_skipped: 3, total_bytes: 7, duration_ms: 0 }
    );
    assert_eq!(get_file_by_path(&db, "/scan/a").unwrap().size_bytes, 4);
}

#[test]
fn other_directories_are_left_alone() {
    let mut db = Database::new();
    scan_directory(&mut db, "/one", &vec![file("/one/a.txt", b"a")], false);
    scan_directory(&mut db, "/two", &vec![file("/two/b.txt", b"b")], false);
    scan_directory(&mut db, "/two", &Vec::new(), false);
    assert!(get_file_by_path(&db, "/one/a.txt").unwrap().is_present);
    assert!(!get_file_by_path(&db, "/two/b.txt").unwrap().is_present);
    scan_directory(&mut db, "/one", &Vec::new(), false);
    scan_directory(&mut db, "/ones", &vec![file("/ones/c.txt", b"c")], false);
    scan_directory(&mut db, "/one", &Vec::new(), false);
    assert!(get_file_by_path(&db, "/ones/c.txt").unwrap().is_present);
}

#[test]
fn a_new_scan_forgets_the_hash() {
    let mut db = Database::new();
    scan_directory(&mut db, "/s", &vec![file("/s/a.txt", b"a")], false);
    set_content_hash(&mut db, "/s/a.txt", "00");
    assert_eq!(get_file_by_path(&db, "/s/a.txt").unwrap().content_hash, Some("00".to_string()));
    scan_directory(&mut db, "/s", &vec![file("/s/a.txt", b"a")], false);
    assert_eq!(get_file_by_path(&db, "/s/a.txt").unwrap().content_hash, None);
}

#[test]
fn records_of_files() {
    let r = make_record("/scan/Photo.PNG", &facts(&png()));
    assert_eq!(r.id, None);
    assert_eq!(r.name, "Photo.PNG");
    assert_eq!(r.extension, "png");
    assert_eq!(r.category, FileCategory::Image);
    assert_eq!(r.mime_type, "image/png");
    assert_eq!(r.size_bytes, 12);
    assert_eq!(r.modified_at, time(1000));
    assert_eq!(r.scanned_at, time(2000));
    assert!(r.is_present);
    let unknown = FileFacts { size_bytes: 0, modified_at: None, scanned_at: time(7), head: Vec::new() };
    let r = make_record("/scan/.bashrc", &unknown);
    assert_eq!((r.name.as_str(), r.extension.as_str()), (".bashrc", ""));
    assert_eq!(r.modified_at, time(7));
    assert_eq!(r.category, FileCategory::Other);
}

#[test]
fn single_files() {
    let mut db = Database::new();
    let mut stats = ScanStats::default();
    assert!(process_file(&mut db, "/a", &facts(b"xy"), true, &mut stats).is_ok());
    assert!(get_file_by_path(&db, "/a").is_none());
    assert!(process_file(&mut db, "/a", &facts(b"xy"), false, &mut stats).is_ok());
    assert_eq!((stats.files_found, stats.files_new, stats.total_bytes), (2, 1, 4));
}

#[test]
fn ids_that_run_out() {
    let mut db = Database::from_records(Vec::new(), Vec::new(), i64::MAX, 0).unwrap();
    let stats = scan_directory(&mut db, "/s", &vec![file("/s/a", b"a")], false);
    assert_eq!((stats.files_found, stats.files_new, stats.files_skipped), (1, 1, 1));
    assert!(get_file_by_path(&db, "/s/a").is_none());
}

#[test]
fn entries_that_are_left_out() {
    let config = Config::default_in(None);
    let skip = |name: &str, kind: EntryKind| should_skip_entry(name, &format!("/x/{}", name), kind, &config);
    assert!(skip(".hidden", EntryKind::Directory));
    assert!(skip("node_modules", EntryKind::Directory));
    assert!(!skip(".", EntryKind::Directory));
    assert!(!skip("src", EntryKind::Directory));
    assert!(!skip("node_modules", EntryKind::File));
    assert!(!skip(".bashrc", EntryKind::File));
    assert!(skip("draft.TMP", EntryKind::File));
    assert!(!skip("draft.txt", EntryKind::File));
    assert!(!skip("link.tmp", EntryKind::Other));
}

#[test]
fn options_from_arguments() {
    let mut config = Config::default_in(None);
    config.add_dir("/watched");
    let o = ScanOptions::from_args(Vec::new(), true, None, false, &config);
    assert_eq!(o.directories, vec!["/watched"]);
    assert_eq!(o.max_hash_size, 4_294_967_296);
    assert!(o.hash && !o.dry_run && hashes_after_scan(&o));
    let o = ScanOptions::from_args(vec!["/given".to_string()], true, Some(7), true, &config);
    assert_eq!(o.directories, vec!["/given"]);
    assert_eq!(o.max_hash_size, 7);
    assert!(!hashes_after_scan(&o));
    assert!(check_directories(&o).is_ok());
    let none = ScanOptions::from_args(Vec::new(), false, None, false, &Config::default_in(None));
    assert_eq!(
        check_directories(&none).unwrap_err().to_string(),
        "Unexpected error: No directories to scan. Add one with: data-fortress config add-dir <PATH>"
    );
}

#[test]
fn statistics_of_many_directories() {
    let a = ScanStats { files_found: 1, files_new: 1, files_skipped: 2, total_bytes: 10, duration_ms: 5 };
    let b = ScanStats { files_found: 3, files_new: 0, files_skipped: 1, total_bytes: 20, duration_ms: 5 };
    let sum = merge_stats(&vec![a, b], 42).unwrap();
    assert_eq!(
        sum,
        ScanStats { files_found: 4, files_new: 1, files_skipped: 3, total_bytes: 30, duration_ms: 42 }
    );
    let huge = ScanStats { total_bytes: u64::MAX, ..a };
    assert!(merge_stats(&vec![a, huge], 0).is_none());
    assert_eq!(
        stats_text(&sum),
        "\nScan complete:\n  Files found:   4\n  Files new:     1\n  Files skipped: 3\n  Total size:    30 B\n  \
         Duration:      42ms\n"
    );
    assert_eq!(dry_run_line("/a"), "[dry-run] Would record: /a");
}

#[test]
fn sizes_that_add_up() {
    assert!(bytes_fit(&three_files()));
    let huge = |path: &str| WalkEvent::File {
        path: path.to_string(),
        facts: FileFacts { size_bytes: u64::MAX, modified_at: None, scanned_at: time(0), head: Vec::new() },
    };
    assert!(bytes_fit(&vec![huge("/a")]));
    assert!(!bytes_fit(&vec![huge("/a"), file("/b", b"x")]));
}
