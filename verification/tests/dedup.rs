use data_fortress::cli::KeepStrategy;
use data_fortress::db::{get_unhashed_files, upsert_file, Database};
use data_fortress::dedup::hasher::{hash_bytes, HashResult};
use data_fortress::dedup::{
    dry_run_line, files_to_hash, find_duplicates, plan_deletions, record_hashes, report_text, run, select_keeper,
    tally_deletions, DedupOptions, DedupReport, DeleteOutcome,
};
use data_fortress::models::{DuplicateGroup, FileCategory, FileRecord};
use data_fortress::sizes::{fmt_bytes, format_bytes};
use data_fortress::time::Timestamp;

fn make_record(path: &str, modified_offset_secs: i64, size: u64) -> FileRecord {
    FileRecord {
        id: None,
        path: path.to_string(),
        name: path.split('/').last().unwrap_or("").to_string(),
        extension: "txt".to_string(),
        category: FileCategory::Document,
        mime_type: "text/plain".to_string(),
        size_bytes: size,
        content_hash: Some("abc123".to_string()),
        modified_at: Timestamp::new(1_700_000_000 + modified_offset_secs, 0).unwrap(),
        scanned_at: Timestamp::new(1_700_000_000, 0).unwrap(),
        is_present: true,
    }
}

fn make_group(files: Vec<FileRecord>) -> DuplicateGroup {
    let size = files.first().map_or(0, |f| f.size_bytes);
    let wasted = size * (files.len() as u64 - 1);
    DuplicateGroup { content_hash: "abc123".to_string(), wasted_bytes: wasted, files }
}

const DUP: &[u8] = "duplicate content alpha — same BLAKE3 hash".as_bytes();
const UNIQ: &[u8] = "unique content xyz — different hash 987654".as_bytes();

fn contents_of(path: &str) -> &'static [u8] {
    if path.ends_with("unique.txt") {
        UNIQ
    } else {
        DUP
    }
}

fn scanned() -> Database {
    let mut db = Database::new();
    for name in ["original.txt", "copy1.txt", "copy2.txt", "unique.txt"] {
        let path = format!("/scan/{}", name);
        let mut f = make_record(&path, 0, contents_of(&path).len() as u64);
        f.content_hash = None;
        upsert_file(&mut db, &f).unwrap();
    }
    db
}

fn hashed() -> Database {
    let mut db = scanned();
    let results: Vec<HashResult> = get_unhashed_files(&db, u64::MAX)
        .iter()
        .map(|f| HashResult::Hashed { path: f.path.clone(), hash: hash_bytes(contents_of(&f.path)) })
        .collect();
    assert_eq!(record_hashes(&mut db, &results), (4, 0));
    db
}

fn options(delete: bool, dry_run: bool) -> DedupOptions {
    DedupOptions { hash_first: false, min_size: 0, delete, keep: KeepStrategy::Oldest, dry_run }
}

#[test]
fn files_are_hashed_first_where_asked_for() {
    let first = DedupOptions { hash_first: true, ..options(false, false) };
    assert_eq!(files_to_hash(&scanned(), &first).len(), 4);
    assert_eq!(files_to_hash(&scanned(), &options(false, false)).len(), 0);
    assert_eq!(files_to_hash(&hashed(), &first).len(), 0);
}

#[test]
fn test_keep_oldest_selects_earliest_mtime() {
    let group = make_group(vec![
        make_record("/a/new.txt", 100, 100),
        make_record("/b/old.txt", -100, 100),
        make_record("/c/mid.txt", 0, 100),
    ]);
    let keeper = select_keeper(&group, &KeepStrategy::Oldest);
    assert_eq!(keeper.path, "/b/old.txt");
}

#[test]
fn test_keep_newest_selects_latest_mtime() {
    let group = make_group(vec![
        make_record("/a/new.txt", 100, 100),
        make_record("/b/old.txt", -100, 100),
        make_record("/c/mid.txt", 0, 100),
    ]);
    let keeper = select_keeper(&group, &KeepStrategy::Newest);
    assert_eq!(keeper.path, "/a/new.txt");
}

#[test]
fn test_keep_first_alpha_selects_alphabetically_first() {
    let group = make_group(vec![
        make_record("/z/file.txt", 0, 100),
        make_record("/a/file.txt", 0, 100),
        make_record("/m/file.txt", 0, 100),
    ]);
    let keeper = select_keeper(&group, &KeepStrategy::FirstAlpha);
    assert_eq!(keeper.path, "/a/file.txt");
}

#[test]
fn test_keep_shortest_path_selects_shortest() {
    let group = make_group(vec![
        make_record("/very/long/path/to/file.txt", 0, 100),
        make_record("/short/file.txt", 0, 100),
        make_record("/medium/path/file.txt", 0, 100),
    ]);
    let keeper = select_keeper(&group, &KeepStrategy::ShortestPath);
    assert_eq!(keeper.path, "/short/file.txt");
}

#[test]
fn test_format_bytes_readable() {
    let zero = format_bytes(0);
    let kb = format_bytes(1_024);
    let big = format_bytes(1_000_000_000);

    assert!(!zero.is_empty());
    assert!(!kb.is_empty());
    assert!(!big.is_empty());

    assert!(zero.contains('B'));
    assert!(big.contains('B'));
}

#[test]
fn sizes_as_people_read_them() {
    assert_eq!(format_bytes(1_048_576), "1.00 MiB");
    assert_eq!(format_bytes(2_305_843_009), "2.15 GiB");
    assert_eq!(format_bytes(1023), "1023 B");
    assert_eq!(fmt_bytes(1_073_741_824), "1.0 GiB");
    assert_eq!(fmt_bytes(0), "0 B");
}

#[test]
fn ties_between_copies() {
    let group = make_group(vec![
        make_record("/a/x.txt", 0, 100),
        make_record("/b/x.txt", 0, 100),
    ]);
    assert_eq!(select_keeper(&group, &KeepStrategy::Oldest).path, "/a/x.txt");
    assert_eq!(select_keeper(&group, &KeepStrategy::Newest).path, "/b/x.txt");
    assert_eq!(select_keeper(&group, &KeepStrategy::ShortestPath).path, "/a/x.txt");
    let group = make_group(vec![make_record("/é.txt", 0, 1), make_record("/ab.txt", 0, 1)]);
    assert_eq!(select_keeper(&group, &KeepStrategy::ShortestPath).path, "/é.txt");
}

#[test]
fn test_dedup_dry_run_exits_zero() {
    let groups = find_duplicates(&hashed(), 0).unwrap();
    assert!(run(groups, &options(true, true), &Vec::new()).is_ok());
}

#[test]
fn test_dedup_dry_run_no_deletion() {
    let groups = find_duplicates(&hashed(), 0).unwrap();
    let report = run(groups, &options(true, true), &Vec::new()).unwrap();
    assert_eq!(report.files_deleted, 0);
    assert!(report.delete_errors.is_empty());
}

#[test]
fn test_dedup_json_group_count() {
    let groups = find_duplicates(&hashed(), 0).unwrap();
    let report = run(groups, &options(false, true), &Vec::new()).unwrap();
    assert_eq!(report.groups_found, 1);
    assert_eq!(report.wasted_bytes, 2 * DUP.len() as u64);
}

#[test]
fn test_dedup_deletes_copies() {
    let groups = find_duplicates(&hashed(), 0).unwrap();
    let plan = plan_deletions(&groups, &KeepStrategy::Oldest);
    let deleted: Vec<&str> = plan.iter().map(|d| d.path.as_str()).collect();
    let survivors: Vec<&str> = ["/scan/original.txt", "/scan/copy1.txt", "/scan/copy2.txt"]
        .into_iter()
        .filter(|p| !deleted.contains(p))
        .collect();
    assert_eq!(survivors.len(), 1);
    assert!(plan.iter().all(|d| d.keeper == survivors[0]));
    assert!(!deleted.contains(&"/scan/unique.txt"));
    let outcomes = vec![DeleteOutcome::Deleted, DeleteOutcome::Kept("busy".to_string())];
    let report = run(groups, &options(true, false), &outcomes).unwrap();
    assert_eq!(report.files_deleted, 1);
    assert_eq!(report.delete_errors, vec![format!("{}: busy", deleted[1])]);
}

#[test]
fn test_dedup_min_size_skips_small_files() {
    let groups = find_duplicates(&hashed(), 1_048_576).unwrap();
    assert_eq!(groups.len(), 0);
    assert_eq!(find_duplicates(&hashed(), DUP.len() as u64).unwrap().len(), 1);
    assert_eq!(find_duplicates(&hashed(), DUP.len() as u64 + 1).unwrap().len(), 0);
}

#[test]
fn test_dedup_hashes_on_the_fly() {
    let db = scanned();
    assert_eq!(get_unhashed_files(&db, u64::MAX).len(), 4);
    assert_eq!(find_duplicates(&db, 0).unwrap().len(), 0);
    let db = hashed();
    assert_eq!(get_unhashed_files(&db, u64::MAX).len(), 0);
    assert_eq!(find_duplicates(&db, 0).unwrap().len(), 1);
}

#[test]
fn test_dedup_empty_database() {
    let groups = find_duplicates(&Database::new(), 0).unwrap();
    let report = run(groups, &options(false, true), &Vec::new()).unwrap();
    assert_eq!(report.groups_found, 0);
    assert_eq!(report_text(&report), "No duplicates found.\n");
}

#[test]
fn failed_hashes_are_left_out() {
    let mut db = scanned();
    let results = vec![
        HashResult::Hashed { path: "/scan/copy1.txt".to_string(), hash: "h1".to_string() },
        HashResult::Failed { path: "/scan/copy2.txt".to_string(), reason: "gone".to_string() },
        HashResult::Hashed { path: "/nowhere".to_string(), hash: "h2".to_string() },
    ];
    assert_eq!(record_hashes(&mut db, &results), (2, 1));
    let left: Vec<String> = get_unhashed_files(&db, u64::MAX).into_iter().map(|f| f.name).collect();
    assert_eq!(left, vec!["copy2.txt", "original.txt", "unique.txt"]);
}

#[test]
fn waste_that_cannot_be_counted() {
    let mut db = Database::new();
    for path in ["/a", "/b", "/c"] {
        upsert_file(&mut db, &make_record(path, 0, u64::MAX)).unwrap();
    }
    assert!(find_duplicates(&db, 0).is_err());
    let huge = |hash: &str| DuplicateGroup {
        content_hash: hash.to_string(),
        wasted_bytes: u64::MAX,
        files: vec![make_record("/a", 0, u64::MAX), make_record("/b", 0, u64::MAX)],
    };
    assert!(run(vec![huge("1")], &options(false, false), &Vec::new()).is_ok());
    let e = run(vec![huge("1"), huge("2")], &options(false, false), &Vec::new()).unwrap_err();
    assert_eq!(e.to_string(), "Database error: integer overflow");
}

#[test]
fn printed_report() {
    let mut report: DedupReport = run(
        vec![DuplicateGroup {
            content_hash: "0123456789abcdef".to_string(),
            wasted_bytes: 100,
            files: vec![make_record("/a/x.txt", 0, 100), make_record("/b/x.txt", 0, 100)],
        }],
        &options(false, false),
        &Vec::new(),
    )
    .unwrap();
    report.files_deleted = 1;
    report.delete_errors = vec!["/c: busy".to_string()];
    assert_eq!(
        report_text(&report),
        "\nFound 1 duplicate group(s) — 100 B wasted\n\nGroup 1 — 0123456789ab (2 copies, 100 B wasted)\n  \
         /a/x.txt (100 B)\n  /b/x.txt (100 B)\n\nDeleted 1 file(s).\n\nErrors during deletion:\n  ✗ /c: busy\n"
    );
}

#[test]
fn lines_and_tallies() {
    let group = make_group(vec![make_record("/a", 5, 1), make_record("/b", 0, 1)]);
    let plan = plan_deletions(&vec![group], &KeepStrategy::Oldest);
    assert_eq!(dry_run_line(&plan[0]), "[dry-run] Would delete: /a\n          Keeping:  /b");
    let (n, errors) = tally_deletions(
        &vec!["/a".to_string(), "/b".to_string()],
        &vec![DeleteOutcome::Kept("no".to_string()), DeleteOutcome::Deleted],
    );
    assert_eq!((n, errors), (1, vec!["/a: no".to_string()]));
}
