use data_fortress::backup::{
    archive_entry_path, create, dry_run_report, dry_run_text, list, list_text, manifest_path_of,
    plan_backup, report_text, saved_bytes, select_files, start_backup,
};
use data_fortress::cli::{BackupCreateArgs, SearchCategory};
use data_fortress::config::Config;
use data_fortress::db::{insert_backup, upsert_file, Database};
use data_fortress::models::{FileCategory, FileRecord};
use data_fortress::time::Timestamp;

fn now() -> Timestamp {
    Timestamp::new(1_744_070_400, 0).unwrap()
}

fn record(path: &str, size: u64, category: FileCategory) -> FileRecord {
    FileRecord {
        id: None,
        path: path.to_string(),
        name: path.rsplit('/').next().unwrap().to_string(),
        extension: "txt".to_string(),
        category,
        mime_type: "text/plain".to_string(),
        size_bytes: size,
        content_hash: Some("abc".to_string()),
        modified_at: now(),
        scanned_at: now(),
        is_present: true,
    }
}

fn args(category: Option<SearchCategory>) -> BackupCreateArgs {
    BackupCreateArgs { label: None, category, compression_level: 3, dry_run: false }
}

const ID: &str = "0123abcd-0000-4000-8000-000000000000";

#[test]
fn names_of_backups() {
    let p = plan_backup(ID, &Some("weekly".to_string()), "/backups", &now());
    assert_eq!(p.id, ID);
    assert_eq!(p.label, "weekly");
    assert_eq!(p.archive_path, "/backups/weekly-0123abcd.tar.zst");
    assert_eq!(p.manifest_path, "/backups/weekly-0123abcd.json");
    let p = plan_backup(ID, &None, "/backups/", &now());
    assert_eq!(p.archive_path, "/backups/backup-2025-04-08-0123abcd.tar.zst");
}

#[test]
fn new_backups_have_new_ids() {
    let config = Config::default_in(None);
    let a = start_backup(&args(None), &config);
    let b = start_backup(&args(None), &config);
    assert_ne!(a.id, b.id);
    assert_eq!(a.id.len(), 36);
    assert_eq!(&a.id[14..15], "4");
    assert!(a.archive_path.starts_with("/tmp/data-fortress/backups/backup-"));
    assert_eq!(manifest_path_of(&a.archive_path), a.manifest_path);
}

#[test]
fn manifests_beside_archives() {
    assert_eq!(manifest_path_of("/b/weekly-0123abcd.tar.zst"), "/b/weekly-0123abcd.json");
    assert_eq!(manifest_path_of("/b/x.tar.zst.tar.zst"), "/b/x.json");
    assert_eq!(manifest_path_of("/b/x.zip"), "/b/x.zip.json");
    assert_eq!(manifest_path_of(".tar.zst"), ".json");
    assert_eq!(manifest_path_of(""), ".json");
    let odd = plan_backup(ID, &Some("a.tar.zst".to_string()), "/b", &now());
    assert_eq!(manifest_path_of(&odd.archive_path), odd.manifest_path);
}

#[test]
fn selected_files() {
    let mut db = Database::new();
    assert_eq!(
        select_files(&db, &args(None)).unwrap_err().to_string(),
        "Unexpected error: No files to back up. Run `scan` first, or check your --category filter."
    );
    upsert_file(&mut db, &record("/b/x.txt", 1, FileCategory::Document)).unwrap();
    upsert_file(&mut db, &record("/a/y.rs", 1, FileCategory::Code)).unwrap();
    let all: Vec<String> = select_files(&db, &args(None)).unwrap().into_iter().map(|f| f.path).collect();
    assert_eq!(all, vec!["/a/y.rs", "/b/x.txt"]);
    let code = select_files(&db, &args(Some(SearchCategory::Code))).unwrap();
    assert_eq!(code.len(), 1);
    assert!(select_files(&db, &args(Some(SearchCategory::Image))).is_err());
}

#[test]
fn entries_have_no_leading_separators() {
    assert_eq!(archive_entry_path("/home/tom/file.txt"), "home/tom/file.txt");
    assert_eq!(archive_entry_path("///x"), "x");
    assert_eq!(archive_entry_path("rel/x"), "rel/x");
    assert_eq!(archive_entry_path("/"), "");
}

#[test]
fn finished_backups() {
    let files = vec![
        record("/home/a.txt", 20, FileCategory::Document),
        record("/home/b.txt", 30, FileCategory::Document),
        record("/home/c.txt", 40, FileCategory::Document),
    ];
    let plan = plan_backup(ID, &Some("weekly".to_string()), "/backups", &now());
    let done = create(&plan, &files, &vec![true, false, true], 9, 25, &now(), 7);
    assert_eq!(done.manifest.id, ID);
    assert_eq!(done.manifest.label, "weekly");
    assert_eq!(done.manifest.created_at, "2025-04-08T00:00:00+00:00");
    assert_eq!(done.manifest.compression_level, 9);
    assert_eq!((done.manifest.original_bytes, done.manifest.compressed_bytes), (60, 25));
    let listed: Vec<(&str, u64)> =
        done.manifest.files.iter().map(|e| (e.path.as_str(), e.size_bytes)).collect();
    assert_eq!(listed, vec![("/home/a.txt", 20), ("/home/c.txt", 40)]);
    assert_eq!(done.manifest.files[0].content_hash, Some("abc".to_string()));
    assert_eq!(done.record.id, None);
    assert_eq!(done.record.archive_path, plan.archive_path);
    assert_eq!(done.record.algorithm, "zstd");
    assert_eq!(done.record.original_bytes, 60);
    assert_eq!(done.report.files_included, 2);
    assert_eq!(done.report.skipped, vec!["/home/b.txt"]);
    assert_eq!(
        report_text(&done.report, "58.3"),
        "\nBackup complete:\n  Archive:   /backups/weekly-0123abcd.tar.zst\n  Manifest:  \
         /backups/weekly-0123abcd.json\n  Files:     2\n  Size:      60 B → 25 B (58.3% saved)\n  Duration:  \
         7ms\n\n  Skipped 1 file(s) due to read errors:\n    ✗ /home/b.txt\n"
    );
}

#[test]
fn dry_runs() {
    let files =
        vec![record("/home/a.txt", 20, FileCategory::Document), record("/home/b.txt", 30, FileCategory::Code)];
    let plan = plan_backup(ID, &Some("weekly".to_string()), "/backups", &now());
    let report = dry_run_report(&files, &plan);
    assert_eq!((report.files_included, report.original_bytes, report.compressed_bytes), (2, 50, 0));
    assert!(report.skipped.is_empty());
    assert_eq!(
        dry_run_text(&report),
        "[dry-run] Would back up 2 file(s):\n[dry-run] Archive:  /backups/weekly-0123abcd.tar.zst\n[dry-run] \
         Manifest: /backups/weekly-0123abcd.json\n[dry-run] Total uncompressed size: 50 B\n"
    );
}

#[test]
fn listed_backups() {
    let mut db = Database::new();
    assert_eq!(
        list_text(&list(&db), &Vec::new()),
        "No backups found. Run `data-fortress backup create` to create one.\n"
    );
    let plan = plan_backup(ID, &Some("weekly".to_string()), "/backups", &now());
    let files = vec![record("/home/a.txt", 2048, FileCategory::Document)];
    let done = create(&plan, &files, &vec![true], 3, 1024, &now(), 1);
    insert_backup(&mut db, &done.record).unwrap();
    assert_eq!(
        list_text(&list(&db), &vec!["50.0".to_string()]),
        "\n1 backup(s):\n\n  [2025-04-08 00:00] weekly\n       2.0 KiB → 1.0 KiB (50.0% ratio)\n       \
         /backups/weekly-0123abcd.tar.zst\n\n"
    );
}

#[test]
fn saved_sizes() {
    assert_eq!(saved_bytes(1000, 400), 600);
    assert_eq!(saved_bytes(100, 200), 0);
    assert_eq!(saved_bytes(0, 0), 0);
}
