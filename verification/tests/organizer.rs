use chrono::TimeZone;
use data_fortress::cli::{OrganizeArgs, OrganizeMode};
use data_fortress::models::{FileCategory, FileRecord};
use data_fortress::organizer::{
    after_rename, category_folder, compute_destination, cross_device_error, extend_undo_log, integer_text,
    month_name, next_move, preview_line, report_text, run, undo_log_path, AfterRename, MoveDecision,
    MoveEvent, UndoEntry,
};
use data_fortress::time::Timestamp;

fn at(year: i32, month: u32) -> Timestamp {
    let t = chrono::Utc.with_ymd_and_hms(year, month, 1, 0, 0, 0).unwrap();
    Timestamp::new(t.timestamp(), 0).unwrap()
}

fn make_record(path: &str, year: i32, month: u32, category: FileCategory) -> FileRecord {
    FileRecord {
        id: None,
        path: path.to_string(),
        name: path.rsplit('/').next().unwrap_or("").to_string(),
        extension: "jpg".to_string(),
        category,
        mime_type: "image/jpeg".to_string(),
        size_bytes: 1024,
        content_hash: None,
        modified_at: at(year, month),
        scanned_at: at(2025, 1),
        is_present: true,
    }
}

fn args(dry_run: bool, overwrite: bool) -> OrganizeArgs {
    OrganizeArgs {
        source: "/chaos".to_string(),
        dest: "/sorted".to_string(),
        mode: OrganizeMode::ByType,
        dry_run,
        overwrite,
    }
}

#[test]
fn test_by_type_and_date_destination() {
    let record = make_record("/chaos/IMG_001.jpg", 2024, 3, FileCategory::Image);
    let dest = compute_destination(&record, "/sorted", &OrganizeMode::ByTypeAndDate);
    assert_eq!(dest, "/sorted/Photos/2024/03-March/IMG_001.jpg");
}

#[test]
fn test_by_date_destination() {
    let record = make_record("/chaos/report.pdf", 2023, 11, FileCategory::Document);
    let dest = compute_destination(&record, "/sorted", &OrganizeMode::ByDate);
    assert_eq!(dest, "/sorted/2023/11-November/report.pdf");
}

#[test]
fn test_by_type_destination() {
    let record = make_record("/chaos/song.mp3", 2024, 6, FileCategory::Audio);
    let dest = compute_destination(&record, "/sorted", &OrganizeMode::ByType);
    assert_eq!(dest, "/sorted/Music/song.mp3");
}

#[test]
fn test_month_name_all_months() {
    assert_eq!(month_name(1), "01-January");
    assert_eq!(month_name(6), "06-June");
    assert_eq!(month_name(12), "12-December");
}

#[test]
fn test_month_name_clamps_invalid_values() {
    assert_eq!(month_name(0), "01-January");
    assert_eq!(month_name(13), "12-December");
}

#[test]
fn test_category_folder_names() {
    assert_eq!(category_folder(&FileCategory::Image), "Photos");
    assert_eq!(category_folder(&FileCategory::Video), "Videos");
    assert_eq!(category_folder(&FileCategory::Audio), "Music");
    assert_eq!(category_folder(&FileCategory::Document), "Documents");
    assert_eq!(category_folder(&FileCategory::Archive), "Archives");
    assert_eq!(category_folder(&FileCategory::Code), "Code");
    assert_eq!(category_folder(&FileCategory::Other), "Other");
}

#[test]
fn month_names_in_between() {
    let names: Vec<String> = (2..12).map(month_name).collect();
    assert_eq!(
        names,
        vec![
            "02-February", "03-March", "04-April", "05-May", "06-June", "07-July", "08-August",
            "09-September", "10-October", "11-November",
        ]
    );
}

#[test]
fn dates_at_the_edges_of_months() {
    for (y, m, d) in [(2024, 2, 29), (2023, 12, 31), (1969, 12, 31), (2000, 2, 29), (1900, 3, 1)] {
        let t = chrono::Utc.with_ymd_and_hms(y, m, d, 23, 59, 59).unwrap();
        let mut record = make_record("/c/f.txt", 2024, 1, FileCategory::Other);
        record.modified_at = Timestamp::new(t.timestamp(), 999_999_999).unwrap();
        let dest = compute_destination(&record, "/s", &OrganizeMode::ByDate);
        assert_eq!(dest, format!("/s/{}/{}/f.txt", y, month_name(m)));
    }
}

#[test]
fn destinations_of_odd_paths() {
    let record = make_record("/", 2024, 6, FileCategory::Other);
    assert_eq!(compute_destination(&record, "/sorted/", &OrganizeMode::ByType), "/sorted/Other/unknown");
    let record = make_record("/a/b.txt/", 2024, 6, FileCategory::Code);
    assert_eq!(compute_destination(&record, "", &OrganizeMode::ByType), "Code/b.txt");
    assert_eq!(integer_text(-44), "-44");
    assert_eq!(integer_text(i32::MIN), "-2147483648");
    assert_eq!(integer_text(2024), "2024");
}

#[test]
fn decisions() {
    assert_eq!(next_move(&args(true, false), true), MoveDecision::Preview);
    assert_eq!(next_move(&args(false, false), true), MoveDecision::Conflict);
    assert_eq!(next_move(&args(false, true), true), MoveDecision::Move);
    assert_eq!(next_move(&args(false, false), false), MoveDecision::Move);
}

#[test]
fn renames_across_devices() {
    assert!(cross_device_error(Some(18)));
    assert!(!cross_device_error(Some(2)));
    assert!(!cross_device_error(None));
    assert_eq!(after_rename(Ok(())), AfterRename::Done);
    assert_eq!(after_rename(Err(Some(18))), AfterRename::CopyThenDelete);
    assert_eq!(after_rename(Err(Some(13))), AfterRename::Fail);
    assert_eq!(after_rename(Err(None)), AfterRename::Fail);
}

#[test]
fn a_run_is_reported() {
    let files = vec![
        make_record("/chaos/a.jpg", 2024, 3, FileCategory::Image),
        make_record("/chaos/b.mp3", 2024, 3, FileCategory::Audio),
        make_record("/chaos/c.rs", 2024, 3, FileCategory::Code),
    ];
    let events = vec![
        MoveEvent::Moved(at(2025, 2)),
        MoveEvent::Taken,
        MoveEvent::Failed("permission denied".to_string()),
    ];
    let (report, undo) = run(&files, &args(false, false), &events);
    assert_eq!(report.files_moved, 1);
    assert_eq!(report.conflicts[0].source, "/chaos/b.mp3");
    assert_eq!(report.conflicts[0].destination, "/sorted/Music/b.mp3");
    assert_eq!(report.errors, vec!["/chaos/c.rs: permission denied"]);
    assert_eq!(undo.len(), 1);
    assert_eq!(undo[0].source, "/chaos/a.jpg");
    assert_eq!(undo[0].destination, "/sorted/Photos/a.jpg");
    assert_eq!(undo[0].moved_at, at(2025, 2));
    assert_eq!(report.undo_log_path, Some(undo_log_path("/sorted")));
    assert_eq!(
        report_text(&report, false),
        "\nOrganize complete:\n  1 file(s) moved\n  1 conflict(s) skipped (destination already exists):\n    \
         /chaos/b.mp3 → /sorted/Music/b.mp3\n  1 error(s):\n    ✗ /chaos/c.rs: permission denied\n\n  \
         Undo log: /sorted/.fortress_undo.json\n  To reverse: inspect /sorted/.fortress_undo.json and rename \
         files back.\n"
    );
}

#[test]
fn a_dry_run_counts_previews() {
    let files = vec![make_record("/chaos/a.jpg", 2024, 3, FileCategory::Image)];
    let (report, undo) = run(&files, &args(true, false), &vec![MoveEvent::Previewed]);
    assert_eq!(report.files_moved, 1);
    assert!(undo.is_empty());
    assert_eq!(report.undo_log_path, None);
    assert_eq!(report_text(&report, true), "\n[dry-run] 1 file(s) would be moved.\n");
    assert_eq!(preview_line("/a", "/b"), "/a  →  /b");
}

#[test]
fn logs_grow_at_the_end() {
    let e = |s: &str| UndoEntry { source: s.to_string(), destination: format!("/d{}", s), moved_at: at(2024, 1) };
    let log = extend_undo_log(&vec![e("/1")], &vec![e("/2"), e("/3")]);
    let sources: Vec<&str> = log.iter().map(|x| x.source.as_str()).collect();
    assert_eq!(sources, vec!["/1", "/2", "/3"]);
    assert_eq!(log[2].destination, "/d/3");
}
