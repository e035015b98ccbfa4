//! The records as rows of database tables.

use vstd::prelude::*;

use crate::models::{
    clone_optional, optional_text, BackupRecord, BackupView, FileCategory, FileRecord, FileView,
};
use crate::time::{now, parse_time, parsed_time, rfc3339, to_rfc3339, Timestamp};

verus! {

/// A row of the table of files.
#[derive(Debug, PartialEq, Eq)]
pub struct FileRow {
    pub id: i64,
    pub path: String,
    pub name: String,
    pub extension: String,
    pub category: String,
    pub mime_type: String,
    pub size_bytes: i64,
    pub content_hash: Option<String>,
    pub modified_at: String,
    pub scanned_at: String,
    pub is_present: i32,
}

/// A row of the table of backups.
#[derive(Debug, PartialEq, Eq)]
pub struct BackupRow {
    pub id: i64,
    pub label: String,
    pub archive_path: String,
    pub original_bytes: i64,
    pub compressed_bytes: i64,
    pub algorithm: String,
    pub created_at: String,
}

/// The point in time that a column holds, or `fallback` where it holds none.
pub open spec fn time_in(column: Seq<char>, fallback: (int, int)) -> (int, int) {
    match parsed_time(column) {
        Some(t) => t,
        None => fallback,
    }
}

/// What the row of a file says, where `fallback` stands in for times that
/// cannot be read.
pub open spec fn file_in_row(row: FileRow, fallback: (int, int)) -> FileView {
    FileView {
        id: Some(row.id),
        path: row.path@,
        name: row.name@,
        extension: row.extension@,
        category: FileCategory::of_name(row.category@),
        mime_type: row.mime_type@,
        size_bytes: row.size_bytes as u64,
        content_hash: optional_text(row.content_hash),
        modified_at: time_in(row.modified_at@, fallback),
        scanned_at: time_in(row.scanned_at@, fallback),
        is_present: row.is_present != 0,
    }
}

/// What the row of a backup says, where `fallback` stands in for a time that
/// cannot be read.
pub open spec fn backup_in_row(row: BackupRow, fallback: (int, int)) -> BackupView {
    BackupView {
        id: Some(row.id),
        label: row.label@,
        archive_path: row.archive_path@,
        original_bytes: row.original_bytes as u64,
        compressed_bytes: row.compressed_bytes as u64,
        algorithm: row.algorithm@,
        created_at: time_in(row.created_at@, fallback),
    }
}

fn time_or(column: &str, fallback: &Timestamp) -> (r: Timestamp)
    ensures
        r@ == time_in(column@, fallback@),
{
    match parse_time(column) {
        Some(t) => t,
        None => *fallback,
    }
}

/// The record in a row, where `fallback` stands in for times that cannot be
/// read.
pub fn file_record_in(row: &FileRow, fallback: &Timestamp) -> (r: FileRecord)
    ensures
        r@ == file_in_row(*row, fallback@),
{
    let category: FileCategory = match FileCategory::from_str(row.category.as_str()) {
        Ok(c) => c,
        Err(_) => FileCategory::Other,
    };
    FileRecord {
        id: Some(row.id),
        path: row.path.clone(),
        name: row.name.clone(),
        extension: row.extension.clone(),
        category,
        mime_type: row.mime_type.clone(),
        size_bytes: #[verifier::truncate]
        (row.size_bytes as u64),
        content_hash: clone_optional(&row.content_hash),
        modified_at: time_or(row.modified_at.as_str(), fallback),
        scanned_at: time_or(row.scanned_at.as_str(), fallback),
        is_present: row.is_present != 0,
    }
}

/// The record in a row, where the time of the machine stands in for times that
/// cannot be read.
pub fn row_to_file_record(row: &FileRow) -> (r: FileRecord)
    ensures
        exists|t: (int, int)| r@ == #[trigger] file_in_row(*row, t),
{
    let fallback: Timestamp = now();
    let r: FileRecord = file_record_in(row, &fallback);
    assert(r@ == file_in_row(*row, fallback@));
    r
}

/// The record in a row, where `fallback` stands in for a time that cannot be
/// read.
pub fn backup_record_in(row: &BackupRow, fallback: &Timestamp) -> (r: BackupRecord)
    ensures
        r@ == backup_in_row(*row, fallback@),
{
    BackupRecord {
        id: Some(row.id),
        label: row.label.clone(),
        archive_path: row.archive_path.clone(),
        original_bytes: #[verifier::truncate]
        (row.original_bytes as u64),
        compressed_bytes: #[verifier::truncate]
        (row.compressed_bytes as u64),
        algorithm: row.algorithm.clone(),
        created_at: time_or(row.created_at.as_str(), fallback),
    }
}

/// The record in a row, where the time of the machine stands in for a time
/// that cannot be read.
pub fn row_to_backup_record(row: &BackupRow) -> (r: BackupRecord)
    ensures
        exists|t: (int, int)| r@ == #[trigger] backup_in_row(*row, t),
{
    let fallback: Timestamp = now();
    let r: BackupRecord = backup_record_in(row, &fallback);
    assert(r@ == backup_in_row(*row, fallback@));
    r
}

/// Whether a point in time is in one of the years from 0 to 9999 and not in a
/// leap second.
pub open spec fn plain_time(t: (int, int)) -> bool {
    -62_167_219_200 <= t.0 < 253_402_300_800 && t.1 < 1_000_000_000
}

/// Whether `row` holds the columns of the file `f`.
pub open spec fn row_holds_file(row: FileRow, f: FileView) -> bool {
    &&& Some(row.id) == f.id
    &&& row.path@ == f.path
    &&& row.name@ == f.name
    &&& row.extension@ == f.extension
    &&& row.category@ == f.category.name()
    &&& row.mime_type@ == f.mime_type
    &&& row.size_bytes == f.size_bytes as i64
    &&& optional_text(row.content_hash) == f.content_hash
    &&& row.modified_at@ == rfc3339(f.modified_at)
    &&& row.scanned_at@ == rfc3339(f.scanned_at)
    &&& row.is_present == if f.is_present {
        1i32
    } else {
        0
    }
}

/// Whether `row` holds the columns of the backup `b`.
pub open spec fn row_holds_backup(row: BackupRow, b: BackupView) -> bool {
    &&& Some(row.id) == b.id
    &&& row.label@ == b.label
    &&& row.archive_path@ == b.archive_path
    &&& row.original_bytes == b.original_bytes as i64
    &&& row.compressed_bytes == b.compressed_bytes as i64
    &&& row.algorithm@ == b.algorithm
    &&& row.created_at@ == rfc3339(b.created_at)
}

/// A size survives the way through a column of signed numbers.
pub proof fn size_survives(n: u64)
    ensures
        (n as i64) as u64 == n,
{
    assert((n as i64) as u64 == n) by (bit_vector);
}

/// The row of a stored file. Reading the row gives the record back, where its
/// times are in the years from 0 to 9999 and not in a leap second.
pub fn file_record_to_row(record: &FileRecord) -> (row: FileRow)
    requires
        record.id is Some,
    ensures
        row_holds_file(row, record@),
        plain_time(record@.modified_at) && plain_time(record@.scanned_at) ==> forall|t: (int, int)| #[trigger]
            file_in_row(row, t) == record@,
{
    let id: i64 = match record.id {
        Some(k) => k,
        None => 0,
    };
    proof {
        size_survives(record.size_bytes);
        crate::models::category_name_reads_back(record.category);
    }
    FileRow {
        id,
        path: record.path.clone(),
        name: record.name.clone(),
        extension: record.extension.clone(),
        category: record.category.to_string(),
        mime_type: record.mime_type.clone(),
        size_bytes: #[verifier::truncate]
        (record.size_bytes as i64),
        content_hash: clone_optional(&record.content_hash),
        modified_at: to_rfc3339(&record.modified_at),
        scanned_at: to_rfc3339(&record.scanned_at),
        is_present: if record.is_present {
            1
        } else {
            0
        },
    }
}

/// The row of a stored backup. Reading the row gives the record back, where its
/// time is in the years from 0 to 9999 and not in a leap second.
pub fn backup_record_to_row(record: &BackupRecord) -> (row: BackupRow)
    requires
        record.id is Some,
    ensures
        row_holds_backup(row, record@),
        plain_time(record@.created_at) ==> forall|t: (int, int)| #[trigger] backup_in_row(row, t) == record@,
{
    let id: i64 = match record.id {
        Some(k) => k,
        None => 0,
    };
    proof {
        size_survives(record.original_bytes);
        size_survives(record.compressed_bytes);
    }
    BackupRow {
        id,
        label: record.label.clone(),
        archive_path: record.archive_path.clone(),
        original_bytes: #[verifier::truncate]
        (record.original_bytes as i64),
        compressed_bytes: #[verifier::truncate]
        (record.compressed_bytes as i64),
        algorithm: record.algorithm.clone(),
        created_at: to_rfc3339(&record.created_at),
    }
}

} // verus!
