//! The records that every other module works on.

use vstd::prelude::*;

use crate::error::FortressResult;
use crate::text::same_text;
use crate::time::Timestamp;

verus! {

/// What a file is for, in broad terms.
#[derive(Clone, Copy, Debug, PartialEq, Eq, Hash, Structural)]
pub enum FileCategory {
    Image,
    Video,
    Audio,
    Document,
    Archive,
    Code,
    Other,
}

impl FileCategory {
    /// The name under which the category is stored.
    pub open spec fn name(self) -> Seq<char> {
        match self {
            FileCategory::Image => "image"@,
            FileCategory::Video => "video"@,
            FileCategory::Audio => "audio"@,
            FileCategory::Document => "document"@,
            FileCategory::Archive => "archive"@,
            FileCategory::Code => "code"@,
            FileCategory::Other => "other"@,
        }
    }

    /// The category stored under a name; every name that is not one of a
    /// category stands for [`FileCategory::Other`].
    pub open spec fn of_name(s: Seq<char>) -> FileCategory {
        if s == "image"@ {
            FileCategory::Image
        } else if s == "video"@ {
            FileCategory::Video
        } else if s == "audio"@ {
            FileCategory::Audio
        } else if s == "document"@ {
            FileCategory::Document
        } else if s == "archive"@ {
            FileCategory::Archive
        } else if s == "code"@ {
            FileCategory::Code
        } else {
            FileCategory::Other
        }
    }

    /// The name under which the category is stored.
    pub fn to_string(&self) -> (r: String)
        ensures
            r@ == self.name(),
    {
        let s: &str = match self {
            FileCategory::Image => "image",
            FileCategory::Video => "video",
            FileCategory::Audio => "audio",
            FileCategory::Document => "document",
            FileCategory::Archive => "archive",
            FileCategory::Code => "code",
            FileCategory::Other => "other",
        };
        s.to_owned()
    }

    /// The category stored under a name. It never fails: a name that is not
    /// one of a category stands for [`FileCategory::Other`].
    pub fn from_str(s: &str) -> (r: FortressResult<FileCategory>)
        ensures
            r == FortressResult::<FileCategory>::Ok(FileCategory::of_name(s@)),
    {
        Ok(
            if same_text(s, "image") {
                FileCategory::Image
            } else if same_text(s, "video") {
                FileCategory::Video
            } else if same_text(s, "audio") {
                FileCategory::Audio
            } else if same_text(s, "document") {
                FileCategory::Document
            } else if same_text(s, "archive") {
                FileCategory::Archive
            } else if same_text(s, "code") {
                FileCategory::Code
            } else {
                FileCategory::Other
            },
        )
    }
}

/// The category read back from its name is the category that was written.
pub proof fn category_name_reads_back(c: FileCategory)
    ensures
        FileCategory::of_name(c.name()) == c,
{
    reveal_strlit("image");
    reveal_strlit("video");
    reveal_strlit("audio");
    reveal_strlit("document");
    reveal_strlit("archive");
    reveal_strlit("code");
    reveal_strlit("other");
    assert("image"@[0] == 'i' && "video"@[0] == 'v' && "audio"@[1] == 'u' && "document"@[0] == 'd'
        && "archive"@[1] == 'r' && "archive"@[0] == 'a' && "audio"@[0] == 'a' && "code"@[0] == 'c'
        && "other"@[0] == 'o');
}

/// An optional string as an optional text.
pub open spec fn optional_text(s: Option<String>) -> Option<Seq<char>> {
    match s {
        Some(t) => Some(t@),
        None => None,
    }
}

/// A copy of an optional string.
pub fn clone_optional(s: &Option<String>) -> (r: Option<String>)
    ensures
        r == *s,
{
    match s {
        Some(t) => Some(t.clone()),
        None => None,
    }
}

/// One file that a scan found.
#[derive(Debug)]
pub struct FileRecord {
    /// The number of the record; `None` before it is stored.
    pub id: Option<i64>,
    /// The absolute path.
    pub path: String,
    /// The last component of the path.
    pub name: String,
    /// The extension in lowercase, without the dot; empty if there is none.
    pub extension: String,
    /// What the file is for.
    pub category: FileCategory,
    /// The MIME type.
    pub mime_type: String,
    /// The size in bytes.
    pub size_bytes: u64,
    /// The BLAKE3 hash of the contents in hexadecimal; `None` before the file
    /// is hashed.
    pub content_hash: Option<String>,
    /// When the file was last modified.
    pub modified_at: Timestamp,
    /// When the file was recorded.
    pub scanned_at: Timestamp,
    /// Whether the file was there at the last scan.
    pub is_present: bool,
}

/// What a file record says.
#[verifier::ext_equal]
pub struct FileView {
    pub id: Option<i64>,
    pub path: Seq<char>,
    pub name: Seq<char>,
    pub extension: Seq<char>,
    pub category: FileCategory,
    pub mime_type: Seq<char>,
    pub size_bytes: u64,
    pub content_hash: Option<Seq<char>>,
    pub modified_at: (int, int),
    pub scanned_at: (int, int),
    pub is_present: bool,
}

impl View for FileRecord {
    type V = FileView;

    open spec fn view(&self) -> FileView {
        FileView {
            id: self.id,
            path: self.path@,
            name: self.name@,
            extension: self.extension@,
            category: self.category,
            mime_type: self.mime_type@,
            size_bytes: self.size_bytes,
            content_hash: optional_text(self.content_hash),
            modified_at: self.modified_at@,
            scanned_at: self.scanned_at@,
            is_present: self.is_present,
        }
    }
}

/// What a list of file records says.
pub open spec fn file_views(records: Seq<FileRecord>) -> Seq<FileView> {
    records.map_values(|r: FileRecord| r@)
}

impl Clone for FileRecord {
    fn clone(&self) -> (r: Self)
        ensures
            r == *self,
    {
        FileRecord {
            id: self.id,
            path: self.path.clone(),
            name: self.name.clone(),
            extension: self.extension.clone(),
            category: self.category,
            mime_type: self.mime_type.clone(),
            size_bytes: self.size_bytes,
            content_hash: clone_optional(&self.content_hash),
            modified_at: self.modified_at,
            scanned_at: self.scanned_at,
            is_present: self.is_present,
        }
    }
}

/// A copy of a list of records.
pub fn clone_records(records: &Vec<FileRecord>) -> (r: Vec<FileRecord>)
    ensures
        r@ == records@,
{
    let mut out: Vec<FileRecord> = Vec::new();
    for i in 0..records.len()
        invariant
            out@ == records@.take(i as int),
    {
        out.push(records[i].clone());
    }
    assert(records@.take(records@.len() as int) == records@);
    out
}

/// Files with the same contents.
#[derive(Debug)]
pub struct DuplicateGroup {
    /// The hash of the contents.
    pub content_hash: String,
    /// The bytes that all copies but one take.
    pub wasted_bytes: u64,
    /// The files, in the order of their paths.
    pub files: Vec<FileRecord>,
}

/// What a group of files says.
#[verifier::ext_equal]
pub struct GroupView {
    pub content_hash: Seq<char>,
    pub wasted_bytes: u64,
    pub files: Seq<FileView>,
}

impl View for DuplicateGroup {
    type V = GroupView;

    open spec fn view(&self) -> GroupView {
        GroupView {
            content_hash: self.content_hash@,
            wasted_bytes: self.wasted_bytes,
            files: file_views(self.files@),
        }
    }
}

/// What a list of groups says.
pub open spec fn group_views(groups: Seq<DuplicateGroup>) -> Seq<GroupView> {
    groups.map_values(|g: DuplicateGroup| g@)
}

impl Clone for DuplicateGroup {
    fn clone(&self) -> (r: Self)
        ensures
            r@ == self@,
    {
        DuplicateGroup {
            content_hash: self.content_hash.clone(),
            wasted_bytes: self.wasted_bytes,
            files: clone_records(&self.files),
        }
    }
}

/// A file that a search found.
#[derive(Debug)]
pub struct SearchResult {
    /// The file.
    pub file: FileRecord,
    /// How well it matches, in half points: 20 is a score of 10.0.
    pub score: u128,
    /// A part of its contents where they matched, with the words of the query
    /// between asterisks; nothing where it matched by its name or metadata only.
    pub snippet: Option<String>,
}

impl Clone for SearchResult {
    fn clone(&self) -> (r: Self)
        ensures
            r == *self,
    {
        SearchResult {
            file: self.file.clone(),
            score: self.score,
            snippet: clone_optional(&self.snippet),
        }
    }
}

/// What a scan counted.
#[derive(Clone, Copy, Debug, PartialEq, Eq, Structural)]
pub struct ScanStats {
    /// Files found.
    pub files_found: u64,
    /// Files found that were not recorded before.
    pub files_new: u64,
    /// Entries left out.
    pub files_skipped: u64,
    /// The sizes of the files found, added up.
    pub total_bytes: u64,
    /// How long the scan took.
    pub duration_ms: u64,
}

impl Default for ScanStats {
    fn default() -> (r: Self)
        ensures
            r == (ScanStats {
                files_found: 0,
                files_new: 0,
                files_skipped: 0,
                total_bytes: 0,
                duration_ms: 0,
            }),
    {
        ScanStats {
            files_found: 0,
            files_new: 0,
            files_skipped: 0,
            total_bytes: 0,
            duration_ms: 0,
        }
    }
}

/// One backup archive.
#[derive(Debug)]
pub struct BackupRecord {
    /// The number of the record; `None` before it is stored.
    pub id: Option<i64>,
    /// The name that the user knows the backup by.
    pub label: String,
    /// The path of the archive.
    pub archive_path: String,
    /// The sizes of the files in the archive, added up.
    pub original_bytes: u64,
    /// The size of the archive.
    pub compressed_bytes: u64,
    /// How the archive is compressed.
    pub algorithm: String,
    /// When the backup was made.
    pub created_at: Timestamp,
}

/// What a backup record says.
#[verifier::ext_equal]
pub struct BackupView {
    pub id: Option<i64>,
    pub label: Seq<char>,
    pub archive_path: Seq<char>,
    pub original_bytes: u64,
    pub compressed_bytes: u64,
    pub algorithm: Seq<char>,
    pub created_at: (int, int),
}

impl View for BackupRecord {
    type V = BackupView;

    open spec fn view(&self) -> BackupView {
        BackupView {
            id: self.id,
            label: self.label@,
            archive_path: self.archive_path@,
            original_bytes: self.original_bytes,
            compressed_bytes: self.compressed_bytes,
            algorithm: self.algorithm@,
            created_at: self.created_at@,
        }
    }
}

/// What a list of backup records says.
pub open spec fn backup_views(records: Seq<BackupRecord>) -> Seq<BackupView> {
    records.map_values(|r: BackupRecord| r@)
}

impl Clone for BackupRecord {
    fn clone(&self) -> (r: Self)
        ensures
            r == *self,
    {
        BackupRecord {
            id: self.id,
            label: self.label.clone(),
            archive_path: self.archive_path.clone(),
            original_bytes: self.original_bytes,
            compressed_bytes: self.compressed_bytes,
            algorithm: self.algorithm.clone(),
            created_at: self.created_at,
        }
    }
}

/// The sizes of the files, added up.
pub open spec fn total_size(files: Seq<FileView>) -> int
    decreases files.len(),
{
    if files.len() == 0 {
        0
    } else {
        total_size(files.drop_last()) + files.last().size_bytes
    }
}

/// The sizes of the files, added up, if the sum is at most `max`.
pub fn checked_total(files: &Vec<FileRecord>, max: u64) -> (r: Option<u64>)
    ensures
        match r {
            Some(n) => n == total_size(file_views(files@)) && n <= max,
            None => total_size(file_views(files@)) > max,
        },
{
    let ghost all = file_views(files@);
    let mut sum: u64 = 0;
    for i in 0..files.len()
        invariant
            all == file_views(files@),
            sum == total_size(all.take(i as int)),
            sum <= max,
    {
        proof {
            assert(all.take(i + 1).drop_last() == all.take(i as int));
            total_size_grows(all, i + 1);
        }
        let size: u64 = files[i].size_bytes;
        if size > max || sum > max - size {
            return None;
        }
        sum = sum + size;
    }
    assert(all.take(files@.len() as int) == all);
    Some(sum)
}

/// Fewer files are never larger in total.
pub proof fn total_size_grows(files: Seq<FileView>, k: int)
    requires
        0 <= k <= files.len(),
    ensures
        0 <= total_size(files.take(k)) <= total_size(files),
    decreases files.len(),
{
    if k == files.len() {
        assert(files.take(k) == files);
        if k > 0 {
            total_size_grows(files.drop_last(), k - 1);
        }
    } else {
        total_size_grows(files.drop_last(), k);
        assert(files.drop_last().take(k) == files.take(k));
    }
}

} // verus!
