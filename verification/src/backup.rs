//! Backup archives.

use vstd::prelude::*;
use vstd::string::*;

use crate::cli::{optional_category, search_category_to_file_category, BackupCreateArgs};
use crate::config::Config;
use crate::db::{
    get_all_backups, get_all_present_files, in_category, is_backup_listing, is_listing, present,
    search_files_by_category, Database, FileOrder,
};
use crate::dedup::first_chars;
use crate::dedup::hasher::is_lower_hex;
use crate::error::{FortressError, FortressResult};
use crate::models::{
    backup_views, clone_optional, file_views, optional_text, total_size, total_size_grows, BackupRecord,
    BackupView, FileCategory, FileRecord, FileView,
};
use crate::paths::{join_path, path_join};
use crate::sizes::{byte_size, fmt_bytes};
use crate::text::{
    chars_of, decimal, decimal_text, ends_with, joined, joined3, strip_start, text_between, texts,
    trim_start, Strip,
};
use crate::time::{date_text, format_time, now, on_day, rfc3339, time_formatted, to_rfc3339, Timestamp};

verus! {

// ---------------------------------------------------------------------------
// Names
// ---------------------------------------------------------------------------

/// Whether `s` has the form of a random UUID: 32 hexadecimal digits in lowercase,
/// in groups of 8, 4, 4, 4 and 12 with a hyphen between them, with the digits
/// that say that it is random.
pub open spec fn is_uuid(s: Seq<char>) -> bool {
    &&& s.len() == 36
    &&& s[14] == '4'
    &&& s[19] == '8' || s[19] == '9' || s[19] == 'a' || s[19] == 'b'
    &&& forall|i: int|
        0 <= i < 36 ==> if i == 8 || i == 13 || i == 18 || i == 23 {
            #[trigger] s[i] == '-'
        } else {
            is_lower_hex(s[i])
        }
}

/// `Uuid::new_v4` of uuid, in its usual form: a random id, of which nothing is
/// said but its form.
#[verifier::external_body]
fn new_uuid() -> (r: String)
    ensures
        is_uuid(r@),
{
    uuid::Uuid::new_v4().to_string()
}

/// Where a backup goes.
#[derive(Debug)]
pub struct BackupPlan {
    /// The id of the backup.
    pub id: String,
    /// The name of the backup.
    pub label: String,
    /// The path of the archive.
    pub archive_path: String,
    /// The path of the manifest.
    pub manifest_path: String,
}

/// The name of a backup: the one that was asked for, or one with the date.
pub open spec fn label_of(label: Option<Seq<char>>, now: (int, int)) -> Seq<char> {
    match label {
        Some(l) => l,
        None => "backup-"@ + time_formatted(now, "%Y-%m-%d"@),
    }
}

/// The name of the files of a backup, without what tells them apart.
pub open spec fn stem_of(label: Seq<char>, id: Seq<char>) -> Seq<char> {
    label + "-"@ + id.take(8)
}

/// The name of an archive.
pub open spec fn archive_name(label: Seq<char>, id: Seq<char>) -> Seq<char> {
    stem_of(label, id) + ".tar.zst"@
}

/// The name of a manifest.
pub open spec fn manifest_name(label: Seq<char>, id: Seq<char>) -> Seq<char> {
    stem_of(label, id) + ".json"@
}

/// Whether `plan` is where the backup with the given id and name goes.
pub open spec fn is_plan(plan: BackupPlan, id: Seq<char>, label: Seq<char>, backup_dir: Seq<char>) -> bool {
    &&& plan.id@ == id
    &&& plan.label@ == label
    &&& plan.archive_path@ == path_join(backup_dir, archive_name(label, id))
    &&& plan.manifest_path@ == path_join(backup_dir, manifest_name(label, id))
}

/// Where the backup with the given id goes. Without a name it gets one with the
/// date.
pub fn plan_backup(id: &str, label: &Option<String>, backup_dir: &str, now: &Timestamp) -> (r: BackupPlan)
    requires
        id@.len() >= 8,
    ensures
        is_plan(r, id@, label_of(optional_text(*label), now@), backup_dir@),
        label is None ==> forall|y: nat, m: nat, d: nat|
            y <= 9999 && #[trigger] on_day(now@.0, y as int, m as int, d as int) ==> r.label@ == "backup-"@
                + date_text(y, m, d),
{
    let name: String = match label {
        Some(l) => l.clone(),
        None => joined("backup-", format_time(now, "%Y-%m-%d").as_str()),
    };
    let short: String = first_chars(id, 8);
    assert(short@ == id@.take(8));
    let stem: String = joined3(name.as_str(), "-", short.as_str());
    BackupPlan {
        id: id.to_owned(),
        archive_path: join_path(backup_dir, joined(stem.as_str(), ".tar.zst").as_str()),
        manifest_path: join_path(backup_dir, joined(stem.as_str(), ".json").as_str()),
        label: name,
    }
}

/// Where a new backup goes, under a new id.
pub fn start_backup(args: &BackupCreateArgs, config: &Config) -> (r: BackupPlan)
    ensures
        is_uuid(r.id@),
        exists|t: (int, int)|
            is_plan(r, r.id@, #[trigger] label_of(optional_text(args.label), t), config@.backup_dir),
{
    let id: String = new_uuid();
    let at: Timestamp = now();
    let r: BackupPlan = plan_backup(id.as_str(), &args.label, config.backup_dir.as_str(), &at);
    assert(is_plan(r, r.id@, label_of(optional_text(args.label), at@), config@.backup_dir));
    r
}

/// `s` without `end` at its end, however often it stands there.
pub open spec fn without_endings(s: Seq<char>, end: Seq<char>) -> Seq<char>
    decreases s.len(),
{
    if end.len() > 0 && end.is_suffix_of(s) {
        without_endings(s.take(s.len() - end.len()), end)
    } else {
        s
    }
}

/// The path of the manifest of an archive.
pub open spec fn manifest_of(archive_path: Seq<char>) -> Seq<char> {
    without_endings(archive_path, ".tar.zst"@) + ".json"@
}

/// The path of the manifest of an archive.
pub fn manifest_path_of(archive_path: &str) -> (r: String)
    ensures
        r@ == manifest_of(archive_path@),
{
    let v: Vec<char> = chars_of(archive_path);
    proof {
        reveal_strlit(".tar.zst");
    }
    let mut n: usize = v.len();
    let mut rest: String = archive_path.to_owned();
    assert(v@.take(n as int) == v@);
    while ends_with(rest.as_str(), ".tar.zst")
        invariant
            v@ == archive_path@,
            n <= v@.len(),
            rest@ == v@.take(n as int),
            ".tar.zst"@.len() == 8,
            without_endings(archive_path@, ".tar.zst"@) == without_endings(rest@, ".tar.zst"@),
        ensures
            rest@ == without_endings(archive_path@, ".tar.zst"@),
        decreases n,
    {
        let ghost before = rest@;
        n = n - 8;
        rest = text_between(v.as_slice(), 0, n);
        assert(rest@ == before.take(before.len() - 8));
        assert(rest@ == v@.take(n as int));
    }
    joined(rest.as_str(), ".json")
}

/// The manifest that is looked for beside an archive is the one that was written
/// with it, whatever the name of the backup.
pub proof fn manifest_is_found(plan: BackupPlan, id: Seq<char>, label: Seq<char>, backup_dir: Seq<char>)
    requires
        is_uuid(id),
        is_plan(plan, id, label, backup_dir),
    ensures
        manifest_of(plan.archive_path@) == plan.manifest_path@,
{
    reveal_strlit(".tar.zst");
    reveal_strlit(".json");
    reveal_strlit("-");
    let end = ".tar.zst"@;
    let stem = stem_of(label, id);
    let base = path_join(backup_dir, stem);
    assert(stem.len() == label.len() + 9);
    assert(path_join(backup_dir, stem + end) == base + end) by {
        assert((stem + end)[0] == stem[0]);
        assert(backup_dir.push('/') + (stem + end) == backup_dir.push('/') + stem + end);
        assert(backup_dir + (stem + end) == backup_dir + stem + end);
    }
    assert(path_join(backup_dir, stem + ".json"@) == base + ".json"@) by {
        assert((stem + ".json"@)[0] == stem[0]);
        assert(backup_dir.push('/') + (stem + ".json"@) == backup_dir.push('/') + stem + ".json"@);
        assert(backup_dir + (stem + ".json"@) == backup_dir + stem + ".json"@);
    }
    assert((base + end).take((base + end).len() - end.len()) == base);
    assert(end.is_suffix_of(base + end)) by {
        assert((base + end).subrange(base.len() as int, (base + end).len() as int) == end);
    }
    assert(base.last() == id[7]) by {
        assert(stem.last() == id.take(8)[7]);
    }
    assert(is_lower_hex(id[7]));
    assert(!end.is_suffix_of(base)) by {
        if end.is_suffix_of(base) {
            assert(base.subrange(base.len() - end.len(), base.len() as int)[7] == end[7]);
            assert(end[7] == 't');
        }
    }
    assert(without_endings(base, end) == base);
}

// ---------------------------------------------------------------------------
// Making a backup
// ---------------------------------------------------------------------------

/// Whether `out` lists the files that a backup is made of: all that are there, or
/// those of one category.
pub open spec fn are_selected(
    files: Seq<FileView>,
    category: Option<FileCategory>,
    out: Seq<FileView>,
) -> bool {
    match category {
        None => is_listing(files, present(), FileOrder::Path, out),
        Some(c) => is_listing(files, in_category(c), FileOrder::Name, out),
    }
}

/// Whether `e` is the error of a backup of no files.
pub open spec fn nothing_to_back_up(e: FortressError) -> bool {
    e matches FortressError::Unexpected(m) && m@
        == "No files to back up. Run `scan` first, or check your --category filter."@
}

/// The files that a backup is made of. It is refused where there are none.
pub fn select_files(db: &Database, args: &BackupCreateArgs) -> (r: FortressResult<Vec<FileRecord>>)
    requires
        db.wf(),
    ensures
        exists|out: Seq<FileView>| #[trigger]
            are_selected(db.files(), optional_category(args.category), out) && match r {
                Ok(files) => out.len() > 0 && file_views(files@) == out,
                Err(e) => out.len() == 0 && nothing_to_back_up(e),
            },
{
    let files: Vec<FileRecord> = match &args.category {
        None => get_all_present_files(db),
        Some(cat) => search_files_by_category(db, &search_category_to_file_category(cat)),
    };
    let ghost out = file_views(files@);
    assert(are_selected(db.files(), optional_category(args.category), out));
    if files.len() == 0 {
        return Err(
            FortressError::Unexpected(
                "No files to back up. Run `scan` first, or check your --category filter.".to_owned(),
            ),
        );
    }
    Ok(files)
}

/// The path of a file in an archive: its path without separators at the start.
pub fn archive_entry_path(path: &str) -> (r: String)
    ensures
        r@ == strip_start(path@, Strip::Only('/')),
{
    trim_start(path, Strip::Only('/'))
}

/// A file in a manifest.
#[derive(Debug)]
pub struct ManifestEntry {
    /// The path of the file.
    pub path: String,
    /// Its size in bytes.
    pub size_bytes: u64,
    /// The hash of its contents, where it is known.
    pub content_hash: Option<String>,
}

/// What is written beside an archive.
#[derive(Debug)]
pub struct BackupManifest {
    /// The id of the backup.
    pub id: String,
    /// The name of the backup.
    pub label: String,
    /// When it was made.
    pub created_at: String,
    /// How hard zstd tried.
    pub compression_level: i32,
    /// The sizes of the files in the archive, added up.
    pub original_bytes: u64,
    /// The size of the archive.
    pub compressed_bytes: u64,
    /// The files in the archive.
    pub files: Vec<ManifestEntry>,
}

/// What came of making a backup.
#[derive(Debug)]
pub struct BackupReport {
    /// The path of the archive.
    pub archive_path: String,
    /// The path of the manifest.
    pub manifest_path: String,
    /// The number of files in the archive.
    pub files_included: usize,
    /// The sizes of the files in the archive, added up.
    pub original_bytes: u64,
    /// The size of the archive.
    pub compressed_bytes: u64,
    /// How long it took.
    pub duration_ms: u64,
    /// The paths of the files that could not be read.
    pub skipped: Vec<String>,
}

impl Default for BackupReport {
    fn default() -> (r: Self)
        ensures
            r.archive_path@.len() == 0,
            r.manifest_path@.len() == 0,
            r.files_included == 0,
            r.original_bytes == 0,
            r.compressed_bytes == 0,
            r.duration_ms == 0,
            r.skipped@.len() == 0,
    {
        BackupReport {
            archive_path: String::new(),
            manifest_path: String::new(),
            files_included: 0,
            original_bytes: 0,
            compressed_bytes: 0,
            duration_ms: 0,
            skipped: Vec::new(),
        }
    }
}

/// What a list of manifest entries says: the paths, the sizes and the hashes.
pub open spec fn entry_views(entries: Seq<ManifestEntry>) -> Seq<(Seq<char>, u64, Option<Seq<char>>)> {
    entries.map_values(|e: ManifestEntry| (e.path@, e.size_bytes, optional_text(e.content_hash)))
}

/// The files among the first `n` that were added to the archive.
pub open spec fn added(files: Seq<FileView>, ok: Seq<bool>, n: int) -> Seq<FileView>
    decreases n,
{
    if n <= 0 {
        Seq::empty()
    } else if ok[n - 1] {
        added(files, ok, n - 1).push(files[n - 1])
    } else {
        added(files, ok, n - 1)
    }
}

/// The paths of the files among the first `n` that could not be added.
pub open spec fn left_out(files: Seq<FileView>, ok: Seq<bool>, n: int) -> Seq<Seq<char>>
    decreases n,
{
    if n <= 0 {
        Seq::empty()
    } else if ok[n - 1] {
        left_out(files, ok, n - 1)
    } else {
        left_out(files, ok, n - 1).push(files[n - 1].path)
    }
}

/// The entries of files in a manifest.
pub open spec fn entries_of(files: Seq<FileView>) -> Seq<(Seq<char>, u64, Option<Seq<char>>)> {
    files.map_values(|f: FileView| (f.path, f.size_bytes, f.content_hash))
}

/// Every file is in the archive or left out, and those in the archive are no
/// larger than all of them.
pub proof fn every_file_is_accounted_for(files: Seq<FileView>, ok: Seq<bool>, n: int)
    requires
        0 <= n <= files.len(),
        files.len() == ok.len(),
    ensures
        added(files, ok, n).len() + left_out(files, ok, n).len() == n,
        0 <= total_size(added(files, ok, n)) <= total_size(files.take(n)),
    decreases n,
{
    if n > 0 {
        every_file_is_accounted_for(files, ok, n - 1);
        assert(files.take(n).drop_last() == files.take(n - 1));
        if ok[n - 1] {
            assert(added(files, ok, n).drop_last() == added(files, ok, n - 1));
        }
    }
}

/// What is known once an archive is written.
#[derive(Debug)]
pub struct FinishedBackup {
    /// The manifest to write beside the archive.
    pub manifest: BackupManifest,
    /// The record to keep of the backup.
    pub record: BackupRecord,
    /// What came of it.
    pub report: BackupReport,
}

/// Whether `m` is the manifest of an archive of `included`.
pub open spec fn is_manifest(
    m: BackupManifest,
    plan: BackupPlan,
    included: Seq<FileView>,
    compression_level: i32,
    compressed_bytes: u64,
    created_at: (int, int),
) -> bool {
    &&& m.id@ == plan.id@
    &&& m.label@ == plan.label@
    &&& m.created_at@ == rfc3339(created_at)
    &&& m.compression_level == compression_level
    &&& m.original_bytes == total_size(included)
    &&& m.compressed_bytes == compressed_bytes
    &&& entry_views(m.files@) == entries_of(included)
}

/// Finishes a backup, once the archive is written: `ok` says of each file whether
/// it could be added to the archive, and `compressed_bytes` how large the archive
/// is.
pub fn create(
    plan: &BackupPlan,
    files: &Vec<FileRecord>,
    ok: &Vec<bool>,
    compression_level: i32,
    compressed_bytes: u64,
    created_at: &Timestamp,
    duration_ms: u64,
) -> (r: FinishedBackup)
    requires
        files@.len() == ok@.len(),
        total_size(file_views(files@)) <= u64::MAX,
    ensures
        ({
            let all = file_views(files@);
            let n = files@.len() as int;
            let included = added(all, ok@, n);
            &&& is_manifest(
                r.manifest,
                *plan,
                included,
                compression_level,
                compressed_bytes,
                created_at@,
            )
            &&& r.record@ == (BackupView {
                id: None,
                label: plan.label@,
                archive_path: plan.archive_path@,
                original_bytes: r.manifest.original_bytes,
                compressed_bytes,
                algorithm: "zstd"@,
                created_at: created_at@,
            })
            &&& r.report.archive_path@ == plan.archive_path@
            &&& r.report.manifest_path@ == plan.manifest_path@
            &&& r.report.files_included == included.len()
            &&& r.report.original_bytes == total_size(included)
            &&& r.report.compressed_bytes == compressed_bytes
            &&& r.report.duration_ms == duration_ms
            &&& texts(r.report.skipped@) == left_out(all, ok@, n)
        }),
{
    let ghost all = file_views(files@);
    let mut original_bytes: u64 = 0;
    let mut entries: Vec<ManifestEntry> = Vec::new();
    let mut skipped: Vec<String> = Vec::new();
    for i in 0..files.len()
        invariant
            files@.len() == ok@.len(),
            all == file_views(files@),
            total_size(all) <= u64::MAX,
            original_bytes == total_size(added(all, ok@, i as int)),
            entry_views(entries@) == entries_of(added(all, ok@, i as int)),
            texts(skipped@) == left_out(all, ok@, i as int),
            entries@.len() == added(all, ok@, i as int).len(),
            entries@.len() + skipped@.len() == i,
    {
        let file: &FileRecord = &files[i];
        assert(all[i as int] == file@);
        if ok[i] {
            proof {
                every_file_is_accounted_for(all, ok@, i + 1);
                total_size_grows(all, i + 1);
                assert(added(all, ok@, i + 1).drop_last() == added(all, ok@, i as int));
            }
            original_bytes = original_bytes + file.size_bytes;
            let entry: ManifestEntry = ManifestEntry {
                path: file.path.clone(),
                size_bytes: file.size_bytes,
                content_hash: clone_optional(&file.content_hash),
            };
            assert(entry_views(entries@.push(entry)) == entry_views(entries@).push(
                (entry.path@, entry.size_bytes, optional_text(entry.content_hash)),
            ));
            assert(entries_of(added(all, ok@, i + 1)) == entries_of(added(all, ok@, i as int)).push(
                (file@.path, file@.size_bytes, file@.content_hash),
            ));
            entries.push(entry);
        } else {
            let path: String = file.path.clone();
            assert(texts(skipped@.push(path)) == texts(skipped@).push(path@));
            skipped.push(path);
        }
    }
    let files_included: usize = files.len() - skipped.len();
    FinishedBackup {
        manifest: BackupManifest {
            id: plan.id.clone(),
            label: plan.label.clone(),
            created_at: to_rfc3339(created_at),
            compression_level,
            original_bytes,
            compressed_bytes,
            files: entries,
        },
        record: BackupRecord {
            id: None,
            label: plan.label.clone(),
            archive_path: plan.archive_path.clone(),
            original_bytes,
            compressed_bytes,
            algorithm: "zstd".to_owned(),
            created_at: *created_at,
        },
        report: BackupReport {
            archive_path: plan.archive_path.clone(),
            manifest_path: plan.manifest_path.clone(),
            files_included,
            original_bytes,
            compressed_bytes,
            duration_ms,
            skipped,
        },
    }
}

/// The report of a backup that is not made.
pub fn dry_run_report(files: &Vec<FileRecord>, plan: &BackupPlan) -> (r: BackupReport)
    requires
        total_size(file_views(files@)) <= u64::MAX,
    ensures
        r.archive_path@ == plan.archive_path@,
        r.manifest_path@ == plan.manifest_path@,
        r.files_included == files@.len(),
        r.original_bytes == total_size(file_views(files@)),
        r.compressed_bytes == 0,
        r.duration_ms == 0,
        r.skipped@.len() == 0,
{
    let original_bytes: u64 = match crate::models::checked_total(files, u64::MAX) {
        Some(n) => n,
        None => 0,
    };
    BackupReport {
        archive_path: plan.archive_path.clone(),
        manifest_path: plan.manifest_path.clone(),
        files_included: files.len(),
        original_bytes,
        compressed_bytes: 0,
        duration_ms: 0,
        skipped: Vec::new(),
    }
}

/// What is printed of a backup that is not made.
pub fn dry_run_text(report: &BackupReport) -> (r: String)
    ensures
        r@ == "[dry-run] Would back up "@ + decimal(report.files_included as nat) + " file(s):\n"@
            + "[dry-run] Archive:  "@ + report.archive_path@ + "\n[dry-run] Manifest: "@
            + report.manifest_path@ + "\n[dry-run] Total uncompressed size: "@ + byte_size(
            report.original_bytes,
            1,
        ) + "\n"@,
{
    let mut out: String = joined3(
        "[dry-run] Would back up ",
        decimal_text(report.files_included as u64).as_str(),
        " file(s):\n",
    );
    out.append("[dry-run] Archive:  ");
    out.append(report.archive_path.as_str());
    out.append("\n[dry-run] Manifest: ");
    out.append(report.manifest_path.as_str());
    out.append("\n[dry-run] Total uncompressed size: ");
    out.append(fmt_bytes(report.original_bytes).as_str());
    out.append("\n");
    out
}

/// All backups, the most recent first.
pub fn list(db: &Database) -> (r: Vec<BackupRecord>)
    requires
        db.wf(),
    ensures
        is_backup_listing(db.backups(), backup_views(r@)),
{
    get_all_backups(db)
}

/// The bytes that compression saved; none where the archive is larger than its
/// files.
pub fn saved_bytes(original: u64, compressed: u64) -> (r: u64)
    ensures
        r == if compressed < original {
            original - compressed
        } else {
            0
        },
{
    if compressed < original {
        original - compressed
    } else {
        0
    }
}

// ---------------------------------------------------------------------------
// Reports
// ---------------------------------------------------------------------------

/// What is printed of a backup, of which `ratio` per cent were saved.
pub open spec fn backup_lines(b: BackupView, ratio: Seq<char>) -> Seq<char> {
    "  ["@ + time_formatted(b.created_at, "%Y-%m-%d %H:%M"@) + "] "@ + b.label + "\n       "@ + byte_size(
        b.original_bytes,
        1,
    ) + " \u{2192} "@ + byte_size(b.compressed_bytes, 1) + " ("@ + ratio + "% ratio)\n       "@
        + b.archive_path + "\n\n"@
}

/// What is printed of all backups.
pub open spec fn all_backup_lines(backups: Seq<BackupView>, ratios: Seq<Seq<char>>) -> Seq<char>
    decreases backups.len(),
{
    if backups.len() == 0 {
        Seq::empty()
    } else {
        all_backup_lines(backups.drop_last(), ratios.drop_last()) + backup_lines(
            backups.last(),
            ratios.last(),
        )
    }
}

/// What is printed of the list of backups; `ratios` gives the per cent that were
/// saved of each.
pub fn list_text(backups: &Vec<BackupRecord>, ratios: &Vec<String>) -> (r: String)
    requires
        backups@.len() == ratios@.len(),
    ensures
        r@ == if backups@.len() == 0 {
            "No backups found. Run `data-fortress backup create` to create one.\n"@
        } else {
            "\n"@ + decimal(backups@.len()) + " backup(s):\n\n"@ + all_backup_lines(
                backup_views(backups@),
                texts(ratios@),
            )
        },
{
    if backups.len() == 0 {
        return "No backups found. Run `data-fortress backup create` to create one.\n".to_owned();
    }
    let mut out: String = joined3("\n", decimal_text(backups.len() as u64).as_str(), " backup(s):\n\n");
    let ghost head = out@;
    let ghost all = backup_views(backups@);
    let ghost rv = texts(ratios@);
    assert(head + all_backup_lines(all.take(0), rv.take(0)) == head);
    for i in 0..backups.len()
        invariant
            backups@.len() == ratios@.len(),
            all == backup_views(backups@),
            rv == texts(ratios@),
            out@ == head + all_backup_lines(all.take(i as int), rv.take(i as int)),
    {
        let b: &BackupRecord = &backups[i];
        proof {
            assert(all.take(i + 1).drop_last() == all.take(i as int));
            assert(rv.take(i + 1).drop_last() == rv.take(i as int));
            assert(all[i as int] == b@);
            assert(rv[i as int] == ratios@[i as int]@);
        }
        let ghost before = out@;
        out.append("  [");
        out.append(format_time(&b.created_at, "%Y-%m-%d %H:%M").as_str());
        out.append("] ");
        out.append(b.label.as_str());
        out.append("\n       ");
        out.append(fmt_bytes(b.original_bytes).as_str());
        out.append(" \u{2192} ");
        out.append(fmt_bytes(b.compressed_bytes).as_str());
        out.append(" (");
        out.append(ratios[i].as_str());
        out.append("% ratio)\n       ");
        out.append(b.archive_path.as_str());
        out.append("\n\n");
        assert(out@ == before + backup_lines(b@, ratios@[i as int]@));
        assert(out@ == head + all_backup_lines(all.take(i + 1), rv.take(i + 1)));
    }
    assert(all.take(all.len() as int) == all);
    assert(rv.take(rv.len() as int) == rv);
    out
}

/// The lines of the files that were left out.
pub open spec fn skipped_lines(paths: Seq<Seq<char>>) -> Seq<char>
    decreases paths.len(),
{
    if paths.len() == 0 {
        Seq::empty()
    } else {
        skipped_lines(paths.drop_last()) + "    \u{2717} "@ + paths.last() + "\n"@
    }
}

/// What is printed of a backup that was made, of which `ratio` per cent were
/// saved.
pub open spec fn printed(report: BackupReport, ratio: Seq<char>) -> Seq<char> {
    "\nBackup complete:\n  Archive:   "@ + report.archive_path@ + "\n  Manifest:  "@ + report.manifest_path@
        + "\n  Files:     "@ + decimal(report.files_included as nat) + "\n  Size:      "@ + byte_size(
        report.original_bytes,
        1,
    ) + " \u{2192} "@ + byte_size(report.compressed_bytes, 1) + " ("@ + ratio
        + "% saved)\n  Duration:  "@ + decimal(report.duration_ms as nat) + "ms\n"@
        + if report.skipped@.len() > 0 {
        "\n  Skipped "@ + decimal(report.skipped@.len()) + " file(s) due to read errors:\n"@
            + skipped_lines(texts(report.skipped@))
    } else {
        Seq::empty()
    }
}

/// What is printed of a backup that was made, of which `ratio` per cent were
/// saved.
pub fn report_text(report: &BackupReport, ratio: &str) -> (r: String)
    ensures
        r@ == printed(*report, ratio@),
{
    let mut out: String = joined3(
        "\nBackup complete:\n  Archive:   ",
        report.archive_path.as_str(),
        "\n  Manifest:  ",
    );
    out.append(report.manifest_path.as_str());
    out.append("\n  Files:     ");
    out.append(decimal_text(report.files_included as u64).as_str());
    out.append("\n  Size:      ");
    out.append(fmt_bytes(report.original_bytes).as_str());
    out.append(" \u{2192} ");
    out.append(fmt_bytes(report.compressed_bytes).as_str());
    out.append(" (");
    out.append(ratio);
    out.append("% saved)\n  Duration:  ");
    out.append(decimal_text(report.duration_ms).as_str());
    out.append("ms\n");
    if report.skipped.len() > 0 {
        out.append("\n  Skipped ");
        out.append(decimal_text(report.skipped.len() as u64).as_str());
        out.append(" file(s) due to read errors:\n");
        let ghost head = out@;
        let ghost all = texts(report.skipped@);
        assert(head + skipped_lines(all.take(0)) == head);
        for i in 0..report.skipped.len()
            invariant
                all == texts(report.skipped@),
                out@ == head + skipped_lines(all.take(i as int)),
        {
            proof {
                assert(all.take(i + 1).drop_last() == all.take(i as int));
                assert(all[i as int] == report.skipped@[i as int]@);
            }
            out.append("    \u{2717} ");
            out.append(report.skipped[i].as_str());
            out.append("\n");
            assert(out@ == head + skipped_lines(all.take(i + 1)));
        }
        assert(all.take(all.len() as int) == all);
    }
    assert(out@ == printed(*report, ratio@));
    out
}

} // verus!
