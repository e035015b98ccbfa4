//! Finding files and recording them.

pub mod classifier;

use vstd::prelude::*;
use vstd::string::*;

use crate::config::Config;
use crate::db::{
    absence_by_path, absent_if_under, by_path, changing_is_inserting, found_by_path,
    get_file_by_path, has_path, mark_all_absent, mark_present, storing_is_inserting, upsert_file,
    with_id, with_presence, Database,
};
use crate::error::{FortressError, FortressResult};
use crate::laws::scanning::{extension_decides_otherwise, signature_decides};
use crate::models::{FileCategory, FileRecord, FileView, ScanStats};
use crate::paths::{extension_lower, extension_of, file_name, file_name_of, is_under, lower_extension};
use crate::scanner::classifier::{
    category_of_mime, classify, guessed_mime, magic_mime, mime_of_head, path_guess, settled_mime,
    Classification,
};
use crate::sizes::{byte_size, fmt_bytes};
use crate::text::{chars_of, clone_texts, decimal, decimal_text, joined3, same_text, texts};
use crate::time::Timestamp;

verus! {

/// How a scan is made.
#[derive(Debug)]
pub struct ScanOptions {
    /// The directories to scan.
    pub directories: Vec<String>,
    /// Whether files are hashed too.
    pub hash: bool,
    /// The size of the largest files that are hashed.
    pub max_hash_size: u64,
    /// Whether nothing is written.
    pub dry_run: bool,
}

impl ScanOptions {
    /// How a scan is made, given what was asked for and the settings. Without
    /// directories those of the settings are scanned, and without a limit that
    /// of the settings holds.
    pub fn from_args(
        directories: Vec<String>,
        hash: bool,
        max_hash_size: Option<u64>,
        dry_run: bool,
        config: &Config,
    ) -> (r: ScanOptions)
        ensures
            texts(r.directories@) == if directories@.len() == 0 {
                config@.watch_dirs
            } else {
                texts(directories@)
            },
            r.hash == hash,
            r.max_hash_size == match max_hash_size {
                Some(n) => n,
                None => config@.max_hash_size_bytes,
            },
            r.dry_run == dry_run,
    {
        let dirs: Vec<String> = if directories.len() == 0 {
            clone_texts(&config.watch_dirs)
        } else {
            directories
        };
        ScanOptions {
            directories: dirs,
            hash,
            max_hash_size: match max_hash_size {
                Some(n) => n,
                None => config.max_hash_size_bytes,
            },
            dry_run,
        }
    }
}

// ---------------------------------------------------------------------------
// What is left out
// ---------------------------------------------------------------------------

/// What an entry of a directory is.
#[derive(Clone, Copy, Debug, PartialEq, Eq, Structural)]
pub enum EntryKind {
    Directory,
    File,
    /// A symbolic link, or anything else.
    Other,
}

/// Whether an entry is left out, with everything under it: hidden directories,
/// directories with a name that is left out, and files with an extension that is
/// left out.
pub open spec fn is_skipped(
    name: Seq<char>,
    path: Seq<char>,
    kind: EntryKind,
    exclude_dirs: Seq<Seq<char>>,
    exclude_extensions: Seq<Seq<char>>,
) -> bool {
    match kind {
        EntryKind::Directory => (name.len() > 0 && name[0] == '.' && name != "."@)
            || exclude_dirs.contains(name),
        EntryKind::File => exclude_extensions.contains(lower_extension(path)),
        EntryKind::Other => false,
    }
}

/// Whether an entry is left out, with everything under it.
pub fn should_skip_entry(name: &str, path: &str, kind: EntryKind, config: &Config) -> (r: bool)
    ensures
        r == is_skipped(name@, path@, kind, config@.exclude_dirs, config@.exclude_extensions),
{
    match kind {
        EntryKind::Directory => {
            let v: Vec<char> = chars_of(name);
            (v.len() > 0 && v[0] == '.' && !same_text(name, ".")) || config.should_exclude_dir(name)
        },
        EntryKind::File => {
            let ext: String = extension_lower(path);
            config.should_exclude_extension(ext.as_str())
        },
        EntryKind::Other => false,
    }
}

// ---------------------------------------------------------------------------
// Recording
// ---------------------------------------------------------------------------

/// What the file system says of a file.
#[derive(Debug)]
pub struct FileFacts {
    /// The size in bytes.
    pub size_bytes: u64,
    /// When it was last modified, where that is known.
    pub modified_at: Option<Timestamp>,
    /// When it was looked at.
    pub scanned_at: Timestamp,
    /// Its first bytes; empty where it cannot be read.
    pub head: Vec<u8>,
}

/// The record of a file.
pub open spec fn recorded(path: Seq<char>, facts: FileFacts) -> FileView {
    let mime = settled_mime(mime_of_head(facts.head@), path_guess(path));
    FileView {
        id: None,
        path,
        name: match file_name_of(path) {
            Some(n) => n,
            None => Seq::empty(),
        },
        extension: lower_extension(path),
        category: category_of_mime(mime),
        mime_type: mime,
        size_bytes: facts.size_bytes,
        content_hash: None,
        modified_at: match facts.modified_at {
            Some(t) => t@,
            None => facts.scanned_at@,
        },
        scanned_at: facts.scanned_at@,
        is_present: true,
    }
}

/// The record of a file. A signature in its first bytes decides its type, whatever
/// it is called; only where there is none does the extension decide.
pub fn make_record(path: &str, facts: &FileFacts) -> (r: FileRecord)
    ensures
        r@ == recorded(path@, *facts),
        ({
            let head = facts.head@;
            let signature = if head.len() == 0 {
                None
            } else if head.len() <= 16 {
                magic_mime(head)
            } else {
                magic_mime(head.take(16))
            };
            &&& signature matches Some(mime) ==> r.mime_type@ == mime && r.category == category_of_mime(mime)
            &&& signature is None ==> match extension_of(path@) {
                Some(ext) => guessed_mime(ext) matches Some(mime) ==> r.mime_type@ == mime && r.category
                    == category_of_mime(mime),
                None => r.category == FileCategory::Other,
            }
        }),
{
    proof {
        let head = facts.head@;
        let empty = head.len() == 0;
        let found = if head.len() <= 16 {
            magic_mime(head)
        } else {
            magic_mime(head.take(16))
        };
        if !empty && found is Some {
            signature_decides(path@, *facts, found->0);
        } else {
            extension_decides_otherwise(path@, *facts);
        }
    }
    let classification: Classification = classify(path, facts.head.as_slice());
    FileRecord {
        id: None,
        path: path.to_owned(),
        name: match file_name(path) {
            Some(n) => n,
            None => String::new(),
        },
        extension: extension_lower(path),
        category: classification.category,
        mime_type: classification.mime_type,
        size_bytes: facts.size_bytes,
        content_hash: None,
        modified_at: match facts.modified_at {
            Some(t) => t,
            None => facts.scanned_at,
        },
        scanned_at: facts.scanned_at,
        is_present: true,
    }
}

/// What a scan has counted.
#[verifier::ext_equal]
pub struct Counts {
    pub found: nat,
    pub new: nat,
    pub skipped: nat,
    pub bytes: nat,
}

/// What a scan has counted: its statistics but for the time that it took.
pub open spec fn counts_of(stats: ScanStats) -> Counts {
    Counts {
        found: stats.files_found as nat,
        new: stats.files_new as nat,
        skipped: stats.files_skipped as nat,
        bytes: stats.total_bytes as nat,
    }
}

/// What a scan has recorded and counted.
#[verifier::ext_equal]
pub struct ScanState {
    /// The files by their paths.
    pub files: Map<Seq<char>, FileView>,
    /// The last id that was given to a file.
    pub last_id: int,
    /// What was counted.
    pub counts: Counts,
}

/// The files of a database and what a scan has counted.
pub open spec fn state_of(db: Database, stats: ScanStats) -> ScanState {
    ScanState {
        files: by_path(db.files()),
        last_id: db.last_file_id() as int,
        counts: counts_of(stats),
    }
}

/// The state with one more entry left out.
pub open spec fn one_skipped(s: ScanState) -> ScanState {
    ScanState { counts: Counts { skipped: s.counts.skipped + 1, ..s.counts }, ..s }
}

/// Whether a file cannot be recorded: it is new, and every id has been given
/// out.
pub open spec fn no_room(s: ScanState, path: Seq<char>) -> bool {
    !s.files.dom().contains(path) && s.last_id == i64::MAX
}

/// The state once a file is met: it is counted, and unless it is a dry run it is
/// recorded under the id that it had, or under a new one.
pub open spec fn file_met(s: ScanState, path: Seq<char>, facts: FileFacts, dry_run: bool) -> ScanState {
    let counted = Counts {
        found: s.counts.found + 1,
        bytes: s.counts.bytes + facts.size_bytes as nat,
        ..s.counts
    };
    if dry_run {
        ScanState { counts: counted, ..s }
    } else if s.files.dom().contains(path) {
        ScanState {
            files: s.files.insert(
                path,
                FileView { id: s.files[path].id, ..recorded(path, facts) },
            ),
            counts: counted,
            ..s
        }
    } else {
        let with_new = Counts { new: counted.new + 1, ..counted };
        if s.last_id == i64::MAX {
            ScanState { counts: with_new, ..s }
        } else {
            ScanState {
                files: s.files.insert(path, with_id(recorded(path, facts), (s.last_id + 1) as i64)),
                last_id: s.last_id + 1,
                counts: with_new,
            }
        }
    }
}

/// Counts a file and records it, unless it is a dry run. It fails only where
/// every id has been given out.
pub fn process_file(
    db: &mut Database,
    path: &str,
    facts: &FileFacts,
    dry_run: bool,
    stats: &mut ScanStats,
) -> (r: FortressResult<()>)
    requires
        old(db).wf(),
        old(stats).files_found < u64::MAX,
        old(stats).files_new < u64::MAX,
        old(stats).total_bytes + facts.size_bytes <= u64::MAX,
    ensures
        final(db).wf(),
        final(db).backups() == old(db).backups(),
        final(db).last_backup_id() == old(db).last_backup_id(),
        state_of(*final(db), *final(stats)) == file_met(state_of(*old(db), *old(stats)), path@, *facts, dry_run),
        final(stats).duration_ms == old(stats).duration_ms,
        r is Err <==> !dry_run && no_room(state_of(*old(db), *old(stats)), path@),
{
    let ghost before = state_of(*db, *stats);
    let record: FileRecord = make_record(path, facts);
    stats.files_found = stats.files_found + 1;
    stats.total_bytes = stats.total_bytes + facts.size_bytes;
    if dry_run {
        assert(state_of(*db, *stats) == file_met(before, path@, *facts, dry_run));
        return Ok(());
    }
    let known: Option<FileRecord> = get_file_by_path(db, path);
    let is_new: bool = known.is_none();
    if is_new {
        stats.files_new = stats.files_new + 1;
    }
    let ghost files = db.files();
    proof {
        match known {
            Some(f) => {
                let i = choose|i: int| 0 <= i < files.len() && files[i] == f@;
                assert(files[i].path == path@);
            },
            None => {},
        }
        assert(is_new == !has_path(files, path@));
    }
    match upsert_file(db, &record) {
        Ok(id) => {
            proof {
                storing_is_inserting(files, db.files(), record@, id);
                if has_path(files, path@) {
                    let i = choose|i: int|
                        0 <= i < files.len() && #[trigger] files[i].path == path@ && files[i].id == Some(id);
                    found_by_path(files, i);
                }
            }
            let ghost stored_files = db.files();
            mark_present(db, path);
            proof {
                changing_is_inserting(stored_files, db.files(), path@, with_presence(true));
                assert(by_path(stored_files)[path@].is_present);
                assert(by_path(stored_files).insert(path@, with_presence(true)(by_path(stored_files)[path@]))
                    =~= by_path(stored_files));
                assert(state_of(*db, *stats) == file_met(before, path@, *facts, dry_run));
            }
            Ok(())
        },
        Err(e) => {
            assert(state_of(*db, *stats) == file_met(before, path@, *facts, dry_run));
            Err(e)
        },
    }
}

/// What a walk through a directory meets.
#[derive(Debug)]
pub enum WalkEvent {
    /// An entry that cannot be looked at.
    Unreadable,
    /// A directory.
    Directory,
    /// A symbolic link.
    Symlink,
    /// A file of which the file system says nothing.
    Unknown,
    /// A file.
    File {
        path: String,
        facts: FileFacts,
    },
}

/// The state once an event is met.
pub open spec fn event_met(s: ScanState, event: WalkEvent, dry_run: bool) -> ScanState {
    match event {
        WalkEvent::Unreadable => one_skipped(s),
        WalkEvent::Directory => s,
        WalkEvent::Symlink => one_skipped(s),
        WalkEvent::Unknown => one_skipped(s),
        WalkEvent::File { path, facts } => {
            let met = file_met(s, path@, facts, dry_run);
            if !dry_run && no_room(s, path@) {
                one_skipped(met)
            } else {
                met
            }
        },
    }
}

/// The state once the first `n` events are met.
pub open spec fn events_met(s: ScanState, events: Seq<WalkEvent>, dry_run: bool, n: int) -> ScanState
    decreases n,
{
    if n <= 0 {
        s
    } else {
        event_met(events_met(s, events, dry_run, n - 1), events[n - 1], dry_run)
    }
}

/// The sizes of the files among the first `n` events, added up.
pub open spec fn bytes_met(events: Seq<WalkEvent>, n: int) -> nat
    decreases n,
{
    if n <= 0 {
        0
    } else {
        bytes_met(events, n - 1) + match events[n - 1] {
            WalkEvent::File { path, facts } => facts.size_bytes as nat,
            _ => 0,
        }
    }
}

/// The state before a walk: unless it is a dry run, the files under the directory
/// are gone until they are met.
pub open spec fn before_walk(s: ScanState, root: Seq<char>, dry_run: bool) -> ScanState {
    if dry_run {
        s
    } else {
        ScanState { files: s.files.map_values(|f: FileView| absent_if_under(f, root)), ..s }
    }
}

/// Nothing counted.
pub open spec fn no_counts() -> Counts {
    Counts { found: 0, new: 0, skipped: 0, bytes: 0 }
}

proof fn bytes_met_grow(events: Seq<WalkEvent>, k: int, n: int)
    requires
        k <= n,
    ensures
        bytes_met(events, k) <= bytes_met(events, n),
    decreases n - k,
{
    if k < n {
        bytes_met_grow(events, k, n - 1);
    }
}

/// Whether the sizes of the files that a walk meets can be added up.
pub fn bytes_fit(events: &Vec<WalkEvent>) -> (r: bool)
    ensures
        r == (bytes_met(events@, events@.len() as int) <= u64::MAX),
{
    let mut sum: u64 = 0;
    for i in 0..events.len()
        invariant
            sum == bytes_met(events@, i as int),
    {
        proof {
            bytes_met_grow(events@, i + 1, events@.len() as int);
        }
        match &events[i] {
            WalkEvent::File { path: _, facts } => {
                if sum > u64::MAX - facts.size_bytes {
                    return false;
                }
                sum = sum + facts.size_bytes;
            },
            _ => {},
        }
    }
    true
}

/// Records what a walk through the directory `root` meets. Unless it is a dry
/// run, the files under the directory that are not met are recorded as gone.
/// Gives what was counted.
pub fn scan_directory(db: &mut Database, root: &str, events: &Vec<WalkEvent>, dry_run: bool) -> (stats:
    ScanStats)
    requires
        old(db).wf(),
        bytes_met(events@, events@.len() as int) <= u64::MAX,
    ensures
        final(db).wf(),
        final(db).backups() == old(db).backups(),
        final(db).last_backup_id() == old(db).last_backup_id(),
        ({
            let start = ScanState {
                files: by_path(old(db).files()),
                last_id: old(db).last_file_id() as int,
                counts: no_counts(),
            };
            state_of(*final(db), stats) == events_met(
                before_walk(start, root@, dry_run),
                events@,
                dry_run,
                events@.len() as int,
            )
        }),
        stats.duration_ms == 0,
{
    let mut stats: ScanStats = ScanStats::default();
    let ghost first = state_of(*db, stats);
    let ghost files = db.files();
    if !dry_run {
        mark_all_absent(db, root);
        proof {
            absence_by_path(files, root@);
        }
    }
    let ghost start = before_walk(first, root@, dry_run);
    assert(state_of(*db, stats) == start);
    for i in 0..events.len()
        invariant
            db.wf(),
            db.backups() == old(db).backups(),
            db.last_backup_id() == old(db).last_backup_id(),
            bytes_met(events@, events@.len() as int) <= u64::MAX,
            state_of(*db, stats) == events_met(start, events@, dry_run, i as int),
            stats.files_found <= i,
            stats.files_new <= i,
            stats.files_skipped <= i,
            stats.total_bytes == bytes_met(events@, i as int),
            stats.duration_ms == 0,
    {
        proof {
            bytes_met_grow(events@, i + 1, events@.len() as int);
        }
        match &events[i] {
            WalkEvent::Directory => {},
            WalkEvent::File { path, facts } => {
                match process_file(db, path.as_str(), facts, dry_run, &mut stats) {
                    Ok(_) => {},
                    Err(_) => {
                        stats.files_skipped = stats.files_skipped + 1;
                    },
                }
            },
            _ => {
                stats.files_skipped = stats.files_skipped + 1;
            },
        }
        assert(state_of(*db, stats) == events_met(start, events@, dry_run, i + 1));
    }
    stats
}

// ---------------------------------------------------------------------------
// What a scan leaves behind
// ---------------------------------------------------------------------------

/// Whether the event at `i` is about the file at `path`.
pub open spec fn meets_at(events: Seq<WalkEvent>, path: Seq<char>, i: int) -> bool {
    events[i] matches WalkEvent::File { path: p, facts } && p@ == path
}

/// Whether the file at `path` is among the first `n` events.
pub open spec fn meets(events: Seq<WalkEvent>, path: Seq<char>, n: int) -> bool {
    exists|i: int| 0 <= i < n && #[trigger] meets_at(events, path, i)
}

/// A dry run records nothing.
pub proof fn dry_run_records_nothing(s: ScanState, events: Seq<WalkEvent>, n: int)
    ensures
        events_met(s, events, true, n).files == s.files,
        events_met(s, events, true, n).last_id == s.last_id,
    decreases n,
{
    if n > 0 {
        dry_run_records_nothing(s, events, n - 1);
    }
}

/// A file that a walk does not meet stays as it was.
pub proof fn unmet_file_stays(s: ScanState, events: Seq<WalkEvent>, n: int, path: Seq<char>)
    requires
        !meets(events, path, n),
    ensures
        ({
            let t = events_met(s, events, false, n);
            &&& t.files.dom().contains(path) == s.files.dom().contains(path)
            &&& t.files.dom().contains(path) ==> t.files[path] == s.files[path]
        }),
    decreases n,
{
    if n > 0 {
        assert forall|i: int| 0 <= i < n - 1 implies !#[trigger] meets_at(events, path, i) by {
            assert(!(meets_at(events, path, i)));
        }
        unmet_file_stays(s, events, n - 1, path);
        assert(!meets_at(events, path, n - 1));
    }
}

/// A file that a walk meets is recorded as the walk met it last, and as there,
/// under the id that it had, unless the ids run out.
pub proof fn met_file_is_recorded(s: ScanState, events: Seq<WalkEvent>, n: int, path: Seq<char>, i: int)
    requires
        0 <= i < n <= events.len(),
        meets_at(events, path, i),
        forall|j: int| i < j < n ==> !#[trigger] meets_at(events, path, j),
        s.last_id + n <= i64::MAX,
    ensures
        ({
            let t = events_met(s, events, false, n);
            let facts = events[i]->facts;
            &&& t.files.dom().contains(path)
            &&& t.files[path] == (FileView { id: t.files[path].id, ..recorded(path, facts) })
            &&& t.files[path].is_present
            &&& s.files.dom().contains(path) ==> t.files[path].id == s.files[path].id
        }),
    decreases n,
{
    ids_are_given_one_by_one(s, events, n - 1);
    if i < n - 1 {
        met_file_is_recorded(s, events, n - 1, path, i);
        assert(!meets_at(events, path, n - 1));
    } else if s.files.dom().contains(path) {
        file_keeps_its_id(s, events, n - 1, path);
    }
}

proof fn ids_are_given_one_by_one(s: ScanState, events: Seq<WalkEvent>, n: int)
    requires
        n >= 0,
    ensures
        s.last_id <= events_met(s, events, false, n).last_id <= s.last_id + n,
    decreases n,
{
    if n > 0 {
        ids_are_given_one_by_one(s, events, n - 1);
    }
}

/// A file that is recorded keeps its id through a scan.
pub proof fn file_keeps_its_id(s: ScanState, events: Seq<WalkEvent>, n: int, path: Seq<char>)
    requires
        s.files.dom().contains(path),
    ensures
        events_met(s, events, false, n).files.dom().contains(path),
        events_met(s, events, false, n).files[path].id == s.files[path].id,
    decreases n,
{
    if n > 0 {
        file_keeps_its_id(s, events, n - 1, path);
    }
}

/// After a scan, a file under the directory that was recorded before and that
/// the walk did not meet is recorded as gone, and nothing else of it has changed.
pub proof fn missing_file_is_gone(s: ScanState, root: Seq<char>, events: Seq<WalkEvent>, path: Seq<char>)
    requires
        s.files.dom().contains(path),
        s.files[path].path == path,
        is_under(path, root),
        !meets(events, path, events.len() as int),
    ensures
        ({
            let t = events_met(before_walk(s, root, false), events, false, events.len() as int);
            &&& t.files.dom().contains(path)
            &&& t.files[path] == (FileView { is_present: false, ..s.files[path] })
        }),
{
    unmet_file_stays(before_walk(s, root, false), events, events.len() as int, path);
}

/// A scan leaves files outside the directory alone, unless the walk meets them.
pub proof fn other_files_stay(s: ScanState, root: Seq<char>, events: Seq<WalkEvent>, path: Seq<char>)
    requires
        s.files.dom().contains(path),
        s.files[path].path == path,
        !is_under(path, root),
        !meets(events, path, events.len() as int),
    ensures
        ({
            let t = events_met(before_walk(s, root, false), events, false, events.len() as int);
            &&& t.files.dom().contains(path)
            &&& t.files[path] == s.files[path]
        }),
{
    unmet_file_stays(before_walk(s, root, false), events, events.len() as int, path);
}

/// The number of files among the first `n` events.
pub open spec fn files_met(events: Seq<WalkEvent>, n: int) -> nat
    decreases n,
{
    if n <= 0 {
        0
    } else {
        files_met(events, n - 1) + if events[n - 1] is File {
            1nat
        } else {
            0
        }
    }
}

/// Every file is counted once, with its size.
pub proof fn every_file_is_counted(s: ScanState, events: Seq<WalkEvent>, dry_run: bool, n: int)
    ensures
        events_met(s, events, dry_run, n).counts.found == s.counts.found + files_met(events, n),
        events_met(s, events, dry_run, n).counts.bytes == s.counts.bytes + bytes_met(events, n),
    decreases n,
{
    if n > 0 {
        every_file_is_counted(s, events, dry_run, n - 1);
    }
}

// ---------------------------------------------------------------------------
// Whole scans
// ---------------------------------------------------------------------------

/// The sum of what was counted in some directories.
pub open spec fn counts_sum(list: Seq<ScanStats>) -> Counts
    decreases list.len(),
{
    if list.len() == 0 {
        no_counts()
    } else {
        let before = counts_sum(list.drop_last());
        let last = counts_of(list.last());
        Counts {
            found: before.found + last.found,
            new: before.new + last.new,
            skipped: before.skipped + last.skipped,
            bytes: before.bytes + last.bytes,
        }
    }
}

/// Whether counts can be held in statistics.
pub open spec fn counts_fit(c: Counts) -> bool {
    c.found <= u64::MAX && c.new <= u64::MAX && c.skipped <= u64::MAX && c.bytes <= u64::MAX
}

proof fn counts_sum_grows(list: Seq<ScanStats>, k: int)
    requires
        0 <= k <= list.len(),
    ensures
        counts_fit(counts_sum(list)) ==> counts_fit(counts_sum(list.take(k))),
    decreases list.len(),
{
    if k == list.len() {
        assert(list.take(k) == list);
    } else {
        counts_sum_grows(list.drop_last(), k);
        assert(list.drop_last().take(k) == list.take(k));
    }
}

/// The statistics of a scan of some directories; nothing where they cannot be
/// added up.
pub fn merge_stats(list: &Vec<ScanStats>, duration_ms: u64) -> (r: Option<ScanStats>)
    ensures
        match r {
            Some(stats) => counts_of(stats) == counts_sum(list@) && stats.duration_ms == duration_ms,
            None => !counts_fit(counts_sum(list@)),
        },
{
    let mut stats: ScanStats = ScanStats::default();
    stats.duration_ms = duration_ms;
    assert(counts_of(stats) == counts_sum(list@.take(0)));
    for i in 0..list.len()
        invariant
            counts_of(stats) == counts_sum(list@.take(i as int)),
            stats.duration_ms == duration_ms,
    {
        let s: ScanStats = list[i];
        proof {
            assert(list@.take(i + 1).drop_last() == list@.take(i as int));
            counts_sum_grows(list@, i + 1);
        }
        if stats.files_found > u64::MAX - s.files_found || stats.files_new > u64::MAX - s.files_new
            || stats.files_skipped > u64::MAX - s.files_skipped || stats.total_bytes > u64::MAX
            - s.total_bytes {
            return None;
        }
        stats.files_found = stats.files_found + s.files_found;
        stats.files_new = stats.files_new + s.files_new;
        stats.files_skipped = stats.files_skipped + s.files_skipped;
        stats.total_bytes = stats.total_bytes + s.total_bytes;
        assert(counts_of(stats) == counts_sum(list@.take(i + 1)));
    }
    assert(list@.take(list@.len() as int) == list@);
    Some(stats)
}

/// Refuses a scan without directories.
pub fn check_directories(opts: &ScanOptions) -> (r: FortressResult<()>)
    ensures
        r is Err <==> opts.directories@.len() == 0,
        r matches Err(e) ==> e matches FortressError::Unexpected(m) && m@
            == "No directories to scan. Add one with: data-fortress config add-dir <PATH>"@,
{
    if opts.directories.len() == 0 {
        Err(
            FortressError::Unexpected(
                "No directories to scan. Add one with: data-fortress config add-dir <PATH>".to_owned(),
            ),
        )
    } else {
        Ok(())
    }
}

/// Whether files are hashed once the directories are scanned.
pub fn hashes_after_scan(opts: &ScanOptions) -> (r: bool)
    ensures
        r == (opts.hash && !opts.dry_run),
{
    opts.hash && !opts.dry_run
}

/// The line that is printed for a file that is not recorded.
pub fn dry_run_line(path: &str) -> (r: String)
    ensures
        r@ == "[dry-run] Would record: "@ + path@,
{
    crate::text::joined("[dry-run] Would record: ", path)
}

/// What is printed of a scan.
pub open spec fn printed(stats: ScanStats) -> Seq<char> {
    "\nScan complete:\n  Files found:   "@ + decimal(stats.files_found as nat) + "\n  Files new:     "@
        + decimal(stats.files_new as nat) + "\n  Files skipped: "@ + decimal(stats.files_skipped as nat)
        + "\n  Total size:    "@ + byte_size(stats.total_bytes, 1) + "\n  Duration:      "@ + decimal(
        stats.duration_ms as nat,
    ) + "ms\n"@
}

/// What is printed of a scan.
pub fn stats_text(stats: &ScanStats) -> (r: String)
    ensures
        r@ == printed(*stats),
{
    let mut out: String = joined3(
        "\nScan complete:\n  Files found:   ",
        decimal_text(stats.files_found).as_str(),
        "\n  Files new:     ",
    );
    out.append(decimal_text(stats.files_new).as_str());
    out.append("\n  Files skipped: ");
    out.append(decimal_text(stats.files_skipped).as_str());
    out.append("\n  Total size:    ");
    out.append(fmt_bytes(stats.total_bytes).as_str());
    out.append("\n  Duration:      ");
    out.append(decimal_text(stats.duration_ms).as_str());
    out.append("ms\n");
    out
}

} // verus!
