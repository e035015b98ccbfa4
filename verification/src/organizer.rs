//! Moving files into a clean directory structure.

use vstd::prelude::*;
use vstd::string::*;

use crate::cli::{OrganizeArgs, OrganizeMode};
use crate::models::{file_views, optional_text, FileCategory, FileRecord, FileView};
use crate::paths::{file_name, file_name_of, join_path, path_join};
use crate::text::{decimal, decimal_text, joined, joined3, texts};
use crate::time::{in_month, month_is_unique, year_and_month, Timestamp};

verus! {

// ---------------------------------------------------------------------------
// Where files go
// ---------------------------------------------------------------------------

/// The directory for files of a category.
pub open spec fn folder_of(category: FileCategory) -> Seq<char> {
    match category {
        FileCategory::Image => "Photos"@,
        FileCategory::Video => "Videos"@,
        FileCategory::Audio => "Music"@,
        FileCategory::Document => "Documents"@,
        FileCategory::Archive => "Archives"@,
        FileCategory::Code => "Code"@,
        FileCategory::Other => "Other"@,
    }
}

/// The directory for files of a category.
pub fn category_folder(category: &FileCategory) -> (r: &'static str)
    ensures
        r@ == folder_of(*category),
{
    match category {
        FileCategory::Image => "Photos",
        FileCategory::Video => "Videos",
        FileCategory::Audio => "Music",
        FileCategory::Document => "Documents",
        FileCategory::Archive => "Archives",
        FileCategory::Code => "Code",
        FileCategory::Other => "Other",
    }
}

/// The directory for files of a month. Numbers below 1 stand for the first month
/// and numbers above 12 for the last.
pub open spec fn folder_of_month(month: int) -> Seq<char> {
    if month <= 1 {
        "01-January"@
    } else if month == 2 {
        "02-February"@
    } else if month == 3 {
        "03-March"@
    } else if month == 4 {
        "04-April"@
    } else if month == 5 {
        "05-May"@
    } else if month == 6 {
        "06-June"@
    } else if month == 7 {
        "07-July"@
    } else if month == 8 {
        "08-August"@
    } else if month == 9 {
        "09-September"@
    } else if month == 10 {
        "10-October"@
    } else if month == 11 {
        "11-November"@
    } else {
        "12-December"@
    }
}

/// The directory for files of a month. Numbers below 1 stand for the first month
/// and numbers above 12 for the last.
pub fn month_name(month: u32) -> (r: String)
    ensures
        r@ == folder_of_month(month as int),
{
    let s: &str = match month {
        0 | 1 => "01-January",
        2 => "02-February",
        3 => "03-March",
        4 => "04-April",
        5 => "05-May",
        6 => "06-June",
        7 => "07-July",
        8 => "08-August",
        9 => "09-September",
        10 => "10-October",
        11 => "11-November",
        _ => "12-December",
    };
    s.to_owned()
}

/// A whole number in decimal.
pub open spec fn integer(n: int) -> Seq<char> {
    if n < 0 {
        "-"@ + decimal((-n) as nat)
    } else {
        decimal(n as nat)
    }
}

/// A whole number in decimal.
pub fn integer_text(n: i32) -> (r: String)
    ensures
        r@ == integer(n as int),
{
    if n < 0 {
        joined("-", decimal_text((-(n as i64)) as u64).as_str())
    } else {
        decimal_text(n as u64)
    }
}

/// The year and the month of a point in time.
pub open spec fn month_of(secs: int) -> (int, int) {
    choose|ym: (int, int)| #[trigger] in_month(secs, ym.0, ym.1)
}

/// The name that a file has where it is moved to.
pub open spec fn moved_name(path: Seq<char>) -> Seq<char> {
    match file_name_of(path) {
        Some(name) => name,
        None => "unknown"@,
    }
}

/// Where a file goes under `dest_root`.
pub open spec fn destination(f: FileView, dest_root: Seq<char>, mode: OrganizeMode) -> Seq<char> {
    let (year, month) = month_of(f.modified_at.0);
    let by_type = path_join(dest_root, folder_of(f.category));
    match mode {
        OrganizeMode::ByTypeAndDate => path_join(
            path_join(path_join(by_type, integer(year)), folder_of_month(month)),
            moved_name(f.path),
        ),
        OrganizeMode::ByDate => path_join(
            path_join(path_join(dest_root, integer(year)), folder_of_month(month)),
            moved_name(f.path),
        ),
        OrganizeMode::ByType => path_join(by_type, moved_name(f.path)),
    }
}

/// Where a file goes under `dest_root`.
pub fn compute_destination(file: &FileRecord, dest_root: &str, mode: &OrganizeMode) -> (r: String)
    ensures
        r@ == destination(file@, dest_root@, *mode),
{
    let (year, month) = year_and_month(&file.modified_at);
    proof {
        let secs = file@.modified_at.0;
        let ym = (year as int, month as int);
        assert(in_month(secs, ym.0, ym.1));
        let chosen = month_of(secs);
        month_is_unique(secs, chosen.0, chosen.1, ym.0, ym.1);
    }
    let name: String = match file_name(file.path.as_str()) {
        Some(n) => n,
        None => "unknown".to_owned(),
    };
    let folder: &str = category_folder(&file.category);
    let dir: String = match mode {
        OrganizeMode::ByTypeAndDate => join_path(
            join_path(join_path(dest_root, folder).as_str(), integer_text(year).as_str()).as_str(),
            month_name(month).as_str(),
        ),
        OrganizeMode::ByDate => join_path(
            join_path(dest_root, integer_text(year).as_str()).as_str(),
            month_name(month).as_str(),
        ),
        OrganizeMode::ByType => join_path(dest_root, folder),
    };
    join_path(dir.as_str(), name.as_str())
}

/// A file keeps its name where it is moved to.
pub proof fn file_keeps_its_name(f: FileView, dest_root: Seq<char>, mode: OrganizeMode)
    requires
        file_name_of(f.path) is Some,
    ensures
        file_name_of(destination(f, dest_root, mode)) == file_name_of(f.path),
{
    crate::paths::file_name_is_plain(f.path);
    let name = moved_name(f.path);
    let (year, month) = month_of(f.modified_at.0);
    let by_type = path_join(dest_root, folder_of(f.category));
    match mode {
        OrganizeMode::ByTypeAndDate => {
            crate::paths::joined_name_is_last(
                path_join(path_join(by_type, integer(year)), folder_of_month(month)),
                name,
            );
        },
        OrganizeMode::ByDate => {
            crate::paths::joined_name_is_last(
                path_join(path_join(dest_root, integer(year)), folder_of_month(month)),
                name,
            );
        },
        OrganizeMode::ByType => {
            crate::paths::joined_name_is_last(by_type, name);
        },
    }
}

// ---------------------------------------------------------------------------
// Moving
// ---------------------------------------------------------------------------

/// What is to be done with a file.
#[derive(Clone, Copy, Debug, PartialEq, Eq, Structural)]
pub enum MoveDecision {
    /// The move is only shown.
    Preview,
    /// The file stays, since something is at its destination.
    Conflict,
    /// The file is moved.
    Move,
}

/// What is to be done with a file, given whether something is at its
/// destination.
pub open spec fn decision(dry_run: bool, overwrite: bool, taken: bool) -> MoveDecision {
    if dry_run {
        MoveDecision::Preview
    } else if taken && !overwrite {
        MoveDecision::Conflict
    } else {
        MoveDecision::Move
    }
}

/// What is to be done with a file, given whether something is at its
/// destination.
pub fn next_move(args: &OrganizeArgs, taken: bool) -> (r: MoveDecision)
    ensures
        r == decision(args.dry_run, args.overwrite, taken),
{
    if args.dry_run {
        MoveDecision::Preview
    } else if taken && !args.overwrite {
        MoveDecision::Conflict
    } else {
        MoveDecision::Move
    }
}

/// Without leave to overwrite, nothing that is at a destination is ever
/// replaced, and a dry run moves nothing.
pub proof fn nothing_is_replaced(dry_run: bool, taken: bool)
    ensures
        taken ==> !(decision(dry_run, false, taken) is Move),
        !(decision(true, false, taken) is Move),
        !(decision(true, true, taken) is Move),
{
}

/// What to do after an attempt to rename a file.
#[derive(Clone, Copy, Debug, PartialEq, Eq, Structural)]
pub enum AfterRename {
    /// The file has been moved.
    Done,
    /// The destination is on another file system: copy the file, then delete it.
    CopyThenDelete,
    /// The file cannot be moved.
    Fail,
}

/// The error number of a rename to another file system.
pub const EXDEV: i32 = 18;

/// Whether an attempt to rename a file failed since its destination is on
/// another file system.
pub fn cross_device_error(os_error: Option<i32>) -> (r: bool)
    ensures
        r == (os_error == Some(EXDEV)),
{
    match os_error {
        Some(code) => code == EXDEV,
        None => false,
    }
}

/// What to do after an attempt to rename a file, which failed with an error of
/// the given number unless it is `Ok`.
pub fn after_rename(result: Result<(), Option<i32>>) -> (r: AfterRename)
    ensures
        r == match result {
            Ok(_) => AfterRename::Done,
            Err(code) => if code == Some(EXDEV) {
                AfterRename::CopyThenDelete
            } else {
                AfterRename::Fail
            },
        },
{
    match result {
        Ok(_) => AfterRename::Done,
        Err(code) => if cross_device_error(code) {
            AfterRename::CopyThenDelete
        } else {
            AfterRename::Fail
        },
    }
}

/// What came of a file.
#[derive(Debug)]
pub enum MoveEvent {
    /// Its move was shown.
    Previewed,
    /// Something was at its destination.
    Taken,
    /// It was moved at the given time.
    Moved(Timestamp),
    /// It could not be moved; the text says why.
    Failed(String),
}

/// A move that was not made.
#[derive(Debug)]
pub struct Conflict {
    pub source: String,
    pub destination: String,
}

/// A move that was made, and can be taken back by a move from `destination` to
/// `source`.
#[derive(Debug)]
pub struct UndoEntry {
    pub source: String,
    pub destination: String,
    pub moved_at: Timestamp,
}

/// What an entry says: the source, the destination and the time.
pub open spec fn undo_views(entries: Seq<UndoEntry>) -> Seq<(Seq<char>, Seq<char>, (int, int))> {
    entries.map_values(|e: UndoEntry| (e.source@, e.destination@, e.moved_at@))
}

/// What a list of conflicts says: the sources and the destinations.
pub open spec fn conflict_views(conflicts: Seq<Conflict>) -> Seq<(Seq<char>, Seq<char>)> {
    conflicts.map_values(|c: Conflict| (c.source@, c.destination@))
}

impl Clone for UndoEntry {
    fn clone(&self) -> (r: Self)
        ensures
            r == *self,
    {
        UndoEntry {
            source: self.source.clone(),
            destination: self.destination.clone(),
            moved_at: self.moved_at,
        }
    }
}

/// What came of organising.
#[derive(Debug)]
pub struct OrganizeReport {
    /// The number of files that were moved, or would have been.
    pub files_moved: usize,
    /// The moves that were not made since something was at the destination.
    pub conflicts: Vec<Conflict>,
    /// The files that could not be moved, each with the reason.
    pub errors: Vec<String>,
    /// The path of the log of moves, where there are any to log.
    pub undo_log_path: Option<String>,
}

/// The number of files among the first `n` that were moved, or would have been.
pub open spec fn moved_count(events: Seq<MoveEvent>, n: int) -> nat
    decreases n,
{
    if n <= 0 {
        0
    } else {
        moved_count(events, n - 1) + if events[n - 1] is Previewed || events[n - 1] is Moved {
            1nat
        } else {
            0
        }
    }
}

/// The conflicts among the first `n` files.
pub open spec fn conflicts_in(
    files: Seq<FileView>,
    dests: Seq<Seq<char>>,
    events: Seq<MoveEvent>,
    n: int,
) -> Seq<(Seq<char>, Seq<char>)>
    decreases n,
{
    if n <= 0 {
        Seq::empty()
    } else {
        let before = conflicts_in(files, dests, events, n - 1);
        if events[n - 1] is Taken {
            before.push((files[n - 1].path, dests[n - 1]))
        } else {
            before
        }
    }
}

/// The errors among the first `n` files.
pub open spec fn errors_in(files: Seq<FileView>, events: Seq<MoveEvent>, n: int) -> Seq<Seq<char>>
    decreases n,
{
    if n <= 0 {
        Seq::empty()
    } else {
        let before = errors_in(files, events, n - 1);
        match events[n - 1] {
            MoveEvent::Failed(reason) => before.push(files[n - 1].path + ": "@ + reason@),
            _ => before,
        }
    }
}

/// The moves that were made among the first `n` files.
pub open spec fn moves_in(
    files: Seq<FileView>,
    dests: Seq<Seq<char>>,
    events: Seq<MoveEvent>,
    n: int,
) -> Seq<(Seq<char>, Seq<char>, (int, int))>
    decreases n,
{
    if n <= 0 {
        Seq::empty()
    } else {
        let before = moves_in(files, dests, events, n - 1);
        match events[n - 1] {
            MoveEvent::Moved(at) => before.push((files[n - 1].path, dests[n - 1], at@)),
            _ => before,
        }
    }
}

/// Whether a file can have come to `event` where `decision` was made on it.
pub open spec fn fits(decision: MoveDecision, event: MoveEvent) -> bool {
    match decision {
        MoveDecision::Preview => event is Previewed,
        MoveDecision::Conflict => event is Taken,
        MoveDecision::Move => event is Moved || event is Failed,
    }
}

/// Whether each of `events` can have come of what was to be done with its file,
/// whatever was at its destination.
pub open spec fn can_happen(dry_run: bool, overwrite: bool, events: Seq<MoveEvent>) -> bool {
    forall|i: int|
        0 <= i < events.len() ==> fits(decision(dry_run, overwrite, true), #[trigger] events[i])
            || fits(decision(dry_run, overwrite, false), events[i])
}

/// Every file is accounted for: it was moved, or is a conflict or an error. A dry
/// run counts every file and logs nothing; else every move that is counted is
/// logged.
pub proof fn every_file_is_accounted_for(
    files: Seq<FileView>,
    dests: Seq<Seq<char>>,
    dry_run: bool,
    overwrite: bool,
    events: Seq<MoveEvent>,
    n: int,
)
    requires
        can_happen(dry_run, overwrite, events),
        0 <= n <= events.len(),
    ensures
        moved_count(events, n) + conflicts_in(files, dests, events, n).len() + errors_in(
            files,
            events,
            n,
        ).len() == n,
        dry_run ==> moved_count(events, n) == n && moves_in(files, dests, events, n).len() == 0,
        !dry_run ==> moves_in(files, dests, events, n).len() == moved_count(events, n),
        overwrite ==> conflicts_in(files, dests, events, n).len() == 0,
    decreases n,
{
    if n > 0 {
        every_file_is_accounted_for(files, dests, dry_run, overwrite, events, n - 1);
        assert(fits(decision(dry_run, overwrite, true), events[n - 1]) || fits(
            decision(dry_run, overwrite, false),
            events[n - 1],
        ));
    }
}

/// Without leave to overwrite, a file whose destination is taken is reported as a
/// conflict and no move of it is logged.
pub proof fn taken_destination_is_a_conflict(
    files: Seq<FileView>,
    dests: Seq<Seq<char>>,
    taken: Seq<bool>,
    events: Seq<MoveEvent>,
    n: int,
    i: int,
)
    requires
        taken.len() == events.len(),
        forall|k: int|
            0 <= k < events.len() ==> fits(decision(false, false, taken[k]), #[trigger] events[k]),
        0 <= i < n <= events.len(),
        taken[i],
    ensures
        events[i] is Taken,
        conflicts_in(files, dests, events, n).contains((files[i].path, dests[i])),
    decreases n,
{
    assert(fits(decision(false, false, taken[i]), events[i]));
    let all = conflicts_in(files, dests, events, n);
    if i == n - 1 {
        assert(all[all.len() - 1] == (files[i].path, dests[i]));
    } else {
        taken_destination_is_a_conflict(files, dests, taken, events, n - 1, i);
        let before = conflicts_in(files, dests, events, n - 1);
        let k = choose|k: int| 0 <= k < before.len() && before[k] == (files[i].path, dests[i]);
        assert(all[k] == before[k]);
    }
}

/// Where the files go.
pub open spec fn destinations(files: Seq<FileView>, dest_root: Seq<char>, mode: OrganizeMode) -> Seq<
    Seq<char>,
> {
    files.map_values(|f: FileView| destination(f, dest_root, mode))
}

/// The path of the log of the moves that were made into `dest_root`.
pub open spec fn log_path(dest_root: Seq<char>) -> Seq<char> {
    path_join(dest_root, ".fortress_undo.json"@)
}

/// The report of a run in which `events` says what came of each of `files`, and
/// the moves that were made. Each is what can come of what was to be done with the
/// file. There is a log where there is a move to log.
pub fn run(files: &Vec<FileRecord>, args: &OrganizeArgs, events: &Vec<MoveEvent>) -> (r: (
    OrganizeReport,
    Vec<UndoEntry>,
))
    requires
        files@.len() == events@.len(),
        can_happen(args.dry_run, args.overwrite, events@),
    ensures
        ({
            let n = files@.len();
            &&& r.0.files_moved + r.0.conflicts@.len() + r.0.errors@.len() == n
            &&& args.dry_run ==> r.0.files_moved == n && r.1@.len() == 0
            &&& !args.dry_run ==> r.1@.len() == r.0.files_moved
            &&& r.0.undo_log_path is Some <==> r.1@.len() > 0
        }),
        ({
            let all = file_views(files@);
            let dests = destinations(all, args.dest@, args.mode);
            let n = files@.len() as int;
            &&& r.0.files_moved == moved_count(events@, n)
            &&& conflict_views(r.0.conflicts@) == conflicts_in(all, dests, events@, n)
            &&& texts(r.0.errors@) == errors_in(all, events@, n)
            &&& optional_text(r.0.undo_log_path) == if moves_in(all, dests, events@, n).len() > 0 {
                Some(log_path(args.dest@))
            } else {
                None
            }
            &&& undo_views(r.1@) == moves_in(all, dests, events@, n)
        }),
{
    let ghost all = file_views(files@);
    let ghost dests = destinations(all, args.dest@, args.mode);
    let mut files_moved: usize = 0;
    let mut conflicts: Vec<Conflict> = Vec::new();
    let mut errors: Vec<String> = Vec::new();
    let mut undo: Vec<UndoEntry> = Vec::new();
    for i in 0..files.len()
        invariant
            files@.len() == events@.len(),
            all == file_views(files@),
            dests == destinations(all, args.dest@, args.mode),
            files_moved <= i,
            files_moved == moved_count(events@, i as int),
            conflict_views(conflicts@) == conflicts_in(all, dests, events@, i as int),
            texts(errors@) == errors_in(all, events@, i as int),
            undo_views(undo@) == moves_in(all, dests, events@, i as int),
    {
        let file: &FileRecord = &files[i];
        assert(all[i as int] == file@);
        match &events[i] {
            MoveEvent::Previewed => {
                files_moved = files_moved + 1;
            },
            MoveEvent::Taken => {
                let c: Conflict = Conflict {
                    source: file.path.clone(),
                    destination: compute_destination(file, args.dest.as_str(), &args.mode),
                };
                assert(conflict_views(conflicts@.push(c)) == conflict_views(conflicts@).push(
                    (c.source@, c.destination@),
                ));
                conflicts.push(c);
            },
            MoveEvent::Moved(at) => {
                files_moved = files_moved + 1;
                let e: UndoEntry = UndoEntry {
                    source: file.path.clone(),
                    destination: compute_destination(file, args.dest.as_str(), &args.mode),
                    moved_at: *at,
                };
                assert(undo_views(undo@.push(e)) == undo_views(undo@).push(
                    (e.source@, e.destination@, e.moved_at@),
                ));
                undo.push(e);
            },
            MoveEvent::Failed(reason) => {
                let line: String = joined3(file.path.as_str(), ": ", reason.as_str());
                assert(texts(errors@.push(line)) == texts(errors@).push(line@));
                errors.push(line);
            },
        }
    }
    proof {
        every_file_is_accounted_for(
            all,
            dests,
            args.dry_run,
            args.overwrite,
            events@,
            files@.len() as int,
        );
        assert(undo_views(undo@).len() == undo@.len());
        assert(conflict_views(conflicts@).len() == conflicts@.len());
        assert(texts(errors@).len() == errors@.len());
    }
    let log: Option<String> = if undo.len() > 0 {
        Some(undo_log_path(args.dest.as_str()))
    } else {
        None
    };
    (OrganizeReport { files_moved, conflicts, errors, undo_log_path: log }, undo)
}

// ---------------------------------------------------------------------------
// The log of moves
// ---------------------------------------------------------------------------

/// The path of the log of the moves that were made into `dest_root`.
pub fn undo_log_path(dest_root: &str) -> (r: String)
    ensures
        r@ == log_path(dest_root@),
{
    join_path(dest_root, ".fortress_undo.json")
}

/// The log with more moves behind those that are in it.
pub fn extend_undo_log(existing: &Vec<UndoEntry>, entries: &Vec<UndoEntry>) -> (r: Vec<UndoEntry>)
    ensures
        r@ == existing@ + entries@,
{
    let mut out: Vec<UndoEntry> = Vec::new();
    for i in 0..existing.len()
        invariant
            out@ == existing@.take(i as int),
    {
        out.push(existing[i].clone());
    }
    assert(existing@.take(existing@.len() as int) == existing@);
    for i in 0..entries.len()
        invariant
            out@ == existing@ + entries@.take(i as int),
    {
        out.push(entries[i].clone());
        assert(existing@ + entries@.take(i + 1) == (existing@ + entries@.take(i as int)).push(
            entries@[i as int],
        ));
    }
    assert(entries@.take(entries@.len() as int) == entries@);
    out
}

/// A file system once the file at `from` is renamed to `to`.
pub open spec fn renamed(fs: Map<Seq<char>, int>, from: Seq<char>, to: Seq<char>) -> Map<Seq<char>, int> {
    fs.remove(from).insert(to, fs[from])
}

/// A file system once the moves of a log are made, one after another.
pub open spec fn made(fs: Map<Seq<char>, int>, log: Seq<(Seq<char>, Seq<char>, (int, int))>) -> Map<
    Seq<char>,
    int,
>
    decreases log.len(),
{
    if log.len() == 0 {
        fs
    } else {
        renamed(made(fs, log.drop_last()), log.last().0, log.last().1)
    }
}

/// A file system once the moves of a log are taken back, the last one first.
pub open spec fn taken_back(fs: Map<Seq<char>, int>, log: Seq<(Seq<char>, Seq<char>, (int, int))>) -> Map<
    Seq<char>,
    int,
>
    decreases log.len(),
{
    if log.len() == 0 {
        fs
    } else {
        taken_back(renamed(fs, log.last().1, log.last().0), log.drop_last())
    }
}

/// Whether every move of a log moved a file to a place where nothing was.
pub open spec fn moves_into_free_places(
    fs: Map<Seq<char>, int>,
    log: Seq<(Seq<char>, Seq<char>, (int, int))>,
) -> bool
    decreases log.len(),
{
    log.len() > 0 ==> {
        let before = made(fs, log.drop_last());
        &&& moves_into_free_places(fs, log.drop_last())
        &&& before.dom().contains(log.last().0)
        &&& !before.dom().contains(log.last().1)
    }
}

/// The log takes back what was done: taking its moves back, the last one first,
/// leaves every file where it was, where no move replaced a file.
pub proof fn log_takes_moves_back(fs: Map<Seq<char>, int>, log: Seq<(Seq<char>, Seq<char>, (int, int))>)
    requires
        moves_into_free_places(fs, log),
    ensures
        taken_back(made(fs, log), log) == fs,
    decreases log.len(),
{
    if log.len() > 0 {
        let before = made(fs, log.drop_last());
        let (from, to) = (log.last().0, log.last().1);
        assert(renamed(renamed(before, from, to), to, from) =~= before);
        log_takes_moves_back(fs, log.drop_last());
    }
}

// ---------------------------------------------------------------------------
// Reports
// ---------------------------------------------------------------------------

/// The line that is printed for a move that is only shown.
pub fn preview_line(source: &str, dest: &str) -> (r: String)
    ensures
        r@ == source@ + "  \u{2192}  "@ + dest@,
{
    joined3(source, "  \u{2192}  ", dest)
}

/// The lines of the conflicts.
pub open spec fn conflict_lines(conflicts: Seq<(Seq<char>, Seq<char>)>) -> Seq<char>
    decreases conflicts.len(),
{
    if conflicts.len() == 0 {
        Seq::empty()
    } else {
        let c = conflicts.last();
        conflict_lines(conflicts.drop_last()) + "    "@ + c.0 + " \u{2192} "@ + c.1 + "\n"@
    }
}

/// The lines of the errors.
pub open spec fn failure_lines(errors: Seq<Seq<char>>) -> Seq<char>
    decreases errors.len(),
{
    if errors.len() == 0 {
        Seq::empty()
    } else {
        failure_lines(errors.drop_last()) + "    \u{2717} "@ + errors.last() + "\n"@
    }
}

/// What is printed of the conflicts.
pub open spec fn conflict_part(conflicts: Seq<(Seq<char>, Seq<char>)>) -> Seq<char> {
    if conflicts.len() > 0 {
        "  "@ + decimal(conflicts.len()) + " conflict(s) skipped (destination already exists):\n"@
            + conflict_lines(conflicts)
    } else {
        Seq::empty()
    }
}

/// What is printed of the errors.
pub open spec fn failure_part(errors: Seq<Seq<char>>) -> Seq<char> {
    if errors.len() > 0 {
        "  "@ + decimal(errors.len()) + " error(s):\n"@ + failure_lines(errors)
    } else {
        Seq::empty()
    }
}

/// What is printed of the log.
pub open spec fn log_part(path: Option<Seq<char>>) -> Seq<char> {
    match path {
        Some(p) => "\n  Undo log: "@ + p + "\n  To reverse: inspect "@ + p
            + " and rename files back.\n"@,
        None => Seq::empty(),
    }
}

/// What is printed of a report.
pub open spec fn printed(report: OrganizeReport, dry_run: bool) -> Seq<char> {
    if dry_run {
        "\n[dry-run] "@ + decimal(report.files_moved as nat) + " file(s) would be moved.\n"@
    } else {
        "\nOrganize complete:\n  "@ + decimal(report.files_moved as nat) + " file(s) moved\n"@
            + conflict_part(conflict_views(report.conflicts@)) + failure_part(texts(report.errors@))
            + log_part(optional_text(report.undo_log_path))
    }
}

fn write_conflicts(out: &mut String, conflicts: &Vec<Conflict>)
    ensures
        final(out)@ == old(out)@ + conflict_lines(conflict_views(conflicts@)),
{
    let ghost start = out@;
    let ghost all = conflict_views(conflicts@);
    assert(start + conflict_lines(all.take(0)) == start);
    for i in 0..conflicts.len()
        invariant
            all == conflict_views(conflicts@),
            out@ == start + conflict_lines(all.take(i as int)),
    {
        let c: &Conflict = &conflicts[i];
        proof {
            assert(all.take(i + 1).drop_last() == all.take(i as int));
            assert(all[i as int] == (c.source@, c.destination@));
        }
        out.append("    ");
        out.append(c.source.as_str());
        out.append(" \u{2192} ");
        out.append(c.destination.as_str());
        out.append("\n");
        assert(out@ == start + conflict_lines(all.take(i + 1)));
    }
    assert(all.take(all.len() as int) == all);
}

fn write_failures(out: &mut String, errors: &Vec<String>)
    ensures
        final(out)@ == old(out)@ + failure_lines(texts(errors@)),
{
    let ghost start = out@;
    let ghost all = texts(errors@);
    assert(start + failure_lines(all.take(0)) == start);
    for i in 0..errors.len()
        invariant
            all == texts(errors@),
            out@ == start + failure_lines(all.take(i as int)),
    {
        proof {
            assert(all.take(i + 1).drop_last() == all.take(i as int));
            assert(all[i as int] == errors@[i as int]@);
        }
        out.append("    \u{2717} ");
        out.append(errors[i].as_str());
        out.append("\n");
        assert(out@ == start + failure_lines(all.take(i + 1)));
    }
    assert(all.take(all.len() as int) == all);
}

fn conflict_text(conflicts: &Vec<Conflict>) -> (r: String)
    ensures
        r@ == conflict_part(conflict_views(conflicts@)),
{
    if conflicts.len() == 0 {
        return String::new();
    }
    let mut out: String = joined3(
        "  ",
        decimal_text(conflicts.len() as u64).as_str(),
        " conflict(s) skipped (destination already exists):\n",
    );
    write_conflicts(&mut out, conflicts);
    out
}

fn failure_text(errors: &Vec<String>) -> (r: String)
    ensures
        r@ == failure_part(texts(errors@)),
{
    if errors.len() == 0 {
        return String::new();
    }
    let mut out: String = joined3("  ", decimal_text(errors.len() as u64).as_str(), " error(s):\n");
    write_failures(&mut out, errors);
    out
}

fn log_text(path: &Option<String>) -> (r: String)
    ensures
        r@ == log_part(optional_text(*path)),
{
    match path {
        Some(p) => {
            let mut out: String = joined3("\n  Undo log: ", p.as_str(), "\n  To reverse: inspect ");
            out.append(p.as_str());
            out.append(" and rename files back.\n");
            out
        },
        None => String::new(),
    }
}

/// What is printed of a report.
pub fn report_text(report: &OrganizeReport, dry_run: bool) -> (r: String)
    ensures
        r@ == printed(*report, dry_run),
{
    let moved: String = decimal_text(report.files_moved as u64);
    if dry_run {
        return joined3("\n[dry-run] ", moved.as_str(), " file(s) would be moved.\n");
    }
    let mut out: String = joined3("\nOrganize complete:\n  ", moved.as_str(), " file(s) moved\n");
    out.append(conflict_text(&report.conflicts).as_str());
    out.append(failure_text(&report.errors).as_str());
    out.append(log_text(&report.undo_log_path).as_str());
    out
}

} // verus!
