//! Organising: where files go, what is moved, and what is reported and logged.

use vstd::prelude::*;

use crate::cli::OrganizeMode;
use crate::laws::places::joined_name_adds_a_component;
use crate::laws::texts::{end_is_a_part, parts_stay};
use crate::models::{optional_text, FileCategory, FileView};
use crate::organizer::{
    can_happen, conflict_lines, conflict_part, conflict_views, conflicts_in, decision, destination, errors_in,
    failure_lines, failure_part, fits, folder_of, folder_of_month, integer, log_part, log_path, month_of,
    moved_count, moved_name, moves_in, printed, MoveEvent, OrganizeReport, EXDEV,
};
use crate::paths::{file_name_of, named_pieces, names_something, path_join};
use crate::text::{decimal, has_text, texts};
use crate::time::in_month;

verus! {

/// The folder of a category.
pub open spec fn category_component(category: FileCategory) -> Seq<char> {
    match category {
        FileCategory::Image => "Photos"@,
        FileCategory::Video => "Videos"@,
        FileCategory::Audio => "Music"@,
        FileCategory::Document => "Documents"@,
        FileCategory::Archive => "Archives"@,
        FileCategory::Code => "Code"@,
        FileCategory::Other => "Other"@,
    }
}

/// The folders of the months.
#[verifier::opaque]
pub open spec fn month_components() -> Seq<Seq<char>> {
    seq![
        "01-January"@,
        "02-February"@,
        "03-March"@,
        "04-April"@,
        "05-May"@,
        "06-June"@,
        "07-July"@,
        "08-August"@,
        "09-September"@,
        "10-October"@,
        "11-November"@,
        "12-December"@,
    ]
}

/// The name that a file goes under.
pub open spec fn name_component(path: Seq<char>) -> Seq<char> {
    match file_name_of(path) {
        Some(name) => name,
        None => "unknown"@,
    }
}

/// Every file goes below the directory that it is to be put under, whatever its
/// category: by type and date into the folder of its category, in it into that of
/// the year and in that into that of the month in which it was modified; by date
/// into those of the year and the month; by type into that of its category. It
/// keeps its name there, if it has one.
#[verifier::rlimit(40)]
pub proof fn destination_is_below_its_folders(
    f: FileView,
    dest_root: Seq<char>,
    mode: OrganizeMode,
    year: int,
    month: int,
)
    requires
        in_month(f.modified_at.0, year, month),
    ensures
        1 <= month <= 12,
        dest_root.is_prefix_of(destination(f, dest_root, mode)),
        named_pieces(destination(f, dest_root, mode)) == named_pieces(dest_root) + match mode {
            OrganizeMode::ByTypeAndDate => seq![
                category_component(f.category),
                integer(year),
                month_components()[month - 1],
                name_component(f.path),
            ],
            OrganizeMode::ByDate => seq![
                integer(year),
                month_components()[month - 1],
                name_component(f.path),
            ],
            OrganizeMode::ByType => seq![category_component(f.category), name_component(f.path)],
        },
{
    assert(in_month(f.modified_at.0, (year, month).0, (year, month).1));
    let (y, m) = month_of(f.modified_at.0);
    crate::time::month_is_unique(f.modified_at.0, y, m, year, month);
    name_is_a_component(f.path);
    category_folders_are_names(f.category);
    month_folders_are_names(month);
    year_folders_are_names(year);
    let (kind, year_text, month_text, name) = (
        folder_of(f.category),
        integer(year),
        folder_of_month(month),
        moved_name(f.path),
    );
    four_below(dest_root, kind, year_text, month_text, name);
    three_below(dest_root, year_text, month_text, name);
    two_below(dest_root, kind, name);
}

/// Whether a text is one component of a path.
pub open spec fn is_component(name: Seq<char>) -> bool {
    names_something(name) && !name.contains('/')
}

proof fn two_below(root: Seq<char>, a: Seq<char>, b: Seq<char>)
    requires
        is_component(a),
        is_component(b),
    ensures
        named_pieces(path_join(path_join(root, a), b)) == named_pieces(root) + seq![a, b],
        root.is_prefix_of(path_join(path_join(root, a), b)),
{
    let x = path_join(root, a);
    let y = path_join(x, b);
    joined_name_adds_a_component(root, a);
    joined_name_adds_a_component(x, b);
    prefixes_chain(root, x, y);
    assert(named_pieces(root).push(a).push(b) == named_pieces(root) + seq![a, b]);
}

proof fn three_below(root: Seq<char>, a: Seq<char>, b: Seq<char>, c: Seq<char>)
    requires
        is_component(a),
        is_component(b),
        is_component(c),
    ensures
        named_pieces(path_join(path_join(path_join(root, a), b), c)) == named_pieces(root) + seq![a, b, c],
        root.is_prefix_of(path_join(path_join(path_join(root, a), b), c)),
{
    let x = path_join(path_join(root, a), b);
    let y = path_join(x, c);
    two_below(root, a, b);
    joined_name_adds_a_component(x, c);
    prefixes_chain(root, x, y);
    assert((named_pieces(root) + seq![a, b]).push(c) == named_pieces(root) + seq![a, b, c]);
}

proof fn four_below(root: Seq<char>, a: Seq<char>, b: Seq<char>, c: Seq<char>, d: Seq<char>)
    requires
        is_component(a),
        is_component(b),
        is_component(c),
        is_component(d),
    ensures
        named_pieces(path_join(path_join(path_join(path_join(root, a), b), c), d)) == named_pieces(root)
            + seq![a, b, c, d],
        root.is_prefix_of(path_join(path_join(path_join(path_join(root, a), b), c), d)),
{
    let x = path_join(path_join(path_join(root, a), b), c);
    let y = path_join(x, d);
    three_below(root, a, b, c);
    joined_name_adds_a_component(x, d);
    prefixes_chain(root, x, y);
    assert((named_pieces(root) + seq![a, b, c]).push(d) == named_pieces(root) + seq![a, b, c, d]);
}

proof fn prefixes_chain(a: Seq<char>, b: Seq<char>, c: Seq<char>)
    requires
        a.is_prefix_of(b),
        b.is_prefix_of(c),
    ensures
        a.is_prefix_of(c),
{
    assert(c.take(b.len() as int) == b);
    assert(b.take(a.len() as int) == a);
    assert(c.take(a.len() as int) == a);
}

proof fn name_is_a_component(path: Seq<char>)
    ensures
        is_component(moved_name(path)),
        moved_name(path) == name_component(path),
{
    reveal_strlit("unknown");
    if file_name_of(path) is Some {
        crate::paths::file_name_is_plain(path);
    } else {
        assert(moved_name(path).len() > 1);
        assert(seq!['.'].len() == 1);
    }
}

/// Two files go to the same place only if they have the same name and, where files
/// are arranged by type, the same category and, where they are arranged by date,
/// were modified in the same month.
#[verifier::rlimit(40)]
pub proof fn same_place_means_same_folders(
    f: FileView,
    g: FileView,
    dest_root: Seq<char>,
    mode: OrganizeMode,
    ym: (int, int),
    zn: (int, int),
)
    requires
        in_month(f.modified_at.0, ym.0, ym.1),
        in_month(g.modified_at.0, zn.0, zn.1),
        file_name_of(f.path) is Some,
        file_name_of(g.path) is Some,
        destination(f, dest_root, mode) == destination(g, dest_root, mode),
    ensures
        file_name_of(f.path) == file_name_of(g.path),
        !(mode is ByDate) ==> f.category == g.category,
        !(mode is ByType) ==> ym == zn,
{
    let place = destination(f, dest_root, mode);
    let a = (f.category, ym.0, ym.1, name_component(f.path));
    let b = (g.category, zn.0, zn.1, name_component(g.path));
    place_has_components(f, dest_root, mode, a, place);
    place_has_components(g, dest_root, mode, b, place);
    components_tell_apart(named_pieces(dest_root), named_pieces(place), mode, a, b);
}

proof fn place_has_components(
    f: FileView,
    dest_root: Seq<char>,
    mode: OrganizeMode,
    a: (FileCategory, int, int, Seq<char>),
    place: Seq<char>,
)
    requires
        in_month(f.modified_at.0, a.1, a.2),
        a.0 == f.category,
        a.3 == name_component(f.path),
        place == destination(f, dest_root, mode),
    ensures
        named_pieces(place) == named_pieces(dest_root) + components_below(mode, a),
        1 <= a.2 <= 12,
{
    destination_is_below_its_folders(f, dest_root, mode, a.1, a.2);
}

/// The components below the directory that files are put under, of a file of the
/// given category, year, month and name.
pub open spec fn components_below(mode: OrganizeMode, f: (FileCategory, int, int, Seq<char>)) -> Seq<Seq<char>> {
    match mode {
        OrganizeMode::ByTypeAndDate => seq![
            category_component(f.0),
            integer(f.1),
            month_components()[f.2 - 1],
            f.3,
        ],
        OrganizeMode::ByDate => seq![integer(f.1), month_components()[f.2 - 1], f.3],
        OrganizeMode::ByType => seq![category_component(f.0), f.3],
    }
}

proof fn components_tell_apart(
    front: Seq<Seq<char>>,
    pieces: Seq<Seq<char>>,
    mode: OrganizeMode,
    f: (FileCategory, int, int, Seq<char>),
    g: (FileCategory, int, int, Seq<char>),
)
    requires
        pieces == front + components_below(mode, f),
        pieces == front + components_below(mode, g),
        1 <= f.2 <= 12,
        1 <= g.2 <= 12,
    ensures
        f.3 == g.3,
        !(mode is ByDate) ==> f.0 == g.0,
        !(mode is ByType) ==> f.1 == g.1 && f.2 == g.2,
{
    let (a, b) = (components_below(mode, f), components_below(mode, g));
    same_rest(front, a, b);
    match mode {
        OrganizeMode::ByTypeAndDate => {
            assert(a[0] == b[0] && a[1] == b[1] && a[2] == b[2] && a[3] == b[3]);
            category_folders_differ(f.0, g.0);
            years_differ(f.1, g.1);
            month_folders_differ(f.2, g.2);
        },
        OrganizeMode::ByDate => {
            assert(a[0] == b[0] && a[1] == b[1] && a[2] == b[2]);
            years_differ(f.1, g.1);
            month_folders_differ(f.2, g.2);
        },
        OrganizeMode::ByType => {
            assert(a[0] == b[0] && a[1] == b[1]);
            category_folders_differ(f.0, g.0);
        },
    }
}

proof fn same_rest(front: Seq<Seq<char>>, a: Seq<Seq<char>>, b: Seq<Seq<char>>)
    requires
        front + a == front + b,
    ensures
        a == b,
{
    assert((front + a).skip(front.len() as int) == a);
    assert((front + b).skip(front.len() as int) == b);
}

proof fn category_folders_are_names(c: FileCategory)
    ensures
        names_something(folder_of(c)),
        !folder_of(c).contains('/'),
        folder_of(c) == category_component(c),
{
    reveal_strlit("Photos");
    reveal_strlit("Videos");
    reveal_strlit("Music");
    reveal_strlit("Documents");
    reveal_strlit("Archives");
    reveal_strlit("Code");
    reveal_strlit("Other");
    assert(folder_of(c).len() > 1);
    assert(seq!['.'].len() == 1);
}

proof fn category_folders_differ(a: FileCategory, b: FileCategory)
    requires
        category_component(a) == category_component(b),
    ensures
        a == b,
{
    reveal_strlit("Photos");
    reveal_strlit("Videos");
    reveal_strlit("Music");
    reveal_strlit("Documents");
    reveal_strlit("Archives");
    reveal_strlit("Code");
    reveal_strlit("Other");
    let (x, y) = (category_component(a), category_component(b));
    assert(x[0] == y[0] && x.len() == y.len());
}

proof fn month_folders_are_names(m: int)
    requires
        1 <= m <= 12,
    ensures
        names_something(folder_of_month(m)),
        !folder_of_month(m).contains('/'),
        folder_of_month(m) == month_components()[m - 1],
{
    reveal(month_components);
    reveal_strlit("01-January");
    reveal_strlit("02-February");
    reveal_strlit("03-March");
    reveal_strlit("04-April");
    reveal_strlit("05-May");
    reveal_strlit("06-June");
    reveal_strlit("07-July");
    reveal_strlit("08-August");
    reveal_strlit("09-September");
    reveal_strlit("10-October");
    reveal_strlit("11-November");
    reveal_strlit("12-December");
    assert(folder_of_month(m).len() > 1);
    assert(seq!['.'].len() == 1);
}

proof fn month_folders_differ(m: int, n: int)
    requires
        1 <= m <= 12,
        1 <= n <= 12,
        month_components()[m - 1] == month_components()[n - 1],
    ensures
        m == n,
{
    reveal(month_components);
    reveal_strlit("01-January");
    reveal_strlit("02-February");
    reveal_strlit("03-March");
    reveal_strlit("04-April");
    reveal_strlit("05-May");
    reveal_strlit("06-June");
    reveal_strlit("07-July");
    reveal_strlit("08-August");
    reveal_strlit("09-September");
    reveal_strlit("10-October");
    reveal_strlit("11-November");
    reveal_strlit("12-December");
    let (x, y) = (month_components()[m - 1], month_components()[n - 1]);
    assert(x[0] == y[0] && x[1] == y[1]);
}

proof fn year_folders_are_names(y: int)
    ensures
        names_something(integer(y)),
        !integer(y).contains('/'),
{
    reveal_strlit("-");
    let n: nat = if y < 0 {
        (-y) as nat
    } else {
        y as nat
    };
    crate::text::decimal_digits(n);
    let t = integer(y);
    assert(t.len() > 0);
    assert forall|i: int| 0 <= i < t.len() implies t[i] != '/' && t[i] != '.' by {
        if y < 0 && i == 0 {
            assert(t[0] == '-');
        } else {
            let d = decimal(n);
            let j = if y < 0 {
                i - 1
            } else {
                i
            };
            assert(t[i] == d[j]);
            assert('0' <= d[j] <= '9');
        }
    }
    if t == seq!['.'] {
        assert(t[0] == '.');
    }
}

proof fn years_differ(y: int, z: int)
    requires
        integer(y) == integer(z),
    ensures
        y == z,
{
    reveal_strlit("-");
    let (a, b): (nat, nat) = (
        if y < 0 {
            (-y) as nat
        } else {
            y as nat
        },
        if z < 0 {
            (-z) as nat
        } else {
            z as nat
        },
    );
    crate::text::decimal_digits(a);
    crate::text::decimal_digits(b);
    assert('0' <= decimal(a)[0] <= '9' && '0' <= decimal(b)[0] <= '9');
    let (s, t) = (integer(y), integer(z));
    if y < 0 {
        assert(s[0] == '-');
        assert(s.drop_first() == decimal(a));
    }
    if z < 0 {
        assert(t[0] == '-');
        assert(t.drop_first() == decimal(b));
    }
    assert(decimal(a) == decimal(b));
}

/// A file is moved if and only if it is no dry run and nothing is in its place or
/// what is there may be replaced; it stays as a conflict where something is in its
/// place that may not, and in a dry run its move is only shown.
pub proof fn file_is_moved_unless_it_must_not(dry_run: bool, overwrite: bool, taken: bool)
    ensures
        decision(dry_run, overwrite, taken) is Move <==> !dry_run && (!taken || overwrite),
        decision(dry_run, overwrite, taken) is Conflict <==> !dry_run && taken && !overwrite,
        decision(dry_run, overwrite, taken) is Preview <==> dry_run,
{
}

/// How many of the first `n` events are of a kind.
pub open spec fn count(events: Seq<MoveEvent>, n: int, kind: spec_fn(MoveEvent) -> bool) -> nat {
    events.take(n).filter(kind).len()
}

/// Every move that was made is logged, in the order in which they were made, with
/// where the file was, where it went and when; nothing else is.
pub proof fn every_move_is_logged(
    files: Seq<FileView>,
    dests: Seq<Seq<char>>,
    events: Seq<MoveEvent>,
    n: int,
)
    requires
        0 <= n <= events.len(),
    ensures
        moves_in(files, dests, events, n).len() == count(events, n, |e: MoveEvent| e is Moved),
        forall|i: int|
            0 <= i < n && (#[trigger] events[i]) is Moved ==> ({
                let k = count(events, i, |e: MoveEvent| e is Moved);
                k < moves_in(files, dests, events, n).len() && moves_in(files, dests, events, n)[k as int]
                    == (files[i].path, dests[i], events[i]->Moved_0@)
            }),
    decreases n,
{
    reveal_with_fuel(Seq::filter, 1);
    if n > 0 {
        every_move_is_logged(files, dests, events, n - 1);
        assert(events.take(n).drop_last() == events.take(n - 1));
        assert(events.take(n).last() == events[n - 1]);
        let before = moves_in(files, dests, events, n - 1);
        let after = moves_in(files, dests, events, n);
        assert forall|i: int| 0 <= i < n && (#[trigger] events[i]) is Moved implies ({
            let k = count(events, i, |e: MoveEvent| e is Moved);
            k < after.len() && after[k as int] == (files[i].path, dests[i], events[i]->Moved_0@)
        }) by {
            let k = count(events, i, |e: MoveEvent| e is Moved);
            if i < n - 1 {
                assert(after[k as int] == before[k as int]);
            }
        }
    } else {
        assert(events.take(0) == Seq::<MoveEvent>::empty());
    }
}

/// Every file whose place was taken is reported with where it is and where it was
/// to go, in order; nothing else is.
pub proof fn every_conflict_is_reported(
    files: Seq<FileView>,
    dests: Seq<Seq<char>>,
    events: Seq<MoveEvent>,
    n: int,
)
    requires
        0 <= n <= events.len(),
    ensures
        conflicts_in(files, dests, events, n).len() == count(events, n, |e: MoveEvent| e is Taken),
        forall|i: int|
            0 <= i < n && (#[trigger] events[i]) is Taken ==> ({
                let k = count(events, i, |e: MoveEvent| e is Taken);
                k < conflicts_in(files, dests, events, n).len() && conflicts_in(
                    files,
                    dests,
                    events,
                    n,
                )[k as int] == (files[i].path, dests[i])
            }),
    decreases n,
{
    reveal_with_fuel(Seq::filter, 1);
    if n > 0 {
        every_conflict_is_reported(files, dests, events, n - 1);
        assert(events.take(n).drop_last() == events.take(n - 1));
        assert(events.take(n).last() == events[n - 1]);
        let before = conflicts_in(files, dests, events, n - 1);
        let after = conflicts_in(files, dests, events, n);
        assert forall|i: int| 0 <= i < n && (#[trigger] events[i]) is Taken implies ({
            let k = count(events, i, |e: MoveEvent| e is Taken);
            k < after.len() && after[k as int] == (files[i].path, dests[i])
        }) by {
            let k = count(events, i, |e: MoveEvent| e is Taken);
            if i < n - 1 {
                assert(after[k as int] == before[k as int]);
            }
        }
    } else {
        assert(events.take(0) == Seq::<MoveEvent>::empty());
    }
}

/// Every file that could not be moved is reported with its path and the reason, in
/// order; nothing else is.
pub proof fn every_failure_is_reported(files: Seq<FileView>, events: Seq<MoveEvent>, n: int)
    requires
        0 <= n <= events.len(),
    ensures
        errors_in(files, events, n).len() == count(events, n, |e: MoveEvent| e is Failed),
        forall|i: int|
            0 <= i < n && (#[trigger] events[i]) is Failed ==> ({
                let k = count(events, i, |e: MoveEvent| e is Failed);
                k < errors_in(files, events, n).len() && errors_in(files, events, n)[k as int]
                    == files[i].path + ": "@ + events[i]->Failed_0@
            }),
    decreases n,
{
    reveal_with_fuel(Seq::filter, 1);
    if n > 0 {
        every_failure_is_reported(files, events, n - 1);
        assert(events.take(n).drop_last() == events.take(n - 1));
        assert(events.take(n).last() == events[n - 1]);
        let before = errors_in(files, events, n - 1);
        let after = errors_in(files, events, n);
        assert forall|i: int| 0 <= i < n && (#[trigger] events[i]) is Failed implies ({
            let k = count(events, i, |e: MoveEvent| e is Failed);
            k < after.len() && after[k as int] == files[i].path + ": "@ + events[i]->Failed_0@
        }) by {
            let k = count(events, i, |e: MoveEvent| e is Failed);
            if i < n - 1 {
                assert(after[k as int] == before[k as int]);
            }
        }
    } else {
        assert(events.take(0) == Seq::<MoveEvent>::empty());
    }
}

/// The files are counted that were moved, and those whose move was shown.
pub proof fn moves_are_counted(events: Seq<MoveEvent>, n: int)
    requires
        0 <= n <= events.len(),
    ensures
        moved_count(events, n) == count(events, n, |e: MoveEvent| e is Moved || e is Previewed),
    decreases n,
{
    reveal_with_fuel(Seq::filter, 1);
    if n > 0 {
        moves_are_counted(events, n - 1);
        assert(events.take(n).drop_last() == events.take(n - 1));
        assert(events.take(n).last() == events[n - 1]);
    } else {
        assert(events.take(0) == Seq::<MoveEvent>::empty());
    }
}

/// The log of moves is in the directory that the files are put under.
pub proof fn log_is_in_the_destination(dest_root: Seq<char>)
    ensures
        dest_root.is_prefix_of(log_path(dest_root)),
        named_pieces(log_path(dest_root)) == named_pieces(dest_root).push(".fortress_undo.json"@),
{
    reveal_strlit(".fortress_undo.json");
    let name = ".fortress_undo.json"@;
    assert(name.len() > 1);
    assert(seq!['.'].len() == 1);
    joined_name_adds_a_component(dest_root, name);
}

/// The report of a run shows every conflict, every failure and where the log is.
#[verifier::rlimit(40)]
pub proof fn report_shows_what_was_not_moved(report: OrganizeReport, c: int, e: int)
    ensures
        0 <= c < report.conflicts@.len() ==> has_text(
            printed(report, false),
            report.conflicts@[c].source@ + " \u{2192} "@ + report.conflicts@[c].destination@,
        ),
        0 <= e < report.errors@.len() ==> has_text(printed(report, false), report.errors@[e]@),
        report.undo_log_path is Some ==> has_text(printed(report, false), report.undo_log_path->0@),
{
    let conflicts = conflict_views(report.conflicts@);
    let errors = texts(report.errors@);
    let log = optional_text(report.undo_log_path);
    let head = "\nOrganize complete:\n  "@ + decimal(report.files_moved as nat) + " file(s) moved\n"@;
    let (a, b, d) = (conflict_part(conflicts), failure_part(errors), log_part(log));
    assert(printed(report, false) == head + a + b + d);
    end_is_a_part(head, a);
    parts_stay(head + a, b);
    end_is_a_part(head + a, b);
    parts_stay(head + a + b, d);
    end_is_a_part(head + a + b, d);
    if 0 <= c < report.conflicts@.len() {
        assert(conflicts[c].0 == report.conflicts@[c].source@);
        assert(conflicts[c].1 == report.conflicts@[c].destination@);
        conflict_lines_show_conflicts(conflicts, c);
        let front = "  "@ + decimal(conflicts.len())
            + " conflict(s) skipped (destination already exists):\n"@;
        end_is_a_part(front, conflict_lines(conflicts));
    }
    if 0 <= e < report.errors@.len() {
        assert(errors[e] == report.errors@[e]@);
        failure_lines_show_failures(errors, e);
        let front = "  "@ + decimal(errors.len()) + " error(s):\n"@;
        end_is_a_part(front, failure_lines(errors));
    }
    if report.undo_log_path is Some {
        let p = log->0;
        let x = "\n  Undo log: "@ + p;
        let y = x + "\n  To reverse: inspect "@;
        end_is_a_part("\n  Undo log: "@, p);
        parts_stay(x, "\n  To reverse: inspect "@);
        parts_stay(y, p);
        parts_stay(y + p, " and rename files back.\n"@);
    }
}

#[verifier::rlimit(40)]
proof fn conflict_lines_show_conflicts(conflicts: Seq<(Seq<char>, Seq<char>)>, c: int)
    requires
        0 <= c < conflicts.len(),
    ensures
        has_text(conflict_lines(conflicts), conflicts[c].0 + " \u{2192} "@ + conflicts[c].1),
    decreases conflicts.len(),
{
    let (source, dest) = conflicts.last();
    let before = conflict_lines(conflicts.drop_last());
    let arrow = " \u{2192} "@;
    let front = before + "    "@;
    parts_stay(before, "    "@);
    parts_stay(front, source);
    parts_stay(front + source, arrow);
    parts_stay(front + source + arrow, dest);
    parts_stay(front + source + arrow + dest, "\n"@);
    if c < conflicts.len() - 1 {
        assert(conflicts.drop_last()[c] == conflicts[c]);
        conflict_lines_show_conflicts(conflicts.drop_last(), c);
    } else {
        three_ends_are_a_part(front, source, arrow, dest);
    }
}

proof fn three_ends_are_a_part(front: Seq<char>, a: Seq<char>, b: Seq<char>, c: Seq<char>)
    ensures
        has_text(front + a + b + c, a + b + c),
{
    regrouped(front, a, b, c);
    end_is_a_part(front, a + b + c);
}

proof fn failure_lines_show_failures(errors: Seq<Seq<char>>, e: int)
    requires
        0 <= e < errors.len(),
    ensures
        has_text(failure_lines(errors), errors[e]),
    decreases errors.len(),
{
    let before = failure_lines(errors.drop_last());
    let mark = before + "    \u{2717} "@;
    parts_stay(before, "    \u{2717} "@);
    parts_stay(mark, errors.last());
    parts_stay(mark + errors.last(), "\n"@);
    if e < errors.len() - 1 {
        assert(errors.drop_last()[e] == errors[e]);
        failure_lines_show_failures(errors.drop_last(), e);
    } else {
        end_is_a_part(mark, errors[e]);
    }
}

/// What can happen to a file is what follows from the decision about it: in a dry
/// run its move is shown, and otherwise it is moved or cannot be, or its place is
/// taken and may not be.
pub proof fn what_can_happen_follows_decisions(dry_run: bool, overwrite: bool, events: Seq<MoveEvent>)
    ensures
        can_happen(dry_run, overwrite, events) <==> forall|i: int|
            0 <= i < events.len() ==> if dry_run {
                #[trigger] events[i] is Previewed
            } else {
                events[i] is Moved || events[i] is Failed || (events[i] is Taken && !overwrite)
            },
{
    if forall|i: int|
        0 <= i < events.len() ==> if dry_run {
            #[trigger] events[i] is Previewed
        } else {
            events[i] is Moved || events[i] is Failed || (events[i] is Taken && !overwrite)
        } {
        assert forall|i: int| 0 <= i < events.len() implies fits(
            decision(dry_run, overwrite, true),
            #[trigger] events[i],
        ) || fits(decision(dry_run, overwrite, false), events[i]) by {}
    }
}

/// A move to another file system is made by copying; any other failure is one.
pub proof fn other_file_system_is_told_by_its_number()
    ensures
        EXDEV == 18,
{
}

/// The number of files that were moved, or would be, is printed.
#[verifier::rlimit(40)]
pub proof fn moved_files_are_printed(report: OrganizeReport)
    ensures
        has_text(printed(report, true), decimal(report.files_moved as nat) + " file(s) would be moved"@),
        has_text(printed(report, false), decimal(report.files_moved as nat) + " file(s) moved"@),
{
    let n = decimal(report.files_moved as nat);
    reveal_strlit(" file(s) would be moved.\n");
    reveal_strlit(" file(s) would be moved");
    reveal_strlit(" file(s) moved\n");
    reveal_strlit(" file(s) moved");
    let (a, b) = (" file(s) would be moved"@, " file(s) moved"@);
    assert(" file(s) would be moved.\n"@ == a + seq!['.', '\n']);
    assert(" file(s) moved\n"@ == b + seq!['\n']);
    number_and_words("\n[dry-run] "@, n, a, seq!['.', '\n']);
    number_and_words("\nOrganize complete:\n  "@, n, b, seq!['\n']);
    let x = "\nOrganize complete:\n  "@ + n + " file(s) moved\n"@;
    let y = x + conflict_part(conflict_views(report.conflicts@));
    let z = y + failure_part(texts(report.errors@));
    parts_stay(x, conflict_part(conflict_views(report.conflicts@)));
    parts_stay(y, failure_part(texts(report.errors@)));
    parts_stay(z, log_part(optional_text(report.undo_log_path)));
}

proof fn regrouped(a: Seq<char>, b: Seq<char>, c: Seq<char>, d: Seq<char>)
    ensures
        a + (b + c) + d == a + b + (c + d),
        a + b + c + d == a + (b + c + d),
{
    assert(a + (b + c) + d =~= a + b + (c + d));
    assert(a + b + c + d =~= a + (b + c + d));
}

#[verifier::rlimit(40)]
proof fn number_and_words(front: Seq<char>, n: Seq<char>, words: Seq<char>, end: Seq<char>)
    ensures
        has_text(front + n + (words + end), n + words),
{
    regrouped(front, n, words, end);
    end_is_a_part(front, n + words);
    parts_stay(front + (n + words), end);
}

} // verus!
