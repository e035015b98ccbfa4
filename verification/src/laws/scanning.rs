//! Scans: how files are classified, what is recorded of them, and what a scan
//! leaves of the index.

use vstd::prelude::*;

use crate::db::{by_path, has_path, Database};
use crate::laws::texts::{end_goes_on, parts_stay};
use crate::models::{FileCategory, FileView, ScanStats};
use crate::paths::{extension_of, file_name_of, is_under, lower_extension};
use crate::scanner::classifier::{
    category_of_mime, guessed_mime, is_application_archive, is_application_code,
    is_application_document, is_text_code, magic_mime, one_piece, split_at_first,
};
use crate::scanner::{
    before_walk, bytes_met, counts_fit, counts_sum, events_met, is_skipped, meets, meets_at, no_counts,
    printed, recorded, state_of, Counts, EntryKind, FileFacts, ScanState, WalkEvent,
};
use crate::sizes::byte_size;
use crate::text::{decimal, has_text, split_on};

verus! {

// ---------------------------------------------------------------------------
// Types of files
// ---------------------------------------------------------------------------

/// The subtypes of `text` that are code.
pub open spec fn code_texts() -> Seq<Seq<char>> {
    seq![
        "x-rust"@,
        "x-python"@,
        "x-c"@,
        "x-c++"@,
        "x-java"@,
        "x-javascript"@,
        "javascript"@,
        "typescript"@,
        "x-typescript"@,
        "x-sh"@,
        "x-shellscript"@,
        "x-ruby"@,
        "x-go"@,
        "x-swift"@,
        "x-kotlin"@,
        "css"@,
        "html"@,
        "xml"@,
        "x-yaml"@,
        "yaml"@,
        "x-toml"@,
        "x-makefile"@,
        "x-asm"@,
    ]
}

proof fn code_texts_are_listed(s: Seq<char>)
    ensures
        is_text_code(s) <==> code_texts().contains(s),
{
    let list = code_texts();
    assert(list[0] == "x-rust"@);
    assert(list[1] == "x-python"@);
    assert(list[2] == "x-c"@);
    assert(list[3] == "x-c++"@);
    assert(list[4] == "x-java"@);
    assert(list[5] == "x-javascript"@);
    assert(list[6] == "javascript"@);
    assert(list[7] == "typescript"@);
    assert(list[8] == "x-typescript"@);
    assert(list[9] == "x-sh"@);
    assert(list[10] == "x-shellscript"@);
    assert(list[11] == "x-ruby"@);
    assert(list[12] == "x-go"@);
    assert(list[13] == "x-swift"@);
    assert(list[14] == "x-kotlin"@);
    assert(list[15] == "css"@);
    assert(list[16] == "html"@);
    assert(list[17] == "xml"@);
    assert(list[18] == "x-yaml"@);
    assert(list[19] == "yaml"@);
    assert(list[20] == "x-toml"@);
    assert(list[21] == "x-makefile"@);
    assert(list[22] == "x-asm"@);
}

/// The subtypes of `application` that are documents.
pub open spec fn document_types() -> Seq<Seq<char>> {
    seq![
        "pdf"@,
        "msword"@,
        "vnd.openxmlformats-officedocument.wordprocessingml.document"@,
        "vnd.oasis.opendocument.text"@,
        "vnd.ms-excel"@,
        "vnd.openxmlformats-officedocument.spreadsheetml.sheet"@,
        "vnd.oasis.opendocument.spreadsheet"@,
        "vnd.ms-powerpoint"@,
        "vnd.openxmlformats-officedocument.presentationml.presentation"@,
        "rtf"@,
        "epub+zip"@,
        "vnd.amazon.ebook"@,
    ]
}

proof fn document_types_are_listed(s: Seq<char>)
    ensures
        is_application_document(s) <==> document_types().contains(s),
{
    let list = document_types();
    assert(list[0] == "pdf"@);
    assert(list[1] == "msword"@);
    assert(list[2] == "vnd.openxmlformats-officedocument.wordprocessingml.document"@);
    assert(list[3] == "vnd.oasis.opendocument.text"@);
    assert(list[4] == "vnd.ms-excel"@);
    assert(list[5] == "vnd.openxmlformats-officedocument.spreadsheetml.sheet"@);
    assert(list[6] == "vnd.oasis.opendocument.spreadsheet"@);
    assert(list[7] == "vnd.ms-powerpoint"@);
    assert(list[8] == "vnd.openxmlformats-officedocument.presentationml.presentation"@);
    assert(list[9] == "rtf"@);
    assert(list[10] == "epub+zip"@);
    assert(list[11] == "vnd.amazon.ebook"@);
}

/// The subtypes of `application` that are archives.
pub open spec fn archive_types() -> Seq<Seq<char>> {
    seq![
        "zip"@,
        "x-tar"@,
        "gzip"@,
        "x-gzip"@,
        "x-bzip2"@,
        "x-7z-compressed"@,
        "x-rar-compressed"@,
        "vnd.rar"@,
        "x-xz"@,
        "x-lzma"@,
        "zstd"@,
        "x-zstd"@,
        "x-iso9660-image"@,
    ]
}

proof fn archive_types_are_listed(s: Seq<char>)
    ensures
        is_application_archive(s) <==> archive_types().contains(s),
{
    let list = archive_types();
    assert(list[0] == "zip"@);
    assert(list[1] == "x-tar"@);
    assert(list[2] == "gzip"@);
    assert(list[3] == "x-gzip"@);
    assert(list[4] == "x-bzip2"@);
    assert(list[5] == "x-7z-compressed"@);
    assert(list[6] == "x-rar-compressed"@);
    assert(list[7] == "vnd.rar"@);
    assert(list[8] == "x-xz"@);
    assert(list[9] == "x-lzma"@);
    assert(list[10] == "zstd"@);
    assert(list[11] == "x-zstd"@);
    assert(list[12] == "x-iso9660-image"@);
}

/// The subtypes of `application` that are code.
pub open spec fn code_types() -> Seq<Seq<char>> {
    seq![
        "json"@,
        "xml"@,
        "x-yaml"@,
        "javascript"@,
        "ecmascript"@,
        "x-httpd-php"@,
        "x-ruby"@,
        "x-perl"@,
        "x-python"@,
        "wasm"@,
        "graphql"@,
        "ld+json"@,
        "schema+json"@,
    ]
}

proof fn code_types_are_listed(s: Seq<char>)
    ensures
        is_application_code(s) <==> code_types().contains(s),
{
    let list = code_types();
    assert(list[0] == "json"@);
    assert(list[1] == "xml"@);
    assert(list[2] == "x-yaml"@);
    assert(list[3] == "javascript"@);
    assert(list[4] == "ecmascript"@);
    assert(list[5] == "x-httpd-php"@);
    assert(list[6] == "x-ruby"@);
    assert(list[7] == "x-perl"@);
    assert(list[8] == "x-python"@);
    assert(list[9] == "wasm"@);
    assert(list[10] == "graphql"@);
    assert(list[11] == "ld+json"@);
    assert(list[12] == "schema+json"@);
}

/// The type in front of the separator of a MIME type tells images, videos and
/// sounds; of texts and applications what is behind it tells documents, archives
/// and code apart, and all other types are of no category of their own.
pub proof fn mime_type_tells_the_category(kind: Seq<char>, subtype: Seq<char>)
    requires
        !kind.contains('/'),
        !subtype.contains('/'),
    ensures
        category_of_mime(kind.push('/') + subtype) == if kind == "image"@ {
            FileCategory::Image
        } else if kind == "video"@ {
            FileCategory::Video
        } else if kind == "audio"@ {
            FileCategory::Audio
        } else if kind == "text"@ {
            if code_texts().contains(subtype) {
                FileCategory::Code
            } else {
                FileCategory::Document
            }
        } else if kind == "application"@ {
            if document_types().contains(subtype) {
                FileCategory::Document
            } else if archive_types().contains(subtype) {
                FileCategory::Archive
            } else if code_types().contains(subtype) {
                FileCategory::Code
            } else {
                FileCategory::Other
            }
        } else {
            FileCategory::Other
        },
{
    split_at_first(kind, subtype);
    one_piece(subtype);
    let parts = split_on(kind.push('/') + subtype, '/');
    assert(parts[0] == kind && parts[1] == subtype);
    code_texts_are_listed(subtype);
    document_types_are_listed(subtype);
    archive_types_are_listed(subtype);
    code_types_are_listed(subtype);
}

// ---------------------------------------------------------------------------
// Records
// ---------------------------------------------------------------------------

/// Where the first bytes of a file carry a signature, the signature decides its
/// type, whatever the file is called.
pub proof fn signature_decides(path: Seq<char>, facts: FileFacts, mime: Seq<char>)
    requires
        0 < facts.head@.len(),
        facts.head@.len() <= 16 ==> magic_mime(facts.head@) == Some(mime),
        facts.head@.len() > 16 ==> magic_mime(facts.head@.take(16)) == Some(mime),
    ensures
        recorded(path, facts).mime_type == mime,
        recorded(path, facts).category == category_of_mime(mime),
{
}

/// Where the first bytes of a file carry no signature, or cannot be read, the
/// extension decides its type, and where it tells nothing either the type is not
/// known.
pub proof fn extension_decides_otherwise(path: Seq<char>, facts: FileFacts)
    requires
        0 < facts.head@.len() <= 16 ==> magic_mime(facts.head@) is None,
        facts.head@.len() > 16 ==> magic_mime(facts.head@.take(16)) is None,
    ensures
        ({
            let r = recorded(path, facts);
            match extension_of(path) {
                Some(e) => match guessed_mime(e) {
                    Some(mime) => r.mime_type == mime && r.category == category_of_mime(mime),
                    None => r.mime_type == "application/octet-stream"@ && r.category
                        == FileCategory::Other,
                },
                None => r.mime_type == "application/octet-stream"@ && r.category == FileCategory::Other,
            }
        }),
{
    crate::scanner::classifier::unknown_bytes_are_other();
}

/// A record holds the path of its file, its name and its extension in lowercase,
/// its size and when it was modified and looked at. The file is there, and has not
/// been hashed.
pub proof fn record_holds_the_facts(path: Seq<char>, facts: FileFacts)
    ensures
        ({
            let r = recorded(path, facts);
            &&& r.path == path
            &&& file_name_of(path) is Some ==> r.name == file_name_of(path)->0
            &&& file_name_of(path) is None ==> r.name.len() == 0
            &&& r.extension == lower_extension(path)
            &&& r.size_bytes == facts.size_bytes
            &&& facts.modified_at is Some ==> r.modified_at == facts.modified_at->0@
            &&& facts.modified_at is None ==> r.modified_at == facts.scanned_at@
            &&& r.scanned_at == facts.scanned_at@
            &&& r.is_present
            &&& r.content_hash is None
        }),
{
}

/// A directory is left out if it is hidden or its name is on the list, a file if
/// its extension is, in whatever case, and nothing else is left out.
pub proof fn lists_decide_what_is_left_out(
    name: Seq<char>,
    path: Seq<char>,
    dirs: Seq<Seq<char>>,
    extensions: Seq<Seq<char>>,
)
    ensures
        dirs.contains(name) ==> is_skipped(name, path, EntryKind::Directory, dirs, extensions),
        name.len() > 1 && name[0] == '.' ==> is_skipped(name, path, EntryKind::Directory, dirs, extensions),
        (name.len() == 0 || name[0] != '.') && !dirs.contains(name) ==> !is_skipped(
            name,
            path,
            EntryKind::Directory,
            dirs,
            extensions,
        ),
        is_skipped(name, path, EntryKind::File, dirs, extensions) <==> extensions.contains(
            lower_extension(path),
        ),
        !is_skipped(name, path, EntryKind::Other, dirs, extensions),
{
    reveal_strlit(".");
}

// ---------------------------------------------------------------------------
// The index
// ---------------------------------------------------------------------------

/// Whether a scan of `root` that met `events` made of the index `before` the index
/// `after` and counted `stats`.
pub open spec fn is_scan(
    before: Database,
    root: Seq<char>,
    events: Seq<WalkEvent>,
    dry_run: bool,
    after: Database,
    stats: ScanStats,
) -> bool {
    let start = ScanState {
        files: by_path(before.files()),
        last_id: before.last_file_id() as int,
        counts: no_counts(),
    };
    state_of(after, stats) == events_met(
        before_walk(start, root, dry_run),
        events,
        dry_run,
        events.len() as int,
    )
}

/// The index finds a file by its path if and only if it holds it.
pub proof fn index_finds_files_by_path(db: Database, path: Seq<char>)
    requires
        db.wf(),
    ensures
        by_path(db.files()).dom().contains(path) <==> exists|i: int|
            0 <= i < db.files().len() && #[trigger] db.files()[i].path == path,
        by_path(db.files()).dom().contains(path) ==> by_path(db.files())[path].path == path
            && db.files().contains(by_path(db.files())[path]),
{
    if has_path(db.files(), path) {
        let i = choose|i: int| 0 <= i < db.files().len() && #[trigger] db.files()[i].path == path;
        crate::db::found_by_path(db.files(), i);
    }
}

/// A file that a scan meets is in the index afterwards, as it was met last, and
/// under the number that it had.
pub proof fn met_file_is_in_the_index(
    before: Database,
    root: Seq<char>,
    events: Seq<WalkEvent>,
    after: Database,
    stats: ScanStats,
    i: int,
    path: Seq<char>,
    facts: FileFacts,
)
    requires
        before.wf(),
        after.wf(),
        is_scan(before, root, events, false, after, stats),
        before.last_file_id() + events.len() <= i64::MAX,
        0 <= i < events.len(),
        meets_at(events, path, i),
        facts == events[i]->facts,
        forall|j: int| i < j < events.len() ==> !#[trigger] meets_at(events, path, j),
    ensures
        exists|f: FileView|
            {
                &&& #[trigger] after.files().contains(f)
                &&& f == (FileView { id: f.id, ..recorded(path, facts) })
                &&& f.is_present
                &&& forall|k: int|
                    0 <= k < before.files().len() && (#[trigger] before.files()[k]).path == path ==> f.id
                        == before.files()[k].id
            },
{
    let start = ScanState {
        files: by_path(before.files()),
        last_id: before.last_file_id() as int,
        counts: no_counts(),
    };
    let s = before_walk(start, root, false);
    crate::scanner::met_file_is_recorded(s, events, events.len() as int, path, i);
    index_finds_files_by_path(after, path);
    let f = by_path(after.files())[path];
    assert(after.files().contains(f));
    assert forall|k: int| 0 <= k < before.files().len() && (#[trigger] before.files()[k]).path
        == path implies f.id == before.files()[k].id by {
        crate::db::found_by_path(before.files(), k);
        assert(s.files.dom().contains(path));
    }
}

/// A file that a scan does not meet stays in the index as it was, but for one under
/// the directory that was scanned, which is gone.
pub proof fn unmet_file_is_gone_or_stays(
    before: Database,
    root: Seq<char>,
    events: Seq<WalkEvent>,
    after: Database,
    stats: ScanStats,
    k: int,
)
    requires
        before.wf(),
        after.wf(),
        is_scan(before, root, events, false, after, stats),
        0 <= k < before.files().len(),
        !meets(events, before.files()[k].path, events.len() as int),
    ensures
        after.files().contains(
            FileView {
                is_present: before.files()[k].is_present && !is_under(before.files()[k].path, root),
                ..before.files()[k]
            },
        ),
{
    let start = ScanState {
        files: by_path(before.files()),
        last_id: before.last_file_id() as int,
        counts: no_counts(),
    };
    let f = before.files()[k];
    crate::db::found_by_path(before.files(), k);
    index_finds_files_by_path(after, f.path);
    if is_under(f.path, root) {
        crate::scanner::missing_file_is_gone(start, root, events, f.path);
    } else {
        crate::scanner::other_files_stay(start, root, events, f.path);
    }
}

/// No file gets into the index but those that were there and those that are met.
pub proof fn only_met_files_are_added(
    before: Database,
    root: Seq<char>,
    events: Seq<WalkEvent>,
    after: Database,
    stats: ScanStats,
    k: int,
)
    requires
        before.wf(),
        after.wf(),
        is_scan(before, root, events, false, after, stats),
        0 <= k < after.files().len(),
        !meets(events, after.files()[k].path, events.len() as int),
    ensures
        exists|l: int|
            0 <= l < before.files().len() && #[trigger] before.files()[l].path == after.files()[k].path,
{
    let start = ScanState {
        files: by_path(before.files()),
        last_id: before.last_file_id() as int,
        counts: no_counts(),
    };
    let path = after.files()[k].path;
    crate::db::found_by_path(after.files(), k);
    crate::scanner::unmet_file_stays(before_walk(start, root, false), events, events.len() as int, path);
    index_finds_files_by_path(before, path);
}

/// A dry run leaves the index as it is.
pub proof fn dry_run_leaves_the_index(
    before: Database,
    root: Seq<char>,
    events: Seq<WalkEvent>,
    after: Database,
    stats: ScanStats,
    f: FileView,
)
    requires
        before.wf(),
        after.wf(),
        is_scan(before, root, events, true, after, stats),
    ensures
        after.files().contains(f) <==> before.files().contains(f),
        after.last_file_id() == before.last_file_id(),
{
    let start = ScanState {
        files: by_path(before.files()),
        last_id: before.last_file_id() as int,
        counts: no_counts(),
    };
    crate::scanner::dry_run_records_nothing(start, events, events.len() as int);
    if after.files().contains(f) {
        let k = choose|k: int| 0 <= k < after.files().len() && after.files()[k] == f;
        crate::db::found_by_path(after.files(), k);
        index_finds_files_by_path(before, f.path);
    }
    if before.files().contains(f) {
        let k = choose|k: int| 0 <= k < before.files().len() && before.files()[k] == f;
        crate::db::found_by_path(before.files(), k);
        index_finds_files_by_path(after, f.path);
    }
}

/// The sizes of the files among some events, added up.
pub open spec fn size_met(events: Seq<WalkEvent>) -> nat
    decreases events.len(),
{
    if events.len() == 0 {
        0
    } else {
        size_met(events.drop_last()) + match events.last() {
            WalkEvent::File { path, facts } => facts.size_bytes as nat,
            _ => 0,
        }
    }
}

/// A scan counts every file that it meets and adds up their sizes. What cannot be
/// looked at, links and files that nothing is known of count as left out;
/// directories count as nothing.
pub proof fn scan_counts_what_it_meets(
    before: Database,
    root: Seq<char>,
    events: Seq<WalkEvent>,
    dry_run: bool,
    after: Database,
    stats: ScanStats,
)
    requires
        is_scan(before, root, events, dry_run, after, stats),
        before.last_file_id() + events.len() <= i64::MAX,
    ensures
        stats.files_found == events.filter(|e: WalkEvent| e is File).len(),
        stats.total_bytes == size_met(events),
        stats.files_skipped == events.filter(
            |e: WalkEvent| e is Unreadable || e is Symlink || e is Unknown,
        ).len(),
        dry_run ==> stats.files_new == 0,
{
    let start = ScanState {
        files: by_path(before.files()),
        last_id: before.last_file_id() as int,
        counts: no_counts(),
    };
    let s = before_walk(start, root, dry_run);
    events_are_counted(s, events, dry_run, events.len() as int);
    assert(events.take(events.len() as int) == events);
}

proof fn events_are_counted(s: ScanState, events: Seq<WalkEvent>, dry_run: bool, n: int)
    requires
        0 <= n <= events.len(),
        s.last_id + n <= i64::MAX,
    ensures
        ({
            let t = events_met(s, events, dry_run, n);
            &&& t.counts.found == s.counts.found + events.take(n).filter(|e: WalkEvent| e is File).len()
            &&& t.counts.bytes == s.counts.bytes + size_met(events.take(n))
            &&& t.counts.skipped == s.counts.skipped + events.take(n).filter(
                |e: WalkEvent| e is Unreadable || e is Symlink || e is Unknown,
            ).len()
            &&& dry_run ==> t.counts.new == s.counts.new
            &&& t.last_id <= s.last_id + n
        }),
    decreases n,
{
    reveal_with_fuel(Seq::filter, 1);
    if n > 0 {
        events_are_counted(s, events, dry_run, n - 1);
        assert(events.take(n).drop_last() == events.take(n - 1));
        assert(events.take(n).last() == events[n - 1]);
    } else {
        assert(events.take(0) == Seq::<WalkEvent>::empty());
    }
}

/// A file counts as new if and only if nothing is recorded under its path when it
/// is met, and it then gets the next number.
pub proof fn first_meeting_counts_as_new(s: ScanState, events: Seq<WalkEvent>, n: int, path: Seq<char>)
    requires
        0 <= n < events.len(),
        meets_at(events, path, n),
        events_met(s, events, false, n).last_id < i64::MAX,
    ensures
        ({
            let t = events_met(s, events, false, n);
            let u = events_met(s, events, false, n + 1);
            let known = t.files.dom().contains(path);
            &&& u.counts.new == t.counts.new + if known {
                0int
            } else {
                1
            }
            &&& u.last_id == t.last_id + if known {
                0int
            } else {
                1
            }
            &&& u.files.dom().contains(path)
            &&& u.files[path].id == if known {
                t.files[path].id
            } else {
                Some((t.last_id + 1) as i64)
            }
        }),
{
}

/// The counts of several scans are those of the first of them and those of the
/// others, added up.
pub proof fn counts_add_up(a: Seq<ScanStats>, b: Seq<ScanStats>, s: ScanStats)
    ensures
        counts_sum(a + b).found == counts_sum(a).found + counts_sum(b).found,
        counts_sum(a + b).new == counts_sum(a).new + counts_sum(b).new,
        counts_sum(a + b).skipped == counts_sum(a).skipped + counts_sum(b).skipped,
        counts_sum(a + b).bytes == counts_sum(a).bytes + counts_sum(b).bytes,
        counts_sum(seq![s]).found == s.files_found,
        counts_sum(seq![s]).new == s.files_new,
        counts_sum(seq![s]).skipped == s.files_skipped,
        counts_sum(seq![s]).bytes == s.total_bytes,
    decreases b.len(),
{
    assert(seq![s].drop_last() == Seq::<ScanStats>::empty());
    assert(counts_sum(seq![s].drop_last()) == no_counts());
    if b.len() == 0 {
        assert(a + b == a);
    } else {
        counts_add_up(a, b.drop_last(), s);
        assert((a + b).drop_last() == a + b.drop_last());
    }
}

/// The counts of several scans are refused only where they cannot be held.
pub proof fn counts_fit_where_they_can_be_held(c: Counts)
    ensures
        counts_fit(c) <==> c.found <= u64::MAX && c.new <= u64::MAX && c.skipped <= u64::MAX && c.bytes
            <= u64::MAX,
{
}

/// The bytes that a walk meets are the sizes of its files, added up.
pub proof fn bytes_are_the_sizes(events: Seq<WalkEvent>, n: int)
    requires
        0 <= n <= events.len(),
    ensures
        bytes_met(events, n) == size_met(events.take(n)),
    decreases n,
{
    if n > 0 {
        bytes_are_the_sizes(events, n - 1);
        assert(events.take(n).drop_last() == events.take(n - 1));
        assert(events.take(n).last() == events[n - 1]);
    } else {
        assert(events.take(0) == Seq::<WalkEvent>::empty());
    }
}

/// The statistics that are printed are those of the scan, each under its name.
#[verifier::rlimit(40)]
pub proof fn statistics_are_printed(stats: ScanStats)
    ensures
        has_text(printed(stats), "Files found:   "@ + decimal(stats.files_found as nat)),
        has_text(printed(stats), "Files new:     "@ + decimal(stats.files_new as nat)),
        has_text(printed(stats), "Files skipped: "@ + decimal(stats.files_skipped as nat)),
        has_text(printed(stats), "Total size:    "@ + byte_size(stats.total_bytes, 1)),
{
    names_end_the_lines();
    let first = "\nScan complete:\n  Files found:   "@;
    let x0 = first + decimal(stats.files_found as nat);
    end_goes_on(first, first.take(18), "Files found:   "@, decimal(stats.files_found as nat));
    let x1 = x0 + "\n  Files new:     "@;
    parts_stay(x0, "\n  Files new:     "@);
    let x2 = x1 + decimal(stats.files_new as nat);
    parts_stay(x1, decimal(stats.files_new as nat));
    name_and_value(x0, "\n  Files new:     "@, "Files new:     "@, decimal(stats.files_new as nat));
    let x3 = x2 + "\n  Files skipped: "@;
    parts_stay(x2, "\n  Files skipped: "@);
    let x4 = x3 + decimal(stats.files_skipped as nat);
    parts_stay(x3, decimal(stats.files_skipped as nat));
    name_and_value(x2, "\n  Files skipped: "@, "Files skipped: "@, decimal(stats.files_skipped as nat));
    let x5 = x4 + "\n  Total size:    "@;
    parts_stay(x4, "\n  Total size:    "@);
    let x6 = x5 + byte_size(stats.total_bytes, 1);
    parts_stay(x5, byte_size(stats.total_bytes, 1));
    name_and_value(x4, "\n  Total size:    "@, "Total size:    "@, byte_size(stats.total_bytes, 1));
    let x7 = x6 + "\n  Duration:      "@;
    parts_stay(x6, "\n  Duration:      "@);
    let x8 = x7 + decimal(stats.duration_ms as nat);
    parts_stay(x7, decimal(stats.duration_ms as nat));
    let x9 = x8 + "ms\n"@;
    parts_stay(x8, "ms\n"@);
    assert(printed(stats) == x9);
}

proof fn name_and_value(before: Seq<char>, line: Seq<char>, name: Seq<char>, value: Seq<char>)
    requires
        line == line.take(3) + name,
    ensures
        has_text(before + line + value, name + value),
{
    let front = before + line.take(3);
    assert(before + line == front + name);
    end_goes_on(before + line, front, name, value);
}

proof fn names_end_the_lines()
    ensures
        "\nScan complete:\n  Files found:   "@ == "\nScan complete:\n  Files found:   "@.take(18)
            + "Files found:   "@,
        "\n  Files new:     "@ == "\n  Files new:     "@.take(3) + "Files new:     "@,
        "\n  Files skipped: "@ == "\n  Files skipped: "@.take(3) + "Files skipped: "@,
        "\n  Total size:    "@ == "\n  Total size:    "@.take(3) + "Total size:    "@,
{
    reveal_strlit("\nScan complete:\n  Files found:   ");
    reveal_strlit("\n  Files new:     ");
    reveal_strlit("\n  Files skipped: ");
    reveal_strlit("\n  Total size:    ");
    reveal_strlit("Files found:   ");
    reveal_strlit("Files new:     ");
    reveal_strlit("Files skipped: ");
    reveal_strlit("Total size:    ");
    assert("\nScan complete:\n  Files found:   "@ == "\nScan complete:\n  Files found:   "@.take(18)
        + "Files found:   "@);
    assert("\n  Files new:     "@ == "\n  Files new:     "@.take(3) + "Files new:     "@);
    assert("\n  Files skipped: "@ == "\n  Files skipped: "@.take(3) + "Files skipped: "@);
    assert("\n  Total size:    "@ == "\n  Total size:    "@.take(3) + "Total size:    "@);
}

} // verus!
