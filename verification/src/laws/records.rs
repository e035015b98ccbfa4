//! Records: what the values of the library say is what their fields hold.

use vstd::prelude::*;

use crate::cli::OrganizeMode;
use crate::dedup::{deletion_views, Deletion};
use crate::error::FortressError;
use crate::laws::texts::{end_is_a_part, parts_stay};
use crate::models::{
    backup_views, file_views, group_views, optional_text, BackupRecord, DuplicateGroup, FileCategory,
    FileRecord, FileView, SearchResult,
};
use crate::organizer::{
    conflict_views, destination, destinations, undo_views, Conflict, UndoEntry,
};
use crate::search::extractor::{event_views, optional_texts, XmlEvent, XmlEventView};
use crate::search::{result_view, result_views};
use crate::text::{has_text, texts};
use crate::time::is_time;
use crate::web::{category_rows, search_row, search_rows, shown_rows, CategoryRow, SearchRow};

verus! {

/// The record of a file says what its fields hold.
pub proof fn file_record_says_its_fields(records: Seq<FileRecord>, i: int)
    requires
        0 <= i < records.len(),
    ensures
        file_views(records).len() == records.len(),
        ({
            let (r, v) = (records[i], file_views(records)[i]);
            &&& v.id == r.id
            &&& v.path == r.path@
            &&& v.name == r.name@
            &&& v.extension == r.extension@
            &&& v.category == r.category
            &&& v.mime_type == r.mime_type@
            &&& v.size_bytes == r.size_bytes
            &&& v.content_hash == optional_text(r.content_hash)
            &&& v.modified_at == r.modified_at@
            &&& v.scanned_at == r.scanned_at@
            &&& v.is_present == r.is_present
        }),
{
}

/// The record of a backup says what its fields hold.
pub proof fn backup_record_says_its_fields(records: Seq<BackupRecord>, i: int)
    requires
        0 <= i < records.len(),
    ensures
        backup_views(records).len() == records.len(),
        ({
            let (r, v) = (records[i], backup_views(records)[i]);
            &&& v.id == r.id
            &&& v.label == r.label@
            &&& v.archive_path == r.archive_path@
            &&& v.original_bytes == r.original_bytes
            &&& v.compressed_bytes == r.compressed_bytes
            &&& v.algorithm == r.algorithm@
            &&& v.created_at == r.created_at@
        }),
{
}

/// A group of copies says what its fields hold.
pub proof fn group_says_its_fields(groups: Seq<DuplicateGroup>, i: int)
    requires
        0 <= i < groups.len(),
    ensures
        group_views(groups).len() == groups.len(),
        group_views(groups)[i].content_hash == groups[i].content_hash@,
        group_views(groups)[i].wasted_bytes == groups[i].wasted_bytes,
        group_views(groups)[i].files == file_views(groups[i].files@),
{
}

/// A search result says what its fields hold.
pub proof fn result_says_its_fields(results: Seq<SearchResult>, i: int)
    requires
        0 <= i < results.len(),
    ensures
        result_views(results).len() == results.len(),
        result_views(results)[i] == result_view(results[i]),
        result_views(results)[i].file == results[i].file@,
        result_views(results)[i].score == results[i].score,
        result_views(results)[i].snippet == optional_text(results[i].snippet),
{
}

/// A deletion that is planned is of its path, and says which copy stays.
pub proof fn deletion_says_what_goes_and_what_stays(plan: Seq<Deletion>, i: int)
    requires
        0 <= i < plan.len(),
    ensures
        deletion_views(plan).len() == plan.len(),
        deletion_views(plan)[i].0 == plan[i].path@,
        deletion_views(plan)[i].1 == plan[i].keeper@,
{
}

/// A conflict and an entry of the log say where a file was and where it was to go.
pub proof fn moves_say_from_where_to_where(conflicts: Seq<Conflict>, entries: Seq<UndoEntry>, i: int)
    ensures
        conflict_views(conflicts).len() == conflicts.len(),
        0 <= i < conflicts.len() ==> conflict_views(conflicts)[i].0 == conflicts[i].source@
            && conflict_views(conflicts)[i].1 == conflicts[i].destination@,
        undo_views(entries).len() == entries.len(),
        0 <= i < entries.len() ==> undo_views(entries)[i].0 == entries[i].source@ && undo_views(entries)[i].1
            == entries[i].destination@ && undo_views(entries)[i].2 == entries[i].moved_at@,
{
}

/// Every file has its own destination, in the order of the files.
pub proof fn every_file_has_its_destination(files: Seq<FileView>, root: Seq<char>, mode: OrganizeMode, i: int)
    requires
        0 <= i < files.len(),
    ensures
        destinations(files, root, mode).len() == files.len(),
        destinations(files, root, mode)[i] == destination(files[i], root, mode),
{
}

/// The rows of the pages say what their fields hold.
pub proof fn rows_say_their_fields(rows: Seq<CategoryRow>, found: Seq<SearchRow>, files: Seq<FileView>, i: int)
    ensures
        category_rows(rows).len() == rows.len(),
        0 <= i < rows.len() ==> category_rows(rows)[i] == (rows[i].name@, rows[i].count, rows[i].bytes@),
        search_rows(found).len() == found.len(),
        0 <= i < found.len() ==> search_rows(found)[i] == (
            found[i].name@,
            found[i].path@,
            found[i].size@,
            found[i].category@,
            found[i].modified@,
        ),
        shown_rows(files).len() == files.len(),
        0 <= i < files.len() ==> shown_rows(files)[i] == search_row(files[i]),
{
}

/// Lists of texts and events say what their items do, one by one.
pub proof fn lists_say_their_items(
    list: Seq<String>,
    optional: Seq<Option<String>>,
    events: Seq<XmlEvent>,
    i: int,
)
    ensures
        texts(list).len() == list.len(),
        0 <= i < list.len() ==> texts(list)[i] == list[i]@,
        optional_texts(optional).len() == optional.len(),
        0 <= i < optional.len() ==> optional_texts(optional)[i] == optional_text(optional[i]),
        event_views(events).len() == events.len(),
        0 <= i < events.len() ==> match events[i] {
            XmlEvent::Open(name) => event_views(events)[i] == XmlEventView::Open(name@),
            XmlEvent::Empty => event_views(events)[i] is Empty,
            XmlEvent::Close => event_views(events)[i] is Close,
            XmlEvent::Text(Some(t)) => event_views(events)[i] == XmlEventView::Text(Some(t@)),
            XmlEvent::Text(None) => event_views(events)[i] == XmlEventView::Text(None),
            XmlEvent::Other => event_views(events)[i] is Other,
            XmlEvent::Stop => event_views(events)[i] is Stop,
        },
{
}

/// Every second of the years that can be held is a time, with any part of it.
pub proof fn seconds_are_times(secs: int, nanos: int)
    requires
        -8_334_601_228_800 <= secs <= 8_210_266_876_799,
        0 <= nanos < 1_000_000_000,
    ensures
        is_time(secs, nanos),
{
}

/// An error tells what it is about.
pub proof fn error_tells_what_it_is_about(e: FortressError)
    ensures
        e matches FortressError::Io(t) ==> has_text(e.text(), t@),
        e matches FortressError::Database(t) ==> has_text(e.text(), t@),
        e matches FortressError::Serialization(t) ==> has_text(e.text(), t@),
        e matches FortressError::ScanError { path, reason } ==> has_text(e.text(), path@) && has_text(
            e.text(),
            reason@,
        ),
        e matches FortressError::HashError { path, reason } ==> has_text(e.text(), path@) && has_text(
            e.text(),
            reason@,
        ),
        e matches FortressError::FileNotFound(t) ==> has_text(e.text(), t@),
        e matches FortressError::DestinationExists(t) ==> has_text(e.text(), t@),
        e matches FortressError::BackupError(t) ==> has_text(e.text(), t@),
        e matches FortressError::SearchError(t) ==> has_text(e.text(), t@),
        e matches FortressError::ConfigError(t) ==> has_text(e.text(), t@),
        e matches FortressError::Unexpected(t) ==> has_text(e.text(), t@),
{
    match e {
        FortressError::Io(t) => end_is_a_part("I/O error: "@, t@),
        FortressError::Database(t) => end_is_a_part("Database error: "@, t@),
        FortressError::Serialization(t) => end_is_a_part("Serialization error: "@, t@),
        FortressError::ScanError { path, reason } => tells_both(
            "Scanner error at '"@,
            path@,
            "': "@,
            reason@,
        ),
        FortressError::HashError { path, reason } => tells_both(
            "Failed to hash file '"@,
            path@,
            "': "@,
            reason@,
        ),
        FortressError::FileNotFound(t) => end_is_a_part("File not found for organization: "@, t@),
        FortressError::DestinationExists(t) => end_is_a_part("Destination already exists: "@, t@),
        FortressError::BackupError(t) => end_is_a_part("Backup failed: "@, t@),
        FortressError::SearchError(t) => end_is_a_part("Search error: "@, t@),
        FortressError::ConfigError(t) => end_is_a_part("Configuration error: "@, t@),
        FortressError::Unexpected(t) => end_is_a_part("Unexpected error: "@, t@),
    }
}

proof fn tells_both(head: Seq<char>, a: Seq<char>, middle: Seq<char>, b: Seq<char>)
    ensures
        has_text(head + a + middle + b, a),
        has_text(head + a + middle + b, b),
{
    end_is_a_part(head, a);
    parts_stay(head + a, middle);
    parts_stay(head + a + middle, b);
    end_is_a_part(head + a + middle, b);
}

/// Every category has its own name.
pub proof fn categories_have_their_names(c: FileCategory)
    ensures
        c is Image ==> c.name() == "image"@,
        c is Video ==> c.name() == "video"@,
        c is Audio ==> c.name() == "audio"@,
        c is Document ==> c.name() == "document"@,
        c is Archive ==> c.name() == "archive"@,
        c is Code ==> c.name() == "code"@,
        c is Other ==> c.name() == "other"@,
        FileCategory::of_name(c.name()) == c,
{
    crate::models::category_name_reads_back(c);
}

} // verus!
