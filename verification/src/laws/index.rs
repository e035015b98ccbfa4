//! The index: which files its queries list, and what changes of it.

use vstd::prelude::*;

use crate::db::{
    absent_under, at_most, changed_at, has_path, hashed, in_category, is_listing, named, present, stored,
    under, unhashed, with_content, with_hash, with_id, with_presence, FileOrder,
};
use crate::models::{optional_text, BackupView, FileCategory, FileView};
use crate::paths::is_under;
use crate::rows::{
    backup_in_row, file_in_row, plain_time, row_holds_backup, row_holds_file, BackupRow, FileRow,
};
use crate::text::{ascii_folded, has_text, text_before, text_order_is_irreflexive};
use crate::time::{parsed_time, rfc3339};

verus! {

/// A query lists every file that it is for, and none twice.
pub proof fn every_file_is_listed_once(
    files: Seq<FileView>,
    wanted: spec_fn(FileView) -> bool,
    order: FileOrder,
    out: Seq<FileView>,
)
    requires
        is_listing(files, wanted, order, out),
    ensures
        out.no_duplicates(),
        forall|f: FileView| #[trigger] out.contains(f) <==> files.contains(f) && wanted(f),
{
    assert forall|i: int, j: int| 0 <= i < out.len() && 0 <= j < out.len() && i != j implies out[i]
        != out[j] by {
        let (a, b) = if i < j {
            (i, j)
        } else {
            (j, i)
        };
        assert(order.lists_first(out[a], out[b]));
        text_order_is_irreflexive(out[a].path);
        text_order_is_irreflexive(out[a].name);
        text_order_is_irreflexive(crate::db::hash_of(out[a]));
    }
}

/// A query lists files by their paths, names or sizes, the lowest first.
pub proof fn files_are_listed_in_order(
    files: Seq<FileView>,
    wanted: spec_fn(FileView) -> bool,
    order: FileOrder,
    out: Seq<FileView>,
    i: int,
    j: int,
)
    requires
        is_listing(files, wanted, order, out),
        0 <= i < j < out.len(),
    ensures
        match order {
            FileOrder::Path => text_before(out[i].path, out[j].path),
            FileOrder::Name => text_before(out[i].name, out[j].name) || out[i].name == out[j].name,
            FileOrder::Size => out[i].size_bytes <= out[j].size_bytes,
            FileOrder::Hash => true,
        },
{
}

/// The queries of the index are for files that are there: all of them, those
/// without a hash up to a size, those with a text in their name or path, those of a
/// category, those with a hash, and those under a directory.
pub proof fn queries_are_for_files_that_are_there(
    f: FileView,
    max: u64,
    query: Seq<char>,
    category: FileCategory,
    hash: Seq<char>,
    root: Seq<char>,
)
    ensures
        present()(f) <==> f.is_present,
        unhashed(max)(f) <==> f.is_present && f.content_hash is None && f.size_bytes <= max,
        named(query)(f) <==> f.is_present && (has_text(ascii_folded(f.name), ascii_folded(query)) || has_text(
            ascii_folded(f.path),
            ascii_folded(query),
        )),
        in_category(category)(f) <==> f.is_present && f.category == category,
        with_content(hash)(f) <==> f.is_present && f.content_hash == Some(hash),
        hashed()(f) <==> f.is_present && f.content_hash is Some,
        under(root)(f) <==> f.is_present && is_under(f.path, root),
{
}

/// A list that is cut off keeps its first items, and as many as it may.
pub proof fn first_items_are_kept<T>(s: Seq<T>, n: int)
    requires
        n >= 0,
    ensures
        at_most(s, n).is_prefix_of(s),
        at_most(s, n).len() <= n,
        at_most(s, n).len() < n ==> at_most(s, n) == s,
{
}

/// A record that is stored is in the index under its path, and under the number
/// that the path had; all other files stay as they are.
pub proof fn stored_record_is_in_the_index(
    old: Seq<FileView>,
    new: Seq<FileView>,
    f: FileView,
    id: i64,
    g: FileView,
)
    requires
        stored(old, new, f, id),
    ensures
        new.contains(FileView { id: Some(id), ..f }),
        g.path != f.path ==> (new.contains(g) <==> old.contains(g)),
        has_path(old, f.path) ==> exists|k: int|
            0 <= k < old.len() && (#[trigger] old[k]).path == f.path && old[k].id == Some(id),
{
    let wanted = FileView { id: Some(id), ..f };
    if has_path(old, f.path) {
        let k = choose|k: int| 0 <= k < old.len() && #[trigger] old[k].path == f.path;
        assert(new[k] == wanted);
        if g.path != f.path {
            if old.contains(g) {
                let l = choose|l: int| 0 <= l < old.len() && old[l] == g;
                assert(new[l] == g);
            }
            if new.contains(g) {
                let l = choose|l: int| 0 <= l < new.len() && new[l] == g;
                assert(old[l] == g);
            }
        }
    } else {
        let pos = choose|pos: int| 0 <= pos <= old.len() && new == #[trigger] old.insert(pos, with_id(f, id));
        assert(new[pos] == wanted);
        if old.contains(g) {
            let l = choose|l: int| 0 <= l < old.len() && old[l] == g;
            if l < pos {
                assert(new[l] == g);
            } else {
                assert(new[l + 1] == g);
            }
        }
        if new.contains(g) && g.path != f.path {
            let l = choose|l: int| 0 <= l < new.len() && new[l] == g;
            if l < pos {
                assert(old[l] == g);
            } else {
                assert(l != pos);
                assert(old[l - 1] == g);
            }
        }
    }
}

/// A hash that is recorded, and that a file is there or gone, change that of the
/// file at the path and nothing else.
pub proof fn one_file_is_changed(
    old: Seq<FileView>,
    new: Seq<FileView>,
    path: Seq<char>,
    hash: Seq<char>,
    there: bool,
    i: int,
)
    requires
        0 <= i < old.len(),
    ensures
        changed_at(old, new, path, with_hash(hash)) ==> new.len() == old.len() && new[i] == if old[i].path
            == path {
            FileView { content_hash: Some(hash), ..old[i] }
        } else {
            old[i]
        },
        changed_at(old, new, path, with_presence(there)) ==> new.len() == old.len() && new[i]
            == if old[i].path == path {
            FileView { is_present: there, ..old[i] }
        } else {
            old[i]
        },
{
}

/// The files under a directory are marked as gone, and no others.
pub proof fn files_under_a_directory_are_gone(files: Seq<FileView>, root: Seq<char>, i: int)
    requires
        0 <= i < files.len(),
    ensures
        absent_under(files, root).len() == files.len(),
        absent_under(files, root)[i] == (FileView {
            is_present: files[i].is_present && !is_under(files[i].path, root),
            ..files[i]
        }),
{
}

/// Every column of a row holds what it is named for, of a file and of a backup.
pub proof fn columns_hold_their_values(row: FileRow, f: FileView, other: BackupRow, b: BackupView)
    ensures
        row_holds_file(row, f) ==> {
            &&& f.id == Some(row.id)
            &&& row.path@ == f.path
            &&& row.name@ == f.name
            &&& row.extension@ == f.extension
            &&& row.category@ == f.category.name()
            &&& row.mime_type@ == f.mime_type
            &&& row.size_bytes as u64 == f.size_bytes
            &&& optional_text(row.content_hash) == f.content_hash
            &&& row.modified_at@ == rfc3339(f.modified_at)
            &&& row.scanned_at@ == rfc3339(f.scanned_at)
            &&& (row.is_present != 0) == f.is_present
        },
        row_holds_backup(other, b) ==> {
            &&& b.id == Some(other.id)
            &&& other.label@ == b.label
            &&& other.archive_path@ == b.archive_path
            &&& other.original_bytes as u64 == b.original_bytes
            &&& other.compressed_bytes as u64 == b.compressed_bytes
            &&& other.algorithm@ == b.algorithm
            &&& other.created_at@ == rfc3339(b.created_at)
        },
{
    crate::rows::size_survives(f.size_bytes);
    crate::rows::size_survives(b.original_bytes);
    crate::rows::size_survives(b.compressed_bytes);
}

/// What a row says is read column by column.
pub proof fn row_is_read_column_by_column(row: FileRow, other: BackupRow, t: (int, int))
    ensures
        ({
            let f = file_in_row(row, t);
            &&& f.id == Some(row.id)
            &&& f.path == row.path@
            &&& f.name == row.name@
            &&& f.extension == row.extension@
            &&& f.mime_type == row.mime_type@
            &&& f.size_bytes == row.size_bytes as u64
            &&& f.content_hash == optional_text(row.content_hash)
            &&& f.modified_at == match parsed_time(row.modified_at@) {
                Some(x) => x,
                None => t,
            }
            &&& f.scanned_at == match parsed_time(row.scanned_at@) {
                Some(x) => x,
                None => t,
            }
            &&& f.is_present == (row.is_present != 0)
        }),
        forall|c: FileCategory| row.category@ == #[trigger] c.name() ==> file_in_row(row, t).category == c,
        ({
            let b = backup_in_row(other, t);
            &&& b.id == Some(other.id)
            &&& b.label == other.label@
            &&& b.archive_path == other.archive_path@
            &&& b.original_bytes == other.original_bytes as u64
            &&& b.compressed_bytes == other.compressed_bytes as u64
            &&& b.algorithm == other.algorithm@
            &&& b.created_at == match parsed_time(other.created_at@) {
                Some(x) => x,
                None => t,
            }
        }),
{
    assert forall|c: FileCategory| row.category@ == #[trigger] c.name() implies file_in_row(row, t).category
        == c by {
        crate::models::category_name_reads_back(c);
    }
}

/// A time can be read back from a row in all years that are written with four
/// digits.
pub proof fn times_of_four_digit_years_are_plain(t: (int, int))
    ensures
        plain_time(t) <==> -62_167_219_200 <= t.0 < 253_402_300_800 && t.1 < 1_000_000_000,
{
}

/// The index holds a file under a path if and only if one of its files has it.
pub proof fn path_is_held_by_a_file(files: Seq<FileView>, path: Seq<char>)
    ensures
        has_path(files, path) <==> exists|i: int| 0 <= i < files.len() && (#[trigger] files[i]).path == path,
{
    if exists|i: int| 0 <= i < files.len() && (#[trigger] files[i]).path == path {
        let i = choose|i: int| 0 <= i < files.len() && (#[trigger] files[i]).path == path;
        assert(files[i].path == path);
    }
}

} // verus!
