//! The dashboard: what its pages show, and what they change.

use vstd::prelude::*;

use crate::db::{
    at_most, has_group, is_group, is_grouping, is_listing, wastes_more, with_content, Database,
    FileOrder,
};
use crate::dedup::{total_waste, DeleteOutcome};
use crate::models::{total_size, BackupView, FileView, GroupView};
use crate::sizes::byte_size;
use crate::text::{ascii_folded, has_text, text_order_is_irreflexive};
use crate::time::rfc3339;
use crate::web::{
    after_deletions, breakdown_rows, compressed_total, found_by, is_breakdown, is_last_scan,
    is_newest_first, is_page_order, keeps_newest, largest, newer, original_total, page_total, page_waste,
    path_infos, paths_but_first, search_row, shown_duplicates, shown_paths, shows_backup, shows_group,
    shows_breakdown, shows_groups, shows_last_scan, shows_waste, BackupRow, CategoryTotal, DupGroupRow, DuplicatesPage,
    SEARCH_LIMIT,
};

verus! {

/// When the newest copy is kept, every copy goes that is older than another, and
/// one stays that is as new as any.
pub proof fn older_copies_go(db: Database, hash: Seq<char>, paths: Seq<Seq<char>>, i: int, j: int)
    requires
        db.wf(),
        keeps_newest(db.files(), hash, paths),
        0 <= i < db.files().len(),
        0 <= j < db.files().len(),
        db.files()[i].is_present,
        db.files()[j].is_present,
        db.files()[i].content_hash == Some(hash),
        db.files()[j].content_hash == Some(hash),
    ensures
        ({
            let (a, b) = (db.files()[i].modified_at, db.files()[j].modified_at);
            a.0 < b.0 || (a.0 == b.0 && a.1 < b.1)
        }) ==> paths.contains(db.files()[i].path),
        exists|k: int|
            {
                &&& 0 <= k < db.files().len()
                &&& (#[trigger] db.files()[k]).is_present
                &&& db.files()[k].content_hash == Some(hash)
                &&& !paths.contains(db.files()[k].path)
                &&& db.files()[k].modified_at.0 > db.files()[i].modified_at.0 || (
                db.files()[k].modified_at.0 == db.files()[i].modified_at.0 && db.files()[k].modified_at.1
                    >= db.files()[i].modified_at.1)
            },
        i != j ==> paths.contains(db.files()[i].path) || paths.contains(db.files()[j].path),
{
    let files = db.files();
    let (copies, sorted) = choose|copies: Seq<FileView>, sorted: Seq<FileView>| #[trigger]
        is_listing(files, with_content(hash), FileOrder::Path, copies) && #[trigger] is_newest_first(
            copies,
            sorted,
        ) && paths == if sorted.len() < 2 {
            Seq::empty()
        } else {
            paths_but_first(sorted)
        };
    let (f, g) = (files[i], files[j]);
    assert(files.contains(f) && with_content(hash)(f));
    assert(files.contains(g) && with_content(hash)(g));
    assert(sorted.contains(f) && sorted.contains(g));
    let a = choose|a: int| 0 <= a < sorted.len() && sorted[a] == f;
    let b = choose|b: int| 0 <= b < sorted.len() && sorted[b] == g;
    if a > 0 {
        assert(paths[a - 1] == f.path);
    }
    if b > 0 {
        assert(paths[b - 1] == g.path);
    }
    if a == 0 && b > 0 {
        assert(newer(sorted[0], sorted[b]));
    }
    let kept = sorted[0];
    assert(sorted.contains(kept));
    assert(copies.contains(kept));
    assert(with_content(hash)(kept));
    let k = choose|k: int| 0 <= k < files.len() && files[k] == kept;
    if paths.contains(kept.path) {
        let l = choose|l: int| 0 <= l < paths.len() && paths[l] == kept.path;
        assert(paths[l] == sorted[l + 1].path);
        assert(sorted.contains(sorted[l + 1]));
        assert(copies.contains(sorted[l + 1]));
        let m = choose|m: int| 0 <= m < files.len() && files[m] == sorted[l + 1];
        crate::db::path_is_unique(db, k, m);
        assert(newer(sorted[0], sorted[l + 1]));
        text_order_is_irreflexive(kept.path);
    }
    if a > 0 {
        assert(newer(sorted[0], sorted[a]));
    }
    assert(files[k].is_present);
    if i != j && a == b {
        crate::db::path_is_unique(db, i, j);
    }
}

/// Only copies with the hash go.
pub proof fn only_copies_with_the_hash_go(db: Database, hash: Seq<char>, paths: Seq<Seq<char>>, i: int)
    requires
        db.wf(),
        keeps_newest(db.files(), hash, paths),
        0 <= i < paths.len(),
    ensures
        exists|k: int|
            {
                &&& 0 <= k < db.files().len()
                &&& (#[trigger] db.files()[k]).path == paths[i]
                &&& db.files()[k].is_present
                &&& db.files()[k].content_hash == Some(hash)
            },
{
    crate::web::newest_copy_is_kept(db, hash, paths, i);
    let files = db.files();
    let (kept, gone) = choose|kept: FileView, gone: FileView|
        #![trigger files.contains(kept), files.contains(gone)]
        files.contains(kept) && files.contains(gone) && with_content(hash)(gone) && gone.path == paths[i];
    let k = choose|k: int| 0 <= k < files.len() && files[k] == gone;
    assert(files[k].path == paths[i]);
}

/// A file that was deleted is gone from the index, and all others stay as they
/// are.
pub proof fn deleted_files_are_gone(
    files: Seq<FileView>,
    paths: Seq<Seq<char>>,
    outcomes: Seq<DeleteOutcome>,
    n: int,
    i: int,
)
    requires
        0 <= i < files.len(),
        n >= 0,
    ensures
        after_deletions(files, paths, outcomes, n).len() == files.len(),
        (exists|k: int| 0 <= k < n && #[trigger] outcomes[k] is Deleted && paths[k] == files[i].path)
            ==> after_deletions(files, paths, outcomes, n)[i] == (FileView { is_present: false, ..files[i] }),
        (forall|k: int| 0 <= k < n ==> !(#[trigger] outcomes[k] is Deleted && paths[k] == files[i].path))
            ==> after_deletions(files, paths, outcomes, n)[i] == files[i],
    decreases n,
{
    if n > 0 {
        deleted_files_are_gone(files, paths, outcomes, n - 1, i);
        let before = after_deletions(files, paths, outcomes, n - 1);
        if exists|k: int| 0 <= k < n - 1 && #[trigger] outcomes[k] is Deleted && paths[k] == files[i].path {
            assert(before[i] == (FileView { is_present: false, ..files[i] }));
        } else {
            assert(before[i] == files[i]);
            if exists|k: int| 0 <= k < n && #[trigger] outcomes[k] is Deleted && paths[k] == files[i].path {
                let k = choose|k: int|
                    0 <= k < n && #[trigger] outcomes[k] is Deleted && paths[k] == files[i].path;
                assert(k == n - 1);
            }
        }
        if forall|k: int| 0 <= k < n ==> !(#[trigger] outcomes[k] is Deleted && paths[k] == files[i].path) {
            assert(!(outcomes[n - 1] is Deleted && paths[n - 1] == files[i].path));
        }
    }
}

/// The overview counts the files of every category that has any and adds up their
/// sizes; the category that takes most comes first.
pub proof fn every_category_is_counted(files: Seq<FileView>, out: Seq<CategoryTotal>, f: FileView, i: int, j: int)
    requires
        is_breakdown(files, out),
        0 <= i < out.len(),
    ensures
        files.contains(f) ==> exists|k: int| 0 <= k < out.len() && (#[trigger] out[k]).category == f.category,
        i < j < out.len() ==> out[i].category != out[j].category && out[i].bytes >= out[j].bytes,
        out[i].count > 0,
        out[i].count == files.filter(|g: FileView| g.category == out[i].category).len(),
        out[i].bytes == total_size(files.filter(|g: FileView| g.category == out[i].category)),
{
    let mine = |g: FileView| g.category == out[i].category;
    let kind = crate::web::of_kind(out[i].category);
    assert(mine =~= kind);
    crate::text::text_order_is_irreflexive(out[i].category.name());
    assert(crate::web::is_total(files, out[i]));
    if i < j < out.len() {
        assert(crate::web::takes_more(out[i], out[j]));
        assert(crate::web::is_total(files, out[j]));
    }
}

/// A category is shown with its name, the number of its files and their size.
pub proof fn category_is_shown_with_its_totals(totals: Seq<CategoryTotal>, i: int)
    requires
        0 <= i < totals.len(),
    ensures
        breakdown_rows(totals).len() == totals.len(),
        breakdown_rows(totals)[i] == (totals[i].category.name(), totals[i].count, byte_size(totals[i].bytes, 1)),
{
}

/// Every category that has files is shown with their number and their size.
pub proof fn every_category_is_shown(files: Seq<FileView>, rows: Seq<(Seq<char>, u64, Seq<char>)>, f: FileView)
    requires
        shows_breakdown(files, rows),
        files.contains(f),
    ensures
        exists|k: int|
            {
                let mine = files.filter(|g: FileView| g.category == f.category);
                &&& 0 <= k < rows.len()
                &&& (#[trigger] rows[k]).0 == f.category.name()
                &&& rows[k].1 == mine.len()
                &&& rows[k].2 == byte_size(total_size(mine) as u64, 1)
            },
{
    let totals = choose|totals: Seq<CategoryTotal>| #[trigger]
        is_breakdown(files, totals) && rows == breakdown_rows(totals);
    let k = choose|k: int| 0 <= k < totals.len() && (#[trigger] totals[k]).category == f.category;
    every_category_is_counted(files, totals, f, k, k);
    assert((|g: FileView| g.category == f.category) =~= (|g: FileView| g.category == totals[k].category));
    category_is_shown_with_its_totals(totals, k);
    assert(rows[k].0 == f.category.name());
}

/// The overview counts every group of copies and adds up what they waste, as long
/// as that can be counted.
pub proof fn every_group_is_counted(files: Seq<FileView>, all: Seq<GroupView>, groups: u64, text: Seq<char>)
    requires
        is_grouping(files, all),
        shows_waste(files, groups, text),
        total_waste(all) <= i64::MAX,
    ensures
        groups == all.len(),
        text == byte_size(total_waste(all) as u64, 1),
{
    crate::laws::copies::only_uncountable_waste_fails(files, all);
    let wasted = choose|wasted: u64| #[trigger]
        shown_duplicates(files, groups, wasted) && text == byte_size(wasted, 1);
    let other = choose|other: Seq<GroupView>| #[trigger]
        is_grouping(files, other) && if total_waste(other) > i64::MAX {
            groups == 0 && wasted == 0
        } else {
            groups == other.len() && wasted == total_waste(other)
        };
    groups_are_unique(files, all, other);
}

/// The groups of copies, in the order of what they waste, are fixed by the files.
pub proof fn groups_are_unique(files: Seq<FileView>, a: Seq<GroupView>, b: Seq<GroupView>)
    requires
        is_grouping(files, a),
        is_grouping(files, b),
    ensures
        a == b,
{
    assert forall|g: GroupView| #[trigger] a.contains(g) <==> b.contains(g) by {
        if a.contains(g) {
            group_is_in_every_grouping(files, a, b, g);
        }
        if b.contains(g) {
            group_is_in_every_grouping(files, b, a, g);
        }
    }
    sorted_groups_agree(a, b);
}

proof fn group_is_in_every_grouping(files: Seq<FileView>, a: Seq<GroupView>, b: Seq<GroupView>, g: GroupView)
    requires
        is_grouping(files, a),
        is_grouping(files, b),
        a.contains(g),
    ensures
        b.contains(g),
{
    let i = choose|i: int| 0 <= i < a.len() && a[i] == g;
    assert(is_group(files, a[i]));
    crate::db::listed_twice_is_shared(files, g.content_hash, g.files);
    assert(has_group(b, g.content_hash));
    let j = choose|j: int| 0 <= j < b.len() && (#[trigger] b[j]).content_hash == g.content_hash;
    assert(is_group(files, b[j]));
    crate::db::listing_is_unique(
        files,
        with_content(g.content_hash),
        FileOrder::Path,
        g.files,
        b[j].files,
    );
    assert(b[j] == g);
}

proof fn wasting_more_is_strict(a: GroupView, b: GroupView)
    ensures
        !wastes_more(a, a),
        !(wastes_more(a, b) && wastes_more(b, a)),
{
    text_order_is_irreflexive(a.content_hash);
    if wastes_more(a, b) && wastes_more(b, a) {
        crate::text::text_order_is_transitive(a.content_hash, b.content_hash, a.content_hash);
    }
}

proof fn sorted_groups_agree(a: Seq<GroupView>, b: Seq<GroupView>)
    requires
        forall|i: int, j: int| 0 <= i < j < a.len() ==> wastes_more(#[trigger] a[i], #[trigger] a[j]),
        forall|i: int, j: int| 0 <= i < j < b.len() ==> wastes_more(#[trigger] b[i], #[trigger] b[j]),
        forall|g: GroupView| #[trigger] a.contains(g) <==> b.contains(g),
    ensures
        a == b,
    decreases a.len(),
{
    if a.len() == 0 {
        if b.len() > 0 {
            assert(b.contains(b[0]));
            assert(a.contains(b[0]));
        }
        assert(a =~= b);
    } else {
        assert(a.contains(a.last()));
        assert(b.contains(a.last()));
        let k = choose|k: int| 0 <= k < b.len() && b[k] == a.last();
        assert(b.contains(b.last()));
        assert(a.contains(b.last()));
        let l = choose|l: int| 0 <= l < a.len() && a[l] == b.last();
        wasting_more_is_strict(a.last(), b.last());
        if k < b.len() - 1 {
            assert(wastes_more(b[k], b[b.len() - 1]));
            if l < a.len() - 1 {
                assert(wastes_more(a[l], a[a.len() - 1]));
            }
        }
        assert(a.last() == b.last());
        let (x, y) = (a.drop_last(), b.drop_last());
        assert forall|g: GroupView| #[trigger] x.contains(g) <==> y.contains(g) by {
            wasting_more_is_strict(a.last(), a.last());
            if x.contains(g) {
                let i = choose|i: int| 0 <= i < x.len() && x[i] == g;
                assert(a[i] == g);
                assert(wastes_more(a[i], a[a.len() - 1]));
                assert(a.contains(g));
                let j = choose|j: int| 0 <= j < b.len() && b[j] == g;
                assert(y[j] == g);
            }
            if y.contains(g) {
                let i = choose|i: int| 0 <= i < y.len() && y[i] == g;
                assert(b[i] == g);
                assert(wastes_more(b[i], b[b.len() - 1]));
                assert(b.contains(g));
                assert(a.contains(g));
                let j = choose|j: int| 0 <= j < a.len() && a[j] == g;
                assert(x[j] == g);
            }
        }
        sorted_groups_agree(x, y);
        assert(a == x.push(a.last()));
        assert(b == y.push(b.last()));
    }
}

/// The last scan that is shown is the latest time at which a file was recorded.
pub proof fn last_scan_is_the_latest(files: Seq<FileView>, text: Seq<char>)
    requires
        shows_last_scan(files, text),
    ensures
        files.len() == 0 ==> text == "Never"@,
        files.len() > 0 ==> exists|i: int|
            {
                &&& 0 <= i < files.len()
                &&& text == at_most(rfc3339((#[trigger] files[i]).scanned_at), 10)
                &&& forall|j: int|
                    0 <= j < files.len() ==> (#[trigger] files[j]).scanned_at.0 < files[i].scanned_at.0 || (
                    files[j].scanned_at.0 == files[i].scanned_at.0 && files[j].scanned_at.1
                        <= files[i].scanned_at.1)
            },
{
    let t = choose|t: Option<(int, int)>| #[trigger]
        is_last_scan(files, t) && text == match t {
            Some(last) => at_most(rfc3339(last), 10),
            None => "Never"@,
        };
    if files.len() > 0 {
        let i = choose|i: int| 0 <= i < files.len() && (#[trigger] files[i]).scanned_at == t->0;
        assert(files[i].scanned_at == t->0);
    }
}

/// The size of the copies of a group is that of the largest.
pub proof fn largest_is_a_size(files: Seq<FileView>, i: int)
    requires
        0 <= i < files.len(),
    ensures
        largest(files) >= files[i].size_bytes,
        exists|k: int| 0 <= k < files.len() && (#[trigger] files[k]).size_bytes == largest(files),
    decreases files.len(),
{
    let front = files.drop_last();
    if files.last().size_bytes > largest(front) || front.len() == 0 {
        assert(files[files.len() - 1].size_bytes == files.last().size_bytes);
        if front.len() == 0 {
            assert(largest(front) == 0);
            assert(files[0].size_bytes == largest(files));
        } else {
            assert(files[files.len() - 1].size_bytes == largest(files));
        }
        if i < files.len() - 1 {
            assert(front[i] == files[i]);
            largest_is_a_size(front, i);
        }
    } else {
        if i < files.len() - 1 {
            assert(front[i] == files[i]);
            largest_is_a_size(front, i);
        } else {
            largest_is_a_size(front, 0);
        }
        let k = choose|k: int| 0 <= k < front.len() && (#[trigger] front[k]).size_bytes == largest(front);
        assert(files[k].size_bytes == largest(files));
    }
}

/// The page of duplicates shows every group, the one of the largest files first.
pub proof fn every_group_is_shown(
    files: Seq<FileView>,
    groups: Seq<GroupView>,
    ordered: Seq<GroupView>,
    page: DuplicatesPage,
    g: int,
    h: int,
)
    requires
        is_grouping(files, groups),
        is_page_order(groups, ordered),
        shows_groups(page, ordered),
        0 <= g < ordered.len(),
    ensures
        page.groups@.len() == groups.len(),
        page.group_count == groups.len(),
        forall|x: GroupView| #[trigger] groups.contains(x) <==> ordered.contains(x),
        g < h < ordered.len() ==> largest(ordered[g].files) >= largest(ordered[h].files),
        page.groups@[g].hash@ == ordered[g].content_hash,
        page.groups@[g].file_count == ordered[g].files.len(),
        page.groups@[g].delete_count == ordered[g].files.len() - 1,
        page.groups@[g].size_each@ == byte_size(largest(ordered[g].files), 1),
        page.groups@[g].wasted@ == byte_size(
            (largest(ordered[g].files) * (ordered[g].files.len() - 1)) as u64,
            1,
        ),
        page.groups@[g].paths@.len() == ordered[g].files.len(),
        page.groups@[g].hash_preview@ == at_most(ordered[g].content_hash, 12),
        page.total_wasted@ == byte_size(page_total(ordered) as u64, 1),
{
    assert(shows_group(page.groups@[g], ordered[g]));
    every_copy_is_shown(page.groups@[g], ordered[g], 0);
    if g < h < ordered.len() {
        assert(crate::web::shown_first(ordered[g], ordered[h]));
    }
}

/// A group is shown with all its copies, the newest first, and the first alone is
/// marked as the newest.
pub proof fn every_copy_is_shown(row: DupGroupRow, g: GroupView, i: int)
    requires
        shows_group(row, g),
    ensures
        row.paths@.len() == g.files.len(),
        0 <= i < g.files.len() ==> exists|k: int|
            0 <= k < row.paths@.len() && (#[trigger] row.paths@[k]).path@ == g.files[i].path
                && row.paths@[k].modified_at@ == at_most(rfc3339(g.files[i].modified_at), 10),
        forall|k: int| 0 <= k < row.paths@.len() ==> (#[trigger] row.paths@[k]).is_newest == (k == 0),
        g.files.len() > 0 ==> exists|k: int|
            {
                &&& 0 <= k < g.files.len()
                &&& (#[trigger] g.files[k]).path == row.paths@[0].path@
                &&& 0 <= i < g.files.len() ==> g.files[k].modified_at.0 > g.files[i].modified_at.0 || (
                g.files[k].modified_at.0 == g.files[i].modified_at.0 && g.files[k].modified_at.1
                    >= g.files[i].modified_at.1)
            },
{
    let infos = path_infos(row.paths@);
    let sorted = choose|sorted: Seq<FileView>| #[trigger]
        is_newest_first(g.files, sorted) && infos == shown_paths(sorted);
    assert(infos.len() == row.paths@.len());
    assert forall|k: int| 0 <= k < row.paths@.len() implies (#[trigger] row.paths@[k]).is_newest == (k == 0)
        && row.paths@[k].path@ == sorted[k].path && row.paths@[k].modified_at@ == at_most(
        rfc3339(sorted[k].modified_at),
        10,
    ) by {
        assert(infos[k] == shown_paths(sorted)[k]);
    }
    if 0 <= i < g.files.len() {
        assert(g.files.contains(g.files[i]));
        assert(sorted.contains(g.files[i]));
        let k = choose|k: int| 0 <= k < sorted.len() && sorted[k] == g.files[i];
        assert(row.paths@[k].path@ == g.files[i].path);
        if k > 0 {
            assert(newer(sorted[0], sorted[k]));
        }
    }
    if g.files.len() > 0 {
        assert(sorted.contains(sorted[0]));
        assert(g.files.contains(sorted[0]));
        let k = choose|k: int| 0 <= k < g.files.len() && g.files[k] == sorted[0];
        assert(row.paths@[0].path@ == sorted[0].path);
        assert(g.files[k].path == row.paths@[0].path@);
    }
}

/// What the page of duplicates says is wasted in all is what each group wastes,
/// added up.
pub proof fn shown_waste_adds_up(a: Seq<GroupView>, b: Seq<GroupView>, g: GroupView)
    ensures
        page_total(a + b) == page_total(a) + page_total(b),
        page_total(seq![g]) == largest(g.files) * (g.files.len() - 1),
    decreases b.len(),
{
    assert(seq![g].drop_last() == Seq::<GroupView>::empty());
    assert(page_total(seq![g].drop_last()) == 0);
    assert(page_waste(g) == largest(g.files) * (g.files.len() - 1));
    if b.len() == 0 {
        assert(a + b == a);
    } else {
        shown_waste_adds_up(a, b.drop_last(), g);
        assert((a + b).drop_last() == a + b.drop_last());
    }
}

/// The search of the dashboard is for files that are there and have the text in
/// their name or path, whatever the case of its letters, and are of the category
/// where one is chosen.
pub proof fn page_search_is_by_name_and_category(query: Seq<char>, category: Option<Seq<char>>, f: FileView)
    ensures
        found_by(query, category)(f) <==> f.is_present && (has_text(
            ascii_folded(f.name),
            ascii_folded(query),
        ) || has_text(ascii_folded(f.path), ascii_folded(query))) && (category is Some
            ==> f.category.name() == category->0),
        search_row(f).0 == f.name,
        search_row(f).1 == f.path,
        search_row(f).2 == byte_size(f.size_bytes, 1),
        search_row(f).3 == f.category.name(),
        search_row(f).4 == at_most(rfc3339(f.modified_at), 10),
{
}

/// What the page of backups shows of one is what is recorded of it.
pub proof fn backup_is_shown_as_recorded(row: BackupRow, b: BackupView, ratio: Seq<char>)
    requires
        shows_backup(row, b, ratio),
    ensures
        b.id == Some(row.id),
        row.label@ == b.label,
        row.archive_path@ == b.archive_path,
        row.created_at@ == at_most(rfc3339(b.created_at), 19),
        row.original@ == byte_size(b.original_bytes, 1),
        row.compressed@ == byte_size(b.compressed_bytes, 1),
        b.original_bytes > 0 ==> row.ratio@ == ratio + "%"@,
{
}

/// The sizes that the page of backups shows in all are those of the backups, added
/// up.
pub proof fn backup_sizes_add_up(a: Seq<BackupView>, c: Seq<BackupView>, b: BackupView)
    ensures
        original_total(a + c) == original_total(a) + original_total(c),
        compressed_total(a + c) == compressed_total(a) + compressed_total(c),
        original_total(seq![b]) == b.original_bytes,
        compressed_total(seq![b]) == b.compressed_bytes,
    decreases c.len(),
{
    assert(seq![b].drop_last() == Seq::<BackupView>::empty());
    assert(original_total(seq![b].drop_last()) == 0);
    assert(compressed_total(seq![b].drop_last()) == 0);
    if c.len() == 0 {
        assert(a + c == a);
    } else {
        backup_sizes_add_up(a, c.drop_last(), b);
        assert((a + c).drop_last() == a + c.drop_last());
    }
}

/// The search of the dashboard shows up to a hundred files.
pub proof fn page_shows_up_to_a_hundred()
    ensures
        SEARCH_LIMIT == 100,
{
}

} // verus!
