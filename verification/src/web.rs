//! What the dashboard shows and does.

use vstd::prelude::*;
use vstd::string::*;

use crate::backup::{manifest_of, manifest_path_of, saved_bytes};
use crate::cli::BackupCreateArgs;
use crate::db::{
    at_most, get_all_present_files, get_backup, get_duplicate_groups, in_path_order, is_group,
    is_grouping, is_listing, is_overflow, mark_absent, named, present, remove_backup, shared,
    waste_overflows, wastes_more, with_content, with_presence, without_id, Database, FileOrder,
};
use crate::dedup::{
    deleted_count, deletion_errors, first_chars, tally_deletions, total_waste, DeleteOutcome,
};
use crate::error::{FortressError, FortressResult};
use crate::models::{
    backup_views, checked_total, file_views, group_views, optional_text, total_size, BackupRecord,
    BackupView, DuplicateGroup, FileCategory, FileRecord, FileView, GroupView,
};
use crate::order::{
    ahead, is_stable_order, lists, stable_order, stable_order_is_permutation, Descending, SortKey,
};
use crate::sizes::{byte_size, fmt_bytes};
use crate::text::{
    joined, same_text, text_before, text_order_is_irreflexive, text_order_is_total, texts, trim,
    trimmed,
};
use crate::time::{earlier, rfc3339, to_rfc3339, Timestamp};

verus! {

// ---------------------------------------------------------------------------
// Copies, the newest first
// ---------------------------------------------------------------------------

/// Whether the file `a` is shown before the file `b`: it was modified later, or
/// at the same time and its path is first.
pub open spec fn newer(a: FileView, b: FileView) -> bool {
    earlier(b.modified_at, a.modified_at) || (a.modified_at == b.modified_at && text_before(a.path, b.path))
}

/// Whether `out` lists the same files as `files`, the newest first.
pub open spec fn is_newest_first(files: Seq<FileView>, out: Seq<FileView>) -> bool {
    &&& out.len() == files.len()
    &&& forall|i: int, j: int| 0 <= i < j < out.len() ==> newer(#[trigger] out[i], #[trigger] out[j])
    &&& forall|f: FileView| #[trigger] out.contains(f) <==> files.contains(f)
}

/// The files, the newest first.
pub fn newest_first(files: &Vec<FileRecord>) -> (r: Vec<FileRecord>)
    requires
        in_path_order(file_views(files@)),
    ensures
        is_newest_first(file_views(files@), file_views(r@)),
{
    let ghost a = file_views(files@);
    let mut keys: Vec<Descending<Timestamp>> = Vec::new();
    for i in 0..files.len()
        invariant
            a == file_views(files@),
            keys@.len() == i,
            forall|k: int| 0 <= k < i ==> (#[trigger] keys@[k]).0@ == a[k].modified_at,
    {
        assert(a[i as int] == files@[i as int]@);
        keys.push(Descending(files[i].modified_at));
    }
    let p: Vec<usize> = stable_order(&keys);
    let mut out: Vec<FileRecord> = Vec::new();
    for i in 0..p.len()
        invariant
            a == file_views(files@),
            keys@.len() == files@.len(),
            is_stable_order(keys@, p@),
            out@.len() == i,
            forall|k: int| 0 <= k < i ==> (#[trigger] out@[k])@ == a[p@[k] as int],
    {
        assert(a[p@[i as int] as int] == files@[p@[i as int] as int]@);
        out.push(files[p[i]].clone());
    }
    proof {
        stable_order_is_permutation(keys@, p@);
        let b = file_views(out@);
        assert forall|k: int| 0 <= k < b.len() implies #[trigger] b[k] == a[p@[k] as int] by {
            assert(b[k] == out@[k]@);
        }
        assert forall|i: int, j: int| 0 <= i < j < b.len() implies newer(#[trigger] b[i], #[trigger] b[j]) by {
            assert(ahead(keys@, p@[i] as int, p@[j] as int));
            assert(keys@[p@[i] as int].0@ == b[i].modified_at);
            assert(keys@[p@[j] as int].0@ == b[j].modified_at);
        }
        assert forall|f: FileView| #[trigger] b.contains(f) <==> a.contains(f) by {
            if b.contains(f) {
                let k = choose|k: int| 0 <= k < b.len() && b[k] == f;
                assert(a[p@[k] as int] == f);
            }
            if a.contains(f) {
                let j = choose|j: int| 0 <= j < a.len() && a[j] == f;
                assert(lists(p@, j));
                let k = choose|k: int| 0 <= k < p@.len() && #[trigger] p@[k] == j;
                assert(b[k] == f);
            }
        }
    }
    out
}

/// The paths of all files but the first.
pub open spec fn paths_but_first(files: Seq<FileView>) -> Seq<Seq<char>> {
    files.skip(1).map_values(|f: FileView| f.path)
}

/// Whether `paths` are the files to delete so that only the newest of those with
/// the given hash is kept: all but the newest, if there are two or more.
pub open spec fn keeps_newest(files: Seq<FileView>, hash: Seq<char>, paths: Seq<Seq<char>>) -> bool {
    exists|copies: Seq<FileView>, sorted: Seq<FileView>| #[trigger]
        is_listing(files, with_content(hash), FileOrder::Path, copies) && #[trigger] is_newest_first(
            copies,
            sorted,
        ) && paths == if sorted.len() < 2 {
            Seq::empty()
        } else {
            paths_but_first(sorted)
        }
}

/// The files to delete so that only the newest of those with the given hash is
/// kept.
pub fn plan_keep_newest(db: &Database, hash: &str) -> (r: Vec<String>)
    requires
        db.wf(),
    ensures
        keeps_newest(db.files(), hash@, texts(r@)),
{
    let copies: Vec<FileRecord> = crate::db::get_files_with_hash(db, hash);
    let ghost cv = file_views(copies@);
    assert(in_path_order(cv)) by {
        assert(forall|i: int, j: int|
            0 <= i < j < cv.len() ==> FileOrder::Path.lists_first(#[trigger] cv[i], #[trigger] cv[j]));
    }
    let sorted: Vec<FileRecord> = newest_first(&copies);
    let ghost sv = file_views(sorted@);
    let mut paths: Vec<String> = Vec::new();
    if sorted.len() < 2 {
        assert(texts(paths@) == Seq::<Seq<char>>::empty());
        return paths;
    }
    let ghost wanted = paths_but_first(sv);
    for i in 1..sorted.len()
        invariant
            sorted@.len() >= 2,
            sv == file_views(sorted@),
            wanted == paths_but_first(sv),
            texts(paths@) == wanted.take(i - 1),
    {
        let path: String = sorted[i].path.clone();
        proof {
            assert(sv[i as int] == sorted@[i as int]@);
            assert(sv.skip(1)[i - 1] == sv[i as int]);
            assert(texts(paths@.push(path)) == texts(paths@).push(path@));
        }
        paths.push(path);
    }
    assert(wanted.take(wanted.len() as int) == wanted);
    paths
}

/// The newest copy is kept: every file that is deleted was modified no later
/// than one copy that is not deleted.
pub proof fn newest_copy_is_kept(db: Database, hash: Seq<char>, paths: Seq<Seq<char>>, i: int)
    requires
        db.wf(),
        keeps_newest(db.files(), hash, paths),
        0 <= i < paths.len(),
    ensures
        exists|kept: FileView, gone: FileView|
            #![trigger db.files().contains(kept), db.files().contains(gone)]
            {
                &&& db.files().contains(kept)
                &&& with_content(hash)(kept)
                &&& !paths.contains(kept.path)
                &&& db.files().contains(gone)
                &&& with_content(hash)(gone)
                &&& gone.path == paths[i]
                &&& !earlier(kept.modified_at, gone.modified_at)
            },
{
    let files = db.files();
    let (copies, sorted) = choose|copies: Seq<FileView>, sorted: Seq<FileView>| #[trigger]
        is_listing(files, with_content(hash), FileOrder::Path, copies) && #[trigger] is_newest_first(
            copies,
            sorted,
        ) && paths == if sorted.len() < 2 {
            Seq::empty()
        } else {
            paths_but_first(sorted)
        };
    let kept = sorted[0];
    let gone = sorted[i + 1];
    assert(sorted.contains(kept) && sorted.contains(gone));
    assert(copies.contains(kept) && copies.contains(gone));
    assert(sorted.skip(1)[i] == gone);
    assert(newer(kept, gone));
    assert forall|k: int| 0 <= k < paths.len() implies #[trigger] paths[k] != kept.path by {
        let other = sorted[k + 1];
        assert(sorted.skip(1)[k] == other);
        assert(newer(kept, other));
        assert(sorted.contains(other));
        assert(copies.contains(other));
        if other.path == kept.path {
            let a = choose|a: int| 0 <= a < files.len() && files[a] == kept;
            let b = choose|b: int| 0 <= b < files.len() && files[b] == other;
            assert(files.contains(kept) && files.contains(other));
            crate::db::path_is_unique(db, a, b);
            text_order_is_irreflexive(kept.path);
        }
    }
    assert(files.contains(kept) && files.contains(gone));
}

/// The files once those that were deleted among the first `n` are gone.
pub open spec fn after_deletions(
    files: Seq<FileView>,
    paths: Seq<Seq<char>>,
    outcomes: Seq<DeleteOutcome>,
    n: int,
) -> Seq<FileView>
    decreases n,
{
    if n <= 0 {
        files
    } else {
        let before = after_deletions(files, paths, outcomes, n - 1);
        if outcomes[n - 1] is Deleted {
            before.map_values(
                |f: FileView|
                    if f.path == paths[n - 1] {
                        with_presence(false)(f)
                    } else {
                        f
                    },
            )
        } else {
            before
        }
    }
}

/// Records what came of deleting files: those that were deleted are gone. Gives
/// how many they are, and the errors of the others.
pub fn record_deletions(db: &mut Database, paths: &Vec<String>, outcomes: &Vec<DeleteOutcome>) -> (r: (
    usize,
    Vec<String>,
))
    requires
        old(db).wf(),
        paths@.len() == outcomes@.len(),
    ensures
        final(db).wf(),
        final(db).files() == after_deletions(
            old(db).files(),
            texts(paths@),
            outcomes@,
            outcomes@.len() as int,
        ),
        final(db).last_file_id() == old(db).last_file_id(),
        final(db).backups() == old(db).backups(),
        final(db).last_backup_id() == old(db).last_backup_id(),
        r.0 == deleted_count(outcomes@, outcomes@.len() as int),
        texts(r.1@) == deletion_errors(texts(paths@), outcomes@, outcomes@.len() as int),
{
    let ghost start = db.files();
    for i in 0..outcomes.len()
        invariant
            paths@.len() == outcomes@.len(),
            start == old(db).files(),
            db.wf(),
            db.files() == after_deletions(start, texts(paths@), outcomes@, i as int),
            db.last_file_id() == old(db).last_file_id(),
            db.backups() == old(db).backups(),
            db.last_backup_id() == old(db).last_backup_id(),
    {
        let ghost before = db.files();
        assert(texts(paths@)[i as int] == paths@[i as int]@);
        match &outcomes[i] {
            DeleteOutcome::Deleted => {
                mark_absent(db, paths[i].as_str());
                assert(db.files() == after_deletions(start, texts(paths@), outcomes@, i + 1));
            },
            DeleteOutcome::Kept(_) => {},
        }
    }
    tally_deletions(paths, outcomes)
}

/// The hashes that two or more files share, each once.
pub fn duplicate_hashes(db: &Database) -> (r: FortressResult<Vec<String>>)
    requires
        db.wf(),
    ensures
        r is Err <==> waste_overflows(db.files()),
        r matches Ok(hashes) ==> forall|h: Seq<char>| #[trigger] texts(hashes@).contains(h) <==> shared(
            db.files(),
            h,
        ),
        r matches Ok(hashes) ==> texts(hashes@).no_duplicates(),
        r matches Err(e) ==> is_overflow(e),
{
    let groups: Vec<DuplicateGroup> = match get_duplicate_groups(db) {
        Ok(g) => g,
        Err(e) => {
            return Err(e);
        },
    };
    let ghost gv = group_views(groups@);
    let mut hashes: Vec<String> = Vec::new();
    for i in 0..groups.len()
        invariant
            gv == group_views(groups@),
            hashes@.len() == i,
            forall|k: int| 0 <= k < i ==> (#[trigger] hashes@[k])@ == gv[k].content_hash,
    {
        assert(gv[i as int] == groups@[i as int]@);
        hashes.push(groups[i].content_hash.clone());
    }
    proof {
        let hv = texts(hashes@);
        assert forall|h: Seq<char>| #[trigger] hv.contains(h) <==> shared(db.files(), h) by {
            if hv.contains(h) {
                let k = choose|k: int| 0 <= k < hv.len() && hv[k] == h;
                assert(hv[k] == hashes@[k]@);
                assert(is_group(db.files(), gv[k]));
                crate::db::listed_twice_is_shared(db.files(), h, gv[k].files);
            }
            if shared(db.files(), h) {
                assert(crate::db::has_group(gv, h));
                let k = choose|k: int| 0 <= k < gv.len() && (#[trigger] gv[k]).content_hash == h;
                assert(hv[k] == hashes@[k]@);
                assert(hv[k] == h);
            }
        }
        groups_have_own_hashes(db.files(), gv);
        assert forall|i: int, j: int| 0 <= i < hv.len() && 0 <= j < hv.len() && i != j implies hv[i]
            != hv[j] by {
            assert(hv[i] == hashes@[i]@ && hv[j] == hashes@[j]@);
            if i < j {
                assert(gv[i].content_hash != gv[j].content_hash);
            } else {
                assert(gv[j].content_hash != gv[i].content_hash);
            }
        }
    }
    Ok(hashes)
}

// ---------------------------------------------------------------------------
// Backups
// ---------------------------------------------------------------------------

/// A label from a form: nothing where it is blank.
pub fn form_label(label: Option<String>) -> (r: Option<String>)
    ensures
        r == match label {
            Some(l) => if trimmed(l@).len() == 0 {
                None
            } else {
                Some(l)
            },
            None => None,
        },
{
    match label {
        Some(l) => if trim(l.as_str()).as_str().is_empty() {
            None
        } else {
            Some(l)
        },
        None => None,
    }
}

/// The arguments of a backup that is asked for on the dashboard: all files, at
/// the usual compression.
pub fn form_backup(label: Option<String>) -> (r: BackupCreateArgs)
    ensures
        optional_text(r.label) == match label {
            Some(l) => if trimmed(l@).len() == 0 {
                None
            } else {
                Some(l@)
            },
            None => None,
        },
        r.category is None,
        r.compression_level == 3,
        !r.dry_run,
{
    BackupCreateArgs { label: form_label(label), category: None, compression_level: 3, dry_run: false }
}

/// Forgets the backup with the given id, and gives the paths of its archive and
/// its manifest, which are to be deleted; nothing where there is no such backup.
pub fn delete_backup(db: &mut Database, id: i64) -> (r: Option<(String, String)>)
    requires
        old(db).wf(),
    ensures
        final(db).wf(),
        final(db).files() == old(db).files(),
        final(db).last_file_id() == old(db).last_file_id(),
        final(db).last_backup_id() == old(db).last_backup_id(),
        final(db).backups() == without_id(old(db).backups(), id),
        match r {
            Some(paths) => exists|i: int|
                {
                    &&& 0 <= i < old(db).backups().len()
                    &&& (#[trigger] old(db).backups()[i]).id == Some(id)
                    &&& paths.0@ == old(db).backups()[i].archive_path
                    &&& paths.1@ == manifest_of(paths.0@)
                },
            None => forall|i: int|
                0 <= i < old(db).backups().len() ==> (#[trigger] old(db).backups()[i]).id != Some(id),
        },
{
    let ghost before = db.backups();
    let paths: Option<(String, String)> = match get_backup(db, id) {
        Some(b) => {
            proof {
                let i = choose|i: int| 0 <= i < before.len() && before[i] == b@;
                assert(before[i].id == Some(id));
            }
            let manifest: String = manifest_path_of(b.archive_path.as_str());
            Some((b.archive_path, manifest))
        },
        None => None,
    };
    remove_backup(db, id);
    paths
}

// ---------------------------------------------------------------------------
// The overview
// ---------------------------------------------------------------------------

/// The files of one category.
#[derive(Clone, Copy, Debug)]
pub struct CategoryTotal {
    pub category: FileCategory,
    pub count: u64,
    pub bytes: u64,
}

/// The files of a category.
pub open spec fn of_kind(category: FileCategory) -> spec_fn(FileView) -> bool {
    |f: FileView| f.category == category
}

/// Whether a category is listed before another: its files take more bytes, or as
/// many and its name is first.
pub open spec fn takes_more(a: CategoryTotal, b: CategoryTotal) -> bool {
    a.bytes > b.bytes || (a.bytes == b.bytes && text_before(a.category.name(), b.category.name()))
}

/// Whether `t` counts the files of its category.
pub open spec fn is_total(files: Seq<FileView>, t: CategoryTotal) -> bool {
    let mine = files.filter(of_kind(t.category));
    mine.len() > 0 && t.count == mine.len() && t.bytes == total_size(mine)
}

/// Whether `out` counts the files of every category that has any, the one that
/// takes the most bytes first.
pub open spec fn is_breakdown(files: Seq<FileView>, out: Seq<CategoryTotal>) -> bool {
    &&& forall|i: int| 0 <= i < out.len() ==> is_total(files, #[trigger] out[i])
    &&& forall|i: int, j: int| 0 <= i < j < out.len() ==> takes_more(#[trigger] out[i], #[trigger] out[j])
    &&& forall|f: FileView| #[trigger]
        files.contains(f) ==> exists|i: int| 0 <= i < out.len() && (#[trigger] out[i]).category == f.category
}

/// Counts the files of a category, if there are any.
fn count_category(files: &Vec<FileRecord>, category: FileCategory) -> (r: Option<CategoryTotal>)
    requires
        total_size(file_views(files@)) <= u64::MAX,
    ensures
        match r {
            Some(t) => t.category == category && is_total(file_views(files@), t),
            None => file_views(files@).filter(of_kind(category)).len() == 0,
        },
{
    let ghost all = file_views(files@);
    let ghost kind = of_kind(category);
    let mut count: u64 = 0;
    let mut bytes: u64 = 0;
    for i in 0..files.len()
        invariant
            all == file_views(files@),
            kind == of_kind(category),
            total_size(all) <= u64::MAX,
            count == all.take(i as int).filter(kind).len(),
            count <= i,
            bytes == total_size(all.take(i as int).filter(kind)),
            bytes <= total_size(all.take(i as int)),
    {
        proof {
            assert(all.take(i + 1).drop_last() == all.take(i as int));
            assert(all[i as int] == files@[i as int]@);
            reveal_with_fuel(Seq::filter, 1);
            crate::models::total_size_grows(all, i + 1);
            assert(all.take(i as int).filter(kind).push(all[i as int]).drop_last() == all.take(i as int).filter(kind));
        }
        if files[i].category == category {
            count = count + 1;
            bytes = bytes + files[i].size_bytes;
        }
    }
    assert(all.take(all.len() as int) == all);
    if count == 0 {
        None
    } else {
        Some(CategoryTotal { category, count, bytes })
    }
}

/// The categories in the order of their names.
pub open spec fn category_at(i: int) -> FileCategory {
    if i == 0 {
        FileCategory::Archive
    } else if i == 1 {
        FileCategory::Audio
    } else if i == 2 {
        FileCategory::Code
    } else if i == 3 {
        FileCategory::Document
    } else if i == 4 {
        FileCategory::Image
    } else if i == 5 {
        FileCategory::Other
    } else {
        FileCategory::Video
    }
}

fn nth_category(i: usize) -> (r: FileCategory)
    requires
        i < 7,
    ensures
        r == category_at(i as int),
{
    match i {
        0 => FileCategory::Archive,
        1 => FileCategory::Audio,
        2 => FileCategory::Code,
        3 => FileCategory::Document,
        4 => FileCategory::Image,
        5 => FileCategory::Other,
        _ => FileCategory::Video,
    }
}

proof fn category_names_ascend(i: int, j: int)
    requires
        0 <= i < j < 7,
    ensures
        text_before(category_at(i).name(), category_at(j).name()),
{
    reveal_strlit("archive");
    reveal_strlit("audio");
    reveal_strlit("code");
    reveal_strlit("document");
    reveal_strlit("image");
    reveal_strlit("other");
    reveal_strlit("video");
    assert("archive"@[0] == 'a' && "audio"@[0] == 'a' && "code"@[0] == 'c' && "document"@[0] == 'd'
        && "image"@[0] == 'i' && "other"@[0] == 'o' && "video"@[0] == 'v');
    if i == 0 && j == 1 {
        assert("archive"@.drop_first()[0] == 'r' && "audio"@.drop_first()[0] == 'u');
        reveal_with_fuel(text_before, 2);
    }
}

/// Counts the files of every category that has any.
pub fn category_breakdown(files: &Vec<FileRecord>) -> (r: Vec<CategoryTotal>)
    requires
        total_size(file_views(files@)) <= u64::MAX,
    ensures
        is_breakdown(file_views(files@), r@),
{
    let ghost all = file_views(files@);
    let mut totals: Vec<CategoryTotal> = Vec::new();
    let ghost mut from: Seq<int> = Seq::empty();
    for i in 0..7usize
        invariant
            all == file_views(files@),
            total_size(all) <= u64::MAX,
            from.len() == totals@.len(),
            forall|k: int| 0 <= k < from.len() ==> 0 <= #[trigger] from[k] < i && totals@[k].category
                == category_at(from[k]) && is_total(all, totals@[k]),
            forall|k: int, l: int| 0 <= k < l < from.len() ==> #[trigger] from[k] < #[trigger] from[l],
            forall|c: int|
                0 <= c < i && all.filter(of_kind(#[trigger] category_at(c))).len() > 0 ==> from.contains(c),
    {
        match count_category(files, nth_category(i)) {
            Some(t) => {
                proof {
                    let longer = from.push(i as int);
                    assert forall|c: int|
                        0 <= c < i + 1 && all.filter(of_kind(#[trigger] category_at(c))).len() > 0 implies longer.contains(
                        c,
                    ) by {
                        if c < i {
                            let k = choose|k: int| 0 <= k < from.len() && from[k] == c;
                            assert(longer[k] == c);
                        } else {
                            assert(longer[from.len() as int] == c);
                        }
                    }
                    from = longer;
                }
                totals.push(t);
            },
            None => {},
        }
    }
    let mut keys: Vec<Descending<u64>> = Vec::new();
    for i in 0..totals.len()
        invariant
            keys@.len() == i,
            forall|k: int| 0 <= k < i ==> (#[trigger] keys@[k]).0 == totals@[k].bytes,
    {
        keys.push(Descending(totals[i].bytes));
    }
    let p: Vec<usize> = stable_order(&keys);
    let mut out: Vec<CategoryTotal> = Vec::new();
    for i in 0..p.len()
        invariant
            is_stable_order(keys@, p@),
            keys@.len() == totals@.len(),
            out@.len() == i,
            forall|k: int| 0 <= k < i ==> #[trigger] out@[k] == totals@[p@[k] as int],
    {
        out.push(totals[p[i]]);
    }
    proof {
        stable_order_is_permutation(keys@, p@);
        assert forall|i: int| 0 <= i < out@.len() implies is_total(all, #[trigger] out@[i]) by {
            assert(out@[i] == totals@[p@[i] as int]);
            assert(0 <= from[p@[i] as int]);
        }
        assert forall|i: int, j: int| 0 <= i < j < out@.len() implies takes_more(
            #[trigger] out@[i],
            #[trigger] out@[j],
        ) by {
            assert(out@[i] == totals@[p@[i] as int] && out@[j] == totals@[p@[j] as int]);
            assert(ahead(keys@, p@[i] as int, p@[j] as int));
            assert(keys@[p@[i] as int].0 == out@[i].bytes && keys@[p@[j] as int].0 == out@[j].bytes);
            if out@[i].bytes == out@[j].bytes {
                assert(from[p@[i] as int] < from[p@[j] as int]);
                category_names_ascend(from[p@[i] as int], from[p@[j] as int]);
            }
        }
        assert forall|f: FileView| #[trigger] all.contains(f) implies exists|i: int|
            0 <= i < out@.len() && (#[trigger] out@[i]).category == f.category by {
            let c = category_index(f.category);
            assert(category_at(c) == f.category);
            let x = choose|x: int| 0 <= x < all.len() && all[x] == f;
            all.lemma_filter_contains(of_kind(f.category), x);
            assert(all.filter(of_kind(category_at(c))).len() > 0);
            assert(from.contains(c));
            let k = choose|k: int| 0 <= k < from.len() && from[k] == c;
            assert(totals@[k].category == f.category);
            assert(lists(p@, k));
            let i = choose|i: int| 0 <= i < p@.len() && #[trigger] p@[i] == k;
            assert(out@[i].category == f.category);
        }
    }
    out
}

spec fn category_index(c: FileCategory) -> int {
    match c {
        FileCategory::Archive => 0,
        FileCategory::Audio => 1,
        FileCategory::Code => 2,
        FileCategory::Document => 3,
        FileCategory::Image => 4,
        FileCategory::Other => 5,
        FileCategory::Video => 6,
    }
}

/// Whether `t` is the latest time at which a file was recorded; nothing where
/// there are no files.
pub open spec fn is_last_scan(files: Seq<FileView>, t: Option<(int, int)>) -> bool {
    match t {
        Some(last) => {
            &&& exists|i: int| 0 <= i < files.len() && (#[trigger] files[i]).scanned_at == last
            &&& forall|i: int| 0 <= i < files.len() ==> !earlier(last, (#[trigger] files[i]).scanned_at)
        },
        None => files.len() == 0,
    }
}

/// The latest time at which a file was recorded.
pub fn last_scan(files: &Vec<FileRecord>) -> (r: Option<Timestamp>)
    ensures
        is_last_scan(
            file_views(files@),
            match r {
                Some(t) => Some(t@),
                None => None,
            },
        ),
{
    let ghost all = file_views(files@);
    if files.len() == 0 {
        return None;
    }
    let mut last: Timestamp = files[0].scanned_at;
    assert(all[0] == files@[0]@);
    let ghost mut at: int = 0;
    for i in 0..files.len()
        invariant
            all == file_views(files@),
            0 <= at < all.len(),
            all[at].scanned_at == last@,
            forall|k: int| 0 <= k < i ==> !earlier(last@, (#[trigger] all[k]).scanned_at),
    {
        assert(all[i as int] == files@[i as int]@);
        if last.is_before(&files[i].scanned_at) {
            last = files[i].scanned_at;
            proof {
                at = i as int;
            }
        }
    }
    Some(last)
}

/// What the overview shows.
#[derive(Debug)]
pub struct Overview {
    /// The number of files that are there.
    pub total_files: u64,
    /// Their sizes, added up.
    pub total_bytes: String,
    /// The number of groups of files with the same contents.
    pub duplicate_groups: u64,
    /// The bytes that all copies but one take.
    pub wasted_bytes: String,
    /// The date on which a file was last recorded, or `Never`.
    pub last_scan: String,
    /// The categories that have files.
    pub categories: Vec<CategoryRow>,
}

/// A row of the table of categories.
#[derive(Debug)]
pub struct CategoryRow {
    pub name: String,
    pub count: u64,
    pub bytes: String,
}

/// What the rows of the table of categories say.
pub open spec fn category_rows(rows: Seq<CategoryRow>) -> Seq<(Seq<char>, u64, Seq<char>)> {
    rows.map_values(|r: CategoryRow| (r.name@, r.count, r.bytes@))
}

/// What the rows of a breakdown say.
pub open spec fn breakdown_rows(totals: Seq<CategoryTotal>) -> Seq<(Seq<char>, u64, Seq<char>)> {
    totals.map_values(|t: CategoryTotal| (t.category.name(), t.count, byte_size(t.bytes, 1)))
}

/// The number of groups and their waste; nothing where they cannot be counted.
pub open spec fn shown_duplicates(files: Seq<FileView>, groups: u64, wasted: u64) -> bool {
    if waste_overflows(files) {
        groups == 0 && wasted == 0
    } else {
        exists|all: Seq<GroupView>| #[trigger]
            is_grouping(files, all) && if total_waste(all) > i64::MAX {
                groups == 0 && wasted == 0
            } else {
                groups == all.len() && wasted == total_waste(all)
            }
    }
}

/// Whether a number of groups and the text of their waste are what is shown.
pub open spec fn shows_waste(files: Seq<FileView>, groups: u64, text: Seq<char>) -> bool {
    exists|wasted: u64| #[trigger] shown_duplicates(files, groups, wasted) && text == byte_size(wasted, 1)
}

/// Whether a text is the date on which a file was last recorded, or `Never`.
pub open spec fn shows_last_scan(files: Seq<FileView>, text: Seq<char>) -> bool {
    exists|t: Option<(int, int)>| #[trigger]
        is_last_scan(files, t) && text == match t {
            Some(last) => at_most(rfc3339(last), 10),
            None => "Never"@,
        }
}

/// Whether the rows are those of the categories that have files.
pub open spec fn shows_breakdown(files: Seq<FileView>, rows: Seq<(Seq<char>, u64, Seq<char>)>) -> bool {
    exists|totals: Seq<CategoryTotal>| #[trigger]
        is_breakdown(files, totals) && rows == breakdown_rows(totals)
}

fn count_duplicates(db: &Database) -> (r: (u64, u64))
    requires
        db.wf(),
    ensures
        shown_duplicates(db.files(), r.0, r.1),
{
    match get_duplicate_groups(db) {
        Ok(groups) => {
            let ghost gv = group_views(groups@);
            assert(is_grouping(db.files(), gv));
            match crate::dedup::count_waste(&groups) {
                Some(n) => if n <= i64::MAX as u64 {
                    (groups.len() as u64, n)
                } else {
                    (0, 0)
                },
                None => (0, 0),
            }
        },
        Err(_) => (0, 0),
    }
}

/// What the overview shows. It fails only where the sizes of the files add up to
/// more than the database can hold.
pub fn query_overview(db: &Database) -> (r: FortressResult<Overview>)
    requires
        db.wf(),
    ensures
        exists|there: Seq<FileView>| #[trigger]
            is_listing(db.files(), present(), FileOrder::Path, there) && match r {
                Ok(o) => {
                    &&& total_size(there) <= i64::MAX
                    &&& o.total_files == there.len()
                    &&& o.total_bytes@ == byte_size(total_size(there) as u64, 1)
                    &&& shows_waste(db.files(), o.duplicate_groups, o.wasted_bytes@)
                    &&& shows_last_scan(db.files(), o.last_scan@)
                    &&& shows_breakdown(there, category_rows(o.categories@))
                },
                Err(e) => total_size(there) > i64::MAX && is_overflow(e),
            },
{
    let there: Vec<FileRecord> = get_all_present_files(db);
    let ghost tv = file_views(there@);
    assert(is_listing(db.files(), present(), FileOrder::Path, tv));
    let total: u64 = match checked_total(&there, i64::MAX as u64) {
        Some(n) => n,
        None => {
            return Err(FortressError::Database("integer overflow".to_owned()));
        },
    };
    let (duplicate_groups, wasted) = count_duplicates(db);
    assert(shown_duplicates(db.files(), duplicate_groups, wasted));
    let all: Vec<FileRecord> = db.file_records();
    let last: Option<Timestamp> = last_scan(&all);
    let last_text: String = match &last {
        Some(t) => {
            assert(is_last_scan(db.files(), Some(t@)));
            first_chars(to_rfc3339(t).as_str(), 10)
        },
        None => {
            assert(is_last_scan(db.files(), None));
            "Never".to_owned()
        },
    };
    let totals: Vec<CategoryTotal> = category_breakdown(&there);
    let ghost wanted = breakdown_rows(totals@);
    let mut categories: Vec<CategoryRow> = Vec::new();
    for i in 0..totals.len()
        invariant
            wanted == breakdown_rows(totals@),
            category_rows(categories@) == wanted.take(i as int),
    {
        let row: CategoryRow = CategoryRow {
            name: totals[i].category.to_string(),
            count: totals[i].count,
            bytes: fmt_bytes(totals[i].bytes),
        };
        assert(category_rows(categories@.push(row)) == category_rows(categories@).push(
            (row.name@, row.count, row.bytes@),
        ));
        categories.push(row);
    }
    assert(wanted.take(wanted.len() as int) == wanted);
    assert(is_breakdown(tv, totals@));
    assert(shows_breakdown(tv, category_rows(categories@)));
    assert(shows_last_scan(db.files(), last_text@));
    let wasted_bytes: String = fmt_bytes(wasted);
    assert(shows_waste(db.files(), duplicate_groups, wasted_bytes@));
    Ok(
        Overview {
            total_files: there.len() as u64,
            total_bytes: fmt_bytes(total),
            duplicate_groups,
            wasted_bytes,
            last_scan: last_text,
            categories,
        },
    )
}

// ---------------------------------------------------------------------------
// The page of duplicates
// ---------------------------------------------------------------------------

/// The size of the largest file.
pub open spec fn largest(files: Seq<FileView>) -> u64
    decreases files.len(),
{
    if files.len() == 0 {
        0
    } else {
        let before = largest(files.drop_last());
        if files.last().size_bytes > before {
            files.last().size_bytes
        } else {
            before
        }
    }
}

fn largest_size(files: &Vec<FileRecord>) -> (r: u64)
    ensures
        r == largest(file_views(files@)),
{
    let ghost all = file_views(files@);
    let mut r: u64 = 0;
    for i in 0..files.len()
        invariant
            all == file_views(files@),
            r == largest(all.take(i as int)),
    {
        proof {
            assert(all.take(i + 1).drop_last() == all.take(i as int));
            assert(all[i as int] == files@[i as int]@);
        }
        if files[i].size_bytes > r {
            r = files[i].size_bytes;
        }
    }
    assert(all.take(all.len() as int) == all);
    r
}

/// Whether the group `a` is shown before the group `b`: its files are larger, or
/// as large and its hash is first.
pub open spec fn shown_first(a: GroupView, b: GroupView) -> bool {
    largest(a.files) > largest(b.files) || (largest(a.files) == largest(b.files) && text_before(
        a.content_hash,
        b.content_hash,
    ))
}

/// Whether `out` holds the same groups as `groups`, in the order of the page.
pub open spec fn is_page_order(groups: Seq<GroupView>, out: Seq<GroupView>) -> bool {
    &&& out.len() == groups.len()
    &&& forall|i: int, j: int|
        0 <= i < j < out.len() ==> shown_first(#[trigger] out[i], #[trigger] out[j])
    &&& forall|g: GroupView| #[trigger] out.contains(g) <==> groups.contains(g)
}

/// Groups at the positions of a stable order.
fn reorder_groups<K: SortKey>(groups: &Vec<DuplicateGroup>, keys: &Vec<K>) -> (r: (
    Vec<DuplicateGroup>,
    Ghost<Seq<usize>>,
))
    requires
        keys@.len() == groups@.len(),
    ensures
        is_stable_order(keys@, r.1@),
        r.0@.len() == groups@.len(),
        forall|k: int|
            0 <= k < r.0@.len() ==> #[trigger] group_views(r.0@)[k] == group_views(groups@)[r.1@[k] as int],
        forall|g: GroupView| #[trigger] group_views(r.0@).contains(g) <==> group_views(groups@).contains(g),
{
    let ghost a = group_views(groups@);
    let p: Vec<usize> = stable_order(keys);
    let mut out: Vec<DuplicateGroup> = Vec::new();
    for i in 0..p.len()
        invariant
            a == group_views(groups@),
            is_stable_order(keys@, p@),
            keys@.len() == groups@.len(),
            out@.len() == i,
            forall|k: int| 0 <= k < i ==> (#[trigger] out@[k])@ == a[p@[k] as int],
    {
        assert(a[p@[i as int] as int] == groups@[p@[i as int] as int]@);
        out.push(groups[p[i]].clone());
    }
    proof {
        stable_order_is_permutation(keys@, p@);
        let b = group_views(out@);
        assert forall|k: int| 0 <= k < b.len() implies #[trigger] b[k] == a[p@[k] as int] by {
            assert(b[k] == out@[k]@);
        }
        assert forall|g: GroupView| #[trigger] b.contains(g) <==> a.contains(g) by {
            if b.contains(g) {
                let k = choose|k: int| 0 <= k < b.len() && b[k] == g;
                assert(a[p@[k] as int] == g);
            }
            if a.contains(g) {
                let j = choose|j: int| 0 <= j < a.len() && a[j] == g;
                assert(lists(p@, j));
                let k = choose|k: int| 0 <= k < p@.len() && #[trigger] p@[k] == j;
                assert(b[k] == g);
            }
        }
    }
    (out, Ghost(p@))
}

/// The groups in the order of the page.
pub fn order_groups(groups: &Vec<DuplicateGroup>) -> (r: Vec<DuplicateGroup>)
    requires
        forall|i: int, j: int|
            0 <= i < j < groups@.len() ==> (#[trigger] group_views(groups@)[i]).content_hash != (
            #[trigger] group_views(groups@)[j]).content_hash,
    ensures
        is_page_order(group_views(groups@), group_views(r@)),
{
    let ghost a = group_views(groups@);
    let mut hashes: Vec<String> = Vec::new();
    for i in 0..groups.len()
        invariant
            a == group_views(groups@),
            hashes@.len() == i,
            forall|k: int| 0 <= k < i ==> (#[trigger] hashes@[k])@ == a[k].content_hash,
    {
        assert(a[i as int] == groups@[i as int]@);
        hashes.push(groups[i].content_hash.clone());
    }
    let (by_hash, Ghost(p)) = reorder_groups(groups, &hashes);
    let ghost b = group_views(by_hash@);
    proof {
        stable_order_is_permutation(hashes@, p);
        assert forall|i: int, j: int| 0 <= i < j < b.len() implies text_before(
            (#[trigger] b[i]).content_hash,
            (#[trigger] b[j]).content_hash,
        ) by {
            assert(ahead(hashes@, p[i] as int, p[j] as int));
            assert(p[i] != p[j]);
            assert(a[p[i] as int].content_hash != a[p[j] as int].content_hash);
            assert(hashes@[p[i] as int]@ == b[i].content_hash && hashes@[p[j] as int]@ == b[j].content_hash);
            text_order_is_total(b[i].content_hash, b[j].content_hash);
        }
    }
    let mut sizes: Vec<Descending<u64>> = Vec::new();
    for i in 0..by_hash.len()
        invariant
            b == group_views(by_hash@),
            sizes@.len() == i,
            forall|k: int| 0 <= k < i ==> (#[trigger] sizes@[k]).0 == largest(b[k].files),
    {
        assert(b[i as int] == by_hash@[i as int]@);
        sizes.push(Descending(largest_size(&by_hash[i].files)));
    }
    let (out, Ghost(q)) = reorder_groups(&by_hash, &sizes);
    proof {
        let c = group_views(out@);
        assert forall|i: int, j: int| 0 <= i < j < c.len() implies shown_first(
            #[trigger] c[i],
            #[trigger] c[j],
        ) by {
            assert(ahead(sizes@, q[i] as int, q[j] as int));
            assert(c[i] == b[q[i] as int] && c[j] == b[q[j] as int]);
            assert(sizes@[q[i] as int].0 == largest(c[i].files));
            assert(sizes@[q[j] as int].0 == largest(c[j].files));
        }
        assert forall|g: GroupView| #[trigger] c.contains(g) <==> a.contains(g) by {
            assert(c.contains(g) <==> b.contains(g));
        }
    }
    out
}

/// The bytes that all files of a group but one take, going by the largest.
pub open spec fn page_waste(g: GroupView) -> int {
    largest(g.files) * (g.files.len() - 1)
}

/// The bytes that all copies but one take, going by the largest of each group.
pub open spec fn page_total(groups: Seq<GroupView>) -> int
    decreases groups.len(),
{
    if groups.len() == 0 {
        0
    } else {
        page_total(groups.drop_last()) + page_waste(groups.last())
    }
}

/// A file of a group on the page.
#[derive(Debug)]
pub struct PathInfo {
    pub path: String,
    /// The date on which it was modified.
    pub modified_at: String,
    /// Whether it is the newest, which is kept.
    pub is_newest: bool,
}

/// A group on the page.
#[derive(Debug)]
pub struct DupGroupRow {
    pub hash: String,
    /// The start of the hash.
    pub hash_preview: String,
    pub file_count: usize,
    /// The number of files that are deleted when the newest is kept.
    pub delete_count: usize,
    pub size_each: String,
    pub wasted: String,
    pub paths: Vec<PathInfo>,
}

/// The page of duplicates.
#[derive(Debug)]
pub struct DuplicatesPage {
    pub groups: Vec<DupGroupRow>,
    pub total_wasted: String,
    pub group_count: usize,
}

/// What a list of files of a group says.
pub open spec fn path_infos(paths: Seq<PathInfo>) -> Seq<(Seq<char>, Seq<char>, bool)> {
    paths.map_values(|p: PathInfo| (p.path@, p.modified_at@, p.is_newest))
}

/// What is shown of the files of a group that are listed the newest first.
pub open spec fn shown_paths(sorted: Seq<FileView>) -> Seq<(Seq<char>, Seq<char>, bool)> {
    Seq::new(
        sorted.len(),
        |i: int| (sorted[i].path, at_most(rfc3339(sorted[i].modified_at), 10), i == 0),
    )
}

/// Whether `paths` shows the files of a group, the newest first.
pub open spec fn shows_paths(files: Seq<FileView>, paths: Seq<(Seq<char>, Seq<char>, bool)>) -> bool {
    exists|sorted: Seq<FileView>| #[trigger] is_newest_first(files, sorted) && paths == shown_paths(sorted)
}

/// Whether `row` shows the group `g`.
pub open spec fn shows_group(row: DupGroupRow, g: GroupView) -> bool {
    &&& row.hash@ == g.content_hash
    &&& row.hash_preview@ == at_most(g.content_hash, 12)
    &&& row.file_count == g.files.len()
    &&& row.delete_count == g.files.len() - 1
    &&& row.size_each@ == byte_size(largest(g.files), 1)
    &&& page_waste(g) <= u64::MAX
    &&& row.wasted@ == byte_size(page_waste(g) as u64, 1)
    &&& shows_paths(g.files, path_infos(row.paths@))
}

fn show_paths(files: &Vec<FileRecord>) -> (r: Vec<PathInfo>)
    requires
        in_path_order(file_views(files@)),
    ensures
        shows_paths(file_views(files@), path_infos(r@)),
{
    let sorted: Vec<FileRecord> = newest_first(files);
    let ghost sv = file_views(sorted@);
    let ghost wanted = shown_paths(sv);
    let mut out: Vec<PathInfo> = Vec::new();
    for i in 0..sorted.len()
        invariant
            sv == file_views(sorted@),
            wanted == shown_paths(sv),
            path_infos(out@) == wanted.take(i as int),
    {
        assert(sv[i as int] == sorted@[i as int]@);
        let info: PathInfo = PathInfo {
            path: sorted[i].path.clone(),
            modified_at: first_chars(to_rfc3339(&sorted[i].modified_at).as_str(), 10),
            is_newest: i == 0,
        };
        assert(path_infos(out@.push(info)) == path_infos(out@).push(
            (info.path@, info.modified_at@, info.is_newest),
        ));
        out.push(info);
    }
    assert(wanted.take(wanted.len() as int) == wanted);
    assert(is_newest_first(file_views(files@), sv));
    out
}

fn show_group(group: &DuplicateGroup, wasted: u64) -> (row: DupGroupRow)
    requires
        group.files@.len() >= 1,
        in_path_order(group@.files),
        wasted == page_waste(group@),
    ensures
        shows_group(row, group@),
{
    let paths: Vec<PathInfo> = show_paths(&group.files);
    DupGroupRow {
        hash: group.content_hash.clone(),
        hash_preview: first_chars(group.content_hash.as_str(), 12),
        file_count: group.files.len(),
        delete_count: group.files.len() - 1,
        size_each: fmt_bytes(largest_size(&group.files)),
        wasted: fmt_bytes(wasted),
        paths,
    }
}

proof fn groups_have_own_hashes(files: Seq<FileView>, groups: Seq<GroupView>)
    requires
        is_grouping(files, groups),
    ensures
        forall|i: int, j: int|
            0 <= i < j < groups.len() ==> (#[trigger] groups[i]).content_hash != (#[trigger] groups[j]).content_hash,
{
    assert forall|i: int, j: int| 0 <= i < j < groups.len() implies (#[trigger] groups[i]).content_hash != (
    #[trigger] groups[j]).content_hash by {
        if groups[i].content_hash == groups[j].content_hash {
            assert(is_group(files, groups[i]) && is_group(files, groups[j]));
            crate::db::listing_is_unique(
                files,
                with_content(groups[i].content_hash),
                FileOrder::Path,
                groups[i].files,
                groups[j].files,
            );
            assert(wastes_more(groups[i], groups[j]));
            text_order_is_irreflexive(groups[i].content_hash);
        }
    }
}

/// Whether `page` shows the groups in the given order.
pub open spec fn shows_groups(page: DuplicatesPage, groups: Seq<GroupView>) -> bool {
    &&& page.groups@.len() == groups.len()
    &&& page.group_count == groups.len()
    &&& forall|i: int| 0 <= i < groups.len() ==> shows_group(#[trigger] page.groups@[i], groups[i])
    &&& page_total(groups) <= u64::MAX
    &&& page.total_wasted@ == byte_size(page_total(groups) as u64, 1)
}

proof fn page_total_grows(groups: Seq<GroupView>, k: int)
    requires
        0 <= k <= groups.len(),
        forall|i: int| 0 <= i < groups.len() ==> (#[trigger] groups[i]).files.len() >= 1,
    ensures
        0 <= page_total(groups.take(k)) <= page_total(groups),
    decreases groups.len(),
{
    if groups.len() > 0 {
        let n = groups.last().files.len() - 1;
        let size = largest(groups.last().files);
        assert(size * n >= 0) by (nonlinear_arith)
            requires
                size >= 0,
                n >= 0,
        ;
        assert(forall|i: int|
            0 <= i < groups.drop_last().len() ==> groups.drop_last()[i] == #[trigger] groups[i]);
        if k == groups.len() {
            assert(groups.take(k) == groups);
            page_total_grows(groups.drop_last(), k - 1);
        } else {
            page_total_grows(groups.drop_last(), k);
            assert(groups.drop_last().take(k) == groups.take(k));
        }
    } else {
        assert(groups.take(k) == groups);
    }
}

/// The page of duplicates: the groups with the largest files first, and in each
/// the newest copy first. It fails only where the waste cannot be counted.
pub fn query_duplicates(db: &Database) -> (r: FortressResult<DuplicatesPage>)
    requires
        db.wf(),
    ensures
        match r {
            Ok(page) => exists|groups: Seq<GroupView>, ordered: Seq<GroupView>| #[trigger]
                is_grouping(db.files(), groups) && #[trigger] is_page_order(groups, ordered)
                    && shows_groups(page, ordered),
            Err(e) => {
                &&& is_overflow(e)
                &&& waste_overflows(db.files()) || exists|groups: Seq<GroupView>, ordered: Seq<GroupView>|
                    #[trigger] is_grouping(db.files(), groups) && #[trigger] is_page_order(groups, ordered)
                        && page_total(ordered) > u64::MAX
            },
        },
{
    let groups: Vec<DuplicateGroup> = match get_duplicate_groups(db) {
        Ok(g) => g,
        Err(e) => {
            return Err(e);
        },
    };
    let ghost gv = group_views(groups@);
    proof {
        groups_have_own_hashes(db.files(), gv);
    }
    let ordered: Vec<DuplicateGroup> = order_groups(&groups);
    let ghost ov = group_views(ordered@);
    proof {
        assert forall|i: int| 0 <= i < ov.len() implies is_group(db.files(), #[trigger] ov[i]) by {
            assert(ov.contains(ov[i]));
            assert(gv.contains(ov[i]));
            let k = choose|k: int| 0 <= k < gv.len() && gv[k] == ov[i];
            assert(is_group(db.files(), gv[k]));
        }
    }
    let mut rows: Vec<DupGroupRow> = Vec::new();
    let mut total: u64 = 0;
    for i in 0..ordered.len()
        invariant
            ov == group_views(ordered@),
            is_grouping(db.files(), gv),
            is_page_order(gv, ov),
            forall|k: int| 0 <= k < ov.len() ==> is_group(db.files(), #[trigger] ov[k]),
            rows@.len() == i,
            forall|k: int| 0 <= k < i ==> shows_group(#[trigger] rows@[k], ov[k]),
            total == page_total(ov.take(i as int)),
    {
        let group: &DuplicateGroup = &ordered[i];
        proof {
            assert(ov[i as int] == group@);
            assert(is_group(db.files(), ov[i as int]));
            let fv = group@.files;
            assert(forall|a: int, b: int|
                0 <= a < b < fv.len() ==> FileOrder::Path.lists_first(#[trigger] fv[a], #[trigger] fv[b]));
            assert(ov.take(i + 1).drop_last() == ov.take(i as int));
            assert(forall|k: int| 0 <= k < ov.len() ==> is_group(db.files(), #[trigger] ov[k]));
            page_total_grows(ov, i + 1);
            page_total_grows(ov, i as int);
        }
        let size: u64 = largest_size(&group.files);
        let copies: u64 = (group.files.len() - 1) as u64;
        assert(page_waste(group@) == size * copies);
        let wasted: u64 = match size.checked_mul(copies) {
            Some(w) => w,
            None => {
                return Err(FortressError::Database("integer overflow".to_owned()));
            },
        };
        if total > u64::MAX - wasted {
            return Err(FortressError::Database("integer overflow".to_owned()));
        }
        total = total + wasted;
        rows.push(show_group(group, wasted));
    }
    assert(ov.take(ov.len() as int) == ov);
    let group_count: usize = rows.len();
    let page: DuplicatesPage = DuplicatesPage { groups: rows, total_wasted: fmt_bytes(total), group_count };
    assert(shows_groups(page, ov));
    Ok(page)
}

// ---------------------------------------------------------------------------
// Searching
// ---------------------------------------------------------------------------

/// A row of the table of search results.
#[derive(Debug)]
pub struct SearchRow {
    pub name: String,
    pub path: String,
    pub size: String,
    pub category: String,
    /// The date on which the file was modified.
    pub modified: String,
}

/// What the rows of the table of search results say.
pub open spec fn search_rows(rows: Seq<SearchRow>) -> Seq<
    (Seq<char>, Seq<char>, Seq<char>, Seq<char>, Seq<char>),
> {
    rows.map_values(|r: SearchRow| (r.name@, r.path@, r.size@, r.category@, r.modified@))
}

/// What is shown of a file that a search found.
pub open spec fn search_row(f: FileView) -> (Seq<char>, Seq<char>, Seq<char>, Seq<char>, Seq<char>) {
    (
        f.name,
        f.path,
        byte_size(f.size_bytes, 1),
        f.category.name(),
        at_most(rfc3339(f.modified_at), 10),
    )
}

/// What is shown of the files that a search found.
pub open spec fn shown_rows(files: Seq<FileView>) -> Seq<
    (Seq<char>, Seq<char>, Seq<char>, Seq<char>, Seq<char>),
> {
    files.map_values(|f: FileView| search_row(f))
}

/// Files that are there, have `query` in their name or path, and are in the
/// category with the given name, where one is given.
pub open spec fn found_by(query: Seq<char>, category: Option<Seq<char>>) -> spec_fn(FileView) -> bool {
    |f: FileView| named(query)(f) && (category matches Some(c) ==> f.category.name() == c)
}

fn show_file(f: &FileRecord) -> (r: SearchRow)
    ensures
        (r.name@, r.path@, r.size@, r.category@, r.modified@) == search_row(f@),
{
    SearchRow {
        name: f.name.clone(),
        path: f.path.clone(),
        size: fmt_bytes(f.size_bytes),
        category: f.category.to_string(),
        modified: first_chars(to_rfc3339(&f.modified_at).as_str(), 10),
    }
}

/// The rows of the files that are there and have `query` in their name or path,
/// where ASCII letters match in either case, of one category where one is named:
/// the first `limit` in the order of their names.
pub fn query_search(db: &Database, query: &str, category: &Option<String>, limit: usize) -> (r: Vec<SearchRow>)
    requires
        db.wf(),
    ensures
        exists|all: Seq<FileView>| #[trigger]
            is_listing(
                db.files(),
                found_by(query@, optional_text(*category)),
                FileOrder::Name,
                all,
            ) && search_rows(r@) == shown_rows(at_most(all, limit as int)),
{
    let found: Vec<FileRecord> = crate::db::get_named_files(db, query);
    let ghost fv = file_views(found@);
    let ghost wanted = found_by(query@, optional_text(*category));
    let mut kept: Vec<FileRecord> = Vec::new();
    let ghost mut from: Seq<int> = Seq::empty();
    for i in 0..found.len()
        invariant
            fv == file_views(found@),
            is_listing(db.files(), named(query@), FileOrder::Name, fv),
            wanted == found_by(query@, optional_text(*category)),
            from.len() == kept@.len(),
            forall|k: int| 0 <= k < from.len() ==> 0 <= #[trigger] from[k] < i && kept@[k]@ == fv[from[k]]
                && wanted(fv[from[k]]),
            forall|k: int, l: int| 0 <= k < l < from.len() ==> #[trigger] from[k] < #[trigger] from[l],
            forall|j: int| 0 <= j < i && #[trigger] wanted(fv[j]) ==> from.contains(j),
    {
        proof {
            assert(fv[i as int] == found@[i as int]@);
            assert(fv.contains(fv[i as int]));
        }
        let fits: bool = match category {
            Some(c) => same_text(found[i].category.to_string().as_str(), c.as_str()),
            None => true,
        };
        assert(fits == wanted(fv[i as int]));
        if fits {
            kept.push(found[i].clone());
            proof {
                let longer = from.push(i as int);
                assert forall|j: int| 0 <= j < i + 1 && #[trigger] wanted(fv[j]) implies longer.contains(j) by {
                    if j < i {
                        let k = choose|k: int| 0 <= k < from.len() && from[k] == j;
                        assert(longer[k] == j);
                    } else {
                        assert(longer[from.len() as int] == j);
                    }
                }
                from = longer;
            }
        }
    }
    let ghost all = file_views(kept@);
    proof {
        assert forall|k: int| 0 <= k < all.len() implies #[trigger] all[k] == fv[from[k]] by {
            assert(all[k] == kept@[k]@);
        }
        assert forall|k: int, l: int| 0 <= k < l < all.len() implies FileOrder::Name.lists_first(
            #[trigger] all[k],
            #[trigger] all[l],
        ) by {
            assert(from[k] < from[l]);
        }
        assert forall|f: FileView| #[trigger] all.contains(f) <==> db.files().contains(f) && wanted(f) by {
            if all.contains(f) {
                let k = choose|k: int| 0 <= k < all.len() && all[k] == f;
                assert(fv.contains(fv[from[k]]));
            }
            if db.files().contains(f) && wanted(f) {
                assert(fv.contains(f));
                let j = choose|j: int| 0 <= j < fv.len() && fv[j] == f;
                assert(wanted(fv[j]));
                let k = choose|k: int| 0 <= k < from.len() && from[k] == j;
                assert(from.contains(j));
                assert(all[k] == f);
            }
        }
        assert(is_listing(db.files(), wanted, FileOrder::Name, all));
    }
    let ghost shown = shown_rows(at_most(all, limit as int));
    let mut rows: Vec<SearchRow> = Vec::new();
    let mut i: usize = 0;
    while i < kept.len() && i < limit
        invariant
            all == file_views(kept@),
            shown == shown_rows(at_most(all, limit as int)),
            i <= kept@.len(),
            i <= limit,
            search_rows(rows@) == shown.take(i as int),
        decreases kept@.len() - i,
    {
        let row: SearchRow = show_file(&kept[i]);
        proof {
            assert(all[i as int] == kept@[i as int]@);
            assert(search_rows(rows@.push(row)) == search_rows(rows@).push(
                (row.name@, row.path@, row.size@, row.category@, row.modified@),
            ));
        }
        rows.push(row);
        i = i + 1;
    }
    assert(search_rows(rows@) == shown);
    rows
}

/// The most results that the search of the dashboard shows.
pub const SEARCH_LIMIT: usize = 100;

/// What the search of the dashboard shows: nothing for a query of white space.
pub fn search_page(db: &Database, query: &str, category: &Option<String>) -> (r: (String, Vec<SearchRow>))
    requires
        db.wf(),
    ensures
        r.0@ == trimmed(query@),
        if trimmed(query@).len() == 0 {
            r.1@.len() == 0
        } else {
            exists|all: Seq<FileView>| #[trigger]
                is_listing(
                    db.files(),
                    found_by(trimmed(query@), optional_text(*category)),
                    FileOrder::Name,
                    all,
                ) && search_rows(r.1@) == shown_rows(at_most(all, SEARCH_LIMIT as int))
        },
{
    let wanted: String = trim(query);
    if wanted.as_str().is_empty() {
        return (wanted, Vec::new());
    }
    let rows: Vec<SearchRow> = query_search(db, wanted.as_str(), category, SEARCH_LIMIT);
    (wanted, rows)
}

// ---------------------------------------------------------------------------
// The page of backups
// ---------------------------------------------------------------------------

/// A row of the table of backups.
#[derive(Debug)]
pub struct BackupRow {
    pub id: i64,
    pub label: String,
    pub created_at: String,
    pub original: String,
    pub compressed: String,
    /// The per cent that were saved, or a dash for a backup of nothing.
    pub ratio: String,
    pub archive_path: String,
}

/// The page of backups.
#[derive(Debug)]
pub struct BackupPage {
    pub backups: Vec<BackupRow>,
    pub total_original: String,
    pub total_compressed: String,
    pub total_saved: String,
}

/// Whether `row` shows the backup `b`, of which `ratio` per cent were saved.
pub open spec fn shows_backup(row: BackupRow, b: BackupView, ratio: Seq<char>) -> bool {
    &&& Some(row.id) == b.id
    &&& row.label@ == b.label
    &&& row.created_at@ == at_most(rfc3339(b.created_at), 19)
    &&& row.original@ == byte_size(b.original_bytes, 1)
    &&& row.compressed@ == byte_size(b.compressed_bytes, 1)
    &&& row.ratio@ == if b.original_bytes > 0 {
        ratio + "%"@
    } else {
        "\u{2014}"@
    }
    &&& row.archive_path@ == b.archive_path
}

/// The sizes of the files in all archives, added up.
pub open spec fn original_total(backups: Seq<BackupView>) -> int
    decreases backups.len(),
{
    if backups.len() == 0 {
        0
    } else {
        original_total(backups.drop_last()) + backups.last().original_bytes
    }
}

/// The sizes of all archives, added up.
pub open spec fn compressed_total(backups: Seq<BackupView>) -> int
    decreases backups.len(),
{
    if backups.len() == 0 {
        0
    } else {
        compressed_total(backups.drop_last()) + backups.last().compressed_bytes
    }
}

proof fn backup_totals_grow(backups: Seq<BackupView>, k: int)
    requires
        0 <= k <= backups.len(),
    ensures
        0 <= original_total(backups.take(k)) <= original_total(backups),
        0 <= compressed_total(backups.take(k)) <= compressed_total(backups),
    decreases backups.len(),
{
    if k == backups.len() {
        assert(backups.take(k) == backups);
        if k > 0 {
            backup_totals_grow(backups.drop_last(), k - 1);
        }
    } else {
        backup_totals_grow(backups.drop_last(), k);
        assert(backups.drop_last().take(k) == backups.take(k));
    }
}

fn show_backup(b: &BackupRecord, ratio: &str) -> (row: BackupRow)
    requires
        b.id is Some,
    ensures
        shows_backup(row, b@, ratio@),
{
    BackupRow {
        id: match b.id {
            Some(k) => k,
            None => 0,
        },
        label: b.label.clone(),
        created_at: first_chars(to_rfc3339(&b.created_at).as_str(), 19),
        original: fmt_bytes(b.original_bytes),
        compressed: fmt_bytes(b.compressed_bytes),
        ratio: if b.original_bytes > 0 {
            joined(ratio, "%")
        } else {
            "\u{2014}".to_owned()
        },
        archive_path: b.archive_path.clone(),
    }
}

/// The page of backups, given the list of backups and the per cent that were
/// saved of each. It fails only where the sizes cannot be added up.
pub fn query_backups(backups: &Vec<BackupRecord>, ratios: &Vec<String>) -> (r: FortressResult<BackupPage>)
    requires
        backups@.len() == ratios@.len(),
        forall|i: int| 0 <= i < backups@.len() ==> (#[trigger] backups@[i]).id is Some,
    ensures
        ({
            let all = backup_views(backups@);
            match r {
                Ok(page) => {
                    &&& page.backups@.len() == all.len()
                    &&& forall|i: int|
                        0 <= i < all.len() ==> shows_backup(
                            #[trigger] page.backups@[i],
                            all[i],
                            texts(ratios@)[i],
                        )
                    &&& original_total(all) <= u64::MAX
                    &&& compressed_total(all) <= u64::MAX
                    &&& page.total_original@ == byte_size(original_total(all) as u64, 1)
                    &&& page.total_compressed@ == byte_size(compressed_total(all) as u64, 1)
                    &&& page.total_saved@ == byte_size(
                        if compressed_total(all) < original_total(all) {
                            (original_total(all) - compressed_total(all)) as u64
                        } else {
                            0
                        },
                        1,
                    )
                },
                Err(e) => {
                    &&& original_total(all) > u64::MAX || compressed_total(all) > u64::MAX
                    &&& is_overflow(e)
                },
            }
        }),
{
    let ghost all = backup_views(backups@);
    let mut rows: Vec<BackupRow> = Vec::new();
    let mut original: u64 = 0;
    let mut compressed: u64 = 0;
    for i in 0..backups.len()
        invariant
            backups@.len() == ratios@.len(),
            forall|k: int| 0 <= k < backups@.len() ==> (#[trigger] backups@[k]).id is Some,
            all == backup_views(backups@),
            rows@.len() == i,
            forall|k: int| 0 <= k < i ==> shows_backup(#[trigger] rows@[k], all[k], texts(ratios@)[k]),
            original == original_total(all.take(i as int)),
            compressed == compressed_total(all.take(i as int)),
    {
        let b: &BackupRecord = &backups[i];
        proof {
            assert(all[i as int] == b@);
            assert(all.take(i + 1).drop_last() == all.take(i as int));
            backup_totals_grow(all, i + 1);
            assert(texts(ratios@)[i as int] == ratios@[i as int]@);
        }
        if original > u64::MAX - b.original_bytes || compressed > u64::MAX - b.compressed_bytes {
            return Err(FortressError::Database("integer overflow".to_owned()));
        }
        original = original + b.original_bytes;
        compressed = compressed + b.compressed_bytes;
        rows.push(show_backup(b, ratios[i].as_str()));
    }
    assert(all.take(all.len() as int) == all);
    let saved: u64 = saved_bytes(original, compressed);
    Ok(
        BackupPage {
            backups: rows,
            total_original: fmt_bytes(original),
            total_compressed: fmt_bytes(compressed),
            total_saved: fmt_bytes(saved),
        },
    )
}

} // verus!
