//! The database of files and backups, held in memory.

use vstd::prelude::*;
use vstd::string::*;

use crate::error::{FortressError, FortressResult};
use crate::models::{
    backup_views, checked_total, clone_records, file_views, group_views, total_size, BackupRecord,
    BackupView, FileCategory, DuplicateGroup, FileRecord, FileView, GroupView, ScanStats,
};
use crate::order::{
    ahead, is_stable_order, lists, stable_order, stable_order_is_permutation, Descending, SortKey,
};
use crate::paths::{is_under, lies_under};
use crate::text::{
    ascii_folded, contains_ignoring_ascii_case, has_text, is_text_before, same_text, text_before, text_order_is_irreflexive, text_order_is_total, text_order_is_transitive,
};
use crate::time::{earlier, Timestamp};

verus! {

/// The records of a database. The files are kept in the order of their paths.
pub struct Database {
    files: Vec<FileRecord>,
    backups: Vec<BackupRecord>,
    last_file_id: i64,
    last_backup_id: i64,
}

/// Whether the files are in the order of their paths, each path once.
pub open spec fn in_path_order(files: Seq<FileView>) -> bool {
    forall|i: int, j: int|
        0 <= i < j < files.len() ==> text_before(#[trigger] files[i].path, #[trigger] files[j].path)
}

/// Whether an id has been given out, where `last` is the last one that was.
pub open spec fn given_out(id: Option<i64>, last: i64) -> bool {
    id matches Some(k) && k <= last
}

/// Whether every file has an id of its own that has been given out.
pub open spec fn ids_wf(files: Seq<FileView>, last: i64) -> bool {
    &&& forall|i: int| 0 <= i < files.len() ==> given_out(#[trigger] files[i].id, last)
    &&& forall|i: int, j: int|
        0 <= i < j < files.len() ==> #[trigger] files[i].id != #[trigger] files[j].id
}

/// Whether the files are as a database keeps them, where `last` is the last id
/// that was given out.
pub open spec fn files_wf(files: Seq<FileView>, last: i64) -> bool {
    last >= 0 && in_path_order(files) && ids_wf(files, last)
}

/// The id of a stored backup.
pub open spec fn id_of(b: BackupView) -> int {
    match b.id {
        Some(k) => k as int,
        None => 0,
    }
}

/// Whether the backups are as a database keeps them: in the order of their ids,
/// where `last` is the last id that was given out.
pub open spec fn backups_wf(backups: Seq<BackupView>, last: i64) -> bool {
    &&& last >= 0
    &&& forall|i: int| 0 <= i < backups.len() ==> given_out(#[trigger] backups[i].id, last)
    &&& forall|i: int, j: int|
        0 <= i < j < backups.len() ==> id_of(#[trigger] backups[i]) < id_of(#[trigger] backups[j])
    &&& forall|i: int, j: int|
        0 <= i < j < backups.len() ==> #[trigger] backups[i].archive_path
            != #[trigger] backups[j].archive_path
}

impl Database {
    /// The files, in the order of their paths.
    pub closed spec fn files(self) -> Seq<FileView> {
        file_views(self.files@)
    }

    /// The backups, in the order in which they were recorded.
    pub closed spec fn backups(self) -> Seq<BackupView> {
        backup_views(self.backups@)
    }

    /// The last id that was given to a file.
    pub closed spec fn last_file_id(self) -> i64 {
        self.last_file_id
    }

    /// The last id that was given to a backup.
    pub closed spec fn last_backup_id(self) -> i64 {
        self.last_backup_id
    }

    /// Every path and every id stands for one file, and every archive and every
    /// id for one backup.
    pub open spec fn wf(self) -> bool {
        files_wf(self.files(), self.last_file_id()) && backups_wf(
            self.backups(),
            self.last_backup_id(),
        )
    }

    /// A database without records.
    pub fn new() -> (r: Database)
        ensures
            r.wf(),
            r.files().len() == 0,
            r.backups().len() == 0,
            r.last_file_id() == 0,
            r.last_backup_id() == 0,
    {
        Database { files: Vec::new(), backups: Vec::new(), last_file_id: 0, last_backup_id: 0 }
    }

    /// The place of `path` among the files: where it is, or where it would be.
    fn locate(&self, path: &str) -> (r: (bool, usize))
        requires
            self.wf(),
        ensures
            r.1 <= self.files@.len(),
            r.0 ==> r.1 < self.files@.len() && self.files()[r.1 as int].path == path@,
            !r.0 ==> forall|i: int| 0 <= i < r.1 ==> text_before(#[trigger] self.files()[i].path, path@),
            !r.0 ==> forall|i: int|
                r.1 <= i < self.files@.len() ==> text_before(path@, #[trigger] self.files()[i].path),
    {
        let ghost all = self.files();
        let mut lo: usize = 0;
        let mut hi: usize = self.files.len();
        while lo < hi
            invariant
                self.wf(),
                all == self.files(),
                lo <= hi <= self.files@.len(),
                forall|i: int| 0 <= i < lo ==> text_before(#[trigger] all[i].path, path@),
                forall|i: int| hi <= i < all.len() ==> text_before(path@, #[trigger] all[i].path),
            decreases hi - lo,
        {
            let mid: usize = lo + (hi - lo) / 2;
            assert(all[mid as int] == self.files@[mid as int]@);
            if is_text_before(self.files[mid].path.as_str(), path) {
                assert forall|i: int| 0 <= i < mid + 1 implies text_before(#[trigger] all[i].path, path@) by {
                    if i < mid {
                        text_order_is_transitive(all[i].path, all[mid as int].path, path@);
                    }
                }
                lo = mid + 1;
            } else if is_text_before(path, self.files[mid].path.as_str()) {
                assert forall|i: int| mid <= i < all.len() implies text_before(path@, #[trigger] all[i].path) by {
                    if i > mid {
                        text_order_is_transitive(path@, all[mid as int].path, all[i].path);
                    }
                }
                hi = mid;
            } else {
                proof {
                    text_order_is_total(all[mid as int].path, path@);
                }
                return (true, mid);
            }
        }
        (false, lo)
    }
}

/// No two files have the same path.
pub proof fn path_is_unique(db: Database, i: int, j: int)
    requires
        db.wf(),
        0 <= i < db.files().len(),
        0 <= j < db.files().len(),
        db.files()[i].path == db.files()[j].path,
    ensures
        i == j,
{
    text_order_is_irreflexive(db.files()[i].path);
}

/// Whether there is a file with the given path.
pub open spec fn has_path(files: Seq<FileView>, path: Seq<char>) -> bool {
    exists|i: int| 0 <= i < files.len() && #[trigger] files[i].path == path
}

/// A file record with the given id.
pub open spec fn with_id(f: FileView, id: i64) -> FileView {
    FileView { id: Some(id), ..f }
}

/// What storing the record `f` makes of the files: the record with the same
/// path is replaced and keeps its id, or the record is added under a new id.
pub open spec fn stored(old: Seq<FileView>, new: Seq<FileView>, f: FileView, id: i64) -> bool {
    if has_path(old, f.path) {
        &&& new.len() == old.len()
        &&& forall|i: int|
            0 <= i < old.len() ==> #[trigger] new[i] == if old[i].path == f.path {
                with_id(f, id)
            } else {
                old[i]
            }
        &&& exists|i: int| 0 <= i < old.len() && #[trigger] old[i].path == f.path && old[i].id == Some(id)
    } else {
        exists|pos: int| 0 <= pos <= old.len() && new == #[trigger] old.insert(pos, with_id(f, id))
    }
}

/// Adds a file record, or replaces the one with the same path, which keeps its
/// id. Gives the id. It fails only where the record is new and every id has
/// been given out.
pub fn upsert_file(db: &mut Database, record: &FileRecord) -> (r: FortressResult<i64>)
    requires
        old(db).wf(),
    ensures
        final(db).wf(),
        final(db).backups() == old(db).backups(),
        final(db).last_backup_id() == old(db).last_backup_id(),
        r is Err <==> !has_path(old(db).files(), record@.path) && old(db).last_file_id() == i64::MAX,
        match r {
            Ok(id) => {
                &&& stored(old(db).files(), final(db).files(), record@, id)
                &&& final(db).last_file_id() == if has_path(old(db).files(), record@.path) {
                    old(db).last_file_id()
                } else {
                    id
                }
                &&& !has_path(old(db).files(), record@.path) ==> id == old(db).last_file_id() + 1
            },
            Err(e) => {
                &&& *final(db) == *old(db)
                &&& e matches FortressError::Database(m) && m@ == "database or disk is full"@
            },
        },
{
    let (found, pos) = db.locate(record.path.as_str());
    let ghost before = db.files();
    if found {
        assert(before[pos as int] == db.files@[pos as int]@);
        let id: i64 = match db.files[pos].id {
            Some(k) => k,
            None => 0,
        };
        assert(given_out(before[pos as int].id, db.last_file_id()));
        let mut new: FileRecord = record.clone();
        new.id = Some(id);
        let ghost old_files = db.files@;
        db.files.set(pos, new);
        proof {
            assert(file_views(old_files.update(pos as int, new)) == before.update(pos as int, new@));
            assert(new@ == with_id(record@, id));
            assert(has_path(before, record@.path));
            assert forall|i: int| 0 <= i < before.len() && before[i].path == record@.path implies i == pos by {
                text_order_is_irreflexive(record@.path);
            }
            assert(before[pos as int].id == Some(id));
        }
        Ok(id)
    } else {
        proof {
            assert forall|i: int| 0 <= i < before.len() implies #[trigger] before[i].path != record@.path by {
                text_order_is_irreflexive(record@.path);
            }
        }
        if db.last_file_id == i64::MAX {
            return Err(FortressError::Database("database or disk is full".to_owned()));
        }
        let id: i64 = db.last_file_id + 1;
        let mut new: FileRecord = record.clone();
        new.id = Some(id);
        let ghost old_files = db.files@;
        db.files.insert(pos, new);
        db.last_file_id = id;
        proof {
            assert(file_views(old_files.insert(pos as int, new)) == before.insert(pos as int, new@));
            assert(new@ == with_id(record@, id));
            let after = before.insert(pos as int, with_id(record@, id));
            assert(db.files() == after);
            assert forall|i: int| 0 <= i < after.len() implies given_out(#[trigger] after[i].id, id) by {
                if i < pos {
                    assert(after[i] == before[i]);
                } else if i > pos {
                    assert(after[i] == before[i - 1]);
                }
            }
            assert forall|i: int, j: int| 0 <= i < j < after.len() implies #[trigger] after[i].id
                != #[trigger] after[j].id by {
                let bi = if i < pos { i } else { i - 1 };
                let bj = if j < pos { j } else { j - 1 };
                if i != pos {
                    assert(after[i] == before[bi]);
                    assert(given_out(before[bi].id, old(db).last_file_id()));
                }
                if j != pos {
                    assert(after[j] == before[bj]);
                    assert(given_out(before[bj].id, old(db).last_file_id()));
                }
            }
            assert forall|i: int, j: int| 0 <= i < j < after.len() implies text_before(
                #[trigger] after[i].path,
                #[trigger] after[j].path,
            ) by {
                let bi = if i < pos { i } else { i - 1 };
                let bj = if j < pos { j } else { j - 1 };
                if i != pos {
                    assert(after[i] == before[bi]);
                }
                if j != pos {
                    assert(after[j] == before[bj]);
                }
            }
        }
        Ok(id)
    }
}

/// What changing one file makes of the files: only what `change` makes of the
/// file with the given path is different.
pub open spec fn changed_at(
    old: Seq<FileView>,
    new: Seq<FileView>,
    path: Seq<char>,
    change: spec_fn(FileView) -> FileView,
) -> bool {
    &&& new.len() == old.len()
    &&& forall|i: int|
        0 <= i < old.len() ==> #[trigger] new[i] == if old[i].path == path {
            change(old[i])
        } else {
            old[i]
        }
}

/// A file with the given hash.
pub open spec fn with_hash(hash: Seq<char>) -> spec_fn(FileView) -> FileView {
    |f: FileView| FileView { content_hash: Some(hash), ..f }
}

/// A file that is there or not.
pub open spec fn with_presence(there: bool) -> spec_fn(FileView) -> FileView {
    |f: FileView| FileView { is_present: there, ..f }
}

/// Records the hash of the file at `path`. Nothing changes where there is no
/// such file.
pub fn set_content_hash(db: &mut Database, path: &str, hash: &str)
    requires
        old(db).wf(),
    ensures
        final(db).wf(),
        changed_at(old(db).files(), final(db).files(), path@, with_hash(hash@)),
        final(db).last_file_id() == old(db).last_file_id(),
        final(db).backups() == old(db).backups(),
        final(db).last_backup_id() == old(db).last_backup_id(),
{
    let (found, pos) = db.locate(path);
    let ghost before = db.files();
    proof {
        text_order_is_irreflexive(path@);
    }
    if found {
        let mut new: FileRecord = db.files[pos].clone();
        new.content_hash = Some(hash.to_owned());
        let ghost old_files = db.files@;
        db.files.set(pos, new);
        proof {
            assert(before[pos as int] == old_files[pos as int]@);
            assert(file_views(old_files.update(pos as int, new)) == before.update(pos as int, new@));
            assert(new@ == with_hash(hash@)(before[pos as int]));
        }
    }
}

/// Records that the file at `path` is there. Nothing changes where there is no
/// record of it.
pub fn mark_present(db: &mut Database, path: &str)
    requires
        old(db).wf(),
    ensures
        final(db).wf(),
        changed_at(old(db).files(), final(db).files(), path@, with_presence(true)),
        final(db).last_file_id() == old(db).last_file_id(),
        final(db).backups() == old(db).backups(),
        final(db).last_backup_id() == old(db).last_backup_id(),
{
    set_presence(db, path, true);
}

/// Records that the file at `path` is gone. Nothing changes where there is no
/// record of it.
pub fn mark_absent(db: &mut Database, path: &str)
    requires
        old(db).wf(),
    ensures
        final(db).wf(),
        changed_at(old(db).files(), final(db).files(), path@, with_presence(false)),
        final(db).last_file_id() == old(db).last_file_id(),
        final(db).backups() == old(db).backups(),
        final(db).last_backup_id() == old(db).last_backup_id(),
{
    set_presence(db, path, false);
}

fn set_presence(db: &mut Database, path: &str, there: bool)
    requires
        old(db).wf(),
    ensures
        final(db).wf(),
        changed_at(old(db).files(), final(db).files(), path@, with_presence(there)),
        final(db).last_file_id() == old(db).last_file_id(),
        final(db).backups() == old(db).backups(),
        final(db).last_backup_id() == old(db).last_backup_id(),
{
    let (found, pos) = db.locate(path);
    let ghost before = db.files();
    proof {
        text_order_is_irreflexive(path@);
    }
    if found {
        let mut new: FileRecord = db.files[pos].clone();
        new.is_present = there;
        let ghost old_files = db.files@;
        db.files.set(pos, new);
        proof {
            assert(before[pos as int] == old_files[pos as int]@);
            assert(file_views(old_files.update(pos as int, new)) == before.update(pos as int, new@));
            assert(new@ == with_presence(there)(before[pos as int]));
        }
    }
}

/// The files, where those under the directory `root` are gone.
pub open spec fn absent_under(files: Seq<FileView>, root: Seq<char>) -> Seq<FileView> {
    files.map_values(
        |f: FileView|
            if is_under(f.path, root) {
                FileView { is_present: false, ..f }
            } else {
                f
            },
    )
}

/// Records that the files under the directory `root_dir` are gone.
pub fn mark_all_absent(db: &mut Database, root_dir: &str)
    requires
        old(db).wf(),
    ensures
        final(db).wf(),
        final(db).files() == absent_under(old(db).files(), root_dir@),
        final(db).last_file_id() == old(db).last_file_id(),
        final(db).backups() == old(db).backups(),
        final(db).last_backup_id() == old(db).last_backup_id(),
{
    let ghost before = db.files();
    let ghost after = absent_under(before, root_dir@);
    let n: usize = db.files.len();
    for i in 0..n
        invariant
            n == before.len(),
            db.files@.len() == before.len(),
            after == absent_under(before, root_dir@),
            forall|j: int| 0 <= j < i ==> (#[trigger] db.files@[j])@ == after[j],
            forall|j: int| i <= j < before.len() ==> (#[trigger] db.files@[j])@ == before[j],
            db.backups@ == old(db).backups@,
            db.last_file_id == old(db).last_file_id,
            db.last_backup_id == old(db).last_backup_id,
    {
        if lies_under(db.files[i].path.as_str(), root_dir) {
            let mut new: FileRecord = db.files[i].clone();
            new.is_present = false;
            db.files.set(i, new);
        }
    }
    proof {
        assert(db.files() == after);
        assert(forall|i: int|
            0 <= i < after.len() ==> (#[trigger] after[i]).path == before[i].path && after[i].id
                == before[i].id);
    }
}

/// The file at `path`, if there is a record of it.
pub fn get_file_by_path(db: &Database, path: &str) -> (r: Option<FileRecord>)
    requires
        db.wf(),
    ensures
        match r {
            Some(f) => f@.path == path@ && db.files().contains(f@),
            None => !has_path(db.files(), path@),
        },
{
    let (found, pos) = db.locate(path);
    if found {
        assert(db.files()[pos as int] == db.files@[pos as int]@);
        Some(db.files[pos].clone())
    } else {
        proof {
            text_order_is_irreflexive(path@);
        }
        None
    }
}

// ---------------------------------------------------------------------------
// Listings
// ---------------------------------------------------------------------------

/// Files that are there.
pub open spec fn present() -> spec_fn(FileView) -> bool {
    |f: FileView| f.is_present
}

/// Files that are there, have no hash and are at most `max` bytes long.
pub open spec fn unhashed(max: u64) -> spec_fn(FileView) -> bool {
    |f: FileView| f.is_present && f.content_hash is None && f.size_bytes <= max
}

/// Files that are there and have `query` in their name or path, where ASCII
/// letters match in either case.
pub open spec fn named(query: Seq<char>) -> spec_fn(FileView) -> bool {
    |f: FileView|
        f.is_present && (has_text(ascii_folded(f.name), ascii_folded(query)) || has_text(
            ascii_folded(f.path),
            ascii_folded(query),
        ))
}

/// Files of a category that are there.
pub open spec fn in_category(category: FileCategory) -> spec_fn(FileView) -> bool {
    |f: FileView| f.is_present && f.category == category
}

/// Files that are there and have the given hash.
pub open spec fn with_content(hash: Seq<char>) -> spec_fn(FileView) -> bool {
    |f: FileView| f.is_present && f.content_hash == Some(hash)
}

/// Files that are there and have a hash.
pub open spec fn hashed() -> spec_fn(FileView) -> bool {
    |f: FileView| f.is_present && f.content_hash is Some
}

/// Files that are there and are under the directory `root`.
pub open spec fn under(root: Seq<char>) -> spec_fn(FileView) -> bool {
    |f: FileView| f.is_present && is_under(f.path, root)
}

/// The order of a listing.
#[derive(Clone, Copy, PartialEq, Eq, Structural)]
pub enum FileOrder {
    /// By path.
    Path,
    /// By name, and by path where names are the same.
    Name,
    /// By size, the smallest first, and by path where sizes are the same.
    Size,
    /// By hash, and by path where hashes are the same.
    Hash,
}

/// The hash of a file; empty where it has none.
pub open spec fn hash_of(f: FileView) -> Seq<char> {
    match f.content_hash {
        Some(h) => h,
        None => Seq::empty(),
    }
}

impl FileOrder {
    /// Whether `a` is listed before `b`.
    pub open spec fn lists_first(self, a: FileView, b: FileView) -> bool {
        match self {
            FileOrder::Path => text_before(a.path, b.path),
            FileOrder::Name => text_before(a.name, b.name) || (a.name == b.name && text_before(
                a.path,
                b.path,
            )),
            FileOrder::Size => a.size_bytes < b.size_bytes || (a.size_bytes == b.size_bytes
                && text_before(a.path, b.path)),
            FileOrder::Hash => text_before(hash_of(a), hash_of(b)) || (hash_of(a) == hash_of(b)
                && text_before(a.path, b.path)),
        }
    }
}

/// Whether `out` lists the files that `wanted` asks for, each once, in the
/// given order.
pub open spec fn is_listing(
    files: Seq<FileView>,
    wanted: spec_fn(FileView) -> bool,
    order: FileOrder,
    out: Seq<FileView>,
) -> bool {
    &&& forall|i: int, j: int|
        0 <= i < j < out.len() ==> order.lists_first(#[trigger] out[i], #[trigger] out[j])
    &&& forall|f: FileView| #[trigger] out.contains(f) <==> files.contains(f) && wanted(f)
}

/// What a query asks for.
enum Wanted {
    Present,
    Unhashed(u64),
    Named(String),
    InCategory(FileCategory),
    WithContent(String),
    Hashed,
    Under(String),
}

impl Wanted {
    spec fn test(self) -> spec_fn(FileView) -> bool {
        match self {
            Wanted::Present => present(),
            Wanted::Unhashed(max) => unhashed(max),
            Wanted::Named(query) => named(query@),
            Wanted::InCategory(category) => in_category(category),
            Wanted::WithContent(hash) => with_content(hash@),
            Wanted::Hashed => hashed(),
            Wanted::Under(root) => under(root@),
        }
    }

    fn accepts(&self, f: &FileRecord) -> (r: bool)
        ensures
            r == self.test()(f@),
    {
        if !f.is_present {
            return false;
        }
        match self {
            Wanted::Present => true,
            Wanted::Unhashed(max) => f.content_hash.is_none() && f.size_bytes <= *max,
            Wanted::Named(query) => contains_ignoring_ascii_case(f.name.as_str(), query.as_str())
                || contains_ignoring_ascii_case(f.path.as_str(), query.as_str()),
            Wanted::InCategory(category) => f.category == *category,
            Wanted::WithContent(hash) => match &f.content_hash {
                Some(h) => same_text(h.as_str(), hash.as_str()),
                None => false,
            },
            Wanted::Hashed => f.content_hash.is_some(),
            Wanted::Under(root) => lies_under(f.path.as_str(), root.as_str()),
        }
    }
}

/// The files that a query asks for, in the order of their paths.
fn select(files: &Vec<FileRecord>, wanted: &Wanted) -> (out: Vec<FileRecord>)
    requires
        in_path_order(file_views(files@)),
    ensures
        is_listing(file_views(files@), wanted.test(), FileOrder::Path, file_views(out@)),
{
    let ghost all = file_views(files@);
    let mut out: Vec<FileRecord> = Vec::new();
    let ghost mut from: Seq<int> = Seq::empty();
    for i in 0..files.len()
        invariant
            all == file_views(files@),
            from.len() == out@.len(),
            forall|k: int| 0 <= k < from.len() ==> 0 <= #[trigger] from[k] < i && out@[k]@ == all[from[k]]
                && wanted.test()(all[from[k]]),
            forall|k: int, l: int| 0 <= k < l < from.len() ==> #[trigger] from[k] < #[trigger] from[l],
            forall|j: int| 0 <= j < i && #[trigger] wanted.test()(all[j]) ==> from.contains(j),
    {
        assert(all[i as int] == files@[i as int]@);
        if wanted.accepts(&files[i]) {
            out.push(files[i].clone());
            proof {
                let longer = from.push(i as int);
                assert forall|j: int| 0 <= j < i + 1 && #[trigger] wanted.test()(all[j]) implies longer.contains(j) by {
                    if j < i {
                        let k = choose|k: int| 0 <= k < from.len() && from[k] == j;
                        assert(longer[k] == j);
                    } else {
                        assert(longer[from.len() as int] == j);
                    }
                }
                from = longer;
            }
        }
    }
    proof {
        let res = file_views(out@);
        assert forall|f: FileView| #[trigger] res.contains(f) <==> all.contains(f) && wanted.test()(f) by {
            if res.contains(f) {
                let k = choose|k: int| 0 <= k < res.len() && res[k] == f;
                assert(out@[k]@ == all[from[k]]);
                assert(all[from[k]] == f);
            }
            if all.contains(f) && wanted.test()(f) {
                let j = choose|j: int| 0 <= j < all.len() && all[j] == f;
                assert(wanted.test()(all[j]));
                let k = choose|k: int| 0 <= k < from.len() && from[k] == j;
                assert(from.contains(j));
                assert(res[k] == f);
            }
        }
        assert forall|k: int, l: int| 0 <= k < l < res.len() implies FileOrder::Path.lists_first(
            #[trigger] res[k],
            #[trigger] res[l],
        ) by {
            assert(from[k] < from[l]);
            assert(out@[k]@ == all[from[k]] && out@[l]@ == all[from[l]]);
        }
    }
    out
}

/// The files of a listing by path, at the positions of a stable order.
fn reorder<K: SortKey>(files: &Vec<FileRecord>, keys: &Vec<K>) -> (out: (Vec<FileRecord>, Ghost<Seq<usize>>))
    requires
        keys@.len() == files@.len(),
    ensures
        is_stable_order(keys@, out.1@),
        out.0@.len() == files@.len(),
        forall|k: int| 0 <= k < out.0@.len() ==> #[trigger] out.0@[k] == files@[out.1@[k] as int],
        forall|f: FileView| #[trigger] file_views(out.0@).contains(f) <==> file_views(files@).contains(f),
{
    let p: Vec<usize> = stable_order(keys);
    let mut out: Vec<FileRecord> = Vec::new();
    for i in 0..p.len()
        invariant
            is_stable_order(keys@, p@),
            keys@.len() == files@.len(),
            out@.len() == i,
            forall|k: int| 0 <= k < i ==> #[trigger] out@[k] == files@[p@[k] as int],
    {
        out.push(files[p[i]].clone());
    }
    proof {
        stable_order_is_permutation(keys@, p@);
        let a = file_views(files@);
        let b = file_views(out@);
        assert forall|f: FileView| #[trigger] b.contains(f) <==> a.contains(f) by {
            if b.contains(f) {
                let k = choose|k: int| 0 <= k < b.len() && b[k] == f;
                assert(a[p@[k] as int] == f);
            }
            if a.contains(f) {
                let j = choose|j: int| 0 <= j < a.len() && a[j] == f;
                assert(lists(p@, j));
                let k = choose|k: int| 0 <= k < p@.len() && #[trigger] p@[k] == j;
                assert(b[k] == f);
            }
        }
    }
    (out, Ghost(p@))
}

/// The files that a query asks for, in the order of their names.
fn select_by_name(files: &Vec<FileRecord>, wanted: &Wanted) -> (out: Vec<FileRecord>)
    requires
        in_path_order(file_views(files@)),
    ensures
        is_listing(file_views(files@), wanted.test(), FileOrder::Name, file_views(out@)),
{
    let found: Vec<FileRecord> = select(files, wanted);
    let mut keys: Vec<String> = Vec::new();
    for i in 0..found.len()
        invariant
            keys@.len() == i,
            forall|k: int| 0 <= k < i ==> (#[trigger] keys@[k])@ == found@[k].name@,
    {
        keys.push(found[i].name.clone());
    }
    let (out, Ghost(p)) = reorder(&found, &keys);
    proof {
        let a = file_views(found@);
        let b = file_views(out@);
        assert forall|k: int, l: int| 0 <= k < l < b.len() implies FileOrder::Name.lists_first(
            #[trigger] b[k],
            #[trigger] b[l],
        ) by {
            assert(out@[k] == found@[p[k] as int] && out@[l] == found@[p[l] as int]);
            assert(ahead(keys@, p[k] as int, p[l] as int));
            assert(b[k] == a[p[k] as int] && b[l] == a[p[l] as int]);
            text_order_is_total(b[k].name, b[l].name);
        }
    }
    out
}

/// The files that a query asks for, in the order of their sizes.
fn select_by_size(files: &Vec<FileRecord>, wanted: &Wanted) -> (out: Vec<FileRecord>)
    requires
        in_path_order(file_views(files@)),
    ensures
        is_listing(file_views(files@), wanted.test(), FileOrder::Size, file_views(out@)),
{
    let found: Vec<FileRecord> = select(files, wanted);
    let mut keys: Vec<u64> = Vec::new();
    for i in 0..found.len()
        invariant
            keys@.len() == i,
            forall|k: int| 0 <= k < i ==> #[trigger] keys@[k] == found@[k].size_bytes,
    {
        keys.push(found[i].size_bytes);
    }
    let (out, Ghost(p)) = reorder(&found, &keys);
    proof {
        let a = file_views(found@);
        let b = file_views(out@);
        assert forall|k: int, l: int| 0 <= k < l < b.len() implies FileOrder::Size.lists_first(
            #[trigger] b[k],
            #[trigger] b[l],
        ) by {
            assert(out@[k] == found@[p[k] as int] && out@[l] == found@[p[l] as int]);
            assert(ahead(keys@, p[k] as int, p[l] as int));
            assert(b[k] == a[p[k] as int] && b[l] == a[p[l] as int]);
        }
    }
    out
}

/// The files that are there, in the order of their paths.
pub fn get_all_present_files(db: &Database) -> (r: Vec<FileRecord>)
    requires
        db.wf(),
    ensures
        is_listing(db.files(), present(), FileOrder::Path, file_views(r@)),
{
    select(&db.files, &Wanted::Present)
}

/// The files that are there, have no hash and are at most `max_size` bytes
/// long, the smallest first.
pub fn get_unhashed_files(db: &Database, max_size: u64) -> (r: Vec<FileRecord>)
    requires
        db.wf(),
    ensures
        is_listing(db.files(), unhashed(max_size), FileOrder::Size, file_views(r@)),
{
    select_by_size(&db.files, &Wanted::Unhashed(max_size))
}

/// The most files that a search by name gives.
pub const NAME_SEARCH_LIMIT: usize = 500;

/// The first `n` items.
pub open spec fn at_most<T>(s: Seq<T>, n: int) -> Seq<T> {
    if s.len() <= n {
        s
    } else {
        s.take(n)
    }
}

/// The files that are there and have `query` in their name or path, where
/// ASCII letters match in either case: the first [`NAME_SEARCH_LIMIT`] in the
/// order of their names.
pub fn search_files_by_name(db: &Database, query: &str) -> (r: Vec<FileRecord>)
    requires
        db.wf(),
    ensures
        exists|all: Seq<FileView>| #[trigger]
            is_listing(db.files(), named(query@), FileOrder::Name, all) && file_views(r@) == at_most(
                all,
                NAME_SEARCH_LIMIT as int,
            ),
{
    let mut out: Vec<FileRecord> = get_named_files(db, query);
    let ghost all = file_views(out@);
    assert(is_listing(db.files(), named(query@), FileOrder::Name, all));
    if out.len() > NAME_SEARCH_LIMIT {
        out.truncate(NAME_SEARCH_LIMIT);
        assert(file_views(out@) == all.take(NAME_SEARCH_LIMIT as int));
    }
    out
}

/// The files that are there and have `query` in their name or path, where ASCII
/// letters match in either case, in the order of their names.
pub fn get_named_files(db: &Database, query: &str) -> (r: Vec<FileRecord>)
    requires
        db.wf(),
    ensures
        is_listing(db.files(), named(query@), FileOrder::Name, file_views(r@)),
{
    let wanted: Wanted = Wanted::Named(query.to_owned());
    select_by_name(&db.files, &wanted)
}

/// The files of a category that are there, in the order of their names.
pub fn search_files_by_category(db: &Database, category: &FileCategory) -> (r: Vec<FileRecord>)
    requires
        db.wf(),
    ensures
        is_listing(db.files(), in_category(*category), FileOrder::Name, file_views(r@)),
{
    select_by_name(&db.files, &Wanted::InCategory(*category))
}

/// The files that are there and are under the directory `root`, in the order of
/// their paths.
pub fn get_files_under(db: &Database, root: &str) -> (r: Vec<FileRecord>)
    requires
        db.wf(),
    ensures
        is_listing(db.files(), under(root@), FileOrder::Path, file_views(r@)),
{
    let wanted: Wanted = Wanted::Under(root.to_owned());
    select(&db.files, &wanted)
}

/// The files that are there and have the given hash, in the order of their
/// paths.
pub fn get_files_with_hash(db: &Database, hash: &str) -> (r: Vec<FileRecord>)
    requires
        db.wf(),
    ensures
        is_listing(db.files(), with_content(hash@), FileOrder::Path, file_views(r@)),
{
    let wanted: Wanted = Wanted::WithContent(hash.to_owned());
    select(&db.files, &wanted)
}

/// There is only one listing of the same files in the same order.
pub proof fn listing_is_unique(
    files: Seq<FileView>,
    wanted: spec_fn(FileView) -> bool,
    order: FileOrder,
    a: Seq<FileView>,
    b: Seq<FileView>,
)
    requires
        is_listing(files, wanted, order, a),
        is_listing(files, wanted, order, b),
    ensures
        a == b,
{
    assert forall|f: FileView| #[trigger] a.contains(f) <==> b.contains(f) by {}
    sorted_lists_agree(order, a, b);
}

proof fn lists_first_is_strict(order: FileOrder, a: FileView, b: FileView, c: FileView)
    ensures
        !order.lists_first(a, a),
        order.lists_first(a, b) && order.lists_first(b, c) ==> order.lists_first(a, c),
{
    text_order_is_irreflexive(a.path);
    text_order_is_irreflexive(a.name);
    text_order_is_irreflexive(hash_of(a));
    if text_before(hash_of(a), hash_of(b)) && text_before(hash_of(b), hash_of(c)) {
        text_order_is_transitive(hash_of(a), hash_of(b), hash_of(c));
    }
    if text_before(a.path, b.path) && text_before(b.path, c.path) {
        text_order_is_transitive(a.path, b.path, c.path);
    }
    if text_before(a.name, b.name) && text_before(b.name, c.name) {
        text_order_is_transitive(a.name, b.name, c.name);
    }
}

proof fn sorted_lists_agree(order: FileOrder, a: Seq<FileView>, b: Seq<FileView>)
    requires
        forall|i: int, j: int|
            0 <= i < j < a.len() ==> order.lists_first(#[trigger] a[i], #[trigger] a[j]),
        forall|i: int, j: int|
            0 <= i < j < b.len() ==> order.lists_first(#[trigger] b[i], #[trigger] b[j]),
        forall|f: FileView| #[trigger] a.contains(f) <==> b.contains(f),
    ensures
        a == b,
    decreases a.len(),
{
    if a.len() == 0 {
        if b.len() > 0 {
            assert(b.contains(b[0]));
            assert(a.contains(b[0]));
        }
        assert(a == b);
    } else {
        assert(a.contains(a.last()));
        assert(b.contains(a.last()));
        assert(b.contains(b.last()));
        assert(a.contains(b.last()));
        let i = choose|i: int| 0 <= i < a.len() && a[i] == b.last();
        let j = choose|j: int| 0 <= j < b.len() && b[j] == a.last();
        if a.last() != b.last() {
            assert(order.lists_first(a[i], a[a.len() - 1]));
            assert(order.lists_first(b[j], b[b.len() - 1]));
            lists_first_is_strict(order, a.last(), b.last(), a.last());
        }
        let (x, y) = (a.drop_last(), b.drop_last());
        assert forall|f: FileView| #[trigger] x.contains(f) <==> y.contains(f) by {
            lists_first_is_strict(order, a.last(), a.last(), a.last());
            if x.contains(f) {
                let k = choose|k: int| 0 <= k < x.len() && x[k] == f;
                assert(a[k] == f && a.contains(f));
                assert(order.lists_first(a[k], a[a.len() - 1]));
                let l = choose|l: int| 0 <= l < b.len() && b[l] == f;
                assert(b.contains(f));
                assert(y[l] == f);
            }
            if y.contains(f) {
                let k = choose|k: int| 0 <= k < y.len() && y[k] == f;
                assert(b[k] == f && b.contains(f));
                assert(order.lists_first(b[k], b[b.len() - 1]));
                let l = choose|l: int| 0 <= l < a.len() && a[l] == f;
                assert(a.contains(f));
                assert(x[l] == f);
            }
        }
        sorted_lists_agree(order, x, y);
        assert(a == x.push(a.last()));
        assert(b == y.push(b.last()));
    }
}

// ---------------------------------------------------------------------------
// Duplicates
// ---------------------------------------------------------------------------

/// The files that are there and have a hash, in the order of their hashes.
fn select_by_hash(files: &Vec<FileRecord>) -> (out: Vec<FileRecord>)
    requires
        in_path_order(file_views(files@)),
    ensures
        is_listing(file_views(files@), hashed(), FileOrder::Hash, file_views(out@)),
{
    let found: Vec<FileRecord> = select(files, &Wanted::Hashed);
    let mut keys: Vec<String> = Vec::new();
    for i in 0..found.len()
        invariant
            keys@.len() == i,
            forall|k: int| 0 <= k < i ==> (#[trigger] keys@[k])@ == hash_of(found@[k]@),
    {
        match &found[i].content_hash {
            Some(h) => keys.push(h.clone()),
            None => keys.push(String::new()),
        }
    }
    let (out, Ghost(p)) = reorder(&found, &keys);
    proof {
        let a = file_views(found@);
        let b = file_views(out@);
        assert forall|k: int, l: int| 0 <= k < l < b.len() implies FileOrder::Hash.lists_first(
            #[trigger] b[k],
            #[trigger] b[l],
        ) by {
            assert(out@[k] == found@[p[k] as int] && out@[l] == found@[p[l] as int]);
            assert(ahead(keys@, p[k] as int, p[l] as int));
            assert(b[k] == a[p[k] as int] && b[l] == a[p[l] as int]);
            assert(keys@[p[k] as int]@ == hash_of(b[k]) && keys@[p[l] as int]@ == hash_of(b[l]));
            text_order_is_total(hash_of(b[k]), hash_of(b[l]));
        }
    }
    out
}

/// Whether two or more files that are there have the given hash.
pub open spec fn shared(files: Seq<FileView>, hash: Seq<char>) -> bool {
    exists|i: int, j: int|
        0 <= i < j < files.len() && with_content(hash)(#[trigger] files[i]) && with_content(hash)(
            #[trigger] files[j],
        )
}

/// The bytes that all files of a group but one take.
pub open spec fn waste(group: Seq<FileView>) -> int {
    group[0].size_bytes * (group.len() - 1)
}

/// Whether `g` is the group of the files with its hash.
pub open spec fn is_group(files: Seq<FileView>, g: GroupView) -> bool {
    &&& is_listing(files, with_content(g.content_hash), FileOrder::Path, g.files)
    &&& g.files.len() >= 2
    &&& g.wasted_bytes == waste(g.files)
}

/// Whether there is a group for the given hash.
pub open spec fn has_group(groups: Seq<GroupView>, hash: Seq<char>) -> bool {
    exists|i: int| 0 <= i < groups.len() && (#[trigger] groups[i]).content_hash == hash
}

/// Whether the group `a` is listed before the group `b`: it wastes more, or as
/// much and its hash is first.
pub open spec fn wastes_more(a: GroupView, b: GroupView) -> bool {
    a.wasted_bytes > b.wasted_bytes || (a.wasted_bytes == b.wasted_bytes && text_before(
        a.content_hash,
        b.content_hash,
    ))
}

/// Whether `groups` holds a group for every hash that two or more files share,
/// and no other, the most wasteful first.
pub open spec fn is_grouping(files: Seq<FileView>, groups: Seq<GroupView>) -> bool {
    &&& forall|i: int| 0 <= i < groups.len() ==> is_group(files, #[trigger] groups[i])
    &&& forall|i: int, j: int|
        0 <= i < j < groups.len() ==> wastes_more(#[trigger] groups[i], #[trigger] groups[j])
    &&& forall|hash: Seq<char>| #[trigger] shared(files, hash) ==> has_group(groups, hash)
}

/// Whether the copies of some file take more bytes than can be counted.
pub open spec fn waste_overflows(files: Seq<FileView>) -> bool {
    exists|hash: Seq<char>, group: Seq<FileView>| #[trigger]
        is_listing(files, with_content(hash), FileOrder::Path, group) && group.len() >= 2 && waste(
            group,
        ) > u64::MAX
}

/// The run of files with the same hash that begins at `start`, and where it
/// ends.
fn take_run(sorted: &Vec<FileRecord>, start: usize) -> (r: (Vec<FileRecord>, usize))
    requires
        start < sorted@.len(),
        forall|k: int| 0 <= k < sorted@.len() ==> (#[trigger] sorted@[k]).content_hash is Some,
    ensures
        start < r.1 <= sorted@.len(),
        r.0@ == sorted@.subrange(start as int, r.1 as int),
        forall|k: int|
            start <= k < r.1 ==> hash_of((#[trigger] sorted@[k])@) == hash_of(sorted@[start as int]@),
        r.1 < sorted@.len() ==> hash_of(sorted@[r.1 as int]@) != hash_of(sorted@[start as int]@),
{
    let hash: String = match &sorted[start].content_hash {
        Some(h) => h.clone(),
        None => String::new(),
    };
    let mut run: Vec<FileRecord> = Vec::new();
    run.push(sorted[start].clone());
    let n: usize = sorted.len();
    let mut end: usize = start + 1;
    while end < n
        invariant
            n == sorted@.len(),
            start < end <= n,
            forall|k: int| 0 <= k < sorted@.len() ==> (#[trigger] sorted@[k]).content_hash is Some,
            hash@ == hash_of(sorted@[start as int]@),
            run@ == sorted@.subrange(start as int, end as int),
            forall|k: int| start <= k < end ==> hash_of((#[trigger] sorted@[k])@) == hash@,
        decreases sorted@.len() - end,
    {
        let same: bool = match &sorted[end].content_hash {
            Some(h) => same_text(h.as_str(), hash.as_str()),
            None => false,
        };
        if !same {
            return (run, end);
        }
        run.push(sorted[end].clone());
        end = end + 1;
    }
    (run, end)
}

/// A run of the same hash that cannot be made longer lists the files with that
/// hash.
proof fn run_is_listing(files: Seq<FileView>, sorted: Seq<FileView>, start: int, end: int, hash: Seq<char>)
    requires
        is_listing(files, hashed(), FileOrder::Hash, sorted),
        0 <= start < end <= sorted.len(),
        forall|k: int| start <= k < end ==> hash_of(#[trigger] sorted[k]) == hash,
        forall|k: int| 0 <= k < start ==> hash_of(#[trigger] sorted[k]) != hash,
        forall|k: int| end <= k < sorted.len() ==> hash_of(#[trigger] sorted[k]) != hash,
    ensures
        is_listing(files, with_content(hash), FileOrder::Path, sorted.subrange(start, end)),
{
    let run = sorted.subrange(start, end);
    text_order_is_irreflexive(hash);
    assert forall|i: int, j: int| 0 <= i < j < run.len() implies FileOrder::Path.lists_first(
        #[trigger] run[i],
        #[trigger] run[j],
    ) by {
        assert(run[i] == sorted[start + i] && run[j] == sorted[start + j]);
        assert(FileOrder::Hash.lists_first(sorted[start + i], sorted[start + j]));
    }
    assert forall|f: FileView| #[trigger] run.contains(f) <==> files.contains(f) && with_content(hash)(f) by {
        if run.contains(f) {
            let k = choose|k: int| 0 <= k < run.len() && run[k] == f;
            assert(sorted[start + k] == f);
            assert(sorted.contains(f));
        }
        if files.contains(f) && with_content(hash)(f) {
            assert(hashed()(f));
            assert(sorted.contains(f));
            let k = choose|k: int| 0 <= k < sorted.len() && sorted[k] == f;
            assert(hash_of(sorted[k]) == hash);
            assert(run[k - start] == f);
        }
    }
}

/// Whether no other file in the list has the hash of the one at `k`.
spec fn alone(sorted: Seq<FileView>, k: int) -> bool {
    forall|l: int| 0 <= l < sorted.len() && l != k ==> hash_of(#[trigger] sorted[l]) != hash_of(sorted[k])
}

/// The groups of the files in a listing by hash, in the order of their hashes;
/// nothing where the waste of one cannot be counted.
fn groups_in(sorted: &Vec<FileRecord>, Ghost(files): Ghost<Seq<FileView>>) -> (r: Option<Vec<DuplicateGroup>>)
    requires
        is_listing(files, hashed(), FileOrder::Hash, file_views(sorted@)),
        in_path_order(files),
    ensures
        match r {
            Some(groups) => {
                &&& forall|i: int| 0 <= i < group_views(groups@).len() ==> is_group(files, #[trigger] group_views(groups@)[i])
                &&& forall|i: int, j: int|
                    0 <= i < j < group_views(groups@).len() ==> text_before(
                        (#[trigger] group_views(groups@)[i]).content_hash,
                        (#[trigger] group_views(groups@)[j]).content_hash,
                    )
                &&& forall|hash: Seq<char>| #[trigger] shared(files, hash) ==> has_group(group_views(groups@), hash)
            },
            None => waste_overflows(files),
        },
{
    let ghost all = file_views(sorted@);
    proof {
        assert forall|k: int| 0 <= k < sorted@.len() implies (#[trigger] sorted@[k]).content_hash is Some by {
            assert(all[k] == sorted@[k]@);
            assert(all.contains(all[k]));
        }
    }
    let mut groups: Vec<DuplicateGroup> = Vec::new();
    let ghost mut gv: Seq<GroupView> = group_views(groups@);
    let mut i: usize = 0;
    while i < sorted.len()
        invariant
            gv == group_views(groups@),
            all == file_views(sorted@),
            is_listing(files, hashed(), FileOrder::Hash, all),
            forall|k: int| 0 <= k < sorted@.len() ==> (#[trigger] sorted@[k]).content_hash is Some,
            i <= sorted@.len(),
            forall|k: int| 0 <= k < i < all.len() ==> hash_of(#[trigger] all[k]) != hash_of(all[i as int]),
            forall|k: int| 0 <= k < gv.len() ==> is_group(files, #[trigger] gv[k]),
            forall|k: int, l: int|
                0 <= k < l < gv.len() ==> text_before(
                    (#[trigger] gv[k]).content_hash,
                    (#[trigger] gv[l]).content_hash,
                ),
            forall|k: int|
                0 <= k < gv.len() ==> exists|x: int|
                    0 <= x < i && hash_of(#[trigger] all[x]) == (#[trigger] gv[k]).content_hash,
            forall|k: int|
                0 <= k < i ==> has_group(gv, hash_of(#[trigger] all[k])) || alone(all, k),
        decreases sorted@.len() - i,
    {
        let (run, end) = take_run(sorted, i);
        let ghost hash = hash_of(all[i as int]);
        let ghost part = all.subrange(i as int, end as int);
        proof {
            assert(all[i as int] == sorted@[i as int]@);
            assert forall|k: int| i <= k < end implies hash_of(#[trigger] all[k]) == hash by {
                assert(all[k] == sorted@[k]@);
            }
            if end < all.len() {
                assert(all[end as int] == sorted@[end as int]@);
            }
            assert forall|k: int| end <= k < all.len() implies hash_of(#[trigger] all[k]) != hash by {
                assert(FileOrder::Hash.lists_first(all[i as int], all[end as int]));
                if k > end {
                    assert(FileOrder::Hash.lists_first(all[end as int], all[k]));
                    text_order_is_irreflexive(hash);
                    if hash_of(all[k]) == hash {
                        if text_before(hash_of(all[end as int]), hash) {
                            text_order_is_transitive(hash, hash_of(all[end as int]), hash);
                        }
                    }
                }
            }
            run_is_listing(files, all, i as int, end as int, hash);
            assert(file_views(run@) == part);
        }
        let ghost before = gv;
        if run.len() >= 2 {
            let size: u64 = run[0].size_bytes;
            let copies: u64 = (run.len() - 1) as u64;
            assert(waste(part) == size * copies);
            let wasted: u64 = match size.checked_mul(copies) {
                Some(w) => w,
                None => {
                    return None;
                },
            };
            let content_hash: String = match &run[0].content_hash {
                Some(h) => h.clone(),
                None => String::new(),
            };
            proof {
                assert(run@[0] == sorted@[i as int]);
                assert(content_hash@ == hash);
                assert forall|k: int| 0 <= k < gv.len() implies text_before(
                    (#[trigger] gv[k]).content_hash,
                    hash,
                ) by {
                    let x = choose|x: int|
                        0 <= x < i && hash_of(#[trigger] all[x]) == gv[k].content_hash;
                    assert(FileOrder::Hash.lists_first(all[x], all[i as int]));
                    assert(hash_of(all[x]) != hash_of(all[i as int]));
                }
            }
            let group: DuplicateGroup = DuplicateGroup { content_hash, wasted_bytes: wasted, files: run };
            proof {
                assert(group_views(groups@.push(group)) == gv.push(group@));
                gv = gv.push(group@);
                assert(gv[before.len() as int].content_hash == hash);
            }
            groups.push(group);
        }
        proof {
            assert forall|k: int| 0 <= k < gv.len() implies exists|x: int|
                0 <= x < end && hash_of(#[trigger] all[x]) == (#[trigger] gv[k]).content_hash by {
                if k < before.len() {
                    assert(gv[k] == before[k]);
                    let x = choose|x: int|
                        0 <= x < i && hash_of(#[trigger] all[x]) == before[k].content_hash;
                    assert(hash_of(all[x]) == gv[k].content_hash);
                } else {
                    assert(hash_of(all[i as int]) == gv[k].content_hash);
                }
            }
            assert forall|k: int| 0 <= k < end implies has_group(gv, hash_of(#[trigger] all[k]))
                || alone(all, k) by {
                if k < i {
                    if has_group(before, hash_of(all[k])) {
                        let g = choose|g: int|
                            0 <= g < before.len() && (#[trigger] before[g]).content_hash == hash_of(all[k]);
                        assert(gv[g].content_hash == hash_of(all[k]));
                    }
                } else if run@.len() < 2 {
                    assert(end == i + 1);
                    assert(alone(all, k));
                }
            }
            assert forall|k: int| 0 <= k < end && end < all.len() implies hash_of(#[trigger] all[k])
                != hash_of(all[end as int]) by {
                if k < i {
                    assert(FileOrder::Hash.lists_first(all[k], all[i as int]));
                    assert(FileOrder::Hash.lists_first(all[i as int], all[end as int]));
                    assert(hash_of(all[k]) != hash_of(all[i as int]));
                    text_order_is_irreflexive(hash_of(all[k]));
                    text_order_is_transitive(hash_of(all[k]), hash, hash_of(all[end as int]));
                }
            }
        }
        i = end;
    }
    proof {
        assert forall|hash: Seq<char>| #[trigger] shared(files, hash) implies has_group(group_views(groups@), hash) by {
            let (a, b) = choose|a: int, b: int|
                0 <= a < b < files.len() && with_content(hash)(#[trigger] files[a]) && with_content(hash)(
                    #[trigger] files[b],
                );
            assert(files.contains(files[a]) && hashed()(files[a]));
            assert(files.contains(files[b]) && hashed()(files[b]));
            assert(all.contains(files[a]) && all.contains(files[b]));
            let x = choose|x: int| 0 <= x < all.len() && all[x] == files[a];
            let y = choose|y: int| 0 <= y < all.len() && all[y] == files[b];
            text_order_is_irreflexive(files[a].path);
            assert(x != y);
            assert(hash_of(all[x]) == hash && hash_of(all[y]) == hash);
            assert(!alone(all, x));
        }
    }
    Some(groups)
}

/// The error of a sum that the database cannot hold.
fn overflow() -> (r: FortressError)
    ensures
        r matches FortressError::Database(m) && m@ == "integer overflow"@,
{
    FortressError::Database("integer overflow".to_owned())
}

/// Whether `e` is the error of a sum that the database cannot hold.
pub open spec fn is_overflow(e: FortressError) -> bool {
    e matches FortressError::Database(m) && m@ == "integer overflow"@
}

/// The groups of two or more files that are there and have the same hash, the
/// most wasteful first. It fails only where the waste of one group cannot be
/// counted.
pub fn get_duplicate_groups(db: &Database) -> (r: FortressResult<Vec<DuplicateGroup>>)
    requires
        db.wf(),
    ensures
        match r {
            Ok(groups) => is_grouping(db.files(), group_views(groups@)),
            Err(e) => waste_overflows(db.files()) && is_overflow(e),
        },
        waste_overflows(db.files()) ==> r is Err,
{
    let ghost files = db.files();
    let sorted: Vec<FileRecord> = select_by_hash(&db.files);
    let by_hash: Vec<DuplicateGroup> = match groups_in(&sorted, Ghost(files)) {
        Some(g) => g,
        None => {
            return Err(overflow());
        },
    };
    let ghost bv = group_views(by_hash@);
    let mut keys: Vec<Descending<u64>> = Vec::new();
    for i in 0..by_hash.len()
        invariant
            bv == group_views(by_hash@),
            keys@.len() == i,
            forall|k: int| 0 <= k < i ==> (#[trigger] keys@[k]).0 == bv[k].wasted_bytes,
    {
        assert(bv[i as int] == by_hash@[i as int]@);
        keys.push(Descending(by_hash[i].wasted_bytes));
    }
    let p: Vec<usize> = stable_order(&keys);
    let mut groups: Vec<DuplicateGroup> = Vec::new();
    for i in 0..p.len()
        invariant
            bv == group_views(by_hash@),
            is_stable_order(keys@, p@),
            keys@.len() == by_hash@.len(),
            groups@.len() == i,
            forall|k: int| 0 <= k < i ==> (#[trigger] groups@[k])@ == bv[p@[k] as int],
    {
        assert(bv[p@[i as int] as int] == by_hash@[p@[i as int] as int]@);
        groups.push(by_hash[p[i]].clone());
    }
    proof {
        stable_order_is_permutation(keys@, p@);
        let gv = group_views(groups@);
        assert forall|i: int| 0 <= i < gv.len() implies #[trigger] gv[i] == bv[p@[i] as int] by {
            assert(gv[i] == groups@[i]@);
        }
        assert forall|i: int| 0 <= i < gv.len() implies is_group(files, #[trigger] gv[i]) by {
            assert(is_group(files, bv[p@[i] as int]));
        }
        assert forall|i: int, j: int| 0 <= i < j < gv.len() implies wastes_more(
            #[trigger] gv[i],
            #[trigger] gv[j],
        ) by {
            assert(ahead(keys@, p@[i] as int, p@[j] as int));
            assert(keys@[p@[i] as int].0 == gv[i].wasted_bytes);
            assert(keys@[p@[j] as int].0 == gv[j].wasted_bytes);
        }
        assert forall|hash: Seq<char>| #[trigger] shared(files, hash) implies has_group(gv, hash) by {
            assert(has_group(bv, hash));
            let k = choose|k: int| 0 <= k < bv.len() && (#[trigger] bv[k]).content_hash == hash;
            assert(lists(p@, k));
            let i = choose|i: int| 0 <= i < p@.len() && #[trigger] p@[i] == k;
            assert(gv[i].content_hash == hash);
        }
        if waste_overflows(files) {
            let (hash, group) = choose|hash: Seq<char>, group: Seq<FileView>| #[trigger]
                is_listing(files, with_content(hash), FileOrder::Path, group) && group.len() >= 2
                    && waste(group) > u64::MAX;
            listed_twice_is_shared(files, hash, group);
            assert(has_group(gv, hash));
            let i = choose|i: int| 0 <= i < gv.len() && (#[trigger] gv[i]).content_hash == hash;
            assert(is_group(files, gv[i]));
            listing_is_unique(files, with_content(hash), FileOrder::Path, group, gv[i].files);
        }
    }
    Ok(groups)
}

/// A hash that two listed files have is shared.
pub proof fn listed_twice_is_shared(files: Seq<FileView>, hash: Seq<char>, group: Seq<FileView>)
    requires
        is_listing(files, with_content(hash), FileOrder::Path, group),
        group.len() >= 2,
    ensures
        shared(files, hash),
{
    assert(group.contains(group[0]) && group.contains(group[1]));
    let i = choose|i: int| 0 <= i < files.len() && files[i] == group[0];
    let j = choose|j: int| 0 <= j < files.len() && files[j] == group[1];
    assert(files.contains(group[0]) && files.contains(group[1]));
    assert(FileOrder::Path.lists_first(group[0], group[1]));
    text_order_is_irreflexive(group[0].path);
    assert(with_content(hash)(files[i]) && with_content(hash)(files[j]));
    if i < j {
        assert(shared(files, hash));
    } else {
        assert(shared(files, hash));
    }
}

/// A group holds every copy: two files that are there and have the same hash
/// are in the same group, and files with different hashes are in different
/// ones.
pub proof fn copies_are_grouped(db: Database, groups: Seq<GroupView>, i: int, j: int)
    requires
        db.wf(),
        is_grouping(db.files(), groups),
        0 <= i < db.files().len(),
        0 <= j < db.files().len(),
        i != j,
        hashed()(db.files()[i]),
        hashed()(db.files()[j]),
    ensures
        db.files()[i].content_hash == db.files()[j].content_hash <==> exists|g: int|
            0 <= g < groups.len() && #[trigger] groups[g].files.contains(db.files()[i])
                && groups[g].files.contains(db.files()[j]),
{
    let files = db.files();
    if files[i].content_hash == files[j].content_hash {
        let hash = hash_of(files[i]);
        assert(with_content(hash)(files[i]) && with_content(hash)(files[j]));
        if i < j {
            assert(shared(files, hash));
        } else {
            assert(shared(files, hash));
        }
        let g = choose|g: int| 0 <= g < groups.len() && (#[trigger] groups[g]).content_hash == hash;
        assert(has_group(groups, hash));
        assert(is_group(files, groups[g]));
        assert(files.contains(files[i]) && files.contains(files[j]));
        assert(groups[g].files.contains(files[i]));
        assert(groups[g].files.contains(files[j]));
    }
    if exists|g: int|
        0 <= g < groups.len() && #[trigger] groups[g].files.contains(files[i]) && groups[g].files.contains(files[j]) {
        let g = choose|g: int|
            0 <= g < groups.len() && #[trigger] groups[g].files.contains(files[i])
                && groups[g].files.contains(files[j]);
        assert(is_group(files, groups[g]));
    }
}

// ---------------------------------------------------------------------------
// Statistics
// ---------------------------------------------------------------------------

/// The number of files that are there and their sizes, added up. It fails only
/// where the sum is more than the database can hold.
pub fn compute_stats(db: &Database) -> (r: FortressResult<ScanStats>)
    requires
        db.wf(),
    ensures
        exists|there: Seq<FileView>| #[trigger]
            is_listing(db.files(), present(), FileOrder::Path, there) && match r {
                Ok(stats) => {
                    &&& stats.files_found == there.len()
                    &&& stats.total_bytes == total_size(there)
                    &&& total_size(there) <= i64::MAX
                    &&& stats.files_new == 0
                    &&& stats.files_skipped == 0
                    &&& stats.duration_ms == 0
                },
                Err(e) => total_size(there) > i64::MAX && is_overflow(e),
            },
{
    let there: Vec<FileRecord> = get_all_present_files(db);
    assert(is_listing(db.files(), present(), FileOrder::Path, file_views(there@)));
    match checked_total(&there, i64::MAX as u64) {
        Some(total_bytes) => Ok(
            ScanStats {
                files_found: there.len() as u64,
                files_new: 0,
                files_skipped: 0,
                total_bytes,
                duration_ms: 0,
            },
        ),
        None => Err(overflow()),
    }
}

// ---------------------------------------------------------------------------
// Backups
// ---------------------------------------------------------------------------

/// Whether a backup with the given archive is recorded.
pub open spec fn has_archive(backups: Seq<BackupView>, archive_path: Seq<char>) -> bool {
    exists|i: int| 0 <= i < backups.len() && #[trigger] backups[i].archive_path == archive_path
}

/// Records a backup under a new id, and gives the id. It fails where its
/// archive is recorded already, and where every id has been given out.
pub fn insert_backup(db: &mut Database, record: &BackupRecord) -> (r: FortressResult<i64>)
    requires
        old(db).wf(),
    ensures
        final(db).wf(),
        final(db).files() == old(db).files(),
        final(db).last_file_id() == old(db).last_file_id(),
        r is Err <==> has_archive(old(db).backups(), record@.archive_path) || old(db).last_backup_id()
            == i64::MAX,
        match r {
            Ok(id) => {
                &&& id == old(db).last_backup_id() + 1
                &&& final(db).last_backup_id() == id
                &&& final(db).backups() == old(db).backups().push(
                    (BackupView { id: Some(id), ..record@ }),
                )
            },
            Err(e) => {
                &&& *final(db) == *old(db)
                &&& e matches FortressError::Database(m) && m@ == if has_archive(
                    old(db).backups(),
                    record@.archive_path,
                ) {
                    "UNIQUE constraint failed: backups.archive_path"@
                } else {
                    "database or disk is full"@
                }
            },
        },
{
    let ghost before = db.backups();
    let n: usize = db.backups.len();
    for i in 0..n
        invariant
            n == db.backups@.len(),
            *db == *old(db),
            db.wf(),
            before == db.backups(),
            forall|j: int| 0 <= j < i ==> #[trigger] before[j].archive_path != record@.archive_path,
    {
        assert(before[i as int] == db.backups@[i as int]@);
        if same_text(db.backups[i].archive_path.as_str(), record.archive_path.as_str()) {
            assert(before[i as int].archive_path == record@.archive_path);
            return Err(
                FortressError::Database("UNIQUE constraint failed: backups.archive_path".to_owned()),
            );
        }
    }
    if db.last_backup_id == i64::MAX {
        return Err(FortressError::Database("database or disk is full".to_owned()));
    }
    let id: i64 = db.last_backup_id + 1;
    let mut new: BackupRecord = record.clone();
    new.id = Some(id);
    let ghost old_backups = db.backups@;
    db.backups.push(new);
    db.last_backup_id = id;
    proof {
        assert(backup_views(old_backups.push(new)) == before.push(new@));
        let after = before.push(new@);
        assert forall|i: int| 0 <= i < after.len() implies given_out(#[trigger] after[i].id, id) by {
            if i < before.len() {
                assert(given_out(before[i].id, old(db).last_backup_id()));
            }
        }
        assert forall|i: int, j: int| 0 <= i < j < after.len() implies id_of(#[trigger] after[i]) < id_of(
            #[trigger] after[j],
        ) by {
            assert(given_out(before[i].id, old(db).last_backup_id()));
        }
    }
    Ok(id)
}

/// Whether `a` is listed before `b`: it was made later, or at the same time and
/// recorded first.
pub open spec fn made_later(a: BackupView, b: BackupView) -> bool {
    earlier(b.created_at, a.created_at) || (a.created_at == b.created_at && id_of(a) < id_of(b))
}

/// Whether `out` lists all backups, the most recent first.
pub open spec fn is_backup_listing(backups: Seq<BackupView>, out: Seq<BackupView>) -> bool {
    &&& forall|i: int, j: int|
        0 <= i < j < out.len() ==> made_later(#[trigger] out[i], #[trigger] out[j])
    &&& forall|b: BackupView| #[trigger] out.contains(b) <==> backups.contains(b)
    &&& out.len() == backups.len()
}

/// All backups, the most recent first.
pub fn get_all_backups(db: &Database) -> (r: Vec<BackupRecord>)
    requires
        db.wf(),
    ensures
        is_backup_listing(db.backups(), backup_views(r@)),
{
    let mut keys: Vec<Descending<Timestamp>> = Vec::new();
    for i in 0..db.backups.len()
        invariant
            keys@.len() == i,
            forall|k: int| 0 <= k < i ==> (#[trigger] keys@[k]).0 == db.backups@[k].created_at,
    {
        keys.push(Descending(db.backups[i].created_at));
    }
    let p: Vec<usize> = stable_order(&keys);
    let mut out: Vec<BackupRecord> = Vec::new();
    for i in 0..p.len()
        invariant
            is_stable_order(keys@, p@),
            keys@.len() == db.backups@.len(),
            out@.len() == i,
            forall|k: int| 0 <= k < i ==> #[trigger] out@[k] == db.backups@[p@[k] as int],
    {
        out.push(db.backups[p[i]].clone());
    }
    proof {
        stable_order_is_permutation(keys@, p@);
        let a = db.backups();
        let b = backup_views(out@);
        assert forall|i: int, j: int| 0 <= i < j < b.len() implies made_later(
            #[trigger] b[i],
            #[trigger] b[j],
        ) by {
            assert(out@[i] == db.backups@[p@[i] as int] && out@[j] == db.backups@[p@[j] as int]);
            assert(ahead(keys@, p@[i] as int, p@[j] as int));
            assert(keys@[p@[i] as int].0 == out@[i].created_at);
            assert(keys@[p@[j] as int].0 == out@[j].created_at);
            assert(a[p@[i] as int] == b[i] && a[p@[j] as int] == b[j]);
        }
        assert forall|x: BackupView| #[trigger] b.contains(x) <==> a.contains(x) by {
            if b.contains(x) {
                let k = choose|k: int| 0 <= k < b.len() && b[k] == x;
                assert(out@[k] == db.backups@[p@[k] as int]);
                assert(a[p@[k] as int] == x);
            }
            if a.contains(x) {
                let j = choose|j: int| 0 <= j < a.len() && a[j] == x;
                assert(lists(p@, j));
                let k = choose|k: int| 0 <= k < p@.len() && #[trigger] p@[k] == j;
                assert(out@[k] == db.backups@[p@[k] as int]);
                assert(b[k] == x);
            }
        }
    }
    out
}

/// The backup with the given id, if there is one.
pub fn get_backup(db: &Database, id: i64) -> (r: Option<BackupRecord>)
    requires
        db.wf(),
    ensures
        match r {
            Some(b) => b@.id == Some(id) && db.backups().contains(b@),
            None => forall|i: int| 0 <= i < db.backups().len() ==> (#[trigger] db.backups()[i]).id != Some(id),
        },
{
    for i in 0..db.backups.len()
        invariant
            forall|j: int| 0 <= j < i ==> (#[trigger] db.backups()[j]).id != Some(id),
    {
        assert(db.backups()[i as int] == db.backups@[i as int]@);
        match db.backups[i].id {
            Some(k) => {
                if k == id {
                    return Some(db.backups[i].clone());
                }
            },
            None => {},
        }
    }
    None
}

/// The backups but the one with the given id.
pub open spec fn without_id(backups: Seq<BackupView>, id: i64) -> Seq<BackupView> {
    backups.filter(|b: BackupView| b.id != Some(id))
}

/// Forgets the backup with the given id. Nothing changes where there is none.
pub fn remove_backup(db: &mut Database, id: i64)
    requires
        old(db).wf(),
    ensures
        final(db).wf(),
        final(db).files() == old(db).files(),
        final(db).last_file_id() == old(db).last_file_id(),
        final(db).last_backup_id() == old(db).last_backup_id(),
        final(db).backups() == without_id(old(db).backups(), id),
{
    let ghost before = db.backups();
    let ghost keep = |b: BackupView| b.id != Some(id);
    let mut kept: Vec<BackupRecord> = Vec::new();
    let ghost mut from: Seq<int> = Seq::empty();
    let n: usize = db.backups.len();
    for i in 0..n
        invariant
            n == db.backups@.len(),
            *db == *old(db),
            before == db.backups(),
            keep == (|b: BackupView| b.id != Some(id)),
            backup_views(kept@) == before.take(i as int).filter(keep),
            from.len() == kept@.len(),
            forall|k: int| 0 <= k < from.len() ==> 0 <= #[trigger] from[k] < i && kept@[k]@ == before[from[k]],
            forall|k: int, l: int| 0 <= k < l < from.len() ==> #[trigger] from[k] < #[trigger] from[l],
    {
        proof {
            assert(before[i as int] == db.backups@[i as int]@);
            assert(before.take(i + 1).drop_last() == before.take(i as int));
            reveal_with_fuel(Seq::filter, 1);
        }
        let matches_id: bool = match db.backups[i].id {
            Some(k) => k == id,
            None => false,
        };
        if !matches_id {
            let record: BackupRecord = db.backups[i].clone();
            assert(backup_views(kept@.push(record)) == backup_views(kept@).push(record@));
            kept.push(record);
            proof {
                from = from.push(i as int);
            }
        }
    }
    assert(before.take(before.len() as int) == before);
    db.backups = kept;
    proof {
        let after = db.backups();
        assert forall|k: int| 0 <= k < after.len() implies #[trigger] after[k] == before[from[k]] by {
            assert(after[k] == kept@[k]@);
        }
        assert forall|k: int| 0 <= k < after.len() implies given_out(
            #[trigger] after[k].id,
            db.last_backup_id(),
        ) by {
            assert(after[k] == before[from[k]]);
        }
        assert forall|k: int, l: int| 0 <= k < l < after.len() implies id_of(#[trigger] after[k]) < id_of(
            #[trigger] after[l],
        ) && after[k].archive_path != after[l].archive_path by {
            assert(after[k] == before[from[k]] && after[l] == before[from[l]]);
            assert(from[k] < from[l]);
        }
    }
}

// ---------------------------------------------------------------------------
// Loading and saving
// ---------------------------------------------------------------------------

impl Database {
    /// A database of the given records, where they are as a database keeps
    /// them and the last ids are those that were given out.
    pub fn from_records(
        files: Vec<FileRecord>,
        backups: Vec<BackupRecord>,
        last_file_id: i64,
        last_backup_id: i64,
    ) -> (r: Option<Database>)
        ensures
            match r {
                Some(db) => {
                    &&& db.wf()
                    &&& db.files() == file_views(files@)
                    &&& db.backups() == backup_views(backups@)
                    &&& db.last_file_id() == last_file_id
                    &&& db.last_backup_id() == last_backup_id
                },
                None => !(files_wf(file_views(files@), last_file_id) && backups_wf(
                    backup_views(backups@),
                    last_backup_id,
                )),
            },
    {
        if last_file_id < 0 || last_backup_id < 0 {
            return None;
        }
        if !ids_fit(&files, last_file_id) || !paths_ascend(&files) || !backups_fit(
            &backups,
            last_backup_id,
        ) {
            return None;
        }
        Some(Database { files, backups, last_file_id, last_backup_id })
    }

    /// The records of all files, in the order of their paths.
    pub fn file_records(&self) -> (r: Vec<FileRecord>)
        ensures
            file_views(r@) == self.files(),
    {
        clone_records(&self.files)
    }

    /// The records of all backups, in the order of their ids.
    pub fn backup_records(&self) -> (r: Vec<BackupRecord>)
        ensures
            backup_views(r@) == self.backups(),
    {
        let mut out: Vec<BackupRecord> = Vec::new();
        for i in 0..self.backups.len()
            invariant
                out@ == self.backups@.take(i as int),
        {
            out.push(self.backups[i].clone());
        }
        assert(self.backups@.take(self.backups@.len() as int) == self.backups@);
        out
    }
}

/// Whether the paths of the records ascend.
fn paths_ascend(files: &Vec<FileRecord>) -> (r: bool)
    ensures
        r == in_path_order(file_views(files@)),
{
    let ghost all = file_views(files@);
    let mut i: usize = 1;
    while i < files.len()
        invariant
            i >= 1,
            all == file_views(files@),
            forall|j: int, k: int|
                0 <= j < k < i && k < all.len() ==> text_before(#[trigger] all[j].path, #[trigger] all[k].path),
        decreases files@.len() - i,
    {
        assert(all[i as int] == files@[i as int]@ && all[i - 1] == files@[i - 1]@);
        if !is_text_before(files[i - 1].path.as_str(), files[i].path.as_str()) {
            assert(!text_before(all[i - 1].path, all[i as int].path));
            return false;
        }
        assert forall|j: int, k: int| 0 <= j < k < i + 1 && k < all.len() implies text_before(
            #[trigger] all[j].path,
            #[trigger] all[k].path,
        ) by {
            if k == i && j < i - 1 {
                text_order_is_transitive(all[j].path, all[i - 1].path, all[i as int].path);
            }
        }
        i = i + 1;
    }
    true
}

/// Whether the ids of the records were given out, each once.
fn ids_fit(files: &Vec<FileRecord>, last: i64) -> (r: bool)
    ensures
        r == ids_wf(file_views(files@), last),
{
    let ghost all = file_views(files@);
    let mut keys: Vec<i64> = Vec::new();
    for i in 0..files.len()
        invariant
            all == file_views(files@),
            keys@.len() == i,
            forall|k: int| 0 <= k < i ==> #[trigger] all[k].id == Some(keys@[k]),
            forall|k: int| 0 <= k < i ==> given_out(#[trigger] all[k].id, last),
    {
        assert(all[i as int] == files@[i as int]@);
        match files[i].id {
            Some(k) => {
                if k > last {
                    return false;
                }
                keys.push(k);
            },
            None => {
                return false;
            },
        }
    }
    let p: Vec<usize> = stable_order(&keys);
    let mut i: usize = 1;
    while i < p.len()
        invariant
            i >= 1,
            all == file_views(files@),
            keys@.len() == all.len(),
            is_stable_order(keys@, p@),
            forall|k: int| 0 <= k < all.len() ==> #[trigger] all[k].id == Some(keys@[k]),
            forall|k: int| 0 <= k < all.len() ==> given_out(#[trigger] all[k].id, last),
            forall|j: int, k: int|
                0 <= j < k < i && k < p@.len() ==> keys@[#[trigger] p@[j] as int] < keys@[#[trigger] p@[k] as int],
        decreases p@.len() - i,
    {
        assert(ahead(keys@, p@[i - 1] as int, p@[i as int] as int));
        if keys[p[i - 1]] >= keys[p[i]] {
            proof {
                let (x, y) = (p@[i - 1] as int, p@[i as int] as int);
                assert(keys@[x] == keys@[y]);
                assert(all[x].id == all[y].id);
                stable_order_is_permutation(keys@, p@);
                assert(x != y);
            }
            return false;
        }
        i = i + 1;
    }
    proof {
        stable_order_is_permutation(keys@, p@);
        assert forall|i: int, j: int| 0 <= i < j < all.len() implies #[trigger] all[i].id
            != #[trigger] all[j].id by {
            assert(lists(p@, i) && lists(p@, j));
            let a = choose|a: int| 0 <= a < p@.len() && #[trigger] p@[a] == i;
            let b = choose|b: int| 0 <= b < p@.len() && #[trigger] p@[b] == j;
            assert(keys@[p@[a] as int] != keys@[p@[b] as int]);
        }
    }
    true
}

/// Whether the backups are as a database keeps them.
fn backups_fit(backups: &Vec<BackupRecord>, last: i64) -> (r: bool)
    requires
        last >= 0,
    ensures
        r == backups_wf(backup_views(backups@), last),
{
    let ghost all = backup_views(backups@);
    for i in 0..backups.len()
        invariant
            last >= 0,
            all == backup_views(backups@),
            forall|j: int| 0 <= j < i ==> given_out(#[trigger] all[j].id, last),
            forall|j: int, k: int|
                0 <= j < k < i ==> id_of(#[trigger] all[j]) < id_of(#[trigger] all[k]) && all[j].archive_path
                    != all[k].archive_path,
    {
        assert(all[i as int] == backups@[i as int]@);
        let id: i64 = match backups[i].id {
            Some(k) => k,
            None => {
                assert(!given_out(all[i as int].id, last));
                return false;
            },
        };
        if id > last {
            assert(!given_out(all[i as int].id, last));
            return false;
        }
        if i > 0 {
            assert(all[i - 1] == backups@[i - 1]@);
            let before: i64 = match backups[i - 1].id {
                Some(k) => k,
                None => 0,
            };
            if before >= id {
                assert(!(id_of(all[i - 1]) < id_of(all[i as int])));
                return false;
            }
        }
        for j in 0..i
            invariant
                i < backups@.len(),
                all == backup_views(backups@),
                all[i as int] == backups@[i as int]@,
                forall|k: int| 0 <= k < j ==> #[trigger] all[k].archive_path != all[i as int].archive_path,
        {
            assert(all[j as int] == backups@[j as int]@);
            if same_text(backups[j].archive_path.as_str(), backups[i].archive_path.as_str()) {
                assert(all[j as int].archive_path == all[i as int].archive_path);
                return false;
            }
        }
    }
    true
}

// ---------------------------------------------------------------------------
// The files by their paths
// ---------------------------------------------------------------------------

/// The files by their paths.
pub open spec fn by_path(files: Seq<FileView>) -> Map<Seq<char>, FileView> {
    Map::new(
        |p: Seq<char>| has_path(files, p),
        |p: Seq<char>| files[choose|i: int| 0 <= i < files.len() && #[trigger] files[i].path == p],
    )
}

/// Every file is found under its path.
pub proof fn found_by_path(files: Seq<FileView>, i: int)
    requires
        in_path_order(files),
        0 <= i < files.len(),
    ensures
        by_path(files).dom().contains(files[i].path),
        by_path(files)[files[i].path] == files[i],
{
    let path = files[i].path;
    assert(files[i].path == path);
    let k = choose|k: int| 0 <= k < files.len() && #[trigger] files[k].path == path;
    text_order_is_irreflexive(path);
    assert(k == i);
}

/// Storing a record puts it under its path and changes nothing else.
pub proof fn storing_is_inserting(old: Seq<FileView>, new: Seq<FileView>, f: FileView, id: i64)
    requires
        in_path_order(old),
        in_path_order(new),
        stored(old, new, f, id),
    ensures
        by_path(new) == by_path(old).insert(f.path, with_id(f, id)),
{
    let want = by_path(old).insert(f.path, with_id(f, id));
    assert forall|p: Seq<char>| by_path(new).dom().contains(p) <==> want.dom().contains(p) by {
        if has_path(new, p) {
            let i = choose|i: int| 0 <= i < new.len() && #[trigger] new[i].path == p;
            if has_path(old, f.path) {
                assert(new[i] == if old[i].path == f.path { with_id(f, id) } else { old[i] });
                assert(old[i].path == p);
            } else {
                let pos = choose|pos: int|
                    0 <= pos <= old.len() && new == #[trigger] old.insert(pos, with_id(f, id));
                if i < pos {
                    assert(old[i].path == p);
                } else if i > pos {
                    assert(old[i - 1].path == p);
                }
            }
        }
        if want.dom().contains(p) {
            if has_path(old, f.path) {
                let i = choose|i: int| 0 <= i < old.len() && #[trigger] old[i].path == p;
                assert(has_path(old, p));
                assert(new[i].path == p);
            } else {
                let pos = choose|pos: int|
                    0 <= pos <= old.len() && new == #[trigger] old.insert(pos, with_id(f, id));
                if p == f.path {
                    assert(new[pos].path == p);
                } else {
                    let i = choose|i: int| 0 <= i < old.len() && #[trigger] old[i].path == p;
                    assert(has_path(old, p));
                    if i < pos {
                        assert(new[i].path == p);
                    } else {
                        assert(new[i + 1].path == p);
                    }
                }
            }
        }
    }
    assert forall|p: Seq<char>| by_path(new).dom().contains(p) implies by_path(new)[p] == want[p] by {
        let i = choose|i: int| 0 <= i < new.len() && #[trigger] new[i].path == p;
        found_by_path(new, i);
        if has_path(old, f.path) {
            assert(new[i] == if old[i].path == f.path { with_id(f, id) } else { old[i] });
            if p != f.path {
                found_by_path(old, i);
            }
        } else {
            let pos = choose|pos: int|
                0 <= pos <= old.len() && new == #[trigger] old.insert(pos, with_id(f, id));
            if i < pos {
                assert(new[i] == old[i]);
                found_by_path(old, i);
                assert(p != f.path);
            } else if i > pos {
                assert(new[i] == old[i - 1]);
                found_by_path(old, i - 1);
                assert(p != f.path);
            }
        }
    }
    assert(by_path(new) =~= want);
}

/// A change of one file changes what is found under its path and nothing else.
pub proof fn changing_is_inserting(
    old: Seq<FileView>,
    new: Seq<FileView>,
    path: Seq<char>,
    change: spec_fn(FileView) -> FileView,
)
    requires
        in_path_order(old),
        in_path_order(new),
        changed_at(old, new, path, change),
        forall|f: FileView| (#[trigger] change(f)).path == f.path,
    ensures
        by_path(new) == if by_path(old).dom().contains(path) {
            by_path(old).insert(path, change(by_path(old)[path]))
        } else {
            by_path(old)
        },
{
    let want = if by_path(old).dom().contains(path) {
        by_path(old).insert(path, change(by_path(old)[path]))
    } else {
        by_path(old)
    };
    assert(forall|i: int| 0 <= i < old.len() ==> (#[trigger] new[i]).path == old[i].path);
    assert forall|p: Seq<char>| by_path(new).dom().contains(p) <==> want.dom().contains(p) by {
        if has_path(new, p) {
            let i = choose|i: int| 0 <= i < new.len() && #[trigger] new[i].path == p;
            assert(old[i].path == p);
        }
        if has_path(old, p) {
            let i = choose|i: int| 0 <= i < old.len() && #[trigger] old[i].path == p;
            assert(new[i].path == p);
        }
    }
    assert forall|p: Seq<char>| by_path(new).dom().contains(p) implies by_path(new)[p] == want[p] by {
        let i = choose|i: int| 0 <= i < new.len() && #[trigger] new[i].path == p;
        assert(old[i].path == p);
        found_by_path(new, i);
        found_by_path(old, i);
    }
    assert(by_path(new) =~= want);
}

/// The file, gone where it is under the directory `root`.
pub open spec fn absent_if_under(f: FileView, root: Seq<char>) -> FileView {
    if is_under(f.path, root) {
        FileView { is_present: false, ..f }
    } else {
        f
    }
}

/// Marking the files under a directory as gone changes them under their paths.
pub proof fn absence_by_path(files: Seq<FileView>, root: Seq<char>)
    requires
        in_path_order(files),
    ensures
        by_path(absent_under(files, root)) == by_path(files).map_values(
            |f: FileView| absent_if_under(f, root),
        ),
{
    let new = absent_under(files, root);
    assert(forall|i: int| 0 <= i < files.len() ==> (#[trigger] new[i]).path == files[i].path);
    assert forall|i: int, j: int| 0 <= i < j < new.len() implies text_before(
        #[trigger] new[i].path,
        #[trigger] new[j].path,
    ) by {
        assert(text_before(files[i].path, files[j].path));
    }
    let want = by_path(files).map_values(|f: FileView| absent_if_under(f, root));
    assert forall|p: Seq<char>| by_path(new).dom().contains(p) <==> want.dom().contains(p) by {
        if has_path(new, p) {
            let i = choose|i: int| 0 <= i < new.len() && #[trigger] new[i].path == p;
            assert(files[i].path == p);
        }
        if has_path(files, p) {
            let i = choose|i: int| 0 <= i < files.len() && #[trigger] files[i].path == p;
            assert(new[i].path == p);
        }
    }
    assert forall|p: Seq<char>| by_path(new).dom().contains(p) implies by_path(new)[p] == want[p] by {
        let i = choose|i: int| 0 <= i < new.len() && #[trigger] new[i].path == p;
        assert(files[i].path == p);
        found_by_path(new, i);
        found_by_path(files, i);
    }
    assert(by_path(new) =~= want);
}

} // verus!
