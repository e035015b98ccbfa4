//! Files with the same contents.

pub mod hasher;

use vstd::prelude::*;
use vstd::string::*;
use vstd::utf8::encode_utf8;

use crate::cli::KeepStrategy;
use crate::db::{
    at_most, get_duplicate_groups, get_unhashed_files, is_group, is_grouping, is_listing, is_overflow,
    set_content_hash, unhashed, waste_overflows, with_hash, Database, FileOrder,
};
use crate::dedup::hasher::HashResult;
use crate::error::{FortressError, FortressResult};
use crate::laws::copies::every_other_copy_goes;
use crate::models::{file_views, group_views, DuplicateGroup, FileRecord, FileView, GroupView};
use crate::order::SortKey;
use crate::sizes::{byte_size, format_bytes};
use crate::text::{
    chars_of, decimal, decimal_text, is_text_before, joined3, same_text, text_before, text_between,
    text_order_is_irreflexive, text_order_is_total, text_order_is_transitive, texts,
};
use crate::time::earlier;

verus! {

/// How a search for duplicates is made.
#[derive(Clone, Copy, Debug)]
pub struct DedupOptions {
    /// Whether files without a hash are hashed first.
    pub hash_first: bool,
    /// The size of the smallest files that are reported.
    pub min_size: u64,
    /// Whether all copies but one are deleted.
    pub delete: bool,
    /// Which copy is kept.
    pub keep: KeepStrategy,
    /// Whether nothing is deleted.
    pub dry_run: bool,
}

/// What came of a search for duplicates.
#[derive(Debug)]
pub struct DedupReport {
    /// The number of groups.
    pub groups_found: usize,
    /// The bytes that all copies but one take.
    pub wasted_bytes: u64,
    /// The number of files that were deleted.
    pub files_deleted: usize,
    /// The files that could not be deleted, each with the reason.
    pub delete_errors: Vec<String>,
    /// The groups.
    pub groups: Vec<DuplicateGroup>,
}

impl Default for DedupReport {
    fn default() -> (r: Self)
        ensures
            r.groups_found == 0,
            r.wasted_bytes == 0,
            r.files_deleted == 0,
            r.delete_errors@.len() == 0,
            r.groups@.len() == 0,
    {
        DedupReport {
            groups_found: 0,
            wasted_bytes: 0,
            files_deleted: 0,
            delete_errors: Vec::new(),
            groups: Vec::new(),
        }
    }
}

// ---------------------------------------------------------------------------
// Hashing
// ---------------------------------------------------------------------------

/// The files, where the one with the given path has the given hash.
pub open spec fn hash_recorded(files: Seq<FileView>, path: Seq<char>, hash: Seq<char>) -> Seq<FileView> {
    files.map_values(
        |f: FileView|
            if f.path == path {
                with_hash(hash)(f)
            } else {
                f
            },
    )
}

/// The files once the results are recorded, one after another. A file that
/// could not be hashed stays as it is.
pub open spec fn hashes_recorded(files: Seq<FileView>, results: Seq<HashResult>) -> Seq<FileView>
    decreases results.len(),
{
    if results.len() == 0 {
        files
    } else {
        let before = hashes_recorded(files, results.drop_last());
        match results.last() {
            HashResult::Hashed { path, hash } => hash_recorded(before, path@, hash@),
            HashResult::Failed { path, reason } => before,
        }
    }
}

/// The number of files that were hashed.
pub open spec fn hashed_count(results: Seq<HashResult>) -> nat
    decreases results.len(),
{
    if results.len() == 0 {
        0
    } else {
        hashed_count(results.drop_last()) + if results.last() is Hashed {
            1nat
        } else {
            0
        }
    }
}

/// The files to hash before duplicates are sought: where that is asked for, all
/// that have no hash.
pub fn files_to_hash(db: &Database, opts: &DedupOptions) -> (r: Vec<FileRecord>)
    requires
        db.wf(),
    ensures
        if opts.hash_first {
            is_listing(db.files(), unhashed(u64::MAX), FileOrder::Size, file_views(r@))
        } else {
            r@.len() == 0
        },
{
    if opts.hash_first {
        get_unhashed_files(db, u64::MAX)
    } else {
        Vec::new()
    }
}

/// Records what came of hashing. Gives the number of files that were hashed and
/// the number of those that could not be.
pub fn record_hashes(db: &mut Database, results: &Vec<HashResult>) -> (r: (usize, usize))
    requires
        old(db).wf(),
    ensures
        final(db).wf(),
        final(db).files() == hashes_recorded(old(db).files(), results@),
        final(db).last_file_id() == old(db).last_file_id(),
        final(db).backups() == old(db).backups(),
        final(db).last_backup_id() == old(db).last_backup_id(),
        r.0 == hashed_count(results@),
        r.0 + r.1 == results@.len(),
{
    let ghost start = db.files();
    let mut written: usize = 0;
    let mut failed: usize = 0;
    assert(results@.take(0) =~= Seq::<HashResult>::empty());
    for i in 0..results.len()
        invariant
            start == old(db).files(),
            db.wf(),
            db.files() == hashes_recorded(start, results@.take(i as int)),
            db.last_file_id() == old(db).last_file_id(),
            db.backups() == old(db).backups(),
            db.last_backup_id() == old(db).last_backup_id(),
            written == hashed_count(results@.take(i as int)),
            written + failed == i,
    {
        let ghost before = db.files();
        assert(results@.take(i + 1).drop_last() == results@.take(i as int));
        match &results[i] {
            HashResult::Hashed { path, hash } => {
                set_content_hash(db, path.as_str(), hash.as_str());
                assert(db.files() == hash_recorded(before, path@, hash@));
                written = written + 1;
            },
            HashResult::Failed { path: _, reason: _ } => {
                failed = failed + 1;
            },
        }
    }
    assert(results@.take(results@.len() as int) == results@);
    (written, failed)
}

// ---------------------------------------------------------------------------
// The copy to keep
// ---------------------------------------------------------------------------

/// Whether the later file `b` of a group is kept rather than the file `a`.
pub open spec fn preferred(strategy: KeepStrategy, b: FileView, a: FileView) -> bool {
    match strategy {
        KeepStrategy::Oldest => earlier(b.modified_at, a.modified_at),
        KeepStrategy::Newest => !earlier(b.modified_at, a.modified_at),
        KeepStrategy::FirstAlpha => text_before(b.path, a.path),
        KeepStrategy::ShortestPath => encode_utf8(b.path).len() < encode_utf8(a.path).len(),
    }
}

/// Whether the file at `k` is the one to keep: the first of the oldest, the last
/// of the newest, the first path in the order of texts, or the first of the
/// shortest paths.
pub open spec fn is_keeper(files: Seq<FileView>, strategy: KeepStrategy, k: int) -> bool {
    &&& 0 <= k < files.len()
    &&& forall|i: int| 0 <= i < k ==> preferred(strategy, files[k], #[trigger] files[i])
    &&& forall|i: int| k < i < files.len() ==> !preferred(strategy, #[trigger] files[i], files[k])
}

/// There is only one file to keep.
pub proof fn keeper_is_unique(files: Seq<FileView>, strategy: KeepStrategy, j: int, k: int)
    requires
        is_keeper(files, strategy, j),
        is_keeper(files, strategy, k),
    ensures
        j == k,
{
    if j < k {
        assert(preferred(strategy, files[k], files[j]));
    } else if k < j {
        assert(preferred(strategy, files[j], files[k]));
    }
}

/// The file to keep is as old as any other, as new as any other, first in the
/// order of texts or as short as any other.
pub proof fn keeper_is_extreme(files: Seq<FileView>, strategy: KeepStrategy, k: int, i: int)
    requires
        is_keeper(files, strategy, k),
        0 <= i < files.len(),
    ensures
        strategy is Oldest ==> !earlier(files[i].modified_at, files[k].modified_at),
        strategy is Newest ==> !earlier(files[k].modified_at, files[i].modified_at),
        strategy is FirstAlpha ==> !text_before(files[i].path, files[k].path),
        strategy is ShortestPath ==> encode_utf8(files[k].path).len() <= encode_utf8(files[i].path).len(),
{
    text_order_is_irreflexive(files[k].path);
    if text_before(files[k].path, files[i].path) && text_before(files[i].path, files[k].path) {
        text_order_is_transitive(files[k].path, files[i].path, files[k].path);
    }
}

fn is_preferred(strategy: &KeepStrategy, b: &FileRecord, a: &FileRecord) -> (r: bool)
    ensures
        r == preferred(*strategy, b@, a@),
{
    match strategy {
        KeepStrategy::Oldest => b.modified_at.is_before(&a.modified_at),
        KeepStrategy::Newest => !b.modified_at.is_before(&a.modified_at),
        KeepStrategy::FirstAlpha => is_text_before(b.path.as_str(), a.path.as_str()),
        KeepStrategy::ShortestPath => b.path.as_str().as_bytes().len()
            < a.path.as_str().as_bytes().len(),
    }
}

/// The position of the file to keep.
fn keeper_index(files: &Vec<FileRecord>, strategy: &KeepStrategy) -> (k: usize)
    requires
        files@.len() > 0,
    ensures
        is_keeper(file_views(files@), *strategy, k as int),
{
    let ghost all = file_views(files@);
    let mut k: usize = 0;
    let mut i: usize = 1;
    while i < files.len()
        invariant
            all == file_views(files@),
            1 <= i <= files@.len(),
            k < i,
            is_keeper(all.take(i as int), *strategy, k as int),
        decreases files@.len() - i,
    {
        let ghost seen = all.take(i as int);
        let ghost next = all.take(i + 1);
        assert(all[i as int] == files@[i as int]@ && all[k as int] == files@[k as int]@);
        assert(forall|j: int| 0 <= j < i ==> seen[j] == #[trigger] next[j]);
        assert(next[i as int] == all[i as int]);
        if is_preferred(strategy, &files[i], &files[k]) {
            proof {
                assert forall|j: int| 0 <= j < i implies preferred(*strategy, next[i as int], #[trigger] next[j]) by {
                    assert(seen[j] == next[j]);
                    if *strategy is FirstAlpha {
                        if j < k {
                            text_order_is_transitive(next[i as int].path, next[k as int].path, next[j].path);
                        } else if j > k {
                            text_order_is_total(next[j].path, next[k as int].path);
                            if next[j].path != next[k as int].path {
                                text_order_is_transitive(
                                    next[i as int].path,
                                    next[k as int].path,
                                    next[j].path,
                                );
                            }
                        }
                    }
                }
            }
            k = i;
        }
        i = i + 1;
    }
    assert(all.take(files@.len() as int) == all);
    k
}

/// The file of a group that is kept.
pub fn select_keeper<'a>(group: &'a DuplicateGroup, strategy: &KeepStrategy) -> (r: &'a FileRecord)
    requires
        group.files@.len() > 0,
    ensures
        exists|k: int| #[trigger] is_keeper(file_views(group.files@), *strategy, k) && *r == group.files@[k],
{
    let k: usize = keeper_index(&group.files, strategy);
    assert(is_keeper(file_views(group.files@), *strategy, k as int));
    &group.files[k]
}

// ---------------------------------------------------------------------------
// Deleting
// ---------------------------------------------------------------------------

/// A file to delete.
#[derive(Debug)]
pub struct Deletion {
    /// The path of the file.
    pub path: String,
    /// The path of the copy that is kept.
    pub keeper: String,
}

/// What a list of deletions says: the paths, each with that of the copy that is
/// kept.
pub open spec fn deletion_views(plan: Seq<Deletion>) -> Seq<(Seq<char>, Seq<char>)> {
    plan.map_values(|d: Deletion| (d.path@, d.keeper@))
}

/// The path of the file to keep.
pub open spec fn keeper_path(files: Seq<FileView>, strategy: KeepStrategy) -> Seq<char> {
    files[choose|k: int| is_keeper(files, strategy, k)].path
}

/// The deletions of a group: every file whose path is not that of the copy that
/// is kept.
pub open spec fn others(files: Seq<FileView>, keeper: Seq<char>) -> Seq<(Seq<char>, Seq<char>)>
    decreases files.len(),
{
    if files.len() == 0 {
        Seq::empty()
    } else {
        let before = others(files.drop_last(), keeper);
        if files.last().path == keeper {
            before
        } else {
            before.push((files.last().path, keeper))
        }
    }
}

/// The deletions of all groups.
pub open spec fn planned(groups: Seq<GroupView>, strategy: KeepStrategy) -> Seq<
    (Seq<char>, Seq<char>),
>
    decreases groups.len(),
{
    if groups.len() == 0 {
        Seq::empty()
    } else {
        let files = groups.last().files;
        planned(groups.drop_last(), strategy) + others(files, keeper_path(files, strategy))
    }
}

/// The files to delete, so that one copy of each group is kept.
pub fn plan_deletions(groups: &Vec<DuplicateGroup>, strategy: &KeepStrategy) -> (plan: Vec<Deletion>)
    requires
        forall|g: int| 0 <= g < groups@.len() ==> (#[trigger] groups@[g]).files@.len() > 0,
    ensures
        deletion_views(plan@) == planned(group_views(groups@), *strategy),
        forall|g: int, k: int, i: int|
            0 <= g < groups@.len() && #[trigger] is_keeper(group_views(groups@)[g].files, *strategy, k) && 0
                <= i < groups@[g].files@.len() && (#[trigger] groups@[g].files@[i]).path@
                != groups@[g].files@[k].path@ ==> deletion_views(plan@).contains(
                (groups@[g].files@[i].path@, groups@[g].files@[k].path@),
            ),
{
    let ghost gv = group_views(groups@);
    let mut plan: Vec<Deletion> = Vec::new();
    for g in 0..groups.len()
        invariant
            forall|h: int| 0 <= h < groups@.len() ==> (#[trigger] groups@[h]).files@.len() > 0,
            gv == group_views(groups@),
            deletion_views(plan@) == planned(gv.take(g as int), *strategy),
    {
        let group: &DuplicateGroup = &groups[g];
        let keeper: &FileRecord = select_keeper(group, strategy);
        let ghost all = file_views(group.files@);
        let ghost before = deletion_views(plan@);
        proof {
            let k = choose|k: int| #[trigger] is_keeper(all, *strategy, k) && *keeper == group.files@[k];
            assert(all[k] == keeper@);
            assert(keeper_path(all, *strategy) == keeper@.path);
        }
        for i in 0..group.files.len()
            invariant
                all == file_views(group.files@),
                deletion_views(plan@) == before + others(all.take(i as int), keeper@.path),
        {
            let file: &FileRecord = &group.files[i];
            proof {
                assert(all.take(i + 1).drop_last() == all.take(i as int));
                assert(all[i as int] == file@);
            }
            if !same_text(file.path.as_str(), keeper.path.as_str()) {
                let d: Deletion = Deletion { path: file.path.clone(), keeper: keeper.path.clone() };
                assert(deletion_views(plan@.push(d)) == deletion_views(plan@).push((d.path@, d.keeper@)));
                plan.push(d);
            }
        }
        assert(all.take(all.len() as int) == all);
        assert(gv.take(g + 1).drop_last() == gv.take(g as int));
        assert(gv[g as int] == group@);
    }
    assert(gv.take(gv.len() as int) == gv);
    proof {
        assert forall|g: int, k: int, i: int|
            0 <= g < groups@.len() && #[trigger] is_keeper(gv[g].files, *strategy, k) && 0 <= i
                < groups@[g].files@.len() && (#[trigger] groups@[g].files@[i]).path@
                != groups@[g].files@[k].path@ implies deletion_views(plan@).contains(
            (groups@[g].files@[i].path@, groups@[g].files@[k].path@),
        ) by {
            assert(gv[g] == groups@[g]@);
            assert(gv[g].files[i] == groups@[g].files@[i]@);
            assert(gv[g].files[k] == groups@[g].files@[k]@);
            every_other_copy_goes(gv, *strategy, g, k, i);
        }
    }
    plan
}

/// What came of deleting a file.
#[derive(Debug)]
pub enum DeleteOutcome {
    /// It was deleted.
    Deleted,
    /// It could not be deleted; the text says why.
    Kept(String),
}

/// The number of files among the first `n` that were deleted.
pub open spec fn deleted_count(outcomes: Seq<DeleteOutcome>, n: int) -> nat
    decreases n,
{
    if n <= 0 {
        0
    } else {
        deleted_count(outcomes, n - 1) + if outcomes[n - 1] is Deleted {
            1nat
        } else {
            0
        }
    }
}

/// The errors among the first `n` outcomes, each with the path in front of it.
pub open spec fn deletion_errors(paths: Seq<Seq<char>>, outcomes: Seq<DeleteOutcome>, n: int) -> Seq<
    Seq<char>,
>
    decreases n,
{
    if n <= 0 {
        Seq::empty()
    } else {
        let before = deletion_errors(paths, outcomes, n - 1);
        match outcomes[n - 1] {
            DeleteOutcome::Deleted => before,
            DeleteOutcome::Kept(reason) => before.push(paths[n - 1] + ": "@ + reason@),
        }
    }
}

/// Counts the files that were deleted, and lists those that were not with the
/// reasons.
pub fn tally_deletions(paths: &Vec<String>, outcomes: &Vec<DeleteOutcome>) -> (r: (usize, Vec<String>))
    requires
        paths@.len() == outcomes@.len(),
    ensures
        r.0 == deleted_count(outcomes@, outcomes@.len() as int),
        texts(r.1@) == deletion_errors(texts(paths@), outcomes@, outcomes@.len() as int),
        r.0 + r.1@.len() == outcomes@.len(),
{
    let mut deleted: usize = 0;
    let mut errors: Vec<String> = Vec::new();
    for i in 0..outcomes.len()
        invariant
            paths@.len() == outcomes@.len(),
            deleted == deleted_count(outcomes@, i as int),
            texts(errors@) == deletion_errors(texts(paths@), outcomes@, i as int),
            deleted + errors@.len() == i,
    {
        match &outcomes[i] {
            DeleteOutcome::Deleted => {
                deleted = deleted + 1;
            },
            DeleteOutcome::Kept(reason) => {
                let line: String = joined3(paths[i].as_str(), ": ", reason.as_str());
                assert(texts(paths@)[i as int] == paths@[i as int]@);
                assert(texts(errors@.push(line)) == texts(errors@).push(line@));
                errors.push(line);
            },
        }
    }
    (deleted, errors)
}

/// The line that is printed for a deletion that is not made.
pub fn dry_run_line(d: &Deletion) -> (r: String)
    ensures
        r@ == "[dry-run] Would delete: "@ + d.path@ + "\n          Keeping:  "@ + d.keeper@,
{
    let mut s: String = joined3(
        "[dry-run] Would delete: ",
        d.path.as_str(),
        "\n          Keeping:  ",
    );
    s.append(d.keeper.as_str());
    s
}

/// One copy of a group is kept and all others are deleted: the deletions are as
/// many as the copies but one, and the copy that is kept is not among them.
pub proof fn one_copy_is_kept(files: Seq<FileView>, group: GroupView, strategy: KeepStrategy)
    requires
        is_group(files, group),
    ensures
        ({
            let copies = group.files;
            let keeper = keeper_path(copies, strategy);
            let plan = others(copies, keeper);
            &&& plan.len() == copies.len() - 1
            &&& forall|i: int| 0 <= i < plan.len() ==> (#[trigger] plan[i]).0 != keeper
            &&& exists|k: int| 0 <= k < copies.len() && #[trigger] copies[k].path == keeper
        }),
{
    let copies = group.files;
    keeper_exists(copies, strategy);
    let k = choose|k: int| is_keeper(copies, strategy, k);
    assert forall|i: int, j: int| 0 <= i < j < copies.len() implies #[trigger] copies[i].path
        != #[trigger] copies[j].path by {
        assert(crate::db::FileOrder::Path.lists_first(copies[i], copies[j]));
        text_order_is_irreflexive(copies[i].path);
    }
    others_leave_one(copies, k);
    others_differ(copies, copies[k].path);
}

pub(crate) proof fn keeper_exists(files: Seq<FileView>, strategy: KeepStrategy)
    requires
        files.len() > 0,
    ensures
        exists|k: int| is_keeper(files, strategy, k),
    decreases files.len(),
{
    if files.len() == 1 {
        assert(is_keeper(files, strategy, 0));
    } else {
        let front = files.drop_last();
        keeper_exists(front, strategy);
        let k = choose|k: int| is_keeper(front, strategy, k);
        let n = files.len() - 1;
        assert(forall|j: int| 0 <= j < n ==> front[j] == #[trigger] files[j]);
        if preferred(strategy, files[n], files[k]) {
            assert forall|j: int| 0 <= j < n implies preferred(strategy, files[n], #[trigger] files[j]) by {
                assert(front[j] == files[j]);
                if strategy is FirstAlpha {
                    if j < k {
                        text_order_is_transitive(files[n].path, files[k].path, files[j].path);
                    } else if j > k {
                        text_order_is_total(files[j].path, files[k].path);
                        if files[j].path != files[k].path {
                            text_order_is_transitive(files[n].path, files[k].path, files[j].path);
                        }
                    }
                }
            }
            assert(is_keeper(files, strategy, n));
        } else {
            assert(is_keeper(files, strategy, k));
        }
    }
}

pub(crate) proof fn others_leave_one(files: Seq<FileView>, k: int)
    requires
        0 <= k < files.len(),
        forall|i: int, j: int|
            0 <= i < j < files.len() ==> #[trigger] files[i].path != #[trigger] files[j].path,
    ensures
        others(files, files[k].path).len() == files.len() - 1,
    decreases files.len(),
{
    let front = files.drop_last();
    if k == files.len() - 1 {
        others_are_all(front, files[k].path);
    } else {
        assert(front[k] == files[k]);
        others_leave_one(front, k);
    }
}

proof fn others_are_all(files: Seq<FileView>, keeper: Seq<char>)
    requires
        forall|i: int| 0 <= i < files.len() ==> #[trigger] files[i].path != keeper,
    ensures
        others(files, keeper).len() == files.len(),
    decreases files.len(),
{
    if files.len() > 0 {
        assert(files.last().path != keeper);
        others_are_all(files.drop_last(), keeper);
    }
}

proof fn others_differ(files: Seq<FileView>, keeper: Seq<char>)
    ensures
        forall|i: int| 0 <= i < others(files, keeper).len() ==> (#[trigger] others(files, keeper)[i]).0 != keeper,
    decreases files.len(),
{
    if files.len() > 0 {
        let front = others(files.drop_last(), keeper);
        others_differ(files.drop_last(), keeper);
        assert forall|i: int| 0 <= i < others(files, keeper).len() implies (#[trigger] others(files, keeper)[i]).0
            != keeper by {
            if i < front.len() {
                assert(others(files, keeper)[i] == front[i]);
            }
        }
    }
}

// ---------------------------------------------------------------------------
// Reports
// ---------------------------------------------------------------------------

/// Groups each of whose files is at least `min_size` bytes long.
pub open spec fn at_least(min_size: u64) -> spec_fn(GroupView) -> bool {
    |g: GroupView|
        forall|i: int| 0 <= i < g.files.len() ==> (#[trigger] g.files[i]).size_bytes >= min_size
}

/// Whether each of some files is at least `min_size` bytes long.
fn all_at_least(group: &DuplicateGroup, min_size: u64) -> (r: bool)
    ensures
        r == at_least(min_size)(group@),
{
    for i in 0..group.files.len()
        invariant
            forall|k: int| 0 <= k < i ==> (#[trigger] group@.files[k]).size_bytes >= min_size,
    {
        assert(group@.files[i as int] == group.files@[i as int]@);
        if group.files[i].size_bytes < min_size {
            return false;
        }
    }
    true
}

/// The groups of two or more files that are there and have the same hash, the
/// most wasteful first, without those that have a file shorter than `min_size`.
/// It fails only where the waste of one group cannot be counted.
pub fn find_duplicates(db: &Database, min_size: u64) -> (r: FortressResult<Vec<DuplicateGroup>>)
    requires
        db.wf(),
    ensures
        r is Err <==> waste_overflows(db.files()),
        match r {
            Ok(groups) => exists|all: Seq<GroupView>| #[trigger]
                is_grouping(db.files(), all) && group_views(groups@) == all.filter(at_least(min_size)),
            Err(e) => is_overflow(e),
        },
{
    let all: Vec<DuplicateGroup> = match get_duplicate_groups(db) {
        Ok(groups) => groups,
        Err(e) => {
            return Err(e);
        },
    };
    let ghost av = group_views(all@);
    let mut kept: Vec<DuplicateGroup> = Vec::new();
    for i in 0..all.len()
        invariant
            av == group_views(all@),
            group_views(kept@) == av.take(i as int).filter(at_least(min_size)),
    {
        let group: &DuplicateGroup = &all[i];
        proof {
            assert(av.take(i + 1).drop_last() == av.take(i as int));
            assert(av[i as int] == group@);
            reveal_with_fuel(Seq::filter, 1);
        }
        if all_at_least(group, min_size) {
            let copy: DuplicateGroup = group.clone();
            assert(group_views(kept@.push(copy)) == group_views(kept@).push(copy@));
            kept.push(copy);
        }
    }
    assert(av.take(av.len() as int) == av);
    assert(is_grouping(db.files(), av));
    Ok(kept)
}

/// The bytes that all copies but one take, in all groups.
pub open spec fn total_waste(groups: Seq<GroupView>) -> int
    decreases groups.len(),
{
    if groups.len() == 0 {
        0
    } else {
        total_waste(groups.drop_last()) + groups.last().wasted_bytes
    }
}

proof fn total_waste_grows(groups: Seq<GroupView>, k: int)
    requires
        0 <= k <= groups.len(),
    ensures
        0 <= total_waste(groups.take(k)) <= total_waste(groups),
    decreases groups.len(),
{
    if k == groups.len() {
        assert(groups.take(k) == groups);
        if k > 0 {
            total_waste_grows(groups.drop_last(), k - 1);
        }
    } else {
        total_waste_grows(groups.drop_last(), k);
        assert(groups.drop_last().take(k) == groups.take(k));
    }
}

/// The bytes that all copies but one take, in all groups, if they can be
/// counted.
pub(crate) fn count_waste(groups: &Vec<DuplicateGroup>) -> (r: Option<u64>)
    ensures
        match r {
            Some(n) => n == total_waste(group_views(groups@)),
            None => total_waste(group_views(groups@)) > u64::MAX,
        },
{
    let ghost gv = group_views(groups@);
    let mut sum: u64 = 0;
    for i in 0..groups.len()
        invariant
            gv == group_views(groups@),
            sum == total_waste(gv.take(i as int)),
    {
        proof {
            assert(gv.take(i + 1).drop_last() == gv.take(i as int));
            assert(gv[i as int] == groups@[i as int]@);
            total_waste_grows(gv, i + 1);
        }
        let w: u64 = groups[i].wasted_bytes;
        if sum > u64::MAX - w {
            return None;
        }
        sum = sum + w;
    }
    assert(gv.take(gv.len() as int) == gv);
    Some(sum)
}

/// Whether files are deleted.
pub open spec fn deletes(opts: DedupOptions) -> bool {
    opts.delete && !opts.dry_run
}

/// The paths of the deletions of all groups.
pub open spec fn planned_paths(groups: Seq<GroupView>, strategy: KeepStrategy) -> Seq<Seq<char>> {
    planned(groups, strategy).map_values(|d: (Seq<char>, Seq<char>)| d.0)
}

/// What came of a search that found `groups`. Where files are deleted,
/// `outcomes` says what came of each deletion, in the order of
/// [`plan_deletions`]. It fails only where the waste cannot be counted.
pub fn run(
    groups: Vec<DuplicateGroup>,
    opts: &DedupOptions,
    outcomes: &Vec<DeleteOutcome>,
) -> (r: FortressResult<DedupReport>)
    requires
        forall|g: int| 0 <= g < groups@.len() ==> (#[trigger] groups@[g]).files@.len() > 0,
        deletes(*opts) ==> outcomes@.len() == planned(group_views(groups@), opts.keep).len(),
    ensures
        r is Err <==> total_waste(group_views(groups@)) > u64::MAX,
        match r {
            Ok(report) => {
                &&& report.groups_found == groups@.len()
                &&& report.wasted_bytes == total_waste(group_views(groups@))
                &&& group_views(report.groups@) == group_views(groups@)
                &&& report.files_deleted == if deletes(*opts) {
                    deleted_count(outcomes@, outcomes@.len() as int)
                } else {
                    0
                }
                &&& texts(report.delete_errors@) == if deletes(*opts) {
                    deletion_errors(
                        planned_paths(group_views(groups@), opts.keep),
                        outcomes@,
                        outcomes@.len() as int,
                    )
                } else {
                    Seq::empty()
                }
            },
            Err(e) => is_overflow(e),
        },
{
    let wasted_bytes: u64 = match count_waste(&groups) {
        Some(n) => n,
        None => {
            return Err(FortressError::Database("integer overflow".to_owned()));
        },
    };
    let groups_found: usize = groups.len();
    if !opts.delete || opts.dry_run {
        let none: Vec<String> = Vec::new();
        assert(texts(none@) == Seq::<Seq<char>>::empty());
        return Ok(
            DedupReport { groups_found, wasted_bytes, files_deleted: 0, delete_errors: none, groups },
        );
    }
    let plan: Vec<Deletion> = plan_deletions(&groups, &opts.keep);
    let ghost wanted = planned_paths(group_views(groups@), opts.keep);
    let mut paths: Vec<String> = Vec::new();
    for i in 0..plan.len()
        invariant
            deletion_views(plan@) == planned(group_views(groups@), opts.keep),
            wanted == planned_paths(group_views(groups@), opts.keep),
            texts(paths@) == wanted.take(i as int),
    {
        let path: String = plan[i].path.clone();
        proof {
            assert(deletion_views(plan@)[i as int] == (plan@[i as int].path@, plan@[i as int].keeper@));
            assert(texts(paths@.push(path)) == texts(paths@).push(path@));
        }
        paths.push(path);
    }
    proof {
        assert(deletion_views(plan@).len() == plan@.len());
        assert(wanted.take(wanted.len() as int) == wanted);
        assert(texts(paths@).len() == paths@.len());
    }
    let (files_deleted, delete_errors) = tally_deletions(&paths, outcomes);
    Ok(DedupReport { groups_found, wasted_bytes, files_deleted, delete_errors, groups })
}

/// The lines of the files of a group.
pub open spec fn file_lines(files: Seq<FileView>) -> Seq<char>
    decreases files.len(),
{
    if files.len() == 0 {
        Seq::empty()
    } else {
        let f = files.last();
        file_lines(files.drop_last()) + "  "@ + f.path + " ("@ + byte_size(f.size_bytes, 2) + ")\n"@
    }
}

/// The line at the head of the `n`th group.
pub open spec fn group_line(n: nat, g: GroupView) -> Seq<char> {
    "Group "@ + decimal(n) + " \u{2014} "@ + at_most(g.content_hash, 12) + " ("@ + decimal(
        g.files.len(),
    ) + " copies, "@ + byte_size(g.wasted_bytes, 2) + " wasted)\n"@
}

/// The lines of all groups.
pub open spec fn group_lines(groups: Seq<GroupView>) -> Seq<char>
    decreases groups.len(),
{
    if groups.len() == 0 {
        Seq::empty()
    } else {
        group_lines(groups.drop_last()) + group_line(groups.len(), groups.last()) + file_lines(
            groups.last().files,
        ) + "\n"@
    }
}

/// The lines of the errors.
pub open spec fn error_lines(errors: Seq<Seq<char>>) -> Seq<char>
    decreases errors.len(),
{
    if errors.len() == 0 {
        Seq::empty()
    } else {
        error_lines(errors.drop_last()) + "  \u{2717} "@ + errors.last() + "\n"@
    }
}

/// What is printed of a report.
pub open spec fn printed(report: DedupReport) -> Seq<char> {
    if report.groups_found == 0 {
        "No duplicates found.\n"@
    } else {
        "\nFound "@ + decimal(report.groups_found as nat) + " duplicate group(s) \u{2014} "@ + byte_size(
            report.wasted_bytes,
            2,
        ) + " wasted\n\n"@ + group_lines(group_views(report.groups@)) + if report.files_deleted > 0 {
            "Deleted "@ + decimal(report.files_deleted as nat) + " file(s).\n"@
        } else {
            Seq::empty()
        } + if report.delete_errors@.len() > 0 {
            "\nErrors during deletion:\n"@ + error_lines(texts(report.delete_errors@))
        } else {
            Seq::empty()
        }
    }
}

/// The first characters of `s`, at most `n`.
pub fn first_chars(s: &str, n: usize) -> (r: String)
    ensures
        r@ == at_most(s@, n as int),
{
    let v: Vec<char> = chars_of(s);
    if v.len() <= n {
        s.to_owned()
    } else {
        text_between(v.as_slice(), 0, n)
    }
}

fn write_files(out: &mut String, files: &Vec<FileRecord>)
    ensures
        final(out)@ == old(out)@ + file_lines(file_views(files@)),
{
    let ghost start = out@;
    let ghost all = file_views(files@);
    assert(start + file_lines(all.take(0)) == start);
    for i in 0..files.len()
        invariant
            all == file_views(files@),
            out@ == start + file_lines(all.take(i as int)),
    {
        proof {
            assert(all.take(i + 1).drop_last() == all.take(i as int));
            assert(all[i as int] == files@[i as int]@);
        }
        let ghost before = out@;
        out.append("  ");
        out.append(files[i].path.as_str());
        out.append(" (");
        out.append(format_bytes(files[i].size_bytes).as_str());
        out.append(")\n");
        assert(out@ == start + file_lines(all.take(i + 1)));
    }
    assert(all.take(all.len() as int) == all);
}

fn write_errors(out: &mut String, errors: &Vec<String>)
    ensures
        final(out)@ == old(out)@ + error_lines(texts(errors@)),
{
    let ghost start = out@;
    let ghost all = texts(errors@);
    assert(start + error_lines(all.take(0)) == start);
    for i in 0..errors.len()
        invariant
            all == texts(errors@),
            out@ == start + error_lines(all.take(i as int)),
    {
        proof {
            assert(all.take(i + 1).drop_last() == all.take(i as int));
            assert(all[i as int] == errors@[i as int]@);
        }
        out.append("  \u{2717} ");
        out.append(errors[i].as_str());
        out.append("\n");
        assert(out@ == start + error_lines(all.take(i + 1)));
    }
    assert(all.take(all.len() as int) == all);
}

fn group_head(n: u64, group: &DuplicateGroup) -> (r: String)
    ensures
        r@ == group_line(n as nat, group@),
{
    let mut out: String = joined3("Group ", decimal_text(n).as_str(), " \u{2014} ");
    out.append(first_chars(group.content_hash.as_str(), 12).as_str());
    out.append(" (");
    out.append(decimal_text(group.files.len() as u64).as_str());
    out.append(" copies, ");
    out.append(format_bytes(group.wasted_bytes).as_str());
    out.append(" wasted)\n");
    out
}

/// What is printed of a report.
pub fn report_text(report: &DedupReport) -> (r: String)
    ensures
        r@ == printed(*report),
{
    if report.groups_found == 0 {
        return "No duplicates found.\n".to_owned();
    }
    let mut out: String = joined3(
        "\nFound ",
        decimal_text(report.groups_found as u64).as_str(),
        " duplicate group(s) \u{2014} ",
    );
    out.append(format_bytes(report.wasted_bytes).as_str());
    out.append(" wasted\n\n");
    let ghost head = out@;
    let ghost gv = group_views(report.groups@);
    assert(head + group_lines(gv.take(0)) == head);
    for i in 0..report.groups.len()
        invariant
            gv == group_views(report.groups@),
            out@ == head + group_lines(gv.take(i as int)),
    {
        let group: &DuplicateGroup = &report.groups[i];
        proof {
            assert(gv.take(i + 1).drop_last() == gv.take(i as int));
            assert(gv[i as int] == group@);
        }
        out.append(group_head(i as u64 + 1, group).as_str());
        write_files(&mut out, &group.files);
        out.append("\n");
        assert(out@ == head + group_lines(gv.take(i + 1)));
    }
    assert(gv.take(gv.len() as int) == gv);
    if report.files_deleted > 0 {
        out.append("Deleted ");
        out.append(decimal_text(report.files_deleted as u64).as_str());
        out.append(" file(s).\n");
    }
    if report.delete_errors.len() > 0 {
        out.append("\nErrors during deletion:\n");
        write_errors(&mut out, &report.delete_errors);
    }
    assert(out@ == printed(*report));
    out
}

} // verus!
