//! Copies of files: which are found, which one stays and which are deleted.

use vstd::prelude::*;

use vstd::utf8::encode_utf8;

use crate::cli::KeepStrategy;
use crate::db::{
    is_group, is_grouping, is_listing, shared, unhashed, waste_overflows, wastes_more, with_content, Database, FileOrder,
};
use crate::dedup::hasher::{contents, HashResult};
use crate::dedup::{
    at_least, deleted_count, deletes, deletion_errors, error_lines, file_lines, group_line, group_lines,
    hashed_count, hashes_recorded, is_keeper, keeper_path, others, planned, planned_paths, printed, total_waste,
    DedupOptions, DedupReport, DeleteOutcome,
};
use crate::laws::texts::{end_is_a_part, parts_stay};
use crate::models::{group_views, FileView, GroupView};
use crate::sizes::byte_size;
use crate::text::{decimal, has_text, text_before, text_order_is_irreflexive, texts};

verus! {

/// Of the copies that are kept, the oldest is no younger than any other and the
/// first of those of its age, the newest is no older than any other and the last of
/// those of its age, the first path is in front of all others, and the shortest is
/// no longer than any other and the first of its length.
pub proof fn the_right_copy_stays(files: Seq<FileView>, strategy: KeepStrategy, k: int, i: int)
    requires
        is_keeper(files, strategy, k),
        0 <= i < files.len(),
        i != k,
    ensures
        0 <= k < files.len(),
        ({
            let (kept, other) = (files[k].modified_at, files[i].modified_at);
            let older = kept.0 < other.0 || (kept.0 == other.0 && kept.1 < other.1);
            let newer = kept.0 > other.0 || (kept.0 == other.0 && kept.1 > other.1);
            let (a, b) = (encode_utf8(files[k].path).len(), encode_utf8(files[i].path).len());
            match strategy {
                KeepStrategy::Oldest => older || (kept == other && k < i),
                KeepStrategy::Newest => newer || (kept == other && i < k),
                KeepStrategy::FirstAlpha => text_before(files[k].path, files[i].path)
                    || files[k].path == files[i].path,
                KeepStrategy::ShortestPath => a < b || (a == b && k < i),
            }
        }),
{
    let (kept, other) = (files[k].modified_at, files[i].modified_at);
    assert(kept == (kept.0, kept.1) && other == (other.0, other.1));
    crate::text::text_order_is_total(files[k].path, files[i].path);
}

/// Every copy but the one that stays is to be deleted, whatever group it is in,
/// and the plan names the copy that stays.
pub proof fn every_other_copy_goes(groups: Seq<GroupView>, strategy: KeepStrategy, g: int, k: int, i: int)
    requires
        0 <= g < groups.len(),
        is_keeper(groups[g].files, strategy, k),
        0 <= i < groups[g].files.len(),
        groups[g].files[i].path != groups[g].files[k].path,
    ensures
        planned(groups, strategy).contains((groups[g].files[i].path, groups[g].files[k].path)),
    decreases groups.len(),
{
    let last = groups.last().files;
    let before = planned(groups.drop_last(), strategy);
    let wanted = (groups[g].files[i].path, groups[g].files[k].path);
    if g < groups.len() - 1 {
        assert(groups.drop_last()[g] == groups[g]);
        every_other_copy_goes(groups.drop_last(), strategy, g, k, i);
        let at = choose|at: int| 0 <= at < before.len() && before[at] == wanted;
        assert(planned(groups, strategy)[at] == wanted);
    } else {
        keeper_has_its_path(last, strategy, k);
        other_is_listed(last, wanted.1, i);
        let tail = others(last, wanted.1);
        let at = choose|at: int| 0 <= at < tail.len() && tail[at] == wanted;
        assert(planned(groups, strategy)[before.len() + at] == wanted);
    }
}

/// Nothing is to be deleted but a copy of what stays: both are in one group, under
/// different paths.
pub proof fn only_copies_go(groups: Seq<GroupView>, strategy: KeepStrategy, at: int)
    requires
        forall|g: int| 0 <= g < groups.len() ==> (#[trigger] groups[g]).files.len() > 0,
        0 <= at < planned(groups, strategy).len(),
    ensures
        ({
            let (gone, kept) = planned(groups, strategy)[at];
            gone != kept && exists|g: int, i: int, k: int|
                0 <= g < groups.len() && 0 <= i < groups[g].files.len() && is_keeper(
                    groups[g].files,
                    strategy,
                    k,
                ) && #[trigger] groups[g].files[i].path == gone && #[trigger] groups[g].files[k].path
                    == kept
        }),
    decreases groups.len(),
{
    let front = groups.drop_last();
    let before = planned(front, strategy);
    let (gone, kept) = planned(groups, strategy)[at];
    let last = groups.last().files;
    if at < before.len() {
        assert(forall|g: int| 0 <= g < front.len() ==> #[trigger] front[g] == groups[g]);
        only_copies_go(front, strategy, at);
        let (g, i, k) = choose|g: int, i: int, k: int|
            0 <= g < front.len() && 0 <= i < front[g].files.len() && is_keeper(
                front[g].files,
                strategy,
                k,
            ) && #[trigger] front[g].files[i].path == gone && #[trigger] front[g].files[k].path == kept;
        assert(groups[g].files[i].path == gone && groups[g].files[k].path == kept);
    } else {
        crate::dedup::keeper_exists(last, strategy);
        let k = choose|k: int| is_keeper(last, strategy, k);
        keeper_has_its_path(last, strategy, k);
        listed_is_other(last, last[k].path, at - before.len());
        let i = choose|i: int| 0 <= i < last.len() && #[trigger] last[i].path == gone;
        let g = groups.len() - 1;
        assert(groups[g].files[i].path == gone && groups[g].files[k].path == kept);
    }
}

/// The number of copies in some groups.
pub open spec fn copies_in(groups: Seq<GroupView>) -> nat
    decreases groups.len(),
{
    if groups.len() == 0 {
        0
    } else {
        copies_in(groups.drop_last()) + groups.last().files.len()
    }
}

/// Where no path is twice in one group, one copy of each group stays and as many
/// are to be deleted as there are others.
pub proof fn one_copy_of_each_group_stays(groups: Seq<GroupView>, strategy: KeepStrategy)
    requires
        forall|g: int| 0 <= g < groups.len() ==> (#[trigger] groups[g]).files.len() > 0,
        forall|g: int, i: int, j: int|
            0 <= g < groups.len() && 0 <= i < j < groups[g].files.len()
                ==> #[trigger] groups[g].files[i].path != #[trigger] groups[g].files[j].path,
    ensures
        planned(groups, strategy).len() == copies_in(groups) - groups.len(),
    decreases groups.len(),
{
    if groups.len() > 0 {
        let front = groups.drop_last();
        let last = groups.last().files;
        assert(forall|g: int| 0 <= g < front.len() ==> #[trigger] front[g] == groups[g]);
        one_copy_of_each_group_stays(front, strategy);
        assert(groups[groups.len() - 1].files.len() > 0);
        crate::dedup::keeper_exists(last, strategy);
        let k = choose|k: int| is_keeper(last, strategy, k);
        keeper_has_its_path(last, strategy, k);
        let g = groups.len() - 1;
        assert forall|i: int, j: int| 0 <= i < j < last.len() implies #[trigger] last[i].path
            != #[trigger] last[j].path by {
            assert(groups[g].files[i].path != groups[g].files[j].path);
        }
        crate::dedup::others_leave_one(last, k);
    }
}

proof fn keeper_has_its_path(files: Seq<FileView>, strategy: KeepStrategy, k: int)
    requires
        is_keeper(files, strategy, k),
    ensures
        keeper_path(files, strategy) == files[k].path,
{
    let l = choose|l: int| is_keeper(files, strategy, l);
    crate::dedup::keeper_is_unique(files, strategy, k, l);
}

proof fn other_is_listed(files: Seq<FileView>, keeper: Seq<char>, i: int)
    requires
        0 <= i < files.len(),
        files[i].path != keeper,
    ensures
        others(files, keeper).contains((files[i].path, keeper)),
    decreases files.len(),
{
    let front = others(files.drop_last(), keeper);
    let all = others(files, keeper);
    let wanted = (files[i].path, keeper);
    if i < files.len() - 1 {
        assert(files.drop_last()[i] == files[i]);
        other_is_listed(files.drop_last(), keeper, i);
        let at = choose|at: int| 0 <= at < front.len() && front[at] == wanted;
        assert(all[at] == wanted);
    } else {
        assert(all[front.len() as int] == wanted);
    }
}

proof fn listed_is_other(files: Seq<FileView>, keeper: Seq<char>, at: int)
    requires
        0 <= at < others(files, keeper).len(),
    ensures
        others(files, keeper)[at].1 == keeper,
        others(files, keeper)[at].0 != keeper,
        exists|i: int| 0 <= i < files.len() && #[trigger] files[i].path == others(files, keeper)[at].0,
    decreases files.len(),
{
    if files.len() > 0 {
        let front = files.drop_last();
        let before = others(front, keeper);
        let gone = others(files, keeper)[at].0;
        if at < before.len() {
            listed_is_other(front, keeper, at);
            let i = choose|i: int| 0 <= i < front.len() && #[trigger] front[i].path == gone;
            assert(files[i].path == gone);
        } else {
            assert(files[files.len() - 1].path == gone);
        }
    }
}

/// Two files that are there and have the same hash are found together, unless
/// one with that hash is smaller than is asked for.
pub proof fn copies_are_found(
    db: Database,
    all: Seq<GroupView>,
    min_size: u64,
    groups: Seq<GroupView>,
    i: int,
    j: int,
    hash: Seq<char>,
)
    requires
        db.wf(),
        is_grouping(db.files(), all),
        groups == all.filter(at_least(min_size)),
        0 <= i < db.files().len(),
        0 <= j < db.files().len(),
        i != j,
        db.files()[i].is_present,
        db.files()[j].is_present,
        db.files()[i].content_hash == Some(hash),
        db.files()[j].content_hash == Some(hash),
        forall|f: FileView| #[trigger]
            db.files().contains(f) && f.is_present && f.content_hash == Some(hash) ==> f.size_bytes
                >= min_size,
    ensures
        exists|g: int|
            0 <= g < groups.len() && (#[trigger] groups[g]).content_hash == hash
                && groups[g].files.contains(db.files()[i]) && groups[g].files.contains(db.files()[j]),
{
    broadcast use vstd::seq_lib::group_filter_ensures;

    let files = db.files();
    crate::db::copies_are_grouped(db, all, i, j);
    let h = choose|h: int|
        0 <= h < all.len() && #[trigger] all[h].files.contains(files[i]) && all[h].files.contains(files[j]);
    assert(is_group(files, all[h]));
    assert(with_content(all[h].content_hash)(files[i]));
    assert forall|k: int| 0 <= k < all[h].files.len() implies (#[trigger] all[h].files[k]).size_bytes
        >= min_size by {
        assert(all[h].files.contains(all[h].files[k]));
        assert(with_content(hash)(all[h].files[k]));
    }
    assert(at_least(min_size)(all[h]));
    assert(groups.contains(all[h]));
    let g = choose|g: int| 0 <= g < groups.len() && groups[g] == all[h];
    assert(groups[g].content_hash == hash);
}

/// A group that is found holds two or more files, exactly those that are there and
/// have its hash, none smaller than is asked for, and what is wasted is the size of
/// all of them but one.
pub proof fn found_files_are_copies(
    files: Seq<FileView>,
    all: Seq<GroupView>,
    min_size: u64,
    groups: Seq<GroupView>,
    g: int,
)
    requires
        is_grouping(files, all),
        groups == all.filter(at_least(min_size)),
        0 <= g < groups.len(),
    ensures
        groups[g].files.len() >= 2,
        forall|f: FileView| #[trigger]
            groups[g].files.contains(f) <==> files.contains(f) && f.is_present && f.content_hash == Some(
                groups[g].content_hash,
            ),
        forall|k: int| 0 <= k < groups[g].files.len() ==> (#[trigger] groups[g].files[k]).size_bytes
            >= min_size,
        forall|i: int, j: int|
            0 <= i < j < groups[g].files.len() ==> #[trigger] groups[g].files[i].path
                != #[trigger] groups[g].files[j].path,
        groups[g].wasted_bytes == groups[g].files[0].size_bytes * (groups[g].files.len() - 1),
{
    let group = groups[g];
    all.lemma_filter_pred(at_least(min_size), g);
    assert(groups.contains(group));
    all.lemma_filter_contains_rev(at_least(min_size), group);
    let h = choose|h: int| 0 <= h < all.len() && all[h] == group;
    assert(is_group(files, all[h]));
    assert forall|f: FileView| #[trigger] group.files.contains(f) implies f.content_hash == Some(
        group.content_hash,
    ) by {
        assert(with_content(group.content_hash)(f));
    }
    assert forall|i: int, j: int| 0 <= i < j < group.files.len() implies #[trigger] group.files[i].path
        != #[trigger] group.files[j].path by {
        assert(FileOrder::Path.lists_first(group.files[i], group.files[j]));
        text_order_is_irreflexive(group.files[i].path);
    }
}

/// The groups are found in the order of what they waste, the most first, and no
/// two are of the same hash.
pub proof fn most_wasteful_group_is_first(
    files: Seq<FileView>,
    all: Seq<GroupView>,
    min_size: u64,
    groups: Seq<GroupView>,
    g: int,
    h: int,
)
    requires
        is_grouping(files, all),
        groups == all.filter(at_least(min_size)),
        0 <= g < h < groups.len(),
    ensures
        groups[g].wasted_bytes >= groups[h].wasted_bytes,
        groups[g].content_hash != groups[h].content_hash,
{
    filtered_groups_are_sorted(all, at_least(min_size));
    text_order_is_irreflexive(groups[g].content_hash);
    if groups[g].content_hash == groups[h].content_hash {
        let (a, b) = (groups[g], groups[h]);
        assert(groups.contains(a) && groups.contains(b));
        all.lemma_filter_contains_rev(at_least(min_size), a);
        all.lemma_filter_contains_rev(at_least(min_size), b);
        let i = choose|i: int| 0 <= i < all.len() && all[i] == a;
        let j = choose|j: int| 0 <= j < all.len() && all[j] == b;
        assert(is_group(files, all[i]) && is_group(files, all[j]));
        crate::db::listing_is_unique(
            files,
            with_content(a.content_hash),
            FileOrder::Path,
            a.files,
            b.files,
        );
    }
}

proof fn filtered_groups_are_sorted(groups: Seq<GroupView>, keep: spec_fn(GroupView) -> bool)
    requires
        forall|i: int, j: int|
            0 <= i < j < groups.len() ==> wastes_more(#[trigger] groups[i], #[trigger] groups[j]),
    ensures
        forall|i: int, j: int|
            0 <= i < j < groups.filter(keep).len() ==> wastes_more(
                #[trigger] groups.filter(keep)[i],
                #[trigger] groups.filter(keep)[j],
            ),
    decreases groups.len(),
{
    reveal_with_fuel(Seq::filter, 1);
    if groups.len() > 0 {
        let front = groups.drop_last();
        filtered_groups_are_sorted(front, keep);
        let before = front.filter(keep);
        let after = groups.filter(keep);
        assert forall|i: int, j: int| 0 <= i < j < after.len() implies wastes_more(
            #[trigger] after[i],
            #[trigger] after[j],
        ) by {
            assert(after[i] == before[i]);
            if j < before.len() {
                assert(after[j] == before[j]);
            } else {
                assert(before.contains(before[i]));
                front.lemma_filter_contains_rev(keep, before[i]);
                let k = choose|k: int| 0 <= k < front.len() && front[k] == before[i];
                assert(wastes_more(groups[k], groups[groups.len() - 1]));
            }
        }
    }
}

/// What some groups waste is what the first of them waste and what the others do.
pub proof fn waste_adds_up(a: Seq<GroupView>, b: Seq<GroupView>, g: GroupView)
    ensures
        total_waste(a + b) == total_waste(a) + total_waste(b),
        total_waste(seq![g]) == g.wasted_bytes,
    decreases b.len(),
{
    assert(seq![g].drop_last() == Seq::<GroupView>::empty());
    assert(total_waste(seq![g].drop_last()) == 0);
    if b.len() == 0 {
        assert(a + b == a);
    } else {
        waste_adds_up(a, b.drop_last(), g);
        assert((a + b).drop_last() == a + b.drop_last());
    }
}

/// Where files are hashed first, all are that are there and have no hash, whatever
/// their size; the smallest comes first.
pub proof fn files_without_hash_are_hashed(files: Seq<FileView>, max: u64, out: Seq<FileView>, f: FileView)
    requires
        is_listing(files, unhashed(max), FileOrder::Size, out),
    ensures
        out.contains(f) <==> files.contains(f) && f.is_present && f.content_hash is None && f.size_bytes
            <= max,
{
    assert(out.contains(f) <==> files.contains(f) && unhashed(max)(f));
}

/// Whether `result` is of a file at `path` that was hashed.
pub open spec fn hashes_path(result: HashResult, path: Seq<char>) -> bool {
    result matches HashResult::Hashed { path: p, hash } && p@ == path
}

/// A file that was hashed has the hash that was found last, and is otherwise as it
/// was.
pub proof fn hash_is_recorded(files: Seq<FileView>, results: Seq<HashResult>, i: int, k: int)
    requires
        0 <= i < files.len(),
        0 <= k < results.len(),
        hashes_path(results[k], files[i].path),
        forall|l: int| k < l < results.len() ==> !hashes_path(#[trigger] results[l], files[i].path),
    ensures
        hashes_recorded(files, results).len() == files.len(),
        hashes_recorded(files, results)[i] == (FileView {
            content_hash: Some(results[k]->Hashed_hash@),
            ..files[i]
        }),
    decreases results.len(),
{
    let front = results.drop_last();
    if k < results.len() - 1 {
        assert forall|l: int| k < l < front.len() implies !hashes_path(#[trigger] front[l], files[i].path) by {
            assert(!hashes_path(results[l], files[i].path));
        }
        assert(front[k] == results[k]);
        hash_is_recorded(files, front, i, k);
        assert(!hashes_path(results[results.len() - 1], files[i].path));
    } else {
        only_hashes_are_recorded(files, front, i);
    }
}

/// Recording hashes changes nothing of a file but its hash, and nothing at all of
/// one that was not hashed.
pub proof fn only_hashes_are_recorded(files: Seq<FileView>, results: Seq<HashResult>, i: int)
    requires
        0 <= i < files.len(),
    ensures
        hashes_recorded(files, results).len() == files.len(),
        hashes_recorded(files, results)[i] == (FileView {
            content_hash: hashes_recorded(files, results)[i].content_hash,
            ..files[i]
        }),
        (forall|l: int| 0 <= l < results.len() ==> !hashes_path(#[trigger] results[l], files[i].path))
            ==> hashes_recorded(files, results)[i] == files[i],
    decreases results.len(),
{
    if results.len() > 0 {
        let front = results.drop_last();
        only_hashes_are_recorded(files, front, i);
        if forall|l: int| 0 <= l < results.len() ==> !hashes_path(#[trigger] results[l], files[i].path) {
            assert forall|l: int| 0 <= l < front.len() implies !hashes_path(
                #[trigger] front[l],
                files[i].path,
            ) by {
                assert(!hashes_path(results[l], files[i].path));
            }
            assert(!hashes_path(results[results.len() - 1], files[i].path));
        }
    }
}

/// As many files are counted as were hashed.
pub proof fn hashed_files_are_counted(results: Seq<HashResult>)
    ensures
        hashed_count(results) == results.filter(|r: HashResult| r is Hashed).len(),
    decreases results.len(),
{
    reveal_with_fuel(Seq::filter, 1);
    if results.len() > 0 {
        hashed_files_are_counted(results.drop_last());
    }
}

/// As many files are counted as were deleted, and every file that was not is
/// listed with its path and the reason.
pub proof fn deletions_are_reported(
    paths: Seq<Seq<char>>,
    outcomes: Seq<DeleteOutcome>,
    n: int,
)
    requires
        0 <= n <= outcomes.len(),
    ensures
        deleted_count(outcomes, n) == outcomes.take(n).filter(|o: DeleteOutcome| o is Deleted).len(),
        deletion_errors(paths, outcomes, n).len() == n - deleted_count(outcomes, n),
        forall|i: int|
            0 <= i < n && (#[trigger] outcomes[i]) is Kept ==> deletion_errors(paths, outcomes, n).contains(
                paths[i] + ": "@ + outcomes[i]->Kept_0@,
            ),
    decreases n,
{
    reveal_with_fuel(Seq::filter, 1);
    if n > 0 {
        deletions_are_reported(paths, outcomes, n - 1);
        assert(outcomes.take(n).drop_last() == outcomes.take(n - 1));
        let before = deletion_errors(paths, outcomes, n - 1);
        let after = deletion_errors(paths, outcomes, n);
        assert forall|i: int| 0 <= i < n && (#[trigger] outcomes[i]) is Kept implies after.contains(
            paths[i] + ": "@ + outcomes[i]->Kept_0@,
        ) by {
            let line = paths[i] + ": "@ + outcomes[i]->Kept_0@;
            if i < n - 1 {
                assert(before.contains(line));
                let k = choose|k: int| 0 <= k < before.len() && before[k] == line;
                assert(after[k] == line);
            } else {
                assert(after[before.len() as int] == line);
            }
        }
    }
}

/// Every copy of every group that is found is printed, and every file that could
/// not be deleted.
#[verifier::rlimit(40)]
pub proof fn report_shows_every_copy(report: DedupReport, g: int, i: int, e: int)
    requires
        report.groups_found > 0,
    ensures
        0 <= g < report.groups@.len() && 0 <= i < report.groups@[g].files@.len() ==> has_text(
            printed(report),
            report.groups@[g].files@[i].path@,
        ),
        0 <= e < report.delete_errors@.len() ==> has_text(printed(report), report.delete_errors@[e]@),
        has_text(printed(report), byte_size(report.wasted_bytes, 2)),
        report.files_deleted > 0 ==> has_text(printed(report), decimal(report.files_deleted as nat)),
{
    let groups = group_views(report.groups@);
    let errors = texts(report.delete_errors@);
    let head = "\nFound "@ + decimal(report.groups_found as nat) + " duplicate group(s) \u{2014} "@
        + byte_size(report.wasted_bytes, 2) + " wasted\n\n"@;
    let lines = head + group_lines(groups);
    let deleted = if report.files_deleted > 0 {
        "Deleted "@ + decimal(report.files_deleted as nat) + " file(s).\n"@
    } else {
        Seq::empty()
    };
    let title = "\nErrors during deletion:\n"@;
    let tail = if errors.len() > 0 {
        title + error_lines(errors)
    } else {
        Seq::empty()
    };
    assert(texts(report.delete_errors@).len() == report.delete_errors@.len());
    assert(printed(report) == lines + deleted + tail);
    let found = "\nFound "@ + decimal(report.groups_found as nat) + " duplicate group(s) \u{2014} "@;
    end_is_a_part(found, byte_size(report.wasted_bytes, 2));
    parts_stay(found + byte_size(report.wasted_bytes, 2), " wasted\n\n"@);
    parts_stay(head, group_lines(groups));
    end_is_a_part("Deleted "@, decimal(report.files_deleted as nat));
    parts_stay("Deleted "@ + decimal(report.files_deleted as nat), " file(s).\n"@);
    end_is_a_part(lines, deleted);
    end_is_a_part(head, group_lines(groups));
    parts_stay(lines, deleted);
    parts_stay(lines + deleted, tail);
    end_is_a_part(lines + deleted, tail);
    if 0 <= g < report.groups@.len() && 0 <= i < report.groups@[g].files@.len() {
        assert(groups[g].files[i].path == report.groups@[g].files@[i].path@);
        group_lines_show_copies(groups, g, i);
    }
    if 0 <= e < report.delete_errors@.len() {
        assert(errors[e] == report.delete_errors@[e]@);
        error_lines_show_errors(errors, e);
        end_is_a_part(title, error_lines(errors));
    }
}

proof fn group_lines_show_copies(groups: Seq<GroupView>, g: int, i: int)
    requires
        0 <= g < groups.len(),
        0 <= i < groups[g].files.len(),
    ensures
        has_text(group_lines(groups), groups[g].files[i].path),
    decreases groups.len(),
{
    let before = group_lines(groups.drop_last());
    let head = before + group_line(groups.len(), groups.last());
    let lines = file_lines(groups.last().files);
    parts_stay(before, group_line(groups.len(), groups.last()));
    parts_stay(head, lines);
    parts_stay(head + lines, "\n"@);
    if g < groups.len() - 1 {
        assert(groups.drop_last()[g] == groups[g]);
        group_lines_show_copies(groups.drop_last(), g, i);
    } else {
        file_lines_show_copies(groups[g].files, i);
        end_is_a_part(head, lines);
    }
}

proof fn file_lines_show_copies(files: Seq<FileView>, i: int)
    requires
        0 <= i < files.len(),
    ensures
        has_text(file_lines(files), files[i].path),
    decreases files.len(),
{
    let f = files.last();
    let before = file_lines(files.drop_last());
    let size = byte_size(f.size_bytes, 2);
    parts_stay(before, "  "@);
    parts_stay(before + "  "@, f.path);
    parts_stay(before + "  "@ + f.path, " ("@);
    parts_stay(before + "  "@ + f.path + " ("@, size);
    parts_stay(before + "  "@ + f.path + " ("@ + size, ")\n"@);
    if i < files.len() - 1 {
        assert(files.drop_last()[i] == files[i]);
        file_lines_show_copies(files.drop_last(), i);
    } else {
        end_is_a_part(before + "  "@, f.path);
    }
}

proof fn error_lines_show_errors(errors: Seq<Seq<char>>, e: int)
    requires
        0 <= e < errors.len(),
    ensures
        has_text(error_lines(errors), errors[e]),
    decreases errors.len(),
{
    let before = error_lines(errors.drop_last());
    let mark = before + "  \u{2717} "@;
    parts_stay(before, "  \u{2717} "@);
    parts_stay(mark, errors.last());
    parts_stay(mark + errors.last(), "\n"@);
    if e < errors.len() - 1 {
        assert(errors.drop_last()[e] == errors[e]);
        error_lines_show_errors(errors.drop_last(), e);
    } else {
        end_is_a_part(mark, errors[e]);
    }
}

/// Files are deleted if and only if that is asked for and it is no dry run.
pub proof fn dry_run_deletes_nothing(opts: DedupOptions)
    ensures
        opts.dry_run ==> !deletes(opts),
        !opts.delete ==> !deletes(opts),
        opts.delete && !opts.dry_run ==> deletes(opts),
{
}

/// The paths to delete are those of the plan.
pub proof fn planned_paths_are_those_of_the_plan(groups: Seq<GroupView>, strategy: KeepStrategy, i: int)
    requires
        0 <= i < planned(groups, strategy).len(),
    ensures
        planned_paths(groups, strategy).len() == planned(groups, strategy).len(),
        planned_paths(groups, strategy)[i] == planned(groups, strategy)[i].0,
{
}

/// Finding copies fails only where one group of copies wastes more bytes than can
/// be counted.
pub proof fn only_uncountable_waste_fails(files: Seq<FileView>, all: Seq<GroupView>)
    ensures
        waste_overflows(files) ==> exists|hash: Seq<char>, group: Seq<FileView>|
            {
                &&& #[trigger] is_listing(files, with_content(hash), FileOrder::Path, group)
                &&& group.len() >= 2
                &&& group[0].size_bytes * (group.len() - 1) > u64::MAX
            },
        is_grouping(files, all) ==> !waste_overflows(files),
{
    if is_grouping(files, all) && waste_overflows(files) {
        let (hash, group) = choose|hash: Seq<char>, group: Seq<FileView>| #[trigger]
            is_listing(files, with_content(hash), FileOrder::Path, group) && group.len() >= 2
                && crate::db::waste(group) > u64::MAX;
        crate::db::listed_twice_is_shared(files, hash, group);
        assert(crate::db::has_group(all, hash));
        let g = choose|g: int| 0 <= g < all.len() && (#[trigger] all[g]).content_hash == hash;
        assert(is_group(files, all[g]));
        crate::db::listing_is_unique(files, with_content(hash), FileOrder::Path, group, all[g].files);
    }
}

/// What is hashed is all chunks of a file, one behind the other.
pub proof fn all_chunks_are_hashed(a: Seq<Vec<u8>>, b: Seq<Vec<u8>>, chunk: Vec<u8>)
    ensures
        contents(a + b) == contents(a) + contents(b),
        contents(seq![chunk]) == chunk@,
    decreases b.len(),
{
    assert(seq![chunk].drop_last() == Seq::<Vec<u8>>::empty());
    assert(contents(seq![chunk].drop_last()) == Seq::<u8>::empty());
    assert(Seq::<u8>::empty() + chunk@ == chunk@);
    if b.len() == 0 {
        assert(a + b == a);
        assert(contents(a) + Seq::<u8>::empty() == contents(a));
    } else {
        all_chunks_are_hashed(a, b.drop_last(), chunk);
        assert((a + b).drop_last() == a + b.drop_last());
        let (x, y, z) = (contents(a), contents(b.drop_last()), b.last()@);
        assert((x + y) + z == x + (y + z));
    }
}

/// A hash is shared if and only if two files that are there have it.
pub proof fn shared_hash_has_two_files(files: Seq<FileView>, hash: Seq<char>)
    ensures
        shared(files, hash) <==> exists|i: int, j: int|
            {
                &&& 0 <= i < j < files.len()
                &&& (#[trigger] files[i]).is_present && files[i].content_hash == Some(hash)
                &&& (#[trigger] files[j]).is_present && files[j].content_hash == Some(hash)
            },
{
    if shared(files, hash) {
        let (i, j) = choose|i: int, j: int|
            0 <= i < j < files.len() && with_content(hash)(#[trigger] files[i]) && with_content(hash)(
                #[trigger] files[j],
            );
        assert(files[i].is_present && files[j].is_present);
    }
    if exists|i: int, j: int|
        {
            &&& 0 <= i < j < files.len()
            &&& (#[trigger] files[i]).is_present && files[i].content_hash == Some(hash)
            &&& (#[trigger] files[j]).is_present && files[j].content_hash == Some(hash)
        } {
        let (i, j) = choose|i: int, j: int|
            {
                &&& 0 <= i < j < files.len()
                &&& (#[trigger] files[i]).is_present && files[i].content_hash == Some(hash)
                &&& (#[trigger] files[j]).is_present && files[j].content_hash == Some(hash)
            };
        assert(with_content(hash)(files[i]) && with_content(hash)(files[j]));
    }
}

} // verus!
