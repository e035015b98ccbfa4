//! Backups: which files are in them, what is written down of them, and which are
//! kept.

use vstd::prelude::*;

use crate::backup::{
    added, all_backup_lines, are_selected, backup_lines, entries_of, entry_views, is_manifest, is_plan,
    label_of, left_out, manifest_of, printed, skipped_lines, BackupManifest, BackupPlan, BackupReport,
};
use crate::db::{has_archive, in_category, is_backup_listing, present, without_id};
use crate::laws::texts::{end_is_a_part, parts_stay};
use crate::models::{optional_text, total_size, BackupView, FileCategory, FileView};
use crate::paths::path_join;
use crate::sizes::byte_size;
use crate::text::{decimal, has_text, strip_start, texts, Strip};
use crate::time::{rfc3339, time_formatted};

verus! {

/// A backup is of all files that are there, or of all of them that are of the
/// category that it is restricted to.
pub proof fn backup_is_of_all_files(
    files: Seq<FileView>,
    category: Option<FileCategory>,
    out: Seq<FileView>,
    f: FileView,
)
    requires
        are_selected(files, category, out),
    ensures
        out.contains(f) <==> files.contains(f) && f.is_present && (category is Some ==> f.category
            == category->0),
{
    match category {
        None => {
            assert(out.contains(f) <==> files.contains(f) && present()(f));
        },
        Some(c) => {
            assert(out.contains(f) <==> files.contains(f) && in_category(c)(f));
        },
    }
}

/// How many of the first `n` files could be added.
pub open spec fn added_before(ok: Seq<bool>, n: int) -> nat {
    ok.take(n).filter(|b: bool| b).len()
}

/// Every file that could be added is in the archive, in order, and every other is
/// listed as left out.
pub proof fn every_file_is_added_or_left_out(files: Seq<FileView>, ok: Seq<bool>, n: int)
    requires
        0 <= n <= files.len(),
        files.len() == ok.len(),
    ensures
        added(files, ok, n).len() == added_before(ok, n),
        left_out(files, ok, n).len() == n - added_before(ok, n),
        forall|i: int|
            0 <= i < n && #[trigger] ok[i] ==> added_before(ok, i) < added(files, ok, n).len() && added(
                files,
                ok,
                n,
            )[added_before(ok, i) as int] == files[i],
        forall|i: int|
            0 <= i < n && !#[trigger] ok[i] ==> i - added_before(ok, i) < left_out(files, ok, n).len()
                && left_out(files, ok, n)[i - added_before(ok, i)] == files[i].path,
    decreases n,
{
    reveal_with_fuel(Seq::filter, 1);
    if n > 0 {
        every_file_is_added_or_left_out(files, ok, n - 1);
        assert(ok.take(n).drop_last() == ok.take(n - 1));
        assert(ok.take(n).last() == ok[n - 1]);
        let (a, b) = (added(files, ok, n - 1), added(files, ok, n));
        let (c, d) = (left_out(files, ok, n - 1), left_out(files, ok, n));
        assert forall|i: int| 0 <= i < n && #[trigger] ok[i] implies added_before(ok, i) < b.len()
            && b[added_before(ok, i) as int] == files[i] by {
            if i < n - 1 {
                assert(b[added_before(ok, i) as int] == a[added_before(ok, i) as int]);
            }
        }
        assert forall|i: int| 0 <= i < n && !#[trigger] ok[i] implies i - added_before(ok, i) < d.len()
            && d[i - added_before(ok, i)] == files[i].path by {
            if i < n - 1 {
                fewer_are_added(ok, i);
                assert(d[i - added_before(ok, i)] == c[i - added_before(ok, i)]);
            }
        }
    } else {
        assert(ok.take(0) == Seq::<bool>::empty());
    }
}

proof fn fewer_are_added(ok: Seq<bool>, n: int)
    requires
        0 <= n <= ok.len(),
    ensures
        added_before(ok, n) <= n,
    decreases n,
{
    reveal_with_fuel(Seq::filter, 1);
    if n > 0 {
        fewer_are_added(ok, n - 1);
        assert(ok.take(n).drop_last() == ok.take(n - 1));
    } else {
        assert(ok.take(0) == Seq::<bool>::empty());
    }
}

/// The manifest lists every file of the archive with its path, size and hash, in
/// order, and names the backup, when it was made and how.
pub proof fn manifest_lists_the_archive(
    m: BackupManifest,
    plan: BackupPlan,
    included: Seq<FileView>,
    level: i32,
    compressed: u64,
    at: (int, int),
)
    requires
        is_manifest(m, plan, included, level, compressed, at),
    ensures
        m.id@ == plan.id@,
        m.label@ == plan.label@,
        m.created_at@ == rfc3339(at),
        m.compression_level == level,
        m.compressed_bytes == compressed,
        m.original_bytes == total_size(included),
        m.files@.len() == included.len(),
        forall|i: int|
            0 <= i < included.len() ==> (#[trigger] m.files@[i]).path@ == included[i].path
                && m.files@[i].size_bytes == included[i].size_bytes && optional_text(m.files@[i].content_hash)
                == included[i].content_hash,
{
    assert(entry_views(m.files@).len() == entries_of(included).len());
    assert forall|i: int| 0 <= i < included.len() implies (#[trigger] m.files@[i]).path@ == included[i].path
        && m.files@[i].size_bytes == included[i].size_bytes && optional_text(m.files@[i].content_hash)
        == included[i].content_hash by {
        assert(entry_views(m.files@)[i] == entries_of(included)[i]);
    }
}

/// The size of some files is that of the first of them and that of the others.
pub proof fn sizes_add_up(a: Seq<FileView>, b: Seq<FileView>, f: FileView)
    ensures
        total_size(a + b) == total_size(a) + total_size(b),
        total_size(seq![f]) == f.size_bytes,
    decreases b.len(),
{
    assert(seq![f].drop_last() == Seq::<FileView>::empty());
    assert(total_size(seq![f].drop_last()) == 0);
    if b.len() == 0 {
        assert(a + b == a);
    } else {
        sizes_add_up(a, b.drop_last(), f);
        assert((a + b).drop_last() == a + b.drop_last());
    }
}

/// The archive and the manifest are named after the label and the start of the id,
/// and are in the directory of the backups. A label that is given is taken;
/// otherwise it tells the day.
pub proof fn archive_and_manifest_are_named_alike(
    plan: BackupPlan,
    id: Seq<char>,
    label: Option<Seq<char>>,
    backup_dir: Seq<char>,
    now: (int, int),
)
    requires
        is_plan(plan, id, label_of(label, now), backup_dir),
    ensures
        plan.id@ == id,
        plan.label@ == match label {
            Some(l) => l,
            None => "backup-"@ + time_formatted(now, "%Y-%m-%d"@),
        },
        plan.archive_path@ == path_join(backup_dir, plan.label@ + "-"@ + id.take(8) + ".tar.zst"@),
        plan.manifest_path@ == path_join(backup_dir, plan.label@ + "-"@ + id.take(8) + ".json"@),
{
}

/// The manifest of an archive has the archive's name with another ending.
pub proof fn manifest_is_beside_the_archive(stem: Seq<char>)
    requires
        !".tar.zst"@.is_suffix_of(stem),
    ensures
        manifest_of(stem + ".tar.zst"@) == stem + ".json"@,
{
    let end = ".tar.zst"@;
    let archive = stem + end;
    reveal_strlit(".tar.zst");
    assert(archive.subrange(archive.len() - end.len(), archive.len() as int) == end);
    assert(end.is_suffix_of(archive));
    assert(archive.take(archive.len() - end.len()) == stem);
    reveal_with_fuel(crate::backup::without_endings, 2);
}

/// A file is in the archive under its path, without the separators in front of
/// it.
pub proof fn path_in_archive_is_relative(path: Seq<char>)
    ensures
        ({
            let entry = strip_start(path, Strip::Only('/'));
            &&& entry.len() > 0 ==> entry[0] != '/'
            &&& entry.len() <= path.len()
            &&& path.skip(path.len() - entry.len()) == entry
            &&& forall|i: int| 0 <= i < path.len() - entry.len() ==> #[trigger] path[i] == '/'
        }),
    decreases path.len(),
{
    let what = Strip::Only('/');
    if path.len() > 0 && what.takes(path.first()) {
        let rest = path.drop_first();
        path_in_archive_is_relative(rest);
        let entry = strip_start(path, what);
        assert(path.skip(path.len() - entry.len()) == rest.skip(rest.len() - entry.len()));
        assert forall|i: int| 0 <= i < path.len() - entry.len() implies #[trigger] path[i] == '/' by {
            if i > 0 {
                assert(rest[i - 1] == '/');
            }
        }
    } else {
        assert(path.skip(0) == path);
    }
}

/// All backups are listed, the last that was made first.
pub proof fn last_backup_is_first(backups: Seq<BackupView>, out: Seq<BackupView>, i: int, j: int)
    requires
        is_backup_listing(backups, out),
    ensures
        out.len() == backups.len(),
        forall|b: BackupView| #[trigger] out.contains(b) <==> backups.contains(b),
        0 <= i < j < out.len() ==> out[i].created_at.0 > out[j].created_at.0 || (out[i].created_at.0
            == out[j].created_at.0 && out[i].created_at.1 >= out[j].created_at.1),
{
}

/// A backup that is removed is gone, and all others stay.
pub proof fn only_the_removed_backup_goes(backups: Seq<BackupView>, id: i64, b: BackupView)
    ensures
        without_id(backups, id).contains(b) <==> backups.contains(b) && b.id != Some(id),
{
    broadcast use vstd::seq_lib::group_filter_ensures;

    let keep = |x: BackupView| x.id != Some(id);
    let out = without_id(backups, id);
    if out.contains(b) {
        let i = choose|i: int| 0 <= i < out.len() && out[i] == b;
        backups.lemma_filter_contains_rev(keep, b);
        assert(keep(out[i]));
    }
    if backups.contains(b) && b.id != Some(id) {
        let i = choose|i: int| 0 <= i < backups.len() && backups[i] == b;
        assert(keep(backups[i]));
    }
}

/// The report of a backup names the archive, the manifest and every file that was
/// left out.
#[verifier::rlimit(40)]
pub proof fn report_shows_what_was_left_out(report: BackupReport, ratio: Seq<char>, s: int)
    ensures
        has_text(printed(report, ratio), report.archive_path@),
        has_text(printed(report, ratio), report.manifest_path@),
        has_text(printed(report, ratio), decimal(report.files_included as nat)),
        has_text(printed(report, ratio), byte_size(report.original_bytes, 1)),
        has_text(printed(report, ratio), byte_size(report.compressed_bytes, 1)),
        0 <= s < report.skipped@.len() ==> has_text(printed(report, ratio), report.skipped@[s]@),
{
    let skipped = texts(report.skipped@);
    let head = "\n  Skipped "@ + decimal(report.skipped@.len()) + " file(s) due to read errors:\n"@;
    let tail = if report.skipped@.len() > 0 {
        head + skipped_lines(skipped)
    } else {
        Seq::empty()
    };
    let x0 = "\nBackup complete:\n  Archive:   "@ + report.archive_path@;
    end_is_a_part("\nBackup complete:\n  Archive:   "@, report.archive_path@);
    let x1 = x0 + "\n  Manifest:  "@;
    parts_stay(x0, "\n  Manifest:  "@);
    let x2 = x1 + report.manifest_path@;
    parts_stay(x1, report.manifest_path@);
    end_is_a_part(x1, report.manifest_path@);
    let x3 = x2 + "\n  Files:     "@;
    parts_stay(x2, "\n  Files:     "@);
    let x4 = x3 + decimal(report.files_included as nat);
    parts_stay(x3, decimal(report.files_included as nat));
    end_is_a_part(x3, decimal(report.files_included as nat));
    let x5 = x4 + "\n  Size:      "@;
    parts_stay(x4, "\n  Size:      "@);
    let x6 = x5 + byte_size(report.original_bytes, 1);
    parts_stay(x5, byte_size(report.original_bytes, 1));
    end_is_a_part(x5, byte_size(report.original_bytes, 1));
    let x7 = x6 + " \u{2192} "@;
    parts_stay(x6, " \u{2192} "@);
    let x8 = x7 + byte_size(report.compressed_bytes, 1);
    parts_stay(x7, byte_size(report.compressed_bytes, 1));
    end_is_a_part(x7, byte_size(report.compressed_bytes, 1));
    let x9 = x8 + " ("@;
    parts_stay(x8, " ("@);
    let x10 = x9 + ratio;
    parts_stay(x9, ratio);
    let x11 = x10 + "% saved)\n  Duration:  "@;
    parts_stay(x10, "% saved)\n  Duration:  "@);
    let x12 = x11 + decimal(report.duration_ms as nat);
    parts_stay(x11, decimal(report.duration_ms as nat));
    let x13 = x12 + "ms\n"@;
    parts_stay(x12, "ms\n"@);
    let x14 = x13 + tail;
    parts_stay(x13, tail);
    end_is_a_part(x13, tail);
    assert(printed(report, ratio) == x14);
    if 0 <= s < report.skipped@.len() {
        assert(skipped[s] == report.skipped@[s]@);
        skipped_lines_show_paths(skipped, s);
        end_is_a_part(head, skipped_lines(skipped));
    }
}

proof fn skipped_lines_show_paths(paths: Seq<Seq<char>>, s: int)
    requires
        0 <= s < paths.len(),
    ensures
        has_text(skipped_lines(paths), paths[s]),
    decreases paths.len(),
{
    let before = skipped_lines(paths.drop_last());
    let mark = before + "    \u{2717} "@;
    parts_stay(before, "    \u{2717} "@);
    parts_stay(mark, paths.last());
    parts_stay(mark + paths.last(), "\n"@);
    if s < paths.len() - 1 {
        assert(paths.drop_last()[s] == paths[s]);
        skipped_lines_show_paths(paths.drop_last(), s);
    } else {
        end_is_a_part(mark, paths[s]);
    }
}

/// The list of backups shows the label and the archive of each.
pub proof fn list_shows_every_backup(backups: Seq<BackupView>, ratios: Seq<Seq<char>>, i: int)
    requires
        backups.len() == ratios.len(),
        0 <= i < backups.len(),
    ensures
        has_text(all_backup_lines(backups, ratios), backups[i].label),
        has_text(all_backup_lines(backups, ratios), backups[i].archive_path),
    decreases backups.len(),
{
    let before = all_backup_lines(backups.drop_last(), ratios.drop_last());
    let last = backup_lines(backups.last(), ratios.last());
    parts_stay(before, last);
    if i < backups.len() - 1 {
        assert(backups.drop_last()[i] == backups[i]);
        list_shows_every_backup(backups.drop_last(), ratios.drop_last(), i);
    } else {
        lines_show_backup(backups[i], ratios.last());
        end_is_a_part(before, last);
    }
}

#[verifier::rlimit(40)]
proof fn lines_show_backup(b: BackupView, ratio: Seq<char>)
    ensures
        has_text(backup_lines(b, ratio), b.label),
        has_text(backup_lines(b, ratio), b.archive_path),
{
    let head = "  ["@ + time_formatted(b.created_at, "%Y-%m-%d %H:%M"@) + "] "@;
    let x0 = head + b.label;
    end_is_a_part(head, b.label);
    let x1 = x0 + "\n       "@;
    parts_stay(x0, "\n       "@);
    let x2 = x1 + byte_size(b.original_bytes, 1);
    parts_stay(x1, byte_size(b.original_bytes, 1));
    let x3 = x2 + " \u{2192} "@;
    parts_stay(x2, " \u{2192} "@);
    let x4 = x3 + byte_size(b.compressed_bytes, 1);
    parts_stay(x3, byte_size(b.compressed_bytes, 1));
    let x5 = x4 + " ("@;
    parts_stay(x4, " ("@);
    let x6 = x5 + ratio;
    parts_stay(x5, ratio);
    let x7 = x6 + "% ratio)\n       "@;
    parts_stay(x6, "% ratio)\n       "@);
    let x8 = x7 + b.archive_path;
    parts_stay(x7, b.archive_path);
    end_is_a_part(x7, b.archive_path);
    let x9 = x8 + "\n\n"@;
    parts_stay(x8, "\n\n"@);
    assert(backup_lines(b, ratio) == x9);
}

/// An archive is known if and only if it is that of a backup.
pub proof fn archive_is_known_by_its_backup(backups: Seq<BackupView>, path: Seq<char>)
    ensures
        has_archive(backups, path) <==> exists|i: int|
            0 <= i < backups.len() && (#[trigger] backups[i]).archive_path == path,
{
    if exists|i: int| 0 <= i < backups.len() && (#[trigger] backups[i]).archive_path == path {
        let i = choose|i: int| 0 <= i < backups.len() && (#[trigger] backups[i]).archive_path == path;
        assert(backups[i].archive_path == path);
    }
}

} // verus!
