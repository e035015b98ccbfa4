//! Settings: what is scanned and left out by default, and how settings are
//! changed.

use vstd::prelude::*;

use crate::cli::{level_of, ConfigAction};
use crate::config::{
    after_action, default_exclude_dirs, default_exclude_extensions, default_settings, is_outcome,
    is_refused, refusal, settings_path, unwatched, watches, with_setting, ConfigOutcome, ConfigView,
};
use crate::laws::texts::{end_is_a_part, parts_stay};
use crate::paths::{path_join, same_components};
use crate::text::{decimal, has_text, parsed};

verus! {

/// The settings are kept in the directory of the program, in that of the user or
/// among temporary files, and at first nothing is scanned.
pub proof fn defaults_are_in_the_data_directory(dir: Option<Seq<char>>)
    ensures
        ({
            let home = match dir {
                Some(d) => path_join(d, "data-fortress"@),
                None => path_join("/tmp"@, "data-fortress"@),
            };
            let c = default_settings(dir);
            &&& c.db_path == path_join(home, "fortress.db"@)
            &&& c.backup_dir == path_join(home, "backups"@)
            &&& c.watch_dirs.len() == 0
            &&& c.max_hash_size_bytes == 4 * 1024 * 1024 * 1024
            &&& c.threads == 0
            &&& settings_path(dir) == path_join(home, "config.json"@)
        }),
{
}

/// By default the directories of version control, caches and builds are left out,
/// and temporary files.
pub proof fn defaults_leave_out_what_is_temporary(dir: Option<Seq<char>>)
    ensures
        ({
            let c = default_settings(dir);
            &&& c.exclude_dirs.len() == 10
            &&& c.exclude_dirs.contains(".git"@)
            &&& c.exclude_dirs.contains(".svn"@)
            &&& c.exclude_dirs.contains(".hg"@)
            &&& c.exclude_dirs.contains("node_modules"@)
            &&& c.exclude_dirs.contains(".cache"@)
            &&& c.exclude_dirs.contains("target"@)
            &&& c.exclude_dirs.contains("__pycache__"@)
            &&& c.exclude_dirs.contains(".Trash"@)
            &&& c.exclude_dirs.contains(".local"@)
            &&& c.exclude_dirs.contains("lost+found"@)
            &&& c.exclude_extensions.len() == 6
            &&& c.exclude_extensions.contains("tmp"@)
            &&& c.exclude_extensions.contains("temp"@)
            &&& c.exclude_extensions.contains("lock"@)
            &&& c.exclude_extensions.contains("swp"@)
            &&& c.exclude_extensions.contains("swo"@)
            &&& c.exclude_extensions.contains("bak"@)
        }),
{
    let (d, e) = (default_exclude_dirs(), default_exclude_extensions());
    assert(d[0] == ".git"@ && d[1] == ".svn"@ && d[2] == ".hg"@ && d[3] == "node_modules"@);
    assert(d[4] == ".cache"@ && d[5] == "target"@ && d[6] == "__pycache__"@ && d[7] == ".Trash"@);
    assert(d[8] == ".local"@ && d[9] == "lost+found"@);
    assert(e[0] == "tmp"@ && e[1] == "temp"@ && e[2] == "lock"@);
    assert(e[3] == "swp"@ && e[4] == "swo"@ && e[5] == "bak"@);
}

/// A number that is set is the number that was written, and nothing else changes.
pub proof fn number_is_set(c: ConfigView, n: u64)
    ensures
        n <= usize::MAX ==> with_setting(c, "threads"@, decimal(n as nat)) == Some(
            ConfigView { threads: n as usize, ..c },
        ),
        with_setting(c, "max_hash_size_bytes"@, decimal(n as nat)) == Some(
            ConfigView { max_hash_size_bytes: n, ..c },
        ),
{
    reveal_strlit("threads");
    reveal_strlit("max_hash_size_bytes");
    crate::text::decimal_reads_back(n as nat, u64::MAX as nat);
    if n <= usize::MAX {
        crate::text::decimal_reads_back(n as nat, usize::MAX as nat);
    }
    assert("threads"@.len() != "max_hash_size_bytes"@.len());
}

/// A path that is set is the path that was given, and nothing else changes.
pub proof fn path_is_set(c: ConfigView, path: Seq<char>)
    ensures
        with_setting(c, "db_path"@, path) == Some(ConfigView { db_path: path, ..c }),
        with_setting(c, "backup_dir"@, path) == Some(ConfigView { backup_dir: path, ..c }),
{
    reveal_strlit("threads");
    reveal_strlit("max_hash_size_bytes");
    reveal_strlit("db_path");
    reveal_strlit("backup_dir");
    assert("db_path"@[0] != "threads"@[0]);
    assert("db_path"@.len() != "max_hash_size_bytes"@.len());
    assert("backup_dir"@.len() != "max_hash_size_bytes"@.len());
    assert("backup_dir"@.len() != "threads"@.len());
    assert("backup_dir"@.len() != "db_path"@.len());
}

/// A setting that there is not, and a number that is none, are refused.
pub proof fn unknown_setting_is_refused(c: ConfigView, key: Seq<char>, value: Seq<char>)
    ensures
        key != "threads"@ && key != "max_hash_size_bytes"@ && key != "db_path"@ && key != "backup_dir"@
            ==> with_setting(c, key, value) is None,
        parsed(value, u64::MAX as nat) is None ==> with_setting(c, "max_hash_size_bytes"@, value) is None,
        parsed(value, usize::MAX as nat) is None ==> with_setting(c, "threads"@, value) is None,
{
    reveal_strlit("threads");
    reveal_strlit("max_hash_size_bytes");
    assert("threads"@.len() != "max_hash_size_bytes"@.len());
}

/// A directory that is added is scanned from then on, and all others as before;
/// the rest of the settings stays.
pub proof fn added_directory_is_scanned(c: ConfigView, action: ConfigAction, dir: Seq<char>)
    requires
        action is AddDir,
    ensures
        ({
            let path = action->AddDir_path@;
            let after = after_action(c, action);
            &&& watches(after.watch_dirs, path)
            &&& c.watch_dirs.contains(dir) ==> after.watch_dirs.contains(dir)
            &&& after.watch_dirs.contains(dir) ==> c.watch_dirs.contains(dir) || dir == path
            &&& after == (ConfigView { watch_dirs: after.watch_dirs, ..c })
        }),
{
    let path = action->AddDir_path@;
    let after = after_action(c, action);
    crate::config::added_dir_is_watched(c, path);
    if c.watch_dirs.contains(dir) {
        let i = choose|i: int| 0 <= i < c.watch_dirs.len() && c.watch_dirs[i] == dir;
        assert(after.watch_dirs[i] == dir);
    }
    if after.watch_dirs.contains(dir) {
        let i = choose|i: int| 0 <= i < after.watch_dirs.len() && after.watch_dirs[i] == dir;
        if i < c.watch_dirs.len() {
            assert(c.watch_dirs[i] == dir);
        }
    }
}

/// A directory that is taken off is not scanned any more, and all others are as
/// before; the rest of the settings stays.
pub proof fn removed_directory_is_not_scanned(c: ConfigView, action: ConfigAction, dir: Seq<char>)
    requires
        action is RemoveDir,
    ensures
        ({
            let path = action->RemoveDir_path@;
            let after = after_action(c, action);
            &&& after.watch_dirs.contains(dir) <==> c.watch_dirs.contains(dir) && !same_components(dir, path)
            &&& !watches(after.watch_dirs, path)
            &&& after == (ConfigView { watch_dirs: after.watch_dirs, ..c })
        }),
{
    broadcast use vstd::seq_lib::group_filter_ensures;

    let path = action->RemoveDir_path@;
    let keep = |d: Seq<char>| !same_components(d, path);
    let out = unwatched(c.watch_dirs, path);
    crate::config::removed_dir_is_not_watched(c.watch_dirs, path);
    if out.contains(dir) {
        let i = choose|i: int| 0 <= i < out.len() && out[i] == dir;
        c.watch_dirs.lemma_filter_contains_rev(keep, dir);
        assert(keep(out[i]));
    }
    if c.watch_dirs.contains(dir) && !same_components(dir, path) {
        let i = choose|i: int| 0 <= i < c.watch_dirs.len() && c.watch_dirs[i] == dir;
        assert(keep(c.watch_dirs[i]));
    }
}

/// Looking at the settings changes nothing, and what is refused changes nothing.
pub proof fn refusal_changes_nothing(c: ConfigView, action: ConfigAction)
    ensures
        action is Show ==> after_action(c, action) == c && !is_refused(c, action),
        is_refused(c, action) ==> after_action(c, action) == c,
        action is AddDir || action is RemoveDir ==> !is_refused(c, action),
        action matches ConfigAction::SetKey { key, value } ==> !is_refused(c, action) ==> with_setting(
            c,
            key@,
            value@,
        ) == Some(after_action(c, action)),
{
}

/// What is said of a change is what happened, and it is saved where something
/// changed.
pub proof fn outcome_tells_what_happened(c: ConfigView, action: ConfigAction, outcome: ConfigOutcome)
    requires
        is_outcome(c, action, outcome),
        !is_refused(c, action),
    ensures
        action is Show ==> outcome is Shown,
        action matches ConfigAction::AddDir { path } ==> if watches(c.watch_dirs, path@) {
            outcome is AlreadyWatched
        } else {
            outcome is Added
        },
        action matches ConfigAction::RemoveDir { path } ==> if watches(c.watch_dirs, path@) {
            outcome is Removed
        } else {
            outcome is NotWatched
        },
        action is SetKey ==> outcome is Changed,
        after_action(c, action) != c ==> outcome.changes(),
{
    if action is RemoveDir {
        let path = action->RemoveDir_path@;
        if !watches(c.watch_dirs, path) {
            let keep = |d: Seq<char>| !same_components(d, path);
            assert forall|i: int| 0 <= i < c.watch_dirs.len() implies keep(#[trigger] c.watch_dirs[i]) by {
                assert(!same_components(c.watch_dirs[i], path));
            }
            crate::config::all_kept(c.watch_dirs, keep);
            assert(unwatched(c.watch_dirs, path) == c.watch_dirs);
        }
    }
}

/// The refusal of a setting that there is not names it.
pub proof fn refusal_names_the_setting(key: Seq<char>)
    requires
        key != "threads"@,
        key != "max_hash_size_bytes"@,
    ensures
        has_text(refusal(key), key),
{
    let front = "unknown config key '"@;
    end_is_a_part(front, key);
    parts_stay(front + key, "'. Valid keys: threads, max_hash_size_bytes, db_path, backup_dir"@);
}

/// Each step of verbosity logs more, and the third and all above log everything.
pub proof fn verbosity_goes_up_to_everything(verbosity: u8)
    ensures
        verbosity == 0 ==> level_of(verbosity) == "warn"@,
        verbosity == 1 ==> level_of(verbosity) == "info"@,
        verbosity == 2 ==> level_of(verbosity) == "debug"@,
        verbosity >= 3 ==> level_of(verbosity) == "trace"@,
{
}

/// What is said of a change names the directory, or the setting and its value.
#[verifier::rlimit(40)]
pub proof fn message_names_what_changed(outcome: ConfigOutcome)
    ensures
        outcome matches ConfigOutcome::Added(path) ==> has_text(outcome.text(), path@),
        outcome matches ConfigOutcome::AlreadyWatched(path) ==> has_text(outcome.text(), path@),
        outcome matches ConfigOutcome::Removed(path) ==> has_text(outcome.text(), path@),
        outcome matches ConfigOutcome::NotWatched(path) ==> has_text(outcome.text(), path@),
        outcome matches ConfigOutcome::Changed { key, value } ==> has_text(outcome.text(), key@) && has_text(
            outcome.text(),
            value@,
        ),
{
    match outcome {
        ConfigOutcome::Shown => {},
        ConfigOutcome::Added(path) => end_is_a_part("Added: "@, path@),
        ConfigOutcome::AlreadyWatched(path) => end_is_a_part("Directory already in watch list: "@, path@),
        ConfigOutcome::Removed(path) => end_is_a_part("Removed: "@, path@),
        ConfigOutcome::NotWatched(path) => end_is_a_part("Directory not in watch list: "@, path@),
        ConfigOutcome::Changed { key, value } => {
            let x = "Set "@ + key@;
            let y = x + " = "@;
            end_is_a_part("Set "@, key@);
            parts_stay(x, " = "@);
            parts_stay(y, value@);
            end_is_a_part(y, value@);
        },
    }
}

} // verus!
