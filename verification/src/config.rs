//! The settings of the program.

use vstd::prelude::*;

use crate::cli::ConfigAction;
use crate::error::{FortressError, FortressResult};
use crate::models::optional_text;
use crate::paths::{join_path, path_join, same_components, same_path};
use crate::text::{
    clone_texts, is_listed, joined, joined3, parse_decimal, parsed, same_text, texts,
};

verus! {

/// The settings of the program.
#[derive(Debug)]
pub struct Config {
    /// The path of the database.
    pub db_path: String,
    /// The directories that are scanned.
    pub watch_dirs: Vec<String>,
    /// The directory of the backup archives.
    pub backup_dir: String,
    /// The names of the directories that are left out.
    pub exclude_dirs: Vec<String>,
    /// The extensions of the files that are left out, in lowercase.
    pub exclude_extensions: Vec<String>,
    /// The size of the largest files that are hashed.
    pub max_hash_size_bytes: u64,
    /// The number of worker threads; 0 for one for each processor.
    pub threads: usize,
}

/// What the settings say.
#[verifier::ext_equal]
pub struct ConfigView {
    pub db_path: Seq<char>,
    pub watch_dirs: Seq<Seq<char>>,
    pub backup_dir: Seq<char>,
    pub exclude_dirs: Seq<Seq<char>>,
    pub exclude_extensions: Seq<Seq<char>>,
    pub max_hash_size_bytes: u64,
    pub threads: usize,
}

impl View for Config {
    type V = ConfigView;

    open spec fn view(&self) -> ConfigView {
        ConfigView {
            db_path: self.db_path@,
            watch_dirs: texts(self.watch_dirs@),
            backup_dir: self.backup_dir@,
            exclude_dirs: texts(self.exclude_dirs@),
            exclude_extensions: texts(self.exclude_extensions@),
            max_hash_size_bytes: self.max_hash_size_bytes,
            threads: self.threads,
        }
    }
}

impl Clone for Config {
    fn clone(&self) -> (r: Self)
        ensures
            r@ == self@,
    {
        Config {
            db_path: self.db_path.clone(),
            watch_dirs: clone_texts(&self.watch_dirs),
            backup_dir: self.backup_dir.clone(),
            exclude_dirs: clone_texts(&self.exclude_dirs),
            exclude_extensions: clone_texts(&self.exclude_extensions),
            max_hash_size_bytes: self.max_hash_size_bytes,
            threads: self.threads,
        }
    }
}

/// `dirs::data_dir`: the directory for the user's data, if the environment
/// names one. Nothing is said of which one it is.
#[verifier::external_body]
fn user_data_dir() -> (r: Option<String>) {
    match dirs::data_dir() {
        Some(p) => Some(p.to_string_lossy().to_string()),
        None => None,
    }
}

/// `dirs::config_dir`: the directory for the user's settings, if the
/// environment names one. Nothing is said of which one it is.
#[verifier::external_body]
fn user_config_dir() -> (r: Option<String>) {
    match dirs::config_dir() {
        Some(p) => Some(p.to_string_lossy().to_string()),
        None => None,
    }
}

/// The names of the directories that are left out unless the user says
/// otherwise.
pub open spec fn default_exclude_dirs() -> Seq<Seq<char>> {
    seq![
        ".git"@,
        ".svn"@,
        ".hg"@,
        "node_modules"@,
        ".cache"@,
        "target"@,
        "__pycache__"@,
        ".Trash"@,
        ".local"@,
        "lost+found"@,
    ]
}

/// The extensions of the files that are left out unless the user says
/// otherwise.
pub open spec fn default_exclude_extensions() -> Seq<Seq<char>> {
    seq!["tmp"@, "temp"@, "lock"@, "swp"@, "swo"@, "bak"@]
}

/// The directory that is given, or `/tmp`.
pub open spec fn or_tmp(dir: Option<Seq<char>>) -> Seq<char> {
    match dir {
        Some(d) => d,
        None => "/tmp"@,
    }
}

/// The settings of a user who has not made any, whose data is kept in `dir`.
pub open spec fn default_settings(dir: Option<Seq<char>>) -> ConfigView {
    let data_dir = path_join(or_tmp(dir), "data-fortress"@);
    ConfigView {
        db_path: path_join(data_dir, "fortress.db"@),
        watch_dirs: Seq::empty(),
        backup_dir: path_join(data_dir, "backups"@),
        exclude_dirs: default_exclude_dirs(),
        exclude_extensions: default_exclude_extensions(),
        max_hash_size_bytes: 4_294_967_296,
        threads: 0,
    }
}

/// The path of the settings of a user whose settings are kept in `dir`.
pub open spec fn settings_path(dir: Option<Seq<char>>) -> Seq<char> {
    path_join(path_join(or_tmp(dir), "data-fortress"@), "config.json"@)
}

/// Whether one of the paths has the components of `path`.
pub open spec fn watches(dirs: Seq<Seq<char>>, path: Seq<char>) -> bool {
    exists|i: int| 0 <= i < dirs.len() && same_components(#[trigger] dirs[i], path)
}

/// The paths that do not have the components of `path`.
pub open spec fn unwatched(dirs: Seq<Seq<char>>, path: Seq<char>) -> Seq<Seq<char>> {
    dirs.filter(|d: Seq<char>| !same_components(d, path))
}

impl Config {
    /// The settings of a user who has not made any, whose data is kept in
    /// `data_dir`, or under `/tmp` where it is not given.
    pub fn default_in(data_dir: Option<String>) -> (r: Config)
        ensures
            r@ == default_settings(optional_text(data_dir)),
    {
        let base: String = match data_dir {
            Some(d) => d,
            None => "/tmp".to_owned(),
        };
        let home: String = join_path(base.as_str(), "data-fortress");
        let r: Config = Config {
            db_path: join_path(home.as_str(), "fortress.db"),
            watch_dirs: Vec::new(),
            backup_dir: join_path(home.as_str(), "backups"),
            exclude_dirs: vec![
                ".git".to_owned(),
                ".svn".to_owned(),
                ".hg".to_owned(),
                "node_modules".to_owned(),
                ".cache".to_owned(),
                "target".to_owned(),
                "__pycache__".to_owned(),
                ".Trash".to_owned(),
                ".local".to_owned(),
                "lost+found".to_owned(),
            ],
            exclude_extensions: vec![
                "tmp".to_owned(),
                "temp".to_owned(),
                "lock".to_owned(),
                "swp".to_owned(),
                "swo".to_owned(),
                "bak".to_owned(),
            ],
            max_hash_size_bytes: 4_294_967_296,
            threads: 0,
        };
        assert(r@.watch_dirs == Seq::<Seq<char>>::empty());
        assert(r@.exclude_dirs == default_exclude_dirs());
        assert(r@.exclude_extensions == default_exclude_extensions());
        r
    }

    /// The settings of a user who has not made any.
    pub fn default_config() -> (r: Config)
        ensures
            exists|dir: Option<Seq<char>>| r@ == #[trigger] default_settings(dir),
    {
        let dir: Option<String> = user_data_dir();
        let ghost d = optional_text(dir);
        let r: Config = Config::default_in(dir);
        assert(r@ == default_settings(d));
        r
    }

    /// The path of the settings of a user whose settings are kept in
    /// `config_dir`, or under `/tmp` where it is not given.
    pub fn config_path_in(config_dir: Option<String>) -> (r: String)
        ensures
            r@ == settings_path(optional_text(config_dir)),
    {
        let base: String = match config_dir {
            Some(d) => d,
            None => "/tmp".to_owned(),
        };
        join_path(join_path(base.as_str(), "data-fortress").as_str(), "config.json")
    }

    /// The path of the settings, unless the user names another.
    pub fn default_config_path() -> (r: String)
        ensures
            exists|dir: Option<Seq<char>>| r@ == #[trigger] settings_path(dir),
    {
        let dir: Option<String> = user_config_dir();
        let ghost d = optional_text(dir);
        let r: String = Config::config_path_in(dir);
        assert(r@ == settings_path(d));
        r
    }

    /// Whether directories with the given name are left out.
    pub fn should_exclude_dir(&self, dir_name: &str) -> (r: bool)
        ensures
            r == self@.exclude_dirs.contains(dir_name@),
    {
        is_listed(dir_name, &self.exclude_dirs)
    }

    /// Whether files with the given extension, in lowercase, are left out.
    pub fn should_exclude_extension(&self, ext: &str) -> (r: bool)
        ensures
            r == self@.exclude_extensions.contains(ext@),
    {
        is_listed(ext, &self.exclude_extensions)
    }

    /// Whether one of the watched directories is `path`.
    pub fn is_watched(&self, path: &str) -> (r: bool)
        ensures
            r == watches(self@.watch_dirs, path@),
    {
        for i in 0..self.watch_dirs.len()
            invariant
                forall|j: int| 0 <= j < i ==> !same_components(#[trigger] self@.watch_dirs[j], path@),
        {
            assert(self@.watch_dirs[i as int] == self.watch_dirs@[i as int]@);
            if same_path(self.watch_dirs[i].as_str(), path) {
                assert(same_components(self@.watch_dirs[i as int], path@));
                return true;
            }
        }
        false
    }

    /// Adds a directory to those that are scanned, unless it is one of them.
    /// Gives whether it was added.
    pub fn add_dir(&mut self, path: &str) -> (r: bool)
        ensures
            r == !watches(old(self)@.watch_dirs, path@),
            final(self)@ == if r {
                ConfigView { watch_dirs: old(self)@.watch_dirs.push(path@), ..old(self)@ }
            } else {
                old(self)@
            },
    {
        if self.is_watched(path) {
            return false;
        }
        let ghost before = self.watch_dirs@;
        let added: String = path.to_owned();
        assert(texts(before.push(added)) == texts(before).push(path@));
        self.watch_dirs.push(added);
        true
    }

    /// Takes a directory off those that are scanned. Gives whether it was one
    /// of them.
    pub fn remove_dir(&mut self, path: &str) -> (r: bool)
        ensures
            r == watches(old(self)@.watch_dirs, path@),
            final(self)@ == (ConfigView {
                watch_dirs: unwatched(old(self)@.watch_dirs, path@),
                ..old(self)@
            }),
    {
        let ghost all = self@.watch_dirs;
        let ghost keep = |d: Seq<char>| !same_components(d, path@);
        let mut kept: Vec<String> = Vec::new();
        let n: usize = self.watch_dirs.len();
        let mut found: bool = false;
        for i in 0..n
            invariant
                *self == *old(self),
                all == self@.watch_dirs,
                n == self.watch_dirs@.len(),
                keep == (|d: Seq<char>| !same_components(d, path@)),
                texts(kept@) == all.take(i as int).filter(keep),
                found ==> watches(all, path@),
                !found ==> forall|j: int| 0 <= j < i ==> !same_components(#[trigger] all[j], path@),
        {
            let dir: &String = &self.watch_dirs[i];
            proof {
                assert(all[i as int] == dir@);
                assert(all.take(i + 1).drop_last() == all.take(i as int));
                reveal_with_fuel(Seq::filter, 1);
                assert(texts(kept@.push(*dir)) == texts(kept@).push(dir@));
            }
            if same_path(dir.as_str(), path) {
                assert(same_components(all[i as int], path@));
                found = true;
            } else {
                kept.push(dir.clone());
            }
        }
        assert(all.take(all.len() as int) == all);
        self.watch_dirs = kept;
        found
    }
}

/// What a change of a setting makes of the settings, or nothing where it is
/// refused.
pub open spec fn with_setting(c: ConfigView, key: Seq<char>, value: Seq<char>) -> Option<ConfigView> {
    if key == "threads"@ {
        match parsed(value, usize::MAX as nat) {
            Some(n) => Some(ConfigView { threads: n as usize, ..c }),
            None => None,
        }
    } else if key == "max_hash_size_bytes"@ {
        match parsed(value, u64::MAX as nat) {
            Some(n) => Some(ConfigView { max_hash_size_bytes: n as u64, ..c }),
            None => None,
        }
    } else if key == "db_path"@ {
        Some(ConfigView { db_path: value, ..c })
    } else if key == "backup_dir"@ {
        Some(ConfigView { backup_dir: value, ..c })
    } else {
        None
    }
}

/// Why a change of a setting is refused.
pub open spec fn refusal(key: Seq<char>) -> Seq<char> {
    if key == "threads"@ {
        "threads must be a non-negative integer"@
    } else if key == "max_hash_size_bytes"@ {
        "max_hash_size_bytes must be a positive integer"@
    } else {
        "unknown config key '"@ + key
            + "'. Valid keys: threads, max_hash_size_bytes, db_path, backup_dir"@
    }
}

/// Changes a setting. It is refused where there is no setting of that name, and
/// where the setting is a number and the value is not one that it can hold.
pub fn apply_config_key(config: &mut Config, key: &str, value: &str) -> (r: FortressResult<()>)
    ensures
        match with_setting(old(config)@, key@, value@) {
            Some(c) => r is Ok && final(config)@ == c,
            None => {
                &&& r matches Err(FortressError::ConfigError(m)) && m@ == refusal(key@)
                &&& final(config)@ == old(config)@
            },
        },
{
    if same_text(key, "threads") {
        match parse_decimal(value, usize::MAX as u64) {
            Some(n) => {
                config.threads = n as usize;
                Ok(())
            },
            None => Err(
                FortressError::ConfigError("threads must be a non-negative integer".to_owned()),
            ),
        }
    } else if same_text(key, "max_hash_size_bytes") {
        match parse_decimal(value, u64::MAX) {
            Some(n) => {
                config.max_hash_size_bytes = n;
                Ok(())
            },
            None => Err(
                FortressError::ConfigError("max_hash_size_bytes must be a positive integer".to_owned()),
            ),
        }
    } else if same_text(key, "db_path") {
        config.db_path = value.to_owned();
        Ok(())
    } else if same_text(key, "backup_dir") {
        config.backup_dir = value.to_owned();
        Ok(())
    } else {
        Err(
            FortressError::ConfigError(
                joined3(
                    "unknown config key '",
                    key,
                    "'. Valid keys: threads, max_hash_size_bytes, db_path, backup_dir",
                ),
            ),
        )
    }
}

/// What came of a request about the configuration.
#[derive(Debug)]
pub enum ConfigOutcome {
    /// It is to be printed.
    Shown,
    /// A directory was added.
    Added(String),
    /// A directory was one of those that are scanned.
    AlreadyWatched(String),
    /// A directory was taken off.
    Removed(String),
    /// A directory was not one of those that are scanned.
    NotWatched(String),
    /// A setting was changed.
    Changed { key: String, value: String },
}

impl ConfigOutcome {
    /// Whether the configuration was changed, so that it has to be written.
    pub open spec fn changes(self) -> bool {
        self is Added || self is Removed || self is Changed
    }

    /// What is said of it.
    pub open spec fn text(self) -> Seq<char> {
        match self {
            ConfigOutcome::Shown => Seq::empty(),
            ConfigOutcome::Added(path) => "Added: "@ + path@,
            ConfigOutcome::AlreadyWatched(path) => "Directory already in watch list: "@ + path@,
            ConfigOutcome::Removed(path) => "Removed: "@ + path@,
            ConfigOutcome::NotWatched(path) => "Directory not in watch list: "@ + path@,
            ConfigOutcome::Changed { key, value } => "Set "@ + key@ + " = "@ + value@,
        }
    }

    /// Whether the configuration was changed, so that it has to be written.
    pub fn must_save(&self) -> (r: bool)
        ensures
            r == self.changes(),
    {
        matches!(self, ConfigOutcome::Added(_) | ConfigOutcome::Removed(_) | ConfigOutcome::Changed { .. })
    }

    /// What is said of it.
    pub fn message(&self) -> (r: String)
        ensures
            r@ == self.text(),
    {
        match self {
            ConfigOutcome::Shown => String::new(),
            ConfigOutcome::Added(path) => joined("Added: ", path.as_str()),
            ConfigOutcome::AlreadyWatched(path) => joined(
                "Directory already in watch list: ",
                path.as_str(),
            ),
            ConfigOutcome::Removed(path) => joined("Removed: ", path.as_str()),
            ConfigOutcome::NotWatched(path) => joined("Directory not in watch list: ", path.as_str()),
            ConfigOutcome::Changed { key, value } => joined(
                joined3("Set ", key.as_str(), " = ").as_str(),
                value.as_str(),
            ),
        }
    }
}

/// What a request makes of the settings.
pub open spec fn after_action(c: ConfigView, action: ConfigAction) -> ConfigView {
    match action {
        ConfigAction::Show => c,
        ConfigAction::AddDir { path } => if watches(c.watch_dirs, path@) {
            c
        } else {
            ConfigView { watch_dirs: c.watch_dirs.push(path@), ..c }
        },
        ConfigAction::RemoveDir { path } => ConfigView {
            watch_dirs: unwatched(c.watch_dirs, path@),
            ..c
        },
        ConfigAction::SetKey { key, value } => match with_setting(c, key@, value@) {
            Some(d) => d,
            None => c,
        },
    }
}

/// Whether `outcome` is what comes of a request.
pub open spec fn is_outcome(c: ConfigView, action: ConfigAction, outcome: ConfigOutcome) -> bool {
    match action {
        ConfigAction::Show => outcome is Shown,
        ConfigAction::AddDir { path } => if watches(c.watch_dirs, path@) {
            outcome matches ConfigOutcome::AlreadyWatched(p) && p@ == path@
        } else {
            outcome matches ConfigOutcome::Added(p) && p@ == path@
        },
        ConfigAction::RemoveDir { path } => if watches(c.watch_dirs, path@) {
            outcome matches ConfigOutcome::Removed(p) && p@ == path@
        } else {
            outcome matches ConfigOutcome::NotWatched(p) && p@ == path@
        },
        ConfigAction::SetKey { key, value } => outcome matches ConfigOutcome::Changed { key: k, value: v } && k@
            == key@ && v@ == value@,
    }
}

/// Whether a request is refused.
pub open spec fn is_refused(c: ConfigView, action: ConfigAction) -> bool {
    action matches ConfigAction::SetKey { key, value } && with_setting(c, key@, value@) is None
}

/// Whether `e` says why a request is refused.
pub open spec fn is_refusal(e: FortressError, action: ConfigAction) -> bool {
    match (e, action) {
        (FortressError::ConfigError(m), ConfigAction::SetKey { key, value }) => m@ == refusal(key@),
        _ => false,
    }
}

/// Serves a request about the configuration. The path of a directory that is to
/// be added is the canonical one.
pub fn cmd_config(config: &mut Config, action: &ConfigAction) -> (r: FortressResult<ConfigOutcome>)
    ensures
        final(config)@ == after_action(old(config)@, *action),
        r is Err <==> is_refused(old(config)@, *action),
        match r {
            Ok(outcome) => is_outcome(old(config)@, *action, outcome),
            Err(e) => is_refusal(e, *action),
        },
{
    match action {
        ConfigAction::Show => Ok(ConfigOutcome::Shown),
        ConfigAction::AddDir { path } => {
            if config.add_dir(path.as_str()) {
                Ok(ConfigOutcome::Added(path.clone()))
            } else {
                Ok(ConfigOutcome::AlreadyWatched(path.clone()))
            }
        },
        ConfigAction::RemoveDir { path } => {
            if config.remove_dir(path.as_str()) {
                Ok(ConfigOutcome::Removed(path.clone()))
            } else {
                Ok(ConfigOutcome::NotWatched(path.clone()))
            }
        },
        ConfigAction::SetKey { key, value } => {
            match apply_config_key(config, key.as_str(), value.as_str()) {
                Ok(_) => Ok(ConfigOutcome::Changed { key: key.clone(), value: value.clone() }),
                Err(e) => Err(e),
            }
        },
    }
}

/// A directory that was added is watched, and adding it again changes nothing.
pub proof fn added_dir_is_watched(c: ConfigView, path: Seq<char>)
    ensures
        watches(c.watch_dirs.push(path), path),
{
    let dirs = c.watch_dirs.push(path);
    assert(same_components(dirs[c.watch_dirs.len() as int], path));
}

/// A directory that was taken off is not watched.
pub proof fn removed_dir_is_not_watched(dirs: Seq<Seq<char>>, path: Seq<char>)
    ensures
        !watches(unwatched(dirs, path), path),
{
    let keep = |d: Seq<char>| !same_components(d, path);
    let left = unwatched(dirs, path);
    broadcast use vstd::seq_lib::group_filter_ensures;

    assert forall|i: int| 0 <= i < left.len() implies !same_components(#[trigger] left[i], path) by {
        assert(left.contains(left[i]));
        assert(keep(left[i]));
    }
}

/// Taking off a directory that was just added leaves the directories as they
/// were.
pub proof fn remove_undoes_add(dirs: Seq<Seq<char>>, path: Seq<char>)
    requires
        !watches(dirs, path),
    ensures
        unwatched(dirs.push(path), path) == dirs,
{
    let keep = |d: Seq<char>| !same_components(d, path);
    let longer = dirs.push(path);
    assert(longer.drop_last() == dirs);
    reveal_with_fuel(Seq::filter, 1);
    assert(unwatched(longer, path) == dirs.filter(keep));
    all_kept(dirs, keep);
}

pub(crate) proof fn all_kept(s: Seq<Seq<char>>, keep: spec_fn(Seq<char>) -> bool)
    requires
        forall|i: int| 0 <= i < s.len() ==> keep(#[trigger] s[i]),
    ensures
        s.filter(keep) == s,
    decreases s.len(),
{
    reveal_with_fuel(Seq::filter, 1);
    if s.len() > 0 {
        all_kept(s.drop_last(), keep);
        assert(s == s.drop_last().push(s.last()));
    }
}

} // verus!
