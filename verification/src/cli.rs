//! What a user can ask for on the command line.

use vstd::prelude::*;

use crate::models::FileCategory;

verus! {

/// One invocation of the program.
#[derive(Debug)]
pub struct Cli {
    /// The path of the configuration; `None` for the usual one.
    pub config_path: Option<String>,
    /// How much is logged.
    pub verbosity: u8,
    /// Whether results are written as JSON.
    pub json: bool,
    /// What is to be done.
    pub command: Commands,
}

/// What is to be done.
#[derive(Debug)]
pub enum Commands {
    /// Record the files in some directories.
    Scan(ScanArgs),
    /// Find files with the same contents.
    Dedup(DedupArgs),
    /// Move files into a clean directory structure.
    Organize(OrganizeArgs),
    /// Search for files.
    Search(SearchArgs),
    /// Make and list backups.
    Backup(BackupArgs),
    /// Show and change the configuration.
    Config(ConfigArgs),
    /// Serve the dashboard.
    Serve(ServeArgs),
}

/// The arguments of a scan.
#[derive(Debug)]
pub struct ScanArgs {
    /// The directories to scan; those of the configuration where there are none.
    pub directories: Vec<String>,
    /// Whether files are hashed too.
    pub hash: bool,
    /// The size of the largest files that are hashed; that of the configuration
    /// where it is not given.
    pub max_hash_size: Option<u64>,
    /// Whether nothing is written.
    pub dry_run: bool,
}

/// The arguments of a search for duplicates.
#[derive(Debug)]
pub struct DedupArgs {
    /// Whether files without a hash are hashed first.
    pub hash: bool,
    /// The size of the smallest files that are reported.
    pub min_size: u64,
    /// Whether all copies but one are deleted.
    pub delete: bool,
    /// Which copy is kept.
    pub keep: KeepStrategy,
    /// Whether nothing is deleted.
    pub dry_run: bool,
}

/// Which copy is kept when the others are deleted.
#[derive(Clone, Copy, Debug, PartialEq, Eq, Structural)]
pub enum KeepStrategy {
    /// The one that was modified first.
    Oldest,
    /// The one that was modified last.
    Newest,
    /// The one whose path is first in the order of texts.
    FirstAlpha,
    /// The one with the shortest path.
    ShortestPath,
}

/// The arguments of organising.
#[derive(Debug)]
pub struct OrganizeArgs {
    /// The directory whose files are moved.
    pub source: String,
    /// The directory under which they are put.
    pub dest: String,
    /// How they are arranged there.
    pub mode: OrganizeMode,
    /// Whether nothing is moved.
    pub dry_run: bool,
    /// Whether a file that is in the way is replaced.
    pub overwrite: bool,
}

/// How files are arranged in directories.
#[derive(Clone, Copy, Debug, PartialEq, Eq, Structural)]
pub enum OrganizeMode {
    /// By category, year and month.
    ByTypeAndDate,
    /// By year and month.
    ByDate,
    /// By category.
    ByType,
}

/// The arguments of a search.
#[derive(Debug)]
pub struct SearchArgs {
    /// What is searched for.
    pub query: String,
    /// The category to which the results are restricted.
    pub category: Option<SearchCategory>,
    /// Whether the contents of files are searched too.
    pub content: bool,
    /// The most results that are given.
    pub limit: usize,
    /// The order of the results.
    pub sort: SearchSort,
}

/// A category that a user can name.
#[derive(Clone, Copy, Debug, PartialEq, Eq, Structural)]
pub enum SearchCategory {
    Image,
    Video,
    Audio,
    Document,
    Archive,
    Code,
    Other,
}

/// The order of search results.
#[derive(Clone, Copy, Debug, PartialEq, Eq, Structural)]
pub enum SearchSort {
    /// The best match first.
    Relevance,
    /// The file that was modified last first.
    Newest,
    /// The largest file first.
    Largest,
    /// By name.
    Name,
}

/// The arguments of the backup commands.
#[derive(Debug)]
pub struct BackupArgs {
    pub action: BackupAction,
}

/// What can be done with backups.
#[derive(Debug)]
pub enum BackupAction {
    /// Make one.
    Create(BackupCreateArgs),
    /// List those that were made.
    List,
}

/// The arguments of making a backup.
#[derive(Debug)]
pub struct BackupCreateArgs {
    /// The name of the backup; one with the date where it is not given.
    pub label: Option<String>,
    /// The category to which the backup is restricted.
    pub category: Option<SearchCategory>,
    /// How hard zstd tries, from 1 to 22.
    pub compression_level: i32,
    /// Whether nothing is written.
    pub dry_run: bool,
}

/// The arguments of the configuration commands.
#[derive(Debug)]
pub struct ConfigArgs {
    pub action: ConfigAction,
}

/// What can be done with the configuration.
#[derive(Debug)]
pub enum ConfigAction {
    /// Print it.
    Show,
    /// Add a directory to those that are scanned.
    AddDir { path: String },
    /// Take a directory off those that are scanned.
    RemoveDir { path: String },
    /// Change a setting.
    SetKey { key: String, value: String },
}

/// The arguments of serving the dashboard.
#[derive(Debug)]
pub struct ServeArgs {
    /// The address to listen on.
    pub host: String,
    /// The port to listen on.
    pub port: u16,
}

/// The category of files that a named category stands for.
pub open spec fn category_named(cat: SearchCategory) -> FileCategory {
    match cat {
        SearchCategory::Image => FileCategory::Image,
        SearchCategory::Video => FileCategory::Video,
        SearchCategory::Audio => FileCategory::Audio,
        SearchCategory::Document => FileCategory::Document,
        SearchCategory::Archive => FileCategory::Archive,
        SearchCategory::Code => FileCategory::Code,
        SearchCategory::Other => FileCategory::Other,
    }
}

/// The category of files that a named category stands for, where one is named.
pub open spec fn optional_category(cat: Option<SearchCategory>) -> Option<FileCategory> {
    match cat {
        Some(c) => Some(category_named(c)),
        None => None,
    }
}

/// The category of files that a named category stands for.
pub fn search_category_to_file_category(cat: &SearchCategory) -> (r: FileCategory)
    ensures
        r == category_named(*cat),
{
    match cat {
        SearchCategory::Image => FileCategory::Image,
        SearchCategory::Video => FileCategory::Video,
        SearchCategory::Audio => FileCategory::Audio,
        SearchCategory::Document => FileCategory::Document,
        SearchCategory::Archive => FileCategory::Archive,
        SearchCategory::Code => FileCategory::Code,
        SearchCategory::Other => FileCategory::Other,
    }
}

/// The least level that is logged at the given verbosity.
pub open spec fn level_of(verbosity: u8) -> Seq<char> {
    if verbosity == 0 {
        "warn"@
    } else if verbosity == 1 {
        "info"@
    } else if verbosity == 2 {
        "debug"@
    } else {
        "trace"@
    }
}

/// The least level that is logged at the given verbosity.
pub fn log_level(verbosity: u8) -> (r: String)
    ensures
        r@ == level_of(verbosity),
{
    let s: &str = match verbosity {
        0 => "warn",
        1 => "info",
        2 => "debug",
        _ => "trace",
    };
    s.to_owned()
}

} // verus!
