use data_fortress::cli::ConfigAction;
use data_fortress::config::{apply_config_key, cmd_config, Config, ConfigOutcome};

fn config() -> Config {
    Config::default_in(Some("/home/user/.local/share".to_string()))
}

#[test]
fn defaults() {
    let c = config();
    assert_eq!(c.db_path, "/home/user/.local/share/data-fortress/fortress.db");
    assert_eq!(c.backup_dir, "/home/user/.local/share/data-fortress/backups");
    assert!(c.watch_dirs.is_empty());
    assert_eq!(
        c.exclude_dirs,
        vec![
            ".git", ".svn", ".hg", "node_modules", ".cache", "target", "__pycache__", ".Trash", ".local",
            "lost+found",
        ]
    );
    assert_eq!(c.exclude_extensions, vec!["tmp", "temp", "lock", "swp", "swo", "bak"]);
    assert_eq!(c.max_hash_size_bytes, 4 * 1024 * 1024 * 1024);
    assert_eq!(c.threads, 0);
    assert_eq!(Config::default_in(None).db_path, "/tmp/data-fortress/fortress.db");
}

#[test]
fn paths_of_the_settings() {
    assert_eq!(
        Config::config_path_in(Some("/home/user/.config".to_string())),
        "/home/user/.config/data-fortress/config.json"
    );
    assert_eq!(Config::config_path_in(None), "/tmp/data-fortress/config.json");
    assert!(Config::default_config_path().ends_with("/data-fortress/config.json"));
    assert!(Config::default_config().db_path.ends_with("/data-fortress/fortress.db"));
}

#[test]
fn exclusions() {
    let c = config();
    assert!(c.should_exclude_dir("target"));
    assert!(!c.should_exclude_dir("Target"));
    assert!(!c.should_exclude_dir(""));
    assert!(c.should_exclude_extension("bak"));
    assert!(!c.should_exclude_extension("txt"));
}

#[test]
fn settings_by_key() {
    let mut c = config();
    assert!(apply_config_key(&mut c, "threads", "4").is_ok());
    assert!(apply_config_key(&mut c, "max_hash_size_bytes", "+18446744073709551615").is_ok());
    assert!(apply_config_key(&mut c, "db_path", "/x.db").is_ok());
    assert!(apply_config_key(&mut c, "backup_dir", "").is_ok());
    assert_eq!((c.threads, c.max_hash_size_bytes), (4, u64::MAX));
    assert_eq!((c.db_path.as_str(), c.backup_dir.as_str()), ("/x.db", ""));
}

#[test]
fn settings_that_are_refused() {
    let mut c = config();
    for bad in ["", "+", "-1", " 4", "4.0", "four", "18446744073709551616", "++4"] {
        let e = apply_config_key(&mut c, "threads", bad).unwrap_err();
        assert_eq!(e.to_string(), "Configuration error: threads must be a non-negative integer", "{}", bad);
    }
    let e = apply_config_key(&mut c, "max_hash_size_bytes", "18446744073709551616").unwrap_err();
    assert_eq!(e.to_string(), "Configuration error: max_hash_size_bytes must be a positive integer");
    let e = apply_config_key(&mut c, "colour", "red").unwrap_err();
    assert_eq!(
        e.to_string(),
        "Configuration error: unknown config key 'colour'. Valid keys: threads, max_hash_size_bytes, db_path, \
         backup_dir"
    );
    assert_eq!(c.threads, 0);
}

#[test]
fn watched_directories() {
    let mut c = config();
    assert!(c.add_dir("/mnt/drive2"));
    assert!(!c.add_dir("/mnt//drive2/"));
    assert!(c.is_watched("/mnt/./drive2"));
    assert!(!c.is_watched("mnt/drive2"));
    assert!(!c.is_watched("/mnt/drive2/.."));
    assert!(c.add_dir("/home"));
    assert!(!c.remove_dir("/elsewhere"));
    assert!(c.remove_dir("/mnt/drive2/"));
    assert_eq!(c.watch_dirs, vec!["/home"]);
}

#[test]
fn requests() {
    let mut c = config();
    let r = cmd_config(&mut c, &ConfigAction::Show).unwrap();
    assert!(!r.must_save());
    assert_eq!(r.message(), "");
    let add = ConfigAction::AddDir { path: "/data".to_string() };
    let r = cmd_config(&mut c, &add).unwrap();
    assert!(r.must_save());
    assert_eq!(r.message(), "Added: /data");
    let r = cmd_config(&mut c, &add).unwrap();
    assert!(!r.must_save());
    assert_eq!(r.message(), "Directory already in watch list: /data");
    let remove = ConfigAction::RemoveDir { path: "/data".to_string() };
    assert_eq!(cmd_config(&mut c, &remove).unwrap().message(), "Removed: /data");
    let r = cmd_config(&mut c, &remove).unwrap();
    assert!(matches!(r, ConfigOutcome::NotWatched(_)));
    assert_eq!(r.message(), "Directory not in watch list: /data");
    let set = ConfigAction::SetKey { key: "threads".to_string(), value: "2".to_string() };
    let r = cmd_config(&mut c, &set).unwrap();
    assert!(r.must_save());
    assert_eq!(r.message(), "Set threads = 2");
    let bad = ConfigAction::SetKey { key: "threads".to_string(), value: "x".to_string() };
    assert!(cmd_config(&mut c, &bad).is_err());
    assert_eq!(c.threads, 2);
    assert_eq!(c.clone().threads, 2);
}
