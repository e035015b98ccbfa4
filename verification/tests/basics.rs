use data_fortress::error::FortressError;
use data_fortress::models::{checked_total, FileCategory, FileRecord};
use data_fortress::order::{stable_order, Descending};
use data_fortress::paths::{extension, extension_lower, file_name, join_path, same_path};
use data_fortress::text::{
    contains_ignoring_ascii_case, contains_text, decimal_text, ends_with, find_chars, is_text_before,
    is_white_space, join_texts, parse_decimal, split_char, starts_with, trim, trim_of, wide_decimal_text,
    Strip,
};
use data_fortress::time::{Timestamp, MAX_SECS, MIN_SECS};
use std::path::Path;

#[test]
fn white_space_is_that_of_std() {
    for n in 0..=0x10FFFFu32 {
        if let Some(c) = char::from_u32(n) {
            assert_eq!(is_white_space(c), c.is_whitespace(), "{:x}", n);
        }
    }
}

#[test]
fn trimming_is_that_of_std() {
    for s in ["", "  ", "\u{3000}a b\t\n", "a", " \u{200B} "] {
        assert_eq!(trim(s), s.trim());
    }
    for s in ["\"x\"", "\"\"", "x\"", "\" x \""] {
        assert_eq!(trim_of(s, Strip::Only('"')), s.trim_matches('"'));
    }
}

#[test]
fn searching_is_that_of_std() {
    for (s, p) in [("abcabc", "ca"), ("abc", ""), ("", ""), ("", "a"), ("aaa", "aaaa"), ("ééx", "x")] {
        assert_eq!(contains_text(s, p), s.contains(p));
        assert_eq!(starts_with(s, p), s.starts_with(p));
        assert_eq!(ends_with(s, p), s.ends_with(p));
    }
    let s: Vec<char> = "ééx".chars().collect();
    assert_eq!(find_chars(&s, &['x']), Some(2));
    assert!(contains_ignoring_ascii_case("Report-É.PDF", "port-É.pdf"));
    assert!(!contains_ignoring_ascii_case("É", "é"));
}

#[test]
fn splitting_and_joining() {
    assert_eq!(split_char("a//b/", '/'), vec!["a", "", "b", ""]);
    assert_eq!(split_char("", '/'), vec![""]);
    let parts = vec!["a".to_string(), "".to_string(), "b".to_string()];
    assert_eq!(join_texts(&parts, ", "), "a, , b");
    assert_eq!(join_texts(&Vec::new(), ", "), "");
}

#[test]
fn numbers() {
    for n in [0, 7, 10, 99, 100, u64::MAX] {
        assert_eq!(decimal_text(n), n.to_string());
        assert_eq!(parse_decimal(&decimal_text(n), u64::MAX), Some(n));
    }
    assert_eq!(wide_decimal_text(u128::MAX), u128::MAX.to_string());
    assert_eq!(parse_decimal("007", 10), Some(7));
    assert_eq!(parse_decimal("11", 10), None);
    assert_eq!(parse_decimal("1x", 10), None);
}

#[test]
fn texts_are_ordered_as_std_orders_them() {
    let all = ["", "a", "aa", "ab", "b", "é", "\u{FFFF}", "\u{10000}", "A"];
    for a in all {
        for b in all {
            assert_eq!(is_text_before(a, b), a < b, "{:?} {:?}", a, b);
        }
    }
}

#[test]
fn stable_sorting() {
    let keys: Vec<u64> = vec![3, 1, 3, 2, 1];
    assert_eq!(stable_order(&keys), vec![1, 4, 3, 0, 2]);
    let down: Vec<Descending<u64>> = keys.into_iter().map(Descending).collect();
    assert_eq!(stable_order(&down), vec![0, 2, 3, 1, 4]);
    assert_eq!(stable_order(&Vec::<u64>::new()), Vec::<usize>::new());
}

#[test]
fn paths_are_those_of_std() {
    for p in [
        "/a/b.txt", "b.txt", "/a/b.txt/", "/a/b.txt/.", "/", "", ".", "./", "..", "a/..", ".bashrc", "a.",
        "...", "a.tar.gz", "//x//y", "./a/./b", "a/.hidden.conf", "/a/b.TXT",
    ] {
        let std_name = Path::new(p).file_name().map(|n| n.to_str().unwrap().to_string());
        assert_eq!(file_name(p), std_name, "{}", p);
        let std_ext = Path::new(p).extension().map(|n| n.to_str().unwrap().to_string());
        assert_eq!(extension(p), std_ext, "{}", p);
        assert_eq!(extension_lower(p), std_ext.unwrap_or_default().to_lowercase(), "{}", p);
        for q in ["/a/b.txt", "b.txt", "./b.txt", "", ".", "/", "a/..", "x/y", "//x//y"] {
            assert_eq!(same_path(p, q), Path::new(p) == Path::new(q), "{} {}", p, q);
            assert_eq!(join_path(p, q), Path::new(p).join(q).to_str().unwrap(), "{} {}", p, q);
        }
    }
}

#[test]
fn timestamps() {
    assert!(Timestamp::new(MIN_SECS, 0).is_some());
    assert!(Timestamp::new(MIN_SECS - 1, 0).is_none());
    assert!(Timestamp::new(MAX_SECS, 999_999_999).is_some());
    assert!(Timestamp::new(MAX_SECS + 1, 0).is_none());
    assert!(Timestamp::new(59, 1_500_000_000).is_some());
    assert!(Timestamp::new(-1, 1_500_000_000).is_some());
    assert!(Timestamp::new(58, 1_500_000_000).is_none());
    assert!(Timestamp::new(59, 2_000_000_000).is_none());
    for secs in [MIN_SECS - 1, MIN_SECS, 0, 59, MAX_SECS, MAX_SECS + 1] {
        for nanos in [0, 999_999_999, 1_000_000_000, 1_999_999_999, 2_000_000_000] {
            let ours = Timestamp::new(secs, nanos).is_some();
            let theirs = chrono::DateTime::<chrono::Utc>::from_timestamp(secs, nanos).is_some();
            assert_eq!(ours, theirs, "{} {}", secs, nanos);
        }
    }
    let t = Timestamp::new(5, 6).unwrap();
    assert_eq!((t.secs(), t.nanos()), (5, 6));
}

#[test]
fn categories_read_back() {
    for c in [
        FileCategory::Image, FileCategory::Video, FileCategory::Audio, FileCategory::Document,
        FileCategory::Archive, FileCategory::Code, FileCategory::Other,
    ] {
        assert_eq!(FileCategory::from_str(&c.to_string()).unwrap(), c);
    }
    assert_eq!(FileCategory::from_str("Image").unwrap(), FileCategory::Other);
    assert_eq!(FileCategory::from_str("").unwrap(), FileCategory::Other);
}

#[test]
fn error_messages() {
    let s = |x: &str| x.to_string();
    let all = vec![
        (FortressError::Io(s("x")), "I/O error: x"),
        (FortressError::Database(s("x")), "Database error: x"),
        (FortressError::Serialization(s("x")), "Serialization error: x"),
        (FortressError::ScanError { path: s("/p"), reason: s("r") }, "Scanner error at '/p': r"),
        (FortressError::HashError { path: s("/p"), reason: s("r") }, "Failed to hash file '/p': r"),
        (FortressError::FileNotFound(s("/p")), "File not found for organization: /p"),
        (FortressError::DestinationExists(s("/p")), "Destination already exists: /p"),
        (FortressError::BackupError(s("x")), "Backup failed: x"),
        (FortressError::SearchError(s("x")), "Search error: x"),
        (FortressError::ConfigError(s("x")), "Configuration error: x"),
        (FortressError::Unexpected(s("x")), "Unexpected error: x"),
    ];
    for (e, text) in all {
        assert_eq!(e.to_string(), text);
    }
}

#[test]
fn checked_totals() {
    let t = Timestamp::new(0, 0).unwrap();
    let f = |size: u64| FileRecord {
        id: None,
        path: String::new(),
        name: String::new(),
        extension: String::new(),
        category: FileCategory::Other,
        mime_type: String::new(),
        size_bytes: size,
        content_hash: None,
        modified_at: t,
        scanned_at: t,
        is_present: true,
    };
    assert_eq!(checked_total(&vec![f(1), f(2)], 3), Some(3));
    assert_eq!(checked_total(&vec![f(1), f(2)], 2), None);
    assert_eq!(checked_total(&Vec::new(), 0), Some(0));
}
