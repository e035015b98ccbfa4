use data_fortress::cli::{
    log_level, search_category_to_file_category, SearchArgs, SearchCategory, SearchSort,
};
use data_fortress::db::{upsert_file, Database};
use data_fortress::folding::highlight;
use data_fortress::models::{FileCategory, FileRecord, SearchResult};
use data_fortress::search::{
    candidates, count_hits, drop_short_words, results_text, run, score_file, score_text, score_texts,
    shorten_snippet, tokenize, Reading, WEIGHT_CONTENT_TOKEN, WEIGHT_EXIF_TOKEN, WEIGHT_NAME_EXACT,
    WEIGHT_NAME_TOKEN, WEIGHT_PATH_TOKEN,
};
use data_fortress::time::Timestamp;

fn record(path: &str, category: FileCategory, size: u64, modified: i64) -> FileRecord {
    FileRecord {
        id: None,
        path: path.to_string(),
        name: path.rsplit('/').next().unwrap().to_string(),
        extension: String::new(),
        category,
        mime_type: String::new(),
        size_bytes: size,
        content_hash: None,
        modified_at: Timestamp::new(modified, 0).unwrap(),
        scanned_at: Timestamp::new(0, 0).unwrap(),
        is_present: true,
    }
}

fn nothing() -> Reading {
    Reading { metadata: None, content: None }
}

fn args(query: &str, sort: SearchSort, limit: usize) -> SearchArgs {
    SearchArgs { query: query.to_string(), category: None, content: false, limit, sort }
}

fn strings(words: &[&str]) -> Vec<String> {
    words.iter().map(|w| w.to_string()).collect()
}

#[test]
fn test_tokenize_splits_on_spaces() {
    let tokens = tokenize("vacation photos 2024");
    assert_eq!(tokens, vec!["vacation", "photos", "2024"]);
}

#[test]
fn test_tokenize_splits_on_punctuation() {
    let tokens = tokenize("file_name-test.rs");
    assert!(tokens.contains(&"file".to_string()));
    assert!(tokens.contains(&"name".to_string()));
    assert!(tokens.contains(&"test".to_string()));
    assert!(tokens.contains(&"rs".to_string()));
}

#[test]
fn test_tokenize_drops_short_words() {
    let tokens = tokenize("a the it go");
    assert!(!tokens.contains(&"a".to_string()));
    assert!(tokens.contains(&"go".to_string()));
}

#[test]
fn test_tokenize_lowercases() {
    let tokens = tokenize("Vacation PHOTOS");
    assert!(tokens.contains(&"vacation".to_string()));
    assert!(tokens.contains(&"photos".to_string()));
}

#[test]
fn test_tokenize_empty_query() {
    let tokens = tokenize("");
    assert!(tokens.is_empty());
}

#[test]
fn test_search_category_to_file_category_mapping() {
    assert_eq!(search_category_to_file_category(&SearchCategory::Image), FileCategory::Image);
    assert_eq!(search_category_to_file_category(&SearchCategory::Document), FileCategory::Document);
    assert_eq!(search_category_to_file_category(&SearchCategory::Video), FileCategory::Video);
    assert_eq!(search_category_to_file_category(&SearchCategory::Code), FileCategory::Code);
}

#[test]
fn test_score_weights_are_ordered() {
    assert!(WEIGHT_NAME_EXACT > WEIGHT_NAME_TOKEN);
    assert!(WEIGHT_NAME_TOKEN > WEIGHT_PATH_TOKEN);
    assert!(WEIGHT_CONTENT_TOKEN > WEIGHT_PATH_TOKEN);
}

#[test]
fn weights_are_half_points() {
    assert_eq!(
        (WEIGHT_NAME_EXACT, WEIGHT_NAME_TOKEN, WEIGHT_CONTENT_TOKEN, WEIGHT_EXIF_TOKEN, WEIGHT_PATH_TOKEN),
        (20, 8, 6, 4, 3)
    );
}

#[test]
fn remaining_categories_and_levels() {
    assert_eq!(search_category_to_file_category(&SearchCategory::Audio), FileCategory::Audio);
    assert_eq!(search_category_to_file_category(&SearchCategory::Archive), FileCategory::Archive);
    assert_eq!(search_category_to_file_category(&SearchCategory::Other), FileCategory::Other);
    assert_eq!(log_level(0), "warn");
    assert_eq!(log_level(1), "info");
    assert_eq!(log_level(2), "debug");
    assert_eq!(log_level(3), "trace");
    assert_eq!(log_level(255), "trace");
}

#[test]
fn words_are_counted_in_characters() {
    assert_eq!(tokenize("é Éa ß straße"), vec!["éa", "straße"]);
    assert_eq!(drop_short_words(&strings(&["", "x", "xy", "é"])), vec!["xy"]);
    assert_eq!(tokenize("--__--"), Vec::<String>::new());
}

#[test]
fn scores_add_up() {
    let tokens = strings(&["vacation", "photo"]);
    assert_eq!(count_hits("vacation photos", &tokens), 2);
    assert_eq!(score_texts("photo.jpg", "/vacation/photo.jpg", "photo", &tokens, &None, &None), 20 + 8 + 6);
    let meta = Some("canon photo".to_string());
    let text = Some("vacation photo".to_string());
    assert_eq!(score_texts("a", "/a", "zzz", &tokens, &meta, &text), 4 + 12);
    assert_eq!(score_texts("a", "/a", "zzz", &tokens, &None, &None), 0);
}

#[test]
fn names_match_in_either_case() {
    let file = record("/pics/Beach.JPG", FileCategory::Image, 1, 0);
    let r = score_file(&file, "BEACH", &tokenize("BEACH"), false, &nothing()).unwrap();
    assert_eq!(r.score, 20 + 8 + 3);
    assert_eq!(r.snippet, None);
    assert!(score_file(&file, "lake", &tokenize("lake"), false, &nothing()).is_none());
}

#[test]
fn metadata_counts_for_images_and_videos_only() {
    let reading = Reading { metadata: Some("Canon EOS".to_string()), content: None };
    let image = record("/x/a.jpg", FileCategory::Image, 1, 0);
    let r = score_file(&image, "canon", &tokenize("canon"), false, &reading).unwrap();
    assert_eq!(r.score, 4);
    assert_eq!(r.snippet, None);
    let doc = record("/x/a.pdf", FileCategory::Document, 1, 0);
    assert!(score_file(&doc, "canon", &tokenize("canon"), false, &reading).is_none());
}

#[test]
fn contents_count_only_when_asked_for() {
    let reading = Reading { metadata: None, content: Some("The Quarterly report".to_string()) };
    let doc = record("/x/a.pdf", FileCategory::Document, 1, 0);
    let tokens = tokenize("quarterly report");
    assert!(score_file(&doc, "quarterly report", &tokens, false, &reading).is_none());
    let r = score_file(&doc, "quarterly report", &tokens, true, &reading).unwrap();
    assert_eq!(r.score, 12);
    assert_eq!(r.snippet, Some("The **Quarterly** **report**".to_string()));
    let r = score_file(&doc, "missing report", &tokenize("missing report"), true, &reading).unwrap();
    assert_eq!(r.snippet, Some("The Quarterly **report**".to_string()));
}

#[test]
fn snippets_show_the_first_token_that_is_found() {
    let text = format!("{} target {}", "a".repeat(300), "b".repeat(300));
    let reading = Reading { metadata: None, content: Some(text) };
    let doc = record("/x/a.txt", FileCategory::Document, 1, 0);
    let r = score_file(&doc, "zzz target", &tokenize("zzz target"), true, &reading).unwrap();
    let expected = format!("…{} **target** {}…", "a".repeat(99), "b".repeat(93));
    assert_eq!(r.snippet, Some(expected));
}

#[test]
fn highlights() {
    let words = strings(&["ab", "abc", "é"]);
    assert_eq!(highlight("xABCab É", &words), "x**ABC****ab** **É**");
    assert_eq!(highlight("none", &words), "none");
    assert_eq!(highlight("abc", &Vec::new()), "abc");
    assert_eq!(highlight("", &words), "");
}

#[test]
fn tokens_of_two_texts() {
    for separator in [" ", "-", "\u{2014}"] {
        let mut both = tokenize("Big red");
        both.extend(tokenize("red Fox"));
        assert_eq!(tokenize(&format!("Big red{}red Fox", separator)), both);
    }
}

#[test]
fn a_lower_limit_gives_the_first_results() {
    let files: Vec<FileRecord> =
        (0..6).map(|i| record(&format!("/beach/{}.txt", i), FileCategory::Document, i % 3, 0)).collect();
    let readings: Vec<Reading> = files.iter().map(|_| nothing()).collect();
    let paths = |limit: usize| -> Vec<String> {
        run(&files, &readings, &args("beach", SearchSort::Largest, limit)).into_iter().map(|r| r.file.path).collect()
    };
    let all = paths(50);
    assert_eq!(all.len(), 6);
    for limit in 0..7 {
        assert_eq!(paths(limit), all[..limit.min(6)].to_vec());
    }
}

#[test]
fn results_in_every_order() {
    let files = vec![
        record("/b/beach.txt", FileCategory::Document, 10, 300),
        record("/beach/alpha.txt", FileCategory::Document, 30, 100),
        record("/beach/zeta.txt", FileCategory::Document, 20, 200),
        record("/none/other.txt", FileCategory::Document, 99, 900),
    ];
    let readings: Vec<Reading> = files.iter().map(|_| nothing()).collect();
    let names = |sort: SearchSort, limit: usize| -> Vec<String> {
        run(&files, &readings, &args(" beach ", sort, limit)).into_iter().map(|r| r.file.name).collect()
    };
    assert_eq!(names(SearchSort::Relevance, 50), vec!["beach.txt", "alpha.txt", "zeta.txt"]);
    assert_eq!(names(SearchSort::Newest, 50), vec!["beach.txt", "zeta.txt", "alpha.txt"]);
    assert_eq!(names(SearchSort::Largest, 50), vec!["alpha.txt", "zeta.txt", "beach.txt"]);
    assert_eq!(names(SearchSort::Name, 50), vec!["alpha.txt", "beach.txt", "zeta.txt"]);
    assert_eq!(names(SearchSort::Largest, 2), vec!["alpha.txt", "zeta.txt"]);
    assert_eq!(names(SearchSort::Largest, 0), Vec::<String>::new());
}

#[test]
fn a_blank_query_finds_nothing() {
    let files = vec![record("/b/beach.txt", FileCategory::Document, 10, 300)];
    assert!(run(&files, &vec![nothing()], &args("  \t", SearchSort::Name, 50)).is_empty());
}

#[test]
fn candidates_of_a_category() {
    let mut db = Database::new();
    for f in [
        record("/a/invoice.pdf", FileCategory::Document, 1, 1),
        record("/a/invoice.png", FileCategory::Image, 1, 1),
        record("/a/letter.pdf", FileCategory::Document, 1, 1),
    ] {
        upsert_file(&mut db, &f).unwrap();
    }
    let paths = |category: Option<SearchCategory>| -> Vec<String> {
        candidates(&db, "INVOICE", &category).into_iter().map(|f| f.path).collect()
    };
    assert_eq!(paths(None), vec!["/a/invoice.pdf", "/a/invoice.png"]);
    assert_eq!(paths(Some(SearchCategory::Document)), vec!["/a/invoice.pdf", "/a/letter.pdf"]);
    assert_eq!(paths(Some(SearchCategory::Video)), Vec::<String>::new());
}

#[test]
fn printed_results() {
    assert_eq!(results_text(&Vec::new()), "No results found.\n");
    let result = SearchResult {
        file: record("/a/b.txt", FileCategory::Document, 2048, 1_710_000_000),
        score: 31,
        snippet: Some("some text".to_string()),
    };
    assert_eq!(
        results_text(&vec![result]),
        "\n1 result(s):\n\n1. /a/b.txt (score: 15.5)\n   document | 2.0 KiB | 2024-03-09\n   \"some text\"\n\n"
    );
    assert_eq!(score_text(20), "10.0");
    assert_eq!(score_text(0), "0.0");
}

#[test]
fn long_snippets_are_cut() {
    assert_eq!(shorten_snippet(&"a".repeat(120)), "a".repeat(120));
    assert_eq!(shorten_snippet(&"a".repeat(121)), format!("{}…", "a".repeat(120)));
    assert_eq!(shorten_snippet(&format!("a{}", "é".repeat(60))), format!("a{}…", "é".repeat(59)));
}
