use data_fortress::dedup::hasher::{
    hash_bytes, hash_chunks, verify_chunks, verify_hash, ContentHasher, HashResult,
};
use rayon::iter::{IntoParallelRefIterator, ParallelIterator};

fn hash(content: &[u8]) -> String {
    hash_chunks(&vec![content.to_vec()])
}

#[test]
fn test_hash_file_produces_64_char_hex() {
    let hash = hash(b"hello, data fortress");
    assert_eq!(hash.len(), 64);
    assert!(hash.chars().all(|c| c.is_ascii_hexdigit()));
}

#[test]
fn test_same_content_produces_same_hash() {
    let h1 = hash(b"duplicate content");
    let h2 = hash(b"duplicate content");
    assert_eq!(h1, h2);
}

#[test]
fn test_different_content_produces_different_hash() {
    let h1 = hash(b"file one");
    let h2 = hash(b"file two");
    assert_ne!(h1, h2);
}

#[test]
fn test_empty_file_has_valid_hash() {
    let hash = hash(b"");
    assert_eq!(hash.len(), 64);
    assert_eq!(hash, "af1349b9f5f9a1a6a0404dea36dcc9499bcb25c9adc112b7cc9a93cae41f3262");
}

#[test]
fn test_verify_file_matches_its_own_hash() {
    let h = hash(b"verify me");
    assert!(verify_chunks(&vec![b"verify me".to_vec()], &h));
}

#[test]
fn test_verify_file_detects_wrong_hash() {
    let wrong_hash = "a".repeat(64);
    assert!(!verify_chunks(&vec![b"original content".to_vec()], &wrong_hash));
    assert!(!verify_hash("abc", "abd"));
}

#[test]
fn test_parallel_hashing_matches_sequential() {
    let contents: Vec<&[u8]> = vec![b"parallel file one", b"parallel file two", b"parallel file three"];
    let seq: Vec<String> = contents.iter().map(|c| hash(c)).collect();
    let par: Vec<String> = contents.par_iter().map(|c| hash(c)).collect();
    assert_eq!(seq, par);
}

#[test]
fn cuts_make_no_difference() {
    let whole = hash_bytes(b"some longer contents");
    let cut = hash_chunks(&vec![b"some ".to_vec(), b"".to_vec(), b"longer contents".to_vec()]);
    assert_eq!(whole, cut);
    let mut hasher = ContentHasher::new();
    hasher.update(b"some longer ");
    hasher.update(b"contents");
    assert_eq!(hasher.finish(), whole);
    assert_eq!(hash_chunks(&Vec::new()), hash_bytes(b""));
}

#[test]
fn hash_results() {
    let ok = HashResult::Hashed { path: "/a".to_string(), hash: "00".to_string() };
    assert!(ok.is_ok());
    assert_eq!(ok.into_ok(), Some(("/a".to_string(), "00".to_string())));
    let err = HashResult::Failed { path: "/b".to_string(), reason: "gone".to_string() };
    assert!(!err.is_ok());
    assert_eq!(err.clone().into_ok(), None);
}
