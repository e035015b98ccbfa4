//! Searching for files.

pub mod exif;
pub mod extractor;

use vstd::prelude::*;
use vstd::string::*;
use vstd::utf8::*;

use crate::cli::{
    optional_category, search_category_to_file_category, SearchArgs, SearchCategory, SearchSort,
};
use crate::db::{
    at_most, in_category, is_listing, named, search_files_by_category, search_files_by_name, Database,
    FileOrder, NAME_SEARCH_LIMIT,
};
use crate::folding::{highlight, highlighted, match_position};
use crate::models::{file_views, optional_text, FileCategory, FileRecord, FileView, SearchResult};
use crate::order::{ahead, lists, picked, stable_order, Descending};
use crate::search::extractor::{make_snippet, snippet_around};
use crate::sizes::{byte_size, fmt_bytes};
use crate::text::{
    ascii_folded, chars_of, contains_text, cut_pieces, decimal, decimal_text, has_text, is_ascii_text,
    joined, joined3, lowercase, pieces_of_parts, same_text, split_marked, text_before, texts, to_lower, trim,
    trimmed, wide_decimal_text,
};
use crate::time::{earlier, format_time, time_formatted, Timestamp};

verus! {

broadcast use {vstd::utf8::group_utf8_lib, vstd::string::group_string_axioms};

// ---------------------------------------------------------------------------
// Words
// ---------------------------------------------------------------------------

/// Whether Unicode counts a character as a letter or a number.
pub uninterp spec fn alphanumeric(c: char) -> bool;

/// Whether a character is an ASCII letter or digit.
pub open spec fn ascii_alphanumeric(c: char) -> bool {
    'a' <= c <= 'z' || 'A' <= c <= 'Z' || '0' <= c <= '9'
}

/// `char::is_alphanumeric`: whether Unicode counts the character as alphabetic
/// or numeric. Of the ASCII characters it counts the letters and the digits.
#[verifier::external_body]
fn is_alphanumeric(c: char) -> (r: bool)
    ensures
        r == alphanumeric(c),
        (c as u32) < 128 ==> r == ascii_alphanumeric(c),
{
    c.is_alphanumeric()
}

/// The characters that separate words.
pub open spec fn word_cuts(s: Seq<char>) -> Seq<bool> {
    s.map_values(|c: char| !alphanumeric(c))
}

/// The texts in lowercase.
pub open spec fn lowercased(words: Seq<Seq<char>>) -> Seq<Seq<char>> {
    words.map_values(|w: Seq<char>| lowercase(w))
}

/// Words of two or more characters.
pub open spec fn long_word() -> spec_fn(Seq<char>) -> bool {
    |w: Seq<char>| w.len() >= 2
}

/// The words of a query, in lowercase, without those of one character.
pub open spec fn tokens_of(query: Seq<char>) -> Seq<Seq<char>> {
    lowercased(cut_pieces(query, word_cuts(query))).filter(long_word())
}

/// The words of an ASCII query.
pub open spec fn ascii_tokens(query: Seq<char>) -> Seq<Seq<char>> {
    cut_pieces(query, query.map_values(|c: char| !ascii_alphanumeric(c))).map_values(
        |w: Seq<char>| ascii_folded(w),
    ).filter(long_word())
}

/// The words of two or more characters.
pub fn drop_short_words(words: &Vec<String>) -> (r: Vec<String>)
    ensures
        texts(r@) == texts(words@).filter(long_word()),
{
    let ghost all = texts(words@);
    let mut out: Vec<String> = Vec::new();
    for i in 0..words.len()
        invariant
            all == texts(words@),
            texts(out@) == all.take(i as int).filter(long_word()),
    {
        proof {
            assert(all.take(i + 1).drop_last() == all.take(i as int));
            assert(all[i as int] == words@[i as int]@);
            reveal_with_fuel(Seq::filter, 1);
        }
        if words[i].as_str().unicode_len() >= 2 {
            let word: String = words[i].clone();
            assert(texts(out@.push(word)) == texts(out@).push(word@));
            out.push(word);
        }
    }
    assert(all.take(all.len() as int) == all);
    out
}

/// The words of a query, in lowercase, without those of one character. An ASCII
/// character that is no letter or digit, a space among them, parts the query into
/// two, each with its own words.
pub fn tokenize(query: &str) -> (r: Vec<String>)
    ensures
        texts(r@) == tokens_of(query@),
        forall|a: Seq<char>, c: char, b: Seq<char>|
            query@ == #[trigger] (a.push(c) + b) && (c as u32) < 128 && !ascii_alphanumeric(c)
                ==> texts(r@) == tokens_of(a) + tokens_of(b),
        is_ascii_text(query@) ==> texts(r@) == ascii_tokens(query@),
{
    let v: Vec<char> = chars_of(query);
    let ghost ascii_cuts = query@.map_values(|c: char| !ascii_alphanumeric(c));
    let mut cut: Vec<bool> = Vec::new();
    for i in 0..v.len()
        invariant
            v@ == query@,
            cut@ == word_cuts(query@).take(i as int),
            ascii_cuts == query@.map_values(|c: char| !ascii_alphanumeric(c)),
            is_ascii_text(query@) ==> cut@ == ascii_cuts.take(i as int),
            forall|j: int|
                0 <= j < i && (#[trigger] query@[j] as u32) < 128 ==> alphanumeric(query@[j])
                    == ascii_alphanumeric(query@[j]),
    {
        assert(is_ascii_text(query@) ==> (query@[i as int] as u32) < 128);
        cut.push(!is_alphanumeric(v[i]));
    }
    assert(word_cuts(query@).take(query@.len() as int) == word_cuts(query@));
    assert(ascii_cuts.take(query@.len() as int) == ascii_cuts);
    proof {
        pieces_stay_ascii(query@, cut@);
        assert forall|a: Seq<char>, c: char, b: Seq<char>|
            query@ == #[trigger] (a.push(c) + b) && (c as u32) < 128 && !ascii_alphanumeric(
                c,
            ) implies tokens_of(query@) == tokens_of(a) + tokens_of(b) by {
            assert(query@[a.len() as int] == c);
            tokens_of_parts(a, c, b);
        }
    }
    let pieces: Vec<String> = split_marked(v.as_slice(), &cut);
    let ghost lower = lowercased(texts(pieces@));
    let ghost ascii_lower = texts(pieces@).map_values(|w: Seq<char>| ascii_folded(w));
    let mut words: Vec<String> = Vec::new();
    for i in 0..pieces.len()
        invariant
            lower == lowercased(texts(pieces@)),
            ascii_lower == texts(pieces@).map_values(|w: Seq<char>| ascii_folded(w)),
            texts(words@) == lower.take(i as int),
            is_ascii_text(query@) ==> forall|k: int|
                0 <= k < pieces@.len() ==> is_ascii_text(#[trigger] texts(pieces@)[k]),
            is_ascii_text(query@) ==> texts(words@) == ascii_lower.take(i as int),
    {
        let word: String = to_lower(pieces[i].as_str());
        proof {
            assert(is_ascii_text(query@) ==> is_ascii_text(texts(pieces@)[i as int]));
            assert(texts(pieces@)[i as int] == pieces@[i as int]@);
            assert(texts(words@.push(word)) == texts(words@).push(word@));
        }
        words.push(word);
    }
    assert(lower.take(lower.len() as int) == lower);
    assert(ascii_lower.take(ascii_lower.len() as int) == ascii_lower);
    drop_short_words(&words)
}

proof fn pieces_stay_ascii(s: Seq<char>, cut: Seq<bool>)
    requires
        s.len() == cut.len(),
    ensures
        cut_pieces(s, cut).len() > 0,
        is_ascii_text(s) ==> forall|k: int|
            0 <= k < cut_pieces(s, cut).len() ==> is_ascii_text(#[trigger] cut_pieces(s, cut)[k]),
    decreases s.len(),
{
    if s.len() > 0 {
        let before = cut_pieces(s.drop_last(), cut.drop_last());
        let after = cut_pieces(s, cut);
        pieces_stay_ascii(s.drop_last(), cut.drop_last());
        if is_ascii_text(s) {
            assert forall|i: int| 0 <= i < s.drop_last().len() implies (#[trigger] s.drop_last()[i]
                as u32) < 128 by {
                assert((s[i] as u32) < 128);
            }
            assert forall|k: int| 0 <= k < after.len() implies is_ascii_text(#[trigger] after[k]) by {
                if cut[s.len() - 1] {
                    if k < before.len() {
                        assert(after[k] == before[k]);
                    }
                } else if k < before.len() - 1 {
                    assert(after[k] == before[k]);
                } else {
                    let piece = before.last();
                    assert(is_ascii_text(before[before.len() - 1]));
                    assert(after[k] == piece.push(s.last()));
                    assert((s[s.len() - 1] as u32) < 128);
                    assert forall|i: int| 0 <= i < after[k].len() implies (#[trigger] after[k][i] as u32)
                        < 128 by {
                        if i < piece.len() {
                            assert((piece[i] as u32) < 128);
                        }
                    }
                }
            }
        }
    }
}

/// The words of two texts with a separator between them are the words of the one
/// and behind them those of the other.
pub proof fn tokens_of_parts(a: Seq<char>, separator: char, b: Seq<char>)
    requires
        !alphanumeric(separator),
    ensures
        tokens_of(a.push(separator) + b) == tokens_of(a) + tokens_of(b),
{
    pieces_of_parts(a, word_cuts(a), separator, b, word_cuts(b));
    assert(word_cuts(a.push(separator) + b) == word_cuts(a).push(true) + word_cuts(b));
    let (x, y) = (cut_pieces(a, word_cuts(a)), cut_pieces(b, word_cuts(b)));
    assert(lowercased(x + y) == lowercased(x) + lowercased(y));
    Seq::filter_distributes_over_add(lowercased(x), lowercased(y), long_word());
}

/// Every token has two or more characters.
pub proof fn tokens_are_long(query: Seq<char>, i: int)
    requires
        0 <= i < tokens_of(query).len(),
    ensures
        tokens_of(query)[i].len() >= 2,
{
    broadcast use vstd::seq_lib::group_filter_ensures;

    let all = lowercased(cut_pieces(query, word_cuts(query)));
    assert(long_word()(all.filter(long_word())[i]));
}

// ---------------------------------------------------------------------------
// Scores
// ---------------------------------------------------------------------------

/// Half points for the whole query in the name.
pub const WEIGHT_NAME_EXACT: u128 = 20;

/// Half points for a token in the name.
pub const WEIGHT_NAME_TOKEN: u128 = 8;

/// Half points for a token in the path.
pub const WEIGHT_PATH_TOKEN: u128 = 3;

/// Half points for a token in the metadata.
pub const WEIGHT_EXIF_TOKEN: u128 = 4;

/// Half points for a token in the contents.
pub const WEIGHT_CONTENT_TOKEN: u128 = 6;

/// The number of tokens that stand in a text.
pub open spec fn hits(text: Seq<char>, tokens: Seq<Seq<char>>) -> nat
    decreases tokens.len(),
{
    if tokens.len() == 0 {
        0
    } else {
        hits(text, tokens.drop_last()) + if has_text(text, tokens.last()) {
            1nat
        } else {
            0
        }
    }
}

/// The number of tokens that stand in a text that may not be there.
pub open spec fn optional_hits(text: Option<Seq<char>>, tokens: Seq<Seq<char>>) -> nat {
    match text {
        Some(t) => hits(t, tokens),
        None => 0,
    }
}

/// The half points of a file, all of whose texts are in lowercase.
pub open spec fn points(
    name: Seq<char>,
    path: Seq<char>,
    query: Seq<char>,
    tokens: Seq<Seq<char>>,
    metadata: Option<Seq<char>>,
    content: Option<Seq<char>>,
) -> nat {
    (if has_text(name, query) {
        WEIGHT_NAME_EXACT as nat
    } else {
        0
    }) + WEIGHT_NAME_TOKEN as nat * hits(name, tokens) + WEIGHT_PATH_TOKEN as nat * hits(path, tokens)
        + WEIGHT_EXIF_TOKEN as nat * optional_hits(metadata, tokens) + WEIGHT_CONTENT_TOKEN as nat
        * optional_hits(content, tokens)
}

/// The number of tokens that stand in a text.
pub fn count_hits(text: &str, tokens: &Vec<String>) -> (r: usize)
    ensures
        r == hits(text@, texts(tokens@)),
{
    let ghost all = texts(tokens@);
    let mut n: usize = 0;
    for i in 0..tokens.len()
        invariant
            all == texts(tokens@),
            n <= i,
            n == hits(text@, all.take(i as int)),
    {
        proof {
            assert(all.take(i + 1).drop_last() == all.take(i as int));
            assert(all[i as int] == tokens@[i as int]@);
        }
        if contains_text(text, tokens[i].as_str()) {
            n = n + 1;
        }
    }
    assert(all.take(all.len() as int) == all);
    n
}

fn count_optional_hits(text: &Option<String>, tokens: &Vec<String>) -> (r: usize)
    ensures
        r == optional_hits(optional_text(*text), texts(tokens@)),
{
    match text {
        Some(t) => count_hits(t.as_str(), tokens),
        None => 0,
    }
}

/// The half points of a file, all of whose texts are in lowercase.
pub fn score_texts(
    name: &str,
    path: &str,
    query: &str,
    tokens: &Vec<String>,
    metadata: &Option<String>,
    content: &Option<String>,
) -> (r: u128)
    ensures
        r == points(
            name@,
            path@,
            query@,
            texts(tokens@),
            optional_text(*metadata),
            optional_text(*content),
        ),
{
    let exact: u128 = if contains_text(name, query) {
        WEIGHT_NAME_EXACT
    } else {
        0
    };
    let in_name: u128 = count_hits(name, tokens) as u128;
    let in_path: u128 = count_hits(path, tokens) as u128;
    let in_metadata: u128 = count_optional_hits(metadata, tokens) as u128;
    let in_content: u128 = count_optional_hits(content, tokens) as u128;
    exact + WEIGHT_NAME_TOKEN * in_name + WEIGHT_PATH_TOKEN * in_path + WEIGHT_EXIF_TOKEN * in_metadata
        + WEIGHT_CONTENT_TOKEN * in_content
}

/// What was read of a file for a search.
#[derive(Debug)]
pub struct Reading {
    /// The searchable text of its metadata, where it has any.
    pub metadata: Option<String>,
    /// The text of its contents, where it has any.
    pub content: Option<String>,
}

/// Whether the metadata of files of a category is searched.
pub open spec fn has_media(category: FileCategory) -> bool {
    category is Image || category is Video
}

/// Whether the metadata of files of a category is searched.
pub fn searches_metadata(category: &FileCategory) -> (r: bool)
    ensures
        r == has_media(*category),
{
    matches!(category, FileCategory::Image | FileCategory::Video)
}

/// The metadata that counts for a file.
pub open spec fn metadata_of(f: FileView, reading: Reading) -> Option<Seq<char>> {
    if has_media(f.category) {
        optional_text(reading.metadata)
    } else {
        None
    }
}

/// The contents that count for a file.
pub open spec fn content_of(do_content: bool, reading: Reading) -> Option<Seq<char>> {
    if do_content {
        optional_text(reading.content)
    } else {
        None
    }
}

/// A text in lowercase, where it is there.
pub open spec fn lower_optional(s: Option<Seq<char>>) -> Option<Seq<char>> {
    match s {
        Some(t) => Some(lowercase(t)),
        None => None,
    }
}

/// The half points of a file.
pub open spec fn file_score(
    f: FileView,
    query: Seq<char>,
    tokens: Seq<Seq<char>>,
    do_content: bool,
    reading: Reading,
) -> nat {
    points(
        lowercase(f.name),
        lowercase(f.path),
        lowercase(query),
        tokens,
        lower_optional(metadata_of(f, reading)),
        lower_optional(content_of(do_content, reading)),
    )
}

/// The number of characters in a snippet.
pub const SNIPPET_WINDOW: usize = 200;

/// Where the first of `tokens` that stands in `text` is among them, if one does.
pub open spec fn first_hit(text: Seq<char>, tokens: Seq<Seq<char>>) -> Option<int>
    decreases tokens.len(),
{
    if tokens.len() == 0 {
        None
    } else {
        match first_hit(text, tokens.drop_last()) {
            Some(i) => Some(i),
            None => if has_text(text, tokens.last()) {
                Some(tokens.len() - 1)
            } else {
                None
            },
        }
    }
}

/// What is shown of the contents of a file: a part around the first token that
/// stands in them, with all tokens highlighted.
pub open spec fn content_snippet(tokens: Seq<Seq<char>>, content: Option<Seq<char>>) -> Option<Seq<char>> {
    match content {
        Some(text) => match first_hit(lowercase(text), tokens) {
            Some(i) => Some(
                highlighted(
                    snippet_around(text, match_position(text, tokens[i]), SNIPPET_WINDOW as int),
                    tokens,
                ),
            ),
            None => None,
        },
        None => None,
    }
}

/// What is shown of a file: a part of its contents where a token stands in them,
/// and nothing where it matched otherwise.
pub open spec fn file_snippet(
    tokens: Seq<Seq<char>>,
    do_content: bool,
    reading: Reading,
) -> Option<Seq<char>> {
    content_snippet(tokens, content_of(do_content, reading))
}

/// Where the first of `tokens` that stands in `text` is among them, if one does.
fn find_hit(text: &str, tokens: &Vec<String>) -> (r: Option<usize>)
    ensures
        match r {
            Some(i) => first_hit(text@, texts(tokens@)) == Some(i as int) && i < tokens@.len(),
            None => first_hit(text@, texts(tokens@)) is None,
        },
{
    let ghost all = texts(tokens@);
    for i in 0..tokens.len()
        invariant
            all == texts(tokens@),
            first_hit(text@, all.take(i as int)) is None,
    {
        proof {
            assert(all.take(i + 1).drop_last() == all.take(i as int));
            assert(all[i as int] == tokens@[i as int]@);
        }
        if contains_text(text, tokens[i].as_str()) {
            proof {
                hit_stays_first(text@, all, i + 1);
            }
            return Some(i);
        }
    }
    assert(all.take(all.len() as int) == all);
    None
}

proof fn hit_stays_first(text: Seq<char>, tokens: Seq<Seq<char>>, k: int)
    requires
        0 <= k <= tokens.len(),
        first_hit(text, tokens.take(k)) is Some,
    ensures
        first_hit(text, tokens) == first_hit(text, tokens.take(k)),
    decreases tokens.len(),
{
    if k == tokens.len() {
        assert(tokens.take(k) == tokens);
    } else {
        assert(tokens.drop_last().take(k) == tokens.take(k));
        hit_stays_first(text, tokens.drop_last(), k);
    }
}

/// A file of which nothing was read but metadata is shown without a snippet, as
/// is one whose contents are not searched.
pub proof fn metadata_gives_no_snippet(
    tokens: Seq<Seq<char>>,
    do_content: bool,
    reading: Reading,
)
    requires
        !do_content || reading.content is None,
    ensures
        file_snippet(tokens, do_content, reading) is None,
{
}

/// What a search result says.
#[verifier::ext_equal]
pub struct ResultView {
    pub file: FileView,
    pub score: nat,
    pub snippet: Option<Seq<char>>,
}

/// What a list of search results says.
pub open spec fn result_views(results: Seq<SearchResult>) -> Seq<ResultView> {
    results.map_values(|r: SearchResult| result_view(r))
}

/// What a search result says.
pub open spec fn result_view(r: SearchResult) -> ResultView {
    ResultView { file: r.file@, score: r.score as nat, snippet: optional_text(r.snippet) }
}

fn lower_of(s: &Option<String>, wanted: bool) -> (r: Option<String>)
    ensures
        optional_text(r) == if wanted {
            lower_optional(optional_text(*s))
        } else {
            None
        },
{
    match s {
        Some(t) => if wanted {
            Some(to_lower(t.as_str()))
        } else {
            None
        },
        None => None,
    }
}

fn show_contents(content: &Option<String>, tokens: &Vec<String>) -> (r: Option<String>)
    ensures
        optional_text(r) == content_snippet(texts(tokens@), optional_text(*content)),
{
    match content {
        Some(text) => match find_hit(to_lower(text.as_str()).as_str(), tokens) {
            Some(i) => {
                assert(texts(tokens@)[i as int] == tokens@[i as int]@);
                let part: String = make_snippet(text.as_str(), tokens[i].as_str(), SNIPPET_WINDOW);
                Some(highlight(part.as_str(), tokens))
            },
            None => None,
        },
        None => None,
    }
}

/// How well a file matches a query, given what was read of it; nothing where it
/// does not match at all.
pub fn score_file(
    file: &FileRecord,
    query: &str,
    tokens: &Vec<String>,
    do_content_search: bool,
    reading: &Reading,
) -> (r: Option<SearchResult>)
    ensures
        ({
            let score = file_score(file@, query@, texts(tokens@), do_content_search, *reading);
            match r {
                Some(result) => {
                    &&& score > 0
                    &&& result.file@ == file@
                    &&& result.score == score
                    &&& optional_text(result.snippet) == file_snippet(
                        texts(tokens@),
                        do_content_search,
                        *reading,
                    )
                },
                None => score == 0,
            }
        }),
{
    let media: bool = searches_metadata(&file.category);
    let metadata: Option<String> = lower_of(&reading.metadata, media);
    let content: Option<String> = lower_of(&reading.content, do_content_search);
    let score: u128 = score_texts(
        to_lower(file.name.as_str()).as_str(),
        to_lower(file.path.as_str()).as_str(),
        to_lower(query).as_str(),
        tokens,
        &metadata,
        &content,
    );
    if score == 0 {
        return None;
    }
    let snippet: Option<String> = if do_content_search {
        show_contents(&reading.content, tokens)
    } else {
        None
    };
    Some(SearchResult { file: file.clone(), score, snippet })
}

// ---------------------------------------------------------------------------
// Candidates
// ---------------------------------------------------------------------------

/// Whether `out` is what a search by name gives.
pub open spec fn are_name_hits(files: Seq<FileView>, query: Seq<char>, out: Seq<FileView>) -> bool {
    exists|all: Seq<FileView>| #[trigger]
        is_listing(files, named(query), FileOrder::Name, all) && out == at_most(
            all,
            NAME_SEARCH_LIMIT as int,
        )
}

/// Files of a category.
pub open spec fn of_category(category: FileCategory) -> spec_fn(FileView) -> bool {
    |f: FileView| f.category == category
}

/// Files that are not in a list.
pub open spec fn not_in(list: Seq<FileView>) -> spec_fn(FileView) -> bool {
    |f: FileView| !list.contains(f)
}

/// Whether `out` lists the files that a search looks at: those with the query in
/// their name or path, or, for one category, those of them that are in it and
/// behind them all other files of the category.
pub open spec fn are_candidates(
    files: Seq<FileView>,
    query: Seq<char>,
    category: Option<FileCategory>,
    out: Seq<FileView>,
) -> bool {
    match category {
        None => are_name_hits(files, query, out),
        Some(c) => exists|hits: Seq<FileView>, listed: Seq<FileView>| #[trigger]
            are_name_hits(files, query, hits) && #[trigger] is_listing(
                files,
                in_category(c),
                FileOrder::Name,
                listed,
            ) && out == hits.filter(of_category(c)) + listed.filter(not_in(hits)),
    }
}

fn in_list(list: &Vec<FileRecord>, f: &FileRecord) -> (r: bool)
    requires
        forall|i: int|
            0 <= i < list@.len() && (#[trigger] list@[i]).path@ == f.path@ ==> list@[i]@ == f@,
    ensures
        r == file_views(list@).contains(f@),
{
    let ghost all = file_views(list@);
    for i in 0..list.len()
        invariant
            all == file_views(list@),
            forall|k: int|
                0 <= k < list@.len() && (#[trigger] list@[k]).path@ == f.path@ ==> list@[k]@ == f@,
            forall|k: int| 0 <= k < i ==> (#[trigger] list@[k])@ != f@,
    {
        if same_text(list[i].path.as_str(), f.path.as_str()) {
            assert(all[i as int] == f@);
            return true;
        }
    }
    assert forall|k: int| 0 <= k < all.len() implies all[k] != f@ by {
        assert(all[k] == list@[k]@);
    }
    false
}

fn keep_category(files: &Vec<FileRecord>, category: &FileCategory) -> (r: Vec<FileRecord>)
    ensures
        file_views(r@) == file_views(files@).filter(of_category(*category)),
{
    let ghost all = file_views(files@);
    let mut out: Vec<FileRecord> = Vec::new();
    for i in 0..files.len()
        invariant
            all == file_views(files@),
            file_views(out@) == all.take(i as int).filter(of_category(*category)),
    {
        proof {
            assert(all.take(i + 1).drop_last() == all.take(i as int));
            assert(all[i as int] == files@[i as int]@);
            reveal_with_fuel(Seq::filter, 1);
        }
        if files[i].category == *category {
            let f: FileRecord = files[i].clone();
            assert(file_views(out@.push(f)) == file_views(out@).push(f@));
            out.push(f);
        }
    }
    assert(all.take(all.len() as int) == all);
    out
}

/// The files that a search for `query` looks at.
pub fn candidates(db: &Database, query: &str, category: &Option<SearchCategory>) -> (r: Vec<FileRecord>)
    requires
        db.wf(),
    ensures
        are_candidates(db.files(), query@, optional_category(*category), file_views(r@)),
{
    let found: Vec<FileRecord> = search_files_by_name(db, query);
    let cat: FileCategory = match category {
        None => {
            return found;
        },
        Some(c) => search_category_to_file_category(c),
    };
    let listed: Vec<FileRecord> = search_files_by_category(db, &cat);
    let ghost fv = file_views(found@);
    let ghost lv = file_views(listed@);
    proof {
        assert(are_name_hits(db.files(), query@, fv));
        let all = choose|all: Seq<FileView>| #[trigger]
            is_listing(db.files(), named(query@), FileOrder::Name, all) && fv == at_most(
                all,
                NAME_SEARCH_LIMIT as int,
            );
        assert forall|i: int| 0 <= i < fv.len() implies db.files().contains(#[trigger] fv[i]) by {
            assert(all[i] == fv[i]);
            assert(all.contains(fv[i]));
        }
        assert forall|i: int| 0 <= i < lv.len() implies db.files().contains(#[trigger] lv[i]) by {
            assert(lv.contains(lv[i]));
        }
    }
    let mut out: Vec<FileRecord> = keep_category(&found, &cat);
    let ghost first = file_views(out@);
    assert(first + lv.take(0).filter(not_in(fv)) == first);
    for i in 0..listed.len()
        invariant
            db.wf(),
            fv == file_views(found@),
            lv == file_views(listed@),
            forall|k: int| 0 <= k < fv.len() ==> db.files().contains(#[trigger] fv[k]),
            forall|k: int| 0 <= k < lv.len() ==> db.files().contains(#[trigger] lv[k]),
            file_views(out@) == first + lv.take(i as int).filter(not_in(fv)),
    {
        proof {
            assert(lv.take(i + 1).drop_last() == lv.take(i as int));
            assert(lv[i as int] == listed@[i as int]@);
            reveal_with_fuel(Seq::filter, 1);
            assert forall|k: int| 0 <= k < found@.len() && (#[trigger] found@[k]).path@
                == listed@[i as int].path@ implies found@[k]@ == listed@[i as int]@ by {
                assert(fv[k] == found@[k]@);
                assert(db.files().contains(fv[k]) && db.files().contains(lv[i as int]));
                let a = choose|a: int| 0 <= a < db.files().len() && db.files()[a] == fv[k];
                let b = choose|b: int| 0 <= b < db.files().len() && db.files()[b] == lv[i as int];
                crate::db::path_is_unique(*db, a, b);
            }
        }
        if !in_list(&found, &listed[i]) {
            let f: FileRecord = listed[i].clone();
            assert(file_views(out@.push(f)) == file_views(out@).push(f@));
            out.push(f);
        }
    }
    assert(lv.take(lv.len() as int) == lv);
    assert(is_listing(db.files(), in_category(cat), FileOrder::Name, lv));
    out
}

/// A search that is restricted to a category looks at all files of the category
/// that are there, and at no others.
pub proof fn category_restricts_search(
    db: Database,
    query: Seq<char>,
    category: FileCategory,
    out: Seq<FileView>,
    f: FileView,
)
    requires
        db.wf(),
        are_candidates(db.files(), query, Some(category), out),
    ensures
        out.contains(f) <==> db.files().contains(f) && in_category(category)(f),
{
    broadcast use vstd::seq_lib::group_filter_ensures;

    let files = db.files();
    let (hits, listed) = choose|hits: Seq<FileView>, listed: Seq<FileView>| #[trigger]
        are_name_hits(files, query, hits) && #[trigger] is_listing(
            files,
            in_category(category),
            FileOrder::Name,
            listed,
        ) && out == hits.filter(of_category(category)) + listed.filter(not_in(hits));
    let all = choose|all: Seq<FileView>| #[trigger]
        is_listing(files, named(query), FileOrder::Name, all) && hits == at_most(
            all,
            NAME_SEARCH_LIMIT as int,
        );
    let a = hits.filter(of_category(category));
    let b = listed.filter(not_in(hits));
    if out.contains(f) {
        let k = choose|k: int| 0 <= k < out.len() && out[k] == f;
        if k < a.len() {
            assert(a[k] == f && a.contains(f));
            assert(of_category(category)(a[k]));
            hits.lemma_filter_contains_rev(of_category(category), f);
            let i = choose|i: int| 0 <= i < hits.len() && hits[i] == f;
            assert(all[i] == f);
            assert(all.contains(f));
        } else {
            assert(b[k - a.len()] == f && b.contains(f));
            listed.lemma_filter_contains_rev(not_in(hits), f);
        }
    }
    if files.contains(f) && in_category(category)(f) {
        assert(listed.contains(f));
        if hits.contains(f) {
            let i = choose|i: int| 0 <= i < hits.len() && hits[i] == f;
            assert(of_category(category)(hits[i]));
            assert(a.contains(f));
            let k = choose|k: int| 0 <= k < a.len() && a[k] == f;
            assert(out[k] == f);
        } else {
            let i = choose|i: int| 0 <= i < listed.len() && listed[i] == f;
            assert(not_in(hits)(listed[i]));
            assert(b.contains(f));
            let k = choose|k: int| 0 <= k < b.len() && b[k] == f;
            assert(out[a.len() + k] == f);
        }
    }
}

// ---------------------------------------------------------------------------
// Ranking
// ---------------------------------------------------------------------------

/// The results of the first `n` files, without those that do not match.
pub open spec fn scored(
    files: Seq<FileView>,
    readings: Seq<Reading>,
    query: Seq<char>,
    tokens: Seq<Seq<char>>,
    do_content: bool,
    n: int,
) -> Seq<ResultView>
    decreases n,
{
    if n <= 0 {
        Seq::empty()
    } else {
        let before = scored(files, readings, query, tokens, do_content, n - 1);
        let f = files[n - 1];
        let score = file_score(f, query, tokens, do_content, readings[n - 1]);
        if score > 0 {
            before.push(
                ResultView {
                    file: f,
                    score,
                    snippet: file_snippet(tokens, do_content, readings[n - 1]),
                },
            )
        } else {
            before
        }
    }
}

/// Whether a result is sorted before another.
pub open spec fn ranks_before(sort: SearchSort, a: ResultView, b: ResultView) -> bool {
    match sort {
        SearchSort::Relevance => a.score > b.score,
        SearchSort::Newest => earlier(b.file.modified_at, a.file.modified_at),
        SearchSort::Largest => a.file.size_bytes > b.file.size_bytes,
        SearchSort::Name => text_before(a.file.name, b.file.name),
    }
}

/// Whether `p` lists the positions of `all` in the order of `sort`, where results
/// that tie stay in the order they came in.
pub open spec fn is_ranking(all: Seq<ResultView>, sort: SearchSort, p: Seq<usize>) -> bool {
    &&& p.len() == all.len()
    &&& forall|i: int| 0 <= i < p.len() ==> (#[trigger] p[i]) < all.len()
    &&& forall|i: int, j: int|
        0 <= i < j < p.len() ==> {
            let (a, b) = (#[trigger] p[i] as int, #[trigger] p[j] as int);
            ranks_before(sort, all[a], all[b]) || (!ranks_before(sort, all[b], all[a]) && a < b)
        }
}

/// The order of some results.
fn rank(results: &Vec<SearchResult>, sort: &SearchSort) -> (p: Vec<usize>)
    ensures
        is_ranking(result_views(results@), *sort, p@),
{
    let ghost all = result_views(results@);
    match sort {
        SearchSort::Relevance => {
            let mut keys: Vec<Descending<u128>> = Vec::new();
            for i in 0..results.len()
                invariant
                    all == result_views(results@),
                    keys@.len() == i,
                    forall|k: int| 0 <= k < i ==> (#[trigger] keys@[k]).0 == all[k].score,
            {
                keys.push(Descending(results[i].score));
            }
            let p: Vec<usize> = stable_order(&keys);
            proof {
                assert forall|i: int, j: int| 0 <= i < j < p@.len() implies ({
                    let (a, b) = (#[trigger] p@[i] as int, #[trigger] p@[j] as int);
                    ranks_before(*sort, all[a], all[b]) || (!ranks_before(*sort, all[b], all[a]) && a < b)
                }) by {
                    assert(ahead(keys@, p@[i] as int, p@[j] as int));
                    assert(keys@[p@[i] as int].0 == all[p@[i] as int].score);
                    assert(keys@[p@[j] as int].0 == all[p@[j] as int].score);
                }
            }
            p
        },
        SearchSort::Newest => {
            let mut keys: Vec<Descending<Timestamp>> = Vec::new();
            for i in 0..results.len()
                invariant
                    all == result_views(results@),
                    keys@.len() == i,
                    forall|k: int| 0 <= k < i ==> (#[trigger] keys@[k]).0@ == all[k].file.modified_at,
            {
                keys.push(Descending(results[i].file.modified_at));
            }
            let p: Vec<usize> = stable_order(&keys);
            proof {
                assert forall|i: int, j: int| 0 <= i < j < p@.len() implies ({
                    let (a, b) = (#[trigger] p@[i] as int, #[trigger] p@[j] as int);
                    ranks_before(*sort, all[a], all[b]) || (!ranks_before(*sort, all[b], all[a]) && a < b)
                }) by {
                    assert(ahead(keys@, p@[i] as int, p@[j] as int));
                    assert(keys@[p@[i] as int].0@ == all[p@[i] as int].file.modified_at);
                    assert(keys@[p@[j] as int].0@ == all[p@[j] as int].file.modified_at);
                }
            }
            p
        },
        SearchSort::Largest => {
            let mut keys: Vec<Descending<u64>> = Vec::new();
            for i in 0..results.len()
                invariant
                    all == result_views(results@),
                    keys@.len() == i,
                    forall|k: int| 0 <= k < i ==> (#[trigger] keys@[k]).0 == all[k].file.size_bytes,
            {
                keys.push(Descending(results[i].file.size_bytes));
            }
            let p: Vec<usize> = stable_order(&keys);
            proof {
                assert forall|i: int, j: int| 0 <= i < j < p@.len() implies ({
                    let (a, b) = (#[trigger] p@[i] as int, #[trigger] p@[j] as int);
                    ranks_before(*sort, all[a], all[b]) || (!ranks_before(*sort, all[b], all[a]) && a < b)
                }) by {
                    assert(ahead(keys@, p@[i] as int, p@[j] as int));
                    assert(keys@[p@[i] as int].0 == all[p@[i] as int].file.size_bytes);
                    assert(keys@[p@[j] as int].0 == all[p@[j] as int].file.size_bytes);
                }
            }
            p
        },
        SearchSort::Name => {
            let mut keys: Vec<String> = Vec::new();
            for i in 0..results.len()
                invariant
                    all == result_views(results@),
                    keys@.len() == i,
                    forall|k: int| 0 <= k < i ==> (#[trigger] keys@[k])@ == all[k].file.name,
            {
                keys.push(results[i].file.name.clone());
            }
            let p: Vec<usize> = stable_order(&keys);
            proof {
                assert forall|i: int, j: int| 0 <= i < j < p@.len() implies ({
                    let (a, b) = (#[trigger] p@[i] as int, #[trigger] p@[j] as int);
                    ranks_before(*sort, all[a], all[b]) || (!ranks_before(*sort, all[b], all[a]) && a < b)
                }) by {
                    assert(ahead(keys@, p@[i] as int, p@[j] as int));
                    assert(keys@[p@[i] as int]@ == all[p@[i] as int].file.name);
                    assert(keys@[p@[j] as int]@ == all[p@[j] as int].file.name);
                }
            }
            p
        },
    }
}

/// Whether `out` is what a search gives that looks at `files`, of which
/// `readings` was read.
pub open spec fn are_results(
    files: Seq<FileView>,
    readings: Seq<Reading>,
    args: SearchArgs,
    out: Seq<ResultView>,
) -> bool {
    let query = trimmed(args.query@);
    if query.len() == 0 {
        out.len() == 0
    } else {
        let all = scored(files, readings, query, tokens_of(query), args.content, files.len() as int);
        exists|p: Seq<usize>| #[trigger] is_ranking(all, args.sort, p) && out == at_most(
            picked(all, p),
            args.limit as int,
        )
    }
}

/// The results of a search that looks at `files`, of which `readings` was read:
/// those that match, the best first in the order that was asked for, and no more
/// than were asked for. A query of white space finds nothing.
pub fn run(files: &Vec<FileRecord>, readings: &Vec<Reading>, args: &SearchArgs) -> (r: Vec<SearchResult>)
    requires
        files@.len() == readings@.len(),
    ensures
        are_results(file_views(files@), readings@, *args, result_views(r@)),
{
    let query: String = trim(args.query.as_str());
    if query.as_str().is_empty() {
        return Vec::new();
    }
    let tokens: Vec<String> = tokenize(query.as_str());
    let ghost fv = file_views(files@);
    let ghost tv = tokens_of(query@);
    let mut found: Vec<SearchResult> = Vec::new();
    for i in 0..files.len()
        invariant
            files@.len() == readings@.len(),
            fv == file_views(files@),
            texts(tokens@) == tv,
            result_views(found@) == scored(fv, readings@, query@, tv, args.content, i as int),
    {
        assert(fv[i as int] == files@[i as int]@);
        match score_file(&files[i], query.as_str(), &tokens, args.content, &readings[i]) {
            Some(result) => {
                assert(result_views(found@.push(result)) == result_views(found@).push(
                    result_view(result),
                ));
                found.push(result);
            },
            None => {},
        }
    }
    let ghost all = result_views(found@);
    assert(fv.len() == files@.len());
    assert(all == scored(fv, readings@, query@, tv, args.content, fv.len() as int));
    let p: Vec<usize> = rank(&found, &args.sort);
    assert(is_ranking(all, args.sort, p@));
    let mut out: Vec<SearchResult> = Vec::new();
    let mut i: usize = 0;
    while i < p.len() && i < args.limit
        invariant
            all == result_views(found@),
            is_ranking(all, args.sort, p@),
            i <= p@.len(),
            i <= args.limit,
            result_views(out@) == picked(all, p@).take(i as int),
        decreases p@.len() - i,
    {
        let result: SearchResult = found[p[i]].clone();
        proof {
            assert(all[p@[i as int] as int] == result_view(found@[p@[i as int] as int]));
            assert(result_views(out@.push(result)) == result_views(out@).push(result_view(result)));
        }
        out.push(result);
        i = i + 1;
    }
    assert(result_views(out@) == at_most(picked(all, p@), args.limit as int));
    out
}

/// No result is before one that is sorted before it.
pub proof fn results_are_sorted(
    files: Seq<FileView>,
    readings: Seq<Reading>,
    args: SearchArgs,
    out: Seq<ResultView>,
    i: int,
    j: int,
)
    requires
        are_results(files, readings, args, out),
        0 <= i < j < out.len(),
    ensures
        !ranks_before(args.sort, out[j], out[i]),
{
    let query = trimmed(args.query@);
    let all = scored(files, readings, query, tokens_of(query), args.content, files.len() as int);
    let p = choose|p: Seq<usize>| #[trigger] is_ranking(all, args.sort, p) && out == at_most(
        picked(all, p),
        args.limit as int,
    );
    let (a, b) = (p[i] as int, p[j] as int);
    assert(out[i] == all[a] && out[j] == all[b]);
    ranking_is_strict(args.sort, all[a], all[b], all[a]);
}

/// Every result matches, there are no more than were asked for, and none for a
/// query of white space.
pub proof fn results_match(files: Seq<FileView>, readings: Seq<Reading>, args: SearchArgs, out: Seq<ResultView>)
    requires
        are_results(files, readings, args, out),
    ensures
        out.len() <= args.limit,
        trimmed(args.query@).len() == 0 ==> out.len() == 0,
        forall|i: int| 0 <= i < out.len() ==> (#[trigger] out[i]).score > 0,
{
    let query = trimmed(args.query@);
    let tokens = tokens_of(query);
    if query.len() > 0 {
        let all = scored(files, readings, query, tokens, args.content, files.len() as int);
        let p = choose|p: Seq<usize>| #[trigger] is_ranking(all, args.sort, p) && out == at_most(
            picked(all, p),
            args.limit as int,
        );
        scores_are_positive(files, readings, query, tokens, args.content, files.len() as int);
        assert forall|i: int| 0 <= i < out.len() implies (#[trigger] out[i]).score > 0 by {
            assert(out[i] == all[p[i] as int]);
        }
    }
}

/// The results of a search are of different files.
pub proof fn results_have_own_paths(
    db: Database,
    category: Option<FileCategory>,
    files: Seq<FileView>,
    readings: Seq<Reading>,
    args: SearchArgs,
    out: Seq<ResultView>,
    i: int,
    j: int,
)
    requires
        db.wf(),
        are_candidates(db.files(), trimmed(args.query@), category, files),
        are_results(files, readings, args, out),
        0 <= i < j < out.len(),
    ensures
        out[i].file.path != out[j].file.path,
{
    let query = trimmed(args.query@);
    let tokens = tokens_of(query);
    let all = scored(files, readings, query, tokens, args.content, files.len() as int);
    let p = choose|p: Seq<usize>| #[trigger] is_ranking(all, args.sort, p) && out == at_most(
        picked(all, p),
        args.limit as int,
    );
    candidates_have_own_paths(db, query, category, files);
    scored_have_own_paths(files, readings, query, tokens, args.content, files.len() as int);
    let (a, b) = (p[i] as int, p[j] as int);
    assert(out[i] == all[a] && out[j] == all[b]);
    ranking_is_strict(args.sort, all[a], all[a], all[a]);
    if a < b {
        assert(all[a].file.path != all[b].file.path);
    } else {
        assert(all[b].file.path != all[a].file.path);
    }
}

/// Whether the files of a list have different paths.
pub open spec fn own_paths(files: Seq<FileView>) -> bool {
    forall|i: int, j: int|
        0 <= i < j < files.len() ==> (#[trigger] files[i]).path != (#[trigger] files[j]).path
}

pub(crate) proof fn candidates_have_own_paths(
    db: Database,
    query: Seq<char>,
    category: Option<FileCategory>,
    out: Seq<FileView>,
)
    requires
        db.wf(),
        are_candidates(db.files(), query, category, out),
    ensures
        own_paths(out),
{
    let files = db.files();
    match category {
        None => {
            hits_have_own_paths(db, query, out);
        },
        Some(c) => {
            let (hits, listed) = choose|hits: Seq<FileView>, listed: Seq<FileView>| #[trigger]
                are_name_hits(files, query, hits) && #[trigger] is_listing(
                    files,
                    in_category(c),
                    FileOrder::Name,
                    listed,
                ) && out == hits.filter(of_category(c)) + listed.filter(not_in(hits));
            hits_have_own_paths(db, query, hits);
            listing_has_own_paths(db, in_category(c), listed);
            let (a, b) = (hits.filter(of_category(c)), listed.filter(not_in(hits)));
            filter_keeps_own_paths(hits, of_category(c));
            filter_keeps_own_paths(listed, not_in(hits));
            assert forall|i: int, j: int| 0 <= i < j < out.len() implies (#[trigger] out[i]).path != (
            #[trigger] out[j]).path by {
                if j < a.len() {
                    assert(out[i] == a[i] && out[j] == a[j]);
                } else if i >= a.len() {
                    assert(out[i] == b[i - a.len()] && out[j] == b[j - a.len()]);
                } else {
                    let (x, y) = (a[i], b[j - a.len()]);
                    assert(out[i] == x && out[j] == y);
                    assert(a.contains(x) && b.contains(y));
                    hits.lemma_filter_contains_rev(of_category(c), x);
                    listed.lemma_filter_contains_rev(not_in(hits), y);
                    listed.lemma_filter_pred(not_in(hits), j - a.len());
                    assert(files.contains(x) && files.contains(y));
                    let k = choose|k: int| 0 <= k < files.len() && files[k] == x;
                    let l = choose|l: int| 0 <= l < files.len() && files[l] == y;
                    if x.path == y.path {
                        crate::db::path_is_unique(db, k, l);
                    }
                }
            }
        },
    }
}

proof fn listing_has_own_paths(db: Database, wanted: spec_fn(FileView) -> bool, out: Seq<FileView>)
    requires
        db.wf(),
        is_listing(db.files(), wanted, FileOrder::Name, out),
    ensures
        own_paths(out),
{
    let files = db.files();
    assert forall|i: int, j: int| 0 <= i < j < out.len() implies (#[trigger] out[i]).path != (
    #[trigger] out[j]).path by {
        assert(out.contains(out[i]) && out.contains(out[j]));
        let k = choose|k: int| 0 <= k < files.len() && files[k] == out[i];
        let l = choose|l: int| 0 <= l < files.len() && files[l] == out[j];
        if out[i].path == out[j].path {
            crate::db::path_is_unique(db, k, l);
            assert(FileOrder::Name.lists_first(out[i], out[j]));
            crate::text::text_order_is_irreflexive(out[i].name);
            crate::text::text_order_is_irreflexive(out[i].path);
        }
    }
}

proof fn hits_have_own_paths(db: Database, query: Seq<char>, out: Seq<FileView>)
    requires
        db.wf(),
        are_name_hits(db.files(), query, out),
    ensures
        own_paths(out),
        forall|i: int| 0 <= i < out.len() ==> db.files().contains(#[trigger] out[i]),
{
    let all = choose|all: Seq<FileView>| #[trigger]
        is_listing(db.files(), named(query), FileOrder::Name, all) && out == at_most(
            all,
            NAME_SEARCH_LIMIT as int,
        );
    listing_has_own_paths(db, named(query), all);
    assert forall|i: int, j: int| 0 <= i < j < out.len() implies (#[trigger] out[i]).path != (
    #[trigger] out[j]).path by {
        assert(all[i] == out[i] && all[j] == out[j]);
    }
    assert forall|i: int| 0 <= i < out.len() implies db.files().contains(#[trigger] out[i]) by {
        assert(all[i] == out[i]);
        assert(all.contains(out[i]));
    }
}

proof fn filter_keeps_own_paths(files: Seq<FileView>, keep: spec_fn(FileView) -> bool)
    requires
        own_paths(files),
    ensures
        own_paths(files.filter(keep)),
    decreases files.len(),
{
    reveal_with_fuel(Seq::filter, 1);
    if files.len() > 0 {
        let front = files.drop_last();
        assert forall|i: int, j: int| 0 <= i < j < front.len() implies (#[trigger] front[i]).path != (
        #[trigger] front[j]).path by {
            assert(files[i].path != files[j].path);
        }
        filter_keeps_own_paths(front, keep);
        let before = front.filter(keep);
        let after = files.filter(keep);
        assert forall|i: int, j: int| 0 <= i < j < after.len() implies (#[trigger] after[i]).path != (
        #[trigger] after[j]).path by {
            assert(after[i] == before[i]);
            if j < before.len() {
                assert(after[j] == before[j]);
            } else {
                assert(before.contains(before[i]));
                front.lemma_filter_contains_rev(keep, before[i]);
                let k = choose|k: int| 0 <= k < front.len() && front[k] == before[i];
                assert(files[k].path != files[files.len() - 1].path);
            }
        }
    }
}

proof fn scored_have_own_paths(
    files: Seq<FileView>,
    readings: Seq<Reading>,
    query: Seq<char>,
    tokens: Seq<Seq<char>>,
    do_content: bool,
    n: int,
)
    requires
        own_paths(files),
        n <= files.len(),
    ensures
        ({
            let all = scored(files, readings, query, tokens, do_content, n);
            &&& forall|a: int|
                0 <= a < all.len() ==> exists|k: int|
                    0 <= k < n && files[k] == (#[trigger] all[a]).file
            &&& forall|a: int, b: int|
                0 <= a < b < all.len() ==> (#[trigger] all[a]).file.path != (#[trigger] all[b]).file.path
        }),
    decreases n,
{
    if n > 0 {
        scored_have_own_paths(files, readings, query, tokens, do_content, n - 1);
        let before = scored(files, readings, query, tokens, do_content, n - 1);
        let all = scored(files, readings, query, tokens, do_content, n);
        assert forall|a: int| 0 <= a < all.len() implies exists|k: int|
            0 <= k < n && files[k] == (#[trigger] all[a]).file by {
            if a < before.len() {
                assert(all[a] == before[a]);
                let k = choose|k: int| 0 <= k < n - 1 && files[k] == before[a].file;
                assert(files[k] == all[a].file);
            } else {
                assert(files[n - 1] == all[a].file);
            }
        }
        assert forall|a: int, b: int| 0 <= a < b < all.len() implies (#[trigger] all[a]).file.path != (
        #[trigger] all[b]).file.path by {
            assert(all[a] == before[a]);
            if b < before.len() {
                assert(all[b] == before[b]);
            } else {
                let k = choose|k: int| 0 <= k < n - 1 && files[k] == before[a].file;
                assert(files[k].path != files[n - 1].path);
            }
        }
    }
}

/// With a lower limit the same search gives the first of the same results.
pub proof fn lower_limit_gives_first_results(
    files: Seq<FileView>,
    readings: Seq<Reading>,
    args: SearchArgs,
    fewer: SearchArgs,
    out: Seq<ResultView>,
    first: Seq<ResultView>,
)
    requires
        are_results(files, readings, args, out),
        are_results(files, readings, fewer, first),
        fewer.query@ == args.query@,
        fewer.content == args.content,
        fewer.sort == args.sort,
        fewer.limit <= args.limit,
    ensures
        first == at_most(out, fewer.limit as int),
{
    let query = trimmed(args.query@);
    if query.len() > 0 {
        let all = scored(files, readings, query, tokens_of(query), args.content, files.len() as int);
        let p = choose|p: Seq<usize>| #[trigger] is_ranking(all, args.sort, p) && out == at_most(
            picked(all, p),
            args.limit as int,
        );
        let q = choose|q: Seq<usize>| #[trigger] is_ranking(all, args.sort, q) && first == at_most(
            picked(all, q),
            fewer.limit as int,
        );
        rankings_agree(all, args.sort, p, q, p.len() as int);
        assert(p.take(p.len() as int) == p && q.take(p.len() as int) == q);
        assert(first == at_most(out, fewer.limit as int));
    }
}

/// A result is not sorted before itself, what is sorted before another is so
/// before all that the other is sorted before, and likewise for what is not.
proof fn ranking_is_strict(sort: SearchSort, a: ResultView, b: ResultView, c: ResultView)
    ensures
        !ranks_before(sort, a, a),
        ranks_before(sort, a, b) && ranks_before(sort, b, c) ==> ranks_before(sort, a, c),
        !ranks_before(sort, a, b) && !ranks_before(sort, b, c) ==> !ranks_before(sort, a, c),
{
    if sort is Name {
        let (x, y, z) = (a.file.name, b.file.name, c.file.name);
        crate::text::text_order_is_irreflexive(x);
        crate::text::text_order_is_total(x, y);
        crate::text::text_order_is_total(y, z);
        if text_before(x, y) && text_before(y, z) {
            crate::text::text_order_is_transitive(x, y, z);
        }
        if !text_before(x, y) && !text_before(y, z) && text_before(x, z) {
            if text_before(y, x) {
                crate::text::text_order_is_transitive(y, x, z);
            }
        }
    }
}

/// Whether the result at `a` comes before the one at `b` in a ranking.
spec fn comes_first(all: Seq<ResultView>, sort: SearchSort, a: int, b: int) -> bool {
    ranks_before(sort, all[a], all[b]) || (!ranks_before(sort, all[b], all[a]) && a < b)
}

pub(crate) proof fn ranking_lists_all(all: Seq<ResultView>, sort: SearchSort, p: Seq<usize>)
    requires
        is_ranking(all, sort, p),
    ensures
        forall|i: int, j: int| 0 <= i < j < p.len() ==> #[trigger] p[i] != #[trigger] p[j],
        forall|a: int| 0 <= a < all.len() ==> #[trigger] lists(p, a),
{
    let q = p.map_values(|x: usize| x as int);
    assert forall|i: int, j: int| 0 <= i < j < p.len() implies #[trigger] p[i] != #[trigger] p[j] by {
        let x = all[p[i] as int];
        ranking_is_strict(sort, x, x, x);
    }
    assert forall|i: int, j: int| 0 <= i < q.len() && 0 <= j < q.len() && i != j implies q[i] != q[j] by {
        if i < j {
            assert(p[i] != p[j]);
        } else {
            assert(p[j] != p[i]);
        }
    }
    q.unique_seq_to_set();
    vstd::set_lib::lemma_int_range(0, all.len() as int);
    let range = vstd::set_lib::set_int_range(0, all.len() as int);
    assert(q.to_set().subset_of(range));
    vstd::set_lib::lemma_subset_equality(q.to_set(), range);
    assert forall|a: int| 0 <= a < all.len() implies #[trigger] lists(p, a) by {
        assert(range.contains(a));
        assert(q.contains(a));
        let i = choose|i: int| 0 <= i < q.len() && q[i] == a;
        assert(p[i] == a);
    }
}

proof fn rankings_agree(all: Seq<ResultView>, sort: SearchSort, p: Seq<usize>, q: Seq<usize>, k: int)
    requires
        is_ranking(all, sort, p),
        is_ranking(all, sort, q),
        0 <= k <= p.len(),
    ensures
        p.take(k) == q.take(k),
    decreases k,
{
    if k > 0 {
        rankings_agree(all, sort, p, q, k - 1);
        ranking_lists_all(all, sort, p);
        ranking_lists_all(all, sort, q);
        let (x, y) = (p[k - 1], q[k - 1]);
        if x != y {
            assert(lists(p, y as int) && lists(q, x as int));
            let i = choose|i: int| 0 <= i < p.len() && #[trigger] p[i] == y as int;
            let j = choose|j: int| 0 <= j < q.len() && #[trigger] q[j] == x as int;
            if i < k - 1 {
                assert(p.take(k - 1)[i] == q.take(k - 1)[i]);
                assert(q[i] != q[k - 1]);
            }
            if j < k - 1 {
                assert(p.take(k - 1)[j] == q.take(k - 1)[j]);
                assert(p[j] != p[k - 1]);
            }
            assert(p[k - 1] as int == x && p[i] as int == y);
            assert(comes_first(all, sort, p[k - 1] as int, p[i] as int));
            assert(comes_first(all, sort, q[k - 1] as int, q[j] as int));
            ranking_is_strict(sort, all[x as int], all[y as int], all[x as int]);
        }
        assert(p.take(k) == p.take(k - 1).push(x));
        assert(q.take(k) == q.take(k - 1).push(y));
    }
}

proof fn scores_are_positive(
    files: Seq<FileView>,
    readings: Seq<Reading>,
    query: Seq<char>,
    tokens: Seq<Seq<char>>,
    do_content: bool,
    n: int,
)
    ensures
        forall|k: int|
            0 <= k < scored(files, readings, query, tokens, do_content, n).len() ==> (
            #[trigger] scored(files, readings, query, tokens, do_content, n)[k]).score > 0,
    decreases n,
{
    if n > 0 {
        scores_are_positive(files, readings, query, tokens, do_content, n - 1);
        let before = scored(files, readings, query, tokens, do_content, n - 1);
        let after = scored(files, readings, query, tokens, do_content, n);
        assert forall|k: int| 0 <= k < after.len() implies (#[trigger] after[k]).score > 0 by {
            if k < before.len() {
                assert(after[k] == before[k]);
            }
        }
    }
}

// ---------------------------------------------------------------------------
// Reports
// ---------------------------------------------------------------------------

/// A score in points, with one digit behind the point.
pub open spec fn points_text(score: nat) -> Seq<char> {
    decimal(score / 2) + if score % 2 == 1 {
        ".5"@
    } else {
        ".0"@
    }
}

/// A score in points, with one digit behind the point.
pub fn score_text(score: u128) -> (r: String)
    ensures
        r@ == points_text(score as nat),
{
    joined(
        wide_decimal_text(score / 2).as_str(),
        if score % 2 == 1 {
            ".5"
        } else {
            ".0"
        },
    )
}

/// The number of bytes of a snippet that are printed.
pub const SNIPPET_SHOWN: usize = 120;

/// The last place at or before `i` where a character of `bytes` begins or the
/// last one ends.
pub open spec fn boundary_below(bytes: Seq<u8>, i: int) -> int
    decreases i,
{
    if i <= 0 {
        0
    } else if is_char_boundary(bytes, i) {
        i
    } else {
        boundary_below(bytes, i - 1)
    }
}

/// What is printed of a snippet: all of it, or its first bytes with an ellipsis
/// behind them. A character that is cut is left out.
pub open spec fn shown_snippet(s: Seq<char>) -> Seq<char> {
    let bytes = encode_utf8(s);
    if bytes.len() > SNIPPET_SHOWN {
        decode_utf8(bytes.subrange(0, boundary_below(bytes, SNIPPET_SHOWN as int))).push('\u{2026}')
    } else {
        s
    }
}

/// What is printed of a snippet.
pub fn shorten_snippet(s: &str) -> (r: String)
    ensures
        r@ == shown_snippet(s@),
{
    let ghost bytes = encode_utf8(s@);
    if s.as_bytes().len() <= SNIPPET_SHOWN {
        return s.to_owned();
    }
    proof {
        is_char_boundary_start_end_of_seq(bytes);
    }
    let mut end: usize = SNIPPET_SHOWN;
    while !s.is_char_boundary(end)
        invariant
            bytes == encode_utf8(s@),
            bytes.len() > SNIPPET_SHOWN,
            end <= SNIPPET_SHOWN,
            is_char_boundary(bytes, 0),
            boundary_below(bytes, SNIPPET_SHOWN as int) == boundary_below(bytes, end as int),
        decreases end,
    {
        end = end - 1;
    }
    let (front, _rest) = s.split_at(end);
    proof {
        assert(encode_utf8(front@) == bytes.subrange(0, end as int));
        encode_utf8_decode_utf8(front@);
    }
    let mut out: String = front.to_owned();
    out.push('\u{2026}');
    out
}

/// What is printed of the `n`th result.
pub open spec fn result_lines(n: nat, r: ResultView) -> Seq<char> {
    decimal(n) + ". "@ + r.file.path + " (score: "@ + points_text(r.score) + ")\n   "@
        + r.file.category.name() + " | "@ + byte_size(r.file.size_bytes, 1) + " | "@ + time_formatted(
        r.file.modified_at,
        "%Y-%m-%d"@,
    ) + "\n"@ + match r.snippet {
        Some(s) => "   \""@ + shown_snippet(s) + "\"\n"@,
        None => Seq::empty(),
    } + "\n"@
}

/// What is printed of all results.
pub open spec fn all_result_lines(results: Seq<ResultView>) -> Seq<char>
    decreases results.len(),
{
    if results.len() == 0 {
        Seq::empty()
    } else {
        all_result_lines(results.drop_last()) + result_lines(results.len(), results.last())
    }
}

/// What is printed of a search.
pub open spec fn printed(results: Seq<ResultView>) -> Seq<char> {
    if results.len() == 0 {
        "No results found.\n"@
    } else {
        "\n"@ + decimal(results.len()) + " result(s):\n\n"@ + all_result_lines(results)
    }
}

fn result_text(n: usize, result: &SearchResult) -> (r: String)
    ensures
        r@ == result_lines(n as nat, result_view(*result)),
{
    let f: &FileRecord = &result.file;
    let mut out: String = joined3(decimal_text(n as u64).as_str(), ". ", f.path.as_str());
    out.append(" (score: ");
    out.append(score_text(result.score).as_str());
    out.append(")\n   ");
    out.append(f.category.to_string().as_str());
    out.append(" | ");
    out.append(fmt_bytes(f.size_bytes).as_str());
    out.append(" | ");
    out.append(format_time(&f.modified_at, "%Y-%m-%d").as_str());
    out.append("\n");
    match &result.snippet {
        Some(s) => {
            let shown: String = joined3("   \"", shorten_snippet(s.as_str()).as_str(), "\"\n");
            out.append(shown.as_str());
        },
        None => {},
    }
    out.append("\n");
    assert(out@ == result_lines(n as nat, result_view(*result)));
    out
}

/// What is printed of a search.
pub fn results_text(results: &Vec<SearchResult>) -> (r: String)
    ensures
        r@ == printed(result_views(results@)),
{
    if results.len() == 0 {
        return "No results found.\n".to_owned();
    }
    let mut out: String = joined3("\n", decimal_text(results.len() as u64).as_str(), " result(s):\n\n");
    let ghost head = out@;
    let ghost all = result_views(results@);
    assert(head + all_result_lines(all.take(0)) == head);
    for i in 0..results.len()
        invariant
            all == result_views(results@),
            out@ == head + all_result_lines(all.take(i as int)),
    {
        proof {
            assert(all.take(i + 1).drop_last() == all.take(i as int));
            assert(all[i as int] == result_view(results@[i as int]));
        }
        out.append(result_text(i + 1, &results[i]).as_str());
        assert(out@ == head + all_result_lines(all.take(i + 1)));
    }
    assert(all.take(all.len() as int) == all);
    out
}

} // verus!
