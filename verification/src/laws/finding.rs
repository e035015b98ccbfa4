//! Searches: what is found, how it is scored, what is shown of it, and in which
//! order.

use vstd::prelude::*;

use vstd::utf8::encode_utf8;

use crate::cli::{category_named, optional_category, SearchArgs, SearchCategory, SearchSort};
use crate::db::{at_most, is_listing, named, Database, FileOrder, NAME_SEARCH_LIMIT};
use crate::folding::{highlighting_adds_asterisks_only, match_position, no_asterisk};
use crate::laws::texts::{end_is_a_part, parts_stay};
use crate::models::{FileCategory, FileView};
use crate::order::{lists, picked};
use crate::search::extractor::snippet_around;
use crate::search::{
    all_result_lines, points_text, printed, result_lines, shown_snippet,
    alphanumeric, are_candidates, are_results, file_score, file_snippet, first_hit, hits,
    is_ranking, long_word, lowercased, own_paths, scored, tokens_of, word_cuts, Reading, ResultView,
};
use crate::sizes::byte_size;
use crate::text::{
    decimal, ascii_folded, cut_pieces, has_text, lowercase, text_before, trimmed,
};
use crate::time::time_formatted;

verus! {

/// Whether a text that was read has a token in it.
pub open spec fn was_read(text: Option<String>, token: Seq<char>) -> bool {
    text matches Some(t) && has_text(lowercase(t@), token)
}

/// Whether a token is in the name or the path of a file, in the metadata of an
/// image or a video, or, where contents are searched, in its contents.
pub open spec fn has_token(f: FileView, token: Seq<char>, content: bool, reading: Reading) -> bool {
    ||| has_text(lowercase(f.name), token)
    ||| has_text(lowercase(f.path), token)
    ||| (f.category is Image || f.category is Video) && was_read(reading.metadata, token)
    ||| content && was_read(reading.content, token)
}

/// Whether a file is what a query is for: the query is in its name, or one of the
/// tokens is in one of its texts.
pub open spec fn is_wanted(
    f: FileView,
    query: Seq<char>,
    tokens: Seq<Seq<char>>,
    content: bool,
    reading: Reading,
) -> bool {
    has_text(lowercase(f.name), lowercase(query)) || exists|t: int|
        0 <= t < tokens.len() && has_token(f, #[trigger] tokens[t], content, reading)
}

/// A search finds a file that it looks at if and only if the query is in its name
/// or a token is in its name, path, metadata or, where contents are searched, in
/// its contents.
pub proof fn search_finds_what_is_wanted(
    files: Seq<FileView>,
    readings: Seq<Reading>,
    args: SearchArgs,
    out: Seq<ResultView>,
    k: int,
)
    requires
        are_results(files, readings, args, out),
        own_paths(files),
        files.len() == readings.len(),
        files.len() <= args.limit,
        trimmed(args.query@).len() > 0,
        0 <= k < files.len(),
    ensures
        ({
            let f = files[k];
            let query = trimmed(args.query@);
            let tokens = tokens_of(query);
            (exists|i: int| 0 <= i < out.len() && #[trigger] out[i].file == f) <==> has_text(
                lowercase(f.name),
                lowercase(query),
            ) || exists|t: int|
                {
                    &&& 0 <= t < tokens.len()
                    &&& {
                        ||| has_text(lowercase(f.name), #[trigger] tokens[t])
                        ||| has_text(lowercase(f.path), tokens[t])
                        ||| (f.category is Image || f.category is Video) && readings[k].metadata is Some
                            && has_text(lowercase(readings[k].metadata->0@), tokens[t])
                        ||| args.content && readings[k].content is Some && has_text(
                            lowercase(readings[k].content->0@),
                            tokens[t],
                        )
                    }
                }
        }),
{
    let query = trimmed(args.query@);
    let tokens = tokens_of(query);
    let n = files.len() as int;
    let all = scored(files, readings, query, tokens, args.content, n);
    let p = choose|p: Seq<usize>| #[trigger] is_ranking(all, args.sort, p) && out == at_most(
        picked(all, p),
        args.limit as int,
    );
    scored_are_files(files, readings, query, tokens, args.content, n);
    assert(out == picked(all, p));
    score_is_positive_for_wanted(files[k], query, tokens, args.content, readings[k]);
    assert forall|t: int| 0 <= t < tokens.len() implies #[trigger] has_token(
        files[k],
        tokens[t],
        args.content,
        readings[k],
    ) == ({
        ||| has_text(lowercase(files[k].name), tokens[t])
        ||| has_text(lowercase(files[k].path), tokens[t])
        ||| (files[k].category is Image || files[k].category is Video) && readings[k].metadata is Some
            && has_text(lowercase(readings[k].metadata->0@), tokens[t])
        ||| args.content && readings[k].content is Some && has_text(
            lowercase(readings[k].content->0@),
            tokens[t],
        )
    }) by {}
    if is_wanted(files[k], query, tokens, args.content, readings[k]) {
        positive_is_scored(files, readings, query, tokens, args.content, n, k);
        let a = choose|a: int| 0 <= a < all.len() && #[trigger] all[a].file == files[k];
        crate::search::ranking_lists_all(all, args.sort, p);
        assert(lists(p, a));
        let i = choose|i: int| 0 <= i < p.len() && #[trigger] p[i] == a;
        assert(out[i].file == files[k]);
    }
    if exists|i: int| 0 <= i < out.len() && #[trigger] out[i].file == files[k] {
        let i = choose|i: int| 0 <= i < out.len() && #[trigger] out[i].file == files[k];
        let a = p[i] as int;
        assert(out[i] == all[a]);
        let l = choose|l: int|
            0 <= l < n && all[a].file == #[trigger] files[l] && all[a].score == file_score(
                files[l],
                query,
                tokens,
                args.content,
                readings[l],
            ) && all[a].score > 0;
        if l < k {
            assert(files[l].path != files[k].path);
        } else if k < l {
            assert(files[k].path != files[l].path);
        }
    }
}

/// The number of tokens that are in a text.
pub open spec fn tokens_in(text: Seq<char>, tokens: Seq<Seq<char>>) -> nat {
    tokens.filter(|t: Seq<char>| has_text(text, t)).len()
}

/// The number of tokens that are in a text that was read.
pub open spec fn tokens_read(text: Option<String>, tokens: Seq<Seq<char>>) -> nat {
    match text {
        Some(t) => tokens_in(lowercase(t@), tokens),
        None => 0,
    }
}

/// Every result is one of the files that the search looked at. The query in its
/// name counts ten points, a token there four, in its path one and a half, in the
/// metadata of an image or a video two, and in contents that are searched three.
#[verifier::rlimit(40)]
pub proof fn results_are_scored_by_matches(
    files: Seq<FileView>,
    readings: Seq<Reading>,
    args: SearchArgs,
    out: Seq<ResultView>,
    i: int,
)
    requires
        are_results(files, readings, args, out),
        0 <= i < out.len(),
    ensures
        exists|k: int|
            {
                let f = files[k];
                let query = trimmed(args.query@);
                let tokens = tokens_of(query);
                &&& 0 <= k < files.len()
                &&& out[i].file == #[trigger] files[k]
                &&& out[i].score == (if has_text(lowercase(f.name), lowercase(query)) {
                    20nat
                } else {
                    0
                }) + 8 * tokens_in(lowercase(f.name), tokens) + 3 * tokens_in(lowercase(f.path), tokens) + (
                if f.category is Image || f.category is Video {
                    4 * tokens_read(readings[k].metadata, tokens)
                } else {
                    0
                }) + (if args.content {
                    6 * tokens_read(readings[k].content, tokens)
                } else {
                    0
                })
                &&& out[i].snippet is Some <==> args.content && exists|t: int|
                    0 <= t < tokens.len() && was_read(readings[k].content, #[trigger] tokens[t])
            },
{
    let query = trimmed(args.query@);
    let tokens = tokens_of(query);
    let n = files.len() as int;
    let all = scored(files, readings, query, tokens, args.content, n);
    let p = choose|p: Seq<usize>| #[trigger] is_ranking(all, args.sort, p) && out == at_most(
        picked(all, p),
        args.limit as int,
    );
    scored_are_files(files, readings, query, tokens, args.content, n);
    let a = p[i] as int;
    assert(out[i] == all[a]);
    let k = choose|k: int|
        0 <= k < n && all[a].file == #[trigger] files[k] && all[a].score == file_score(
            files[k],
            query,
            tokens,
            args.content,
            readings[k],
        ) && all[a].snippet == file_snippet(tokens, args.content, readings[k]) && all[a].score > 0;
    let f = files[k];
    hits_are_counted(lowercase(f.name), tokens);
    hits_are_counted(lowercase(f.path), tokens);
    if readings[k].metadata is Some {
        hits_are_counted(lowercase(readings[k].metadata->0@), tokens);
    }
    if readings[k].content is Some {
        let text = lowercase(readings[k].content->0@);
        hits_are_counted(text, tokens);
        hit_is_found(text, tokens);
        assert forall|t: int| 0 <= t < tokens.len() implies (has_text(text, #[trigger] tokens[t])
            <==> was_read(readings[k].content, tokens[t])) by {}
    }
    assert(out[i].file == files[k]);
}

/// The best match, the newest or the largest file, or the first name comes first.
pub proof fn results_are_in_order(
    files: Seq<FileView>,
    readings: Seq<Reading>,
    args: SearchArgs,
    out: Seq<ResultView>,
    i: int,
    j: int,
)
    requires
        are_results(files, readings, args, out),
        0 <= i < j < out.len(),
    ensures
        ({
            let (a, b) = (out[i].file, out[j].file);
            match args.sort {
                SearchSort::Relevance => out[i].score >= out[j].score,
                SearchSort::Newest => a.modified_at.0 > b.modified_at.0 || (a.modified_at.0
                    == b.modified_at.0 && a.modified_at.1 >= b.modified_at.1),
                SearchSort::Largest => a.size_bytes >= b.size_bytes,
                SearchSort::Name => text_before(a.name, b.name) || a.name == b.name,
            }
        }),
{
    crate::search::results_are_sorted(files, readings, args, out, i, j);
    crate::text::text_order_is_total(out[i].file.name, out[j].file.name);
}

/// A search for white space finds nothing. Any other gives no more results than
/// are asked for: all that match, or the first of them.
pub proof fn limit_keeps_the_first_results(
    files: Seq<FileView>,
    readings: Seq<Reading>,
    args: SearchArgs,
    unlimited: SearchArgs,
    out: Seq<ResultView>,
    all: Seq<ResultView>,
)
    requires
        are_results(files, readings, args, out),
        are_results(files, readings, unlimited, all),
        unlimited.query@ == args.query@,
        unlimited.content == args.content,
        unlimited.sort == args.sort,
        unlimited.limit >= args.limit,
    ensures
        trimmed(args.query@).len() == 0 ==> out.len() == 0,
        out.len() <= args.limit,
        out.is_prefix_of(all),
        out.len() < args.limit ==> out == all,
{
    crate::search::lower_limit_gives_first_results(files, readings, unlimited, args, all, out);
}

/// A search that is not restricted looks at files that are there and have the
/// query in their name or path, whatever the case of its letters, and at all of
/// them where there are few enough.
pub proof fn search_looks_at_names_and_paths(
    files: Seq<FileView>,
    query: Seq<char>,
    out: Seq<FileView>,
    f: FileView,
)
    requires
        are_candidates(files, query, None, out),
    ensures
        out.contains(f) ==> files.contains(f) && f.is_present && (has_text(
            ascii_folded(f.name),
            ascii_folded(query),
        ) || has_text(ascii_folded(f.path), ascii_folded(query))),
        out.len() < 500 && files.contains(f) && f.is_present && (has_text(
            ascii_folded(f.name),
            ascii_folded(query),
        ) || has_text(ascii_folded(f.path), ascii_folded(query))) ==> out.contains(f),
        out.len() <= 500,
{
    let all = choose|all: Seq<FileView>| #[trigger]
        is_listing(files, named(query), FileOrder::Name, all) && out == at_most(
            all,
            NAME_SEARCH_LIMIT as int,
        );
    if out.contains(f) {
        let i = choose|i: int| 0 <= i < out.len() && out[i] == f;
        assert(all[i] == f);
        assert(all.contains(f));
        assert(named(query)(f));
    }
    if files.contains(f) && named(query)(f) {
        assert(all.contains(f));
    }
}

/// A search that is restricted to a category looks at all files of the category
/// that are there, and at no others.
pub proof fn search_looks_at_the_category(
    db: Database,
    query: Seq<char>,
    category: FileCategory,
    out: Seq<FileView>,
    f: FileView,
)
    requires
        db.wf(),
        are_candidates(db.files(), query, Some(category), out),
    ensures
        out.contains(f) <==> db.files().contains(f) && f.is_present && f.category == category,
{
    crate::search::category_restricts_search(db, query, category, out, f);
}

/// A file whose contents have a token in them is found by a search of the contents
/// of its category, by whatever name, and a part of its contents is shown.
#[verifier::rlimit(40)]
pub proof fn contents_are_searched(
    db: Database,
    args: SearchArgs,
    files: Seq<FileView>,
    readings: Seq<Reading>,
    out: Seq<ResultView>,
    f: FileView,
    k: int,
    t: int,
)
    requires
        db.wf(),
        db.files().contains(f),
        f.is_present,
        are_candidates(db.files(), trimmed(args.query@), Some(f.category), files),
        are_results(files, readings, args, out),
        files.len() == readings.len(),
        files.len() <= args.limit,
        args.content,
        trimmed(args.query@).len() > 0,
        0 <= k < files.len(),
        files[k] == f,
        0 <= t < tokens_of(trimmed(args.query@)).len(),
        readings[k].content is Some,
        has_text(lowercase(readings[k].content->0@), tokens_of(trimmed(args.query@))[t]),
    ensures
        exists|i: int|
            0 <= i < out.len() && #[trigger] out[i].file == f && out[i].score >= 6 && out[i].snippet is Some,
{
    let query = trimmed(args.query@);
    let tokens = tokens_of(query);
    crate::search::candidates_have_own_paths(db, query, Some(f.category), files);
    assert(has_token(f, tokens[t], true, readings[k]));
    search_finds_what_is_wanted(files, readings, args, out, k);
    let i = choose|i: int| 0 <= i < out.len() && #[trigger] out[i].file == files[k];
    results_are_scored_by_matches(files, readings, args, out, i);
    let l = choose|l: int|
        0 <= l < files.len() && out[i].file == #[trigger] files[l] && out[i].score >= 6 * tokens_read(
            readings[l].content,
            tokens,
        ) && (out[i].snippet is Some <==> args.content && exists|u: int|
            0 <= u < tokens.len() && was_read(readings[l].content, #[trigger] tokens[u]));
    if l < k {
        assert(files[l].path != files[k].path);
    } else if k < l {
        assert(files[k].path != files[l].path);
    }
    let in_contents = |u: Seq<char>| has_text(lowercase(readings[k].content->0@), u);
    assert(in_contents(tokens[t]));
    broadcast use vstd::seq_lib::group_filter_ensures;

    assert(tokens.filter(in_contents).contains(tokens[t]));
}

/// A word of two or more letters and digits is one token, in lowercase. Together
/// with what holds of texts with a separator between them, this fixes the tokens
/// of every query.
pub proof fn word_is_a_token(word: Seq<char>)
    requires
        forall|i: int| 0 <= i < word.len() ==> alphanumeric(#[trigger] word[i]),
    ensures
        tokens_of(word) == if lowercase(word).len() >= 2 {
            seq![lowercase(word)]
        } else {
            Seq::empty()
        },
{
    uncut_is_whole(word, word_cuts(word));
    assert(cut_pieces(word, word_cuts(word)) == seq![word]);
    assert(lowercased(seq![word]) == seq![lowercase(word)]);
    let one = seq![lowercase(word)];
    assert(one.drop_last() == Seq::<Seq<char>>::empty());
    assert(one.last() == lowercase(word));
    reveal_with_fuel(Seq::filter, 2);
    if long_word()(lowercase(word)) {
        assert(one.filter(long_word()) == one);
    }
}

proof fn uncut_is_whole(s: Seq<char>, cut: Seq<bool>)
    requires
        s.len() == cut.len(),
        forall|i: int| 0 <= i < cut.len() ==> !#[trigger] cut[i],
    ensures
        cut_pieces(s, cut) == seq![s],
    decreases s.len(),
{
    if s.len() == 0 {
        assert(s == Seq::<char>::empty());
    } else {
        uncut_is_whole(s.drop_last(), cut.drop_last());
        assert(s.drop_last().push(s.last()) == s);
        assert(cut_pieces(s, cut) == seq![s]);
    }
}

proof fn hits_are_counted(text: Seq<char>, tokens: Seq<Seq<char>>)
    ensures
        hits(text, tokens) == tokens_in(text, tokens),
    decreases tokens.len(),
{
    reveal_with_fuel(Seq::filter, 1);
    if tokens.len() > 0 {
        hits_are_counted(text, tokens.drop_last());
    }
}

proof fn hits_are_there(text: Seq<char>, tokens: Seq<Seq<char>>)
    ensures
        hits(text, tokens) > 0 <==> exists|t: int|
            0 <= t < tokens.len() && has_text(text, #[trigger] tokens[t]),
    decreases tokens.len(),
{
    if tokens.len() > 0 {
        let front = tokens.drop_last();
        hits_are_there(text, front);
        if hits(text, front) > 0 {
            let t = choose|t: int| 0 <= t < front.len() && has_text(text, #[trigger] front[t]);
            assert(has_text(text, tokens[t]));
        } else {
            if has_text(text, tokens.last()) {
                assert(has_text(text, tokens[tokens.len() - 1]));
            }
            assert forall|t: int| 0 <= t < tokens.len() - 1 implies !has_text(text, #[trigger] tokens[t]) by {
                assert(front[t] == tokens[t]);
            }
        }
    }
}

proof fn hit_is_found(text: Seq<char>, tokens: Seq<Seq<char>>)
    ensures
        first_hit(text, tokens) is Some <==> exists|t: int|
            0 <= t < tokens.len() && has_text(text, #[trigger] tokens[t]),
    decreases tokens.len(),
{
    if tokens.len() > 0 {
        let front = tokens.drop_last();
        hit_is_found(text, front);
        if first_hit(text, front) is Some {
            let t = choose|t: int| 0 <= t < front.len() && has_text(text, #[trigger] front[t]);
            assert(has_text(text, tokens[t]));
        } else {
            if has_text(text, tokens.last()) {
                assert(has_text(text, tokens[tokens.len() - 1]));
            }
            assert forall|t: int| 0 <= t < tokens.len() - 1 implies !has_text(text, #[trigger] tokens[t]) by {
                assert(front[t] == tokens[t]);
            }
        }
    }
}

proof fn score_is_positive_for_wanted(
    f: FileView,
    query: Seq<char>,
    tokens: Seq<Seq<char>>,
    content: bool,
    reading: Reading,
)
    ensures
        file_score(f, query, tokens, content, reading) > 0 <==> is_wanted(f, query, tokens, content, reading),
{
    let (name, path) = (lowercase(f.name), lowercase(f.path));
    hits_are_there(name, tokens);
    hits_are_there(path, tokens);
    if reading.metadata is Some {
        hits_are_there(lowercase(reading.metadata->0@), tokens);
    }
    if reading.content is Some {
        hits_are_there(lowercase(reading.content->0@), tokens);
    }
    let score = file_score(f, query, tokens, content, reading);
    if is_wanted(f, query, tokens, content, reading) && !has_text(name, lowercase(query)) {
        let t = choose|t: int| 0 <= t < tokens.len() && has_token(f, #[trigger] tokens[t], content, reading);
        assert(score > 0);
    }
    if score > 0 && !has_text(name, lowercase(query)) {
        if hits(name, tokens) > 0 {
            let t = choose|t: int| 0 <= t < tokens.len() && has_text(name, #[trigger] tokens[t]);
            assert(has_token(f, tokens[t], content, reading));
        } else if hits(path, tokens) > 0 {
            let t = choose|t: int| 0 <= t < tokens.len() && has_text(path, #[trigger] tokens[t]);
            assert(has_token(f, tokens[t], content, reading));
        } else if (f.category is Image || f.category is Video) && reading.metadata is Some && hits(
            lowercase(reading.metadata->0@),
            tokens,
        ) > 0 {
            let text = lowercase(reading.metadata->0@);
            let t = choose|t: int| 0 <= t < tokens.len() && has_text(text, #[trigger] tokens[t]);
            assert(has_token(f, tokens[t], content, reading));
        } else {
            let text = lowercase(reading.content->0@);
            let t = choose|t: int| 0 <= t < tokens.len() && has_text(text, #[trigger] tokens[t]);
            assert(has_token(f, tokens[t], content, reading));
        }
    }
}

proof fn scored_are_files(
    files: Seq<FileView>,
    readings: Seq<Reading>,
    query: Seq<char>,
    tokens: Seq<Seq<char>>,
    content: bool,
    n: int,
)
    requires
        0 <= n <= files.len(),
    ensures
        scored(files, readings, query, tokens, content, n).len() <= n,
        forall|a: int|
            0 <= a < scored(files, readings, query, tokens, content, n).len() ==> exists|k: int|
                {
                    let r = #[trigger] scored(files, readings, query, tokens, content, n)[a];
                    0 <= k < n && r.file == #[trigger] files[k] && r.score == file_score(
                        files[k],
                        query,
                        tokens,
                        content,
                        readings[k],
                    ) && r.snippet == file_snippet(tokens, content, readings[k]) && r.score > 0
                },
    decreases n,
{
    if n > 0 {
        scored_are_files(files, readings, query, tokens, content, n - 1);
        let before = scored(files, readings, query, tokens, content, n - 1);
        let all = scored(files, readings, query, tokens, content, n);
        assert forall|a: int| 0 <= a < all.len() implies exists|k: int|
            {
                let r = #[trigger] all[a];
                0 <= k < n && r.file == #[trigger] files[k] && r.score == file_score(
                    files[k],
                    query,
                    tokens,
                    content,
                    readings[k],
                ) && r.snippet == file_snippet(tokens, content, readings[k]) && r.score > 0
            } by {
            if a < before.len() {
                assert(all[a] == before[a]);
            } else {
                assert(all[a].file == files[n - 1]);
            }
        }
    }
}

proof fn positive_is_scored(
    files: Seq<FileView>,
    readings: Seq<Reading>,
    query: Seq<char>,
    tokens: Seq<Seq<char>>,
    content: bool,
    n: int,
    k: int,
)
    requires
        0 <= k < n,
        file_score(files[k], query, tokens, content, readings[k]) > 0,
    ensures
        exists|a: int|
            0 <= a < scored(files, readings, query, tokens, content, n).len() && #[trigger] scored(
                files,
                readings,
                query,
                tokens,
                content,
                n,
            )[a].file == files[k],
    decreases n,
{
    let before = scored(files, readings, query, tokens, content, n - 1);
    let all = scored(files, readings, query, tokens, content, n);
    if k < n - 1 {
        positive_is_scored(files, readings, query, tokens, content, n - 1, k);
        let a = choose|a: int| 0 <= a < before.len() && #[trigger] before[a].file == files[k];
        assert(all[a].file == files[k]);
    } else {
        assert(all[before.len() as int].file == files[k]);
    }
}

/// What is shown of a result is a part of its contents around the first place of
/// the first token that is in them, but for asterisks.
#[verifier::rlimit(40)]
pub proof fn snippet_is_around_the_first_token(
    files: Seq<FileView>,
    readings: Seq<Reading>,
    args: SearchArgs,
    out: Seq<ResultView>,
    i: int,
)
    requires
        are_results(files, readings, args, out),
        0 <= i < out.len(),
        out[i].snippet is Some,
    ensures
        exists|k: int, t: int|
            {
                let tokens = tokens_of(trimmed(args.query@));
                let text = readings[k].content->0@;
                let place = snippet_around(text, match_position(text, tokens[t]), 200);
                &&& 0 <= k < files.len()
                &&& out[i].file == #[trigger] files[k]
                &&& readings[k].content is Some
                &&& 0 <= t < tokens.len()
                &&& has_text(lowercase(text), #[trigger] tokens_of(trimmed(args.query@))[t])
                &&& forall|u: int| 0 <= u < t ==> !has_text(lowercase(text), #[trigger] tokens[u])
                &&& out[i].snippet->0.filter(|c: char| c != '*') == place.filter(|c: char| c != '*')
            },
{
    let query = trimmed(args.query@);
    let tokens = tokens_of(query);
    let n = files.len() as int;
    let all = scored(files, readings, query, tokens, args.content, n);
    let p = choose|p: Seq<usize>| #[trigger] is_ranking(all, args.sort, p) && out == at_most(
        picked(all, p),
        args.limit as int,
    );
    scored_are_files(files, readings, query, tokens, args.content, n);
    let a = p[i] as int;
    assert(out[i] == all[a]);
    let k = choose|k: int|
        0 <= k < n && all[a].file == #[trigger] files[k] && all[a].snippet == file_snippet(
            tokens,
            args.content,
            readings[k],
        );
    let text = readings[k].content->0@;
    let t = first_hit(lowercase(text), tokens)->0;
    first_hit_is_first(lowercase(text), tokens);
    let place = snippet_around(text, match_position(text, tokens[t]), 200);
    highlighting_adds_asterisks_only(place, tokens);
    assert(no_asterisk() =~= |c: char| c != '*');
    assert(out[i].file == files[k]);
    assert(has_text(lowercase(text), tokens_of(trimmed(args.query@))[t]));
}

proof fn first_hit_is_first(text: Seq<char>, tokens: Seq<Seq<char>>)
    ensures
        first_hit(text, tokens) matches Some(t) ==> 0 <= t < tokens.len() && has_text(text, tokens[t])
            && forall|u: int| 0 <= u < t ==> !has_text(text, #[trigger] tokens[u]),
    decreases tokens.len(),
{
    if tokens.len() > 0 {
        let front = tokens.drop_last();
        first_hit_is_first(text, front);
        if first_hit(text, front) is Some {
            let t = first_hit(text, front)->0;
            assert forall|u: int| 0 <= u < t implies !has_text(text, #[trigger] tokens[u]) by {
                assert(front[u] == tokens[u]);
            }
        } else {
            hit_is_found(text, front);
            assert forall|u: int| 0 <= u < tokens.len() - 1 implies !has_text(text, #[trigger] tokens[u]) by {
                assert(front[u] == tokens[u]);
            }
        }
    }
}

/// Where more files have the query in their name or path than are looked at, those
/// are looked at whose names come first.
pub proof fn first_names_are_looked_at(files: Seq<FileView>, query: Seq<char>, out: Seq<FileView>, f: FileView, i: int)
    requires
        are_candidates(files, query, None, out),
        files.contains(f),
        f.is_present,
        has_text(ascii_folded(f.name), ascii_folded(query)) || has_text(
            ascii_folded(f.path),
            ascii_folded(query),
        ),
        !out.contains(f),
        0 <= i < out.len(),
    ensures
        text_before(out[i].name, f.name) || out[i].name == f.name,
{
    let all = choose|all: Seq<FileView>| #[trigger]
        is_listing(files, named(query), FileOrder::Name, all) && out == at_most(
            all,
            NAME_SEARCH_LIMIT as int,
        );
    assert(named(query)(f));
    assert(all.contains(f));
    let k = choose|k: int| 0 <= k < all.len() && all[k] == f;
    if k < out.len() {
        assert(out[k] == f);
    }
    assert(out[i] == all[i]);
    assert(FileOrder::Name.lists_first(all[i], all[k]));
}

/// The results are printed one by one, each with the path of its file, and with
/// what is shown of its contents where that is short enough.
pub proof fn every_result_is_printed(results: Seq<ResultView>, i: int)
    requires
        0 <= i < results.len(),
    ensures
        has_text(printed(results), results[i].file.path),
        results[i].snippet matches Some(s) ==> encode_utf8(s).len() <= 120 ==> has_text(printed(results), s),
{
    let head = "\n"@ + decimal(results.len()) + " result(s):\n\n"@;
    lines_show_results(results, i);
    end_is_a_part(head, all_result_lines(results));
}

proof fn lines_show_results(results: Seq<ResultView>, i: int)
    requires
        0 <= i < results.len(),
    ensures
        has_text(all_result_lines(results), results[i].file.path),
        results[i].snippet matches Some(s) ==> encode_utf8(s).len() <= 120 ==> has_text(
            all_result_lines(results),
            s,
        ),
    decreases results.len(),
{
    let before = all_result_lines(results.drop_last());
    let last = result_lines(results.len(), results.last());
    parts_stay(before, last);
    if i < results.len() - 1 {
        assert(results.drop_last()[i] == results[i]);
        lines_show_results(results.drop_last(), i);
    } else {
        line_shows_result(results.len(), results[i]);
        end_is_a_part(before, last);
    }
}

#[verifier::rlimit(40)]
proof fn line_shows_result(n: nat, r: ResultView)
    ensures
        has_text(result_lines(n, r), r.file.path),
        r.snippet matches Some(s) ==> encode_utf8(s).len() <= 120 ==> has_text(result_lines(n, r), s),
{
    let f = r.file;
    let quote = "   \""@;
    let tail = match r.snippet {
        Some(s) => quote + shown_snippet(s) + "\"\n"@,
        None => Seq::empty(),
    };
    let start = decimal(n) + ". "@;
    let x0 = start + f.path;
    end_is_a_part(start, f.path);
    let x1 = x0 + " (score: "@;
    parts_stay(x0, " (score: "@);
    let x2 = x1 + points_text(r.score);
    parts_stay(x1, points_text(r.score));
    let x3 = x2 + ")\n   "@;
    parts_stay(x2, ")\n   "@);
    let x4 = x3 + f.category.name();
    parts_stay(x3, f.category.name());
    let x5 = x4 + " | "@;
    parts_stay(x4, " | "@);
    let x6 = x5 + byte_size(f.size_bytes, 1);
    parts_stay(x5, byte_size(f.size_bytes, 1));
    let x7 = x6 + " | "@;
    parts_stay(x6, " | "@);
    let x8 = x7 + time_formatted(f.modified_at, "%Y-%m-%d"@);
    parts_stay(x7, time_formatted(f.modified_at, "%Y-%m-%d"@));
    let x9 = x8 + "\n"@;
    parts_stay(x8, "\n"@);
    let x10 = x9 + tail;
    parts_stay(x9, tail);
    end_is_a_part(x9, tail);
    let x11 = x10 + "\n"@;
    parts_stay(x10, "\n"@);
    assert(result_lines(n, r) == x11);
    if r.snippet is Some && encode_utf8(r.snippet->0).len() <= 120 {
        let s = r.snippet->0;
        end_is_a_part(quote, s);
        parts_stay(quote + s, "\"\n"@);
    }
}

/// The categories that a search can be restricted to are those of files.
pub proof fn search_categories_are_file_categories(c: SearchCategory)
    ensures
        c is Image <==> category_named(c) is Image,
        c is Video <==> category_named(c) is Video,
        c is Audio <==> category_named(c) is Audio,
        c is Document <==> category_named(c) is Document,
        c is Archive <==> category_named(c) is Archive,
        c is Code <==> category_named(c) is Code,
        c is Other <==> category_named(c) is Other,
        optional_category(Some(c)) == Some(category_named(c)),
        optional_category(None) is None,
{
}

/// A score is printed in points: two half points are one.
pub proof fn half_points_are_printed(n: nat)
    ensures
        points_text(2 * n) == decimal(n) + ".0"@,
        points_text(2 * n + 1) == decimal(n) + ".5"@,
{
    assert((2 * n) / 2 == n && (2 * n) % 2 == 0);
    assert((2 * n + 1) / 2 == n && (2 * n + 1) % 2 == 1);
}

/// Results that tie stay in the order of the files that were looked at.
pub proof fn ties_stay_in_order(
    files: Seq<FileView>,
    readings: Seq<Reading>,
    args: SearchArgs,
    out: Seq<ResultView>,
    i: int,
    j: int,
    k: int,
    l: int,
)
    requires
        are_results(files, readings, args, out),
        own_paths(files),
        0 <= i < j < out.len(),
        0 <= k < files.len(),
        0 <= l < files.len(),
        out[i].file == files[k],
        out[j].file == files[l],
        match args.sort {
            SearchSort::Relevance => out[i].score == out[j].score,
            SearchSort::Newest => files[k].modified_at == files[l].modified_at,
            SearchSort::Largest => files[k].size_bytes == files[l].size_bytes,
            SearchSort::Name => files[k].name == files[l].name,
        },
    ensures
        k < l,
{
    let query = trimmed(args.query@);
    let tokens = tokens_of(query);
    let n = files.len() as int;
    let all = scored(files, readings, query, tokens, args.content, n);
    let p = choose|p: Seq<usize>| #[trigger] is_ranking(all, args.sort, p) && out == at_most(
        picked(all, p),
        args.limit as int,
    );
    let (a, b) = (p[i] as int, p[j] as int);
    assert(out[i] == all[a] && out[j] == all[b]);
    crate::text::text_order_is_irreflexive(files[k].name);
    assert(a < b);
    scored_keep_the_order(files, readings, query, tokens, args.content, n, a, b);
    let (x, y) = choose|x: int, y: int|
        0 <= x < y < n && all[a].file == #[trigger] files[x] && all[b].file == #[trigger] files[y];
    same_path_same_place(files, x, k);
    same_path_same_place(files, y, l);
}

proof fn same_path_same_place(files: Seq<FileView>, x: int, y: int)
    requires
        own_paths(files),
        0 <= x < files.len(),
        0 <= y < files.len(),
        files[x] == files[y],
    ensures
        x == y,
{
    if x < y {
        assert(files[x].path != files[y].path);
    } else if y < x {
        assert(files[y].path != files[x].path);
    }
}

proof fn scored_keep_the_order(
    files: Seq<FileView>,
    readings: Seq<Reading>,
    query: Seq<char>,
    tokens: Seq<Seq<char>>,
    content: bool,
    n: int,
    a: int,
    b: int,
)
    requires
        0 <= n <= files.len(),
        0 <= a < b < scored(files, readings, query, tokens, content, n).len(),
    ensures
        ({
            let all = scored(files, readings, query, tokens, content, n);
            exists|x: int, y: int|
                0 <= x < y < n && all[a].file == #[trigger] files[x] && all[b].file == #[trigger] files[y]
        }),
    decreases n,
{
    let all = scored(files, readings, query, tokens, content, n);
    let before = scored(files, readings, query, tokens, content, n - 1);
    if b < before.len() {
        scored_keep_the_order(files, readings, query, tokens, content, n - 1, a, b);
        let (x, y) = choose|x: int, y: int|
            0 <= x < y < n - 1 && before[a].file == #[trigger] files[x] && before[b].file
                == #[trigger] files[y];
        assert(all[a].file == files[x] && all[b].file == files[y]);
    } else {
        scored_are_files(files, readings, query, tokens, content, n - 1);
        let x = choose|x: int| 0 <= x < n - 1 && before[a].file == #[trigger] files[x];
        assert(all[a].file == files[x] && all[b].file == files[n - 1]);
    }
}

} // verus!
