//! Matching texts in either case.

use vstd::prelude::*;
use vstd::string::*;

use crate::text::{
    ascii_folded, ascii_lower, chars_of, first_at, is_ascii_text, occurs_at, stands_at, text_between,
    texts,
};

verus! {

// ---------------------------------------------------------------------------
// Folding
// ---------------------------------------------------------------------------

/// What `char::to_lowercase` yields for a character.
pub uninterp spec fn char_lowercase(c: char) -> Seq<char>;

/// `char::to_lowercase`: the lowercase of a character, which is one character or
/// more. That of an ASCII character is its ASCII lowercase.
#[verifier::external_body]
fn lower_char(c: char) -> (r: String)
    ensures
        r@ == char_lowercase(c),
        r@.len() >= 1,
        (c as u32) < 128 ==> r@ == seq![ascii_lower(c)],
{
    c.to_lowercase().to_string()
}

/// What a character is compared as: its lowercase, where the sigma at the end of
/// a word counts as any other sigma.
pub open spec fn fold_char(c: char) -> Seq<char> {
    if c == '\u{3c2}' {
        seq!['\u{3c3}']
    } else {
        char_lowercase(c)
    }
}

/// What a text is compared as, character by character.
pub open spec fn folded(s: Seq<char>) -> Seq<char>
    decreases s.len(),
{
    if s.len() == 0 {
        Seq::empty()
    } else {
        folded(s.drop_last()) + fold_char(s.last())
    }
}

/// What a character is compared as.
fn fold(c: char) -> (r: Vec<char>)
    ensures
        r@ == fold_char(c),
        r@.len() >= 1,
        (c as u32) < 128 ==> r@ == seq![ascii_lower(c)],
{
    if c == '\u{3c2}' {
        vec!['\u{3c3}']
    } else {
        chars_of(lower_char(c).as_str())
    }
}

/// What a text is compared as. An ASCII text is compared as its ASCII lowercase.
pub fn fold_text(s: &str) -> (r: Vec<char>)
    ensures
        r@ == folded(s@),
        is_ascii_text(s@) ==> r@ == ascii_folded(s@),
{
    let v: Vec<char> = chars_of(s);
    let mut out: Vec<char> = Vec::new();
    for i in 0..v.len()
        invariant
            v@ == s@,
            out@ == folded(s@.take(i as int)),
            is_ascii_text(s@) ==> out@ == ascii_folded(s@).take(i as int),
    {
        let mut f: Vec<char> = fold(v[i]);
        proof {
            let ghost before = s@.take(i as int);
            assert(s@.take(i + 1).drop_last() == before);
            if is_ascii_text(s@) {
                assert((s@[i as int] as u32) < 128);
                assert(ascii_folded(s@).take(i + 1) == ascii_folded(s@).take(i as int) + seq![
                    ascii_lower(s@[i as int]),
                ]);
            }
        }
        out.append(&mut f);
    }
    assert(s@.take(s@.len() as int) == s@);
    assert(ascii_folded(s@).take(s@.len() as int) == ascii_folded(s@));
    out
}

/// Folding goes character by character.
pub proof fn folding_distributes(a: Seq<char>, b: Seq<char>)
    ensures
        folded(a + b) == folded(a) + folded(b),
    decreases b.len(),
{
    if b.len() == 0 {
        assert(a + b == a);
    } else {
        assert((a + b).drop_last() == a + b.drop_last());
        folding_distributes(a, b.drop_last());
    }
}

// ---------------------------------------------------------------------------
// Matches
// ---------------------------------------------------------------------------

/// One more match of `k` characters in front of another.
pub open spec fn lengthened(k: nat, rest: Option<nat>) -> Option<nat> {
    match rest {
        Some(n) => Some(k + n),
        None => None,
    }
}

/// How many characters at the start of `s` are compared as the folded text `f`, if
/// some are.
pub open spec fn match_len(s: Seq<char>, f: Seq<char>) -> Option<nat>
    decreases s.len(),
{
    if f.len() == 0 {
        Some(0)
    } else if s.len() == 0 {
        None
    } else {
        let c = fold_char(s[0]);
        if c.is_prefix_of(f) {
            lengthened(1, match_len(s.drop_first(), f.skip(c.len() as int)))
        } else {
            None
        }
    }
}

/// The characters of a match are compared as the text that they match.
pub proof fn match_folds_alike(s: Seq<char>, f: Seq<char>)
    ensures
        match_len(s, f) matches Some(n) ==> n <= s.len() && folded(s.take(n as int)) == f,
    decreases s.len(),
{
    if f.len() == 0 {
        assert(folded(s.take(0)) == f);
    } else if s.len() > 0 {
        let c = fold_char(s[0]);
        if c.is_prefix_of(f) {
            let rest = s.drop_first();
            match_folds_alike(rest, f.skip(c.len() as int));
            match match_len(rest, f.skip(c.len() as int)) {
                Some(n) => {
                    assert(s.take(n as int + 1) == seq![s[0]] + rest.take(n as int));
                    folding_distributes(seq![s[0]], rest.take(n as int));
                    reveal_with_fuel(folded, 2);
                    assert(seq![s[0]].drop_last() == Seq::<char>::empty());
                    assert(Seq::<char>::empty() + c == c);
                    assert(c + f.skip(c.len() as int) == f);
                },
                None => {},
            }
        }
    }
}

/// How many characters of `s` from `from` on are compared as the folded text `f`,
/// if some are.
fn match_at(s: &[char], from: usize, f: &[char]) -> (r: Option<usize>)
    requires
        from <= s@.len(),
    ensures
        match r {
            Some(n) => match_len(s@.skip(from as int), f@) == Some(n as nat) && from + n <= s@.len(),
            None => match_len(s@.skip(from as int), f@) is None,
        },
        is_ascii_text(s@) ==> (r is Some <==> occurs_at(ascii_folded(s@), f@, from as int)),
{
    let mut k: usize = 0;
    let mut p: usize = 0;
    assert(s@.skip(from as int).skip(0) == s@.skip(from as int));
    assert(f@.skip(0) == f@);
    while p < f.len()
        invariant
            from + k <= s@.len(),
            p <= f@.len(),
            match_len(s@.skip(from as int), f@) == lengthened(
                k as nat,
                match_len(s@.skip(from + k), f@.skip(p as int)),
            ),
            is_ascii_text(s@) ==> p == k && forall|j: int|
                from <= j < from + k ==> #[trigger] ascii_folded(s@)[j] == f@[j - from],
        decreases s@.len() - (from + k),
    {
        let ghost rest = s@.skip(from + k);
        let ghost left = f@.skip(p as int);
        assert(left.len() > 0);
        if k == s.len() - from {
            return None;
        }
        let c: Vec<char> = fold(s[from + k]);
        assert(rest[0] == s@[from + k]);
        let fits: bool = stands_at(f, c.as_slice(), p);
        proof {
            assert(fits == c@.is_prefix_of(left)) by {
                if p + c@.len() <= f@.len() {
                    assert(f@.subrange(p as int, p + c@.len()) == left.take(c@.len() as int));
                }
            }
            if is_ascii_text(s@) {
                assert((s@[from + k] as u32) < 128);
                assert(ascii_folded(s@)[from + k] == c@[0]);
                assert(!fits ==> !occurs_at(ascii_folded(s@), f@, from as int)) by {
                    if occurs_at(ascii_folded(s@), f@, from as int) {
                        let part = ascii_folded(s@).subrange(from as int, from + f@.len());
                        assert(part[k as int] == f@[k as int]);
                        assert(left[0] == c@[0]);
                        assert(c@ == left.take(1));
                    }
                }
            }
        }
        if !fits {
            return None;
        }
        proof {
            assert(rest.drop_first() == s@.skip(from + k + 1));
            assert(left.skip(c@.len() as int) == f@.skip(p + c@.len()));
            assert(f@[p as int] == c@[0]) by {
                assert(left[0] == c@[0]);
            }
        }
        k = k + 1;
        p = p + c.len();
    }
    proof {
        if is_ascii_text(s@) {
            let part = ascii_folded(s@).subrange(from as int, from + f@.len());
            assert forall|j: int| 0 <= j < f@.len() implies part[j] == f@[j] by {
                assert(ascii_folded(s@)[from + j] == f@[j]);
            }
            assert(part == f@);
        }
    }
    Some(k)
}

/// Whether `pat` stands in `text` at position `i`, in either case.
pub open spec fn matches_at(text: Seq<char>, pat: Seq<char>, i: int) -> bool {
    0 <= i <= text.len() && match_len(text.skip(i), folded(pat)) is Some
}

/// Whether `i` is the first position at which `pat` stands in `text`, in either
/// case.
pub open spec fn first_match_at(text: Seq<char>, pat: Seq<char>, i: int) -> bool {
    matches_at(text, pat, i) && forall|j: int| 0 <= j < i ==> !#[trigger] matches_at(text, pat, j)
}

/// The first position at which `pat` stands in `text` in either case; 0 where it
/// does not.
pub open spec fn match_position(text: Seq<char>, pat: Seq<char>) -> int {
    if exists|i: int| first_match_at(text, pat, i) {
        choose|i: int| first_match_at(text, pat, i)
    } else {
        0
    }
}

/// The first position at which the ASCII text `pat` stands in the ASCII text
/// `text` in either case; 0 where it does not.
pub open spec fn ascii_position(text: Seq<char>, pat: Seq<char>) -> int {
    if exists|i: int| first_at(ascii_folded(text), ascii_folded(pat), i) {
        choose|i: int| first_at(ascii_folded(text), ascii_folded(pat), i)
    } else {
        0
    }
}

/// The first position at which `pat` stands in `text` in either case; 0 where it
/// does not.
pub fn find_match(text: &[char], pat: &str) -> (r: usize)
    ensures
        r == match_position(text@, pat@),
        r <= text@.len(),
        is_ascii_text(text@) && is_ascii_text(pat@) ==> r == ascii_position(text@, pat@),
{
    let f: Vec<char> = fold_text(pat);
    let ghost low = ascii_folded(text@);
    let mut i: usize = 0;
    loop
        invariant
            f@ == folded(pat@),
            low == ascii_folded(text@),
            is_ascii_text(pat@) ==> f@ == ascii_folded(pat@),
            i <= text@.len(),
            forall|j: int| 0 <= j < i ==> !#[trigger] matches_at(text@, pat@, j),
            is_ascii_text(text@) ==> forall|j: int| 0 <= j < i ==> !#[trigger] occurs_at(low, f@, j),
        decreases text@.len() - i,
    {
        match match_at(text, i, f.as_slice()) {
            Some(_) => {
                proof {
                    assert(first_match_at(text@, pat@, i as int));
                    assert forall|k: int| first_match_at(text@, pat@, k) implies k == i by {
                        if k < i {
                            assert(!matches_at(text@, pat@, k));
                        } else if i < k {
                            assert(!matches_at(text@, pat@, i as int));
                        }
                    }
                    if is_ascii_text(text@) && is_ascii_text(pat@) {
                        assert(first_at(low, f@, i as int));
                        assert forall|k: int| first_at(low, f@, k) implies k == i by {
                            if k < i {
                                assert(!occurs_at(low, f@, k));
                            } else if i < k {
                                assert(!occurs_at(low, f@, i as int));
                            }
                        }
                    }
                }
                return i;
            },
            None => {},
        }
        assert(!matches_at(text@, pat@, i as int));
        if i == text.len() {
            return 0;
        }
        i = i + 1;
    }
}

// ---------------------------------------------------------------------------
// Highlighting
// ---------------------------------------------------------------------------

/// How many characters at the start of `s` match one of `words` in either case:
/// the most, where several do, and 0 where none does.
pub open spec fn longest_match(s: Seq<char>, words: Seq<Seq<char>>) -> nat
    decreases words.len(),
{
    if words.len() == 0 {
        0
    } else {
        let before = longest_match(s, words.drop_last());
        match match_len(s, folded(words.last())) {
            Some(n) => if n > before {
                n
            } else {
                before
            },
            None => before,
        }
    }
}

/// The text with two asterisks on either side of each place where one of `words`
/// stands in it in either case. The places are taken from the left, and at each
/// the longest word counts.
pub open spec fn highlighted(s: Seq<char>, words: Seq<Seq<char>>) -> Seq<char>
    decreases s.len(),
{
    if s.len() == 0 {
        Seq::empty()
    } else {
        let n = longest_match(s, words);
        if 0 < n <= s.len() {
            seq!['*', '*'] + s.take(n as int) + seq!['*', '*'] + highlighted(s.skip(n as int), words)
        } else {
            seq![s[0]] + highlighted(s.drop_first(), words)
        }
    }
}

/// How many characters of `s` from `from` on match one of the folded `words`.
fn longest_match_at(s: &[char], from: usize, words: &Vec<String>, folds: &Vec<Vec<char>>) -> (r: usize)
    requires
        from <= s@.len(),
        folds@.len() == words@.len(),
        forall|i: int| 0 <= i < words@.len() ==> (#[trigger] folds@[i])@ == folded(words@[i]@),
    ensures
        r == longest_match(s@.skip(from as int), texts(words@)),
        from + r <= s@.len(),
{
    let ghost all = texts(words@);
    let mut longest: usize = 0;
    for i in 0..words.len()
        invariant
            from <= s@.len(),
            folds@.len() == words@.len(),
            forall|k: int| 0 <= k < words@.len() ==> (#[trigger] folds@[k])@ == folded(words@[k]@),
            all == texts(words@),
            longest == longest_match(s@.skip(from as int), all.take(i as int)),
            from + longest <= s@.len(),
    {
        proof {
            assert(all.take(i + 1).drop_last() == all.take(i as int));
            assert(all[i as int] == words@[i as int]@);
            assert(folds@[i as int]@ == folded(words@[i as int]@));
        }
        match match_at(s, from, folds[i].as_slice()) {
            Some(n) => {
                if n > longest {
                    longest = n;
                }
            },
            None => {},
        }
    }
    assert(all.take(all.len() as int) == all);
    longest
}

/// The text with two asterisks on either side of each place where one of `words`
/// stands in it in either case.
pub fn highlight(s: &str, words: &Vec<String>) -> (r: String)
    ensures
        r@ == highlighted(s@, texts(words@)),
{
    let v: Vec<char> = chars_of(s);
    let ghost all = texts(words@);
    let mut folds: Vec<Vec<char>> = Vec::new();
    for i in 0..words.len()
        invariant
            folds@.len() == i,
            forall|k: int| 0 <= k < i ==> (#[trigger] folds@[k])@ == folded(words@[k]@),
    {
        folds.push(fold_text(words[i].as_str()));
    }
    let mut out: String = String::new();
    let mut i: usize = 0;
    assert(v@.skip(0) == v@);
    assert(out@ + highlighted(v@, all) == highlighted(v@, all));
    while i < v.len()
        invariant
            v@ == s@,
            all == texts(words@),
            folds@.len() == words@.len(),
            forall|k: int| 0 <= k < words@.len() ==> (#[trigger] folds@[k])@ == folded(words@[k]@),
            i <= v@.len(),
            out@ + highlighted(v@.skip(i as int), all) == highlighted(v@, all),
        decreases v@.len() - i,
    {
        let ghost before = out@;
        let ghost rest = v@.skip(i as int);
        let n: usize = longest_match_at(v.as_slice(), i, words, &folds);
        if n > 0 {
            out.push('*');
            out.push('*');
            out.append(text_between(v.as_slice(), i, i + n).as_str());
            out.push('*');
            out.push('*');
            proof {
                assert(v@.subrange(i as int, i + n) == rest.take(n as int));
                assert(v@.skip(i + n) == rest.skip(n as int));
                assert(out@ == before + (seq!['*', '*'] + rest.take(n as int) + seq!['*', '*']));
                assert(out@ + highlighted(rest.skip(n as int), all) == before + highlighted(rest, all));
            }
            i = i + n;
        } else {
            out.push(v[i]);
            proof {
                assert(v@.skip(i + 1) == rest.drop_first());
                assert(out@ == before + seq![rest[0]]);
                assert(out@ + highlighted(rest.drop_first(), all) == before + highlighted(rest, all));
            }
            i = i + 1;
        }
    }
    assert(v@.skip(i as int) == Seq::<char>::empty());
    assert(out@ + Seq::<char>::empty() == out@);
    out
}

/// Characters that are no asterisks.
pub open spec fn no_asterisk() -> spec_fn(char) -> bool {
    |c: char| c != '*'
}

/// Highlighting adds asterisks and changes nothing else.
pub proof fn highlighting_adds_asterisks_only(s: Seq<char>, words: Seq<Seq<char>>)
    ensures
        highlighted(s, words).filter(no_asterisk()) == s.filter(no_asterisk()),
    decreases s.len(),
{
    let keep = no_asterisk();
    if s.len() > 0 {
        let n = longest_match(s, words);
        let stars = seq!['*', '*'];
        assert(stars.filter(keep) == Seq::<char>::empty()) by {
            reveal_with_fuel(Seq::filter, 3);
            assert(stars.drop_last() == seq!['*']);
            assert(seq!['*'].drop_last() == Seq::<char>::empty());
        }
        if 0 < n <= s.len() {
            let (a, b) = (s.take(n as int), s.skip(n as int));
            highlighting_adds_asterisks_only(b, words);
            assert(s == a + b);
            Seq::filter_distributes_over_add(a, b, keep);
            Seq::filter_distributes_over_add(stars, a, keep);
            Seq::filter_distributes_over_add(stars + a, stars, keep);
            Seq::filter_distributes_over_add(stars + a + stars, highlighted(b, words), keep);
            assert(highlighted(s, words).filter(keep) == a.filter(keep) + b.filter(keep));
        } else {
            let (a, b) = (seq![s[0]], s.drop_first());
            highlighting_adds_asterisks_only(b, words);
            assert(s == a + b);
            Seq::filter_distributes_over_add(a, b, keep);
            Seq::filter_distributes_over_add(a, highlighted(b, words), keep);
        }
    }
}

} // verus!
