//! Texts: their order, their parts, and what is in them.

use vstd::prelude::*;

use crate::text::{
    ascii_folded, decimal, has_text, join, occurs_at, parsed, strip, strip_end, strip_start, text_before, trimmed, without_plus, Strip,
};

verus! {

/// A text is in another if and only if the other is made of something, the text
/// and something.
pub proof fn text_is_in_the_middle(s: Seq<char>, part: Seq<char>)
    ensures
        has_text(s, part) <==> exists|before: Seq<char>, after: Seq<char>| s == #[trigger] (before + part
            + after),
{
    if has_text(s, part) {
        let i = choose|i: int| #[trigger] occurs_at(s, part, i);
        let (before, after) = (s.take(i), s.skip(i + part.len()));
        assert(s == before + part + after);
    }
    if exists|before: Seq<char>, after: Seq<char>| s == #[trigger] (before + part + after) {
        let (before, after) = choose|before: Seq<char>, after: Seq<char>| s == #[trigger] (before + part
            + after);
        assert(s.subrange(before.len() as int, (before.len() + part.len()) as int) == part);
        assert(occurs_at(s, part, before.len() as int));
    }
}

/// What is in a text is in every text that the text is a part of.
#[verifier::rlimit(40)]
pub proof fn part_of_part(before: Seq<char>, s: Seq<char>, after: Seq<char>, part: Seq<char>)
    requires
        has_text(s, part),
    ensures
        has_text(before + s + after, part),
        has_text(before + s, part),
        has_text(s + after, part),
{
    let i = choose|i: int| #[trigger] occurs_at(s, part, i);
    let k = before.len() + i;
    assert((before + s + after).subrange(k, k + part.len()) == s.subrange(i, i + part.len()));
    assert((before + s).subrange(k, k + part.len()) == s.subrange(i, i + part.len()));
    assert((s + after).subrange(i, i + part.len()) == s.subrange(i, i + part.len()));
    assert(occurs_at(before + s + after, part, k));
    assert(occurs_at(before + s, part, k));
    assert(occurs_at(s + after, part, i));
}

/// A text is in itself.
pub proof fn whole_is_a_part(s: Seq<char>)
    ensures
        has_text(s, s),
{
    assert(s.subrange(0, s.len() as int) == s);
    assert(occurs_at(s, s, 0));
}

/// What is in a text stays in it when something is put behind it.
pub proof fn parts_stay(s: Seq<char>, after: Seq<char>)
    ensures
        forall|part: Seq<char>| #[trigger] has_text(s, part) ==> has_text(s + after, part),
{
    assert forall|part: Seq<char>| #[trigger] has_text(s, part) implies has_text(s + after, part) by {
        part_of_part(Seq::empty(), s, after, part);
    }
}

/// What is put behind a text is in it, with all that is in it.
pub proof fn end_is_a_part(s: Seq<char>, end: Seq<char>)
    ensures
        has_text(s + end, end),
        forall|part: Seq<char>| #[trigger] has_text(end, part) ==> has_text(s + end, part),
{
    whole_is_a_part(end);
    assert forall|part: Seq<char>| #[trigger] has_text(end, part) implies has_text(s + end, part) by {
        part_of_part(s, end, Seq::empty(), part);
    }
}

/// A text is in what ends with it, together with what is put behind.
pub proof fn end_goes_on(s: Seq<char>, front: Seq<char>, end: Seq<char>, after: Seq<char>)
    requires
        s == front + end,
    ensures
        has_text(s + after, end + after),
{
    assert(s + after == front + (end + after));
    end_is_a_part(front, end + after);
}

/// A text is sorted before another if and only if it is a shorter start of it, or
/// has the lower character at the first place where they differ.
pub proof fn texts_are_sorted_by_character(a: Seq<char>, b: Seq<char>)
    ensures
        text_before(a, b) <==> exists|k: int|
            0 <= k <= a.len() && k < b.len() && #[trigger] a.take(k) == b.take(k) && (k == a.len() || a[k]
                < b[k]),
    decreases a.len(),
{
    if a.len() > 0 && b.len() > 0 && a[0] == b[0] {
        let (x, y) = (a.drop_first(), b.drop_first());
        texts_are_sorted_by_character(x, y);
        if text_before(x, y) {
            let k = choose|k: int|
                0 <= k <= x.len() && k < y.len() && #[trigger] x.take(k) == y.take(k) && (k == x.len()
                    || x[k] < y[k]);
            assert(a.take(k + 1) == seq![a[0]] + x.take(k));
            assert(b.take(k + 1) == seq![b[0]] + y.take(k));
        }
        if exists|k: int|
            0 <= k <= a.len() && k < b.len() && #[trigger] a.take(k) == b.take(k) && (k == a.len() || a[k]
                < b[k]) {
            let k = choose|k: int|
                0 <= k <= a.len() && k < b.len() && #[trigger] a.take(k) == b.take(k) && (k == a.len()
                    || a[k] < b[k]);
            assert(k > 0);
            assert(x.take(k - 1) == a.take(k).drop_first());
            assert(y.take(k - 1) == b.take(k).drop_first());
        }
    } else if b.len() > 0 {
        assert(a.take(0) == b.take(0));
        assert forall|k: int|
            0 < k <= a.len() && k < b.len() && #[trigger] a.take(k) == b.take(k) implies a[0] == b[0] by {
            assert(a.take(k)[0] == b.take(k)[0]);
        }
    }
}

/// Stripping a text takes away what it is to take away at its two ends, all of it,
/// and nothing else.
#[verifier::rlimit(40)]
pub proof fn only_the_ends_are_stripped(s: Seq<char>, what: Strip)
    ensures
        exists|before: Seq<char>, after: Seq<char>|
            {
                &&& s == #[trigger] (before + strip(s, what) + after)
                &&& forall|i: int| 0 <= i < before.len() ==> what.takes(#[trigger] before[i])
                &&& forall|i: int| 0 <= i < after.len() ==> what.takes(#[trigger] after[i])
            },
        strip(s, what).len() > 0 ==> !what.takes(strip(s, what).first()) && !what.takes(
            strip(s, what).last(),
        ),
{
    crate::text::trimmed_has_clean_ends(s, what);
    let (before, after) = stripped_ends(s, what);
    assert(s == before + strip(s, what) + after);
}

proof fn stripped_ends(s: Seq<char>, what: Strip) -> (r: (Seq<char>, Seq<char>))
    ensures
        s == r.0 + strip(s, what) + r.1,
        forall|i: int| 0 <= i < r.0.len() ==> what.takes(#[trigger] r.0[i]),
        forall|i: int| 0 <= i < r.1.len() ==> what.takes(#[trigger] r.1[i]),
{
    let n = stripped_from_start(s, what);
    let rest = s.skip(n);
    let m = stripped_from_end(rest, what);
    let (before, after) = (s.take(n), rest.skip(m));
    assert forall|i: int| 0 <= i < before.len() implies what.takes(#[trigger] before[i]) by {
        assert(before[i] == s[i]);
    }
    assert forall|i: int| 0 <= i < after.len() implies what.takes(#[trigger] after[i]) by {
        assert(after[i] == rest[m + i]);
    }
    assert(strip(s, what) == rest.take(m));
    assert(s == before + rest.take(m) + after);
    (before, after)
}

proof fn stripped_from_start(s: Seq<char>, what: Strip) -> (n: int)
    ensures
        0 <= n <= s.len(),
        strip_start(s, what) == s.skip(n),
        forall|i: int| 0 <= i < n ==> what.takes(#[trigger] s[i]),
    decreases s.len(),
{
    if s.len() > 0 && what.takes(s.first()) {
        let k = stripped_from_start(s.drop_first(), what);
        assert(s.drop_first().skip(k) == s.skip(k + 1));
        assert forall|i: int| 0 <= i < k + 1 implies what.takes(#[trigger] s[i]) by {
            if i > 0 {
                assert(what.takes(s.drop_first()[i - 1]));
            }
        }
        k + 1
    } else {
        assert(s.skip(0) == s);
        0
    }
}

proof fn stripped_from_end(s: Seq<char>, what: Strip) -> (n: int)
    ensures
        0 <= n <= s.len(),
        strip_end(s, what) == s.take(n),
        forall|i: int| n <= i < s.len() ==> what.takes(#[trigger] s[i]),
    decreases s.len(),
{
    if s.len() > 0 && what.takes(s.last()) {
        let front = s.drop_last();
        let k = stripped_from_end(front, what);
        assert(front.take(k) == s.take(k));
        assert forall|i: int| k <= i < s.len() implies what.takes(#[trigger] s[i]) by {
            if i < s.len() - 1 {
                assert(what.takes(front[i]));
            }
        }
        k
    } else {
        assert(s.take(s.len() as int) == s);
        s.len() as int
    }
}

/// Spaces, tabs and line breaks are white space, letters and digits are not.
pub proof fn white_space_is_no_letter(c: char)
    ensures
        c == ' ' || c == '\t' || c == '\n' || c == '\r' ==> Strip::White.takes(c),
        'a' <= c <= 'z' || 'A' <= c <= 'Z' || '0' <= c <= '9' ==> !Strip::White.takes(c),
        trimmed(seq![c]) == strip(seq![c], Strip::White),
{
}

/// The texts of a list are joined in order, with the separator between each two.
pub proof fn texts_are_joined_in_order(a: Seq<Seq<char>>, t: Seq<char>, sep: Seq<char>)
    ensures
        join(Seq::empty(), sep) == Seq::<char>::empty(),
        join(a.push(t), sep) == if a.len() == 0 {
            t
        } else {
            join(a, sep) + sep + t
        },
{
    assert(a.push(t).drop_last() == a);
}

/// Different numbers are written differently.
pub proof fn numbers_are_written_apart(m: nat, n: nat)
    requires
        decimal(m) == decimal(n),
    ensures
        m == n,
{
    crate::text::decimal_digits(m);
    crate::text::decimal_digits(n);
}

/// Letters are compared without their case: `A` to `Z` as `a` to `z`, and all other
/// characters as they are.
pub proof fn case_of_letters_is_ignored(s: Seq<char>, i: int)
    requires
        0 <= i < s.len(),
    ensures
        ascii_folded(s).len() == s.len(),
        'A' <= s[i] <= 'Z' ==> ascii_folded(s)[i] as u32 == s[i] as u32 + 32,
        !('A' <= s[i] <= 'Z') ==> ascii_folded(s)[i] == s[i],
{
}

/// A number is read only of digits, with a plus in front of them or without, and
/// only up to the largest that is taken.
pub proof fn only_digits_are_read(s: Seq<char>, max: nat, i: int)
    ensures
        parsed(s, max) matches Some(n) ==> n <= max,
        0 <= i < s.len() && !('0' <= s[i] <= '9') && !(i == 0 && s[0] == '+') ==> parsed(s, max) is None,
        s.len() == 0 ==> parsed(s, max) is None,
{
    let d = without_plus(s);
    if 0 <= i < s.len() && !('0' <= s[i] <= '9') && !(i == 0 && s[0] == '+') {
        if s[0] == '+' {
            assert(d[i - 1] == s[i]);
        } else {
            assert(d[i] == s[i]);
        }
    }
}

} // verus!
