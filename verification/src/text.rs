//! Strings as sequences of characters: searching, trimming, joining, ordering
//! and writing numbers.

use vstd::prelude::*;
use vstd::string::*;

verus! {

broadcast use vstd::string::group_string_axioms;

/// `String::push`: appends one character at the end of the string.
pub assume_specification[ String::push ](s: &mut String, c: char)
    ensures
        final(s)@ == old(s)@.push(c),
;

/// What `str::to_lowercase` makes of a text.
pub uninterp spec fn lowercase(s: Seq<char>) -> Seq<char>;

/// Whether all characters of a text are ASCII.
pub open spec fn is_ascii_text(s: Seq<char>) -> bool {
    forall|i: int| 0 <= i < s.len() ==> (#[trigger] s[i] as u32) < 128
}

/// `str::to_lowercase`: the Unicode lowercase of `s`, which depends on the
/// characters of `s` alone. In an ASCII text the ASCII letters are in lowercase
/// and the rest stays.
#[verifier::external_body]
pub(crate) fn to_lower(s: &str) -> (r: String)
    ensures
        r@ == lowercase(s@),
        is_ascii_text(s@) ==> r@ == ascii_folded(s@),
{
    s.to_lowercase()
}

// ---------------------------------------------------------------------------
// Characters and strings
// ---------------------------------------------------------------------------

/// The texts of a list of strings.
pub open spec fn texts(parts: Seq<String>) -> Seq<Seq<char>> {
    parts.map_values(|s: String| s@)
}

/// The characters of `s`, in order.
pub fn chars_of(s: &str) -> (v: Vec<char>)
    ensures
        v@ == s@,
{
    let mut v: Vec<char> = Vec::new();
    for c in it: s.chars()
        invariant
            it.seq() == s@,
            v@ == s@.take(it.index() as int),
    {
        v.push(c);
    }
    v
}

/// The string made of the characters `v`.
pub fn text_of(v: &[char]) -> (s: String)
    ensures
        s@ == v@,
{
    let mut s: String = String::new();
    for i in 0..v.len()
        invariant
            s@ == v@.take(i as int),
    {
        s.push(v[i]);
    }
    s
}

/// The string made of the characters `from..to` of `v`.
pub fn text_between(v: &[char], from: usize, to: usize) -> (s: String)
    requires
        from <= to <= v@.len(),
    ensures
        s@ == v@.subrange(from as int, to as int),
{
    let mut s: String = String::new();
    for i in from..to
        invariant
            from <= to <= v@.len(),
            s@ == v@.subrange(from as int, i as int),
    {
        s.push(v[i]);
    }
    s
}

/// Whether two strings hold the same characters.
pub fn same_text(a: &str, b: &str) -> (r: bool)
    ensures
        r == (a@ == b@),
{
    let x: &[u8] = a.as_bytes();
    let y: &[u8] = b.as_bytes();
    proof {
        vstd::utf8::encode_utf8_decode_utf8(a@);
        vstd::utf8::encode_utf8_decode_utf8(b@);
    }
    if x.len() != y.len() {
        return false;
    }
    for i in 0..x.len()
        invariant
            x@.len() == y@.len(),
            x@ == a.spec_bytes(),
            y@ == b.spec_bytes(),
            forall|j: int| 0 <= j < i ==> x@[j] == y@[j],
    {
        if x[i] != y[i] {
            return false;
        }
    }
    assert(x@ == y@);
    true
}

/// Whether `s` is one of the strings in `list`.
pub fn is_listed(s: &str, list: &Vec<String>) -> (r: bool)
    ensures
        r == texts(list@).contains(s@),
{
    for i in 0..list.len()
        invariant
            forall|j: int| 0 <= j < i ==> (#[trigger] list@[j])@ != s@,
    {
        if same_text(list[i].as_str(), s) {
            assert(texts(list@)[i as int] == s@);
            return true;
        }
    }
    assert forall|j: int| 0 <= j < texts(list@).len() implies texts(list@)[j] != s@ by {
        assert(texts(list@)[j] == list@[j]@);
    }
    false
}

/// One string after another.
pub fn joined(a: &str, b: &str) -> (r: String)
    ensures
        r@ == a@ + b@,
{
    let mut s: String = a.to_owned();
    s.append(b);
    s
}

/// Three strings one after another.
pub fn joined3(a: &str, b: &str, c: &str) -> (r: String)
    ensures
        r@ == a@ + b@ + c@,
{
    let mut s: String = a.to_owned();
    s.append(b);
    s.append(c);
    s
}

/// A list of strings with the same texts.
pub fn clone_texts(list: &Vec<String>) -> (r: Vec<String>)
    ensures
        r@ == list@,
{
    let mut out: Vec<String> = Vec::new();
    for i in 0..list.len()
        invariant
            out@ == list@.take(i as int),
    {
        out.push(list[i].clone());
    }
    assert(list@.take(list@.len() as int) == list@);
    out
}

// ---------------------------------------------------------------------------
// Searching
// ---------------------------------------------------------------------------

/// Whether `pat` stands in `s` at position `i`.
pub open spec fn occurs_at(s: Seq<char>, pat: Seq<char>, i: int) -> bool {
    0 <= i && i + pat.len() <= s.len() && s.subrange(i, i + pat.len()) == pat
}

/// Whether `pat` stands anywhere in `s`.
pub open spec fn has_text(s: Seq<char>, pat: Seq<char>) -> bool {
    exists|i: int| #[trigger] occurs_at(s, pat, i)
}

/// Whether `i` is the first position at which `pat` stands in `s`.
pub open spec fn first_at(s: Seq<char>, pat: Seq<char>, i: int) -> bool {
    occurs_at(s, pat, i) && forall|j: int| 0 <= j < i ==> !#[trigger] occurs_at(s, pat, j)
}

/// Whether `pat` stands in `s` at position `i`.
pub fn stands_at(s: &[char], pat: &[char], i: usize) -> (r: bool)
    ensures
        r == occurs_at(s@, pat@, i as int),
{
    if pat.len() > s.len() || i > s.len() - pat.len() {
        return false;
    }
    for k in 0..pat.len()
        invariant
            i + pat.len() <= s.len(),
            forall|j: int| 0 <= j < k ==> s@[i + j] == pat@[j],
    {
        if s[i + k] != pat[k] {
            assert(s@.subrange(i as int, i + pat.len())[k as int] != pat@[k as int]);
            return false;
        }
    }
    assert(s@.subrange(i as int, i + pat.len()) == pat@);
    true
}

/// The first position at which `pat` stands in `s`, counted in characters.
pub fn find_chars(s: &[char], pat: &[char]) -> (r: Option<usize>)
    ensures
        match r {
            Some(i) => first_at(s@, pat@, i as int),
            None => !has_text(s@, pat@),
        },
{
    if pat.len() > s.len() {
        return None;
    }
    let last: usize = s.len() - pat.len();
    let mut i: usize = 0;
    while i <= last
        invariant
            i <= last + 1,
            last + pat.len() == s.len(),
            forall|j: int| 0 <= j < i ==> !#[trigger] occurs_at(s@, pat@, j),
        decreases s.len() + 1 - i,
    {
        if stands_at(s, pat, i) {
            return Some(i);
        }
        if i == last {
            return None;
        }
        i = i + 1;
    }
    None
}

/// Whether `pat` stands anywhere in `s`.
pub fn contains_text(s: &str, pat: &str) -> (r: bool)
    ensures
        r == has_text(s@, pat@),
{
    match find_chars(chars_of(s).as_slice(), chars_of(pat).as_slice()) {
        Some(_) => true,
        None => false,
    }
}

/// Whether `s` begins with `prefix`.
pub fn starts_with(s: &str, prefix: &str) -> (r: bool)
    ensures
        r == prefix@.is_prefix_of(s@),
{
    let sc: Vec<char> = chars_of(s);
    let pc: Vec<char> = chars_of(prefix);
    let r: bool = stands_at(sc.as_slice(), pc.as_slice(), 0);
    assert(s@.len() >= prefix@.len() ==> s@.subrange(0, prefix@.len() as int) == s@.take(
        prefix@.len() as int,
    ));
    r
}

/// Whether `s` ends with `suffix`.
pub fn ends_with(s: &str, suffix: &str) -> (r: bool)
    ensures
        r == suffix@.is_suffix_of(s@),
{
    let sc: Vec<char> = chars_of(s);
    let pc: Vec<char> = chars_of(suffix);
    if pc.len() > sc.len() {
        return false;
    }
    stands_at(sc.as_slice(), pc.as_slice(), sc.len() - pc.len())
}

/// The ASCII lowercase of a character; other characters stay.
pub open spec fn ascii_lower(c: char) -> char {
    if 'A' <= c <= 'Z' {
        (c as u32 + 32) as char
    } else {
        c
    }
}

/// A text with its ASCII letters in lowercase.
pub open spec fn ascii_folded(s: Seq<char>) -> Seq<char> {
    s.map_values(|c: char| ascii_lower(c))
}

/// The ASCII lowercase of a character; other characters stay.
pub fn to_ascii_lower(c: char) -> (r: char)
    ensures
        r == ascii_lower(c),
{
    if 'A' <= c && c <= 'Z' {
        ((c as u8) + 32) as char
    } else {
        c
    }
}

/// The characters of a text with its ASCII letters in lowercase.
pub fn fold_ascii(s: &str) -> (r: Vec<char>)
    ensures
        r@ == ascii_folded(s@),
{
    let chars: Vec<char> = chars_of(s);
    let mut out: Vec<char> = Vec::new();
    for i in 0..chars.len()
        invariant
            chars@ == s@,
            out@ == ascii_folded(s@).take(i as int),
    {
        out.push(to_ascii_lower(chars[i]));
    }
    assert(ascii_folded(s@).take(s@.len() as int) == ascii_folded(s@));
    out
}

/// Whether `pat` stands anywhere in `s`, where ASCII letters match in either
/// case.
pub fn contains_ignoring_ascii_case(s: &str, pat: &str) -> (r: bool)
    ensures
        r == has_text(ascii_folded(s@), ascii_folded(pat@)),
{
    match find_chars(fold_ascii(s).as_slice(), fold_ascii(pat).as_slice()) {
        Some(_) => true,
        None => false,
    }
}

// ---------------------------------------------------------------------------
// Trimming
// ---------------------------------------------------------------------------

/// Which characters a trim takes away.
#[derive(Clone, Copy)]
pub enum Strip {
    /// White space, as Unicode has it.
    White,
    /// One character.
    Only(char),
}

/// Whether Unicode counts `c` as white space.
pub open spec fn white_space(c: char) -> bool {
    let n = c as u32;
    ||| 0x09 <= n <= 0x0D
    ||| n == 0x20
    ||| n == 0x85
    ||| n == 0xA0
    ||| n == 0x1680
    ||| 0x2000 <= n <= 0x200A
    ||| n == 0x2028
    ||| n == 0x2029
    ||| n == 0x202F
    ||| n == 0x205F
    ||| n == 0x3000
}

/// Whether Unicode counts `c` as white space.
pub fn is_white_space(c: char) -> (r: bool)
    ensures
        r == white_space(c),
{
    let n: u32 = c as u32;
    (0x09 <= n && n <= 0x0D) || n == 0x20 || n == 0x85 || n == 0xA0 || n == 0x1680 || (0x2000 <= n
        && n <= 0x200A) || n == 0x2028 || n == 0x2029 || n == 0x202F || n == 0x205F || n == 0x3000
}

impl Strip {
    /// Whether the trim takes `c` away.
    pub open spec fn takes(self, c: char) -> bool {
        match self {
            Strip::White => white_space(c),
            Strip::Only(d) => c == d,
        }
    }

    fn takes_away(&self, c: char) -> (r: bool)
        ensures
            r == self.takes(c),
    {
        match self {
            Strip::White => is_white_space(c),
            Strip::Only(d) => c == *d,
        }
    }
}

/// `s` without the characters at its start that `what` takes away.
pub open spec fn strip_start(s: Seq<char>, what: Strip) -> Seq<char>
    decreases s.len(),
{
    if s.len() > 0 && what.takes(s.first()) {
        strip_start(s.drop_first(), what)
    } else {
        s
    }
}

/// `s` without the characters at its end that `what` takes away.
pub open spec fn strip_end(s: Seq<char>, what: Strip) -> Seq<char>
    decreases s.len(),
{
    if s.len() > 0 && what.takes(s.last()) {
        strip_end(s.drop_last(), what)
    } else {
        s
    }
}

/// `s` without the characters at both its ends that `what` takes away.
pub open spec fn strip(s: Seq<char>, what: Strip) -> Seq<char> {
    strip_end(strip_start(s, what), what)
}

/// `s` without white space at both its ends.
pub open spec fn trimmed(s: Seq<char>) -> Seq<char> {
    strip(s, Strip::White)
}

/// The number of characters at the start of `v` that `what` takes away.
fn leading(v: &[char], what: &Strip) -> (n: usize)
    ensures
        n <= v@.len(),
        strip_start(v@, *what) == v@.skip(n as int),
{
    let mut i: usize = 0;
    assert(v@.skip(0) == v@);
    while i < v.len() && what.takes_away(v[i])
        invariant
            i <= v@.len(),
            strip_start(v@, *what) == strip_start(v@.skip(i as int), *what),
        ensures
            i <= v@.len(),
            strip_start(v@, *what) == strip_start(v@.skip(i as int), *what),
            i < v@.len() ==> !what.takes(v@[i as int]),
        decreases v@.len() - i,
    {
        assert(v@.skip(i as int).drop_first() == v@.skip(i + 1));
        i = i + 1;
    }
    i
}

/// The number of characters of `v` that are left when `what` is taken away at
/// its end.
fn without_trailing(v: &[char], what: &Strip) -> (n: usize)
    ensures
        n <= v@.len(),
        strip_end(v@, *what) == v@.take(n as int),
{
    let mut n: usize = v.len();
    assert(v@.take(n as int) == v@);
    while n > 0 && what.takes_away(v[n - 1])
        invariant
            n <= v@.len(),
            strip_end(v@, *what) == strip_end(v@.take(n as int), *what),
        ensures
            n <= v@.len(),
            strip_end(v@, *what) == strip_end(v@.take(n as int), *what),
            n > 0 ==> !what.takes(v@[n - 1]),
        decreases n,
    {
        assert(v@.take(n as int).drop_last() == v@.take(n - 1));
        n = n - 1;
    }
    n
}

/// `s` without the characters at its start that `what` takes away.
pub fn trim_start(s: &str, what: Strip) -> (r: String)
    ensures
        r@ == strip_start(s@, what),
{
    let v: Vec<char> = chars_of(s);
    let n: usize = leading(v.as_slice(), &what);
    text_between(v.as_slice(), n, v.len())
}

/// `s` without the characters at both its ends that `what` takes away.
pub fn trim_of(s: &str, what: Strip) -> (r: String)
    ensures
        r@ == strip(s@, what),
{
    let v: Vec<char> = chars_of(trim_start(s, what).as_str());
    let n: usize = without_trailing(v.as_slice(), &what);
    text_between(v.as_slice(), 0, n)
}

/// `s` without white space at both its ends.
pub fn trim(s: &str) -> (r: String)
    ensures
        r@ == trimmed(s@),
{
    trim_of(s, Strip::White)
}

/// A trimmed text neither begins nor ends with what was taken away, and it is
/// a part of the text it was trimmed from.
pub proof fn trimmed_has_clean_ends(s: Seq<char>, what: Strip)
    ensures
        strip(s, what).len() > 0 ==> !what.takes(strip(s, what).first()) && !what.takes(
            strip(s, what).last(),
        ),
        has_text(s, strip(s, what)),
{
    let t = strip_start(s, what);
    stripped_start_is_suffix(s, what);
    stripped_end_is_prefix(t, what);
    let r = strip(s, what);
    assert(occurs_at(s, r, s.len() - t.len())) by {
        assert(s.subrange(s.len() - t.len(), s.len() - t.len() + r.len()) == r);
    }
}

proof fn stripped_start_is_suffix(s: Seq<char>, what: Strip)
    ensures
        strip_start(s, what).len() <= s.len(),
        s.skip(s.len() - strip_start(s, what).len()) == strip_start(s, what),
        strip_start(s, what).len() > 0 ==> !what.takes(strip_start(s, what).first()),
    decreases s.len(),
{
    if s.len() > 0 && what.takes(s.first()) {
        stripped_start_is_suffix(s.drop_first(), what);
        let t = strip_start(s, what);
        assert(s.drop_first().skip(s.len() - 1 - t.len()) == s.skip(s.len() - t.len()));
    } else {
        assert(s.skip(0) == s);
    }
}

proof fn stripped_end_is_prefix(s: Seq<char>, what: Strip)
    ensures
        strip_end(s, what).len() <= s.len(),
        s.take(strip_end(s, what).len() as int) == strip_end(s, what),
        strip_end(s, what).len() > 0 ==> !what.takes(strip_end(s, what).last()),
    decreases s.len(),
{
    if s.len() > 0 && what.takes(s.last()) {
        stripped_end_is_prefix(s.drop_last(), what);
        let t = strip_end(s, what);
        assert(s.drop_last().take(t.len() as int) == s.take(t.len() as int));
    } else {
        assert(s.take(s.len() as int) == s);
    }
}

// ---------------------------------------------------------------------------
// Joining and replacing
// ---------------------------------------------------------------------------

/// The texts of `parts` one after another with `sep` between them.
pub open spec fn join(parts: Seq<Seq<char>>, sep: Seq<char>) -> Seq<char>
    decreases parts.len(),
{
    if parts.len() == 0 {
        Seq::empty()
    } else if parts.len() == 1 {
        parts[0]
    } else {
        join(parts.drop_last(), sep) + sep + parts.last()
    }
}

/// Every part stands in the texts that are joined.
pub proof fn joined_text_has_parts(parts: Seq<Seq<char>>, sep: Seq<char>, i: int)
    requires
        0 <= i < parts.len(),
    ensures
        has_text(join(parts, sep), parts[i]),
    decreases parts.len(),
{
    let whole = join(parts, sep);
    if parts.len() == 1 {
        assert(whole.subrange(0, parts[0].len() as int) == parts[0]);
        assert(occurs_at(whole, parts[0], 0));
    } else if i == parts.len() - 1 {
        let at = whole.len() - parts[i].len();
        assert(whole.subrange(at, whole.len() as int) == parts[i]);
        assert(occurs_at(whole, parts[i], at));
    } else {
        let front = parts.drop_last();
        joined_text_has_parts(front, sep, i);
        assert(front[i] == parts[i]);
        let at = choose|at: int| occurs_at(join(front, sep), parts[i], at);
        assert(whole.subrange(at, at + parts[i].len()) == join(front, sep).subrange(
            at,
            at + parts[i].len(),
        ));
        assert(occurs_at(whole, parts[i], at));
    }
}

/// The strings of `parts` one after another with `sep` between them.
pub fn join_texts(parts: &Vec<String>, sep: &str) -> (r: String)
    ensures
        r@ == join(texts(parts@), sep@),
{
    let mut out: String = String::new();
    for i in 0..parts.len()
        invariant
            out@ == join(texts(parts@).take(i as int), sep@),
    {
        if i > 0 {
            out.append(sep);
        }
        out.append(parts[i].as_str());
        assert(texts(parts@).take(i + 1).drop_last() == texts(parts@).take(i as int));
    }
    assert(texts(parts@).take(parts@.len() as int) == texts(parts@));
    out
}

/// A text with `b` in place of every `a`.
pub open spec fn replaced(s: Seq<char>, a: char, b: char) -> Seq<char> {
    s.map_values(|c: char| if c == a { b } else { c })
}

/// The characters of `v` with `b` in place of every `a`.
pub fn replace_char(v: &[char], a: char, b: char) -> (r: String)
    ensures
        r@ == replaced(v@, a, b),
{
    let mut out: String = String::new();
    for i in 0..v.len()
        invariant
            out@ == replaced(v@, a, b).take(i as int),
    {
        let c: char = v[i];
        if c == a {
            out.push(b);
        } else {
            out.push(c);
        }
    }
    assert(replaced(v@, a, b).take(v@.len() as int) == replaced(v@, a, b));
    out
}

// ---------------------------------------------------------------------------
// Splitting
// ---------------------------------------------------------------------------

/// The pieces of `s` between the positions that `cut` marks.
pub open spec fn cut_pieces(s: Seq<char>, cut: Seq<bool>) -> Seq<Seq<char>>
    decreases s.len(),
{
    if s.len() == 0 {
        seq![Seq::empty()]
    } else {
        let before = cut_pieces(s.drop_last(), cut.drop_last());
        if cut[s.len() - 1] {
            before.push(Seq::empty())
        } else {
            before.drop_last().push(before.last().push(s.last()))
        }
    }
}

/// The pieces of a text that is cut behind `a` are the pieces of `a` and those of
/// what follows the cut.
pub proof fn pieces_of_parts(a: Seq<char>, cut_a: Seq<bool>, c: char, b: Seq<char>, cut_b: Seq<bool>)
    requires
        a.len() == cut_a.len(),
        b.len() == cut_b.len(),
    ensures
        cut_pieces(a.push(c) + b, cut_a.push(true) + cut_b) == cut_pieces(a, cut_a) + cut_pieces(b, cut_b),
        cut_pieces(b, cut_b).len() > 0,
    decreases b.len(),
{
    let whole = a.push(c) + b;
    let cut = cut_a.push(true) + cut_b;
    let first = cut_pieces(a, cut_a);
    if b.len() == 0 {
        assert(whole.drop_last() == a);
        assert(cut.drop_last() == cut_a);
        assert(cut_pieces(b, cut_b) == seq![Seq::<char>::empty()]);
        assert(first + seq![Seq::<char>::empty()] == first.push(Seq::empty()));
    } else {
        let shorter = b.drop_last();
        let before = cut_pieces(shorter, cut_b.drop_last());
        let joined = first + before;
        pieces_of_parts(a, cut_a, c, shorter, cut_b.drop_last());
        assert(whole.drop_last() == a.push(c) + shorter);
        assert(cut.drop_last() == cut_a.push(true) + cut_b.drop_last());
        if cut_b.last() {
            assert(joined.push(Seq::empty()) == first + before.push(Seq::empty()));
        } else {
            assert(joined.last() == before.last());
            assert(joined.drop_last().push(joined.last().push(b.last())) == first
                + before.drop_last().push(before.last().push(b.last())));
        }
    }
}

/// Where `c` stands in `s`.
pub open spec fn marks(s: Seq<char>, c: char) -> Seq<bool> {
    s.map_values(|x: char| x == c)
}

/// The pieces of `s` between the characters `c`.
pub open spec fn split_on(s: Seq<char>, c: char) -> Seq<Seq<char>> {
    cut_pieces(s, marks(s, c))
}

/// The pieces of `v` between the positions that `cut` marks.
pub fn split_marked(v: &[char], cut: &Vec<bool>) -> (r: Vec<String>)
    requires
        v@.len() == cut@.len(),
    ensures
        texts(r@) == cut_pieces(v@, cut@),
        r@.len() > 0,
{
    let mut out: Vec<String> = Vec::new();
    let mut piece: String = String::new();
    assert(texts(out@).push(piece@) == cut_pieces(v@.take(0), cut@.take(0)));
    for i in 0..v.len()
        invariant
            v@.len() == cut@.len(),
            texts(out@).push(piece@) == cut_pieces(v@.take(i as int), cut@.take(i as int)),
    {
        proof {
            assert(v@.take(i + 1).drop_last() == v@.take(i as int));
            assert(cut@.take(i + 1).drop_last() == cut@.take(i as int));
            assert(texts(out@).push(piece@).drop_last() == texts(out@));
        }
        if cut[i] {
            assert(texts(out@.push(piece)) == texts(out@).push(piece@));
            out.push(piece);
            piece = String::new();
        } else {
            piece.push(v[i]);
        }
    }
    assert(texts(out@.push(piece)) == texts(out@).push(piece@));
    assert(v@.take(v@.len() as int) == v@);
    assert(cut@.take(cut@.len() as int) == cut@);
    out.push(piece);
    out
}

/// The pieces of `s` between the characters `c`.
pub fn split_char(s: &str, c: char) -> (r: Vec<String>)
    ensures
        texts(r@) == split_on(s@, c),
        r@.len() > 0,
{
    let v: Vec<char> = chars_of(s);
    let mut cut: Vec<bool> = Vec::new();
    for i in 0..v.len()
        invariant
            v@ == s@,
            cut@ == marks(s@, c).take(i as int),
    {
        cut.push(v[i] == c);
    }
    assert(marks(s@, c).take(s@.len() as int) == marks(s@, c));
    split_marked(v.as_slice(), &cut)
}

// ---------------------------------------------------------------------------
// Numbers
// ---------------------------------------------------------------------------

/// The character of a decimal digit.
pub open spec fn digit(d: int) -> char
    recommends
        0 <= d < 10,
{
    (48 + d) as char
}

/// A number in decimal, without leading zeros.
pub open spec fn decimal(n: nat) -> Seq<char>
    decreases n,
{
    if n < 10 {
        seq![digit(n as int)]
    } else {
        decimal(n / 10).push(digit((n % 10) as int))
    }
}

/// A number in decimal, without leading zeros.
pub fn decimal_text(n: u64) -> (r: String)
    ensures
        r@ == decimal(n as nat),
{
    wide_decimal_text(n as u128)
}

/// A number in decimal, without leading zeros.
pub fn wide_decimal_text(n: u128) -> (r: String)
    ensures
        r@ == decimal(n as nat),
    decreases n,
{
    let d: u8 = (n % 10) as u8;
    let mut s: String = if n < 10 {
        String::new()
    } else {
        wide_decimal_text(n / 10)
    };
    s.push((48 + d) as char);
    s
}

/// The number that a row of decimal digits stands for.
pub open spec fn digits_value(s: Seq<char>) -> nat
    decreases s.len(),
{
    if s.len() == 0 {
        0
    } else {
        digits_value(s.drop_last()) * 10 + (s.last() as int - 48) as nat
    }
}

/// Whether every character of `s` is a decimal digit.
pub open spec fn all_digits(s: Seq<char>) -> bool {
    forall|i: int| 0 <= i < s.len() ==> '0' <= #[trigger] s[i] <= '9'
}

/// `s` without one `+` at its start.
pub open spec fn without_plus(s: Seq<char>) -> Seq<char> {
    if s.len() > 0 && s[0] == '+' {
        s.drop_first()
    } else {
        s
    }
}

/// The number that `s` writes in decimal, if it does and the number is at most
/// `max`: one or more digits, after at most one `+`.
pub open spec fn parsed(s: Seq<char>, max: nat) -> Option<nat> {
    let d = without_plus(s);
    if d.len() > 0 && all_digits(d) && digits_value(d) <= max {
        Some(digits_value(d))
    } else {
        None
    }
}

proof fn digits_value_grows(s: Seq<char>, k: int)
    requires
        0 <= k <= s.len(),
    ensures
        digits_value(s.take(k)) <= digits_value(s),
    decreases s.len() - k,
{
    if k == s.len() {
        assert(s.take(k) == s);
    } else {
        digits_value_grows(s, k + 1);
        assert(s.take(k + 1).drop_last() == s.take(k));
    }
}

/// The number that `s` writes in decimal, if it does and the number is at most
/// `max`.
pub fn parse_decimal(s: &str, max: u64) -> (r: Option<u64>)
    ensures
        match r {
            Some(n) => parsed(s@, max as nat) == Some(n as nat),
            None => parsed(s@, max as nat) is None,
        },
{
    let v: Vec<char> = chars_of(s);
    let start: usize = if v.len() > 0 && v[0] == '+' {
        1
    } else {
        0
    };
    let ghost d = without_plus(s@);
    assert(d == v@.skip(start as int));
    if start == v.len() {
        return None;
    }
    let mut n: u64 = 0;
    for i in start..v.len()
        invariant
            v@ == s@,
            start < v.len(),
            d == v@.skip(start as int),
            d == without_plus(s@),
            forall|j: int| 0 <= j < i - start ==> '0' <= #[trigger] d[j] <= '9',
            n == digits_value(d.take(i - start)),
            n <= max,
    {
        let c: char = v[i];
        assert(d[i - start] == c);
        if c < '0' || c > '9' {
            return None;
        }
        let x: u64 = (c as u64) - 48;
        proof {
            assert(d.take(i - start + 1).drop_last() == d.take(i - start));
            digits_value_grows(d, i - start + 1);
        }
        if n > (u64::MAX - x) / 10 {
            return None;
        }
        let next: u64 = n * 10 + x;
        if next > max {
            return None;
        }
        n = next;
    }
    assert(d.take(d.len() as int) == d);
    Some(n)
}

/// Writing a number and reading it back gives the number.
pub proof fn decimal_reads_back(n: nat, max: nat)
    requires
        n <= max,
    ensures
        parsed(decimal(n), max) == Some(n),
{
    decimal_digits(n);
}

pub(crate) proof fn decimal_digits(n: nat)
    ensures
        decimal(n).len() > 0,
        all_digits(decimal(n)),
        digits_value(decimal(n)) == n,
    decreases n,
{
    if n >= 10 {
        decimal_digits(n / 10);
        assert(decimal(n).drop_last() == decimal(n / 10));
    } else {
        assert(decimal(n).drop_last() == Seq::<char>::empty());
        assert(digits_value(Seq::<char>::empty()) == 0);
    }
}

// ---------------------------------------------------------------------------
// Order
// ---------------------------------------------------------------------------

/// Whether `a` stands before `b` in the order of texts: at the first place
/// where they differ, `a` has ended or has the smaller character.
pub open spec fn text_before(a: Seq<char>, b: Seq<char>) -> bool
    decreases a.len(),
{
    if b.len() == 0 {
        false
    } else if a.len() == 0 {
        true
    } else if a[0] != b[0] {
        a[0] < b[0]
    } else {
        text_before(a.drop_first(), b.drop_first())
    }
}

/// The order of texts is total.
pub proof fn text_order_is_total(a: Seq<char>, b: Seq<char>)
    ensures
        text_before(a, b) || a == b || text_before(b, a),
    decreases a.len(),
{
    if a.len() > 0 && b.len() > 0 && a[0] == b[0] {
        text_order_is_total(a.drop_first(), b.drop_first());
        if a.drop_first() == b.drop_first() {
            assert(a == seq![a[0]] + a.drop_first());
            assert(b == seq![b[0]] + b.drop_first());
        }
    } else if a.len() == 0 && b.len() == 0 {
        assert(a == b);
    }
}

/// No text stands before itself.
pub proof fn text_order_is_irreflexive(a: Seq<char>)
    ensures
        !text_before(a, a),
    decreases a.len(),
{
    if a.len() > 0 {
        text_order_is_irreflexive(a.drop_first());
    }
}

/// The order of texts is transitive.
pub proof fn text_order_is_transitive(a: Seq<char>, b: Seq<char>, c: Seq<char>)
    requires
        text_before(a, b),
        text_before(b, c),
    ensures
        text_before(a, c),
    decreases a.len(),
{
    if a.len() > 0 && a[0] == b[0] && b[0] == c[0] {
        text_order_is_transitive(a.drop_first(), b.drop_first(), c.drop_first());
    }
}

/// Whether `a` stands before `b` in the order of texts.
pub fn is_text_before(a: &str, b: &str) -> (r: bool)
    ensures
        r == text_before(a@, b@),
{
    let va: Vec<char> = chars_of(a);
    let vb: Vec<char> = chars_of(b);
    let mut i: usize = 0;
    assert(va@.skip(0) == va@);
    assert(vb@.skip(0) == vb@);
    while i < va.len() && i < vb.len()
        invariant
            i <= va@.len(),
            i <= vb@.len(),
            va@ == a@,
            vb@ == b@,
            text_before(a@, b@) == text_before(va@.skip(i as int), vb@.skip(i as int)),
        decreases va.len() - i,
    {
        if va[i] != vb[i] {
            return va[i] < vb[i];
        }
        assert(va@.skip(i as int).drop_first() == va@.skip(i + 1));
        assert(vb@.skip(i as int).drop_first() == vb@.skip(i + 1));
        i = i + 1;
    }
    i < vb.len()
}

} // verus!
