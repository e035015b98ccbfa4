//! Paths as texts, with `/` between their components.

use vstd::prelude::*;
use vstd::string::*;

use crate::text::{
    chars_of, lowercase, marks, same_text, split_char, split_on, starts_with, text_between, text_of,
    texts, to_lower,
};

verus! {

/// Whether a piece between two separators names something: it is not empty and
/// not `.`, which stands for the place that has been reached.
pub open spec fn names_something(piece: Seq<char>) -> bool {
    piece.len() > 0 && piece != seq!['.']
}

/// The pieces of a path that name something, in order.
pub open spec fn named_pieces(path: Seq<char>) -> Seq<Seq<char>> {
    split_on(path, '/').filter(|p: Seq<char>| names_something(p))
}

/// Whether a path starts at the root.
pub open spec fn is_absolute(path: Seq<char>) -> bool {
    path.len() > 0 && path[0] == '/'
}

/// Whether a path starts with a `.` component.
pub open spec fn starts_here(path: Seq<char>) -> bool {
    split_on(path, '/')[0] == seq!['.']
}

/// Whether a path is that of a directory or of something in it, however deep.
pub open spec fn is_under(path: Seq<char>, root: Seq<char>) -> bool {
    root.is_prefix_of(path) && (path.len() == root.len() || (root.len() > 0 && root.last() == '/')
        || path[root.len() as int] == '/')
}

/// Whether two paths have the same components. Repeated separators, one at the
/// end, and `.` anywhere but at the start make no difference.
pub open spec fn same_components(a: Seq<char>, b: Seq<char>) -> bool {
    is_absolute(a) == is_absolute(b) && starts_here(a) == starts_here(b) && named_pieces(a)
        == named_pieces(b)
}

/// The last component of a path, unless the path has none or ends in `..`.
pub open spec fn file_name_of(path: Seq<char>) -> Option<Seq<char>> {
    let pieces = named_pieces(path);
    if pieces.len() == 0 || pieces.last() == seq!['.', '.'] {
        None
    } else {
        Some(pieces.last())
    }
}

/// Whether `i` is the position of the last dot in `name`.
pub open spec fn is_last_dot(name: Seq<char>, i: int) -> bool {
    0 <= i < name.len() && name[i] == '.' && forall|j: int| i < j < name.len() ==> name[j] != '.'
}

/// What stands behind the last dot of a file name, unless there is no dot or
/// the only thing before it is the start of the name.
pub open spec fn extension_of_name(name: Seq<char>) -> Option<Seq<char>> {
    if exists|i: int| is_last_dot(name, i) && i > 0 {
        Some(name.skip((choose|i: int| is_last_dot(name, i)) + 1))
    } else {
        None
    }
}

/// The extension of a path.
pub open spec fn extension_of(path: Seq<char>) -> Option<Seq<char>> {
    match file_name_of(path) {
        Some(name) => extension_of_name(name),
        None => None,
    }
}

/// The extension of a path in lowercase, or nothing.
pub open spec fn lower_extension(path: Seq<char>) -> Seq<char> {
    match extension_of(path) {
        Some(e) => lowercase(e),
        None => Seq::empty(),
    }
}

/// `rel` seen from `base`: `rel` itself where it starts at the root.
pub open spec fn path_join(base: Seq<char>, rel: Seq<char>) -> Seq<char> {
    if is_absolute(rel) {
        rel
    } else if base.len() > 0 && base.last() != '/' {
        base.push('/') + rel
    } else {
        base + rel
    }
}

/// Whether a path is that of a directory or of something in it, however deep.
pub fn lies_under(path: &str, root: &str) -> (r: bool)
    ensures
        r == is_under(path@, root@),
{
    if !starts_with(path, root) {
        return false;
    }
    let p: Vec<char> = chars_of(path);
    let n: usize = chars_of(root).len();
    assert(n > 0 ==> p@[n - 1] == root@.last());
    p.len() == n || (n > 0 && p[n - 1] == '/') || p[n] == '/'
}

/// The pieces of a path that name something, in order.
fn pieces_of(path: &str) -> (r: Vec<String>)
    ensures
        texts(r@) == named_pieces(path@),
{
    let all: Vec<String> = split_char(path, '/');
    let mut out: Vec<String> = Vec::new();
    let ghost keep = |p: Seq<char>| names_something(p);
    for i in 0..all.len()
        invariant
            texts(all@) == split_on(path@, '/'),
            keep == (|p: Seq<char>| names_something(p)),
            texts(out@) == texts(all@).take(i as int).filter(keep),
    {
        let piece: &String = &all[i];
        proof {
            assert(texts(all@).take(i + 1).drop_last() == texts(all@).take(i as int));
            reveal_with_fuel(Seq::filter, 1);
            reveal_strlit(".");
            assert("."@ == seq!['.']);
            assert(texts(out@.push(*piece)) == texts(out@).push(piece@));
        }
        if !piece.as_str().is_empty() && !same_text(piece.as_str(), ".") {
            out.push(piece.clone());
        }
    }
    assert(texts(all@).take(all@.len() as int) == texts(all@));
    out
}

/// The last component of a path, unless the path has none or ends in `..`.
pub fn file_name(path: &str) -> (r: Option<String>)
    ensures
        match r {
            Some(n) => file_name_of(path@) == Some(n@),
            None => file_name_of(path@) is None,
        },
{
    let pieces: Vec<String> = pieces_of(path);
    proof {
        reveal_strlit("..");
        assert(".."@ == seq!['.', '.']);
    }
    if pieces.len() == 0 {
        return None;
    }
    assert(texts(pieces@).last() == pieces@.last()@);
    if same_text(pieces[pieces.len() - 1].as_str(), "..") {
        return None;
    }
    Some(pieces[pieces.len() - 1].clone())
}

/// What stands behind the last dot of a file name.
fn extension_in(name: &str) -> (r: Option<String>)
    ensures
        match r {
            Some(e) => extension_of_name(name@) == Some(e@),
            None => extension_of_name(name@) is None,
        },
{
    let v: Vec<char> = chars_of(name);
    let mut i: usize = v.len();
    while i > 1
        invariant
            i <= v@.len(),
            v@ == name@,
            forall|j: int| i <= j < v@.len() ==> v@[j] != '.',
        decreases i,
    {
        i = i - 1;
        if v[i] == '.' {
            assert(is_last_dot(name@, i as int));
            assert(forall|k: int| is_last_dot(name@, k) ==> k == i);
            return Some(text_between(v.as_slice(), i + 1, v.len()));
        }
    }
    None
}

/// The extension of a path.
pub fn extension(path: &str) -> (r: Option<String>)
    ensures
        match r {
            Some(e) => extension_of(path@) == Some(e@),
            None => extension_of(path@) is None,
        },
{
    match file_name(path) {
        Some(name) => extension_in(name.as_str()),
        None => None,
    }
}

/// The extension of a path in lowercase, or nothing.
pub fn extension_lower(path: &str) -> (r: String)
    ensures
        r@ == lower_extension(path@),
{
    match extension(path) {
        Some(e) => to_lower(e.as_str()),
        None => String::new(),
    }
}

/// `rel` seen from `base`: `rel` itself where it starts at the root.
pub fn join_path(base: &str, rel: &str) -> (r: String)
    ensures
        r@ == path_join(base@, rel@),
{
    let b: Vec<char> = chars_of(base);
    let v: Vec<char> = chars_of(rel);
    if v.len() > 0 && v[0] == '/' {
        return text_of(v.as_slice());
    }
    let mut out: String = text_of(b.as_slice());
    if b.len() > 0 && b[b.len() - 1] != '/' {
        out.push('/');
    }
    out.append(rel);
    out
}

/// Whether two paths have the same components.
pub fn same_path(a: &str, b: &str) -> (r: bool)
    ensures
        r == same_components(a@, b@),
{
    let va: Vec<char> = chars_of(a);
    let vb: Vec<char> = chars_of(b);
    let root_a: bool = va.len() > 0 && va[0] == '/';
    let root_b: bool = vb.len() > 0 && vb[0] == '/';
    let sa: Vec<String> = split_char(a, '/');
    let sb: Vec<String> = split_char(b, '/');
    proof {
        reveal_strlit(".");
        assert("."@ == seq!['.']);
        assert(texts(sa@)[0] == sa@[0]@);
        assert(texts(sb@)[0] == sb@[0]@);
    }
    let here_a: bool = same_text(sa[0].as_str(), ".");
    let here_b: bool = same_text(sb[0].as_str(), ".");
    if root_a != root_b || here_a != here_b {
        return false;
    }
    let pa: Vec<String> = pieces_of(a);
    let pb: Vec<String> = pieces_of(b);
    if pa.len() != pb.len() {
        assert(named_pieces(a@).len() != named_pieces(b@).len());
        return false;
    }
    for i in 0..pa.len()
        invariant
            pa@.len() == pb@.len(),
            texts(pa@) == named_pieces(a@),
            texts(pb@) == named_pieces(b@),
            forall|j: int| 0 <= j < i ==> texts(pa@)[j] == texts(pb@)[j],
    {
        assert(texts(pa@)[i as int] == pa@[i as int]@);
        assert(texts(pb@)[i as int] == pb@[i as int]@);
        if !same_text(pa[i].as_str(), pb[i].as_str()) {
            return false;
        }
    }
    assert(named_pieces(a@) == named_pieces(b@));
    true
}

/// The last component of a joined path is the last component of what was
/// joined on, and a plain name is its own last component.
pub proof fn joined_name_is_last(base: Seq<char>, name: Seq<char>)
    requires
        names_something(name),
        name != seq!['.', '.'],
        !name.contains('/'),
    ensures
        file_name_of(path_join(base, name)) == Some(name),
{
    let whole = path_join(base, name);
    let stem = whole.take(whole.len() - name.len());
    assert(name[0] != '/') by {
        assert(name.contains(name[0]));
    }
    assert(whole == stem + name);
    assert(stem.len() == 0 || stem.last() == '/');
    last_piece_of_name(stem, name);
    let pieces = split_on(whole, '/');
    let keep = |p: Seq<char>| names_something(p);
    reveal_with_fuel(Seq::filter, 1);
    assert(pieces.filter(keep) == pieces.drop_last().filter(keep).push(pieces.last()));
}

proof fn last_piece_of_name(stem: Seq<char>, name: Seq<char>)
    requires
        stem.len() == 0 || stem.last() == '/',
        !name.contains('/'),
    ensures
        split_on(stem + name, '/').len() > 0,
        split_on(stem + name, '/').last() == name,
    decreases name.len(),
{
    let whole = stem + name;
    if name.len() == 0 {
        assert(whole == stem);
        if stem.len() > 0 {
            assert(marks(stem, '/')[stem.len() - 1]);
        }
        assert(split_on(whole, '/').last() == name);
    } else {
        let shorter = name.drop_last();
        assert(!shorter.contains('/')) by {
            if shorter.contains('/') {
                let i = choose|i: int| 0 <= i < shorter.len() && shorter[i] == '/';
                assert(name[i] == '/');
            }
        }
        last_piece_of_name(stem, shorter);
        assert(name.last() != '/') by {
            assert(name.contains(name.last()));
        }
        assert(whole.drop_last() == stem + shorter);
        assert(marks(whole, '/').drop_last() == marks(stem + shorter, '/'));
        assert(whole.last() == name.last());
        assert(split_on(whole, '/').last() == shorter.push(name.last()));
        assert(shorter.push(name.last()) == name);
    }
}

/// The last component of a path names something other than the parent and has
/// no separator in it.
pub proof fn file_name_is_plain(path: Seq<char>)
    requires
        file_name_of(path) is Some,
    ensures
        ({
            let name = file_name_of(path).unwrap();
            names_something(name) && name != seq!['.', '.'] && !name.contains('/')
        }),
{
    broadcast use vstd::seq_lib::group_filter_ensures;

    let keep = |p: Seq<char>| names_something(p);
    let pieces = split_on(path, '/');
    let kept = named_pieces(path);
    assert(kept.contains(kept.last()));
    assert(keep(kept.last()));
    pieces.lemma_filter_contains_rev(keep, kept.last());
    pieces_have_no_separator(path);
}

proof fn pieces_have_no_separator(path: Seq<char>)
    ensures
        split_on(path, '/').len() > 0,
        forall|i: int| 0 <= i < split_on(path, '/').len() ==> !(#[trigger] split_on(path, '/')[i]).contains('/'),
    decreases path.len(),
{
    if path.len() > 0 {
        let front = path.drop_last();
        pieces_have_no_separator(front);
        assert(marks(path, '/').drop_last() == marks(front, '/'));
        let before = split_on(front, '/');
        let after = split_on(path, '/');
        assert forall|i: int| 0 <= i < after.len() implies !(#[trigger] after[i]).contains('/') by {
            if path.last() == '/' {
                if i < before.len() {
                    assert(after[i] == before[i]);
                }
            } else if i < before.len() - 1 {
                assert(after[i] == before[i]);
            } else {
                let piece = before.last();
                assert(after[i] == piece.push(path.last()));
                assert(!piece.contains('/'));
                if after[i].contains('/') {
                    let k = choose|k: int| 0 <= k < after[i].len() && after[i][k] == '/';
                    assert(k < piece.len());
                    assert(piece[k] == '/');
                }
            }
        }
    }
}

} // verus!
