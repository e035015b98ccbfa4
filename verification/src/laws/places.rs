//! Paths: what they are made of.

use vstd::prelude::*;

use crate::paths::{
    extension_of_name, file_name_of, is_absolute, is_last_dot, is_under, lower_extension, named_pieces,
    names_something, path_join, same_components,
};
use crate::text::{lowercase, marks, pieces_of_parts, split_on};

verus! {

/// A path is under a directory if and only if it is the directory or goes on
/// behind it with a separator.
pub proof fn under_goes_by_components(path: Seq<char>, root: Seq<char>)
    requires
        root.len() > 0,
        root.last() != '/',
    ensures
        is_under(path, root) <==> path == root || exists|rest: Seq<char>| path == #[trigger] (root.push('/')
            + rest),
{
    if is_under(path, root) && path != root {
        if path.len() == root.len() {
            assert(path == root);
        }
        let rest = path.skip((root.len() + 1) as int);
        assert(path == root.push('/') + rest);
    }
    if path == root {
        assert(root.is_prefix_of(path));
    }
    if exists|rest: Seq<char>| path == #[trigger] (root.push('/') + rest) {
        let rest = choose|rest: Seq<char>| path == #[trigger] (root.push('/') + rest);
        assert(path[root.len() as int] == '/');
        assert(root.is_prefix_of(path));
    }
}

/// A name that is put behind a path adds one component to it and changes nothing
/// of what is in front.
pub proof fn joined_name_adds_a_component(base: Seq<char>, name: Seq<char>)
    requires
        names_something(name),
        !name.contains('/'),
    ensures
        named_pieces(path_join(base, name)) == named_pieces(base).push(name),
        base.is_prefix_of(path_join(base, name)),
        base.len() > 0 ==> is_absolute(path_join(base, name)) == is_absolute(base),
{
    let keep = |p: Seq<char>| names_something(p);
    assert(!is_absolute(name)) by {
        if is_absolute(name) {
            assert(name.contains(name[0]));
        }
    }
    name_is_one_piece(name);
    if base.len() > 0 && base.last() != '/' {
        pieces_behind_separator(base, name);
        assert(path_join(base, name) == base.push('/') + name);
        Seq::filter_distributes_over_add(split_on(base, '/'), split_on(name, '/'), keep);
    } else if base.len() > 0 {
        let stem = base.drop_last();
        let nothing = Seq::<char>::empty();
        assert(base == stem.push('/') + nothing);
        pieces_behind_separator(stem, nothing);
        pieces_behind_separator(stem, name);
        assert(path_join(base, name) == stem.push('/') + name);
        Seq::filter_distributes_over_add(split_on(stem, '/'), split_on(name, '/'), keep);
        Seq::filter_distributes_over_add(split_on(stem, '/'), split_on(nothing, '/'), keep);
        nothing_has_no_name();
        assert(named_pieces(base) == named_pieces(stem));
    } else {
        assert(base == Seq::<char>::empty());
        assert(path_join(base, name) == name);
        nothing_has_no_name();
    }
    assert(named_pieces(name) == seq![name]);
    assert(named_pieces(path_join(base, name)) == named_pieces(base) + seq![name]);
}

proof fn pieces_behind_separator(a: Seq<char>, b: Seq<char>)
    ensures
        split_on(a.push('/') + b, '/') == split_on(a, '/') + split_on(b, '/'),
{
    pieces_of_parts(a, marks(a, '/'), '/', b, marks(b, '/'));
    assert(marks(a.push('/') + b, '/') == marks(a, '/').push(true) + marks(b, '/'));
}

proof fn nothing_has_no_name()
    ensures
        named_pieces(Seq::empty()) == Seq::<Seq<char>>::empty(),
{
    let nothing = Seq::<char>::empty();
    let pieces = split_on(nothing, '/');
    assert(pieces == seq![nothing]);
    reveal_with_fuel(Seq::filter, 2);
    assert(pieces.drop_last() == Seq::<Seq<char>>::empty());
}

proof fn name_is_one_piece(name: Seq<char>)
    requires
        names_something(name),
        !name.contains('/'),
    ensures
        named_pieces(name) == seq![name],
{
    crate::scanner::classifier::one_piece(name);
    let pieces = split_on(name, '/');
    reveal_with_fuel(Seq::filter, 2);
    assert(pieces.drop_last() == Seq::<Seq<char>>::empty());
    assert(pieces.last() == name);
    assert(named_pieces(name) == Seq::<Seq<char>>::empty().push(name));
}

/// What is behind the last dot of a name is its extension, unless the dot is at
/// its start.
pub proof fn extension_is_behind_the_last_dot(stem: Seq<char>, ext: Seq<char>)
    requires
        !ext.contains('.'),
    ensures
        extension_of_name(stem.push('.') + ext) == if stem.len() > 0 {
            Some(ext)
        } else {
            None
        },
{
    let name = stem.push('.') + ext;
    let at = stem.len() as int;
    assert forall|j: int| at < j < name.len() implies name[j] != '.' by {
        assert(name[j] == ext[j - at - 1]);
        assert(ext.contains(ext[j - at - 1]));
    }
    assert(is_last_dot(name, at));
    assert forall|k: int| is_last_dot(name, k) implies k == at by {
        if k > at {
            assert(name[k] != '.');
        }
    }
    assert(name.skip(at + 1) == ext);
}

/// A name without a dot has no extension.
pub proof fn no_dot_no_extension(name: Seq<char>)
    requires
        !name.contains('.'),
    ensures
        extension_of_name(name) is None,
{
    assert forall|i: int| !is_last_dot(name, i) by {
        if is_last_dot(name, i) {
            assert(name.contains(name[i]));
        }
    }
}

/// A file in a directory has the name that it was put there under, and that
/// name's extension in lowercase.
pub proof fn file_has_its_name_and_extension(dir: Seq<char>, stem: Seq<char>, ext: Seq<char>)
    requires
        stem.len() > 0,
        ext.len() > 0,
        !stem.contains('/'),
        !ext.contains('/'),
        !ext.contains('.'),
    ensures
        file_name_of(path_join(dir, stem.push('.') + ext)) == Some(stem.push('.') + ext),
        lower_extension(path_join(dir, stem.push('.') + ext)) == lowercase(ext),
{
    let name = stem.push('.') + ext;
    assert(!name.contains('/')) by {
        if name.contains('/') {
            let i = choose|i: int| 0 <= i < name.len() && name[i] == '/';
            if i < stem.len() {
                assert(stem.contains(stem[i]));
            } else {
                assert(ext.contains(ext[i - stem.len() - 1]));
            }
        }
    }
    assert(name != seq!['.', '.']) by {
        if name == seq!['.', '.'] {
            assert(ext.contains(ext.last()));
        }
    }
    assert(names_something(name));
    crate::paths::joined_name_is_last(dir, name);
    extension_is_behind_the_last_dot(stem, ext);
}

/// Paths with the same components are the same directory, with or without
/// separators at their ends.
pub proof fn separator_at_the_end_makes_no_difference(path: Seq<char>)
    requires
        path.len() > 0,
    ensures
        same_components(path, path.push('/')),
{
    let keep = |p: Seq<char>| names_something(p);
    let nothing = Seq::<char>::empty();
    assert(path.push('/') == path.push('/') + nothing);
    pieces_behind_separator(path, nothing);
    Seq::filter_distributes_over_add(split_on(path, '/'), split_on(nothing, '/'), keep);
    nothing_has_no_name();
    pieces_of_parts(nothing, marks(nothing, '/'), '/', path, marks(path, '/'));
    assert(named_pieces(path.push('/')) == named_pieces(path) + named_pieces(nothing));
    assert(split_on(path.push('/'), '/')[0] == split_on(path, '/')[0]);
}

/// The name of a file is the last component of its path, unless that goes up.
pub proof fn name_is_the_last_component(path: Seq<char>)
    ensures
        file_name_of(path) is Some <==> named_pieces(path).len() > 0 && named_pieces(path).last() != seq![
            '.',
            '.',
        ],
        file_name_of(path) is Some ==> file_name_of(path)->0 == named_pieces(path).last(),
{
}

/// A path that begins at the root stays as it is, whatever it is put behind.
pub proof fn absolute_path_stays(base: Seq<char>, path: Seq<char>)
    requires
        path.len() > 0,
        path[0] == '/',
    ensures
        path_join(base, path) == path,
{
}

/// Everything is under a directory whose text ends with a separator that begins
/// with its text.
pub proof fn under_a_separator(path: Seq<char>, root: Seq<char>)
    requires
        root.len() > 0,
        root.last() == '/',
    ensures
        is_under(path, root) <==> root.is_prefix_of(path),
{
}

/// Paths are the same directory only if they have the same components, from the
/// root or not; every path is the same as itself.
pub proof fn same_directory_has_same_components(a: Seq<char>, b: Seq<char>)
    ensures
        same_components(a, a),
        same_components(a, b) ==> same_components(b, a),
        same_components(a, b) ==> named_pieces(a) == named_pieces(b) && is_absolute(a) == is_absolute(b),
        is_absolute(a) && is_absolute(b) && named_pieces(a) == named_pieces(b) ==> same_components(a, b),
{
    if is_absolute(a) {
        root_is_no_dot(a);
    }
    if is_absolute(b) {
        root_is_no_dot(b);
    }
}

proof fn root_is_no_dot(path: Seq<char>)
    requires
        is_absolute(path),
    ensures
        split_on(path, '/')[0] == Seq::<char>::empty(),
{
    let nothing = Seq::<char>::empty();
    let rest = path.drop_first();
    assert(path == nothing.push('/') + rest);
    pieces_behind_separator(nothing, rest);
    assert(split_on(nothing, '/') == seq![nothing]);
}

} // verus!
