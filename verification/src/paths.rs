//! Slash-separated paths as text.

use crate::text::{chars_of, from_chars, same};
use vstd::prelude::*;
use vstd::string::*;

verus! {

/// A path from the root.
pub open spec fn absolute(path: Seq<char>) -> bool {
    path.len() > 0 && path[0] == '/'
}

/// A path seen from a directory.
pub open spec fn joined(base: Seq<char>, path: Seq<char>) -> Seq<char> {
    if absolute(path) {
        path
    } else if base.len() > 0 && base.last() != '/' {
        base + seq!['/'] + path
    } else {
        base + path
    }
}

pub fn is_absolute(path: &str) -> (r: bool)
    ensures
        r == absolute(path@),
{
    let chars = chars_of(path);
    chars.len() > 0 && chars[0] == '/'
}

pub fn join(base: &str, path: &str) -> (r: String)
    ensures
        r@ == joined(base@, path@),
{
    if is_absolute(path) {
        return path.to_owned();
    }
    let mut out: String = base.to_owned();
    let chars = chars_of(base);
    if chars.len() > 0 && chars[chars.len() - 1] != '/' {
        proof {
            reveal_strlit("/");
            assert("/"@ =~= seq!['/']);
        }
        out.append("/");
    }
    out.append(path);
    out
}

/// What stands between the slashes of a path.
pub open spec fn pieces(path: Seq<char>) -> Seq<Seq<char>>
    decreases path.len(),
{
    if path.len() == 0 {
        seq![Seq::empty()]
    } else if path.last() == '/' {
        pieces(path.drop_last()).push(Seq::empty())
    } else {
        let before = pieces(path.drop_last());
        before.drop_last().push(before.last().push(path.last()))
    }
}

/// Whether a piece names a step: empty ones do not, nor does a dot that is not the first.
pub open spec fn names_step(piece: Seq<char>, i: int) -> bool {
    piece.len() > 0 && (i == 0 || piece != seq!['.'])
}

/// The steps that a path's first pieces name.
pub open spec fn steps(pieces: Seq<Seq<char>>) -> Seq<Seq<char>>
    decreases pieces.len(),
{
    if pieces.len() == 0 {
        Seq::empty()
    } else if names_step(pieces.last(), pieces.len() - 1) {
        steps(pieces.drop_last()).push(pieces.last())
    } else {
        steps(pieces.drop_last())
    }
}

/// Two paths that name the same steps from the same place.
pub open spec fn same_path(a: Seq<char>, b: Seq<char>) -> bool {
    absolute(a) == absolute(b) && steps(pieces(a)) == steps(pieces(b))
}

/// What lists of characters hold.
spec fn views(list: Seq<Vec<char>>) -> Seq<Seq<char>> {
    list.map_values(|v: Vec<char>| v@)
}

/// The steps that a path names.
fn components(path: &str) -> (r: Vec<Vec<char>>)
    ensures
        views(r@) == steps(pieces(path@)),
{
    let chars = chars_of(path);
    let mut out: Vec<Vec<char>> = Vec::new();
    let mut piece: Vec<char> = Vec::new();
    let mut index: usize = 0;
    let mut i: usize = 0;
    proof {
        assert(chars@.take(0) =~= Seq::<char>::empty());
        assert(pieces(chars@.take(0)).drop_last() =~= Seq::<Seq<char>>::empty());
        assert(views(out@) =~= Seq::<Seq<char>>::empty());
    }
    while i < chars.len()
        invariant
            i <= chars@.len(),
            index <= i,
            pieces(chars@.take(i as int)).len() == index + 1,
            pieces(chars@.take(i as int)).last() == piece@,
            views(out@) == steps(pieces(chars@.take(i as int)).drop_last()),
        decreases chars@.len() - i,
    {
        let ghost before = pieces(chars@.take(i as int));
        let ghost after = pieces(chars@.take(i + 1));
        let ghost kept = views(out@);
        proof {
            assert(chars@.take(i + 1).drop_last() =~= chars@.take(i as int));
            assert(chars@.take(i + 1).last() == chars@[i as int]);
        }
        if chars[i] == '/' {
            assert(after.drop_last() =~= before);
            let dot: bool = piece.len() == 1 && piece[0] == '.';
            assert(dot == (piece@ =~= seq!['.']));
            let mut next: Vec<char> = Vec::new();
            if piece.len() > 0 && (index == 0 || !dot) {
                std::mem::swap(&mut next, &mut piece);
                out.push(next);
                assert(views(out@) =~= kept.push(before.last()));
            } else {
                piece = next;
            }
            index = index + 1;
        } else {
            piece.push(chars[i]);
            assert(after.drop_last() =~= before.drop_last());
        }
        i = i + 1;
    }
    assert(chars@.take(i as int) =~= path@);
    let ghost whole = pieces(path@);
    let ghost kept = views(out@);
    let dot: bool = piece.len() == 1 && piece[0] == '.';
    assert(dot == (piece@ =~= seq!['.']));
    if piece.len() > 0 && (index == 0 || !dot) {
        out.push(piece);
        assert(views(out@) =~= kept.push(whole.last()));
    }
    out
}

/// Whether two paths name the same steps from the same place.
pub fn equal(a: &str, b: &str) -> (r: bool)
    ensures
        r == same_path(a@, b@),
{
    if is_absolute(a) != is_absolute(b) {
        return false;
    }
    let first = components(a);
    let second = components(b);
    let ghost x = views(first@);
    let ghost y = views(second@);
    if first.len() != second.len() {
        assert(x.len() != y.len());
        return false;
    }
    let mut i: usize = 0;
    while i < first.len()
        invariant
            first@.len() == second@.len(),
            x == views(first@),
            y == views(second@),
            x == steps(pieces(a@)),
            y == steps(pieces(b@)),
            i <= first@.len(),
            forall|k: int| 0 <= k < i ==> x[k] == y[k],
        decreases first@.len() - i,
    {
        assert(x[i as int] == first@[i as int]@);
        assert(y[i as int] == second@[i as int]@);
        if !same(from_chars(first[i].as_slice()).as_str(), from_chars(second[i].as_slice()).as_str()) {
            return false;
        }
        i = i + 1;
    }
    assert(x =~= y);
    true
}

/// A path seen from a directory is absolute exactly where one of the two is.
pub proof fn law_joined_absolute(base: Seq<char>, path: Seq<char>)
    ensures
        absolute(joined(base, path)) == (absolute(path) || absolute(base)),
{
}

/// A path from the root stays as it is seen from any directory; any other stands behind the
/// directory and one slash, which is not doubled.
pub proof fn law_join(base: &str, path: &str, r: String)
    requires
        call_ensures(join, (base, path), r),
    ensures
        path@.len() > 0 && path@[0] == '/' ==> r@ == path@,
        !(path@.len() > 0 && path@[0] == '/') && base@.len() > 0 && base@.last() == '/' ==> r@ == base@ + path@,
        !(path@.len() > 0 && path@[0] == '/') && base@.len() > 0 && base@.last() != '/' ==> r@ == base@ + seq!['/']
            + path@,
        !(path@.len() > 0 && path@[0] == '/') && base@.len() == 0 ==> r@ == path@,
{
    if base@.len() == 0 {
        assert(base@ + path@ =~= path@);
    }
}

/// A name without slashes behind a slash is the last piece of a path.
proof fn lemma_last_piece(path: Seq<char>, name: Seq<char>)
    requires
        !name.contains('/'),
    ensures
        pieces(path + seq!['/'] + name) == pieces(path).push(name),
    decreases name.len(),
{
    let whole = path + seq!['/'] + name;
    if name.len() == 0 {
        assert(whole.drop_last() =~= path);
        assert(name =~= Seq::<char>::empty());
    } else {
        let shorter = name.drop_last();
        assert forall|i: int| 0 <= i < shorter.len() implies shorter[i] != '/' by {
            assert(name.contains(name[i]));
        }
        assert(whole.drop_last() =~= path + seq!['/'] + shorter);
        assert(name.contains(name.last()));
        lemma_last_piece(path, shorter);
        let before = pieces(whole.drop_last());
        assert(before.last().push(whole.last()) =~= name);
        assert(before.drop_last() =~= pieces(path));
    }
}

/// Every path has a piece.
proof fn lemma_has_piece(path: Seq<char>)
    ensures
        pieces(path).len() > 0,
    decreases path.len(),
{
    if path.len() > 0 {
        lemma_has_piece(path.drop_last());
    }
}

/// A slash at the end, or a step that stays where it is, names the same path; a further step with
/// a name of its own leads to another.
pub proof fn law_same_path(path: Seq<char>, name: Seq<char>)
    requires
        path.len() > 0,
        name.len() > 0,
        !name.contains('/'),
        name != seq!['.'],
    ensures
        same_path(path, path),
        same_path(path + seq!['/'], path),
        same_path(path + seq!['/'] + seq!['.'], path),
        !same_path(path + seq!['/'] + name, path),
        same_path(path + seq!['/'] + seq!['/'] + name, path + seq!['/'] + name),
{
    lemma_has_piece(path);
    let none = Seq::<char>::empty();
    assert(path + seq!['/'] + none =~= path + seq!['/']);
    lemma_last_piece(path, none);
    assert(pieces(path + seq!['/']).drop_last() =~= pieces(path));
    assert(!seq!['.'].contains('/'));
    lemma_last_piece(path, seq!['.']);
    assert(pieces(path + seq!['/'] + seq!['.']).drop_last() =~= pieces(path));
    lemma_last_piece(path, name);
    assert(pieces(path + seq!['/'] + name).drop_last() =~= pieces(path));
    assert(steps(pieces(path + seq!['/'] + name)) == steps(pieces(path)).push(name));
    lemma_last_piece(path + seq!['/'], name);
    let wide = pieces(path + seq!['/'] + seq!['/'] + name);
    assert(wide.drop_last() =~= pieces(path + seq!['/']));
    assert(steps(wide) == steps(pieces(path + seq!['/'])).push(name));
}

} // verus!
