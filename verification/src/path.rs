//! Paths compared as `std::path::Path` compares them on Unix: by their
//! components, so that repeated separators, a trailing separator and `.`
//! components after the first make no difference.

use crate::text::chars_of;
use vstd::prelude::*;

verus! {

/// The component that a piece between separators gives: none for an empty
/// piece or `.`, the piece itself otherwise (`..` included).
pub open spec fn piece_component(piece: Seq<char>) -> Seq<Seq<char>> {
    if piece.len() == 0 || piece == seq!['.'] {
        seq![]
    } else {
        seq![piece]
    }
}

/// The components of `rest`, given that `cur` holds the characters already
/// read of the piece in progress.
pub open spec fn pieces_after(cur: Seq<char>, rest: Seq<char>) -> Seq<Seq<char>>
    decreases rest.len(),
{
    if rest.len() == 0 {
        piece_component(cur)
    } else if rest[0] == '/' {
        piece_component(cur) + pieces_after(seq![], rest.drop_first())
    } else {
        pieces_after(cur.push(rest[0]), rest.drop_first())
    }
}

/// The path starts at the root.
pub open spec fn has_root(s: Seq<char>) -> bool {
    s.len() > 0 && s[0] == '/'
}

/// The path starts with a `.` component, which (unlike later ones) counts.
pub open spec fn starts_with_cur_dir(s: Seq<char>) -> bool {
    s.len() > 0 && s[0] == '.' && (s.len() == 1 || s[1] == '/')
}

/// The components of a path, as `Path::components` yields them on Unix: the
/// root (written `/`), a leading `.`, then the non-empty pieces between
/// separators other than `.`.
pub open spec fn path_key(s: Seq<char>) -> Seq<Seq<char>> {
    (if has_root(s) {
        seq![seq!['/']]
    } else {
        seq![]
    }) + (if starts_with_cur_dir(s) {
        seq![seq!['.']]
    } else {
        seq![]
    }) + pieces_after(seq![], s)
}

/// A piece with no separator in what is left gives the component of the
/// whole piece.
proof fn lemma_pieces_no_slash(cur: Seq<char>, rest: Seq<char>)
    requires
        forall|i: int| 0 <= i < rest.len() ==> rest[i] != '/',
    ensures
        pieces_after(cur, rest) == piece_component(cur + rest),
    decreases rest.len(),
{
    if rest.len() == 0 {
        assert(cur + rest == cur);
    } else {
        lemma_pieces_no_slash(cur.push(rest[0]), rest.drop_first());
        assert(cur.push(rest[0]) + rest.drop_first() == cur + rest);
    }
}

/// The pieces of `a`, a separator and `b`: the piece `cur + a` is closed by
/// the separator, and `b` is taken apart on its own.
proof fn lemma_pieces_split(cur: Seq<char>, a: Seq<char>, b: Seq<char>)
    requires
        forall|i: int| 0 <= i < a.len() ==> a[i] != '/',
    ensures
        pieces_after(cur, a + seq!['/'] + b) == piece_component(cur + a) + pieces_after(seq![], b),
    decreases a.len(),
{
    let s = a + seq!['/'] + b;
    if a.len() == 0 {
        assert(s[0] == '/');
        assert(s.drop_first() == b);
        assert(cur + a == cur);
    } else {
        assert(s[0] == a[0]);
        assert(s.drop_first() == a.drop_first() + seq!['/'] + b);
        lemma_pieces_split(cur.push(a[0]), a.drop_first(), b);
        assert(cur.push(a[0]) + a.drop_first() == cur + a);
    }
}

/// A name with no separator, other than `.`, is a path of exactly one
/// component, the name itself, character for character.
pub proof fn lemma_single_name_path(s: Seq<char>)
    requires
        s.len() > 0,
        forall|i: int| 0 <= i < s.len() ==> s[i] != '/',
        s != seq!['.'],
    ensures
        path_key(s) == seq![s],
{
    lemma_pieces_no_slash(seq![], s);
    assert(seq![] + s == s);
    assert(!starts_with_cur_dir(s)) by {
        if s.len() == 1 && s[0] == '.' {
            assert(s == seq!['.']);
        }
    }
    assert(path_key(s) == Seq::<Seq<char>>::empty() + Seq::<Seq<char>>::empty() + seq![s]);
}

/// Two names with no separator, other than `.`, are the same path exactly
/// when they are the same text.
pub proof fn lemma_single_names_same_path(a: Seq<char>, b: Seq<char>)
    requires
        a.len() > 0,
        b.len() > 0,
        forall|i: int| 0 <= i < a.len() ==> a[i] != '/',
        forall|i: int| 0 <= i < b.len() ==> b[i] != '/',
        a != seq!['.'],
        b != seq!['.'],
    ensures
        path_key(a) == path_key(b) <==> a == b,
{
    lemma_single_name_path(a);
    lemma_single_name_path(b);
    if path_key(a) == path_key(b) {
        assert(seq![a][0] == seq![b][0]);
    }
}

/// A relative path that starts with a name is that name followed by the
/// components of the rest.
pub proof fn lemma_name_then_path(a: Seq<char>, b: Seq<char>)
    requires
        a.len() > 0,
        forall|i: int| 0 <= i < a.len() ==> a[i] != '/',
        a != seq!['.'],
        b.len() == 0 || (b[0] != '/' && !(b[0] == '.' && (b.len() == 1 || b[1] == '/'))),
    ensures
        path_key(a + seq!['/'] + b) == seq![a] + path_key(b),
{
    let s = a + seq!['/'] + b;
    lemma_pieces_split(seq![], a, b);
    assert(seq![] + a == a);
    assert(piece_component(a) == seq![a]) by {
        if a.len() == 1 && a[0] == '.' {
            assert(a == seq!['.']);
        }
    }
    assert(s[0] == a[0]);
    assert(!has_root(s));
    assert(!starts_with_cur_dir(s)) by {
        if a.len() == 1 {
            assert(a[0] != '.') by {
                if a[0] == '.' {
                    assert(a == seq!['.']);
                }
            }
        } else {
            assert(s[1] == a[1]);
        }
    }
    assert(!has_root(b));
    assert(!starts_with_cur_dir(b));
    assert(path_key(s) == Seq::<Seq<char>>::empty() + Seq::<Seq<char>>::empty() + pieces_after(seq![], s));
    assert(path_key(b) == Seq::<Seq<char>>::empty() + Seq::<Seq<char>>::empty() + pieces_after(seq![], b));
}

/// The views of a list of character lists.
pub open spec fn char_views(v: Seq<Vec<char>>) -> Seq<Seq<char>> {
    v.map_values(|c: Vec<char>| c@)
}

/// Appends the component of a finished piece.
fn push_piece(parts: &mut Vec<Vec<char>>, piece: Vec<char>)
    ensures
        char_views(final(parts)@) == char_views(old(parts)@) + piece_component(piece@),
{
    let ghost before = char_views(parts@);
    if piece.len() == 0 || (piece.len() == 1 && piece[0] == '.') {
        assert(piece.len() == 0 || piece@ == seq!['.']);
        assert(char_views(parts@) == before + piece_component(piece@));
    } else {
        let ghost p = piece@;
        parts.push(piece);
        assert(char_views(parts@) == before.push(p));
        assert(before + piece_component(p) == before.push(p));
    }
}

/// The components of a path.
pub fn path_components(s: &str) -> (res: Vec<Vec<char>>)
    ensures
        char_views(res@) == path_key(s@),
{
    let chars = chars_of(s);
    let n = chars.len();
    let mut parts: Vec<Vec<char>> = Vec::new();
    if n > 0 && chars[0] == '/' {
        let mut root: Vec<char> = Vec::new();
        root.push('/');
        parts.push(root);
    }
    if n > 0 && chars[0] == '.' && (n == 1 || chars[1] == '/') {
        let mut cur_dir: Vec<char> = Vec::new();
        cur_dir.push('.');
        let ghost before = char_views(parts@);
        parts.push(cur_dir);
        assert(char_views(parts@) == before.push(seq!['.']));
    }
    let ghost prefix = char_views(parts@);
    assert(prefix == (if has_root(s@) {
        seq![seq!['/']]
    } else {
        seq![]
    }) + (if starts_with_cur_dir(s@) {
        seq![seq!['.']]
    } else {
        seq![]
    }));
    let mut cur: Vec<char> = Vec::new();
    assert(s@.skip(0) == s@);
    for i in 0..n
        invariant
            n == chars@.len(),
            chars@ == s@,
            path_key(s@) == prefix + pieces_after(seq![], s@),
            prefix + pieces_after(seq![], s@) == char_views(parts@) + pieces_after(
                cur@,
                s@.skip(i as int),
            ),
    {
        let c = chars[i];
        let ghost rest = s@.skip(i as int);
        assert(rest[0] == c);
        assert(rest.drop_first() == s@.skip(i + 1));
        if c == '/' {
            let ghost before = char_views(parts@);
            let ghost comp = piece_component(cur@);
            push_piece(&mut parts, cur);
            cur = Vec::new();
            assert(before + (comp + pieces_after(seq![], s@.skip(i + 1))) == char_views(parts@)
                + pieces_after(cur@, s@.skip(i + 1)));
        } else {
            cur.push(c);
        }
    }
    assert(s@.skip(n as int).len() == 0);
    push_piece(&mut parts, cur);
    parts
}

/// Whether two lists of characters are equal.
fn chars_equal(a: &Vec<char>, b: &Vec<char>) -> (res: bool)
    ensures
        res == (a@ == b@),
{
    if a.len() != b.len() {
        return false;
    }
    for i in 0..a.len()
        invariant
            a@.len() == b@.len(),
            forall|j: int| 0 <= j < i ==> a@[j] == b@[j],
    {
        if a[i] != b[i] {
            return false;
        }
    }
    assert(a@ =~= b@);
    true
}

/// Whether two paths name the same file as `Path`'s `==` sees it: they have
/// the same components.
pub fn same_path(a: &str, b: &str) -> (res: bool)
    ensures
        res == (path_key(a@) == path_key(b@)),
{
    let pa = path_components(a);
    let pb = path_components(b);
    if pa.len() != pb.len() {
        assert(char_views(pa@).len() != char_views(pb@).len());
        return false;
    }
    for i in 0..pa.len()
        invariant
            pa@.len() == pb@.len(),
            char_views(pa@) == path_key(a@),
            char_views(pb@) == path_key(b@),
            forall|j: int| 0 <= j < i ==> pa@[j]@ == pb@[j]@,
    {
        if !chars_equal(&pa[i], &pb[i]) {
            assert(char_views(pa@)[i as int] != char_views(pb@)[i as int]);
            return false;
        }
    }
    assert(char_views(pa@) =~= char_views(pb@));
    true
}

} // verus!
