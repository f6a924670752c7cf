//! Turning the functions of a source file into stubs: the first line of
//! each function's body starts with a `panic!` followed by the opening of a
//! block comment, which the line before the closing brace closes.

use crate::fn_info::FnInfo;
use crate::fn_map::FnMap;
use crate::path::path_key;
use crate::text::{
    join, joined, lemma_join_lines_roundtrip, no_cr, no_final_newline, split_lines, text_lines, views,
};
use vstd::prelude::*;

verus! {

/// What is put in front of the first body line of the function `name`.
pub open spec fn stub_opening(name: Seq<char>) -> Seq<char> {
    "panic!(\"Function "@ + name + " is stubbed!\")/*"@
}

/// What is put after the last body line of a stubbed function.
pub open spec fn stub_closing() -> Seq<char> {
    "*/"@
}

/// The 0-based index of the first body line of `f`: its span starts on the
/// declaration, the line after it is the first of the body.
pub open spec fn first_body_line(f: FnInfo) -> int {
    f.lo_line as int
}

/// The 0-based index of the last body line of `f`: the line before the one
/// that holds the closing brace.
pub open spec fn last_body_line(f: FnInfo) -> int {
    f.hi_line - 2
}

/// `f` can be stubbed in a text of `n` lines: it has a name, and both its
/// first and last body lines are lines of the text.
pub open spec fn stub_fits(f: FnInfo, n: int) -> bool {
    &&& f.name is Some
    &&& 0 <= first_body_line(f) < n
    &&& 0 <= last_body_line(f) < n
}

/// Every function of `fns` can be stubbed in a text of `n` lines.
pub open spec fn all_fit(fns: Seq<FnInfo>, n: int) -> bool {
    forall|k: int| 0 <= k < fns.len() ==> stub_fits(#[trigger] fns[k], n)
}

/// The lines with `f` stubbed: the opening goes in front of its first body
/// line, then the closing after its last body line.
pub open spec fn stub_one(lines: Seq<Seq<char>>, f: FnInfo) -> Seq<Seq<char>> {
    let a = first_body_line(f);
    let b = last_body_line(f);
    let opened = lines.update(a, stub_opening(f.name.unwrap()@) + lines[a]);
    opened.update(b, opened[b] + stub_closing())
}

/// The lines with the functions of `fns` stubbed one after another.
pub open spec fn stub_all(lines: Seq<Seq<char>>, fns: Seq<FnInfo>) -> Seq<Seq<char>>
    decreases fns.len(),
{
    if fns.len() == 0 {
        lines
    } else {
        stub_one(stub_all(lines, fns.drop_last()), fns.last())
    }
}

/// The source `src` with the functions of `fns` stubbed, its lines joined
/// by newlines.
pub open spec fn stubbed_text(src: Seq<char>, fns: Seq<FnInfo>) -> Seq<char> {
    joined(stub_all(text_lines(src), fns), "\n"@)
}

/// Stubbing keeps the number of lines.
pub proof fn lemma_stub_keeps_line_count(lines: Seq<Seq<char>>, fns: Seq<FnInfo>)
    requires
        all_fit(fns, lines.len() as int),
    ensures
        stub_all(lines, fns).len() == lines.len(),
    decreases fns.len(),
{
    if fns.len() > 0 {
        lemma_stub_keeps_line_count(lines, fns.drop_last());
        assert(stub_fits(fns[fns.len() - 1], lines.len() as int));
    }
}

/// Stubbing leaves every line alone that is neither the first nor the last
/// body line of one of the stubbed functions.
pub proof fn lemma_stub_keeps_other_lines(lines: Seq<Seq<char>>, fns: Seq<FnInfo>, j: int)
    requires
        all_fit(fns, lines.len() as int),
        0 <= j < lines.len(),
        forall|k: int|
            0 <= k < fns.len() ==> first_body_line(#[trigger] fns[k]) != j && last_body_line(
                fns[k],
            ) != j,
    ensures
        stub_all(lines, fns)[j] == lines[j],
    decreases fns.len(),
{
    if fns.len() > 0 {
        lemma_stub_keeps_line_count(lines, fns.drop_last());
        lemma_stub_keeps_other_lines(lines, fns.drop_last(), j);
        assert(first_body_line(fns[fns.len() - 1]) != j);
    }
}

/// The body lines of `f` and `g` are all different lines.
pub open spec fn apart(f: FnInfo, g: FnInfo) -> bool {
    &&& f.lo_line != g.lo_line
    &&& f.lo_line != g.hi_line - 2
    &&& f.hi_line - 2 != g.lo_line
    &&& f.hi_line - 2 != g.hi_line - 2
}

/// Every listed function whose body lines no other listed function touches
/// is stubbed, whatever the others are called: its first body line (index
/// `lo_line`) gets the panic and the comment opening in front, and its last
/// body line (index `hi_line - 2`) the comment closing at the end.
pub proof fn lemma_each_function_stubbed(lines: Seq<Seq<char>>, fns: Seq<FnInfo>, k: int)
    requires
        all_fit(fns, lines.len() as int),
        0 <= k < fns.len(),
        forall|j: int| 0 <= j < fns.len() && j != k ==> apart(#[trigger] fns[j], fns[k]),
    ensures
        ({
            let f = fns[k];
            let a = f.lo_line as int;
            let b = f.hi_line - 2;
            let opening = "panic!(\"Function "@ + f.name.unwrap()@ + " is stubbed!\")/*"@;
            let out = stub_all(lines, fns);
            &&& a != b ==> out[a] == opening + lines[a] && out[b] == lines[b] + "*/"@
            &&& a == b ==> out[a] == opening + lines[a] + "*/"@
        }),
    decreases fns.len(),
{
    let f = fns[k];
    let a = f.lo_line as int;
    let b = f.hi_line - 2;
    let rest = fns.drop_last();
    assert(all_fit(rest, lines.len() as int)) by {
        assert forall|j: int| 0 <= j < rest.len() implies stub_fits(#[trigger] rest[j], lines.len() as int) by {
            assert(rest[j] == fns[j]);
        }
    }
    lemma_stub_keeps_line_count(lines, rest);
    assert(stub_fits(fns[fns.len() - 1], lines.len() as int));
    assert(stub_fits(f, lines.len() as int));
    if k == fns.len() - 1 {
        assert forall|j: int| 0 <= j < rest.len() implies first_body_line(#[trigger] rest[j]) != a
            && last_body_line(rest[j]) != a by {
            assert(rest[j] == fns[j]);
            assert(apart(fns[j], f));
        }
        lemma_stub_keeps_other_lines(lines, rest, a);
        assert forall|j: int| 0 <= j < rest.len() implies first_body_line(#[trigger] rest[j]) != b
            && last_body_line(rest[j]) != b by {
            assert(rest[j] == fns[j]);
            assert(apart(fns[j], f));
        }
        lemma_stub_keeps_other_lines(lines, rest, b);
        assert(fns.last() == f);
    } else {
        assert forall|j: int| 0 <= j < rest.len() && j != k implies apart(#[trigger] rest[j], rest[k]) by {
            assert(rest[j] == fns[j]);
        }
        assert(rest[k] == f);
        lemma_each_function_stubbed(lines, rest, k);
        let g = fns.last();
        assert(apart(g, f));
    }
}

/// Stubbing one function whose body spans more than one line opens its
/// first body line with the panic and the comment, closes the comment at the
/// end of its last body line, and changes no other line.
pub proof fn lemma_stub_single(lines: Seq<Seq<char>>, f: FnInfo)
    requires
        stub_fits(f, lines.len() as int),
        first_body_line(f) != last_body_line(f),
    ensures
        stub_all(lines, seq![f]).len() == lines.len(),
        stub_all(lines, seq![f])[first_body_line(f)] == stub_opening(f.name.unwrap()@)
            + lines[first_body_line(f)],
        stub_all(lines, seq![f])[last_body_line(f)] == lines[last_body_line(f)] + stub_closing(),
        forall|j: int|
            0 <= j < lines.len() && j != first_body_line(f) && j != last_body_line(f) ==> #[trigger] stub_all(
                lines,
                seq![f],
            )[j] == lines[j],
{
    assert(seq![f].drop_last() == Seq::<FnInfo>::empty());
    assert(seq![f].last() == f);
    assert(stub_all(lines, Seq::<FnInfo>::empty()) == lines);
    assert(stub_all(lines, seq![f]) == stub_one(lines, f));
}

/// A file with no function to stub comes back as it was, where it has no
/// carriage return and does not end in a newline.
pub proof fn lemma_nothing_to_stub(src: Seq<char>)
    requires
        no_cr(src),
        no_final_newline(src),
    ensures
        stubbed_text(src, seq![]) == src,
{
    lemma_join_lines_roundtrip(src);
}

/// Puts the stub opening in front of the first body line of `f` and the
/// closing after its last body line.
fn stub_into(lines: &mut Vec<String>, f: &FnInfo)
    requires
        stub_fits(*f, old(lines)@.len() as int),
    ensures
        views(final(lines)@) == stub_one(views(old(lines)@), *f),
        final(lines)@.len() == old(lines)@.len(),
{
    let name = match &f.name {
        Some(name) => name,
        None => unreached(),
    };
    let a = f.lo_line;
    let b = f.hi_line - 2;
    let opening = "panic!(\"Function ".to_owned().concat(name.as_str()).concat(" is stubbed!\")/*");
    let opened = opening.concat(lines[a].as_str());
    let ghost before = views(lines@);
    lines[a] = opened;
    assert(views(lines@) == before.update(a as int, stub_opening(name@) + before[a as int]));
    let closed = lines[b].clone().concat("*/");
    lines[b] = closed;
    assert(views(lines@) =~= stub_one(before, *f));
}

/// The source `src` with each function of `fns` turned into a stub, in the
/// order of `fns`; the lines of the result are joined by newlines.
pub fn stub_text(src: &str, fns: &Vec<FnInfo>) -> (res: String)
    requires
        all_fit(fns@, text_lines(src@).len() as int),
    ensures
        res@ == stubbed_text(src@, fns@),
{
    let mut lines = split_lines(src);
    let ghost original = text_lines(src@);
    let n = fns.len();
    for i in 0..n
        invariant
            n == fns@.len(),
            all_fit(fns@, original.len() as int),
            views(lines@) == stub_all(original, fns@.take(i as int)),
            lines@.len() == original.len(),
    {
        assert(fns@.take(i + 1).drop_last() == fns@.take(i as int));
        assert(fns@.take(i + 1).last() == fns@[i as int]);
        assert(stub_fits(fns@[i as int], original.len() as int));
        stub_into(&mut lines, &fns[i]);
    }
    assert(fns@.take(n as int) == fns@);
    join(&lines, "\n")
}

/// Whether every function of `fns` can be stubbed in a text of `n` lines.
pub fn fit_all(fns: &Vec<FnInfo>, n: usize) -> (res: bool)
    ensures
        res == all_fit(fns@, n as int),
{
    for i in 0..fns.len()
        invariant
            forall|k: int| 0 <= k < i ==> stub_fits(#[trigger] fns@[k], n as int),
    {
        let f = &fns[i];
        let named = match &f.name {
            Some(_) => true,
            None => false,
        };
        if !named || f.lo_line >= n || f.hi_line < 2 || f.hi_line - 2 >= n {
            assert(!stub_fits(fns@[i as int], n as int));
            return false;
        }
    }
    true
}

/// Supplies the source of each file with the recorded functions of that
/// file turned into stubs.
pub struct StubbingLoader {
    pub fns: FnMap,
}

impl StubbingLoader {
    /// A loader for the given functions.
    pub fn new(fns: FnMap) -> (res: StubbingLoader)
        ensures
            res.fns@ == fns@,
    {
        StubbingLoader { fns }
    }

    /// The source of the file `path` as the compiler gets it: with the
    /// functions recorded for the file stubbed, in their recorded order, and
    /// unchanged where none are recorded.
    pub fn stubbed_source(&self, path: &String, src: String) -> (res: String)
        requires
            self.fns@.dom().contains(path_key(path@)) ==> all_fit(
                self.fns@[path_key(path@)],
                text_lines(src@).len() as int,
            ),
        ensures
            res@ == (if self.fns@.dom().contains(path_key(path@)) {
                stubbed_text(src@, self.fns@[path_key(path@)])
            } else {
                src@
            }),
    {
        match self.fns.get(path) {
            Some(fns) => stub_text(src.as_str(), fns),
            None => src,
        }
    }

    /// `stubbed_source` where every recorded function of the file fits its
    /// text; `None` where one does not, on which `stubbed_source` would not
    /// be called.
    pub fn checked_stubbed_source(&self, path: &String, src: String) -> (res: Option<String>)
        ensures
            res is None <==> self.fns@.dom().contains(path_key(path@)) && !all_fit(
                self.fns@[path_key(path@)],
                text_lines(src@).len() as int,
            ),
            res matches Some(out) ==> out@ == (if self.fns@.dom().contains(path_key(path@)) {
                stubbed_text(src@, self.fns@[path_key(path@)])
            } else {
                src@
            }),
    {
        match self.fns.get(path) {
            Some(fns) => {
                let lines = split_lines(src.as_str());
                if fit_all(fns, lines.len()) {
                    Some(stub_text(src.as_str(), fns))
                } else {
                    None
                }
            },
            None => Some(src),
        }
    }
}

} // verus!
