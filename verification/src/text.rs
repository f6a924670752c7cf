//! Text primitives on which the stubbing works: splitting a source into
//! lines, joining lines back, and trimming white space.

use vstd::prelude::*;
use vstd::utf8::{decode_utf8, valid_utf8};

verus! {

broadcast use vstd::string::group_string_axioms;

/// `s` with one trailing carriage return removed, if it ends in one.
pub open spec fn strip_cr(s: Seq<char>) -> Seq<char> {
    if s.len() > 0 && s.last() == '\r' {
        s.drop_last()
    } else {
        s
    }
}

/// The lines of `rest`, given that `cur` holds the characters already read
/// of the line in progress. A newline closes the current line (a carriage
/// return just before it is not part of the line); a non-empty unterminated
/// tail is the last line.
pub open spec fn lines_after(cur: Seq<char>, rest: Seq<char>) -> Seq<Seq<char>>
    decreases rest.len(),
{
    if rest.len() == 0 {
        if cur.len() == 0 {
            seq![]
        } else {
            seq![cur]
        }
    } else if rest[0] == '\n' {
        seq![strip_cr(cur)] + lines_after(seq![], rest.drop_first())
    } else {
        lines_after(cur.push(rest[0]), rest.drop_first())
    }
}

/// The lines of a text, as `str::lines` yields them.
pub open spec fn text_lines(s: Seq<char>) -> Seq<Seq<char>> {
    lines_after(seq![], s)
}

/// Appends one character to a string.
/// Calls `String::push`, which std documents as appending the character to
/// the end of the string.
#[verifier::external_body]
fn push_char(s: &mut String, c: char)
    ensures
        final(s)@ == old(s)@.push(c),
{
    s.push(c);
}

/// A string holding exactly the given characters.
pub fn string_from_chars(chars: &Vec<char>) -> (res: String)
    ensures
        res@ == chars@,
{
    let mut res = String::new();
    for i in 0..chars.len()
        invariant
            res@ == chars@.take(i as int),
    {
        push_char(&mut res, chars[i]);
        assert(chars@.take(i + 1) == chars@.take(i as int).push(chars@[i as int]));
    }
    assert(chars@.take(chars@.len() as int) == chars@);
    res
}

/// The characters of a string, in order.
pub fn chars_of(s: &str) -> (res: Vec<char>)
    ensures
        res@ == s@,
{
    let mut res: Vec<char> = Vec::new();
    for c in it: s.chars()
        invariant
            res@ == it.seq().take(it.index() as int),
            it.seq() == s@,
    {
        res.push(c);
    }
    res
}

/// The views of a list of strings.
pub open spec fn views(v: Seq<String>) -> Seq<Seq<char>> {
    v.map_values(|s: String| s@)
}

/// Splits a text into its lines, as `str::lines` does: at each `\n`, with a
/// `\r` just before the `\n` dropped, and with no empty last line for a text
/// that ends in a newline.
pub fn split_lines(s: &str) -> (res: Vec<String>)
    ensures
        views(res@) == text_lines(s@),
{
    let chars = chars_of(s);
    let n = chars.len();
    let mut res: Vec<String> = Vec::new();
    let mut cur: Vec<char> = Vec::new();
    assert(s@.skip(0) == s@);
    assert(views(res@) == Seq::<Seq<char>>::empty());
    assert(cur@ == Seq::<char>::empty());
    for i in 0..n
        invariant
            n == chars@.len(),
            chars@ == s@,
            text_lines(s@) == views(res@) + lines_after(cur@, s@.skip(i as int)),
    {
        let c = chars[i];
        let ghost rest = s@.skip(i as int);
        assert(rest[0] == c);
        assert(rest.drop_first() == s@.skip(i + 1));
        if c == '\n' {
            let ghost line = strip_cr(cur@);
            if cur.len() > 0 && cur[cur.len() - 1] == '\r' {
                cur.pop();
            }
            assert(cur@ == line);
            let done = string_from_chars(&cur);
            assert(views(res@.push(done)) == views(res@).push(done@));
            res.push(done);
            cur = Vec::new();
            assert(seq![line] + lines_after(seq![], s@.skip(i + 1)) == seq![line].add(lines_after(cur@, s@.skip(i + 1))));
            assert(views(res@) + lines_after(cur@, s@.skip(i + 1)) == views(res@).drop_last() + (seq![line] + lines_after(cur@, s@.skip(i + 1))));
        } else {
            cur.push(c);
        }
    }
    assert(s@.skip(n as int).len() == 0);
    if cur.len() > 0 {
        let last = string_from_chars(&cur);
        assert(views(res@.push(last)) == views(res@).push(last@));
        res.push(last);
    }
    res
}

/// The parts written one after another, with `sep` between each two of them.
pub open spec fn joined(parts: Seq<Seq<char>>, sep: Seq<char>) -> Seq<char>
    decreases parts.len(),
{
    if parts.len() == 0 {
        seq![]
    } else if parts.len() == 1 {
        parts[0]
    } else {
        joined(parts.drop_last(), sep) + sep + parts.last()
    }
}

/// Joins strings with a separator, as `[String]::join` does.
pub fn join(parts: &Vec<String>, sep: &str) -> (res: String)
    ensures
        res@ == joined(views(parts@), sep@),
{
    let mut res = String::new();
    let n = parts.len();
    for i in 0..n
        invariant
            n == parts@.len(),
            res@ == joined(views(parts@).take(i as int), sep@),
    {
        let ghost before = views(parts@).take(i as int);
        let ghost after = views(parts@).take(i + 1);
        assert(after.drop_last() == before);
        assert(after.last() == parts@[i as int]@);
        if i > 0 {
            res.append(sep);
        }
        res.append(parts[i].as_str());
    }
    assert(views(parts@).take(n as int) == views(parts@));
    res
}

/// Joining a first part in front of at least one other puts the separator
/// between it and the rest joined.
pub proof fn lemma_joined_prepend(first: Seq<char>, rest: Seq<Seq<char>>, sep: Seq<char>)
    requires
        rest.len() > 0,
    ensures
        joined(seq![first] + rest, sep) == first + sep + joined(rest, sep),
    decreases rest.len(),
{
    let all = seq![first] + rest;
    if rest.len() == 1 {
        assert(all.drop_last() == seq![first]);
        assert(all.last() == rest[0]);
        assert(joined(seq![first], sep) == first);
        assert(joined(rest, sep) == rest[0]);
        assert(joined(all, sep) == joined(all.drop_last(), sep) + sep + all.last());
    } else {
        lemma_joined_prepend(first, rest.drop_last(), sep);
        assert(all.drop_last() == seq![first] + rest.drop_last());
        assert(all.last() == rest.last());
        let j = joined(rest.drop_last(), sep);
        assert(joined(all, sep) == first + sep + j + sep + rest.last());
        assert(joined(rest, sep) == j + sep + rest.last());
        assert(first + sep + j + sep + rest.last() == first + sep + (j + sep + rest.last()));
    }
}

/// A non-empty rest of text gives at least one line.
proof fn lemma_lines_after_nonempty(cur: Seq<char>, rest: Seq<char>)
    requires
        cur.len() > 0 || rest.len() > 0,
    ensures
        lines_after(cur, rest).len() > 0,
    decreases rest.len(),
{
    if rest.len() > 0 && rest[0] != '\n' {
        lemma_lines_after_nonempty(cur.push(rest[0]), rest.drop_first());
    }
}

/// The text has no carriage return.
pub open spec fn no_cr(s: Seq<char>) -> bool {
    forall|i: int| 0 <= i < s.len() ==> s[i] != '\r'
}

/// The text does not end in a newline.
pub open spec fn no_final_newline(s: Seq<char>) -> bool {
    s.len() == 0 || s.last() != '\n'
}

proof fn lemma_lines_after_join(cur: Seq<char>, rest: Seq<char>)
    requires
        no_cr(cur),
        no_cr(rest),
        no_final_newline(rest),
    ensures
        joined(lines_after(cur, rest), "\n"@) == cur + rest,
    decreases rest.len(),
{
    let nl: Seq<char> = seq!['\n'];
    assert("\n"@ == nl) by {
        reveal_strlit("\n");
    }
    if rest.len() == 0 {
        assert(cur + rest == cur);
    } else if rest[0] == '\n' {
        let tail = rest.drop_first();
        assert(tail.len() > 0);
        assert(tail.last() == rest.last());
        lemma_lines_after_join(seq![], tail);
        lemma_lines_after_nonempty(seq![], tail);
        assert(strip_cr(cur) == cur);
        lemma_joined_prepend(cur, lines_after(seq![], tail), nl);
        assert(seq![] + tail == tail);
        assert(cur + nl + tail == cur + rest);
    } else {
        let tail = rest.drop_first();
        assert(tail.len() > 0 ==> tail.last() == rest.last());
        lemma_lines_after_join(cur.push(rest[0]), tail);
        assert(cur.push(rest[0]) + tail == cur + rest);
    }
}

/// Splitting a text into lines and joining them with newlines gives the
/// text back, where it has no carriage return and does not end in a
/// newline. (A final newline is lost, and a carriage return before a
/// newline too.)
pub proof fn lemma_join_lines_roundtrip(s: Seq<char>)
    requires
        no_cr(s),
        no_final_newline(s),
    ensures
        joined(text_lines(s), "\n"@) == s,
{
    lemma_lines_after_join(seq![], s);
    assert(seq![] + s == s);
}

/// Calls `String::from_utf8`, which std documents as returning the string
/// the bytes encode where they are valid UTF-8, and an error otherwise; the
/// error is turned into `None`.
#[verifier::external_body]
pub(crate) fn string_from_utf8(bytes: Vec<u8>) -> (res: Option<String>)
    ensures
        res is Some <==> valid_utf8(bytes@),
        res matches Some(s) ==> s@ == decode_utf8(bytes@),
{
    String::from_utf8(bytes).ok()
}

/// White space as `char::is_whitespace` defines it: the characters with
/// the Unicode property White_Space.
pub open spec fn is_white_space(c: char) -> bool {
    ||| '\u{9}' <= c <= '\u{d}'
    ||| c == ' '
    ||| c == '\u{85}'
    ||| c == '\u{a0}'
    ||| c == '\u{1680}'
    ||| '\u{2000}' <= c <= '\u{200a}'
    ||| c == '\u{2028}'
    ||| c == '\u{2029}'
    ||| c == '\u{202f}'
    ||| c == '\u{205f}'
    ||| c == '\u{3000}'
}

/// Whether `c` is white space.
pub fn white_space(c: char) -> (res: bool)
    ensures
        res == is_white_space(c),
{
    ('\u{9}' <= c && c <= '\u{d}') || c == ' ' || c == '\u{85}' || c == '\u{a0}' || c == '\u{1680}'
        || ('\u{2000}' <= c && c <= '\u{200a}') || c == '\u{2028}' || c == '\u{2029}' || c
        == '\u{202f}' || c == '\u{205f}' || c == '\u{3000}'
}

/// `s` without the white space at its start.
pub open spec fn trim_start(s: Seq<char>) -> Seq<char>
    decreases s.len(),
{
    if s.len() > 0 && is_white_space(s[0]) {
        trim_start(s.drop_first())
    } else {
        s
    }
}

/// `s` without the white space at its end.
pub open spec fn trim_end(s: Seq<char>) -> Seq<char>
    decreases s.len(),
{
    if s.len() > 0 && is_white_space(s.last()) {
        trim_end(s.drop_last())
    } else {
        s
    }
}

/// `s` without white space at either end, as `str::trim` returns it.
pub open spec fn trimmed(s: Seq<char>) -> Seq<char> {
    trim_end(trim_start(s))
}

/// The text without the white space at its start and end.
pub fn trim(s: &str) -> (res: String)
    ensures
        res@ == trimmed(s@),
{
    let chars = chars_of(s);
    let n = chars.len();
    let mut a: usize = 0;
    assert(s@.subrange(0, n as int) == s@);
    while a < n && white_space(chars[a])
        invariant
            n == chars@.len(),
            chars@ == s@,
            a <= n,
            trim_start(s@) == trim_start(s@.subrange(a as int, n as int)),
        decreases n - a,
    {
        assert(s@.subrange(a as int, n as int).drop_first() == s@.subrange(a + 1, n as int));
        a = a + 1;
    }
    let mut b: usize = n;
    assert(trim_start(s@) == s@.subrange(a as int, n as int));
    while b > a && white_space(chars[b - 1])
        invariant
            n == chars@.len(),
            chars@ == s@,
            a <= b <= n,
            trimmed(s@) == trim_end(s@.subrange(a as int, b as int)),
        decreases b,
    {
        assert(s@.subrange(a as int, b as int).drop_last() == s@.subrange(a as int, b - 1));
        b = b - 1;
    }
    assert(trimmed(s@) == s@.subrange(a as int, b as int));
    let mut res = String::new();
    for i in a..b
        invariant
            chars@ == s@,
            a <= b <= n,
            n == chars@.len(),
            res@ == s@.subrange(a as int, i as int),
    {
        push_char(&mut res, chars[i]);
        assert(s@.subrange(a as int, i + 1) == s@.subrange(a as int, i as int).push(s@[i as int]));
    }
    res
}

} // verus!
