//! What the driver makes of its command line: where output goes, where the
//! input comes from, and the arguments handed on to the compiler.

use crate::text::{string_from_utf8, trim, trimmed, views};
use vstd::utf8::{decode_utf8, valid_utf8};
use getopts::Matches;
use vstd::prelude::*;

verus! {

#[verifier::external_type_specification]
#[verifier::external_body]
pub struct ExMatches(Matches);

/// Whether the options that `matches` was parsed with define `name`.
pub uninterp spec fn option_defined(matches: Matches, name: Seq<char>) -> bool;

/// The argument given to the first occurrence of option `name` in
/// `matches`, if that occurrence has one.
pub uninterp spec fn option_value(matches: Matches, name: Seq<char>) -> Option<Seq<char>>;

/// Calls `getopts::Matches::opt_defined`, which tells whether the options
/// were defined with one named `name`; the answer depends on the matches and
/// the name alone.
#[verifier::external_body]
fn opt_defined(matches: &Matches, name: &str) -> (res: bool)
    ensures
        res == option_defined(*matches, name@),
{
    matches.opt_defined(name)
}

/// Calls `getopts::Matches::opt_str`, which returns the argument of the
/// first occurrence of option `name`. It panics where no option of that name
/// was defined, which `requires` leaves out. What it returns is not stated
/// beyond that it is a function of the matches and the name.
#[verifier::external_body]
fn opt_str(matches: &Matches, name: &str) -> (res: Option<String>)
    requires
        option_defined(*matches, name@),
    ensures
        res matches Some(s) ==> option_value(*matches, name@) == Some(s@),
        res is None ==> option_value(*matches, name@) is None,
{
    matches.opt_str(name)
}

/// The view of an optional string.
pub open spec fn opt_view(o: Option<String>) -> Option<Seq<char>> {
    match o {
        Some(s) => Some(s@),
        None => None,
    }
}

/// The output directory (`--out-dir`) and the output file (`-o`) given on
/// the command line, each where it was given.
pub fn make_output(matches: &Matches) -> (res: (Option<String>, Option<String>))
    requires
        option_defined(*matches, "out-dir"@),
        option_defined(*matches, "o"@),
    ensures
        opt_view(res.0) == option_value(*matches, "out-dir"@),
        opt_view(res.1) == option_value(*matches, "o"@),
{
    let odir = opt_str(matches, "out-dir");
    let ofile = opt_str(matches, "o");
    (odir, ofile)
}

/// `make_output` where the options define both `out-dir` and `o`; `None`
/// where either is undefined.
pub fn output_of(matches: &Matches) -> (res: Option<(Option<String>, Option<String>)>)
    ensures
        res is Some <==> option_defined(*matches, "out-dir"@) && option_defined(
            *matches,
            "o"@,
        ),
        res matches Some(out) ==> {
            &&& opt_view(out.0) == option_value(*matches, "out-dir"@)
            &&& opt_view(out.1) == option_value(*matches, "o"@)
        },
{
    if opt_defined(matches, "out-dir") && opt_defined(matches, "o") {
        Some(make_output(matches))
    } else {
        None
    }
}

/// The source a compiler reads.
pub enum Input {
    /// Source text that was handed over directly, with no file behind it.
    Str { input: String },
    /// A file, by its path.
    File(String),
}

/// What went wrong while reading the input.
pub enum InputError {
    /// Standard input could not be read as UTF-8 text.
    InvalidUtf8,
}

/// Where the input is to come from.
pub enum InputRequest {
    /// Standard input is to be read; `stdin_input` takes what was read.
    ReadStdin,
    /// The input is the file at this path, which is also the input's path.
    Ready(Input, Option<String>),
}

/// Where the input comes from, given the free (non-option) arguments: with
/// exactly one, `-` means standard input and anything else names a file;
/// with none or several there is no input.
pub fn make_input(free: &[String]) -> (res: Option<InputRequest>)
    ensures
        res is Some <==> free@.len() == 1,
        free@.len() == 1 && free@[0]@ == "-"@ ==> res matches Some(InputRequest::ReadStdin),
        free@.len() == 1 && free@[0]@ != "-"@ ==> (res matches Some(
            InputRequest::Ready(Input::File(p), Some(q)),
        ) && p@ == free@[0]@ && q@ == free@[0]@),
{
    if free.len() == 1 {
        let ifile = &free[0];
        let dash = "-".to_owned();
        if *ifile == dash {
            Some(InputRequest::ReadStdin)
        } else {
            Some(InputRequest::Ready(Input::File(ifile.clone()), Some(ifile.clone())))
        }
    } else {
        None
    }
}

/// The input made of what was read from standard input (`None` where the
/// read failed, which leaves the text empty), with no path, and the error
/// where the read failed.
pub fn stdin_input(read: Option<String>) -> (res: (Input, Option<String>, Option<InputError>))
    ensures
        res.1 is None,
        match read {
            Some(text) => (res.0 matches Input::Str { input } && input@ == text@) && res.2 is None,
            None => (res.0 matches Input::Str { input } && input@.len() == 0) && (res.2 matches Some(
                InputError::InvalidUtf8,
            )),
        },
{
    match read {
        Some(text) => (Input::Str { input: text }, None, None),
        None => (Input::Str { input: String::new() }, None, Some(InputError::InvalidUtf8)),
    }
}

/// The command line without the program's name: empty where there is
/// nothing else.
pub open spec fn after_program(cmdline: Seq<Seq<char>>) -> Seq<Seq<char>> {
    if cmdline.len() == 0 {
        seq![]
    } else {
        cmdline.drop_first()
    }
}

/// Leaving out the program's name keeps every other argument, in order.
pub proof fn lemma_after_program_keeps_arguments(cmdline: Seq<Seq<char>>)
    requires
        cmdline.len() >= 1,
    ensures
        after_program(cmdline).len() == cmdline.len() - 1,
        forall|i: int| 0 <= i < cmdline.len() - 1 ==> #[trigger] after_program(cmdline)[i] == cmdline[i + 1],
{
}

/// The arguments handed to the compiler: those of the command line after
/// the program's name, then `--sysroot` and the sysroot.
pub fn compiler_args(cmdline: &Vec<String>, sysroot: String) -> (res: Vec<String>)
    ensures
        views(res@) == after_program(views(cmdline@)) + seq!["--sysroot"@, sysroot@],
        cmdline@.len() >= 1 ==> res@.len() == cmdline@.len() + 1,
        cmdline@.len() == 0 ==> res@.len() == 2,
        forall|i: int| 0 <= i < cmdline@.len() - 1 ==> (#[trigger] res@[i])@ == cmdline@[i + 1]@,
        res@[res@.len() - 2]@ == "--sysroot"@,
        res@[res@.len() - 1]@ == sysroot@,
{
    let mut res: Vec<String> = Vec::new();
    let n = cmdline.len();
    if n > 0 {
        let ghost all = views(cmdline@);
        for i in 1..n
            invariant
                n == cmdline@.len(),
                all == views(cmdline@),
                views(res@) == all.subrange(1, i as int),
        {
            assert(views(res@.push(cmdline@[i as int])) == views(res@).push(cmdline@[i as int]@));
            res.push(cmdline[i].clone());
            assert(all.subrange(1, i + 1) == all.subrange(1, i as int).push(all[i as int]));
        }
        assert(all.subrange(1, n as int) == all.drop_first());
    } else {
        assert(views(res@) == after_program(views(cmdline@)));
    }
    assert(views(res@) == after_program(views(cmdline@)));
    let flag = "--sysroot".to_owned();
    assert(views(res@.push(flag)) == views(res@).push(flag@));
    res.push(flag);
    assert(views(res@.push(sysroot)) == views(res@).push(sysroot@));
    res.push(sysroot);
    assert(views(res@) =~= after_program(views(cmdline@)) + seq!["--sysroot"@, sysroot@]);
    proof {
        let v = views(res@);
        assert(v.len() == res@.len());
        assert(res@[res@.len() - 2]@ == v[v.len() - 2]);
        assert(res@[res@.len() - 1]@ == v[v.len() - 1]);
        if cmdline@.len() >= 1 {
            lemma_after_program_keeps_arguments(views(cmdline@));
            assert forall|i: int| 0 <= i < cmdline@.len() - 1 implies (#[trigger] res@[i])@
                == cmdline@[i + 1]@ by {
                assert(v[i] == res@[i]@);
                assert(views(cmdline@)[i + 1] == cmdline@[i + 1]@);
            }
        }
    }
    res
}

/// The sysroot that `rustc --print sysroot` wrote to its standard output:
/// the output as UTF-8 text without white space at either end; `None` where
/// the output is no valid UTF-8.
pub fn sysroot_from_output(stdout: Vec<u8>) -> (res: Option<String>)
    ensures
        res is Some <==> valid_utf8(stdout@),
        res matches Some(s) ==> s@ == trimmed(decode_utf8(stdout@)),
{
    match string_from_utf8(stdout) {
        Some(text) => Some(trim(text.as_str())),
        None => None,
    }
}

} // verus!
