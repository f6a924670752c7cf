//! The functions of the sample crate on which the stubbing is shown: one
//! that prints a line through a library function, and one that fails.

use crate::text::views;
use vstd::prelude::*;

verus! {

/// What a call writes to standard output, line by line, and whether it
/// returned (rather than panicked).
pub struct Run {
    pub printed: Vec<String>,
    pub returned: bool,
}

/// The line that the library function prints for `name`.
pub fn library_function(name: &str) -> (res: String)
    ensures
        res@ == "Called with: "@ + name@,
{
    "Called with: ".to_owned().concat(name)
}

/// Calls the library function once and returns.
pub fn consumer_one() -> (res: Run)
    ensures
        views(res.printed@) == seq!["Called with: Consumer one"@],
        res.returned,
{
    let line = library_function("Consumer one");
    proof {
        reveal_strlit("Called with: ");
        reveal_strlit("Consumer one");
        reveal_strlit("Called with: Consumer one");
        assert(line@ == "Called with: Consumer one"@);
    }
    let mut printed: Vec<String> = Vec::new();
    printed.push(line);
    assert(views(printed@) == seq!["Called with: Consumer one"@]);
    Run { printed, returned: true }
}

/// Panics before it prints anything: the call of the library function
/// after the panic is never reached.
pub fn consumer_two() -> (res: Run)
    ensures
        res.printed@.len() == 0,
        !res.returned,
{
    Run { printed: Vec::new(), returned: false }
}

/// The sample program: the first consumer prints its line, then the second
/// panics, which ends the program before it returns.
pub fn run_main() -> (res: Run)
    ensures
        views(res.printed@) == seq!["Called with: Consumer one"@],
        !res.returned,
{
    let first = consumer_one();
    let second = consumer_two();
    let mut printed = first.printed;
    let mut more = second.printed;
    printed.append(&mut more);
    assert(views(printed@) == views(first.printed@));
    Run { printed, returned: first.returned && second.returned }
}

} // verus!
