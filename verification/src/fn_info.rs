//! What is known of one function of a crate: its name, the file it stands
//! in and the lines its span covers, and the order of functions by the line
//! they start on.

use std::cmp::Ordering;
use vstd::prelude::*;
use vstd::std_specs::cmp::PartialEqSpecImpl;
use vstd::std_specs::cmp::PartialOrdSpecImpl;

verus! {

/// A function found in a crate. `lo_line` and `hi_line` are the 1-based
/// lines on which its span starts (the declaration) and ends (the closing
/// brace). `name` is `None` for a closure.
#[derive(Debug, Clone)]
pub struct FnInfo {
    pub name: Option<String>,
    pub file: String,
    pub lo_line: usize,
    pub hi_line: usize,
}

/// The order of two start lines.
pub open spec fn line_order(a: usize, b: usize) -> Ordering {
    if a < b {
        Ordering::Less
    } else if a == b {
        Ordering::Equal
    } else {
        Ordering::Greater
    }
}

impl FnInfo {
    /// Orders two functions by the line on which they start; the other
    /// fields play no part.
    pub fn cmp(&self, other: &FnInfo) -> (res: Ordering)
        ensures
            res == line_order(self.lo_line, other.lo_line),
            res == Ordering::Less <==> self.lo_line < other.lo_line,
            res == Ordering::Equal <==> self.lo_line == other.lo_line,
            res == Ordering::Greater <==> self.lo_line > other.lo_line,
    {
        if self.lo_line < other.lo_line {
            Ordering::Less
        } else if self.lo_line == other.lo_line {
            Ordering::Equal
        } else {
            Ordering::Greater
        }
    }
}

/// Two functions compare equal when the first starts on the line on which
/// the second ends.
impl PartialEq for FnInfo {
    fn eq(&self, other: &FnInfo) -> (res: bool) {
        self.lo_line == other.hi_line
    }
}

impl PartialEqSpecImpl for FnInfo {
    open spec fn obeys_eq_spec() -> bool {
        true
    }

    open spec fn eq_spec(&self, other: &FnInfo) -> bool {
        self.lo_line == other.hi_line
    }
}

impl Eq for FnInfo {

}

/// Functions are ordered by the line on which they start.
impl PartialOrd for FnInfo {
    fn partial_cmp(&self, other: &FnInfo) -> (res: Option<Ordering>) {
        Some(self.cmp(other))
    }
}

impl PartialOrdSpecImpl for FnInfo {
    open spec fn obeys_partial_cmp_spec() -> bool {
        true
    }

    open spec fn partial_cmp_spec(&self, other: &FnInfo) -> Option<Ordering> {
        Some(line_order(self.lo_line, other.lo_line))
    }
}

/// The order of start lines is the order of the numbers: one line comes
/// before another exactly when it is smaller.
pub proof fn lemma_line_order_is_numeric(a: usize, b: usize)
    ensures
        line_order(a, b) == Ordering::Less <==> a < b,
        line_order(a, b) == Ordering::Equal <==> a == b,
        line_order(a, b) == Ordering::Greater <==> a > b,
{
}

/// Swapping two functions reverses their order: one starts before the
/// other exactly when the other starts after it, and they start on the same
/// line either way round.
pub proof fn lemma_order_reverses(a: FnInfo, b: FnInfo)
    ensures
        line_order(a.lo_line, b.lo_line) == Ordering::Less <==> line_order(b.lo_line, a.lo_line)
            == Ordering::Greater,
        line_order(a.lo_line, b.lo_line) == Ordering::Equal <==> line_order(b.lo_line, a.lo_line)
            == Ordering::Equal,
{
}

/// The functions are in ascending order of their start lines.
pub open spec fn sorted_by_start(fns: Seq<FnInfo>) -> bool {
    forall|a: int, b: int| 0 <= a < b < fns.len() ==> fns[a].lo_line <= fns[b].lo_line
}

/// Sorts functions by the line on which they start; the same functions
/// remain, each as often as before.
pub fn sort_by_start(fns: &mut Vec<FnInfo>)
    ensures
        sorted_by_start(final(fns)@),
        final(fns)@.to_multiset() == old(fns)@.to_multiset(),
{
    broadcast use vstd::seq_lib::group_to_multiset_ensures;

    let n = fns.len();
    for i in 0..n
        invariant
            n == fns@.len(),
            sorted_by_start(fns@.take(i as int)),
            fns@.to_multiset() == old(fns)@.to_multiset(),
    {
        let ghost before = fns@;
        let x = fns.remove(i);
        let mut j = i;
        while j > 0 && fns[j - 1].lo_line > x.lo_line
            invariant
                0 <= j <= i < n,
                before.len() == n,
                fns@.len() == n - 1,
                fns@ == before.remove(i as int),
                x == before[i as int],
                sorted_by_start(before.take(i as int)),
                forall|k: int| j <= k < i ==> fns@[k].lo_line > x.lo_line,
            decreases j,
        {
            j = j - 1;
        }
        let ghost removed = fns@;
        fns.insert(j, x);
        assert(fns@.to_multiset() == before.to_multiset()) by {
            broadcast use vstd::multiset::group_multiset_axioms;
            assert(removed == before.remove(i as int));
            assert(i < before.len());
            vstd::seq_lib::to_multiset_remove(before, i as int);
            assert(before.contains(x)) by {
                assert(before[i as int] == x);
            }
            vstd::seq_lib::to_multiset_contains(before, x);
            vstd::seq_lib::to_multiset_insert(removed, j as int, x);
            assert(fns@.to_multiset() =~= before.to_multiset());
        }
        assert(fns@.take(i + 1) == before.take(i as int).insert(j as int, x));
        assert(sorted_by_start(fns@.take(i + 1))) by {
            let s = fns@.take(i + 1);
            let t = before.take(i as int);
            assert forall|a: int, b: int| 0 <= a < b < s.len() implies s[a].lo_line
                <= s[b].lo_line by {
                if b < j {
                    assert(s[a] == t[a] && s[b] == t[b]);
                } else if b == j {
                    assert(s[a] == t[a]);
                    assert(a == j - 1 || t[a].lo_line <= t[j - 1].lo_line);
                } else if a > j {
                    assert(s[a] == t[a - 1] && s[b] == t[b - 1]);
                } else if a == j {
                    assert(s[b] == t[b - 1]);
                    assert(removed[b - 1] == t[b - 1]);
                } else {
                    assert(s[a] == t[a] && s[b] == t[b - 1]);
                }
            }
        }
    }
    assert(fns@.take(n as int) == fns@);
}

} // verus!
