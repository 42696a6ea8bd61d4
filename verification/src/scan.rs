//! Character-level scanning helpers shared by the parsers.

use vstd::prelude::*;

verus! {

/// First index at or after `i` whose character fails `p`, or `s.len()` if
/// every character from `i` on satisfies `p`.
pub open spec fn scan_while(s: Seq<char>, i: int, p: spec_fn(char) -> bool) -> int
    recommends
        0 <= i <= s.len(),
    decreases s.len() - i,
{
    if 0 <= i < s.len() && p(s[i]) {
        scan_while(s, i + 1, p)
    } else {
        i
    }
}

pub proof fn lemma_scan_while(s: Seq<char>, i: int, p: spec_fn(char) -> bool)
    requires
        0 <= i <= s.len(),
    ensures
        i <= scan_while(s, i, p) <= s.len(),
        forall|k: int| i <= k < scan_while(s, i, p) ==> p(s[k]),
        scan_while(s, i, p) < s.len() ==> !p(s[scan_while(s, i, p)]),
    decreases s.len() - i,
{
    if i < s.len() && p(s[i]) {
        lemma_scan_while(s, i + 1, p);
    }
}

/// A scan stops exactly at the first failing index: if everything in
/// `[j, i)` satisfies `p` and `i` is the length or fails `p`, the scan
/// started at `j` ends at `i`.
pub proof fn lemma_scan_while_is(s: Seq<char>, j: int, i: int, p: spec_fn(char) -> bool)
    requires
        0 <= j <= i <= s.len(),
        forall|k: int| j <= k < i ==> p(s[k]),
        i < s.len() ==> !p(s[i]),
    ensures
        scan_while(s, j, p) == i,
    decreases i - j,
{
    if j < i {
        lemma_scan_while_is(s, j + 1, i, p);
    }
}

/// Compares two string slices character by character.
pub fn str_eq(a: &str, b: &str) -> (r: bool)
    ensures
        r == (a@ == b@),
{
    let an = a.unicode_len();
    let bn = b.unicode_len();
    if an != bn {
        proof {
            assert(a@ != b@) by {
                if a@ == b@ {
                    assert(a@.len() == b@.len());
                }
            }
        }
        return false;
    }
    let mut i: usize = 0;
    while i < an
        invariant
            an == a@.len(),
            an == b@.len(),
            0 <= i <= an,
            forall|k: int| 0 <= k < i ==> a@[k] == b@[k],
        decreases an - i,
    {
        if a.get_char(i) != b.get_char(i) {
            return false;
        }
        i = i + 1;
    }
    proof {
        assert(a@ =~= b@);
    }
    true
}

} // verus!
