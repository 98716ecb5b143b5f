use vstd::prelude::*;

verus! {

/// `suffix` is a suffix of `s`.
pub open spec fn ends_with(s: Seq<char>, suffix: Seq<char>) -> bool {
    suffix.len() <= s.len() && s.subrange(s.len() - suffix.len(), s.len() as int) == suffix
}

/// Whether `suffix` is a suffix of `s`.
pub fn has_suffix(s: &str, suffix: &str) -> (r: bool)
    ensures
        r == ends_with(s@, suffix@),
{
    let n = s.unicode_len();
    let k = suffix.unicode_len();
    if k > n {
        return false;
    }
    let start = n - k;
    let mut i: usize = 0;
    while i < k
        invariant
            n == s@.len(),
            k == suffix@.len(),
            start == n - k,
            i <= k,
            forall|j: int| 0 <= j < i ==> s@[start + j] == suffix@[j],
        decreases k - i,
    {
        if s.get_char(start + i) != suffix.get_char(i) {
            assert(s@.subrange(start as int, n as int)[i as int] != suffix@[i as int]);
            return false;
        }
        i = i + 1;
    }
    assert(s@.subrange(start as int, n as int) =~= suffix@);
    true
}

/// Whether `a` and `b` hold the same characters.
pub fn text_equals(a: &str, b: &str) -> (r: bool)
    ensures
        r == (a@ == b@),
{
    if a.unicode_len() != b.unicode_len() {
        return false;
    }
    let r = has_suffix(a, b);
    assert(a@.subrange(0, a@.len() as int) =~= a@);
    r
}

} // verus!
