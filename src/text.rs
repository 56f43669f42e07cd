use vstd::prelude::*;
use vstd::string::StrSliceExecFns;

verus! {

/// Whether `t` occurs in `s` as a run of consecutive characters.
pub open spec fn is_substring(s: Seq<char>, t: Seq<char>) -> bool {
    exists|i: int| 0 <= i && i + t.len() <= s.len() && #[trigger] s.subrange(i, i + t.len()) == t
}

/// Whether `t` occurs in `s` at character position `i`.
fn occurs_at(s: &str, t: &str, i: usize, ls: usize, lt: usize) -> (r: bool)
    requires
        ls == s@.len(),
        lt == t@.len(),
        i + lt <= ls,
    ensures
        r == (s@.subrange(i as int, i + lt) == t@),
{
    let mut j: usize = 0;
    while j < lt
        invariant
            ls == s@.len(),
            lt == t@.len(),
            i + lt <= ls,
            j <= lt,
            forall|k: int| 0 <= k < j ==> s@[i + k] == t@[k],
        decreases lt - j,
    {
        if s.get_char(i + j) != t.get_char(j) {
            assert(s@.subrange(i as int, i + lt)[j as int] != t@[j as int]);
            return false;
        }
        j += 1;
    }
    assert(s@.subrange(i as int, i + lt) =~= t@);
    true
}

/// Character-wise equality of two strings.
pub fn str_eq(a: &str, b: &str) -> (r: bool)
    ensures
        r == (a@ == b@),
{
    let la = a.unicode_len();
    let lb = b.unicode_len();
    if la != lb {
        return false;
    }
    let r = occurs_at(a, b, 0, la, lb);
    assert(a@.subrange(0, la as int) =~= a@);
    r
}

/// Whether `t` occurs in `s`.
pub fn str_contains(s: &str, t: &str) -> (r: bool)
    ensures
        r == is_substring(s@, t@),
{
    let ls = s.unicode_len();
    let lt = t.unicode_len();
    if lt > ls {
        return false;
    }
    let last: usize = ls - lt;
    let mut i: usize = 0;
    loop
        invariant
            ls == s@.len(),
            lt == t@.len(),
            last == ls - lt,
            i <= last,
            forall|k: int| 0 <= k < i ==> #[trigger] s@.subrange(k, k + lt) != t@,
        decreases last - i,
    {
        if occurs_at(s, t, i, ls, lt) {
            return true;
        }
        if i == last {
            return false;
        }
        i += 1;
    }
}

} // verus!
