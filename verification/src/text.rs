use vstd::prelude::*;
use vstd::string::StrSliceExecFns;

verus! {

/// Relies on `String::push`: appends exactly the one character to the string.
#[verifier::external_body]
pub fn push_char(s: &mut String, c: char)
    ensures
        final(s)@ == old(s)@.push(c),
{
    s.push(c)
}

/// True when `sub` occurs in `s` starting at position `at`.
pub open spec fn matches_at(s: Seq<char>, sub: Seq<char>, at: int) -> bool {
    &&& 0 <= at
    &&& at + sub.len() <= s.len()
    &&& s.subrange(at, at + sub.len() as int) == sub
}

/// True when `sub` occurs somewhere in `s`.
pub open spec fn has_substring(s: Seq<char>, sub: Seq<char>) -> bool {
    exists|at: int| matches_at(s, sub, at)
}

/// True when `s` ends with `suffix`.
pub open spec fn has_suffix(s: Seq<char>, suffix: Seq<char>) -> bool {
    &&& suffix.len() <= s.len()
    &&& s.subrange(s.len() - suffix.len(), s.len() as int) == suffix
}

/// Compares `sub` against `s` at position `at`, character by character.
fn check_match_at(s: &str, sub: &str, at: usize) -> (r: bool)
    requires
        at + sub@.len() <= s@.len(),
        s@.len() <= usize::MAX,
    ensures
        r == matches_at(s@, sub@, at as int),
{
    let sub_len = sub.unicode_len();
    let mut j: usize = 0;
    while j < sub_len
        invariant
            0 <= j <= sub_len,
            sub_len == sub@.len(),
            at + sub_len <= s@.len(),
            s@.len() <= usize::MAX,
            forall|k: int| 0 <= k < j ==> s@[at + k] == sub@[k],
        decreases sub_len - j,
    {
        if s.get_char(at + j) != sub.get_char(j) {
            assert(s@.subrange(at as int, at + sub@.len() as int)[j as int] != sub@[j as int]);
            return false;
        }
        j += 1;
    }
    assert(s@.subrange(at as int, at + sub@.len() as int) =~= sub@);
    true
}

/// Substring search, as the string type's own `contains` does it.
pub fn contains_sub(s: &str, sub: &str) -> (r: bool)
    ensures
        r == has_substring(s@, sub@),
{
    let n = s.unicode_len();
    let m = sub.unicode_len();
    if m > n {
        assert(!has_substring(s@, sub@));
        return false;
    }
    if m == 0 {
        assert(s@.subrange(0, 0) =~= sub@);
        assert(matches_at(s@, sub@, 0));
        return true;
    }
    let mut at: usize = 0;
    while at <= n - m
        invariant
            1 <= m <= n,
            n == s@.len(),
            m == sub@.len(),
            0 <= at <= n - m + 1,
            forall|k: int| 0 <= k < at ==> !matches_at(s@, sub@, k),
        decreases n - at,
    {
        if check_match_at(s, sub, at) {
            return true;
        }
        at += 1;
    }
    assert forall|k: int| !matches_at(s@, sub@, k) by {
        if 0 <= k <= n - m {
            assert(!matches_at(s@, sub@, k));
        }
    }
    false
}

/// Suffix test, as the string type's own `ends_with` does it.
pub fn ends_with_sub(s: &str, suffix: &str) -> (r: bool)
    ensures
        r == has_suffix(s@, suffix@),
{
    let n = s.unicode_len();
    let m = suffix.unicode_len();
    if m > n {
        return false;
    }
    check_match_at(s, suffix, n - m)
}

/// Character-for-character equality of two strings.
pub fn str_eq(a: &str, b: &str) -> (r: bool)
    ensures
        r == (a@ == b@),
{
    let n = a.unicode_len();
    let m = b.unicode_len();
    if n != m {
        return false;
    }
    let r = check_match_at(a, b, 0);
    proof {
        assert(a@.subrange(0, a@.len() as int) =~= a@);
    }
    r
}

/// Copies the first `upto` characters of `s` onto the end of `out`.
pub fn push_prefix(out: &mut String, s: &str, upto: usize)
    requires
        upto <= s@.len(),
    ensures
        final(out)@ == old(out)@ + s@.subrange(0, upto as int),
{
    let mut i: usize = 0;
    while i < upto
        invariant
            0 <= i <= upto <= s@.len(),
            out@ == old(out)@ + s@.subrange(0, i as int),
        decreases upto - i,
    {
        let c = s.get_char(i);
        push_char(out, c);
        assert(old(out)@ + s@.subrange(0, (i + 1) as int) =~= (old(out)@ + s@.subrange(
            0,
            i as int,
        )).push(s@[i as int]));
        i += 1;
    }
}

/// Copies all of `s` onto the end of `out`.
pub fn push_str_all(out: &mut String, s: &str)
    ensures
        final(out)@ == old(out)@ + s@,
{
    let n = s.unicode_len();
    push_prefix(out, s, n);
    assert(s@.subrange(0, s@.len() as int) =~= s@);
}

} // verus!
