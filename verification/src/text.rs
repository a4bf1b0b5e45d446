//! Character-level string comparison, exact and ASCII-case-insensitive.

use vstd::prelude::*;
use vstd::string::StrSliceExecFns;

verus! {

broadcast use vstd::utf8::char_u32_cast;

/// `c` matches `d` up to ASCII case, where `d` is expected lowercase: either
/// the characters are equal, or `d` is a lowercase ASCII letter and `c` is
/// its uppercase form.
pub open spec fn char_ci_eq(c: char, d: char) -> bool {
    c == d || (97 <= d as u32 <= 122 && c as u32 + 32 == d as u32)
}

/// `s` equals `t` up to ASCII case, where `t` is expected lowercase.
pub open spec fn seq_ci_eq(s: Seq<char>, t: Seq<char>) -> bool {
    s.len() == t.len() && forall|i: int| 0 <= i < s.len() ==> char_ci_eq(#[trigger] s[i], t[i])
}

/// Exact string equality, decided character by character.
pub fn str_eq(s: &str, t: &str) -> (b: bool)
    ensures
        b == (s@ == t@),
{
    let n = s.unicode_len();
    if n != t.unicode_len() {
        assert(s@ != t@) by {
            assert(s@.len() != t@.len());
        }
        return false;
    }
    let mut i: usize = 0;
    while i < n
        invariant
            n == s@.len() && n == t@.len(),
            0 <= i <= n,
            forall|j: int| 0 <= j < i ==> s@[j] == t@[j],
        decreases n - i,
    {
        let c = s.get_char(i);
        let d = t.get_char(i);
        if c as u32 != d as u32 {
            assert(s@[i as int] != t@[i as int]);
            return false;
        }
        i += 1;
    }
    assert(s@ =~= t@);
    true
}

/// String equality up to ASCII case, against a lowercase `target`.
pub fn str_ci_eq(s: &str, target: &str) -> (b: bool)
    ensures
        b == seq_ci_eq(s@, target@),
{
    let n = s.unicode_len();
    if n != target.unicode_len() {
        return false;
    }
    let mut i: usize = 0;
    while i < n
        invariant
            n == s@.len() && n == target@.len(),
            0 <= i <= n,
            forall|j: int| 0 <= j < i ==> char_ci_eq(#[trigger] s@[j], target@[j]),
        decreases n - i,
    {
        let c = s.get_char(i);
        let d = target.get_char(i);
        let cu: u32 = c as u32;
        let du: u32 = d as u32;
        let hit = cu == du || (97 <= du && du <= 122 && cu + 32 == du);
        if !hit {
            assert(!char_ci_eq(s@[i as int], target@[i as int]));
            return false;
        }
        i += 1;
    }
    true
}

} // verus!
