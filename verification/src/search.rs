use vstd::prelude::*;
use vstd::string::*;

verus! {

/// The code point of `c` with ASCII upper-case letters folded to lower
/// case; all other characters are left as they are.
pub open spec fn fold_code(c: char) -> int {
    if 65 <= c as u32 && c as u32 <= 90 {
        c as u32 + 32
    } else {
        (c as u32) as int
    }
}

/// Case-insensitive equality of two characters, ASCII letters only.
pub open spec fn char_eq_ci(a: char, b: char) -> bool {
    fold_code(a) == fold_code(b)
}

/// `pat` occurs at offset `i` of `text`, ignoring ASCII case.
pub open spec fn matches_at(text: Seq<char>, pat: Seq<char>, i: int) -> bool {
    &&& 0 <= i
    &&& i + pat.len() <= text.len()
    &&& forall|j: int| 0 <= j < pat.len() ==> char_eq_ci(text[i + j], pat[j])
}

/// `text` contains `pat` as a substring, ignoring ASCII case. This is
/// the meaning of a `LIKE '%pat%'` match, which compares ASCII letters
/// case-insensitively.
pub open spec fn contains_ci(text: Seq<char>, pat: Seq<char>) -> bool {
    exists|i: int| matches_at(text, pat, i)
}

/// Case-insensitive equality of two characters, ASCII letters only.
fn chars_eq_ci(a: char, b: char) -> (r: bool)
    ensures
        r == char_eq_ci(a, b),
{
    let ca = a as u32;
    let cb = b as u32;
    let fa = if 65 <= ca && ca <= 90 {
        ca + 32
    } else {
        ca
    };
    let fb = if 65 <= cb && cb <= 90 {
        cb + 32
    } else {
        cb
    };
    fa == fb
}

/// Whether `pat` occurs at offset `i` of `text`, ignoring ASCII case.
fn match_at(text: &str, pat: &str, i: usize, n: usize, m: usize) -> (r: bool)
    requires
        n == text@.len(),
        m == pat@.len(),
        i + m <= n,
    ensures
        r == matches_at(text@, pat@, i as int),
{
    let mut j: usize = 0;
    while j < m
        invariant
            j <= m,
            i + m <= n,
            n == text@.len(),
            m == pat@.len(),
            forall|l: int| 0 <= l < j ==> char_eq_ci(text@[i + l], pat@[l]),
        decreases m - j,
    {
        if !chars_eq_ci(text.get_char(i + j), pat.get_char(j)) {
            proof {
                assert(!matches_at(text@, pat@, i as int)) by {
                    if matches_at(text@, pat@, i as int) {
                        assert(char_eq_ci(text@[i + j], pat@[j as int]));
                    }
                }
            }
            return false;
        }
        j += 1;
    }
    true
}

/// Whether `text` contains `pat` as a substring, ignoring ASCII case.
pub fn contains_substring_ci(text: &str, pat: &str) -> (r: bool)
    ensures
        r == contains_ci(text@, pat@),
{
    let n = text.unicode_len();
    let m = pat.unicode_len();
    if m > n {
        proof {
            assert(!contains_ci(text@, pat@)) by {
                if contains_ci(text@, pat@) {
                    let i = choose|i: int| matches_at(text@, pat@, i);
                }
            }
        }
        return false;
    }
    let mut i: usize = 0;
    while i <= n - m
        invariant
            m <= n,
            n == text@.len(),
            m == pat@.len(),
            i <= n - m + 1,
            forall|k: int| 0 <= k < i ==> !matches_at(text@, pat@, k),
        decreases n + 1 - i,
    {
        if match_at(text, pat, i, n, m) {
            return true;
        }
        i += 1;
    }
    proof {
        assert(!contains_ci(text@, pat@)) by {
            if contains_ci(text@, pat@) {
                let k = choose|k: int| matches_at(text@, pat@, k);
                assert(0 <= k < i);
            }
        }
    }
    false
}

} // verus!
