//! Full-text matching over entry fields.
//!
//! A field matches a query when the query's characters occur in the field,
//! compared case-insensitively over ASCII letters, starting where a token
//! starts. Tokens are maximal runs of word characters: ASCII letters and
//! digits, and every character beyond ASCII. A *term* match additionally
//! ends at a token boundary; a *prefix* match may stop in the middle of a
//! token, so a query `abc` matches any token beginning with `abc`.

use vstd::prelude::*;

verus! {

/// The code point of `c` with an ASCII capital letter folded to lower case.
pub open spec fn lower_code(c: char) -> int {
    if 65 <= c as u32 && c as u32 <= 90 {
        c as u32 + 32
    } else {
        c as u32 as int
    }
}

/// Case-insensitive character comparison (ASCII fold only).
pub open spec fn chars_eq_ci(a: char, b: char) -> bool {
    lower_code(a) == lower_code(b)
}

/// Word characters form tokens; everything else separates them.
pub open spec fn is_word_char(c: char) -> bool {
    (48 <= c as u32 && c as u32 <= 57) || (65 <= c as u32 && c as u32 <= 90) || (97 <= c as u32
        && c as u32 <= 122) || c as u32 > 127
}

/// A token starts at position `i` of `s`.
pub open spec fn token_start(s: Seq<char>, i: int) -> bool {
    is_word_char(s[i]) && (i == 0 || !is_word_char(s[i - 1]))
}

/// `q` occurs at position `i` of `s`, case-insensitively.
pub open spec fn matches_at(s: Seq<char>, q: Seq<char>, i: int) -> bool {
    forall|j: int| 0 <= j < q.len() ==> chars_eq_ci(s[i + j], q[j])
}

/// The match starting at `i` is acceptable: it begins at a token start,
/// the query occurs there, and — unless prefix semantics are asked for —
/// it also ends at a token boundary.
pub open spec fn match_at(s: Seq<char>, q: Seq<char>, i: int, prefix: bool) -> bool {
    &&& 0 <= i
    &&& i + q.len() <= s.len()
    &&& token_start(s, i)
    &&& matches_at(s, q, i)
    &&& (prefix || i + q.len() == s.len() || !is_word_char(s[i + q.len()]))
}

/// The full-text predicate: an empty query constrains nothing; otherwise
/// some acceptable match position exists.
pub open spec fn text_match(s: Seq<char>, q: Seq<char>, prefix: bool) -> bool {
    q.len() == 0 || exists|i: int| match_at(s, q, i, prefix)
}

/// Executable ASCII case fold of one character's code point.
fn lower_code_x(c: char) -> (r: u32)
    ensures
        r as int == lower_code(c),
{
    let u = c as u32;
    if 65 <= u && u <= 90 {
        u + 32
    } else {
        u
    }
}

/// Executable word-character test.
fn is_word_char_x(c: char) -> (r: bool)
    ensures
        r == is_word_char(c),
{
    let u = c as u32;
    (48 <= u && u <= 57) || (65 <= u && u <= 90) || (97 <= u && u <= 122) || u > 127
}

/// Does `q` occur at position `i` of `s` (case-insensitively)?
fn matches_at_x(s: &str, q: &str, i: usize) -> (r: bool)
    requires
        i + q@.len() <= s@.len(),
        s@.len() <= usize::MAX,
    ensures
        r == matches_at(s@, q@, i as int),
{
    let m = q.unicode_len();
    let mut j: usize = 0;
    while j < m
        invariant
            m == q@.len(),
            i + m <= s@.len() <= usize::MAX,
            0 <= j <= m,
            forall|j0: int| 0 <= j0 < j ==> chars_eq_ci(s@[i + j0], q@[j0]),
        decreases m - j,
    {
        let sc = s.get_char(i + j);
        let qc = q.get_char(j);
        if lower_code_x(sc) != lower_code_x(qc) {
            assert(!chars_eq_ci(s@[i + j], q@[j as int]));
            return false;
        }
        j += 1;
    }
    true
}

/// The verified matcher: decides `text_match(s@, q@, prefix)`.
pub fn matches_text(s: &str, q: &str, prefix: bool) -> (r: bool)
    ensures
        r == text_match(s@, q@, prefix),
{
    let n = s.unicode_len();
    let m = q.unicode_len();
    if m == 0 {
        return true;
    }
    if m > n {
        assert(forall|i: int| !match_at(s@, q@, i, prefix));
        return false;
    }
    let mut i: usize = 0;
    while i <= n - m
        invariant
            n == s@.len(),
            m == q@.len(),
            0 < m <= n,
            0 <= i <= n - m + 1,
            forall|i0: int| 0 <= i0 < i ==> !match_at(s@, q@, i0, prefix),
        decreases n - i,
    {
        let starts = is_word_char_x(s.get_char(i)) && (i == 0 || !is_word_char_x(
            s.get_char(i - 1),
        ));
        if starts && matches_at_x(s, q, i) {
            let boundary_ok = prefix || i + m == n || !is_word_char_x(s.get_char(i + m));
            if boundary_ok {
                assert(match_at(s@, q@, i as int, prefix));
                return true;
            }
        }
        assert(!match_at(s@, q@, i as int, prefix));
        i += 1;
    }
    assert(forall|i0: int| !match_at(s@, q@, i0, prefix)) by {
        assert(forall|i0: int| i0 > n - m ==> !match_at(s@, q@, i0, prefix));
    }
    false
}

/// Executable string equality with an exact meaning over views.
pub fn str_eq(a: &str, b: &str) -> (r: bool)
    ensures
        r == (a@ == b@),
{
    let n = a.unicode_len();
    let m = b.unicode_len();
    if n != m {
        return false;
    }
    let mut i: usize = 0;
    while i < n
        invariant
            n == a@.len(),
            n == b@.len(),
            0 <= i <= n,
            forall|i0: int| 0 <= i0 < i ==> a@[i0] == b@[i0],
        decreases n - i,
    {
        if a.get_char(i) != b.get_char(i) {
            return false;
        }
        i += 1;
    }
    proof {
        assert(a@ =~= b@);
    }
    true
}

} // verus!
