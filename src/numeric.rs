//! Recognising strings whose text is a decimal number literal.
//!
//! The accepted form is an optional sign, digits with at most one decimal
//! point (at least one digit in all), then an optional exponent: `e` or `E`,
//! an optional sign and at least one digit. Nothing else is accepted: no
//! surrounding whitespace, no `inf` or `nan` spellings, no hexadecimal.

use vstd::prelude::*;
use vstd::string::*;

verus! {

pub open spec fn is_digit(c: char) -> bool {
    '0' <= c && c <= '9'
}

/// The number of consecutive digits in `s` starting at position `i`.
pub open spec fn digits_from(s: Seq<char>, i: int) -> nat
    decreases s.len() - i,
{
    if 0 <= i < s.len() && is_digit(s[i]) {
        1 + digits_from(s, i + 1)
    } else {
        0
    }
}

/// 1 where `s` holds a sign character at position `i`, else 0.
pub open spec fn sign_at(s: Seq<char>, i: int) -> nat {
    if 0 <= i < s.len() && (s[i] == '+' || s[i] == '-') {
        1
    } else {
        0
    }
}

/// Whether `s[m..]` is a complete exponent part: `e` or `E`, an optional
/// sign, then one or more digits running to the end.
pub open spec fn is_exponent_from(s: Seq<char>, m: int) -> bool {
    0 <= m < s.len() && (s[m] == 'e' || s[m] == 'E') && {
        let e = m + 1 + sign_at(s, m + 1);
        digits_from(s, e) > 0 && e + digits_from(s, e) == s.len()
    }
}

/// Whether the whole of `s` is a decimal number literal.
pub open spec fn is_numeric_text(s: Seq<char>) -> bool {
    let a = sign_at(s, 0) as int;
    let int_digits = digits_from(s, a) as int;
    let p = a + int_digits;
    let has_point = p < s.len() && s[p] == '.';
    let frac_digits: int = if has_point { digits_from(s, p + 1) as int } else { 0 };
    let m = if has_point { p + 1 + frac_digits } else { p };
    int_digits + frac_digits > 0 && (m == s.len() || is_exponent_from(s, m))
}

proof fn lemma_digit_run(s: Seq<char>, i: int)
    requires
        0 <= i,
    ensures
        i + digits_from(s, i) <= s.len() || digits_from(s, i) == 0,
        forall|k: int| i <= k < i + digits_from(s, i) ==> is_digit(#[trigger] s[k]),
    decreases s.len() - i,
{
    if 0 <= i < s.len() && is_digit(s[i]) {
        lemma_digit_run(s, i + 1);
    }
}

/// Every numeric text is made of ASCII characters.
proof fn lemma_numeric_is_ascii(s: Seq<char>)
    requires
        is_numeric_text(s),
    ensures
        vstd::utf8::is_ascii_chars(s),
{
    let a = sign_at(s, 0) as int;
    let p = a + digits_from(s, a);
    lemma_digit_run(s, a);
    lemma_digit_run(s, p + 1);
    let has_point = p < s.len() && s[p] == '.';
    let m = if has_point { p + 1 + digits_from(s, p + 1) } else { p };
    let e = m + 1 + sign_at(s, m + 1);
    lemma_digit_run(s, e);
    assert forall|k: int| 0 <= k < s.len() implies '\0' <= #[trigger] s[k] <= '\u{7f}' by {
        if k < a {
        } else if k < p {
            assert(is_digit(s[k]));
        } else if k < m {
            if k > p {
                assert(is_digit(s[k]));
            }
        } else if k == m {
        } else if k < e {
        } else {
            assert(is_digit(s[k]));
        }
    }
}

/// The position just past the run of digits in `s` that starts at `i`.
fn skip_digits(s: &str, n: usize, i: usize) -> (j: usize)
    requires
        s.is_ascii(),
        n == s@.len(),
        i <= n,
    ensures
        i <= j <= n,
        j == i + digits_from(s@, i as int),
{
    let mut j: usize = i;
    while j < n && is_ascii_digit(s.get_ascii(j))
        invariant
            s.is_ascii(),
            n == s@.len(),
            i <= j <= n,
            digits_from(s@, i as int) == (j - i) + digits_from(s@, j as int),
        decreases n - j,
    {
        j = j + 1;
    }
    j
}

fn is_ascii_digit(b: u8) -> (r: bool)
    ensures
        r == is_digit(b as char),
{
    b >= 48 && b <= 57
}

fn sign_len(s: &str, n: usize, i: usize) -> (r: usize)
    requires
        s.is_ascii(),
        n == s@.len(),
    ensures
        r == sign_at(s@, i as int),
{
    if i < n {
        let b = s.get_ascii(i);
        if b == 43 || b == 45 {
            return 1;
        }
    }
    0
}

/// Whether `s` is, as a whole, a decimal number literal.
pub fn is_numeric(s: &str) -> (r: bool)
    ensures
        r == is_numeric_text(s@),
{
    if !s.is_ascii() {
        proof {
            if is_numeric_text(s@) {
                lemma_numeric_is_ascii(s@);
            }
        }
        return false;
    }
    let n = s.unicode_len();
    let a = sign_len(s, n, 0);
    let p = skip_digits(s, n, a);
    let int_digits = p - a;
    let has_point = p < n && s.get_ascii(p) == 46;
    let m = if has_point {
        skip_digits(s, n, p + 1)
    } else {
        p
    };
    let frac_digits = if has_point {
        m - p - 1
    } else {
        0
    };
    if int_digits + frac_digits == 0 {
        return false;
    }
    if m == n {
        return true;
    }
    let c = s.get_ascii(m);
    if c != 101 && c != 69 {
        return false;
    }
    let e = m + 1 + sign_len(s, n, m + 1);
    if e > n {
        return false;
    }
    let end = skip_digits(s, n, e);
    end > e && end == n
}

} // verus!
