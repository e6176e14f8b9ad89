//! Character classes and the number recognisers that the lexer uses.
use vstd::prelude::*;
use winnow::error::ContextError;
use winnow::Parser;

verus! {

/// `c` is an ASCII decimal digit.
pub open spec fn is_digit(c: char) -> bool {
    '0' <= c <= '9'
}

/// `c` is an ASCII letter or digit.
pub open spec fn is_ascii_alnum(c: char) -> bool {
    ('a' <= c <= 'z') || ('A' <= c <= 'Z') || ('0' <= c <= '9')
}

/// The length of the longest run of characters satisfying `f` that starts at `k`.
pub open spec fn run(s: Seq<char>, k: int, f: spec_fn(char) -> bool) -> int
    decreases s.len() - k,
{
    if 0 <= k < s.len() && f(s[k]) {
        1 + run(s, k + 1, f)
    } else {
        0
    }
}

/// A run stays inside the text.
pub proof fn lemma_run_bounds(s: Seq<char>, k: int, f: spec_fn(char) -> bool)
    requires
        0 <= k <= s.len(),
    ensures
        0 <= run(s, k, f) <= s.len() - k,
        forall|i: int| k <= i < k + run(s, k, f) ==> f(#[trigger] s[i]),
        k + run(s, k, f) < s.len() ==> !f(s[k + run(s, k, f)]),
    decreases s.len() - k,
{
    if k < s.len() && f(s[k]) {
        lemma_run_bounds(s, k + 1, f);
    }
}

/// The decimal digits, as a predicate.
pub open spec fn digit_pred() -> spec_fn(char) -> bool {
    |c: char| is_digit(c)
}

/// The length of the run of decimal digits that starts at `k`.
pub open spec fn digit_run(s: Seq<char>, k: int) -> int {
    run(s, k, digit_pred())
}

/// The number written by a sequence of decimal digits.
pub open spec fn digits_value(d: Seq<char>) -> int
    decreases d.len(),
{
    if d.len() == 0 {
        0
    } else {
        digits_value(d.drop_last()) * 10 + (d.last() as int - '0' as int)
    }
}

/// The number of characters that `winnow::ascii::dec_int` takes from the
/// front of `t`, or 0 when it takes none: an optional sign and digits without
/// a leading zero, or a lone `0`.
pub open spec fn dec_int_len(t: Seq<char>) -> int {
    let k: int = if t.len() > 0 && (t[0] == '+' || t[0] == '-') {
        1
    } else {
        0
    };
    if k < t.len() && '1' <= t[k] <= '9' {
        k + 1 + digit_run(t, k + 1)
    } else if t.len() > 0 && t[0] == '0' {
        1
    } else {
        0
    }
}

/// The value of the first `n` characters of `t`, a signed decimal integer.
pub open spec fn dec_int_value(t: Seq<char>, n: int) -> int {
    if t[0] == '-' {
        -digits_value(t.subrange(1, n))
    } else if t[0] == '+' {
        digits_value(t.subrange(1, n))
    } else {
        digits_value(t.subrange(0, n))
    }
}

/// What `winnow::ascii::dec_int` reads as an `i64` from the front of `t`: the
/// number of characters taken and the value, or nothing when no integer is
/// written there or it does not fit.
pub open spec fn spec_dec_int(t: Seq<char>) -> Option<(int, i64)> {
    let n = dec_int_len(t);
    if n == 0 {
        None
    } else {
        let v = dec_int_value(t, n);
        if i64::MIN <= v <= i64::MAX {
            Some((n, v as i64))
        } else {
            None
        }
    }
}

/// `dec_int` takes no more than the text holds.
pub proof fn lemma_dec_int_bounds(t: Seq<char>)
    ensures
        0 <= dec_int_len(t) <= t.len(),
{
    let k: int = if t.len() > 0 && (t[0] == '+' || t[0] == '-') {
        1
    } else {
        0
    };
    if k < t.len() {
        lemma_run_bounds(t, k + 1, digit_pred());
    }
}

/// `c` is the lower-case ASCII letter `l` in either case.
pub open spec fn same_letter(c: char, l: char) -> bool {
    c == l || c as int == l as int - 32
}

/// The ASCII letters `lit` (lower case) stand at `k`, in any case.
pub open spec fn caseless_at(t: Seq<char>, k: int, lit: Seq<char>) -> bool {
    0 <= k && k + lit.len() <= t.len() && forall|i: int|
        0 <= i < lit.len() ==> same_letter(#[trigger] t[k + i], lit[i])
}

/// The length of an exponent (`e`, an optional sign and digits) at `k`; none is
/// length 0, and an `e` without digits after it is no float at all.
pub open spec fn exp_len(t: Seq<char>, k: int) -> Option<int> {
    if 0 <= k < t.len() && (t[k] == 'e' || t[k] == 'E') {
        let k2 = if k + 1 < t.len() && (t[k + 1] == '+' || t[k + 1] == '-') {
            k + 2
        } else {
            k + 1
        };
        let d = digit_run(t, k2);
        if d >= 1 {
            Some(k2 + d - k)
        } else {
            None
        }
    } else {
        Some(0)
    }
}

/// The length of an unsigned float at `k`: `inf` or `infinity` in any case,
/// `.` and digits, or digits with an optional `.` and digits; then an exponent.
pub open spec fn unsigned_float_len(t: Seq<char>, k: int) -> Option<int> {
    if 0 <= k < t.len() && (t[k] == 'I' || t[k] == 'i') {
        if caseless_at(t, k, seq!['i', 'n', 'f']) {
            if caseless_at(t, k + 3, seq!['i', 'n', 'i', 't', 'y']) {
                Some(8)
            } else {
                Some(3)
            }
        } else {
            None
        }
    } else if 0 <= k < t.len() && t[k] == '.' {
        let d = digit_run(t, k + 1);
        if d >= 1 {
            match exp_len(t, k + 1 + d) {
                Some(e) => Some(1 + d + e),
                None => None,
            }
        } else {
            None
        }
    } else {
        let d = digit_run(t, k);
        if d >= 1 {
            let k2 = k + d;
            let f = if k2 < t.len() && t[k2] == '.' {
                1 + digit_run(t, k2 + 1)
            } else {
                0
            };
            match exp_len(t, k2 + f) {
                Some(e) => Some(d + f + e),
                None => None,
            }
        } else {
            None
        }
    }
}

/// The number of characters that `winnow::ascii::float` takes from the front
/// of `t`: `nan` in any case, or an optional sign and an unsigned float.
pub open spec fn float_len(t: Seq<char>) -> Option<int> {
    if t.len() > 0 && (t[0] == 'N' || t[0] == 'n') {
        if caseless_at(t, 0, seq!['n', 'a', 'n']) {
            Some(3)
        } else {
            None
        }
    } else if t.len() > 0 && (t[0] == '+' || t[0] == '-') {
        match unsigned_float_len(t, 1) {
            Some(m) => Some(1 + m),
            None => None,
        }
    } else {
        unsigned_float_len(t, 0)
    }
}

/// An exponent stays inside the text.
pub proof fn lemma_exp_bounds(t: Seq<char>, k: int)
    requires
        0 <= k <= t.len(),
    ensures
        exp_len(t, k) matches Some(e) ==> 0 <= e <= t.len() - k,
{
    if k < t.len() && (t[k] == 'e' || t[k] == 'E') {
        let k2 = if k + 1 < t.len() && (t[k + 1] == '+' || t[k + 1] == '-') {
            k + 2
        } else {
            k + 1
        };
        lemma_run_bounds(t, k2, digit_pred());
    }
}

/// An unsigned float stays inside the text and is not empty.
pub proof fn lemma_unsigned_float_bounds(t: Seq<char>, k: int)
    requires
        0 <= k <= t.len(),
    ensures
        unsigned_float_len(t, k) matches Some(n) ==> 1 <= n <= t.len() - k,
{
    if k < t.len() && (t[k] == 'I' || t[k] == 'i') {
    } else if k < t.len() && t[k] == '.' {
        lemma_run_bounds(t, k + 1, digit_pred());
        let d = digit_run(t, k + 1);
        lemma_exp_bounds(t, k + 1 + d);
    } else {
        lemma_run_bounds(t, k, digit_pred());
        let d = digit_run(t, k);
        let k2 = k + d;
        if k2 < t.len() && t[k2] == '.' {
            lemma_run_bounds(t, k2 + 1, digit_pred());
        }
        let f = if k2 < t.len() && t[k2] == '.' {
            1 + digit_run(t, k2 + 1)
        } else {
            0
        };
        lemma_exp_bounds(t, k2 + f);
    }
}

/// A float stays inside the text and is not empty.
pub proof fn lemma_float_bounds(t: Seq<char>)
    ensures
        float_len(t) matches Some(n) ==> 1 <= n <= t.len(),
{
    if t.len() > 0 && (t[0] == 'N' || t[0] == 'n') {
    } else if t.len() > 0 && (t[0] == '+' || t[0] == '-') {
        lemma_unsigned_float_bounds(t, 1);
    } else {
        lemma_unsigned_float_bounds(t, 0);
    }
}

/// What `char::is_alphabetic` says of a character (Unicode `Alphabetic`).
pub uninterp spec fn spec_is_alphabetic(c: char) -> bool;

/// What `char::is_alphanumeric` says of a character (Unicode `Alphabetic` or
/// `Numeric`).
pub uninterp spec fn spec_is_alphanumeric(c: char) -> bool;

/// `c` is an ASCII letter.
pub open spec fn ascii_letter(c: char) -> bool {
    ('a' <= c && c <= 'z') || ('A' <= c && c <= 'Z')
}

/// Whether `c` is alphabetic: among ASCII characters the letters, and beyond
/// ASCII what `char::is_alphabetic` says.
pub open spec fn alphabetic(c: char) -> bool {
    if c <= '\u{7f}' {
        ascii_letter(c)
    } else {
        spec_is_alphabetic(c)
    }
}

/// Whether `c` is alphanumeric: among ASCII characters the letters and
/// digits, and beyond ASCII what `char::is_alphanumeric` says.
pub open spec fn alphanumeric(c: char) -> bool {
    if c <= '\u{7f}' {
        ascii_letter(c) || is_digit(c)
    } else {
        spec_is_alphanumeric(c)
    }
}

/// `char::is_alphabetic`: whether `c` has the Unicode `Alphabetic` property.
/// Among ASCII characters those are exactly the letters; beyond ASCII the
/// result is named, not stated.
#[verifier::external_body]
pub(crate) fn char_is_alphabetic(c: char) -> (r: bool)
    ensures
        r == spec_is_alphabetic(c),
        c <= '\u{7f}' ==> r == ascii_letter(c),
{
    c.is_alphabetic()
}

/// `char::is_alphanumeric`: whether `c` is `Alphabetic` or `Numeric` in
/// Unicode. Among ASCII characters those are exactly the letters and the
/// digits; beyond ASCII the result is named, not stated.
#[verifier::external_body]
pub(crate) fn char_is_alphanumeric(c: char) -> (r: bool)
    ensures
        r == spec_is_alphanumeric(c),
        c <= '\u{7f}' ==> r == (ascii_letter(c) || is_digit(c)),
{
    c.is_alphanumeric()
}

/// `winnow::ascii::dec_int` read as `i64` on `s[p..]`: the text it took and the
/// value, or nothing where it fails (no integer there, or one that does not fit).
#[verifier::external_body]
pub(crate) fn winnow_dec_int(s: &Vec<char>, p: usize) -> (r: Option<(String, i64)>)
    requires
        p <= s@.len(),
    ensures
        match spec_dec_int(s@.skip(p as int)) {
            Some((n, v)) => r matches Some((t, x)) && t@ == s@.skip(p as int).take(n) && x == v,
            None => r is None,
        },
{
    let text: String = s[p..].iter().collect();
    match winnow::ascii::dec_int::<&str, i64, ContextError>.with_taken().parse_peek(text.as_str()) {
        Ok((_, (v, taken))) => Some((taken.to_string(), v)),
        Err(_) => None,
    }
}

/// `winnow::ascii::float` on `s[p..]`, read into the text it recognises: that
/// text, or nothing where no float stands there.
#[verifier::external_body]
pub(crate) fn winnow_float(s: &Vec<char>, p: usize) -> (r: Option<String>)
    requires
        p <= s@.len(),
    ensures
        match float_len(s@.skip(p as int)) {
            Some(n) => r matches Some(t) && t@ == s@.skip(p as int).take(n),
            None => r is None,
        },
{
    let text: String = s[p..].iter().collect();
    match winnow::ascii::float::<&str, String, ContextError>.parse_peek(text.as_str()) {
        Ok((_, taken)) => Some(taken),
        Err(_) => None,
    }
}

} // verus!
