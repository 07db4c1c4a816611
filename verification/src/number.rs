//! The texts that read as a decimal number.
//!
//! A text is a number when it is an optional sign followed by `inf`,
//! `infinity` or `nan` in any mix of upper and lower case, or by digits with
//! at most one point among them and an optional exponent: `e` or `E`, an
//! optional sign, and at least one digit. At least one digit stands before
//! the exponent.

use vstd::prelude::*;
use crate::text::is_digit;

verus! {

pub open spec fn is_sign(c: char) -> bool {
    c == '+' || c == '-'
}

/// Index just behind the digits that start at `from`.
pub open spec fn digits_end(s: Seq<char>, from: int) -> int
    decreases s.len() - from,
{
    if 0 <= from < s.len() && is_digit(s[from]) {
        digits_end(s, from + 1)
    } else {
        from
    }
}

/// Whether `c` is the letter `lower` in either case.
pub open spec fn is_letter(c: char, lower: char, upper: char) -> bool {
    c == lower || c == upper
}

/// `inf`, `infinity` or `nan`, in any case.
pub open spec fn is_special(s: Seq<char>) -> bool {
    ||| s.len() == 3 && is_letter(s[0], 'i', 'I') && is_letter(s[1], 'n', 'N') && is_letter(
        s[2],
        'f',
        'F',
    )
    ||| s.len() == 3 && is_letter(s[0], 'n', 'N') && is_letter(s[1], 'a', 'A') && is_letter(
        s[2],
        'n',
        'N',
    )
    ||| s.len() == 8 && is_letter(s[0], 'i', 'I') && is_letter(s[1], 'n', 'N') && is_letter(
        s[2],
        'f',
        'F',
    ) && is_letter(s[3], 'i', 'I') && is_letter(s[4], 'n', 'N') && is_letter(s[5], 'i', 'I')
        && is_letter(s[6], 't', 'T') && is_letter(s[7], 'y', 'Y')
}

/// Whether the text from index `at` on is an exponent: `e`, an optional sign,
/// and digits up to the end.
pub open spec fn is_exponent(s: Seq<char>, at: int) -> bool {
    &&& 0 <= at < s.len()
    &&& is_letter(s[at], 'e', 'E')
    &&& {
        let start = if at + 1 < s.len() && is_sign(s[at + 1]) {
            at + 2
        } else {
            at + 1
        };
        digits_end(s, start) > start && digits_end(s, start) == s.len()
    }
}

/// Digits with at most one point among them, then an optional exponent.
pub open spec fn is_unsigned_number(s: Seq<char>) -> bool {
    let whole = digits_end(s, 0);
    let has_point = whole < s.len() && s[whole] == '.';
    let mantissa = if has_point {
        digits_end(s, whole + 1)
    } else {
        whole
    };
    let digits = if has_point {
        mantissa - 1
    } else {
        mantissa
    };
    digits > 0 && (mantissa == s.len() || is_exponent(s, mantissa))
}

/// Whether `s` reads as a decimal number.
pub open spec fn is_number(s: Seq<char>) -> bool {
    let body = if s.len() > 0 && is_sign(s[0]) {
        s.drop_first()
    } else {
        s
    };
    is_unsigned_number(body) || is_special(body)
}

pub proof fn lemma_digits_end(s: Seq<char>, from: int)
    requires
        0 <= from <= s.len(),
    ensures
        from <= digits_end(s, from) <= s.len(),
        forall|i: int| from <= i < digits_end(s, from) ==> is_digit(s[i]),
        digits_end(s, from) < s.len() ==> !is_digit(s[digits_end(s, from)]),
    decreases s.len() - from,
{
    if from < s.len() && is_digit(s[from]) {
        lemma_digits_end(s, from + 1);
    }
}

fn is_digit_char(c: char) -> (r: bool)
    ensures
        r == is_digit(c),
{
    '0' <= c && c <= '9'
}

fn scan_digits(v: &Vec<char>, lo: usize, from: usize) -> (r: usize)
    requires
        lo <= from <= v.len(),
    ensures
        from <= r <= v.len(),
        r - lo == digits_end(v@.subrange(lo as int, v.len() as int), from - lo),
{
    let ghost s = v@.subrange(lo as int, v.len() as int);
    let mut i: usize = from;
    while i < v.len() && is_digit_char(v[i])
        invariant
            lo <= from <= i <= v.len(),
            s == v@.subrange(lo as int, v.len() as int),
            digits_end(s, from - lo) == digits_end(s, i - lo),
        decreases v.len() - i,
    {
        proof {
            assert(s[i - lo] == v@[i as int]);
        }
        i += 1;
    }
    proof {
        if i < v.len() {
            assert(s[i - lo] == v@[i as int]);
        }
    }
    i
}

fn letter(c: char, lower: char, upper: char) -> (r: bool)
    ensures
        r == is_letter(c, lower, upper),
{
    c == lower || c == upper
}

fn special_at(v: &Vec<char>, lo: usize) -> (r: bool)
    requires
        lo <= v.len(),
    ensures
        r == is_special(v@.subrange(lo as int, v.len() as int)),
{
    let ghost s = v@.subrange(lo as int, v.len() as int);
    let n = v.len() - lo;
    proof {
        assert(forall|k: int| 0 <= k < n ==> s[k] == v@[lo + k]);
    }
    if n == 3 {
        (letter(v[lo], 'i', 'I') && letter(v[lo + 1], 'n', 'N') && letter(v[lo + 2], 'f', 'F'))
            || (letter(v[lo], 'n', 'N') && letter(v[lo + 1], 'a', 'A') && letter(
            v[lo + 2],
            'n',
            'N',
        ))
    } else if n == 8 {
        letter(v[lo], 'i', 'I') && letter(v[lo + 1], 'n', 'N') && letter(v[lo + 2], 'f', 'F')
            && letter(v[lo + 3], 'i', 'I') && letter(v[lo + 4], 'n', 'N') && letter(
            v[lo + 5],
            'i',
            'I',
        ) && letter(v[lo + 6], 't', 'T') && letter(v[lo + 7], 'y', 'Y')
    } else {
        false
    }
}

fn unsigned_at(v: &Vec<char>, lo: usize) -> (r: bool)
    requires
        lo <= v.len(),
    ensures
        r == is_unsigned_number(v@.subrange(lo as int, v.len() as int)),
{
    let ghost s = v@.subrange(lo as int, v.len() as int);
    let n = v.len();
    proof {
        assert(forall|k: int| 0 <= k < n - lo ==> s[k] == v@[lo + k]);
    }
    let whole = scan_digits(v, lo, lo);
    let has_point = whole < n && v[whole] == '.';
    let mantissa = if has_point {
        scan_digits(v, lo, whole + 1)
    } else {
        whole
    };
    let digits = if has_point {
        mantissa - lo - 1
    } else {
        mantissa - lo
    };
    if digits == 0 {
        return false;
    }
    if mantissa == n {
        return true;
    }
    if !letter(v[mantissa], 'e', 'E') {
        return false;
    }
    let start = if mantissa + 1 < n && (v[mantissa + 1] == '+' || v[mantissa + 1] == '-') {
        mantissa + 2
    } else {
        mantissa + 1
    };
    let end = scan_digits(v, lo, start);
    end > start && end == n
}

/// Whether the text of `v` reads as a decimal number.
pub fn is_number_chars(v: &Vec<char>) -> (r: bool)
    ensures
        r == is_number(v@),
{
    let lo: usize = if v.len() > 0 && (v[0] == '+' || v[0] == '-') {
        1
    } else {
        0
    };
    proof {
        if lo == 0 {
            assert(v@.subrange(0, v.len() as int) =~= v@);
        } else {
            assert(v@.subrange(1, v.len() as int) =~= v@.drop_first());
        }
    }
    unsigned_at(v, lo) || special_at(v, lo)
}

/// Whether `s` reads as a decimal number.
pub fn is_number_text(s: &str) -> (r: bool)
    ensures
        r == is_number(s@),
{
    let v = crate::text::chars_of(s);
    is_number_chars(&v)
}

} // verus!
