//! Date canonicalization: a field that parses as `MM/DD/YYYY` or as
//! `DD-MM-YYYY` (one- or two-digit month and day, four-digit year, valid
//! calendar date) is rewritten in the zero-padded `MM/DD/YYYY` form; any
//! other field passes through unchanged.

use vstd::prelude::*;
use crate::text::{is_digit_char, trim_spec, lemma_digit_not_space, lemma_trim_of_clean, is_clean,
    digit_char, copy_chars};

verus! {

/// Numeric value of an ASCII digit character.
pub open spec fn digit_val_spec(c: char) -> int {
    c as int - 0x30
}

pub open spec fn all_digit_seq(s: Seq<char>) -> bool {
    forall|i: int| 0 <= i < s.len() ==> is_digit_char(#[trigger] s[i])
}

/// Decimal value of a digit run of length 1, 2 or 4 (the only lengths the
/// date grammar produces).
pub open spec fn num_val(s: Seq<char>) -> int {
    if s.len() == 1 {
        digit_val_spec(s[0])
    } else if s.len() == 2 {
        10 * digit_val_spec(s[0]) + digit_val_spec(s[1])
    } else {
        1000 * digit_val_spec(s[0]) + 100 * digit_val_spec(s[1]) + 10 * digit_val_spec(s[2])
            + digit_val_spec(s[3])
    }
}

/// Splits `s` as `A sep B sep YYYY` where `A` and `B` have one or two
/// characters and the year part has exactly four. Returns the three parts.
pub open spec fn split_date_spec(s: Seq<char>, sep: char) -> Option<
    (Seq<char>, Seq<char>, Seq<char>),
> {
    if s.len() == 8 && s[1] == sep && s[3] == sep {
        Some((s.subrange(0, 1), s.subrange(2, 3), s.subrange(4, 8)))
    } else if s.len() == 9 && s[1] == sep && s[4] == sep {
        Some((s.subrange(0, 1), s.subrange(2, 4), s.subrange(5, 9)))
    } else if s.len() == 9 && s[2] == sep && s[4] == sep {
        Some((s.subrange(0, 2), s.subrange(3, 4), s.subrange(5, 9)))
    } else if s.len() == 10 && s[2] == sep && s[5] == sep {
        Some((s.subrange(0, 2), s.subrange(3, 5), s.subrange(6, 10)))
    } else {
        None
    }
}

/// The two numbers and the year read from `s`, if `s` has the shape
/// `A sep B sep YYYY` with every part made of digits.
pub open spec fn parse_date_spec(s: Seq<char>, sep: char) -> Option<(int, int, int)> {
    match split_date_spec(s, sep) {
        Some(parts) => if all_digit_seq(parts.0) && all_digit_seq(parts.1) && all_digit_seq(
            parts.2,
        ) {
            Some((num_val(parts.0), num_val(parts.1), num_val(parts.2)))
        } else {
            None
        },
        None => None,
    }
}

pub open spec fn is_leap_year(y: int) -> bool {
    y % 4 == 0 && (y % 100 != 0 || y % 400 == 0)
}

pub open spec fn days_in_month_spec(y: int, m: int) -> int {
    if m == 2 {
        if is_leap_year(y) {
            29
        } else {
            28
        }
    } else if m == 4 || m == 6 || m == 9 || m == 11 {
        30
    } else {
        31
    }
}

/// A valid calendar date with a four-digit year.
pub open spec fn date_ok(m: int, d: int, y: int) -> bool {
    1 <= m <= 12 && 1 <= d <= days_in_month_spec(y, m) && 0 <= y <= 9999
}

/// Month, day and year denoted by `s` in the `MM/DD/YYYY` form, if valid.
pub open spec fn mdy_of_spec(s: Seq<char>) -> Option<(int, int, int)> {
    match parse_date_spec(s, '/') {
        Some(p) => if date_ok(p.0, p.1, p.2) {
            Some(p)
        } else {
            None
        },
        None => None,
    }
}

/// Month, day and year denoted by `s` in the `DD-MM-YYYY` form, if valid.
pub open spec fn dmy_of_spec(s: Seq<char>) -> Option<(int, int, int)> {
    match parse_date_spec(s, '-') {
        Some(p) => if date_ok(p.1, p.0, p.2) {
            Some((p.1, p.0, p.2))
        } else {
            None
        },
        None => None,
    }
}

pub open spec fn digit_char_spec(n: int) -> char {
    if n == 0 {
        '0'
    } else if n == 1 {
        '1'
    } else if n == 2 {
        '2'
    } else if n == 3 {
        '3'
    } else if n == 4 {
        '4'
    } else if n == 5 {
        '5'
    } else if n == 6 {
        '6'
    } else if n == 7 {
        '7'
    } else if n == 8 {
        '8'
    } else {
        '9'
    }
}

pub open spec fn two_chars(n: int) -> Seq<char> {
    seq![digit_char_spec(n / 10), digit_char_spec(n % 10)]
}

pub open spec fn four_chars(n: int) -> Seq<char> {
    seq![
        digit_char_spec(n / 1000),
        digit_char_spec((n / 100) % 10),
        digit_char_spec((n / 10) % 10),
        digit_char_spec(n % 10),
    ]
}

/// The canonical, zero-padded `MM/DD/YYYY` rendering of a date.
pub open spec fn fmt_mdy_spec(m: int, d: int, y: int) -> Seq<char> {
    two_chars(m) + seq!['/'] + two_chars(d) + seq!['/'] + four_chars(y)
}

/// The full date rule: reformat what parses in either accepted form, pass
/// everything else through unchanged.
pub open spec fn normalize_date_spec(s: Seq<char>) -> Seq<char> {
    match mdy_of_spec(s) {
        Some(p) => fmt_mdy_spec(p.0, p.1, p.2),
        None => match dmy_of_spec(s) {
            Some(p) => fmt_mdy_spec(p.0, p.1, p.2),
            None => s,
        },
    }
}

pub proof fn lemma_digit_char_val(n: int)
    requires
        0 <= n <= 9,
    ensures
        is_digit_char(digit_char_spec(n)),
        digit_val_spec(digit_char_spec(n)) == n,
{
}

/// The canonical rendering of a valid date parses back to the same date.
pub proof fn lemma_parse_of_fmt(m: int, d: int, y: int)
    requires
        date_ok(m, d, y),
    ensures
        mdy_of_spec(fmt_mdy_spec(m, d, y)) == Some((m, d, y)),
{
    let s = fmt_mdy_spec(m, d, y);
    assert(0 <= m / 10 <= 9 && 0 <= m % 10 <= 9) by (nonlinear_arith)
        requires
            1 <= m <= 12,
    ;
    assert(0 <= d / 10 <= 9 && 0 <= d % 10 <= 9) by (nonlinear_arith)
        requires
            1 <= d <= 31,
    ;
    assert(0 <= y / 1000 <= 9 && 0 <= (y / 100) % 10 <= 9 && 0 <= (y / 10) % 10 <= 9 && 0 <= y % 10
        <= 9) by (nonlinear_arith)
        requires
            0 <= y <= 9999,
    ;
    lemma_digit_char_val(m / 10);
    lemma_digit_char_val(m % 10);
    lemma_digit_char_val(d / 10);
    lemma_digit_char_val(d % 10);
    lemma_digit_char_val(y / 1000);
    lemma_digit_char_val((y / 100) % 10);
    lemma_digit_char_val((y / 10) % 10);
    lemma_digit_char_val(y % 10);
    assert(s.len() == 10);
    assert(s[2] == '/');
    assert(s[5] == '/');
    assert(s.subrange(0, 2) =~= two_chars(m));
    assert(s.subrange(3, 5) =~= two_chars(d));
    assert(s.subrange(6, 10) =~= four_chars(y));
    assert(s[1] != '/' && s[3] != '/');
    assert(num_val(two_chars(m)) == 10 * (m / 10) + m % 10);
    assert(10 * (m / 10) + m % 10 == m) by (nonlinear_arith);
    assert(10 * (d / 10) + d % 10 == d) by (nonlinear_arith);
    assert(num_val(four_chars(y)) == 1000 * (y / 1000) + 100 * ((y / 100) % 10) + 10 * ((y / 10)
        % 10) + y % 10);
    assert(1000 * (y / 1000) + 100 * ((y / 100) % 10) + 10 * ((y / 10) % 10) + y % 10 == y)
        by (nonlinear_arith);
    assert(parse_date_spec(s, '/') == Some((m, d, y)));
}

/// The canonical rendering starts and ends with a digit, so it is clean.
pub proof fn lemma_fmt_clean(m: int, d: int, y: int)
    requires
        date_ok(m, d, y),
    ensures
        is_clean(fmt_mdy_spec(m, d, y)),
        trim_spec(fmt_mdy_spec(m, d, y)) == fmt_mdy_spec(m, d, y),
{
    let s = fmt_mdy_spec(m, d, y);
    assert(0 <= m / 10 <= 9 && 0 <= y % 10 <= 9) by (nonlinear_arith)
        requires
            1 <= m <= 12 && 0 <= y <= 9999,
    ;
    lemma_digit_char_val(m / 10);
    lemma_digit_char_val(y % 10);
    assert(s[0] == digit_char_spec(m / 10));
    assert(s.last() == digit_char_spec(y % 10));
    lemma_digit_not_space(s[0]);
    lemma_digit_not_space(s.last());
    lemma_trim_of_clean(s);
}

/// Applying the date rule twice is the same as applying it once.
pub proof fn lemma_normalize_date_idempotent(s: Seq<char>)
    ensures
        normalize_date_spec(normalize_date_spec(s)) == normalize_date_spec(s),
{
    match mdy_of_spec(s) {
        Some(p) => {
            lemma_parse_of_fmt(p.0, p.1, p.2);
        },
        None => {
            match dmy_of_spec(s) {
                Some(p) => {
                    lemma_parse_of_fmt(p.0, p.1, p.2);
                },
                None => {},
            }
        },
    }
}

/// The date rule sends a clean (already trimmed) field to a clean field.
pub proof fn lemma_normalize_date_clean(s: Seq<char>)
    requires
        trim_spec(s) == s,
    ensures
        trim_spec(normalize_date_spec(s)) == normalize_date_spec(s),
{
    match mdy_of_spec(s) {
        Some(p) => {
            lemma_fmt_clean(p.0, p.1, p.2);
        },
        None => {
            match dmy_of_spec(s) {
                Some(p) => {
                    lemma_fmt_clean(p.0, p.1, p.2);
                },
                None => {},
            }
        },
    }
}

fn digit_value(c: char) -> (r: u32)
    requires
        is_digit_char(c),
    ensures
        r as int == digit_val_spec(c),
        r <= 9,
{
    c as u32 - 0x30
}

fn digit_of(n: u32) -> (c: char)
    requires
        n <= 9,
    ensures
        c == digit_char_spec(n as int),
{
    if n == 0 {
        '0'
    } else if n == 1 {
        '1'
    } else if n == 2 {
        '2'
    } else if n == 3 {
        '3'
    } else if n == 4 {
        '4'
    } else if n == 5 {
        '5'
    } else if n == 6 {
        '6'
    } else if n == 7 {
        '7'
    } else if n == 8 {
        '8'
    } else {
        '9'
    }
}

fn all_digits_range(v: &Vec<char>, from: usize, to: usize) -> (r: bool)
    requires
        from <= to <= v.len(),
    ensures
        r == all_digit_seq(v@.subrange(from as int, to as int)),
{
    let ghost part = v@.subrange(from as int, to as int);
    let mut i: usize = from;
    while i < to
        invariant
            from <= i <= to <= v.len(),
            part == v@.subrange(from as int, to as int),
            forall|j: int| from <= j < i ==> is_digit_char(#[trigger] v@[j]),
        decreases to - i,
    {
        if !digit_char(v[i]) {
            proof {
                assert(part[i - from as int] == v@[i as int]);
            }
            return false;
        }
        i = i + 1;
    }
    proof {
        assert forall|j: int| 0 <= j < part.len() implies is_digit_char(#[trigger] part[j]) by {
            assert(part[j] == v@[from as int + j]);
        }
    }
    true
}

fn parse_with_sep(v: &Vec<char>, sep: char) -> (r: Option<(u32, u32, u32)>)
    ensures
        match r {
            Some(p) => parse_date_spec(v@, sep) == Some((p.0 as int, p.1 as int, p.2 as int)),
            None => parse_date_spec(v@, sep) is None,
        },
{
    let ghost s = v@;
    let n = v.len();
    if n == 8 && v[1] == sep && v[3] == sep {
        if all_digits_range(v, 0, 1) && all_digits_range(v, 2, 3) && all_digits_range(v, 4, 8) {
            proof {
                assert(s.subrange(0, 1)[0] == s[0]);
                assert(s.subrange(2, 3)[0] == s[2]);
                assert(s.subrange(4, 8)[0] == s[4]);
                assert(s.subrange(4, 8)[1] == s[5]);
                assert(s.subrange(4, 8)[2] == s[6]);
                assert(s.subrange(4, 8)[3] == s[7]);
            }
            let a = digit_value(v[0]);
            let b = digit_value(v[2]);
            let y = 1000 * digit_value(v[4]) + 100 * digit_value(v[5]) + 10 * digit_value(v[6])
                + digit_value(v[7]);
            Some((a, b, y))
        } else {
            None
        }
    } else if n == 9 && v[1] == sep && v[4] == sep {
        if all_digits_range(v, 0, 1) && all_digits_range(v, 2, 4) && all_digits_range(v, 5, 9) {
            proof {
                assert(s.subrange(0, 1)[0] == s[0]);
                assert(s.subrange(2, 4)[0] == s[2]);
                assert(s.subrange(2, 4)[1] == s[3]);
                assert(s.subrange(5, 9)[0] == s[5]);
                assert(s.subrange(5, 9)[1] == s[6]);
                assert(s.subrange(5, 9)[2] == s[7]);
                assert(s.subrange(5, 9)[3] == s[8]);
            }
            let a = digit_value(v[0]);
            let b = 10 * digit_value(v[2]) + digit_value(v[3]);
            let y = 1000 * digit_value(v[5]) + 100 * digit_value(v[6]) + 10 * digit_value(v[7])
                + digit_value(v[8]);
            Some((a, b, y))
        } else {
            None
        }
    } else if n == 9 && v[2] == sep && v[4] == sep {
        if all_digits_range(v, 0, 2) && all_digits_range(v, 3, 4) && all_digits_range(v, 5, 9) {
            proof {
                assert(s.subrange(0, 2)[0] == s[0]);
                assert(s.subrange(0, 2)[1] == s[1]);
                assert(s.subrange(3, 4)[0] == s[3]);
                assert(s.subrange(5, 9)[0] == s[5]);
                assert(s.subrange(5, 9)[1] == s[6]);
                assert(s.subrange(5, 9)[2] == s[7]);
                assert(s.subrange(5, 9)[3] == s[8]);
            }
            let a = 10 * digit_value(v[0]) + digit_value(v[1]);
            let b = digit_value(v[3]);
            let y = 1000 * digit_value(v[5]) + 100 * digit_value(v[6]) + 10 * digit_value(v[7])
                + digit_value(v[8]);
            Some((a, b, y))
        } else {
            None
        }
    } else if n == 10 && v[2] == sep && v[5] == sep {
        if all_digits_range(v, 0, 2) && all_digits_range(v, 3, 5) && all_digits_range(v, 6, 10) {
            proof {
                assert(s.subrange(0, 2)[0] == s[0]);
                assert(s.subrange(0, 2)[1] == s[1]);
                assert(s.subrange(3, 5)[0] == s[3]);
                assert(s.subrange(3, 5)[1] == s[4]);
                assert(s.subrange(6, 10)[0] == s[6]);
                assert(s.subrange(6, 10)[1] == s[7]);
                assert(s.subrange(6, 10)[2] == s[8]);
                assert(s.subrange(6, 10)[3] == s[9]);
            }
            let a = 10 * digit_value(v[0]) + digit_value(v[1]);
            let b = 10 * digit_value(v[3]) + digit_value(v[4]);
            let y = 1000 * digit_value(v[6]) + 100 * digit_value(v[7]) + 10 * digit_value(v[8])
                + digit_value(v[9]);
            Some((a, b, y))
        } else {
            None
        }
    } else {
        None
    }
}

fn days_in_month(y: u32, m: u32) -> (r: u32)
    requires
        1 <= m <= 12,
    ensures
        r as int == days_in_month_spec(y as int, m as int),
{
    if m == 2 {
        if y % 4 == 0 && (y % 100 != 0 || y % 400 == 0) {
            29
        } else {
            28
        }
    } else if m == 4 || m == 6 || m == 9 || m == 11 {
        30
    } else {
        31
    }
}

fn check_date(m: u32, d: u32, y: u32) -> (r: bool)
    ensures
        r == date_ok(m as int, d as int, y as int),
{
    if 1 <= m && m <= 12 && 1 <= d && y <= 9999 {
        d <= days_in_month(y, m)
    } else {
        false
    }
}

fn month_day_year(v: &Vec<char>) -> (r: Option<(u32, u32, u32)>)
    ensures
        match r {
            Some(p) => mdy_of_spec(v@) == Some((p.0 as int, p.1 as int, p.2 as int)),
            None => mdy_of_spec(v@) is None,
        },
{
    match parse_with_sep(v, '/') {
        Some(p) => if check_date(p.0, p.1, p.2) {
            Some(p)
        } else {
            None
        },
        None => None,
    }
}

fn day_month_year(v: &Vec<char>) -> (r: Option<(u32, u32, u32)>)
    ensures
        match r {
            Some(p) => dmy_of_spec(v@) == Some((p.0 as int, p.1 as int, p.2 as int)),
            None => dmy_of_spec(v@) is None,
        },
{
    match parse_with_sep(v, '-') {
        Some(p) => if check_date(p.1, p.0, p.2) {
            Some((p.1, p.0, p.2))
        } else {
            None
        },
        None => None,
    }
}

fn fmt_mdy(m: u32, d: u32, y: u32) -> (r: Vec<char>)
    requires
        m <= 99,
        d <= 99,
        y <= 9999,
    ensures
        r@ == fmt_mdy_spec(m as int, d as int, y as int),
{
    let mut out: Vec<char> = Vec::new();
    out.push(digit_of(m / 10));
    out.push(digit_of(m % 10));
    out.push('/');
    out.push(digit_of(d / 10));
    out.push(digit_of(d % 10));
    out.push('/');
    out.push(digit_of(y / 1000));
    out.push(digit_of((y / 100) % 10));
    out.push(digit_of((y / 10) % 10));
    out.push(digit_of(y % 10));
    proof {
        assert(out@ =~= fmt_mdy_spec(m as int, d as int, y as int));
    }
    out
}

/// Canonicalizes a date field: a value in `MM/DD/YYYY` or `DD-MM-YYYY` form
/// is rewritten as zero-padded `MM/DD/YYYY`; anything else is returned
/// unchanged.
pub fn normalize_date(value: &Vec<char>) -> (r: Vec<char>)
    ensures
        r@ == normalize_date_spec(value@),
{
    match month_day_year(value) {
        Some(p) => fmt_mdy(p.0, p.1, p.2),
        None => {
            match day_month_year(value) {
                Some(p) => fmt_mdy(p.0, p.1, p.2),
                None => copy_chars(value),
            }
        },
    }
}

} // verus!
