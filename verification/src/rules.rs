//! The per-column rule table: which normalization each zero-based column
//! index receives, and the field transform it induces.

use vstd::prelude::*;
use crate::text::{trim_spec, digits_spec, trim, normalize_numbers, lemma_trim_idempotent,
    lemma_trim_of_digits, lemma_digits_idempotent};
use crate::dates::{normalize_date_spec, normalize_date, lemma_normalize_date_idempotent,
    lemma_normalize_date_clean};

verus! {

/// The normalization a column receives.
#[derive(Clone, Copy, PartialEq, Eq, Structural, Debug)]
pub enum ColumnRule {
    /// Keep only the ASCII digits of the trimmed field.
    DigitsOnly,
    /// Rewrite the trimmed field in canonical `MM/DD/YYYY` form when it
    /// parses as a date; otherwise keep it as trimmed.
    DateCanonical,
    /// Keep the trimmed field as it is.
    TrimOnly,
}

/// The fixed column table: digits-only for the phone, social security,
/// postal code and the two money columns; date canonicalization for the five
/// date columns; plain trimming everywhere else.
pub open spec fn rule_for_spec(i: int) -> ColumnRule {
    if i == 3 || i == 5 || i == 17 || i == 18 || i == 19 {
        ColumnRule::DigitsOnly
    } else if i == 4 || i == 6 || i == 7 || i == 8 || i == 9 {
        ColumnRule::DateCanonical
    } else {
        ColumnRule::TrimOnly
    }
}

pub fn rule_for(i: usize) -> (r: ColumnRule)
    ensures
        r == rule_for_spec(i as int),
{
    if i == 3 || i == 5 || i == 17 || i == 18 || i == 19 {
        ColumnRule::DigitsOnly
    } else if i == 4 || i == 6 || i == 7 || i == 8 || i == 9 {
        ColumnRule::DateCanonical
    } else {
        ColumnRule::TrimOnly
    }
}

/// What a body field at column `i` becomes: trimmed, then reduced to digits
/// or date-canonicalized where the column table says so.
pub open spec fn normalize_field_spec(i: int, f: Seq<char>) -> Seq<char> {
    match rule_for_spec(i) {
        ColumnRule::DigitsOnly => digits_spec(trim_spec(f)),
        ColumnRule::DateCanonical => normalize_date_spec(trim_spec(f)),
        ColumnRule::TrimOnly => trim_spec(f),
    }
}

/// Applies the column rule for index `i` to one field.
pub fn normalize_field(i: usize, field: &Vec<char>) -> (r: Vec<char>)
    ensures
        r@ == normalize_field_spec(i as int, field@),
{
    let t = trim(field);
    match rule_for(i) {
        ColumnRule::DigitsOnly => normalize_numbers(&t),
        ColumnRule::DateCanonical => normalize_date(&t),
        ColumnRule::TrimOnly => t,
    }
}

/// Every column rule is idempotent: normalizing a field that is already the
/// result of normalization changes nothing.
pub proof fn lemma_normalize_field_idempotent(i: int, f: Seq<char>)
    ensures
        normalize_field_spec(i, normalize_field_spec(i, f)) == normalize_field_spec(i, f),
{
    lemma_trim_idempotent(f);
    let t = trim_spec(f);
    match rule_for_spec(i) {
        ColumnRule::DigitsOnly => {
            lemma_trim_of_digits(t);
            lemma_digits_idempotent(t);
        },
        ColumnRule::DateCanonical => {
            lemma_normalize_date_clean(t);
            lemma_normalize_date_idempotent(t);
        },
        ColumnRule::TrimOnly => {},
    }
}

} // verus!
