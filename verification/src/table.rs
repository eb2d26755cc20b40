//! Record- and table-level normalization: the header row passes through
//! untouched, every later row has each field normalized by its column rule,
//! and no transform ever adds or removes a field or a row.

use vstd::prelude::*;
use crate::rules::{normalize_field_spec, normalize_field, rule_for_spec, ColumnRule,
    lemma_normalize_field_idempotent};
use crate::text::{trim_spec, digits_spec, copy_chars};

verus! {

/// What one body record becomes: the field at position `i` is normalized by
/// the rule for column `i`; the field count is kept.
pub open spec fn normalize_record_spec(row: Seq<Seq<char>>) -> Seq<Seq<char>> {
    Seq::new(row.len(), |i: int| normalize_field_spec(i, row[i]))
}

/// What the whole table becomes: the first row (the header, when one is
/// present) is kept verbatim, every later row is normalized; the row count
/// is kept.
pub open spec fn normalize_rows_spec(rows: Seq<Seq<Seq<char>>>) -> Seq<Seq<Seq<char>>> {
    Seq::new(
        rows.len(),
        |i: int|
            if i == 0 {
                rows[i]
            } else {
                normalize_record_spec(rows[i])
            },
    )
}

/// The deep view of a record indexes to the views of its fields.
proof fn lemma_record_deep_view(v: Vec<Vec<char>>)
    ensures
        v.deep_view().len() == v@.len(),
        forall|j: int| 0 <= j < v@.len() ==> v.deep_view()[j] == (#[trigger] v@[j])@,
{
    assert forall|j: int| 0 <= j < v@.len() implies v.deep_view()[j] == (#[trigger] v@[j])@ by {
        assert(v@[j].deep_view() =~= v@[j]@);
    }
}

/// Normalizes one body record, field by field.
pub fn normalize_record(row: &Vec<Vec<char>>) -> (r: Vec<Vec<char>>)
    ensures
        r.deep_view() == normalize_record_spec(row.deep_view()),
        r@.len() == row@.len(),
{
    let mut out: Vec<Vec<char>> = Vec::new();
    let mut i: usize = 0;
    while i < row.len()
        invariant
            i <= row.len(),
            out@.len() == i,
            forall|j: int| 0 <= j < i ==> (#[trigger] out@[j])@ == normalize_field_spec(
                j,
                row@[j]@,
            ),
        decreases row.len() - i,
    {
        out.push(normalize_field(i, &row[i]));
        i = i + 1;
    }
    proof {
        lemma_record_deep_view(*row);
        lemma_record_deep_view(out);
        assert(out.deep_view() =~= normalize_record_spec(row.deep_view()));
    }
    out
}

fn copy_record(row: &Vec<Vec<char>>) -> (r: Vec<Vec<char>>)
    ensures
        r.deep_view() == row.deep_view(),
        r@.len() == row@.len(),
{
    let mut out: Vec<Vec<char>> = Vec::new();
    let mut i: usize = 0;
    while i < row.len()
        invariant
            i <= row.len(),
            out@.len() == i,
            forall|j: int| 0 <= j < i ==> (#[trigger] out@[j])@ == row@[j]@,
        decreases row.len() - i,
    {
        out.push(copy_chars(&row[i]));
        i = i + 1;
    }
    proof {
        lemma_record_deep_view(*row);
        lemma_record_deep_view(out);
        assert(out.deep_view() =~= row.deep_view());
    }
    out
}

/// Normalizes a parsed table: the header row is written through unchanged,
/// each later row is normalized column by column, and the shape of the
/// table (row count, and each row's field count) is exactly preserved.
pub fn normalize_rows(rows: &Vec<Vec<Vec<char>>>) -> (r: Vec<Vec<Vec<char>>>)
    ensures
        r.deep_view() == normalize_rows_spec(rows.deep_view()),
        r@.len() == rows@.len(),
{
    let mut out: Vec<Vec<Vec<char>>> = Vec::new();
    let mut i: usize = 0;
    while i < rows.len()
        invariant
            i <= rows.len(),
            out@.len() == i,
            forall|j: int| 0 <= j < i ==> (#[trigger] out@[j]).deep_view()
                == normalize_rows_spec(rows.deep_view())[j],
        decreases rows.len() - i,
    {
        proof {
            assert(rows.deep_view()[i as int] == rows@[i as int].deep_view());
        }
        if i == 0 {
            out.push(copy_record(&rows[i]));
        } else {
            out.push(normalize_record(&rows[i]));
        }
        i = i + 1;
    }
    proof {
        assert(out.deep_view() =~= normalize_rows_spec(rows.deep_view()));
    }
    out
}

/// The header row is never transformed.
pub proof fn lemma_header_kept(rows: Seq<Seq<Seq<char>>>)
    requires
        rows.len() > 0,
    ensures
        normalize_rows_spec(rows)[0] == rows[0],
{
}

/// Normalization preserves the shape of the table exactly: the row count,
/// and the field count of every row, ragged or not.
pub proof fn lemma_shape_kept(rows: Seq<Seq<Seq<char>>>)
    ensures
        normalize_rows_spec(rows).len() == rows.len(),
        forall|i: int| 0 <= i < rows.len() ==> (#[trigger] normalize_rows_spec(rows)[i]).len()
            == rows[i].len(),
{
}

/// In a body row, a column under no special rule carries exactly the
/// trimmed input field.
pub proof fn lemma_plain_columns(rows: Seq<Seq<Seq<char>>>, i: int, j: int)
    requires
        1 <= i < rows.len(),
        0 <= j < rows[i].len(),
        rule_for_spec(j) is TrimOnly,
    ensures
        normalize_rows_spec(rows)[i][j] == trim_spec(rows[i][j]),
{
}

/// In a body row, a digits-only column carries exactly the ASCII-digit
/// subsequence of the trimmed input field.
pub proof fn lemma_digit_columns(rows: Seq<Seq<Seq<char>>>, i: int, j: int)
    requires
        1 <= i < rows.len(),
        0 <= j < rows[i].len(),
        rule_for_spec(j) is DigitsOnly,
    ensures
        normalize_rows_spec(rows)[i][j] == digits_spec(trim_spec(rows[i][j])),
{
}

/// Normalizing an already normalized table is a no-op, for every rule.
pub proof fn lemma_normalize_rows_idempotent(rows: Seq<Seq<Seq<char>>>)
    ensures
        normalize_rows_spec(normalize_rows_spec(rows)) == normalize_rows_spec(rows),
{
    let once = normalize_rows_spec(rows);
    assert forall|i: int| 0 <= i < once.len() implies normalize_rows_spec(once)[i] == once[i] by {
        if i > 0 {
            assert forall|j: int| 0 <= j < once[i].len() implies normalize_record_spec(once[i])[j]
                == once[i][j] by {
                lemma_normalize_field_idempotent(j, rows[i][j]);
            }
            assert(normalize_record_spec(once[i]) =~= once[i]);
        }
    }
    assert(normalize_rows_spec(once) =~~= once);
}

} // verus!
