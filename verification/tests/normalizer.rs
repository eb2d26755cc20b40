use csv_normalizer::csvio::{process_csv, ProcessError};
use csv_normalizer::dates::normalize_date;
use csv_normalizer::rules::{normalize_field, rule_for, ColumnRule};
use csv_normalizer::table::{normalize_record, normalize_rows};
use csv_normalizer::text::{normalize_numbers, trim};

fn cs(s: &str) -> Vec<char> {
    s.chars().collect()
}

fn ss(v: &[char]) -> String {
    v.iter().collect()
}

#[test]
fn trim_removes_surrounding_whitespace() {
    assert_eq!(ss(&trim(&cs("  hello world \t"))), "hello world");
    assert_eq!(ss(&trim(&cs(""))), "");
    assert_eq!(ss(&trim(&cs(" \t\n "))), "");
    assert_eq!(ss(&trim(&cs("\u{00A0}padded\u{2003}"))), "padded");
}

#[test]
fn digits_only_strips_everything_else() {
    assert_eq!(ss(&normalize_numbers(&cs("(555) 123-4567"))), "5551234567");
    assert_eq!(ss(&normalize_numbers(&cs("123-45-6789"))), "123456789");
    assert_eq!(ss(&normalize_numbers(&cs("1,200.00"))), "120000");
    assert_eq!(ss(&normalize_numbers(&cs("no digits here"))), "");
}

#[test]
fn digits_only_is_idempotent_on_digits() {
    assert_eq!(ss(&normalize_numbers(&cs("123456789"))), "123456789");
    let once = normalize_numbers(&cs(" (555) 123-4567 "));
    assert_eq!(normalize_numbers(&once), once);
}

#[test]
fn date_in_canonical_form_is_kept() {
    assert_eq!(ss(&normalize_date(&cs("01/15/2023"))), "01/15/2023");
    assert_eq!(ss(&normalize_date(&cs("12/31/9999"))), "12/31/9999");
}

#[test]
fn date_day_month_year_is_reformatted() {
    assert_eq!(ss(&normalize_date(&cs("15-01-2023"))), "01/15/2023");
    assert_eq!(ss(&normalize_date(&cs("2-3-2024"))), "03/02/2024");
}

#[test]
fn date_unparsable_passes_through() {
    assert_eq!(ss(&normalize_date(&cs("not-a-date"))), "not-a-date");
    assert_eq!(ss(&normalize_date(&cs(""))), "");
    assert_eq!(ss(&normalize_date(&cs("13/40/2023"))), "13/40/2023");
    assert_eq!(ss(&normalize_date(&cs("01-15-2023"))), "01-15-2023");
    assert_eq!(ss(&normalize_date(&cs("0/1/2023"))), "0/1/2023");
    assert_eq!(ss(&normalize_date(&cs("1/2/23"))), "1/2/23");
}

#[test]
fn date_single_digit_parts_are_padded() {
    assert_eq!(ss(&normalize_date(&cs("1/2/2023"))), "01/02/2023");
    assert_eq!(ss(&normalize_date(&cs("9/30/1999"))), "09/30/1999");
}

#[test]
fn date_respects_leap_years() {
    assert_eq!(ss(&normalize_date(&cs("29-02-2024"))), "02/29/2024");
    assert_eq!(ss(&normalize_date(&cs("29-02-2023"))), "29-02-2023");
    assert_eq!(ss(&normalize_date(&cs("02/29/2000"))), "02/29/2000");
    assert_eq!(ss(&normalize_date(&cs("29-02-1900"))), "29-02-1900");
}

#[test]
fn date_is_idempotent() {
    for input in ["01/15/2023", "15-01-2023", "1/2/2023", "garbage", ""] {
        let once = normalize_date(&cs(input));
        assert_eq!(normalize_date(&once), once);
    }
}

#[test]
fn column_rules_match_the_table() {
    for i in [3usize, 5, 17, 18, 19] {
        assert_eq!(rule_for(i), ColumnRule::DigitsOnly);
    }
    for i in [4usize, 6, 7, 8, 9] {
        assert_eq!(rule_for(i), ColumnRule::DateCanonical);
    }
    for i in [0usize, 1, 2, 10, 16, 20, 100] {
        assert_eq!(rule_for(i), ColumnRule::TrimOnly);
    }
}

#[test]
fn plain_columns_are_only_trimmed() {
    assert_eq!(ss(&normalize_field(0, &cs("  John  "))), "John");
    assert_eq!(ss(&normalize_field(10, &cs("a 1 b"))), "a 1 b");
}

#[test]
fn special_columns_trim_before_transforming() {
    assert_eq!(ss(&normalize_field(3, &cs(" (555) 123-4567 "))), "5551234567");
    assert_eq!(ss(&normalize_field(6, &cs("  15-01-2023  "))), "01/15/2023");
}

#[test]
fn record_field_count_is_preserved() {
    let row = vec![cs(" a "), cs(" (1) 2"), cs("x")];
    let out = normalize_record(&row);
    assert_eq!(out.len(), 3);
    assert_eq!(ss(&out[0]), "a");
}

#[test]
fn header_row_is_kept_verbatim() {
    let table = vec![
        vec![cs(" Name "), cs("Phone"), cs("SSN")],
        vec![cs(" Ann "), cs("b"), cs("c")],
    ];
    let out = normalize_rows(&table);
    assert_eq!(ss(&out[0][0]), " Name ");
    assert_eq!(ss(&out[1][0]), "Ann");
}

#[test]
fn ragged_rows_stay_ragged() {
    let table = vec![
        vec![cs("h1"), cs("h2")],
        vec![cs("a")],
        vec![cs("a"), cs("b"), cs("c"), cs(" 1-2 ")],
    ];
    let out = normalize_rows(&table);
    assert_eq!(out.len(), 3);
    assert_eq!(out[1].len(), 1);
    assert_eq!(out[2].len(), 4);
    assert_eq!(ss(&out[2][3]), "12");
}

#[test]
fn process_keeps_header_line() {
    let input = b"Name,Phone,SSN\n John ,x,y\n".to_vec();
    let out = process_csv(&input).unwrap();
    let text = String::from_utf8(out).unwrap();
    assert_eq!(text, "Name,Phone,SSN\nJohn,x,y\n");
}

#[test]
fn process_empty_input_gives_empty_output() {
    let out = process_csv(&Vec::new()).unwrap();
    assert!(out.is_empty());
}

#[test]
fn process_rejects_bytes_that_are_not_utf8() {
    let input = vec![b'a', b',', 0xFF, 0xFE, b'\n', b'b', b',', b'c', b'\n'];
    match process_csv(&input) {
        Err(ProcessError::Parse(_)) => {}
        _ => panic!("expected a parse error"),
    }
}

#[test]
fn process_unquotes_fields_whose_commas_are_stripped() {
    let input = b"a,b,c,d\nw,x,y,\" 1,200.00 \"\n".to_vec();
    let out = process_csv(&input).unwrap();
    let text = String::from_utf8(out).unwrap();
    assert_eq!(text, "a,b,c,d\nw,x,y,120000\n");
}

#[test]
fn end_to_end_twenty_column_row() {
    let fields = [
        "John",
        "x",
        "y",
        " (555) 123-4567 ",
        "z",
        "123-45-6789",
        "01/02/2023",
        "01-15-2023",
        "z",
        "z",
        "z",
        "z",
        "z",
        "z",
        "z",
        "z",
        "z",
        "12345",
        "\"1,200.00\"",
        "500.00",
    ];
    let header: Vec<String> = (0..20).map(|i| format!("c{}", i)).collect();
    let input = format!("{}\n{}\n", header.join(","), fields.join(","));
    let out = process_csv(&input.into_bytes()).unwrap();
    let text = String::from_utf8(out).unwrap();
    let lines: Vec<&str> = text.lines().collect();
    assert_eq!(lines.len(), 2);
    let got: Vec<&str> = lines[1].split(',').collect();
    assert_eq!(got[3], "5551234567");
    assert_eq!(got[5], "123456789");
    assert_eq!(got[6], "01/02/2023");
    // "01-15-2023" read as DD-MM-YYYY names month 15, so no date parses and
    // the trimmed value passes through unchanged.
    assert_eq!(got[7], "01-15-2023");
    assert_eq!(got[17], "12345");
    assert_eq!(got[18], "120000");
    assert_eq!(got[19], "50000");
}

#[test]
fn process_twice_is_a_no_op() {
    let input = b"Name,a,b,Phone,When\nAnn, x ,y, (555) 123-4567 , 15-01-2023 \nBob,1\n".to_vec();
    let once = process_csv(&input).unwrap();
    let twice = process_csv(&once).unwrap();
    assert_eq!(twice, once);
}
