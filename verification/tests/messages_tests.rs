use klc::messages::{extract_col_number, extract_line_number};

#[test]
fn line_and_column_are_read() {
    assert_eq!(extract_line_number("error at line 12, col 5: unexpected token"), Some(12));
    assert_eq!(extract_col_number("error at line 12, col 5: unexpected token"), Some(5));
    assert_eq!(extract_line_number("Parse error: Line 7"), Some(7));
    assert_eq!(extract_col_number("COL 3"), Some(3));
}

#[test]
fn missing_or_zero_numbers_give_none() {
    assert_eq!(extract_line_number("no position here"), None);
    assert_eq!(extract_line_number("line x"), None);
    assert_eq!(extract_line_number("line 0"), None);
    assert_eq!(extract_col_number("column 4"), None);
    assert_eq!(extract_line_number("line 99999999999999999999999"), None);
}

#[test]
fn only_the_first_occurrence_counts() {
    assert_eq!(extract_line_number("line a, line 4"), Some(4));
    assert_eq!(extract_line_number("émoji ✓ at line 42"), Some(42));
}

#[test]
fn line_marker_must_start_a_word() {
    assert_eq!(extract_line_number("Parse error at line 5 col 10"), Some(5));
    assert_eq!(extract_col_number("Parse error at line 5 col 10"), Some(10));
    assert_eq!(extract_line_number("Unexpected Newline at line 3"), Some(3));
    assert_eq!(extract_line_number("inline 7"), None);
    assert_eq!(extract_line_number("no position"), None);
    assert_eq!(extract_line_number("(line 8)"), Some(8));
}
