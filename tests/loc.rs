use jzero::loc::{line_from_offset, offset_to_line_col};

#[test]
fn test_first_line() {
    assert_eq!(line_from_offset("hello world", 5), 1);
}

#[test]
fn test_second_line() {
    assert_eq!(line_from_offset("hello\nworld", 6), 2);
}

#[test]
fn test_third_line() {
    assert_eq!(line_from_offset("a\nb\nc", 4), 3);
}

#[test]
fn test_offset_zero() {
    assert_eq!(line_from_offset("hello", 0), 1);
}

#[test]
fn offset_on_a_newline_does_not_count_it() {
    assert_eq!(line_from_offset("a\nb", 1), 1);
    assert_eq!(line_from_offset("a\nb", 2), 2);
}

#[test]
fn offset_past_the_end_counts_every_newline() {
    assert_eq!(line_from_offset("a\n\nb\n", 100), 4);
    assert_eq!(line_from_offset("", 3), 1);
}

#[test]
fn multibyte_characters_do_not_count_as_newlines() {
    let s = "\u{e9}\u{2713}\nx";
    assert_eq!(line_from_offset(s, s.len()), 2);
    assert_eq!(line_from_offset(s, 5), 1);
}

#[test]
fn line_and_column() {
    assert_eq!(offset_to_line_col("hello", 0), (1, 1));
    assert_eq!(offset_to_line_col("hello", 3), (1, 4));
    assert_eq!(offset_to_line_col("ab\ncd", 4), (2, 2));
    assert_eq!(offset_to_line_col("ab\ncd", 3), (2, 1));
    assert_eq!(offset_to_line_col("ab\ncd", 99), (2, 3));
    // Two-byte and three-byte characters each count as one column.
    let s = "\u{e9}\u{2713}x";
    assert_eq!(offset_to_line_col(s, s.len()), (1, 4));
    assert_eq!(offset_to_line_col(s, 2), (1, 2));
}
