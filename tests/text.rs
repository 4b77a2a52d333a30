use nbterm::text::{byte_offset_to_row_col, escape_regex, source_to_lines};

#[test]
fn escape_regex_escapes_metacharacters() {
    assert_eq!(escape_regex("a.b*c"), "a\\.b\\*c");
    assert_eq!(escape_regex("(x|y)[0]{1}^$?+\\"), "\\(x\\|y\\)\\[0\\]\\{1\\}\\^\\$\\?\\+\\\\");
    assert_eq!(escape_regex("plain"), "plain");
    assert_eq!(escape_regex(""), "");
}

#[test]
fn source_lines_keep_newlines() {
    assert_eq!(source_to_lines(""), Vec::<String>::new());
    assert_eq!(source_to_lines("a\nb"), vec!["a\n".to_string(), "b".to_string()]);
    assert_eq!(source_to_lines("a\n"), vec!["a\n".to_string(), "".to_string()]);
    assert_eq!(source_to_lines("x"), vec!["x".to_string()]);
}

#[test]
fn byte_offsets_become_rows_and_columns() {
    assert_eq!(byte_offset_to_row_col("ab\ncd", 0), (0, 0));
    assert_eq!(byte_offset_to_row_col("ab\ncd", 2), (0, 2));
    assert_eq!(byte_offset_to_row_col("ab\ncd", 3), (1, 0));
    assert_eq!(byte_offset_to_row_col("ab\ncd", 4), (1, 1));
    assert_eq!(byte_offset_to_row_col("ab\ncd", 99), (1, 2));
    assert_eq!(byte_offset_to_row_col("éx", 2), (0, 1));
    assert_eq!(byte_offset_to_row_col("éx", 1), (0, 1));
}

use nbterm::text::apply_completion_text;

#[test]
fn completion_replaces_byte_range() {
    assert_eq!(
        apply_completion_text("x = pri", 4, 7, "print"),
        Some(("x = print".to_string(), 0, 9))
    );
    assert_eq!(
        apply_completion_text("import o\nos.pa", 12, 14, "path"),
        Some(("import o\nos.path".to_string(), 1, 7))
    );
    assert_eq!(apply_completion_text("abc", 2, 1, "x"), None);
    assert_eq!(apply_completion_text("abc", 1, 9, "x"), None);
    assert_eq!(apply_completion_text("éa", 1, 2, "x"), None);
    assert_eq!(apply_completion_text("éa", 2, 3, "b"), Some(("éb".to_string(), 0, 2)));
}

use nbterm::text::cursor_byte_offset;

#[test]
fn cursor_offsets_count_bytes_and_newlines() {
    let lines: Vec<String> = ["ab", "é", "xyz"].iter().map(|s| s.to_string()).collect();
    assert_eq!(cursor_byte_offset(&lines, 0, 1), Some(1));
    assert_eq!(cursor_byte_offset(&lines, 1, 0), Some(3));
    assert_eq!(cursor_byte_offset(&lines, 2, 2), Some(8));
    assert_eq!(cursor_byte_offset(&lines, 7, 0), Some(10));
    assert_eq!(cursor_byte_offset(&vec![], 0, 5), Some(0));
    assert_eq!(cursor_byte_offset(&lines, 0, usize::MAX), Some(usize::MAX));
    assert_eq!(cursor_byte_offset(&lines, 1, usize::MAX), None);
}
