use nbterm::search::{find_in_lowered, find_pattern_in_text};

#[test]
fn forward_search_ignores_case() {
    assert_eq!(find_pattern_in_text("Hello\nWorld", "wor", false, true), Some((1, 0)));
    assert_eq!(find_pattern_in_text("x = 1\ny = X + 2", "X", false, true), Some((0, 0)));
    assert_eq!(find_pattern_in_text("abc", "zz", false, true), None);
    assert_eq!(find_pattern_in_text("", "a", false, true), None);
}

#[test]
fn backward_search_takes_last_match() {
    assert_eq!(find_pattern_in_text("foo\nbar", "o", false, false), Some((0, 2)));
    assert_eq!(find_pattern_in_text("ab\nab ab\ncd", "AB", false, false), Some((1, 3)));
    assert_eq!(find_pattern_in_text("ab", "", false, false), Some((0, 2)));
}

#[test]
fn current_cell_skips_match_at_start() {
    assert_eq!(find_pattern_in_text("abcab", "ab", true, true), Some((0, 3)));
    assert_eq!(find_pattern_in_text("ab\nxab", "ab", true, true), Some((1, 1)));
    assert_eq!(find_pattern_in_text("xab", "ab", true, true), Some((0, 1)));
}

#[test]
fn line_endings_and_byte_columns() {
    assert_eq!(find_pattern_in_text("a\r\nbcd\n", "c", false, true), Some((1, 1)));
    assert_eq!(find_pattern_in_text("é=1", "=", false, true), Some((0, 2)));
}

#[test]
fn search_on_lowered_lines() {
    let lines = vec!["Print(X)".to_string(), "x".to_string()];
    let lower = vec!["print(x)".to_string(), "x".to_string()];
    let tail = "rint(x)".to_string();
    assert_eq!(find_in_lowered(&lines, &lower, &"x".to_string(), &tail, false, true), Some((0, 6)));
    assert_eq!(find_in_lowered(&lines, &lower, &"x".to_string(), &tail, false, false), Some((1, 0)));
    assert_eq!(find_in_lowered(&lines, &lower, &"p".to_string(), &tail, true, true), None);
}

use nbterm::search::next_cell_with_match;

#[test]
fn cell_search_wraps_around() {
    let cells: Vec<String> =
        ["import os", "x = 1", "print(X)", "y"].iter().map(|s| s.to_string()).collect();
    assert_eq!(next_cell_with_match(&cells, 0, "x", true), Some(1));
    assert_eq!(next_cell_with_match(&cells, 1, "x", true), Some(2));
    assert_eq!(next_cell_with_match(&cells, 2, "x", true), Some(1));
    assert_eq!(next_cell_with_match(&cells, 1, "x", false), Some(2));
    assert_eq!(next_cell_with_match(&cells, 0, "os", true), Some(0));
    assert_eq!(next_cell_with_match(&cells, 3, "zzz", false), None);
}

use nbterm::search::{find_all_matches_in_cells, line_matches};

#[test]
fn all_matches_across_cells() {
    let cells: Vec<String> = ["Abab", "x\nAB"].iter().map(|s| s.to_string()).collect();
    assert_eq!(
        find_all_matches_in_cells(&cells, "ab"),
        vec![(0, 0, 0, 2), (0, 0, 2, 2), (1, 1, 0, 2)]
    );
    assert_eq!(find_all_matches_in_cells(&cells, "zz"), vec![]);
}

#[test]
fn overlapping_matches_in_a_line() {
    assert_eq!(line_matches(3, 1, "aaa", &"aa".to_string(), 2), vec![(3, 1, 0, 2), (3, 1, 1, 2)]);
    assert_eq!(line_matches(0, 0, "éa", &"a".to_string(), 1), vec![(0, 0, 2, 1)]);
}
