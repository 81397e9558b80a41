use wps_mcp_rust::docs::a1::{cell_address, col_to_letters, letters_to_col, parse_a1_cell, parse_a1_range};
use wps_mcp_rust::docs::error::DocsError;

#[test]
fn parse_range_a1_b2() {
    let (s, e) = parse_a1_range("A1:B2").unwrap();
    assert_eq!(s, (0, 0));
    assert_eq!(e, (1, 1));
}

#[test]
fn parse_single_cell() {
    let (s, e) = parse_a1_range("C3").unwrap();
    assert_eq!(s, (2, 2));
    assert_eq!(e, (2, 2));
}

#[test]
fn parse_invalid_range() {
    assert!(parse_a1_range("not-a-range").is_err());
    assert!(parse_a1_range("").is_err());
    assert!(parse_a1_range("A0").is_err());
}

#[test]
fn range_corners_are_ordered_whatever_the_order_given() {
    let (s, e) = parse_a1_range("B5:A1").unwrap();
    assert_eq!(s, (0, 0));
    assert_eq!(e, (4, 1));
}

#[test]
fn range_is_case_insensitive_and_trimmed() {
    let (s, e) = parse_a1_range("  aa10:ab12 ").unwrap();
    assert_eq!(s, (9, 26));
    assert_eq!(e, (11, 27));
}

#[test]
fn empty_range_message() {
    match parse_a1_range("   ") {
        Err(DocsError::InvalidArgument(m)) => assert_eq!(m, "range 不能为空"),
        other => panic!("unexpected {:?}", other),
    }
}

#[test]
fn cell_parse_errors_are_invalid_arguments() {
    assert!(matches!(parse_a1_cell("1A"), Err(DocsError::InvalidArgument(_))));
    assert!(matches!(parse_a1_cell("A"), Err(DocsError::InvalidArgument(_))));
    assert_eq!(parse_a1_cell("z26").unwrap(), (25, 25));
}

#[test]
fn column_letters_exact_values() {
    assert_eq!(col_to_letters(1), "A");
    assert_eq!(col_to_letters(26), "Z");
    assert_eq!(col_to_letters(27), "AA");
    assert_eq!(col_to_letters(52), "AZ");
    assert_eq!(col_to_letters(703), "AAA");
    assert_eq!(col_to_letters(0), "");
}

#[test]
fn address_roundtrip_on_values() {
    for (row, col) in [(1usize, 1usize), (10, 28), (1048576, 16384)] {
        let a = cell_address(row, col);
        let (r, c) = parse_a1_cell(&a).unwrap();
        assert_eq!((r as usize, c as usize), (row - 1, col - 1));
    }
    assert_eq!(cell_address(3, 2), "B3");
}

fn letters(s: &str) -> Vec<char> {
    s.chars().collect()
}

#[test]
fn column_letters_read_back() {
    for c in [1usize, 26, 27, 52, 702, 703, 16384, u32::MAX as usize] {
        let l = col_to_letters(c);
        assert_eq!(letters_to_col(&letters(&l)).unwrap(), c as u32);
    }
    assert_eq!(col_to_letters(702), "ZZ");
    assert_eq!(col_to_letters(703), "AAA");
}

#[test]
fn column_letters_either_case_and_refusals() {
    assert_eq!(letters_to_col(&letters("az")).unwrap(), 52);
    match letters_to_col(&letters("")) {
        Err(DocsError::InvalidArgument(m)) => assert_eq!(m, "非法列标: "),
        other => panic!("unexpected {:?}", other),
    }
    match letters_to_col(&letters("A1")) {
        Err(DocsError::InvalidArgument(m)) => assert_eq!(m, "非法列标: A1"),
        other => panic!("unexpected {:?}", other),
    }
    match letters_to_col(&letters("ZZZZZZZZ")) {
        Err(DocsError::InvalidArgument(m)) => assert_eq!(m, "列标过大: ZZZZZZZZ"),
        other => panic!("unexpected {:?}", other),
    }
}
