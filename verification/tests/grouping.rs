use global_digital_address::{group_code, strip_separators, SEPARATOR};

#[test]
fn grouping_rules() {
    assert_eq!(group_code("ABCDEFGHIJ"), "ABCD-EFGH-IJ");
    assert_eq!(group_code("ABCDEFGH"), "ABCD-EFGH");
    assert_eq!(group_code("ABCDEF"), "ABCD-EF");
    assert_eq!(group_code("ABCD"), "ABCD");
    assert_eq!(group_code("ABC"), "ABC");
}

#[test]
fn grouping_of_nothing_is_nothing() {
    assert_eq!(group_code(""), "");
}

#[test]
fn grouping_of_one_symbol() {
    assert_eq!(group_code("A"), "A");
}

#[test]
fn grouping_opens_a_run_at_every_fourth_symbol() {
    assert_eq!(group_code("ABCDE"), "ABCD-E");
    assert_eq!(group_code("ABCDEFG"), "ABCD-EFG");
    assert_eq!(group_code("ABCDEFGHI"), "ABCD-EFGH-I");
    assert_eq!(group_code("ABCDEFGHIJK"), "ABCD-EFGH-IJK");
    assert_eq!(group_code("ABCDEFGHIJKL"), "ABCD-EFGH-IJKL");
    assert_eq!(group_code("ABCDEFGHIJKLM"), "ABCD-EFGH-IJKL-M");
}

#[test]
fn grouping_never_ends_in_a_separator() {
    let mut raw = String::new();
    for n in 1..=40usize {
        raw.push('7');
        let grouped = group_code(&raw);
        assert!(!grouped.ends_with(SEPARATOR));
        assert!(!grouped.starts_with(SEPARATOR));
        assert_eq!(grouped.chars().count(), n + (n - 1) / 4);
    }
}

#[test]
fn grouping_puts_separators_on_every_fifth_place() {
    let grouped = group_code("23456723456723456");
    for (j, ch) in grouped.chars().enumerate() {
        assert_eq!(ch == SEPARATOR, j % 5 == 4);
    }
}

#[test]
fn grouping_counts_symbols_not_bytes() {
    assert_eq!(group_code("\u{e9}\u{e9}\u{e9}\u{e9}\u{e9}"), "\u{e9}\u{e9}\u{e9}\u{e9}-\u{e9}");
}

#[test]
fn separator_is_a_hyphen() {
    assert_eq!(SEPARATOR, '-');
}

#[test]
fn stripping_removes_every_separator() {
    assert_eq!(strip_separators("ABCD-EFGH-IJ"), "ABCDEFGHIJ");
    assert_eq!(strip_separators("AB-CD--E-"), "ABCDE");
    assert_eq!(strip_separators("-A"), "A");
    assert_eq!(strip_separators("---"), "");
    assert_eq!(strip_separators(""), "");
}

#[test]
fn stripping_keeps_a_code_without_separators() {
    assert_eq!(strip_separators("ABC"), "ABC");
    assert_eq!(strip_separators("SrDATYAVPT"), "SrDATYAVPT");
    assert_eq!(strip_separators("A$ b"), "A$ b");
}

#[test]
fn stripping_undoes_grouping() {
    let mut raw = String::new();
    for n in 0..30usize {
        assert_eq!(strip_separators(&group_code(&raw)), raw);
        raw.push(if n % 2 == 0 { 'r' } else { '9' });
    }
}
