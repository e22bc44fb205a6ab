use plastic_cm::changesets::{parse_changeset_line, parse_changesets};
use plastic_cm::text::{parse_i32, split_str, splitn_str, trim_str};

#[test]
fn valid_line_parses_positionally() {
    let c = parse_changeset_line("123|alice|2024-01-02|first commit|main", "repo1").unwrap();
    assert_eq!(c.id, 123);
    assert_eq!(c.author, "alice");
    assert_eq!(c.date, "2024-01-02");
    assert_eq!(c.comment, "first commit");
    assert_eq!(c.branch, "main");
    assert_eq!(c.repository, "repo1");
}

#[test]
fn extra_separators_stay_in_the_tail_field() {
    let c = parse_changeset_line("1|a|2024-05-06|note|br|extra|more", "r").unwrap();
    assert_eq!(c.comment, "note");
    assert_eq!(c.branch, "br|extra|more");
}

#[test]
fn line_is_trimmed_before_splitting() {
    let c = parse_changeset_line("  7|bob|2023-12-31|c|b  \r", "r").unwrap();
    assert_eq!(c.id, 7);
    assert_eq!(c.author, "bob");
    assert_eq!(c.branch, "b");
}

#[test]
fn non_integer_id_yields_no_record() {
    assert!(parse_changeset_line("x|a|d|c|b", "r").is_none());
    assert!(parse_changeset_line("1.5|a|d|c|b", "r").is_none());
    assert!(parse_changeset_line("12 |a|d|c|b", "r").is_none());
}

#[test]
fn too_few_fields_yield_no_record() {
    assert!(parse_changeset_line("1|a|d|c", "r").is_none());
    assert!(parse_changeset_line("1", "r").is_none());
    assert!(parse_changeset_line("", "r").is_none());
}

#[test]
fn id_parses_at_the_i32_boundaries() {
    assert_eq!(parse_changeset_line("2147483647|a|d|c|b", "r").unwrap().id, 2147483647);
    assert_eq!(parse_changeset_line("-2147483648|a|d|c|b", "r").unwrap().id, -2147483648);
    assert_eq!(parse_changeset_line("+12|a|d|c|b", "r").unwrap().id, 12);
    assert!(parse_changeset_line("2147483648|a|d|c|b", "r").is_none());
    assert!(parse_changeset_line("-2147483649|a|d|c|b", "r").is_none());
}

#[test]
fn output_parsing_skips_malformed_lines_in_order() {
    let out = "5|a|2024-01-01|one|main\nbad line\n\n6|b|2024-01-02|two|dev\n";
    let records = parse_changesets(out, "repo");
    assert_eq!(records.len(), 2);
    assert_eq!(records[0].id, 5);
    assert_eq!(records[1].id, 6);
    assert_eq!(records[0].repository, "repo");
    assert_eq!(records[1].repository, "repo");
}

#[test]
fn parse_i32_accepts_signed_decimal_only() {
    assert_eq!(parse_i32("0"), Some(0));
    assert_eq!(parse_i32("-7"), Some(-7));
    assert_eq!(parse_i32("+7"), Some(7));
    assert_eq!(parse_i32(""), None);
    assert_eq!(parse_i32("+"), None);
    assert_eq!(parse_i32("-"), None);
    assert_eq!(parse_i32(" 1"), None);
    assert_eq!(parse_i32("1 "), None);
    assert_eq!(parse_i32("99999999999999999999"), None);
}

#[test]
fn trim_removes_surrounding_whitespace_only() {
    assert_eq!(trim_str("  a b \t\r\n"), "a b");
    assert_eq!(trim_str(""), "");
    assert_eq!(trim_str(" \t "), "");
    assert_eq!(trim_str("x"), "x");
}

#[test]
fn split_keeps_empty_segments() {
    assert_eq!(split_str("a|b||c", '|'), vec!["a", "b", "", "c"]);
    assert_eq!(split_str("", '|'), vec![""]);
    assert_eq!(split_str("|", '|'), vec!["", ""]);
}

#[test]
fn splitn_caps_the_field_count() {
    assert_eq!(splitn_str("a|b|c|d|e|f", '|', 5), vec!["a", "b", "c", "d", "e|f"]);
    assert_eq!(splitn_str("a|b", '|', 5), vec!["a", "b"]);
    assert_eq!(splitn_str("a|b", '|', 1), vec!["a|b"]);
}
