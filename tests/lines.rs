use debugito::error::DebugError;
use debugito::lines::{join_path, line_at_address, parse_breakpoint, Breakpoint, BreakpointTable, LinePosition, LineRow};

fn row(address: u64, path: &str, line: u64) -> LineRow {
    LineRow { address, end_sequence: false, path: Some(path.to_string()), line: Some(line) }
}

fn bp(file: &str, line: u64) -> Breakpoint {
    Breakpoint::new(file.to_string(), line)
}

#[test]
fn table_keeps_first_address_of_each_line() {
    let rows = vec![
        row(0x1139, "/abs/path/main.c", 5),
        row(0x1141, "/abs/path/main.c", 7),
        row(0x1150, "/abs/path/main.c", 7),
        row(0x1155, "/abs/path/main.c", 9),
        row(0x1160, "/abs/path/main.c", 5),
    ];
    let t = BreakpointTable::from_rows(&rows);
    assert_eq!(t.len(), 3);
    assert_eq!(t.get(&bp("/abs/path/main.c", 5)), Some(0x1139));
    assert_eq!(t.get(&bp("/abs/path/main.c", 7)), Some(0x1141));
    assert_eq!(t.get(&bp("/abs/path/main.c", 9)), Some(0x1155));
    assert_eq!(t.get(&bp("/abs/path/main.c", 8)), None);
}

#[test]
fn table_first_wins_across_sequences() {
    // A later sequence with a lower address does not replace the first one.
    let rows = vec![
        row(0x2000, "/src/a.c", 3),
        LineRow { address: 0x2010, end_sequence: true, path: Some("/src/a.c".to_string()), line: Some(4) },
        row(0x1000, "/src/a.c", 3),
    ];
    let t = BreakpointTable::from_rows(&rows);
    assert_eq!(t.get(&bp("/src/a.c", 3)), Some(0x2000));
    // The end-of-sequence row names no position.
    assert!(!t.contains_key(&bp("/src/a.c", 4)));
}

#[test]
fn table_skips_rows_without_file_or_line() {
    let rows = vec![
        LineRow { address: 0x10, end_sequence: false, path: None, line: Some(1) },
        LineRow { address: 0x20, end_sequence: false, path: Some("/x.c".to_string()), line: None },
        row(0x30, "/x.c", 1),
    ];
    let t = BreakpointTable::from_rows(&rows);
    assert_eq!(t.len(), 1);
    assert_eq!(t.get(&bp("/x.c", 1)), Some(0x30));
}

#[test]
fn table_of_no_rows_is_empty() {
    let t = BreakpointTable::from_rows(&Vec::new());
    assert_eq!(t.len(), 0);
    assert!(!t.contains_key(&bp("/x.c", 1)));
}

#[test]
fn table_value_is_minimum_for_increasing_rows() {
    let rows = vec![row(0x100, "/m.c", 2), row(0x104, "/m.c", 3), row(0x108, "/m.c", 2), row(0x10c, "/m.c", 3)];
    let t = BreakpointTable::from_rows(&rows);
    assert_eq!(t.get(&bp("/m.c", 2)), Some(0x100));
    assert_eq!(t.get(&bp("/m.c", 3)), Some(0x104));
}

#[test]
fn reading_rows_twice_gives_same_table() {
    let rows = vec![row(0x100, "/m.c", 2), row(0x104, "/m.c", 3), row(0x108, "/n.c", 2)];
    let mut twice = rows.clone();
    twice.extend(rows.clone());
    let a = BreakpointTable::from_rows(&rows);
    let b = BreakpointTable::from_rows(&twice);
    assert_eq!(a.len(), b.len());
    for p in [bp("/m.c", 2), bp("/m.c", 3), bp("/n.c", 2)] {
        assert_eq!(a.get(&p), b.get(&p));
    }
}

#[test]
fn record_row_adds_only_new_positions() {
    let mut t = BreakpointTable::new();
    t.record_row(&row(0x40, "/a.c", 1));
    t.record_row(&row(0x50, "/a.c", 1));
    t.record_row(&LineRow { address: 0x60, end_sequence: true, path: Some("/a.c".to_string()), line: Some(2) });
    assert_eq!(t.len(), 1);
    assert_eq!(t.get(&bp("/a.c", 1)), Some(0x40));
}

#[test]
fn line_lookup_is_exact() {
    let rows = vec![
        LineRow { address: 0x1141, end_sequence: true, path: Some("/abs/path/main.c".to_string()), line: Some(6) },
        LineRow { address: 0x1141, end_sequence: false, path: None, line: Some(6) },
        row(0x1141, "/abs/path/main.c", 7),
        row(0x1141, "/abs/path/main.c", 8),
        row(0x1155, "/abs/path/main.c", 9),
    ];
    let p: LinePosition = line_at_address(&rows, 0x1141).unwrap();
    assert_eq!(p.path, "/abs/path/main.c");
    assert_eq!(p.line_number, 7);
    assert_eq!(p.to_text(), "/abs/path/main.c:7");
    assert_eq!(line_at_address(&rows, 0x1155).unwrap().line_number, 9);
    // No nearest-address guess.
    assert_eq!(line_at_address(&rows, 0x1142).unwrap_err(), DebugError::SourceNotFound);
}

#[test]
fn position_text_of_multi_digit_line() {
    let p = LinePosition { path: "/s/f.c".to_string(), line_number: 1203 };
    assert_eq!(p.to_text(), "/s/f.c:1203");
    let z = LinePosition { path: "f.c".to_string(), line_number: 0 };
    assert_eq!(z.to_text(), "f.c:0");
}

#[test]
fn join_path_rules() {
    assert_eq!(join_path("/abs/path", "main.c"), "/abs/path/main.c");
    assert_eq!(join_path("/abs/path/", "main.c"), "/abs/path/main.c");
    assert_eq!(join_path("/abs/path", "/usr/include/stdio.h"), "/usr/include/stdio.h");
    assert_eq!(join_path("", "main.c"), "main.c");
    assert_eq!(join_path("src", "../main.c"), "src/../main.c");
}

#[test]
fn parse_position() {
    let b = parse_breakpoint("main.c:7").unwrap();
    assert_eq!(b.file, "main.c");
    assert_eq!(b.line_number, 7);
    assert!(b == bp("main.c", 7));
    let c = parse_breakpoint("dir/x.c:+12").unwrap();
    assert_eq!(c.file, "dir/x.c");
    assert_eq!(c.line_number, 12);
    let d = parse_breakpoint(":0").unwrap();
    assert_eq!(d.file, "");
    assert_eq!(d.line_number, 0);
}

#[test]
fn parse_position_errors() {
    assert_eq!(parse_breakpoint("main.c").unwrap_err(), DebugError::MissingColon);
    assert_eq!(parse_breakpoint("").unwrap_err(), DebugError::MissingColon);
    assert_eq!(parse_breakpoint("main.c:").unwrap_err(), DebugError::InvalidLineNumber);
    assert_eq!(parse_breakpoint("main.c:+").unwrap_err(), DebugError::InvalidLineNumber);
    assert_eq!(parse_breakpoint("main.c:7a").unwrap_err(), DebugError::InvalidLineNumber);
    assert_eq!(parse_breakpoint("main.c:-7").unwrap_err(), DebugError::InvalidLineNumber);
    // Everything after the first colon is the line.
    assert_eq!(parse_breakpoint("a:1:2").unwrap_err(), DebugError::InvalidLineNumber);
}

#[test]
fn parse_position_limits() {
    assert_eq!(parse_breakpoint("f.c:18446744073709551615").unwrap().line_number, u64::MAX);
    assert_eq!(parse_breakpoint("f.c:18446744073709551616").unwrap_err(), DebugError::InvalidLineNumber);
    assert_eq!(parse_breakpoint("f.c:99999999999999999999").unwrap_err(), DebugError::InvalidLineNumber);
}

#[test]
fn breakpoint_identity_is_both_fields() {
    assert!(bp("/a.c", 1).same_position(&bp("/a.c", 1)));
    assert!(!bp("/a.c", 1).same_position(&bp("/a.c", 2)));
    assert!(!bp("/a.c", 1).same_position(&bp("/b.c", 1)));
    assert!(bp("/a.c", 1) != bp("/b.c", 1));
}

#[test]
fn position_from_str() {
    let b: Breakpoint = "src/main.c:42".parse().unwrap();
    assert_eq!(b.file, "src/main.c");
    assert_eq!(b.line_number, 42);
    assert_eq!("nocolon".parse::<Breakpoint>().unwrap_err(), DebugError::MissingColon);
}
