use daily_activity::listing::{
    add_to_list, bar_line, calculate_name_width, fmt_to_print, header_line, row_line, sort_by_last_modified,
    sort_by_name, sort_by_size, table_header_lines, table_lines, FileKind, Row, SortOrder, Timestamp,
};

fn row(a: &str, b: &str, c: &str, d: &str) -> Row {
    (a.to_string(), b.to_string(), c.to_string(), d.to_string())
}

fn names(list: &Vec<Row>) -> Vec<&str> {
    list.iter().map(|r| r.0.as_str()).collect()
}

#[test]
fn sort_by_name_orders_names() {
    let mut list = vec![row("b", "file", "1 B", "t2"), row("a", "dir", "2 B", "t1"), row("C", "file", "3 B", "t3")];
    sort_by_name(&mut list);
    assert_eq!(names(&list), vec!["C", "a", "b"]);
}

#[test]
fn sort_by_size_compares_the_size_texts_and_is_stable() {
    let mut list = vec![
        row("x", "file", "10 B", "t"),
        row("y", "file", "9 B", "t"),
        row("z", "file", "10 B", "t"),
        row("w", "file", "1 KB", "t"),
    ];
    sort_by_size(&mut list);
    assert_eq!(names(&list), vec!["w", "x", "z", "y"]);
}

#[test]
fn sort_by_last_modified_in_both_orders_keeps_ties_in_place() {
    let base = vec![
        row("a", "file", "1 B", "2024-01-02 00:00:00"),
        row("b", "file", "1 B", "2023-05-01 10:00:00"),
        row("c", "file", "1 B", "2024-01-02 00:00:00"),
        row("d", "file", "1 B", "2025-03-04 05:06:07"),
    ];
    let mut up = base.clone();
    sort_by_last_modified(&mut up, SortOrder::Ascending);
    assert_eq!(names(&up), vec!["b", "a", "c", "d"]);
    let mut down = base.clone();
    sort_by_last_modified(&mut down, SortOrder::Descending);
    assert_eq!(names(&down), vec!["d", "a", "c", "b"]);
}

#[test]
fn sorting_twice_changes_nothing() {
    let mut list = vec![row("q", "", "", ""), row("a", "", "", ""), row("m", "", "", ""), row("a", "x", "", "")];
    sort_by_name(&mut list);
    let once = list.clone();
    sort_by_name(&mut list);
    assert_eq!(list, once);
    assert_eq!(list[0].1, "");
    assert_eq!(list[1].1, "x");
}

#[test]
fn sorting_an_empty_listing() {
    let mut list: Vec<Row> = Vec::new();
    sort_by_name(&mut list);
    assert!(list.is_empty());
}

#[test]
fn name_width_is_widest_name_in_bytes_or_twenty() {
    assert_eq!(calculate_name_width(&Vec::new()), 20);
    let list = vec![row("abc", "", "", ""), row("héllo", "", "", ""), row("xy", "", "", "")];
    assert_eq!(calculate_name_width(&list), 6);
}

#[test]
fn file_kinds_are_classified_in_order() {
    assert_eq!(FileKind::classify(true, true, false), Some(FileKind::Dir));
    assert_eq!(FileKind::classify(false, true, true), Some(FileKind::File));
    assert_eq!(FileKind::classify(false, false, true), Some(FileKind::Symlink));
    assert_eq!(FileKind::classify(false, false, false), None);
    assert_eq!(fmt_to_print(FileKind::Dir), "dir");
    assert_eq!(fmt_to_print(FileKind::File), "file");
    assert_eq!(fmt_to_print(FileKind::Symlink), "symlink");
}

#[test]
fn timestamps_are_shown_in_utc() {
    let t = Timestamp::new(0, 0).unwrap();
    assert_eq!(fmt_to_print(t), "1970-01-01 00:00:00");
    let t = Timestamp::new(1_700_000_000, 999_999_999).unwrap();
    assert_eq!(fmt_to_print(t), "2023-11-14 22:13:20");
    let t = Timestamp::new(-1, 0).unwrap();
    assert_eq!(fmt_to_print(t), "1969-12-31 23:59:59");
    assert!(Timestamp::new(i64::MAX, 0).is_none());
}

#[test]
fn add_to_list_appends_the_shown_texts() {
    let mut list = vec![row("first", "dir", "0 B", "x")];
    add_to_list(
        &mut list,
        ("notes.txt".to_string(), FileKind::File, "12 B".to_string(), Timestamp::new(86_400, 0).unwrap()),
    );
    assert_eq!(list.len(), 2);
    assert_eq!(list[0], row("first", "dir", "0 B", "x"));
    assert_eq!(list[1], row("notes.txt", "file", "12 B", "1970-01-02 00:00:00"));
}

#[test]
fn table_lines_follow_the_layout() {
    assert_eq!(bar_line(4), "-".repeat(46));
    assert_eq!(bar_line(6), "-".repeat(48));
    assert_eq!(header_line(6), "Name   Type       Size       Last modified");
    let r = row("ab", "file", "12 B", "2024-01-01 00:00:00");
    assert_eq!(row_line(&r, 6), "ab     file       12 B       2024-01-01 00:00:00");
    let long = row("a-very-long-name", "directory!", "123456789 KB", "t");
    assert_eq!(row_line(&long, 4), "a-very-long-name directory! 123456789 KB t");
    let head = table_header_lines(6);
    assert_eq!(head, vec!["-".repeat(48), "Name   Type       Size       Last modified".to_string(), "-".repeat(48)]);
    let lines = table_lines(&vec![r.clone()], 6);
    assert_eq!(lines.len(), 5);
    assert_eq!(lines[3], "ab     file       12 B       2024-01-01 00:00:00");
    assert_eq!(lines[4], "-".repeat(48));
}

#[test]
fn padding_counts_characters() {
    let r = row("é", "d", "s", "t");
    assert_eq!(row_line(&r, 4), "é    d          s          t");
}
