use line_editor::text::{join, load_lines};
use line_editor::Editor;

fn round_trip(content: &str) -> String {
    let mut e = Editor::default();
    e.open(content);
    e.serialize()
}

fn split(content: &str) -> Vec<String> {
    load_lines(content).into_iter().map(|l| l.into_iter().collect()).collect()
}

#[test]
fn round_trip_with_final_newline() {
    assert_eq!(round_trip("ab\ncd\n"), "ab\ncd\n");
    assert_eq!(round_trip("\n\n"), "\n\n");
}

#[test]
fn round_trip_adds_final_newline() {
    assert_eq!(round_trip("ab\ncd"), "ab\ncd\n");
    assert_eq!(round_trip(""), "\n");
}

#[test]
fn round_trip_keeps_trailing_whitespace() {
    assert_eq!(round_trip("a  \n\t\n  b \n"), "a  \n\t\n  b \n");
}

#[test]
fn crlf_line_endings_become_line_feeds() {
    assert_eq!(split("a\r\nb\r\n"), vec!["a", "b"]);
    assert_eq!(round_trip("a\r\nb"), "a\nb\n");
}

#[test]
fn carriage_returns_end_of_line_are_removed() {
    assert_eq!(split("a\rb\r"), vec!["a\rb"]);
    assert_eq!(split("a\r"), vec!["a"]);
    assert_eq!(split("a\r\r\nb"), vec!["a", "b"]);
    assert_eq!(split("a\n\r"), vec!["a", ""]);
    assert_eq!(round_trip("a\r"), "a\n");
}

#[test]
fn carriage_return_inside_line_is_kept() {
    assert_eq!(split("a\rb\nc"), vec!["a\rb", "c"]);
    assert_eq!(round_trip("a\rb\n"), "a\rb\n");
}

#[test]
fn load_splits_on_line_feeds() {
    assert_eq!(split(""), vec![""]);
    assert_eq!(split("\n"), vec![""]);
    assert_eq!(split("a\n\nb"), vec!["a", "", "b"]);
    assert_eq!(split("a\nb\n"), vec!["a", "b"]);
    assert_eq!(split("héllo😀"), vec!["héllo😀"]);
}

#[test]
fn join_puts_line_feed_after_each_line() {
    let lines: Vec<Vec<char>> = vec!["ab".chars().collect(), vec![], "c".chars().collect()];
    assert_eq!(join(&lines), "ab\n\nc\n");
    assert_eq!(join(&Vec::new()), "");
}

#[test]
fn serialize_after_edits() {
    let mut e = Editor::default();
    e.open("ab");
    e.insert('x', 10);
    e.insert('\n', 10);
    assert_eq!(e.serialize(), "x\nab\n");
}
