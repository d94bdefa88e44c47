use line_editor::width::{char_width, is_control_char};
use line_editor::Editor;

fn editor(content: &str) -> Editor {
    let mut e = Editor::default();
    e.open(content);
    e
}

#[test]
fn char_widths() {
    assert_eq!(char_width('a'), 1);
    assert_eq!(char_width(' '), 1);
    assert_eq!(char_width('😀'), 2);
    assert_eq!(char_width('あ'), 2);
    assert_eq!(char_width('\u{301}'), 0);
    assert_eq!(char_width('\u{17D8}'), 3);
}

#[test]
fn control_characters_have_width_zero() {
    for c in ['\0', '\t', '\n', '\r', '\u{1b}', '\u{7f}', '\u{85}', '\u{9f}'] {
        assert!(is_control_char(c));
        assert_eq!(char_width(c), 0);
    }
    for c in [' ', '~', '\u{a0}', 'é'] {
        assert!(!is_control_char(c));
    }
}

#[test]
fn wide_glyph_width_table() {
    let e = editor("a😀b");
    let starts = e.start_positions(0);
    assert_eq!(&starts[..3], &[0, 1, 3]);
    assert_eq!(starts[3], 4);
    assert_eq!(e.line_width(0), 4);
}

#[test]
fn wide_glyph_cursor_columns() {
    let mut e = editor("a😀b");
    e.cursor_right(10);
    assert_eq!(e.char_index_to_display_column(0, e.cursor().x), 1);
    let ops = e.render(10);
    assert_eq!(ops.last(), Some(&line_editor::DrawOp::MoveCursor { row: 0, col: 1 }));
    e.cursor_right(10);
    assert_eq!(e.char_index_to_display_column(0, e.cursor().x), 3);
    let ops = e.render(10);
    assert_eq!(ops.last(), Some(&line_editor::DrawOp::MoveCursor { row: 0, col: 3 }));
}

#[test]
fn width_table_follows_every_edit() {
    let mut e = editor("ab\ncd");
    e.cursor_right(10);
    e.insert('😀', 10);
    e.insert('\n', 10);
    e.insert('\u{301}', 10);
    e.back_space(10);
    e.cursor_down(10);
    e.delete();
    for r in 0..e.line_count() {
        let line = e.line(r);
        let starts = e.start_positions(r);
        assert_eq!(starts.len(), line.len() + 1);
        assert_eq!(starts[0], 0);
        for i in 0..line.len() {
            assert_eq!(starts[i + 1] - starts[i], char_width(line[i]));
        }
        assert_eq!(e.line_width(r), starts[line.len()]);
    }
}

#[test]
fn width_table_of_empty_line() {
    let e = editor("");
    assert_eq!(e.start_positions(0), vec![0]);
    assert_eq!(e.line_width(0), 0);
}
