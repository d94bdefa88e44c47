use line_editor::{Command, Cursor, Editor, Outcome};

const ROWS: usize = 10;

fn editor(content: &str) -> Editor {
    let mut e = Editor::default();
    e.open(content);
    e
}

fn lines(e: &Editor) -> Vec<String> {
    (0..e.line_count()).map(|r| e.line(r).into_iter().collect()).collect()
}

fn at(e: &Editor) -> (usize, usize) {
    let c = e.cursor();
    (c.y, c.x)
}

#[test]
fn default_is_one_empty_line() {
    let e = Editor::default();
    assert_eq!(lines(&e), vec![""]);
    assert_eq!(e.cursor(), Cursor { x: 0, y: 0 });
    assert_eq!(e.row_offset(), 0);
}

#[test]
fn open_resets_cursor_and_offset() {
    let mut e = editor("a\nb\nc");
    e.cursor_down(1);
    e.cursor_down(1);
    assert_eq!(e.row_offset(), 2);
    e.open("xy");
    assert_eq!(lines(&e), vec!["xy"]);
    assert_eq!(at(&e), (0, 0));
    assert_eq!(e.row_offset(), 0);
}

#[test]
fn newline_split_then_backspace_merge() {
    let mut e = editor("ab\ncd");
    e.cursor_right(ROWS);
    e.cursor_right(ROWS);
    assert_eq!(at(&e), (0, 2));
    e.insert('\n', ROWS);
    assert_eq!(lines(&e), vec!["ab", "", "cd"]);
    assert_eq!(at(&e), (1, 0));
    e.back_space(ROWS);
    assert_eq!(lines(&e), vec!["ab", "cd"]);
    assert_eq!(at(&e), (0, 2));
}

#[test]
fn newline_in_middle_then_backspace_restores() {
    let mut e = editor("hello");
    e.cursor_right(ROWS);
    e.cursor_right(ROWS);
    e.insert('\n', ROWS);
    assert_eq!(lines(&e), vec!["he", "llo"]);
    assert_eq!(at(&e), (1, 0));
    e.back_space(ROWS);
    assert_eq!(lines(&e), vec!["hello"]);
    assert_eq!(at(&e), (0, 2));
}

#[test]
fn insert_then_backspace_restores() {
    for c in ['x', '😀', '\u{301}'] {
        let mut e = editor("abc\ndef");
        e.cursor_down(ROWS);
        e.cursor_right(ROWS);
        assert_eq!(at(&e), (1, 1));
        e.insert(c, ROWS);
        assert_eq!(e.char_at(1, 1), c);
        assert_eq!(at(&e), (1, 2));
        e.back_space(ROWS);
        assert_eq!(lines(&e), vec!["abc", "def"]);
        assert_eq!(at(&e), (1, 1));
    }
}

#[test]
fn insert_at_line_end_moves_past_it() {
    let mut e = editor("ab");
    e.cursor_right(ROWS);
    e.cursor_right(ROWS);
    e.insert('c', ROWS);
    assert_eq!(lines(&e), vec!["abc"]);
    assert_eq!(at(&e), (0, 3));
}

#[test]
fn control_characters_are_not_inserted() {
    let mut e = editor("ab");
    e.cursor_right(ROWS);
    e.insert('\t', ROWS);
    e.insert('\u{7f}', ROWS);
    e.insert('\r', ROWS);
    assert_eq!(lines(&e), vec!["ab"]);
    assert_eq!(at(&e), (0, 1));
}

#[test]
fn backspace_at_document_start_is_noop() {
    let mut e = editor("ab\ncd");
    e.back_space(ROWS);
    assert_eq!(lines(&e), vec!["ab", "cd"]);
    assert_eq!(at(&e), (0, 0));
}

#[test]
fn backspace_removes_previous_character() {
    let mut e = editor("abc");
    e.cursor_right(ROWS);
    e.cursor_right(ROWS);
    e.back_space(ROWS);
    assert_eq!(lines(&e), vec!["ac"]);
    assert_eq!(at(&e), (0, 1));
}

#[test]
fn backspace_on_empty_line_removes_it() {
    let mut e = editor("ab\n\ncd");
    e.cursor_down(ROWS);
    assert_eq!(at(&e), (1, 0));
    e.back_space(ROWS);
    assert_eq!(lines(&e), vec!["ab", "cd"]);
    assert_eq!(at(&e), (0, 2));
}

#[test]
fn delete_removes_character_under_cursor() {
    let mut e = editor("abc");
    e.cursor_right(ROWS);
    e.delete();
    assert_eq!(lines(&e), vec!["ac"]);
    assert_eq!(at(&e), (0, 1));
}

#[test]
fn delete_at_line_end_joins_next_line() {
    let mut e = editor("ab\ncd\nef");
    e.cursor_right(ROWS);
    e.cursor_right(ROWS);
    e.delete();
    assert_eq!(lines(&e), vec!["abcd", "ef"]);
    assert_eq!(at(&e), (0, 2));
}

#[test]
fn delete_at_document_end_is_noop() {
    let mut e = editor("ab\ncd");
    e.cursor_down(ROWS);
    e.cursor_right(ROWS);
    e.cursor_right(ROWS);
    assert_eq!(at(&e), (1, 2));
    e.delete();
    assert_eq!(lines(&e), vec!["ab", "cd"]);
    assert_eq!(at(&e), (1, 2));
}

#[test]
fn left_at_document_start_is_noop() {
    let mut e = editor("ab\ncd");
    e.cursor_left(ROWS);
    assert_eq!(at(&e), (0, 0));
    assert_eq!(e.row_offset(), 0);
}

#[test]
fn left_from_line_start_goes_to_previous_line_end() {
    let mut e = editor("abc\nd");
    e.cursor_down(ROWS);
    e.cursor_left(ROWS);
    assert_eq!(at(&e), (0, 3));
}

#[test]
fn right_at_document_end_is_noop() {
    let mut e = editor("ab");
    e.cursor_right(ROWS);
    e.cursor_right(ROWS);
    e.cursor_right(ROWS);
    assert_eq!(at(&e), (0, 2));
    assert_eq!(e.row_offset(), 0);
}

#[test]
fn right_from_line_end_goes_to_next_line_start() {
    let mut e = editor("a\nbc");
    e.cursor_right(ROWS);
    e.cursor_right(ROWS);
    assert_eq!(at(&e), (1, 0));
}

#[test]
fn up_on_first_row_goes_to_column_zero() {
    let mut e = editor("abc\ndef");
    e.cursor_right(ROWS);
    e.cursor_right(ROWS);
    e.cursor_up(ROWS);
    assert_eq!(at(&e), (0, 0));
}

#[test]
fn down_on_last_row_goes_to_column_zero() {
    let mut e = editor("abc\ndef");
    e.cursor_down(ROWS);
    e.cursor_right(ROWS);
    e.cursor_right(ROWS);
    e.cursor_down(ROWS);
    assert_eq!(at(&e), (1, 0));
}

#[test]
fn vertical_moves_keep_display_column() {
    // Row 0: "a😀b" has starts 0, 1, 3, 4; row 1: "abcd".
    let mut e = editor("a😀b\nabcd");
    e.cursor_right(ROWS);
    e.cursor_right(ROWS);
    assert_eq!(e.char_index_to_display_column(0, 2), 3);
    e.cursor_down(ROWS);
    assert_eq!(at(&e), (1, 3));
    e.cursor_left(ROWS);
    assert_eq!(at(&e), (1, 2));
    // Column 2 lies inside the wide glyph, which starts at column 1.
    e.cursor_up(ROWS);
    assert_eq!(at(&e), (0, 1));
}

#[test]
fn vertical_move_past_shorter_line_goes_to_its_end() {
    let mut e = editor("abcdef\nab");
    for _ in 0..5 {
        e.cursor_right(ROWS);
    }
    e.cursor_down(ROWS);
    assert_eq!(at(&e), (1, 2));
}

#[test]
fn vertical_move_to_empty_line() {
    let mut e = editor("abc\n\nxyz");
    e.cursor_right(ROWS);
    e.cursor_down(ROWS);
    assert_eq!(at(&e), (1, 0));
    e.cursor_down(ROWS);
    assert_eq!(at(&e), (2, 0));
}

#[test]
fn vertical_move_skips_leading_zero_width_characters() {
    // "\u{301}x": the combining accent takes no column, so column 0 is x's.
    let mut e = editor("abc\n\u{301}x");
    e.cursor_down(ROWS);
    assert_eq!(at(&e), (1, 1));
}

#[test]
fn display_column_to_char_index_finds_covering_character() {
    let e = editor("a😀b");
    assert_eq!(e.display_column_to_char_index(0, 0), 0);
    assert_eq!(e.display_column_to_char_index(0, 1), 1);
    assert_eq!(e.display_column_to_char_index(0, 2), 1);
    assert_eq!(e.display_column_to_char_index(0, 3), 2);
    assert_eq!(e.display_column_to_char_index(0, 4), 3);
    assert_eq!(e.display_column_to_char_index(0, 100), 3);
}

#[test]
fn scroll_follows_cursor_down_and_up() {
    let mut e = editor("0\n1\n2\n3\n4\n5");
    for _ in 0..4 {
        e.cursor_down(3);
    }
    assert_eq!(at(&e), (4, 0));
    assert_eq!(e.row_offset(), 2);
    e.cursor_down(3);
    assert_eq!(e.row_offset(), 3);
    for _ in 0..4 {
        e.cursor_up(3);
    }
    assert_eq!(at(&e), (1, 0));
    assert_eq!(e.row_offset(), 1);
    e.cursor_up(3);
    assert_eq!(e.row_offset(), 0);
}

#[test]
fn scroll_keeps_cursor_on_screen_for_every_command() {
    let rows = 3;
    let mut e = editor("one\ntwo\nthree\nfour\nfive");
    let cmds = [
        Command::Down,
        Command::Down,
        Command::Down,
        Command::Insert('\n'),
        Command::Insert('z'),
        Command::Down,
        Command::Backspace,
        Command::Backspace,
        Command::Up,
        Command::Up,
        Command::Up,
        Command::Up,
        Command::Delete,
        Command::Right,
        Command::Left,
        Command::Left,
    ];
    for cmd in cmds {
        assert_eq!(e.apply(cmd, rows), Outcome::Continue);
        let (row, col) = at(&e);
        let off = e.row_offset();
        assert!(off <= row && row < off + rows);
        assert!(row < e.line_count());
        assert!(col <= e.line_length(row));
    }
}

#[test]
fn scroll_with_short_document_keeps_offset_zero() {
    let mut e = editor("a\nb");
    e.cursor_down(5);
    e.cursor_up(5);
    e.cursor_down(5);
    assert_eq!(e.row_offset(), 0);
}

#[test]
fn scroll_method_applies_two_sided_clamp() {
    let mut e = editor("0\n1\n2\n3\n4\n5\n6\n7");
    for _ in 0..7 {
        e.cursor_down(8);
    }
    assert_eq!(e.row_offset(), 0);
    e.scroll(2);
    assert_eq!(e.row_offset(), 6);
    e.scroll(8);
    assert_eq!(e.row_offset(), 6);
}

#[test]
fn apply_reports_save_and_quit() {
    let mut e = editor("ab");
    assert_eq!(e.apply(Command::Save, ROWS), Outcome::Save);
    assert_eq!(e.apply(Command::Quit, ROWS), Outcome::Quit);
    assert_eq!(lines(&e), vec!["ab"]);
    assert_eq!(e.apply(Command::Insert('x'), ROWS), Outcome::Continue);
    assert_eq!(lines(&e), vec!["xab"]);
}

#[test]
fn draw_status_bar_changes_nothing() {
    let mut e = editor("ab\ncd");
    e.cursor_down(ROWS);
    e._draw_status_bar(true);
    assert_eq!(at(&e), (1, 0));
    assert_eq!(lines(&e), vec!["ab", "cd"]);
}

#[test]
fn fits_accepts_ordinary_edits() {
    let mut e = editor("ab\ncd");
    assert!(e.fits(Command::Insert('x')));
    assert!(e.fits(Command::Insert('\n')));
    assert!(e.fits(Command::Delete));
    e.cursor_down(ROWS);
    assert!(e.fits(Command::Backspace));
    assert!(e.fits(Command::Up));
}
