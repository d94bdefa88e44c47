//! What holds of every state and every command.

use vstd::prelude::*;
use crate::editor::{line_cached, Editor};
use crate::model::{
    cursor_column, in_view, join_with_next, lemma_first_past_bound, lemma_insert_keeps_no_line_feed,
    lemma_join_keeps_no_line_feed, lemma_remove_keeps_no_line_feed, lemma_split_keeps_no_line_feed,
    insert_char, remove_char, scroll_offset, split_line, state_ok, step, step_backspace, step_down,
    step_insert, step_left, step_right, step_up, with_lines, Command, EditorState,
};
use crate::width::{is_control, width_of};

verus! {

/// Each width table starts at column 0 and advances by the width of each
/// character, in every well-formed editor, so after every edit.
pub proof fn law_width_cache(e: &Editor, r: int, i: int)
    requires
        e.wf(),
        0 <= r < e@.lines.len(),
        0 <= i < e@.lines[r].len(),
    ensures
        e.start_table()[r][0] == 0,
        e.start_table()[r][i + 1] - e.start_table()[r][i] == width_of(e@.lines[r][i]),
{
    assert(line_cached(e@.lines[r], e.start_table()[r], e.width_table()[r]));
}

proof fn lemma_scrolled_keeps_row(offset: nat, row: nat, rows: nat)
    requires
        rows >= 1,
    ensures
        scroll_offset(offset, row, rows) <= row,
        row + 1 <= scroll_offset(offset, row, rows) + rows,
        offset <= row && row + 1 <= offset + rows ==> scroll_offset(offset, row, rows) == offset,
        offset == 0 && row + 1 <= rows ==> scroll_offset(offset, row, rows) == 0,
{
}

/// Every command keeps the cursor on a line of the buffer and within it, and
/// the buffer non-empty and free of line feeds.
pub proof fn law_cursor_in_bounds(s: EditorState, cmd: Command, rows: nat)
    requires
        state_ok(s),
    ensures
        state_ok(step(s, cmd, rows)),
{
    let r = s.row as int;
    let c = s.col as int;
    match cmd {
        Command::Up => {
            if s.row > 0 {
                lemma_first_past_bound(s.lines[r - 1], cursor_column(s), 0);
            }
        },
        Command::Down => {
            if s.row + 1 < s.lines.len() {
                lemma_first_past_bound(s.lines[r + 1], cursor_column(s), 0);
            }
        },
        Command::Insert(ch) => {
            if ch == '\n' {
                lemma_split_keeps_no_line_feed(s.lines, r, c);
            } else if !is_control(ch) {
                lemma_insert_keeps_no_line_feed(s.lines, r, c, ch);
            }
        },
        Command::Backspace => {
            if s.col == 0 && s.row > 0 {
                lemma_join_keeps_no_line_feed(s.lines, r - 1);
            } else if s.col > 0 {
                lemma_remove_keeps_no_line_feed(s.lines, r, c - 1);
            }
        },
        Command::Delete => {
            if s.col == s.lines[r].len() && s.row + 1 < s.lines.len() {
                lemma_join_keeps_no_line_feed(s.lines, r);
            } else if s.col < s.lines[r].len() {
                lemma_remove_keeps_no_line_feed(s.lines, r, c);
            }
        },
        _ => {},
    }
}

/// A screen of at least one row keeps showing the cursor row: every movement
/// brings it into view, and no command takes it out of view. A screen that
/// starts unscrolled stays so while the document fits on it.
pub proof fn law_scroll(s: EditorState, cmd: Command, rows: nat)
    requires
        state_ok(s),
        rows >= 1,
    ensures
        in_view(s, rows) ==> in_view(step(s, cmd, rows), rows),
        cmd is Up || cmd is Down || cmd is Left || cmd is Right ==> in_view(step(s, cmd, rows), rows),
        s.offset == 0 && step(s, cmd, rows).lines.len() <= rows ==> step(s, cmd, rows).offset == 0,
{
    law_cursor_in_bounds(s, cmd, rows);
    let t = step(s, cmd, rows);
    lemma_scrolled_keeps_row(s.offset, t.row, rows);
    let r = s.row as int;
    match cmd {
        Command::Insert(ch) => {
            if !(ch == '\n') && !is_control(ch) {
                let mid = with_lines(s, insert_char(s.lines, r, s.col as int, ch));
                assert(t == step_right(mid, rows));
            }
        },
        Command::Backspace => {
            if !(s.row == 0 && s.col == 0) && s.col > 0 {
                let left = step_left(s, rows);
                assert(t.row == left.row && t.offset == left.offset);
            }
        },
        _ => {},
    }
}

/// Moves at the edges of the document: Left at its start and Right at its end
/// leave the cursor where it is (and the whole state, when the cursor row is
/// on screen); Up on the first line and Down on the last go to column 0.
pub proof fn law_boundary_moves(s: EditorState, rows: nat)
    requires
        state_ok(s),
    ensures
        s.row == 0 && s.col == 0 ==> step_left(s, rows).row == s.row && step_left(s, rows).col == s.col
            && step_left(s, rows).lines == s.lines,
        s.row == 0 && s.col == 0 && rows >= 1 && in_view(s, rows) ==> step_left(s, rows) == s,
        s.row + 1 == s.lines.len() && s.col == s.lines[s.row as int].len() ==> step_right(s, rows).row
            == s.row && step_right(s, rows).col == s.col && step_right(s, rows).lines == s.lines,
        s.row + 1 == s.lines.len() && s.col == s.lines[s.row as int].len() && rows >= 1 && in_view(s, rows)
            ==> step_right(s, rows) == s,
        s.row == 0 ==> step_up(s, rows).row == 0 && step_up(s, rows).col == 0,
        s.row + 1 == s.lines.len() ==> step_down(s, rows).row == s.row && step_down(s, rows).col == 0,
{
    if rows >= 1 {
        lemma_scrolled_keeps_row(s.offset, s.row, rows);
    }
}

/// Inserting a printable character and then deleting backwards restores the
/// lines and the cursor.
pub proof fn law_insert_backspace(s: EditorState, ch: char, rows: nat)
    requires
        state_ok(s),
        !is_control(ch),
    ensures
        step_backspace(step_insert(s, ch, rows), rows).lines == s.lines,
        step_backspace(step_insert(s, ch, rows), rows).row == s.row,
        step_backspace(step_insert(s, ch, rows), rows).col == s.col,
{
    let r = s.row as int;
    let c = s.col as int;
    let ins = insert_char(s.lines, r, c, ch);
    assert(ch != '\n');
    assert(remove_char(ins, r, c) =~= s.lines) by {
        assert(ins[r].remove(c) =~= s.lines[r]);
    }
}

/// Inserting a line feed and then deleting backwards restores the lines and
/// the cursor.
pub proof fn law_newline_backspace(s: EditorState, rows: nat)
    requires
        state_ok(s),
    ensures
        step_backspace(step_insert(s, '\n', rows), rows).lines == s.lines,
        step_backspace(step_insert(s, '\n', rows), rows).row == s.row,
        step_backspace(step_insert(s, '\n', rows), rows).col == s.col,
{
    let r = s.row as int;
    let c = s.col as int;
    let sp = split_line(s.lines, r, c);
    assert(join_with_next(sp, r) =~= s.lines) by {
        assert(sp[r] + sp[r + 1] =~= s.lines[r]);
    }
}

} // verus!
