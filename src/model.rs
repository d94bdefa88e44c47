//! The editor as a mathematical state machine: a sequence of lines, a cursor
//! in character coordinates and the row shown at the top of the screen.

use vstd::prelude::*;
use crate::text::no_line_feed;
use crate::width::{is_control, prefix_width, MAX_LINE_LEN};

verus! {

/// What the editor holds, abstractly.
pub ghost struct EditorState {
    pub lines: Seq<Seq<char>>,
    /// Line index of the cursor.
    pub row: nat,
    /// Character index of the cursor within its line; the line's length
    /// means "after the last character".
    pub col: nat,
    /// Index of the line drawn at the top of the screen.
    pub offset: nat,
}

/// An editing command, as the input loop hands it over.
#[derive(Clone, Copy, Debug, PartialEq, Eq, Structural)]
pub enum Command {
    Up,
    Down,
    Left,
    Right,
    Insert(char),
    Backspace,
    Delete,
    Save,
    Quit,
}

/// What the input loop does after a command.
#[derive(Clone, Copy, Debug, PartialEq, Eq, Structural)]
pub enum Outcome {
    Continue,
    Save,
    Quit,
}

/// The buffer has a line, the cursor stands on one of them within it, and no
/// line holds a line feed.
pub open spec fn state_ok(s: EditorState) -> bool {
    &&& s.lines.len() >= 1
    &&& s.row < s.lines.len()
    &&& s.col <= s.lines[s.row as int].len()
    &&& no_line_feed(s.lines)
}

/// The cursor row lies within the `rows` lines shown from `offset` on.
pub open spec fn in_view(s: EditorState, rows: nat) -> bool {
    s.offset <= s.row && s.row + 1 <= s.offset + rows
}

/// Display column of the cursor within its line.
pub open spec fn cursor_column(s: EditorState) -> nat {
    prefix_width(s.lines[s.row as int], s.col as int)
}

/// The first character index `i >= from` whose columns extend past `x`, or
/// the line's length when there is none.
pub open spec fn first_past(line: Seq<char>, x: nat, from: int) -> nat
    decreases line.len() - from,
{
    if from >= line.len() {
        line.len()
    } else if x < prefix_width(line, from + 1) {
        from as nat
    } else {
        first_past(line, x, from + 1)
    }
}

/// A character index found by column is at most the line's length.
pub proof fn lemma_first_past_bound(line: Seq<char>, x: nat, from: int)
    requires
        0 <= from,
    ensures
        first_past(line, x, from) <= line.len(),
    decreases line.len() - from,
{
    if from < line.len() && !(x < prefix_width(line, from + 1)) {
        lemma_first_past_bound(line, x, from + 1);
    }
}

/// The character index that covers display column `x`: the smallest `i` with
/// `start[i] <= x < start[i + 1]`, or the line's length when no character
/// covers it.
pub open spec fn char_index_at(line: Seq<char>, x: nat) -> nat {
    first_past(line, x, 0)
}

/// The offset after scrolling so that `row` is on a screen of `rows` lines.
pub open spec fn scroll_offset(offset: nat, row: nat, rows: nat) -> nat {
    let o = if offset <= row { offset } else { row };
    if row + 1 >= rows + o {
        if o >= row + 1 - rows { o } else { (row + 1 - rows) as nat }
    } else {
        o
    }
}

/// The state with its offset scrolled to show the cursor row.
pub open spec fn scrolled(s: EditorState, rows: nat) -> EditorState {
    EditorState { offset: scroll_offset(s.offset, s.row, rows), ..s }
}

/// The state with the cursor moved to `row`, `col`.
pub open spec fn at_cursor(s: EditorState, row: nat, col: nat) -> EditorState {
    EditorState { row, col, ..s }
}

/// The state with other lines.
pub open spec fn with_lines(s: EditorState, lines: Seq<Seq<char>>) -> EditorState {
    EditorState { lines, ..s }
}

/// Line `r` cut in two at character `c`.
pub open spec fn split_line(lines: Seq<Seq<char>>, r: int, c: int) -> Seq<Seq<char>> {
    lines.update(r, lines[r].subrange(0, c)).insert(r + 1, lines[r].subrange(c, lines[r].len() as int))
}

/// Line `r + 1` appended to line `r`.
pub open spec fn join_with_next(lines: Seq<Seq<char>>, r: int) -> Seq<Seq<char>> {
    lines.update(r, lines[r] + lines[r + 1]).remove(r + 1)
}

/// `ch` inserted into line `r` before character `c`.
pub open spec fn insert_char(lines: Seq<Seq<char>>, r: int, c: int, ch: char) -> Seq<Seq<char>> {
    lines.update(r, lines[r].insert(c, ch))
}

/// Character `c` of line `r` removed.
pub open spec fn remove_char(lines: Seq<Seq<char>>, r: int, c: int) -> Seq<Seq<char>> {
    lines.update(r, lines[r].remove(c))
}

/// Index of the last line.
pub open spec fn last_row(s: EditorState) -> nat {
    (s.lines.len() - 1) as nat
}

/// Length of line `r`.
pub open spec fn row_len(s: EditorState, r: int) -> nat {
    s.lines[r].len()
}

/// Left: one character back, or from a line's start to the end of the
/// previous line; nothing at the start of the document.
pub open spec fn step_left(s: EditorState, rows: nat) -> EditorState {
    let moved = if s.col > 0 {
        at_cursor(s, s.row, (s.col - 1) as nat)
    } else if s.row > 0 {
        at_cursor(s, (s.row - 1) as nat, row_len(s, s.row - 1))
    } else {
        s
    };
    scrolled(moved, rows)
}

/// Right: one character on, or from a line's end to the start of the next
/// line; nothing at the end of the document.
pub open spec fn step_right(s: EditorState, rows: nat) -> EditorState {
    let moved = if s.col < row_len(s, s.row as int) {
        at_cursor(s, s.row, s.col + 1)
    } else if s.row < last_row(s) {
        at_cursor(s, s.row + 1, 0)
    } else {
        s
    };
    scrolled(moved, rows)
}

/// Up: to the previous line, at the character under the cursor's display
/// column; on the first line, to its start.
pub open spec fn step_up(s: EditorState, rows: nat) -> EditorState {
    let moved = if s.row > 0 {
        at_cursor(s, (s.row - 1) as nat, char_index_at(s.lines[s.row - 1], cursor_column(s)))
    } else {
        at_cursor(s, s.row, 0)
    };
    scrolled(moved, rows)
}

/// Down: to the next line, at the character under the cursor's display
/// column; on the last line, to its start.
pub open spec fn step_down(s: EditorState, rows: nat) -> EditorState {
    let moved = if s.row < last_row(s) {
        at_cursor(s, s.row + 1, char_index_at(s.lines[s.row + 1 as int], cursor_column(s)))
    } else {
        at_cursor(s, s.row, 0)
    };
    scrolled(moved, rows)
}

/// Insert: a line feed splits the line at the cursor and moves it to the
/// start of the new line; another control character does nothing; any other
/// character goes in at the cursor, which then moves right.
pub open spec fn step_insert(s: EditorState, ch: char, rows: nat) -> EditorState {
    if ch == '\n' {
        let split = with_lines(s, split_line(s.lines, s.row as int, s.col as int));
        scrolled(at_cursor(split, s.row + 1, 0), rows)
    } else if !is_control(ch) {
        step_right(with_lines(s, insert_char(s.lines, s.row as int, s.col as int, ch)), rows)
    } else {
        s
    }
}

/// Backspace: nothing at the start of the document; at a line's start the
/// line is joined onto the previous one, the cursor at the join and scrolled
/// into view; elsewhere the cursor moves left and the character there is
/// removed.
pub open spec fn step_backspace(s: EditorState, rows: nat) -> EditorState {
    if s.row == 0 && s.col == 0 {
        s
    } else if s.col == 0 {
        let joined = with_lines(s, join_with_next(s.lines, s.row - 1));
        scrolled(at_cursor(joined, (s.row - 1) as nat, row_len(s, s.row - 1)), rows)
    } else {
        let left = step_left(s, rows);
        with_lines(left, remove_char(s.lines, s.row as int, s.col - 1))
    }
}

/// Delete: nothing at the end of the document; at a line's end the next line
/// is joined onto it; elsewhere the character at the cursor is removed. The
/// cursor stays.
pub open spec fn step_delete(s: EditorState) -> EditorState {
    if s.row == last_row(s) && s.col == row_len(s, s.row as int) {
        s
    } else if s.col == row_len(s, s.row as int) {
        with_lines(s, join_with_next(s.lines, s.row as int))
    } else {
        with_lines(s, remove_char(s.lines, s.row as int, s.col as int))
    }
}

/// Splitting a line adds no line feed.
pub proof fn lemma_split_keeps_no_line_feed(lines: Seq<Seq<char>>, r: int, c: int)
    requires
        no_line_feed(lines),
        0 <= r < lines.len(),
        0 <= c <= lines[r].len(),
    ensures
        no_line_feed(split_line(lines, r, c)),
{
    let n = split_line(lines, r, c);
    assert forall|i: int, k: int| 0 <= i < n.len() && 0 <= k < n[i].len() implies #[trigger] n[i][k] != '\n' by {
        if i < r {
            assert(n[i] == lines[i]);
        } else if i == r {
            assert(n[i][k] == lines[r][k]);
        } else if i == r + 1 {
            assert(n[i][k] == lines[r][k + c]);
        } else {
            assert(n[i] == lines[i - 1]);
        }
    }
}

/// Joining two lines adds no line feed.
pub proof fn lemma_join_keeps_no_line_feed(lines: Seq<Seq<char>>, r: int)
    requires
        no_line_feed(lines),
        0 <= r,
        r + 1 < lines.len(),
    ensures
        no_line_feed(join_with_next(lines, r)),
{
    let n = join_with_next(lines, r);
    assert forall|i: int, k: int| 0 <= i < n.len() && 0 <= k < n[i].len() implies #[trigger] n[i][k] != '\n' by {
        if i < r {
            assert(n[i] == lines[i]);
        } else if i == r {
            if k < lines[r].len() {
                assert(n[i][k] == lines[r][k]);
            } else {
                assert(n[i][k] == lines[r + 1][k - lines[r].len()]);
            }
        } else {
            assert(n[i] == lines[i + 1]);
        }
    }
}

/// Inserting another character adds no line feed.
pub proof fn lemma_insert_keeps_no_line_feed(lines: Seq<Seq<char>>, r: int, c: int, ch: char)
    requires
        no_line_feed(lines),
        0 <= r < lines.len(),
        0 <= c <= lines[r].len(),
        ch != '\n',
    ensures
        no_line_feed(insert_char(lines, r, c, ch)),
{
    let n = insert_char(lines, r, c, ch);
    assert forall|i: int, k: int| 0 <= i < n.len() && 0 <= k < n[i].len() implies #[trigger] n[i][k] != '\n' by {
        if i != r {
            assert(n[i] == lines[i]);
        } else if k < c {
            assert(n[i][k] == lines[r][k]);
        } else if k > c {
            assert(n[i][k] == lines[r][k - 1]);
        }
    }
}

/// Removing a character adds no line feed.
pub proof fn lemma_remove_keeps_no_line_feed(lines: Seq<Seq<char>>, r: int, c: int)
    requires
        no_line_feed(lines),
        0 <= r < lines.len(),
        0 <= c < lines[r].len(),
    ensures
        no_line_feed(remove_char(lines, r, c)),
{
    let n = remove_char(lines, r, c);
    assert forall|i: int, k: int| 0 <= i < n.len() && 0 <= k < n[i].len() implies #[trigger] n[i][k] != '\n' by {
        if i != r {
            assert(n[i] == lines[i]);
        } else if k < c {
            assert(n[i][k] == lines[r][k]);
        } else {
            assert(n[i][k] == lines[r][k + 1]);
        }
    }
}

/// The edited lines stay within the longest line the buffer holds.
pub open spec fn fits(s: EditorState, cmd: Command) -> bool {
    match cmd {
        Command::Insert(ch) => ch == '\n' || is_control(ch) || row_len(s, s.row as int) < MAX_LINE_LEN,
        Command::Backspace => !(s.col == 0 && s.row > 0) || row_len(s, s.row - 1) + row_len(
            s,
            s.row as int,
        ) <= MAX_LINE_LEN,
        Command::Delete => !(s.col == row_len(s, s.row as int) && s.row < last_row(s)) || row_len(
            s,
            s.row as int,
        ) + row_len(s, s.row + 1 as int) <= MAX_LINE_LEN,
        _ => true,
    }
}

/// The state after a command; saving and quitting leave it as it is.
pub open spec fn step(s: EditorState, cmd: Command, rows: nat) -> EditorState {
    match cmd {
        Command::Up => step_up(s, rows),
        Command::Down => step_down(s, rows),
        Command::Left => step_left(s, rows),
        Command::Right => step_right(s, rows),
        Command::Insert(ch) => step_insert(s, ch, rows),
        Command::Backspace => step_backspace(s, rows),
        Command::Delete => step_delete(s),
        Command::Save => s,
        Command::Quit => s,
    }
}

/// What the input loop does after a command.
pub open spec fn outcome_of(cmd: Command) -> Outcome {
    match cmd {
        Command::Save => Outcome::Save,
        Command::Quit => Outcome::Quit,
        _ => Outcome::Continue,
    }
}

/// A fresh document: its lines, the cursor at the start, no scrolling.
pub open spec fn loaded(lines: Seq<Seq<char>>) -> EditorState {
    EditorState { lines, row: 0, col: 0, offset: 0 }
}

} // verus!
