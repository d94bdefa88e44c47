//! The editor: lines with their width tables, the cursor and the scroll
//! offset, and the movement and editing commands on them.

use vstd::prelude::*;
use crate::model::{
    char_index_at, first_past, fits, insert_char, join_with_next, lemma_first_past_bound,
    lemma_insert_keeps_no_line_feed, lemma_join_keeps_no_line_feed, lemma_remove_keeps_no_line_feed,
    lemma_split_keeps_no_line_feed, loaded, outcome_of, remove_char, scrolled, split_line, state_ok,
    step, step_backspace, step_delete, step_down, step_insert, step_left, step_right, step_up,
    Command, EditorState, Outcome,
};
use crate::text::{join, join_lines, lemma_split_lines_shape, load_lines, no_line_feed, split_lines};
use crate::width::{
    char_width, is_control_char, is_start_table, lemma_prefix_width_agree, line_width, prefix_width,
    MAX_LINE_LEN,
};

verus! {

/// Cursor position, zero-based: `x` is a character index, `y` a line index.
#[derive(Clone, Copy, Debug, PartialEq, Eq, Structural)]
pub struct Cursor {
    pub x: usize,
    pub y: usize,
}

/// A document being edited: its lines, each with the display column at which
/// every character starts and the line's total width, the cursor, and the
/// first line on screen.
pub struct Editor {
    buffer: Vec<Vec<char>>,
    start_positions: Vec<Vec<usize>>,
    cursor: Cursor,
    row_offset: usize,
    widths: Vec<usize>,
}

/// The cached table and width of one line are those of its characters, and
/// the line fits the limits that keep column arithmetic in range.
pub open spec fn line_cached(line: Seq<char>, starts: Seq<usize>, width: usize) -> bool {
    &&& is_start_table(line, starts)
    &&& width == line_width(line)
    &&& line.len() <= MAX_LINE_LEN
}

/// Every line has its cached table and width.
pub open spec fn caches_ok(lines: Seq<Seq<char>>, starts: Seq<Seq<usize>>, widths: Seq<usize>) -> bool {
    &&& starts.len() == lines.len()
    &&& widths.len() == lines.len()
    &&& forall|r: int| 0 <= r < lines.len() ==> line_cached(#[trigger] lines[r], starts[r], widths[r])
}

/// Like `caches_ok`, with rows `a` and `b` left out.
pub open spec fn caches_ok_but(
    lines: Seq<Seq<char>>,
    starts: Seq<Seq<usize>>,
    widths: Seq<usize>,
    a: int,
    b: int,
) -> bool {
    &&& starts.len() == lines.len()
    &&& widths.len() == lines.len()
    &&& forall|r: int|
        0 <= r < lines.len() && r != a && r != b ==> line_cached(#[trigger] lines[r], starts[r], widths[r])
}

impl View for Editor {
    type V = EditorState;

    closed spec fn view(&self) -> EditorState {
        EditorState {
            lines: self.buffer@.map_values(|l: Vec<char>| l@),
            row: self.cursor.y as nat,
            col: self.cursor.x as nat,
            offset: self.row_offset as nat,
        }
    }
}

impl Default for Editor {
    /// An empty document: one empty line, the cursor at its start.
    fn default() -> (r: Self)
        ensures
            r.wf(),
            r@ == loaded(seq![Seq::<char>::empty()]),
    {
        let mut buffer: Vec<Vec<char>> = Vec::new();
        buffer.push(Vec::new());
        let mut start_positions: Vec<Vec<usize>> = Vec::new();
        start_positions.push(vec![0]);
        let mut widths: Vec<usize> = Vec::new();
        widths.push(0);
        let r = Editor { buffer, start_positions, cursor: Cursor { x: 0, y: 0 }, row_offset: 0, widths };
        proof {
            r.lemma_view();
            assert(r@.lines =~= seq![Seq::<char>::empty()]);
            assert(line_cached(r@.lines[0], r.start_table()[0], r.width_table()[0]));
        }
        r
    }
}

impl Editor {
    /// The width table of each line.
    pub closed spec fn start_table(&self) -> Seq<Seq<usize>> {
        self.start_positions@.map_values(|v: Vec<usize>| v@)
    }

    /// The display width of each line.
    pub closed spec fn width_table(&self) -> Seq<usize> {
        self.widths@
    }

    /// The cursor stands within the buffer and every width table is current.
    pub open spec fn wf(&self) -> bool {
        &&& state_ok(self@)
        &&& caches_ok(self@.lines, self.start_table(), self.width_table())
    }

    proof fn lemma_view(&self)
        ensures
            self@.lines.len() == self.buffer@.len(),
            forall|r: int| 0 <= r < self.buffer@.len() ==> #[trigger] self@.lines[r] == self.buffer@[r]@,
            self.start_table().len() == self.start_positions@.len(),
            forall|r: int| 0 <= r < self.start_positions@.len() ==> #[trigger] self.start_table()[r] == self.start_positions@[r]@,
            self@.row == self.cursor.y,
            self@.col == self.cursor.x,
            self@.offset == self.row_offset,
    {
    }

    /// Builds the width table of a line and returns it with the line's width.
    pub fn calc_start_positions(line: &Vec<char>) -> (r: (Vec<usize>, usize))
        requires
            line@.len() <= MAX_LINE_LEN,
        ensures
            line_cached(line@, r.0@, r.1),
    {
        let mut starts: Vec<usize> = Vec::new();
        starts.push(0);
        let mut total: usize = 0;
        let n = line.len();
        let mut i: usize = 0;
        while i < n
            invariant
                n == line@.len(),
                n <= MAX_LINE_LEN,
                i <= n,
                total == prefix_width(line@, i as int),
                total <= 3 * i,
                is_start_table(line@.subrange(0, i as int), starts@),
            decreases n - i,
        {
            let w = char_width(line[i]);
            total = total + w;
            starts.push(total);
            proof {
                let pre = line@.subrange(0, i + 1);
                assert forall|k: int| 0 <= k <= i + 1 implies #[trigger] starts@[k] == prefix_width(pre, k) by {
                    lemma_prefix_width_agree(line@, pre, k);
                    if k <= i {
                        lemma_prefix_width_agree(line@, line@.subrange(0, i as int), k);
                    }
                }
            }
            i = i + 1;
        }
        proof {
            assert(line@.subrange(0, n as int) =~= line@);
        }
        (starts, total)
    }

    /// Display column at which character `col` of line `row` begins; the
    /// line's width for `col` at its end.
    pub fn char_index_to_display_column(&self, row: usize, col: usize) -> (r: usize)
        requires
            self.wf(),
            row < self@.lines.len(),
            col <= self@.lines[row as int].len(),
        ensures
            r == prefix_width(self@.lines[row as int], col as int),
    {
        proof {
            self.lemma_view();
            assert(line_cached(self@.lines[row as int], self.start_table()[row as int], self.width_table()[row as int]));
        }
        self.start_positions[row][col]
    }

    /// Index of the character of line `row` that covers display column `x`,
    /// or the line's length when none does.
    pub fn display_column_to_char_index(&self, row: usize, x: usize) -> (r: usize)
        requires
            self.wf(),
            row < self@.lines.len(),
        ensures
            r == char_index_at(self@.lines[row as int], x as nat),
            r <= self@.lines[row as int].len(),
    {
        proof {
            self.lemma_view();
            assert(line_cached(self@.lines[row as int], self.start_table()[row as int], self.width_table()[row as int]));
        }
        let ghost line = self@.lines[row as int];
        let starts = &self.start_positions[row];
        let n = self.buffer[row].len();
        let mut i: usize = 0;
        while i < n
            invariant
                n == line.len(),
                i <= n,
                line == self@.lines[row as int],
                row < self@.lines.len(),
                is_start_table(line, starts@),
                first_past(line, x as nat, 0) == first_past(line, x as nat, i as int),
            decreases n - i,
        {
            if x < starts[i + 1] {
                proof {
                    lemma_first_past_bound(line, x as nat, 0);
                }
                return i;
            }
            i = i + 1;
        }
        proof {
            lemma_first_past_bound(line, x as nat, 0);
        }
        n
    }

    /// Replaces the document with `content`, split into lines, and puts the
    /// cursor at its start.
    pub fn open(&mut self, content: &str)
        requires
            content@.len() <= MAX_LINE_LEN,
        ensures
            final(self).wf(),
            final(self)@ == loaded(split_lines(content@)),
    {
        let buffer = load_lines(content);
        proof {
            lemma_split_lines_shape(content@);
        }
        let mut start_positions: Vec<Vec<usize>> = Vec::new();
        let mut widths: Vec<usize> = Vec::new();
        let mut i: usize = 0;
        while i < buffer.len()
            invariant
                i <= buffer@.len(),
                buffer@.len() == split_lines(content@).len(),
                forall|k: int| 0 <= k < buffer@.len() ==> #[trigger] buffer@[k]@ == split_lines(content@)[k],
                forall|k: int| 0 <= k < buffer@.len() ==> #[trigger] buffer@[k]@.len() <= MAX_LINE_LEN,
                start_positions@.len() == i,
                widths@.len() == i,
                forall|k: int| 0 <= k < i ==> line_cached(#[trigger] buffer@[k]@, start_positions@[k]@, widths@[k]),
            decreases buffer@.len() - i,
        {
            let (starts, width) = Self::calc_start_positions(&buffer[i]);
            start_positions.push(starts);
            widths.push(width);
            i = i + 1;
        }
        self.buffer = buffer;
        self.start_positions = start_positions;
        self.widths = widths;
        self.cursor = Cursor { x: 0, y: 0 };
        self.row_offset = 0;
        proof {
            self.lemma_view();
            assert(self@.lines =~= split_lines(content@));
            assert forall|r: int| 0 <= r < self@.lines.len() implies line_cached(
                #[trigger] self@.lines[r],
                self.start_table()[r],
                self.width_table()[r],
            ) by {
                assert(self@.lines[r] == self.buffer@[r]@);
            }
        }
    }

    /// The document as text: each line followed by a line feed.
    pub fn serialize(&self) -> (r: String)
        requires
            self.wf(),
        ensures
            r@ == join_lines(self@.lines),
    {
        proof {
            self.lemma_view();
            assert(self.buffer@.map_values(|l: Vec<char>| l@) == self@.lines);
        }
        join(&self.buffer)
    }

    /// Whether `cmd` keeps every line within `MAX_LINE_LEN`, as the editing
    /// commands require.
    pub fn fits(&self, cmd: Command) -> (r: bool)
        requires
            self.wf(),
        ensures
            r == fits(self@, cmd),
    {
        proof {
            self.lemma_view();
        }
        let y = self.cursor.y;
        let x = self.cursor.x;
        let len = self.buffer[y].len();
        match cmd {
            Command::Insert(c) => c == '\n' || is_control_char(c) || len < MAX_LINE_LEN,
            Command::Backspace => {
                if x == 0 && y > 0 {
                    self.buffer[y - 1].len() <= MAX_LINE_LEN - len
                } else {
                    true
                }
            },
            Command::Delete => {
                if x == len && y < self.buffer.len() - 1 {
                    self.buffer[y + 1].len() <= MAX_LINE_LEN - len
                } else {
                    true
                }
            },
            _ => true,
        }
    }

    /// Carries out one command; saving and quitting are left to the caller,
    /// which the result tells what to do next.
    pub fn apply(&mut self, cmd: Command, rows: usize) -> (r: Outcome)
        requires
            old(self).wf(),
            fits(old(self)@, cmd),
        ensures
            final(self).wf(),
            final(self)@ == step(old(self)@, cmd, rows as nat),
            r == outcome_of(cmd),
    {
        match cmd {
            Command::Up => self.cursor_up(rows),
            Command::Down => self.cursor_down(rows),
            Command::Left => self.cursor_left(rows),
            Command::Right => self.cursor_right(rows),
            Command::Insert(c) => self.insert(c, rows),
            Command::Backspace => self.back_space(rows),
            Command::Delete => self.delete(),
            Command::Save => return Outcome::Save,
            Command::Quit => return Outcome::Quit,
        }
        Outcome::Continue
    }

    /// Reserved for a status line; draws nothing.
    pub fn _draw_status_bar(&mut self, _debug_mode: bool)
        ensures
            *final(self) == *old(self),
    {
    }

    /// The cursor position.
    pub fn cursor(&self) -> (r: Cursor)
        ensures
            r.y == self@.row,
            r.x == self@.col,
    {
        self.cursor
    }

    /// Index of the line drawn at the top of the screen.
    pub fn row_offset(&self) -> (r: usize)
        ensures
            r == self@.offset,
    {
        self.row_offset
    }

    pub fn line_count(&self) -> (r: usize)
        ensures
            r == self@.lines.len(),
    {
        proof {
            self.lemma_view();
        }
        self.buffer.len()
    }

    pub fn line_length(&self, row: usize) -> (r: usize)
        requires
            row < self@.lines.len(),
        ensures
            r == self@.lines[row as int].len(),
    {
        proof {
            self.lemma_view();
        }
        self.buffer[row].len()
    }

    pub fn char_at(&self, row: usize, col: usize) -> (r: char)
        requires
            row < self@.lines.len(),
            col < self@.lines[row as int].len(),
        ensures
            r == self@.lines[row as int][col as int],
    {
        proof {
            self.lemma_view();
        }
        self.buffer[row][col]
    }

    /// The characters of line `row`.
    pub fn line(&self, row: usize) -> (r: Vec<char>)
        requires
            row < self@.lines.len(),
        ensures
            r@ == self@.lines[row as int],
    {
        proof {
            self.lemma_view();
        }
        let src = &self.buffer[row];
        let mut out: Vec<char> = Vec::new();
        let mut i: usize = 0;
        while i < src.len()
            invariant
                i <= src@.len(),
                out@ == src@.subrange(0, i as int),
            decreases src@.len() - i,
        {
            out.push(src[i]);
            proof {
                assert(src@.subrange(0, i + 1) =~= src@.subrange(0, i as int).push(src@[i as int]));
            }
            i = i + 1;
        }
        proof {
            assert(src@.subrange(0, src@.len() as int) =~= src@);
        }
        out
    }

    /// Display width of line `row`.
    pub fn line_width(&self, row: usize) -> (r: usize)
        requires
            self.wf(),
            row < self@.lines.len(),
        ensures
            r == line_width(self@.lines[row as int]),
    {
        proof {
            self.lemma_view();
            assert(line_cached(self@.lines[row as int], self.start_table()[row as int], self.width_table()[row as int]));
        }
        self.widths[row]
    }

    /// The width table of line `row`: the display column at which each
    /// character begins, then the line's width.
    pub fn start_positions(&self, row: usize) -> (r: Vec<usize>)
        requires
            self.wf(),
            row < self@.lines.len(),
        ensures
            r@.len() == self@.lines[row as int].len() + 1,
            forall|i: int| 0 <= i < r@.len() ==> #[trigger] r@[i] == prefix_width(self@.lines[row as int], i),
    {
        proof {
            self.lemma_view();
            assert(line_cached(self@.lines[row as int], self.start_table()[row as int], self.width_table()[row as int]));
        }
        let src = &self.start_positions[row];
        let mut out: Vec<usize> = Vec::new();
        let mut i: usize = 0;
        while i < src.len()
            invariant
                i <= src@.len(),
                out@ == src@.subrange(0, i as int),
            decreases src@.len() - i,
        {
            out.push(src[i]);
            proof {
                assert(src@.subrange(0, i + 1) =~= src@.subrange(0, i as int).push(src@[i as int]));
            }
            i = i + 1;
        }
        proof {
            assert(src@.subrange(0, src@.len() as int) =~= src@);
        }
        out
    }

    /// Rebuilds the width table and width of line `row`, which changed.
    fn recompute_widths(&mut self, row: usize, Ghost(other): Ghost<int>)
        requires
            caches_ok_but(old(self)@.lines, old(self).start_table(), old(self).width_table(), row as int, other),
            row < old(self)@.lines.len(),
            old(self)@.lines[row as int].len() <= MAX_LINE_LEN,
        ensures
            final(self)@ == old(self)@,
            caches_ok_but(final(self)@.lines, final(self).start_table(), final(self).width_table(), other, other),
            other == row ==> caches_ok(final(self)@.lines, final(self).start_table(), final(self).width_table()),
    {
        proof {
            self.lemma_view();
        }
        let (starts, width) = Self::calc_start_positions(&self.buffer[row]);
        self.start_positions[row] = starts;
        self.widths[row] = width;
        proof {
            self.lemma_view();
            assert(self@.lines =~= old(self)@.lines);
            assert forall|r: int| 0 <= r < self@.lines.len() && r != other implies line_cached(
                #[trigger] self@.lines[r],
                self.start_table()[r],
                self.width_table()[r],
            ) by {
                if r != row {
                    assert(self.start_table()[r] == old(self).start_table()[r]);
                }
            }
            assert(line_cached(self@.lines[row as int], self.start_table()[row as int], self.width_table()[row as int]));
        }
    }

    /// Scrolls so that the cursor row is among the `rows` lines on screen.
    pub fn scroll(&mut self, rows: usize)
        requires
            old(self).wf(),
        ensures
            final(self).wf(),
            final(self)@ == scrolled(old(self)@, rows as nat),
    {
        let line_count = self.buffer.len();
        if self.cursor.y < self.row_offset {
            self.row_offset = self.cursor.y;
        }
        proof {
            self.lemma_view();
            // so the row below the cursor's is still a usize
            assert(self.cursor.y < line_count);
        }
        if self.cursor.y - self.row_offset + 1 >= rows {
            if self.row_offset < self.cursor.y + 1 - rows {
                self.row_offset = self.cursor.y + 1 - rows;
            }
        }
    }

    /// Moves to the previous line, to the character under the cursor's display
    /// column; on the first line, to its start.
    pub fn cursor_up(&mut self, rows: usize)
        requires
            old(self).wf(),
        ensures
            final(self).wf(),
            final(self)@ == step_up(old(self)@, rows as nat),
    {
        proof {
            self.lemma_view();
        }
        if self.cursor.y > 0 {
            let target = self.char_index_to_display_column(self.cursor.y, self.cursor.x);
            let x = self.display_column_to_char_index(self.cursor.y - 1, target);
            self.cursor.y = self.cursor.y - 1;
            self.cursor.x = x;
        } else {
            self.cursor.x = 0;
        }
        self.scroll(rows);
    }

    /// Moves to the next line, to the character under the cursor's display
    /// column; on the last line, to its start.
    pub fn cursor_down(&mut self, rows: usize)
        requires
            old(self).wf(),
        ensures
            final(self).wf(),
            final(self)@ == step_down(old(self)@, rows as nat),
    {
        proof {
            self.lemma_view();
        }
        if self.cursor.y < self.buffer.len() - 1 {
            let target = self.char_index_to_display_column(self.cursor.y, self.cursor.x);
            let x = self.display_column_to_char_index(self.cursor.y + 1, target);
            self.cursor.y = self.cursor.y + 1;
            self.cursor.x = x;
        } else {
            self.cursor.x = 0;
        }
        self.scroll(rows);
    }

    /// Inserts `c` at the cursor. A line feed splits the line and moves the
    /// cursor to the start of the second half; another control character is
    /// ignored; any other character is inserted and the cursor moves past it.
    pub fn insert(&mut self, c: char, rows: usize)
        requires
            old(self).wf(),
            fits(old(self)@, Command::Insert(c)),
        ensures
            final(self).wf(),
            final(self)@ == step_insert(old(self)@, c, rows as nat),
    {
        proof {
            self.lemma_view();
        }
        let line_count = self.buffer.len();
        let y = self.cursor.y;
        let x = self.cursor.x;
        proof {
            // so the index of the line after the cursor's is still a usize
            assert(y < line_count);
        }
        if c == '\n' {
            let rest = self.buffer[y].split_off(x);
            self.buffer.insert(y + 1, rest);
            self.start_positions.insert(y + 1, Vec::new());
            self.widths.insert(y + 1, 0);
            proof {
                self.lemma_view();
                let ol = old(self)@.lines;
                assert(self@.lines =~= split_line(ol, y as int, x as int));
                assert forall|r: int| 0 <= r < self@.lines.len() && r != y && r != y + 1 implies line_cached(
                    #[trigger] self@.lines[r],
                    self.start_table()[r],
                    self.width_table()[r],
                ) by {
                    if r < y {
                        assert(self@.lines[r] == ol[r]);
                        assert(self.start_table()[r] == old(self).start_table()[r]);
                    } else {
                        assert(self@.lines[r] == ol[r - 1]);
                        assert(self.start_table()[r] == old(self).start_table()[r - 1]);
                    }
                }
            }
            self.recompute_widths(y, Ghost(y + 1));
            self.recompute_widths(y + 1, Ghost(y + 1));
            self.cursor.y = y + 1;
            self.cursor.x = 0;
            proof {
                self.lemma_view();
                assert(no_line_feed(self@.lines)) by {
                    lemma_split_keeps_no_line_feed(old(self)@.lines, y as int, x as int);
                }
            }
            self.scroll(rows);
        } else if !is_control_char(c) {
            self.buffer[y].insert(x, c);
            proof {
                self.lemma_view();
                assert(self@.lines =~= insert_char(old(self)@.lines, y as int, x as int, c));
            }
            self.recompute_widths(y, Ghost(y as int));
            proof {
                self.lemma_view();
                lemma_insert_keeps_no_line_feed(old(self)@.lines, y as int, x as int, c);
            }
            self.cursor_right(rows);
        }
    }

    /// Deletes the character before the cursor; at the start of a line, joins
    /// the line onto the previous one.
    pub fn back_space(&mut self, rows: usize)
        requires
            old(self).wf(),
            fits(old(self)@, Command::Backspace),
        ensures
            final(self).wf(),
            final(self)@ == step_backspace(old(self)@, rows as nat),
    {
        proof {
            self.lemma_view();
        }
        let y = self.cursor.y;
        let x = self.cursor.x;
        if y == 0 && x == 0 {
            return;
        }
        if x == 0 {
            let prev_len = self.buffer[y - 1].len();
            let mut line = self.buffer.remove(y);
            self.start_positions.remove(y);
            self.widths.remove(y);
            self.buffer[y - 1].append(&mut line);
            proof {
                self.lemma_view();
                let ol = old(self)@.lines;
                assert(self@.lines =~= join_with_next(ol, y - 1));
                assert forall|r: int| 0 <= r < self@.lines.len() && r != y - 1 implies line_cached(
                    #[trigger] self@.lines[r],
                    self.start_table()[r],
                    self.width_table()[r],
                ) by {
                    if r < y - 1 {
                        assert(self@.lines[r] == ol[r]);
                        assert(self.start_table()[r] == old(self).start_table()[r]);
                    } else {
                        assert(self@.lines[r] == ol[r + 1]);
                        assert(self.start_table()[r] == old(self).start_table()[r + 1]);
                    }
                }
            }
            self.recompute_widths(y - 1, Ghost(y - 1));
            self.cursor.y = y - 1;
            self.cursor.x = prev_len;
            proof {
                self.lemma_view();
                lemma_join_keeps_no_line_feed(old(self)@.lines, y - 1);
            }
            self.scroll(rows);
        } else {
            self.cursor_left(rows);
            self.buffer[y].remove(x - 1);
            proof {
                self.lemma_view();
                assert(self@.lines =~= remove_char(old(self)@.lines, y as int, x - 1));
            }
            self.recompute_widths(y, Ghost(y as int));
            proof {
                self.lemma_view();
                lemma_remove_keeps_no_line_feed(old(self)@.lines, y as int, x - 1);
            }
        }
    }

    /// Deletes the character under the cursor; at the end of a line, joins the
    /// next line onto it. The cursor stays where it is.
    pub fn delete(&mut self)
        requires
            old(self).wf(),
            fits(old(self)@, Command::Delete),
        ensures
            final(self).wf(),
            final(self)@ == step_delete(old(self)@),
    {
        proof {
            self.lemma_view();
        }
        let y = self.cursor.y;
        let x = self.cursor.x;
        let len = self.buffer[y].len();
        if y == self.buffer.len() - 1 && x == len {
            return;
        }
        if x == len {
            let mut next = self.buffer.remove(y + 1);
            self.start_positions.remove(y + 1);
            self.widths.remove(y + 1);
            self.buffer[y].append(&mut next);
            proof {
                self.lemma_view();
                let ol = old(self)@.lines;
                assert(self@.lines =~= join_with_next(ol, y as int));
                assert forall|r: int| 0 <= r < self@.lines.len() && r != y implies line_cached(
                    #[trigger] self@.lines[r],
                    self.start_table()[r],
                    self.width_table()[r],
                ) by {
                    if r < y {
                        assert(self@.lines[r] == ol[r]);
                        assert(self.start_table()[r] == old(self).start_table()[r]);
                    } else {
                        assert(self@.lines[r] == ol[r + 1]);
                        assert(self.start_table()[r] == old(self).start_table()[r + 1]);
                    }
                }
            }
            self.recompute_widths(y, Ghost(y as int));
            proof {
                self.lemma_view();
                lemma_join_keeps_no_line_feed(old(self)@.lines, y as int);
            }
        } else {
            self.buffer[y].remove(x);
            proof {
                self.lemma_view();
                assert(self@.lines =~= remove_char(old(self)@.lines, y as int, x as int));
            }
            self.recompute_widths(y, Ghost(y as int));
            proof {
                self.lemma_view();
                lemma_remove_keeps_no_line_feed(old(self)@.lines, y as int, x as int);
            }
        }
    }

    /// Moves one character back, to the end of the previous line from the
    /// start of a line.
    pub fn cursor_left(&mut self, rows: usize)
        requires
            old(self).wf(),
        ensures
            final(self).wf(),
            final(self)@ == step_left(old(self)@, rows as nat),
    {
        proof {
            self.lemma_view();
        }
        if self.cursor.x > 0 {
            self.cursor.x = self.cursor.x - 1;
        } else if self.cursor.y > 0 {
            self.cursor.y = self.cursor.y - 1;
            self.cursor.x = self.buffer[self.cursor.y].len();
        }
        self.scroll(rows);
    }

    /// Moves one character on, to the start of the next line from the end of
    /// a line.
    pub fn cursor_right(&mut self, rows: usize)
        requires
            old(self).wf(),
        ensures
            final(self).wf(),
            final(self)@ == step_right(old(self)@, rows as nat),
    {
        proof {
            self.lemma_view();
        }
        if self.cursor.x < self.buffer[self.cursor.y].len() {
            self.cursor.x = self.cursor.x + 1;
        } else if self.cursor.y < self.buffer.len() - 1 {
            self.cursor.y = self.cursor.y + 1;
            self.cursor.x = 0;
        }
        self.scroll(rows);
    }
}

} // verus!
