//! Drawing the visible part of the document on a terminal.

use vstd::prelude::*;
use crate::editor::Editor;
use crate::model::{cursor_column, EditorState};
use crate::text::push_char;

verus! {

/// One instruction to the terminal.
#[derive(Clone, Debug, PartialEq, Eq)]
pub enum DrawOp {
    /// Clear the screen and home the cursor.
    ClearScreen,
    /// Write these characters.
    Text(Vec<char>),
    /// Go to the start of the next screen line.
    LineBreak,
    /// Place the cursor; both coordinates zero-based, `col` in display columns.
    MoveCursor { row: usize, col: usize },
}

pub ghost enum DrawSpec {
    ClearScreen,
    Text(Seq<char>),
    LineBreak,
    MoveCursor(nat, nat),
}

impl View for DrawOp {
    type V = DrawSpec;

    open spec fn view(&self) -> DrawSpec {
        match self {
            DrawOp::ClearScreen => DrawSpec::ClearScreen,
            DrawOp::Text(t) => DrawSpec::Text(t@),
            DrawOp::LineBreak => DrawSpec::LineBreak,
            DrawOp::MoveCursor { row, col } => DrawSpec::MoveCursor(*row as nat, *col as nat),
        }
    }
}

/// Lines `from` up to `to`, separated by line breaks.
pub open spec fn drawn_rows(lines: Seq<Seq<char>>, from: int, to: int) -> Seq<DrawSpec>
    decreases to - from,
{
    if to <= from {
        Seq::empty()
    } else if to == from + 1 {
        seq![DrawSpec::Text(lines[from])]
    } else {
        drawn_rows(lines, from, to - 1) + seq![DrawSpec::LineBreak, DrawSpec::Text(lines[to - 1])]
    }
}

/// One past the last line that fits on a screen of `rows` lines.
pub open spec fn drawn_end(s: EditorState, rows: nat) -> int {
    if s.offset + rows < s.lines.len() {
        (s.offset + rows) as int
    } else {
        s.lines.len() as int
    }
}

/// A whole frame: clear, the visible lines, then the cursor placed at its
/// display column on its screen row.
pub open spec fn frame(s: EditorState, rows: nat) -> Seq<DrawSpec> {
    seq![DrawSpec::ClearScreen] + drawn_rows(s.lines, s.offset as int, drawn_end(s, rows)) + seq![
        DrawSpec::MoveCursor((s.row - s.offset) as nat, cursor_column(s)),
    ]
}

/// The decimal digits of `n`.
pub open spec fn decimal(n: nat) -> Seq<char>
    decreases n,
{
    if n < 10 {
        seq![(48 + n) as char]
    } else {
        decimal(n / 10).push((48 + n % 10) as char)
    }
}

/// The control sequence that clears the screen.
pub open spec fn clear_text() -> Seq<char> {
    seq!['\x1b', '[', '2', 'J']
}

/// The control sequence that moves the cursor to one-based `col` and `row`.
pub open spec fn goto_text(col: nat, row: nat) -> Seq<char> {
    seq!['\x1b', '['] + decimal(row) + seq![';'] + decimal(col) + seq!['H']
}

/// A zero-based coordinate made one-based, at most the largest a terminal
/// coordinate can be.
pub open spec fn one_based(n: nat) -> nat {
    if n < 0xffff {
        n + 1
    } else {
        0xffff
    }
}

pub open spec fn op_text(op: DrawSpec) -> Seq<char> {
    match op {
        DrawSpec::ClearScreen => clear_text() + goto_text(1, 1),
        DrawSpec::Text(t) => t,
        DrawSpec::LineBreak => seq!['\r', '\n'],
        DrawSpec::MoveCursor(row, col) => goto_text(one_based(col), one_based(row)),
    }
}

/// The bytes, as characters, that carry out a sequence of instructions.
pub open spec fn frame_text(ops: Seq<DrawSpec>) -> Seq<char>
    decreases ops.len(),
{
    if ops.len() == 0 {
        Seq::empty()
    } else {
        frame_text(ops.drop_last()) + op_text(ops.last())
    }
}

/// Relies on `termion::clear::All`, whose `Display` writes ESC "[2J".
#[verifier::external_body]
fn clear_code() -> (r: String)
    ensures
        r@ == clear_text(),
{
    format!("{}", termion::clear::All)
}

/// Relies on `termion::cursor::Goto`, whose `Display` writes ESC "[", the row
/// in decimal, ";", the column in decimal and "H"; it is one-based and checks
/// in debug builds that it is not given (0, 0).
#[verifier::external_body]
fn goto_code(col: u16, row: u16) -> (r: String)
    requires
        col != 0 || row != 0,
    ensures
        r@ == goto_text(col as nat, row as nat),
{
    format!("{}", termion::cursor::Goto(col, row))
}

fn one_based_u16(n: usize) -> (r: u16)
    ensures
        r == one_based(n as nat),
{
    if n < 0xffff {
        (n + 1) as u16
    } else {
        0xffff
    }
}

/// The terminal output for a sequence of instructions.
pub fn encode(ops: &Vec<DrawOp>) -> (r: String)
    ensures
        r@ == frame_text(ops@.map_values(|o: DrawOp| o@)),
{
    let ghost specs = ops@.map_values(|o: DrawOp| o@);
    let mut out = String::new();
    let mut i: usize = 0;
    while i < ops.len()
        invariant
            i <= ops@.len(),
            specs == ops@.map_values(|o: DrawOp| o@),
            out@ == frame_text(specs.subrange(0, i as int)),
        decreases ops@.len() - i,
    {
        let ghost before = out@;
        match &ops[i] {
            DrawOp::ClearScreen => {
                let clear = clear_code();
                out.append(clear.as_str());
                let home = goto_code(1, 1);
                out.append(home.as_str());
            },
            DrawOp::Text(t) => {
                let mut j: usize = 0;
                while j < t.len()
                    invariant
                        j <= t@.len(),
                        out@ == before + t@.subrange(0, j as int),
                    decreases t@.len() - j,
                {
                    push_char(&mut out, t[j]);
                    proof {
                        assert(t@.subrange(0, j + 1) =~= t@.subrange(0, j as int).push(t@[j as int]));
                    }
                    j = j + 1;
                }
                proof {
                    assert(t@.subrange(0, t@.len() as int) =~= t@);
                }
            },
            DrawOp::LineBreak => {
                push_char(&mut out, '\r');
                push_char(&mut out, '\n');
            },
            DrawOp::MoveCursor { row, col } => {
                let goto = goto_code(one_based_u16(*col), one_based_u16(*row));
                out.append(goto.as_str());
            },
        }
        proof {
            let pre = specs.subrange(0, i + 1);
            assert(pre.drop_last() =~= specs.subrange(0, i as int));
            assert(pre.last() == ops@[i as int]@);
            assert(out@ =~= frame_text(pre));
        }
        i = i + 1;
    }
    proof {
        assert(specs.subrange(0, ops@.len() as int) =~= specs);
    }
    out
}

impl Editor {
    /// The instructions that draw the screen: the lines from the scroll
    /// offset on, as many as `rows` allows, and the cursor at its display
    /// column.
    pub fn render(&self, rows: usize) -> (r: Vec<DrawOp>)
        requires
            self.wf(),
            self@.offset <= self@.row,
        ensures
            r@.map_values(|o: DrawOp| o@) == frame(self@, rows as nat),
    {
        let n = self.line_count();
        let offset = self.row_offset();
        let end = if n - offset > rows {
            offset + rows
        } else {
            n
        };
        let mut ops: Vec<DrawOp> = Vec::new();
        ops.push(DrawOp::ClearScreen);
        let mut i: usize = offset;
        while i < end
            invariant
                self.wf(),
                offset == self@.offset,
                offset <= self@.row,
                n == self@.lines.len(),
                end == drawn_end(self@, rows as nat),
                offset <= i <= end,
                ops@.map_values(|o: DrawOp| o@) == seq![DrawSpec::ClearScreen] + drawn_rows(self@.lines, offset as int, i as int),
            decreases end - i,
        {
            let ghost prev = ops@.map_values(|o: DrawOp| o@);
            if i > offset {
                ops.push(DrawOp::LineBreak);
            }
            let ghost mid = ops@.map_values(|o: DrawOp| o@);
            let text = self.line(i);
            ops.push(DrawOp::Text(text));
            proof {
                let ls = self@.lines;
                let now = ops@.map_values(|o: DrawOp| o@);
                assert(now =~= mid.push(DrawSpec::Text(ls[i as int])));
                if i > offset {
                    assert(mid =~= prev.push(DrawSpec::LineBreak));
                } else {
                    assert(mid =~= prev);
                }
                if i > offset {
                    assert(drawn_rows(ls, offset as int, i + 1) == drawn_rows(ls, offset as int, i as int) + seq![
                        DrawSpec::LineBreak,
                        DrawSpec::Text(ls[i as int]),
                    ]);
                } else {
                    assert(drawn_rows(ls, offset as int, i as int) =~= Seq::<DrawSpec>::empty());
                }
                assert(ops@.map_values(|o: DrawOp| o@) =~= seq![DrawSpec::ClearScreen] + drawn_rows(ls, offset as int, i + 1));
            }
            i = i + 1;
        }
        let cur = self.cursor();
        let col = self.char_index_to_display_column(cur.y, cur.x);
        ops.push(DrawOp::MoveCursor { row: cur.y - offset, col });
        proof {
            assert(ops@.map_values(|o: DrawOp| o@) =~= frame(self@, rows as nat));
        }
        ops
    }

    /// The terminal output that draws the screen.
    pub fn draw(&self, rows: usize) -> (r: String)
        requires
            self.wf(),
            self@.offset <= self@.row,
        ensures
            r@ == frame_text(frame(self@, rows as nat)),
    {
        let ops = self.render(rows);
        encode(&ops)
    }
}

} // verus!
