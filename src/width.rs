//! Display widths of characters and the per-line table of column starts.

use vstd::prelude::*;
use unicode_width::UnicodeWidthChar;

verus! {

/// The longest line the buffer holds, in characters. A `char` takes four
/// bytes, so no line that fits in memory is longer.
pub const MAX_LINE_LEN: usize = usize::MAX / 4;

/// Unicode general category Cc: the C0 and C1 control codes and DEL.
pub open spec fn is_control(c: char) -> bool {
    (c as u32) < 0x20 || (0x7f <= (c as u32) && (c as u32) < 0xa0)
}

/// Whether `c` is a control character (general category Cc).
pub fn is_control_char(c: char) -> (r: bool)
    ensures
        r == is_control(c),
{
    let v = c as u32;
    v < 0x20 || (0x7f <= v && v < 0xa0)
}

/// The column count that the Unicode width tables give a printable character.
pub uninterp spec fn glyph_width(c: char) -> nat;

/// Columns a character occupies on screen: nothing for a control character.
pub open spec fn width_of(c: char) -> nat {
    if is_control(c) {
        0
    } else {
        glyph_width(c)
    }
}

/// Display column at which the `i`-th character of `line` begins; for
/// `i == line.len()` the width of the whole line.
pub open spec fn prefix_width(line: Seq<char>, i: int) -> nat
    decreases i,
{
    if i <= 0 {
        0
    } else {
        prefix_width(line, i - 1) + width_of(line[i - 1])
    }
}

/// Total display width of a line.
pub open spec fn line_width(line: Seq<char>) -> nat {
    prefix_width(line, line.len() as int)
}

/// `starts` is the width table of `line`: one entry per character plus a
/// final entry for the end of the line.
pub open spec fn is_start_table(line: Seq<char>, starts: Seq<usize>) -> bool {
    &&& starts.len() == line.len() + 1
    &&& forall|i: int| 0 <= i <= line.len() ==> #[trigger] starts[i] == prefix_width(line, i)
}

/// Relies on `unicode_width::UnicodeWidthChar::width`: `None` exactly for the
/// control characters, one column for printable ASCII, otherwise a width that
/// depends on the character alone and is never more than three columns (the
/// widest, U+17D8, has three).
#[verifier::external_body]
fn table_width(c: char) -> (r: Option<usize>)
    ensures
        r is None <==> is_control(c),
        r matches Some(w) ==> w == glyph_width(c) && w <= 3,
        0x20 <= (c as u32) < 0x7f ==> r == Some(1usize),
{
    UnicodeWidthChar::width(c)
}

/// Columns that `c` occupies on a terminal: 0, 1 or 2 for nearly every
/// character, 0 for control characters.
pub fn char_width(c: char) -> (r: usize)
    ensures
        r == width_of(c),
        r <= 3,
        0x20 <= (c as u32) < 0x7f ==> r == 1,
{
    match table_width(c) {
        Some(w) => w,
        None => 0,
    }
}

/// The width of a prefix depends only on the characters in it.
pub proof fn lemma_prefix_width_agree(a: Seq<char>, b: Seq<char>, i: int)
    requires
        0 <= i <= a.len(),
        i <= b.len(),
        forall|k: int| 0 <= k < i ==> a[k] == b[k],
    ensures
        prefix_width(a, i) == prefix_width(b, i),
    decreases i,
{
    if i > 0 {
        lemma_prefix_width_agree(a, b, i - 1);
    }
}

} // verus!
