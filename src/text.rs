//! Splitting a document into lines and joining lines back into a document.

use vstd::prelude::*;
use crate::width::MAX_LINE_LEN;

verus! {

/// A line as stored: the line feed that ended it is gone, and so are the
/// carriage returns at its end.
pub open spec fn strip_cr(piece: Seq<char>) -> Seq<char>
    decreases piece.len(),
{
    if piece.len() > 0 && piece.last() == '\r' {
        strip_cr(piece.drop_last())
    } else {
        piece
    }
}

/// Stripping carriage returns keeps a prefix of the piece.
pub proof fn lemma_strip_cr_prefix(piece: Seq<char>)
    ensures
        strip_cr(piece).len() <= piece.len(),
        forall|k: int| 0 <= k < strip_cr(piece).len() ==> #[trigger] strip_cr(piece)[k] == piece[k],
    decreases piece.len(),
{
    if piece.len() > 0 && piece.last() == '\r' {
        lemma_strip_cr_prefix(piece.drop_last());
    }
}

/// Removes the carriage returns at the end of a line.
fn trim_cr(line: &mut Vec<char>)
    ensures
        final(line)@ == strip_cr(old(line)@),
{
    while line.len() > 0 && line[line.len() - 1] == '\r'
        invariant
            strip_cr(line@) == strip_cr(old(line)@),
        decreases line@.len(),
    {
        line.pop();
    }
}

/// The lines completed within the first `i` characters of `s`, and the
/// characters read since the last line feed.
pub open spec fn scan_lines(s: Seq<char>, i: int) -> (Seq<Seq<char>>, Seq<char>)
    decreases i,
{
    if i <= 0 {
        (Seq::empty(), Seq::empty())
    } else {
        let (done, cur) = scan_lines(s, i - 1);
        if s[i - 1] == '\n' {
            (done.push(strip_cr(cur)), Seq::empty())
        } else {
            (done, cur.push(s[i - 1]))
        }
    }
}

/// The lines of a document: split at line feeds, carriage returns at the end
/// of each line removed; a final line feed ends the last line rather than
/// starting an empty one, and an empty document has one empty line.
pub open spec fn split_lines(s: Seq<char>) -> Seq<Seq<char>> {
    let (done, cur) = scan_lines(s, s.len() as int);
    if cur.len() > 0 || done.len() == 0 {
        done.push(strip_cr(cur))
    } else {
        done
    }
}

/// Each line followed by a line feed.
pub open spec fn join_lines(lines: Seq<Seq<char>>) -> Seq<char>
    decreases lines.len(),
{
    if lines.len() == 0 {
        Seq::empty()
    } else {
        join_lines(lines.drop_last()) + lines.last() + seq!['\n']
    }
}

/// No carriage return stands right before a line feed.
pub open spec fn no_crlf(s: Seq<char>) -> bool {
    forall|i: int| 0 <= i < s.len() - 1 ==> !(#[trigger] s[i] == '\r' && s[i + 1] == '\n')
}

/// A document as it reads back after a save: ending in a line feed.
pub open spec fn with_final_newline(s: Seq<char>) -> Seq<char> {
    if s.len() > 0 && s.last() == '\n' {
        s
    } else {
        s.push('\n')
    }
}

/// No line holds a line feed.
pub open spec fn no_line_feed(lines: Seq<Seq<char>>) -> bool {
    forall|r: int, k: int|
        0 <= r < lines.len() && 0 <= k < lines[r].len() ==> #[trigger] lines[r][k] != '\n'
}

proof fn lemma_scan_shape(s: Seq<char>, i: int)
    requires
        0 <= i <= s.len(),
    ensures
        scan_lines(s, i).1.len() <= i,
        forall|k: int| 0 <= k < scan_lines(s, i).0.len() ==> #[trigger] scan_lines(s, i).0[k].len() <= i,
        no_line_feed(scan_lines(s, i).0.push(scan_lines(s, i).1)),
    decreases i,
{
    if i > 0 {
        lemma_scan_shape(s, i - 1);
        let (d, c) = scan_lines(s, i - 1);
        lemma_strip_cr_prefix(c);
        let all = scan_lines(s, i).0.push(scan_lines(s, i).1);
        assert forall|r: int, k: int| 0 <= r < all.len() && 0 <= k < all[r].len() implies #[trigger] all[r][k] != '\n' by {
            let prev = d.push(c);
            if s[i - 1] == '\n' {
                if r < d.len() {
                    assert(all[r] == prev[r]);
                } else {
                    assert(all[r] == strip_cr(c));
                    assert(prev[r] == c);
                    assert(all[r][k] == c[k]);
                }
            } else {
                if r < d.len() {
                    assert(all[r] == prev[r]);
                } else if k < c.len() {
                    assert(all[r][k] == prev[r][k]);
                }
            }
        }
    }
}

/// The lines of a document fit the buffer and hold no line feed.
pub proof fn lemma_split_lines_shape(s: Seq<char>)
    ensures
        split_lines(s).len() >= 1,
        forall|k: int| 0 <= k < split_lines(s).len() ==> #[trigger] split_lines(s)[k].len() <= s.len(),
        no_line_feed(split_lines(s)),
{
    lemma_scan_shape(s, s.len() as int);
    let (d, c) = scan_lines(s, s.len() as int);
    lemma_strip_cr_prefix(c);
    if c.len() > 0 || d.len() == 0 {
        let all = d.push(strip_cr(c));
        assert forall|r: int, k: int| 0 <= r < all.len() && 0 <= k < all[r].len() implies #[trigger] all[r][k] != '\n' by {
            if r < d.len() {
                assert(all[r] == d.push(c)[r]);
            } else {
                assert(all[r][k] == d.push(c)[r][k]);
            }
        }
    } else {
        assert forall|r: int, k: int| 0 <= r < d.len() && 0 <= k < d[r].len() implies #[trigger] d[r][k] != '\n' by {
            assert(d.push(c)[r] == d[r]);
        }
    }
}

proof fn lemma_scan_joins(s: Seq<char>, i: int)
    requires
        0 <= i <= s.len(),
        no_crlf(s),
    ensures
        join_lines(scan_lines(s, i).0) + scan_lines(s, i).1 == s.subrange(0, i),
        scan_lines(s, i).1.len() > 0 ==> scan_lines(s, i).1.last() == s[i - 1] && s[i - 1] != '\n',
        scan_lines(s, i).1.len() == 0 && i > 0 ==> s[i - 1] == '\n',
    decreases i,
{
    if i == 0 {
        assert(s.subrange(0, 0) =~= Seq::<char>::empty());
    } else {
        lemma_scan_joins(s, i - 1);
        let (d, c) = scan_lines(s, i - 1);
        if s[i - 1] == '\n' {
            if c.len() > 0 {
                assert(c.last() != '\r' || !(s[i - 2] == '\r' && s[i - 1] == '\n'));
            }
            assert(strip_cr(c) == c);
            let nd = d.push(c);
            assert(nd.drop_last() =~= d);
            assert(join_lines(nd) + Seq::<char>::empty() =~= s.subrange(0, i));
        } else {
            assert(join_lines(d) + c.push(s[i - 1]) =~= s.subrange(0, i));
        }
    }
}

/// Joining the lines of a document gives the document back, ending in a line
/// feed, when no line of it ends in a carriage return: none stands right
/// before a line feed or at the very end.
pub proof fn law_round_trip(s: Seq<char>)
    requires
        no_crlf(s),
        !(s.len() > 0 && s.last() == '\r'),
    ensures
        join_lines(split_lines(s)) == with_final_newline(s),
{
    let n = s.len() as int;
    lemma_scan_joins(s, n);
    assert(s.subrange(0, n) =~= s);
    let (d, c) = scan_lines(s, n);
    if c.len() > 0 || d.len() == 0 {
        assert(strip_cr(c) == c);
        assert(d.push(c).drop_last() =~= d);
        if c.len() == 0 {
            assert(s =~= Seq::<char>::empty());
            assert(join_lines(d) =~= Seq::<char>::empty());
        }
        assert(join_lines(d.push(c)) =~= s.push('\n'));
    } else {
        assert(n > 0);
        assert(join_lines(d) + c =~= join_lines(d));
    }
}

/// Relies on `String::push`: the character is appended at the end.
#[verifier::external_body]
pub(crate) fn push_char(s: &mut String, c: char)
    ensures
        final(s)@ == old(s)@.push(c),
{
    s.push(c)
}

/// Splits a document into its lines.
pub fn load_lines(content: &str) -> (lines: Vec<Vec<char>>)
    requires
        content@.len() <= MAX_LINE_LEN,
    ensures
        lines@.len() == split_lines(content@).len(),
        forall|k: int| 0 <= k < lines@.len() ==> #[trigger] lines@[k]@ == split_lines(content@)[k],
        forall|k: int| 0 <= k < lines@.len() ==> #[trigger] lines@[k]@.len() <= MAX_LINE_LEN,
{
    proof {
        lemma_split_lines_shape(content@);
    }
    let ghost s = content@;
    let mut done: Vec<Vec<char>> = Vec::new();
    let mut cur: Vec<char> = Vec::new();
    for c in it: content.chars()
        invariant
            s == content@,
            it.seq() == s,
            0 <= it.index() <= s.len(),
            done@.len() == scan_lines(s, it.index() as int).0.len(),
            forall|k: int| 0 <= k < done@.len() ==> #[trigger] done@[k]@ == scan_lines(s, it.index() as int).0[k],
            cur@ == scan_lines(s, it.index() as int).1,
    {
        let ghost i = it.index() as int;
        assert(c == s[i]);
        if c == '\n' {
            trim_cr(&mut cur);
            let line = cur;
            done.push(line);
            cur = Vec::new();
        } else {
            cur.push(c);
        }
    }
    if cur.len() > 0 || done.len() == 0 {
        trim_cr(&mut cur);
        done.push(cur);
    }
    proof {
        assert forall|k: int| 0 <= k < done@.len() implies #[trigger] done@[k]@.len() <= MAX_LINE_LEN by {
            assert(done@[k]@ == split_lines(s)[k]);
        }
    }
    done
}

/// Joins lines into a document, each line followed by a line feed.
pub fn join(lines: &Vec<Vec<char>>) -> (r: String)
    ensures
        r@ == join_lines(lines@.map_values(|l: Vec<char>| l@)),
{
    let ghost ls = lines@.map_values(|l: Vec<char>| l@);
    let mut out = String::new();
    let mut i: usize = 0;
    while i < lines.len()
        invariant
            i <= lines@.len(),
            ls == lines@.map_values(|l: Vec<char>| l@),
            out@ == join_lines(ls.subrange(0, i as int)),
        decreases lines@.len() - i,
    {
        let line = &lines[i];
        let ghost before = out@;
        let mut j: usize = 0;
        while j < line.len()
            invariant
                j <= line@.len(),
                out@ == before + line@.subrange(0, j as int),
            decreases line@.len() - j,
        {
            push_char(&mut out, line[j]);
            proof {
                assert(line@.subrange(0, j + 1) =~= line@.subrange(0, j as int).push(line@[j as int]));
            }
            j = j + 1;
        }
        push_char(&mut out, '\n');
        proof {
            let pre = ls.subrange(0, i + 1);
            assert(pre.drop_last() =~= ls.subrange(0, i as int));
            assert(line@.subrange(0, j as int) =~= line@);
            assert(out@ =~= join_lines(pre));
        }
        i = i + 1;
    }
    proof {
        assert(ls.subrange(0, lines@.len() as int) =~= ls);
    }
    out
}

} // verus!
