//! Lines of a text held as bytes: where they begin and end, and which line
//! an offset falls on.

use vstd::prelude::*;

verus! {

/// The byte that ends a line.
pub const NEWLINE: u8 = 10;

/// The number, counted from one, of the line that offset `off` falls on.
pub open spec fn line_number(b: Seq<u8>, off: int) -> int
    decreases off,
{
    if off <= 0 {
        1
    } else if b[off - 1] == NEWLINE {
        line_number(b, off - 1) + 1
    } else {
        line_number(b, off - 1)
    }
}

/// The offset at which the line that `off` falls on begins.
pub open spec fn line_begin(b: Seq<u8>, off: int) -> int
    decreases off,
{
    if off <= 0 {
        0
    } else if b[off - 1] == NEWLINE {
        off
    } else {
        line_begin(b, off - 1)
    }
}

/// The offset of the first line end at or after `off`, or the length of the
/// text where none follows.
pub open spec fn line_end(b: Seq<u8>, off: int) -> int
    decreases b.len() - off,
{
    if off >= b.len() {
        b.len() as int
    } else if off >= 0 && b[off] == NEWLINE {
        off
    } else {
        line_end(b, off + 1)
    }
}

/// The offset at which line `n`, counted from one, begins.
pub open spec fn line_start(b: Seq<u8>, n: int) -> int
    decreases n,
{
    if n <= 1 {
        0
    } else {
        line_end(b, line_start(b, n - 1)) + 1
    }
}

/// How many lines the text has; an empty text has one, and a text that
/// ends with a line end has an empty last line.
pub open spec fn line_count(b: Seq<u8>) -> int {
    line_number(b, b.len() as int)
}

/// No line end lies in `from..to`.
pub open spec fn unbroken(b: Seq<u8>, from: int, to: int) -> bool {
    forall|k: int| from <= k < to ==> b[k] != NEWLINE
}

/// A line begins at or before each offset on it, behind a line end or at
/// the start of the text, and no line end lies between; line numbers start
/// at one and grow by at most one for each byte.
pub proof fn lemma_line_begin(b: Seq<u8>, off: int)
    requires
        0 <= off <= b.len(),
    ensures
        0 <= line_begin(b, off) <= off,
        unbroken(b, line_begin(b, off), off),
        line_begin(b, off) == 0 || b[line_begin(b, off) - 1] == NEWLINE,
        1 <= line_number(b, off) <= off + 1,
    decreases off,
{
    if off > 0 {
        lemma_line_begin(b, off - 1);
    }
}

/// A line ends at or after each offset on it, on a line end or at the end
/// of the text, and no line end lies between.
pub proof fn lemma_line_end(b: Seq<u8>, off: int)
    requires
        0 <= off <= b.len(),
    ensures
        off <= line_end(b, off) <= b.len(),
        unbroken(b, off, line_end(b, off)),
        line_end(b, off) == b.len() || b[line_end(b, off)] == NEWLINE,
    decreases b.len() - off,
{
    if off < b.len() && b[off] != NEWLINE {
        lemma_line_end(b, off + 1);
    }
}

/// A stretch without a line end lies on one line.
pub proof fn lemma_unbroken_same_line(b: Seq<u8>, from: int, to: int)
    requires
        0 <= from <= to <= b.len(),
        unbroken(b, from, to),
    ensures
        line_number(b, to) == line_number(b, from),
        line_begin(b, to) == line_begin(b, from),
        line_end(b, from) == line_end(b, to),
    decreases to - from,
{
    if from < to {
        lemma_unbroken_same_line(b, from, to - 1);
        lemma_unbroken_end(b, to - 1);
    }
}

proof fn lemma_unbroken_end(b: Seq<u8>, at: int)
    requires
        0 <= at < b.len(),
        b[at] != NEWLINE,
    ensures
        line_end(b, at) == line_end(b, at + 1),
{
}

/// The line that an offset falls on begins where its number says.
pub proof fn lemma_line_start_of_number(b: Seq<u8>, off: int)
    requires
        0 <= off <= b.len(),
    ensures
        line_start(b, line_number(b, off)) == line_begin(b, off),
    decreases off,
{
    if off > 0 {
        lemma_line_start_of_number(b, off - 1);
        lemma_line_begin(b, off - 1);
        if b[off - 1] == NEWLINE {
            let s = line_begin(b, off - 1);
            lemma_unbroken_same_line(b, s, off - 1);
            assert(line_end(b, off - 1) == off - 1);
            assert(line_number(b, off) >= 2);
        }
    }
}

/// Two offsets on one line, in order, stand in that order in the line.
pub proof fn lemma_same_line_columns(b: Seq<u8>, a: int, c: int)
    requires
        0 <= a <= c <= b.len(),
        line_number(b, a) == line_number(b, c),
    ensures
        line_begin(b, a) == line_begin(b, c),
{
    lemma_line_start_of_number(b, a);
    lemma_line_start_of_number(b, c);
}

/// An offset lies within its line: the line does not end before it.
pub proof fn lemma_offset_in_line(b: Seq<u8>, off: int)
    requires
        0 <= off <= b.len(),
    ensures
        line_begin(b, off) <= off <= line_end(b, line_begin(b, off)),
{
    lemma_line_begin(b, off);
    lemma_unbroken_same_line(b, line_begin(b, off), off);
    lemma_line_end(b, off);
}

/// The line and the column of `off`: the line counted from one, the column
/// in bytes from the start of that line.
pub fn position(b: &[u8], off: usize) -> (res: (usize, usize))
    requires
        off <= b@.len(),
        off < usize::MAX,
    ensures
        res.0 == line_number(b@, off as int),
        res.1 == off - line_begin(b@, off as int),
{
    let mut line: usize = 1;
    let mut begin: usize = 0;
    let mut i: usize = 0;
    while i < off
        invariant
            i <= off <= b@.len(),
            off < usize::MAX,
            line == line_number(b@, i as int),
            begin == line_begin(b@, i as int),
            line <= i + 1,
            begin <= i,
        decreases off - i,
    {
        if b[i] == NEWLINE {
            line += 1;
            begin = i + 1;
        }
        i += 1;
    }
    (line, off - begin)
}

/// The end of the line that begins, or goes on, at `from`.
pub fn end_of_line(b: &[u8], from: usize) -> (res: usize)
    requires
        from <= b@.len(),
    ensures
        res == line_end(b@, from as int),
        from <= res <= b@.len(),
{
    let mut i: usize = from;
    while i < b.len() && b[i] != NEWLINE
        invariant
            from <= i <= b@.len(),
            line_end(b@, from as int) == line_end(b@, i as int),
        decreases b@.len() - i,
    {
        i += 1;
    }
    i
}

} // verus!
