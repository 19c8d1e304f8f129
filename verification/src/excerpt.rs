//! Excerpts of a source text: the lines around a span, each span line
//! underlined.

use vstd::prelude::*;
use vstd::string::StringExecFns;
use vstd::utf8::{decode_utf8, encode_utf8, encode_utf8_valid_utf8};
use crate::lines::{
    end_of_line, lemma_line_begin, lemma_line_end, lemma_line_start_of_number,
    lemma_offset_in_line, lemma_same_line_columns, lemma_unbroken_same_line, line_begin,
    line_count, line_end, line_number, line_start, position, NEWLINE,
};
use crate::text::{
    decimal, lemma_boundary_at_ascii, push_char, push_decimal, push_repeat, repeat, slice_text,
};

verus! {

/// How many bytes line `n` holds, its line end not counted.
pub open spec fn line_len(b: Seq<u8>, n: int) -> int {
    line_end(b, line_start(b, n)) - line_start(b, n)
}

/// The characters of line `n`.
pub open spec fn line_text(b: Seq<u8>, n: int) -> Seq<char> {
    decode_utf8(b.subrange(line_start(b, n), line_end(b, line_start(b, n))))
}

/// A line number, set flush right in three columns.
pub open spec fn gutter(n: nat) -> Seq<char> {
    if n < 10 {
        "  "@ + decimal(n)
    } else if n < 100 {
        " "@ + decimal(n)
    } else {
        decimal(n)
    }
}

/// Line `n` behind its number.
pub open spec fn numbered_line(b: Seq<u8>, n: int) -> Seq<char> {
    gutter(n as nat) + " | "@ + line_text(b, n)
}

/// The column, in bytes, of an offset in its line.
pub open spec fn column(b: Seq<u8>, off: int) -> int {
    off - line_begin(b, off)
}

/// The underline for a line of `len` bytes with number `n`, under a span
/// that runs from column `sp` of line `sl` to column `ep` of line `el`, if
/// the span touches the line: spaces up to where the span begins, carets
/// over the span and one more at the end of a line it runs past, spaces
/// after its last byte on the line where it ends.
pub open spec fn band_of(sl: int, sp: int, el: int, ep: int, n: int, len: int) -> Option<Seq<char>> {
    if n == sl && n == el {
        Some("    | "@ + repeat(' ', sp as nat) + repeat('^', (ep - sp + 1) as nat))
    } else if n == sl {
        Some("    | "@ + repeat(' ', sp as nat) + repeat('^', (len - sp + 1) as nat))
    } else if n == el {
        Some("    | "@ + repeat('^', (ep + 1) as nat) + repeat(' ', (len - ep) as nat))
    } else if sl < n < el {
        Some("    | "@ + repeat('^', len as nat))
    } else {
        None
    }
}

/// The underline for line `n` of the text under the span `start..=end`.
pub open spec fn band(b: Seq<u8>, start: int, end: int, n: int) -> Option<Seq<char>> {
    band_of(
        line_number(b, start),
        column(b, start),
        line_number(b, end),
        column(b, end),
        n,
        line_len(b, n),
    )
}

/// What the excerpt shows for line `n`: the line, and its underline if it
/// has one.
pub open spec fn shown(b: Seq<u8>, start: int, end: int, n: int) -> Seq<Seq<char>> {
    match band(b, start, end, n) {
        Some(under) => seq![numbered_line(b, n), under],
        None => seq![numbered_line(b, n)],
    }
}

/// What the excerpt shows for the lines `n..=last`.
pub open spec fn shown_from(b: Seq<u8>, start: int, end: int, n: int, last: int) -> Seq<Seq<char>>
    decreases last - n + 1,
{
    if n > last {
        Seq::empty()
    } else {
        shown(b, start, end, n) + shown_from(b, start, end, n + 1, last)
    }
}

/// The first line of the excerpt: `pad` lines above the span, or the first
/// line of the text.
pub open spec fn first_shown(b: Seq<u8>, start: int, pad: int) -> int {
    if line_number(b, start) - pad >= 1 {
        line_number(b, start) - pad
    } else {
        1
    }
}

/// The last line of the excerpt: `pad` lines below the span, or the last
/// line of the text.
pub open spec fn last_shown(b: Seq<u8>, end: int, pad: int) -> int {
    if line_number(b, end) + pad <= line_count(b) {
        line_number(b, end) + pad
    } else {
        line_count(b)
    }
}

/// The excerpt for the span `start..=end`, line by line.
pub open spec fn excerpt(b: Seq<u8>, start: int, end: int, pad: int) -> Seq<Seq<char>> {
    shown_from(b, start, end, first_shown(b, start, pad), last_shown(b, end, pad))
}

/// Lines put together, a line feed between each two.
pub open spec fn joined(rows: Seq<Seq<char>>) -> Seq<char>
    decreases rows.len(),
{
    if rows.len() == 0 {
        Seq::empty()
    } else if rows.len() == 1 {
        rows[0]
    } else {
        joined(rows.drop_last()) + seq!['\n'] + rows.last()
    }
}

/// The line number of an offset does not fall as the offset grows.
pub proof fn lemma_line_number_grows(b: Seq<u8>, a: int, c: int)
    requires
        0 <= a <= c <= b.len(),
    ensures
        line_number(b, a) <= line_number(b, c),
    decreases c - a,
{
    if a < c {
        lemma_line_number_grows(b, a, c - 1);
    }
}

/// An empty span is underlined with one caret, under the column of its
/// point, and on no other line.
pub proof fn lemma_point_has_one_caret(b: Seq<u8>, at: int, n: int)
    requires
        0 <= at <= b.len(),
    ensures
        band(b, at, at, line_number(b, at)) == Some(
            "    | "@ + repeat(' ', column(b, at) as nat) + seq!['^'],
        ),
        n != line_number(b, at) ==> band(b, at, at, n) is None,
{
    assert(repeat('^', 1) =~= seq!['^']);
}

/// A span is underlined on each line from the one it begins on to the one
/// it ends on, and on no other. On the line where it begins the carets
/// start under its first column; on the lines below they start at the
/// left edge.
pub proof fn lemma_bands_cover_span(b: Seq<u8>, start: int, end: int, n: int)
    requires
        0 <= start <= end <= b.len(),
    ensures
        ({
            let sl = line_number(b, start);
            let el = line_number(b, end);
            &&& sl <= el
            &&& band(b, start, end, n) is Some <==> sl <= n <= el
            &&& sl < el && n == sl ==> band(b, start, end, n) == Some(
                "    | "@ + repeat(' ', column(b, start) as nat) + repeat(
                    '^',
                    (line_len(b, n) - column(b, start) + 1) as nat,
                ),
            )
            &&& sl < n < el ==> band(b, start, end, n) == Some(
                "    | "@ + repeat('^', line_len(b, n) as nat),
            )
            &&& sl < el && n == el ==> band(b, start, end, n) == Some(
                "    | "@ + repeat('^', (column(b, end) + 1) as nat) + repeat(
                    ' ',
                    (line_len(b, n) - column(b, end)) as nat,
                ),
            )
        }),
{
    lemma_line_number_grows(b, start, end);
}

/// How many of the lines `n..=last` lie in `sl..=el`.
pub open spec fn touched(n: int, last: int, sl: int, el: int) -> int {
    let from = if n >= sl {
        n
    } else {
        sl
    };
    let to = if last <= el {
        last
    } else {
        el
    };
    if from <= to {
        to - from + 1
    } else {
        0
    }
}

proof fn lemma_shown_from_len(b: Seq<u8>, start: int, end: int, n: int, last: int)
    requires
        0 <= start <= end <= b.len(),
        n <= last + 1,
    ensures
        shown_from(b, start, end, n, last).len() == (last - n + 1) + touched(
            n,
            last,
            line_number(b, start),
            line_number(b, end),
        ),
    decreases last - n + 1,
{
    lemma_line_number_grows(b, start, end);
    if n <= last {
        lemma_shown_from_len(b, start, end, n + 1, last);
    }
}

/// The excerpt holds each line from the first it shows to the last once,
/// and one underline for each line of the span.
pub proof fn lemma_one_band_per_line(b: Seq<u8>, start: int, end: int, pad: int)
    requires
        0 <= start <= end <= b.len(),
        0 <= pad,
    ensures
        ({
            let shown = last_shown(b, end, pad) - first_shown(b, start, pad) + 1;
            let bands = line_number(b, end) - line_number(b, start) + 1;
            &&& shown >= bands >= 1
            &&& excerpt(b, start, end, pad).len() == shown + bands
        }),
{
    lemma_line_begin(b, start);
    lemma_line_number_grows(b, start, end);
    lemma_line_number_grows(b, end, b.len() as int);
    lemma_shown_from_len(b, start, end, first_shown(b, start, pad), last_shown(b, end, pad));
}

/// Appends `row` as a new line of the text that `out` holds of `done`.
proof fn lemma_joined_push(done: Seq<Seq<char>>, row: Seq<char>)
    ensures
        joined(done.push(row)) == if done.len() == 0 {
            row
        } else {
            joined(done) + seq!['\n'] + row
        },
{
    assert(done.push(row).drop_last() =~= done);
}

/// Appends a line number, set flush right in three columns.
fn push_gutter(out: &mut String, n: usize)
    ensures
        final(out)@ == old(out)@ + gutter(n as nat),
{
    if n < 10 {
        out.append("  ");
    } else if n < 100 {
        out.append(" ");
    }
    push_decimal(out, n as u64);
    assert(out@ =~= old(out)@ + gutter(n as nat));
}

/// Appends line `n` of `text`, which is its bytes `s..e`, behind its
/// number.
fn push_numbered_line(out: &mut String, text: &str, n: usize, s: usize, e: usize)
    requires
        s <= e <= encode_utf8(text@).len(),
        s == line_start(encode_utf8(text@), n as int),
        e == line_end(encode_utf8(text@), s as int),
        s == 0 || encode_utf8(text@)[s - 1] == NEWLINE,
    ensures
        final(out)@ == old(out)@ + numbered_line(encode_utf8(text@), n as int),
{
    proof {
        let b = encode_utf8(text@);
        encode_utf8_valid_utf8(text@);
        lemma_line_end(b, s as int);
        lemma_boundary_at_ascii(b, s as int);
        lemma_boundary_at_ascii(b, e as int);
    }
    push_gutter(out, n);
    out.append(" | ");
    out.append(slice_text(text, s, e));
    assert(out@ =~= old(out)@ + numbered_line(encode_utf8(text@), n as int));
}

/// Appends, on a line of its own, the underline for line `n`, if it has
/// one.
fn push_band(out: &mut String, sl: usize, sp: usize, el: usize, ep: usize, n: usize, len: usize)
    requires
        len < usize::MAX,
        n == sl && n == el ==> sp <= ep <= len,
        n == sl ==> sp <= len,
        n == el ==> ep <= len,
    ensures
        final(out)@ == match band_of(
            sl as int,
            sp as int,
            el as int,
            ep as int,
            n as int,
            len as int,
        ) {
            Some(under) => old(out)@ + seq!['\n'] + under,
            None => old(out)@,
        },
{
    if n == sl && n == el {
        push_char(out, '\n');
        out.append("    | ");
        push_repeat(out, ' ', sp);
        push_repeat(out, '^', ep - sp + 1);
        assert(out@ =~= old(out)@ + seq!['\n'] + ("    | "@ + repeat(' ', sp as nat) + repeat(
            '^',
            (ep - sp + 1) as nat,
        )));
    } else if n == sl {
        push_char(out, '\n');
        out.append("    | ");
        push_repeat(out, ' ', sp);
        push_repeat(out, '^', len - sp + 1);
        assert(out@ =~= old(out)@ + seq!['\n'] + ("    | "@ + repeat(' ', sp as nat) + repeat(
            '^',
            (len - sp + 1) as nat,
        )));
    } else if n == el {
        push_char(out, '\n');
        out.append("    | ");
        push_repeat(out, '^', ep + 1);
        push_repeat(out, ' ', len - ep);
        assert(out@ =~= old(out)@ + seq!['\n'] + ("    | "@ + repeat('^', (ep + 1) as nat)
            + repeat(' ', (len - ep) as nat)));
    } else if n > sl && n < el {
        push_char(out, '\n');
        out.append("    | ");
        push_repeat(out, '^', len);
        assert(out@ =~= old(out)@ + seq!['\n'] + ("    | "@ + repeat('^', len as nat)));
    }
}

/// What the text of the lines put together becomes when the lines shown
/// for one more line are put behind them.
proof fn lemma_joined_shown(done: Seq<Seq<char>>, b: Seq<u8>, start: int, end: int, n: int)
    ensures
        joined(done + shown(b, start, end, n)) == {
            let head = if done.len() == 0 {
                numbered_line(b, n)
            } else {
                joined(done) + seq!['\n'] + numbered_line(b, n)
            };
            match band(b, start, end, n) {
                Some(under) => head + seq!['\n'] + under,
                None => head,
            }
        },
{
    let row = numbered_line(b, n);
    lemma_joined_push(done, row);
    match band(b, start, end, n) {
        Some(under) => {
            lemma_joined_push(done.push(row), under);
            assert(done + shown(b, start, end, n) =~= done.push(row).push(under));
        },
        None => {
            assert(done + shown(b, start, end, n) =~= done.push(row));
        },
    }
}

/// The excerpt of `text` for the span `start..=end`, with up to `line_pad`
/// lines shown above and below it.
pub fn render_excerpt(text: &str, start: usize, end: usize, line_pad: usize) -> (res: String)
    requires
        start <= end <= encode_utf8(text@).len(),
        encode_utf8(text@).len() < usize::MAX,
    ensures
        res@ == joined(excerpt(encode_utf8(text@), start as int, end as int, line_pad as int)),
{
    let b = text.as_bytes();
    let (sl, sp) = position(b, start);
    let (el, ep) = position(b, end);
    let lo: usize = if sl > line_pad {
        sl - line_pad
    } else {
        1
    };
    let stop: usize = el.saturating_add(line_pad);
    let ghost hi = last_shown(b@, end as int, line_pad as int);
    proof {
        lemma_line_begin(b@, start as int);
        lemma_line_begin(b@, end as int);
        lemma_line_begin(b@, b@.len() as int);
        lemma_line_number_grows(b@, start as int, end as int);
        lemma_line_number_grows(b@, end as int, b@.len() as int);
        lemma_line_start_of_number(b@, start as int);
        lemma_line_start_of_number(b@, end as int);
        lemma_offset_in_line(b@, start as int);
        lemma_offset_in_line(b@, end as int);
        if sl == el {
            lemma_same_line_columns(b@, start as int, end as int);
        }
    }
    let mut i: usize = 1;
    let mut s: usize = 0;
    while i < lo
        invariant
            1 <= i <= lo <= sl,
            s <= start <= b@.len(),
            s == line_start(b@, i as int),
            i == line_number(b@, s as int),
            sl == line_number(b@, start as int),
            s == 0 || b@[s - 1] == NEWLINE,
        decreases lo - i,
    {
        let e = end_of_line(b, s);
        proof {
            lemma_line_end(b@, s as int);
            if e >= start {
                lemma_unbroken_same_line(b@, s as int, start as int);
            }
            lemma_unbroken_same_line(b@, s as int, e as int);
        }
        s = e + 1;
        i += 1;
    }
    let mut out = String::new();
    let ghost mut done: Seq<Seq<char>> = Seq::empty();
    loop
        invariant
            b@ == encode_utf8(text@),
            start <= end <= b@.len() < usize::MAX,
            lo <= i <= stop,
            i <= hi <= line_count(b@) <= b@.len() + 1,
            hi <= el + line_pad,
            hi == last_shown(b@, end as int, line_pad as int),
            stop == if el + line_pad <= usize::MAX {
                el + line_pad
            } else {
                usize::MAX as int
            },
            s <= b@.len(),
            s == line_start(b@, i as int),
            i == line_number(b@, s as int),
            s == 0 || b@[s - 1] == NEWLINE,
            sl == line_number(b@, start as int),
            sp == column(b@, start as int),
            el == line_number(b@, end as int),
            ep == column(b@, end as int),
            line_start(b@, sl as int) == line_begin(b@, start as int),
            line_start(b@, el as int) == line_begin(b@, end as int),
            start <= line_end(b@, line_begin(b@, start as int)),
            end <= line_end(b@, line_begin(b@, end as int)),
            sl == el ==> sp <= ep,
            out@ == joined(done),
            done.len() == 0 <==> i == lo,
            done + shown_from(b@, start as int, end as int, i as int, hi) == excerpt(
                b@,
                start as int,
                end as int,
                line_pad as int,
            ),
        decreases b@.len() - s,
    {
        let e = end_of_line(b, s);
        proof {
            lemma_line_end(b@, s as int);
            lemma_unbroken_same_line(b@, s as int, e as int);
            lemma_joined_shown(done, b@, start as int, end as int, i as int);
            assert(done + shown_from(b@, start as int, end as int, i as int, hi) =~= (done
                + shown(b@, start as int, end as int, i as int)) + shown_from(
                b@,
                start as int,
                end as int,
                i + 1,
                hi,
            ));
        }
        if i > lo {
            push_char(&mut out, '\n');
        }
        push_numbered_line(&mut out, text, i, s, e);
        push_band(&mut out, sl, sp, el, ep, i, e - s);
        proof {
            done = done + shown(b@, start as int, end as int, i as int);
        }
        assert(out@ =~= joined(done));
        if e == b.len() || i >= stop {
            proof {
                assert(hi == i);
                assert(done + Seq::<Seq<char>>::empty() =~= done);
            }
            return out;
        }
        proof {
            lemma_line_number_grows(b@, e + 1, b@.len() as int);
        }
        s = e + 1;
        i += 1;
    }
}

} // verus!
