//! Splitting a source text into tokens.
//!
//! Blanks separate tokens. A word of letters, digits and `_` that begins
//! with no digit is a name, or a boolean if it is `true` or `false`. Digits
//! are an integer, digits with a point between them a floating-point
//! number. A text between double quotes is a string, one character between
//! single quotes a character; in both a backslash gives the next character
//! a special meaning. Any other printable character is a particle.

use vstd::prelude::*;
use std::rc::Rc;
use crate::source::{ParseError, ParseET, ParseETView, ParseErrorView, Source, SourceIter, Span};
use crate::text::push_char;
use crate::tokens::tokens::{
    token_views, Literal, LiteralView, NumLit, NumLitView, Token, TokenType, TokenTypeView,
    TokenView,
};

verus! {

/// The text as the cursor reads it: for each byte the character with its
/// number.
pub open spec fn units(b: Seq<u8>) -> Seq<char> {
    Seq::new(b.len(), |i: int| b[i] as char)
}

/// A character that stands between tokens.
pub open spec fn blank(c: char) -> bool {
    c == ' ' || c == '\t' || c == '\r' || c == '\n'
}

/// A character that can begin a word.
pub open spec fn letter(c: char) -> bool {
    ('a' <= c <= 'z') || ('A' <= c <= 'Z') || c == '_'
}

/// A decimal digit.
pub open spec fn numeral(c: char) -> bool {
    '0' <= c <= '9'
}

/// A character that can stand in a word.
pub open spec fn word_char(c: char) -> bool {
    letter(c) || numeral(c)
}

/// A printable character that begins no word, number or quoted text.
pub open spec fn symbol(c: char) -> bool {
    '!' <= c <= '~' && !word_char(c) && c != '"' && c != '\''
}

/// Where the run of word characters that starts at `i` ends.
pub open spec fn word_end(t: Seq<char>, i: int) -> int
    decreases t.len() - i,
{
    if 0 <= i < t.len() && word_char(t[i]) {
        word_end(t, i + 1)
    } else {
        i
    }
}

/// Where the run of digits that starts at `i` ends.
pub open spec fn digits_end(t: Seq<char>, i: int) -> int
    decreases t.len() - i,
{
    if 0 <= i < t.len() && numeral(t[i]) {
        digits_end(t, i + 1)
    } else {
        i
    }
}

/// The number that the digits `from..to` write.
pub open spec fn number_of(t: Seq<char>, from: int, to: int) -> nat
    decreases to - from,
{
    if to <= from {
        0
    } else {
        (number_of(t, from, to - 1) * 10 + (t[to - 1] as u32 - 48)) as nat
    }
}

/// The character that a backslash and `c` stand for.
pub open spec fn escape(c: char) -> Option<char> {
    if c == 'n' {
        Some('\n')
    } else if c == 't' {
        Some('\t')
    } else if c == 'r' {
        Some('\r')
    } else if c == '0' {
        Some('\0')
    } else if c == '\\' || c == '"' || c == '\'' {
        Some(c)
    } else {
        None
    }
}

/// How the reading of a quoted text ends: with its characters and the
/// place of the closing quote, at the end of the text before any closing
/// quote, or at a backslash before a character that has no meaning there.
pub enum Quoted {
    Closed(Seq<char>, int),
    Unclosed,
    BadEscape(int),
}

/// The quoted text whose first character stands at `i`.
pub open spec fn quoted(t: Seq<char>, i: int, close: char) -> Quoted
    decreases t.len() - i,
{
    if i < 0 || i >= t.len() {
        Quoted::Unclosed
    } else if t[i] == close {
        Quoted::Closed(Seq::empty(), i)
    } else if t[i] == '\\' {
        if i + 1 >= t.len() {
            Quoted::Unclosed
        } else {
            match escape(t[i + 1]) {
                None => Quoted::BadEscape(i),
                Some(c) => match quoted(t, i + 2, close) {
                    Quoted::Closed(s, e) => Quoted::Closed(seq![c] + s, e),
                    other => other,
                },
            }
        }
    } else {
        match quoted(t, i + 1, close) {
            Quoted::Closed(s, e) => Quoted::Closed(seq![t[i]] + s, e),
            other => other,
        }
    }
}

/// The span of the bytes `start..=end`.
pub open spec fn span_of(src: Rc<Source>, start: int, end: int) -> Span {
    Span { source: src, start: start as usize, end: end as usize }
}

/// The failure for a quoted text that the end of the source cuts short.
pub open spec fn unclosed(src: Rc<Source>, doing: Seq<char>) -> ParseErrorView {
    let n = src.bytes().len() as int;
    ParseETView::EOF.at(span_of(src, n, n)).when("getting char"@).when(doing)
}

/// The failure for a backslash at `at` before a character that has no
/// meaning behind it.
pub open spec fn bad_escape(src: Rc<Source>, at: int, close: char) -> ParseErrorView {
    let lit = if close == '"' {
        LiteralView::String(Seq::empty())
    } else {
        LiteralView::Char('\\')
    };
    ParseETView::ParseLiteralError(lit, "unknown escape"@).at(span_of(src, at, at + 1))
}

/// What is being read between quotes of the kind `close`.
pub open spec fn reading(close: char) -> Seq<char> {
    if close == '"' {
        "reading a string literal"@
    } else {
        "reading a character literal"@
    }
}

/// What a word is: a boolean or a name.
pub open spec fn word_token(w: Seq<char>) -> TokenTypeView {
    if w == "true"@ {
        TokenTypeView::Literal(LiteralView::Bool(true))
    } else if w == "false"@ {
        TokenTypeView::Literal(LiteralView::Bool(false))
    } else {
        TokenTypeView::Ident(w)
    }
}

/// The token that begins at `i`, where no blank stands, and the place
/// behind it.
pub open spec fn token_from(src: Rc<Source>, i: int) -> Result<(TokenTypeView, int), ParseErrorView> {
    let t = units(src.bytes());
    let c = t[i];
    if letter(c) {
        Ok((word_token(t.subrange(i, word_end(t, i))), word_end(t, i)))
    } else if numeral(c) {
        let e = digits_end(t, i);
        if e + 1 < t.len() && t[e] == '.' && numeral(t[e + 1]) {
            let f = digits_end(t, e + 1);
            Ok((TokenTypeView::Literal(LiteralView::Number(NumLitView::Float(t.subrange(i, f)))), f))
        } else if number_of(t, i, e) <= u64::MAX {
            Ok(
                (
                    TokenTypeView::Literal(
                        LiteralView::Number(NumLitView::Integer(number_of(t, i, e) as u64)),
                    ),
                    e,
                ),
            )
        } else {
            Err(
                ParseETView::ParseLiteralError(
                    LiteralView::Number(NumLitView::Integer(0)),
                    "integer does not fit in 64 bits"@,
                ).at(span_of(src, i, e - 1)),
            )
        }
    } else if c == '"' {
        match quoted(t, i + 1, '"') {
            Quoted::Closed(s, e) => Ok((TokenTypeView::Literal(LiteralView::String(s)), e + 1)),
            Quoted::Unclosed => Err(unclosed(src, reading('"'))),
            Quoted::BadEscape(at) => Err(bad_escape(src, at, '"')),
        }
    } else if c == '\'' {
        match quoted(t, i + 1, '\'') {
            Quoted::Closed(s, e) => if s.len() == 1 {
                Ok((TokenTypeView::Literal(LiteralView::Char(s[0])), e + 1))
            } else {
                Err(
                    ParseETView::ParseLiteralError(
                        LiteralView::Char('\''),
                        "a character literal holds one character"@,
                    ).at(span_of(src, i, e)),
                )
            },
            Quoted::Unclosed => Err(unclosed(src, reading('\''))),
            Quoted::BadEscape(at) => Err(bad_escape(src, at, '\'')),
        }
    } else if symbol(c) {
        Ok((TokenTypeView::Particle(c), i + 1))
    } else {
        Err(ParseETView::TokenizationError("unexpected character"@).at(span_of(src, i, i)))
    }
}

/// The tokens of the text from `i` on, each with the span of its bytes.
pub open spec fn lexed_from(src: Rc<Source>, i: int) -> Result<Seq<TokenView>, ParseErrorView>
    decreases src.bytes().len() - i,
{
    let t = units(src.bytes());
    if i < 0 || i >= t.len() {
        Ok(Seq::empty())
    } else if blank(t[i]) {
        lexed_from(src, i + 1)
    } else {
        match token_from(src, i) {
            Err(e) => Err(e),
            // a token takes at least one byte and none that is not there
            Ok((tt, end)) => if i < end <= t.len() {
                match lexed_from(src, end) {
                    Err(e) => Err(e),
                    Ok(rest) => Ok(seq![TokenView { tt, loc: span_of(src, i, end - 1) }] + rest),
                }
            } else {
                Ok(Seq::empty())
            },
        }
    }
}

/// The tokens of a source text.
pub open spec fn lexed(src: Rc<Source>) -> Result<Seq<TokenView>, ParseErrorView> {
    lexed_from(src, 0)
}

/// Tokens behind those already read.
pub open spec fn lexed_after(done: Seq<TokenView>, rest: Result<Seq<TokenView>, ParseErrorView>) -> Result<
    Seq<TokenView>,
    ParseErrorView,
> {
    match rest {
        Err(e) => Err(e),
        Ok(more) => Ok(done + more),
    }
}

fn is_blank(c: char) -> (res: bool)
    ensures
        res == blank(c),
{
    c == ' ' || c == '\t' || c == '\r' || c == '\n'
}

fn is_letter(c: char) -> (res: bool)
    ensures
        res == letter(c),
{
    (c >= 'a' && c <= 'z') || (c >= 'A' && c <= 'Z') || c == '_'
}

fn is_numeral(c: char) -> (res: bool)
    ensures
        res == numeral(c),
{
    c >= '0' && c <= '9'
}

fn is_symbol(c: char) -> (res: bool)
    ensures
        res == symbol(c),
{
    c >= '!' && c <= '~' && !is_letter(c) && !is_numeral(c) && c != '"' && c != '\''
}

/// The character that a backslash and `c` stand for.
fn unescape(c: char) -> (res: Option<char>)
    ensures
        res == escape(c),
{
    if c == 'n' {
        Some('\n')
    } else if c == 't' {
        Some('\t')
    } else if c == 'r' {
        Some('\r')
    } else if c == '0' {
        Some('\0')
    } else if c == '\\' || c == '"' || c == '\'' {
        Some(c)
    } else {
        None
    }
}

/// The character under the cursor, if the cursor is in the text.
fn under(it: &SourceIter) -> (res: Option<char>)
    ensures
        res == if it.index < it.source.bytes().len() {
            Some(units(it.source.bytes())[it.index as int])
        } else {
            None
        },
{
    match it.this() {
        Ok(c) => Some(c),
        Err(_) => None,
    }
}

/// Steps over one character that is known to be there.
fn step(it: &mut SourceIter)
    requires
        old(it).index < old(it).source.bytes().len(),
    ensures
        final(it).source == old(it).source,
        final(it).index == old(it).index + 1,
{
    let n = it.len();
    it.next();
}

/// Reads the run of word characters under the cursor.
fn read_word(it: &mut SourceIter) -> (res: String)
    requires
        old(it).index <= old(it).source.bytes().len(),
    ensures
        final(it).source == old(it).source,
        final(it).index == word_end(units(old(it).source.bytes()), old(it).index as int),
        old(it).index <= final(it).index <= old(it).source.bytes().len(),
        res@ == units(old(it).source.bytes()).subrange(
            old(it).index as int,
            final(it).index as int,
        ),
{
    let ghost t = units(it.source.bytes());
    let mut out = String::new();
    assert(out@ =~= t.subrange(it.index as int, it.index as int));
    loop
        invariant
            it.source == old(it).source,
            t == units(it.source.bytes()),
            old(it).index <= it.index <= t.len(),
            word_end(t, old(it).index as int) == word_end(t, it.index as int),
            out@ == t.subrange(old(it).index as int, it.index as int),
        decreases t.len() - it.index,
    {
        match under(it) {
            Some(c) => {
                if is_letter(c) || is_numeral(c) {
                    push_char(&mut out, c);
                    step(it);
                    assert(out@ =~= t.subrange(old(it).index as int, it.index as int));
                } else {
                    return out;
                }
            },
            None => {
                return out;
            },
        }
    }
}

/// Reads the run of digits under the cursor, appends them to `out`, and
/// gives the number they write if it fits in 64 bits.
fn read_digits(it: &mut SourceIter, out: &mut String) -> (res: Option<u64>)
    requires
        old(it).index <= old(it).source.bytes().len(),
    ensures
        final(it).source == old(it).source,
        final(it).index == digits_end(units(old(it).source.bytes()), old(it).index as int),
        old(it).index <= final(it).index <= old(it).source.bytes().len(),
        final(out)@ == old(out)@ + units(old(it).source.bytes()).subrange(
            old(it).index as int,
            final(it).index as int,
        ),
        res == if number_of(
            units(old(it).source.bytes()),
            old(it).index as int,
            final(it).index as int,
        ) <= u64::MAX {
            Some(
                number_of(
                    units(old(it).source.bytes()),
                    old(it).index as int,
                    final(it).index as int,
                ) as u64,
            )
        } else {
            None
        },
{
    let ghost t = units(it.source.bytes());
    let mut value: Option<u64> = Some(0);
    assert(out@ =~= old(out)@ + t.subrange(it.index as int, it.index as int));
    loop
        invariant
            it.source == old(it).source,
            t == units(it.source.bytes()),
            old(it).index <= it.index <= t.len(),
            digits_end(t, old(it).index as int) == digits_end(t, it.index as int),
            out@ == old(out)@ + t.subrange(old(it).index as int, it.index as int),
            value == if number_of(t, old(it).index as int, it.index as int) <= u64::MAX {
                Some(number_of(t, old(it).index as int, it.index as int) as u64)
            } else {
                None
            },
        decreases t.len() - it.index,
    {
        match under(it) {
            Some(c) => {
                if is_numeral(c) {
                    let d: u64 = (c as u32 - 48) as u64;
                    value =
                    match value {
                        Some(v) => if v <= (u64::MAX - d) / 10 {
                            Some(v * 10 + d)
                        } else {
                            None
                        },
                        None => None,
                    };
                    push_char(out, c);
                    step(it);
                    assert(out@ =~= old(out)@ + t.subrange(old(it).index as int, it.index as int));
                } else {
                    return value;
                }
            },
            None => {
                return value;
            },
        }
    }
}

/// A quoted text behind the characters already read.
pub open spec fn quoted_after(done: Seq<char>, rest: Quoted) -> Quoted {
    match rest {
        Quoted::Closed(s, e) => Quoted::Closed(done + s, e),
        other => other,
    }
}

/// Reads a quoted text, the cursor standing behind the opening quote, up
/// to and with the closing quote.
fn read_quoted(it: &mut SourceIter, close: char) -> (res: Result<String, ParseError>)
    requires
        old(it).index <= old(it).source.bytes().len(),
    ensures
        final(it).source == old(it).source,
        match quoted(units(old(it).source.bytes()), old(it).index as int, close) {
            Quoted::Closed(s, e) => res is Ok && res->Ok_0@ == s && final(it).index == e + 1
                && old(it).index <= e < old(it).source.bytes().len(),
            Quoted::Unclosed => res is Err && res->Err_0@ == unclosed(
                old(it).source,
                reading(close),
            ),
            Quoted::BadEscape(at) => res is Err && res->Err_0@ == bad_escape(
                old(it).source,
                at,
                close,
            ),
        },
{
    let ghost t = units(it.source.bytes());
    let doing = if close == '"' {
        "reading a string literal"
    } else {
        "reading a character literal"
    };
    let mut out = String::new();
    loop
        invariant
            it.source == old(it).source,
            t == units(it.source.bytes()),
            old(it).index <= it.index <= t.len(),
            doing@ == reading(close),
            quoted(t, old(it).index as int, close) == quoted_after(
                out@,
                quoted(t, it.index as int, close),
            ),
        decreases t.len() - it.index,
    {
        let ghost before = out@;
        let ghost rest = quoted(t, it.index as int, close);
        let c = match it.this() {
            Ok(c) => c,
            Err(e) => return Err(e.when(doing)),
        };
        if c == close {
            step(it);
            assert(out@ + Seq::<char>::empty() =~= out@);
            return Ok(out);
        }
        if c == '\\' {
            let at = it.index;
            step(it);
            let d = match it.this() {
                Ok(d) => d,
                Err(e) => return Err(e.when(doing)),
            };
            match unescape(d) {
                Some(x) => {
                    push_char(&mut out, x);
                    step(it);
                    proof {
                        if let Quoted::Closed(s, e) = quoted(t, it.index as int, close) {
                            assert(before.push(x) + s =~= before + (seq![x] + s));
                        }
                    }
                },
                None => {
                    let lit = if close == '"' {
                        Literal::String(String::new())
                    } else {
                        Literal::Char('\\')
                    };
                    let here = it.here();
                    return Err(
                        ParseET::ParseLiteralError(lit, "unknown escape".to_owned()).at(
                            Span { source: here.0, start: at, end: at + 1 },
                        ),
                    );
                },
            }
        } else {
            push_char(&mut out, c);
            step(it);
            proof {
                if let Quoted::Closed(s, e) = quoted(t, it.index as int, close) {
                    assert(before.push(c) + s =~= before + (seq![c] + s));
                }
            }
        }
    }
}

proof fn lemma_runs_go_forward(t: Seq<char>, i: int)
    ensures
        word_end(t, i) >= i,
        digits_end(t, i) >= i,
        0 <= i <= t.len() ==> word_end(t, i) <= t.len() && digits_end(t, i) <= t.len(),
    decreases t.len() - i,
{
    if 0 <= i < t.len() {
        lemma_runs_go_forward(t, i + 1);
    }
}

proof fn lemma_quoted_closes_inside(t: Seq<char>, i: int, close: char)
    requires
        0 <= i,
        quoted(t, i, close) is Closed,
    ensures
        i <= quoted(t, i, close)->Closed_1 < t.len(),
    decreases t.len() - i,
{
    if i < t.len() && t[i] != close {
        if t[i] == '\\' {
            lemma_quoted_closes_inside(t, i + 2, close);
        } else {
            lemma_quoted_closes_inside(t, i + 1, close);
        }
    }
}

/// A token takes at least one byte and none that is not there.
pub proof fn lemma_token_advances(src: Rc<Source>, i: int)
    requires
        0 <= i < src.bytes().len(),
        token_from(src, i) is Ok,
    ensures
        i < token_from(src, i)->Ok_0.1 <= src.bytes().len(),
{
    let t = units(src.bytes());
    lemma_runs_go_forward(t, i + 1);
    if numeral(t[i]) {
        let e = digits_end(t, i);
        if e + 1 < t.len() && t[e] == '.' && numeral(t[e + 1]) {
            lemma_runs_go_forward(t, e + 1);
        }
    } else if t[i] == '"' {
        lemma_quoted_closes_inside(t, i + 1, '"');
    } else if t[i] == '\'' {
        lemma_quoted_closes_inside(t, i + 1, '\'');
    }
}

/// Each token of a text lies in the text: its span belongs to the source,
/// begins at or after the place the reading began at, and ends before the
/// end of the text, its bounds in order.
pub proof fn lemma_tokens_lie_in_text(src: Rc<Source>, i: int, k: int)
    requires
        0 <= i,
        src.bytes().len() <= usize::MAX,
        lexed_from(src, i) is Ok,
        0 <= k < lexed_from(src, i)->Ok_0.len(),
    ensures
        ({
            let loc = lexed_from(src, i)->Ok_0[k].loc;
            &&& loc.source == src
            &&& i <= loc.start <= loc.end < src.bytes().len()
        }),
    decreases src.bytes().len() - i,
{
    let t = units(src.bytes());
    if blank(t[i]) {
        lemma_tokens_lie_in_text(src, i + 1, k);
    } else {
        lemma_token_advances(src, i);
        let end = token_from(src, i)->Ok_0.1;
        if k > 0 {
            lemma_tokens_lie_in_text(src, end, k - 1);
        }
    }
}

/// Reads the token that begins under the cursor.
fn read_token(it: &mut SourceIter) -> (res: Result<TokenType, ParseError>)
    requires
        old(it).index < old(it).source.bytes().len(),
    ensures
        final(it).source == old(it).source,
        match token_from(old(it).source, old(it).index as int) {
            Ok((tt, end)) => res is Ok && res->Ok_0@ == tt && final(it).index == end && old(
                it,
            ).index < end <= old(it).source.bytes().len(),
            Err(e) => res is Err && res->Err_0@ == e,
        },
{
    let ghost t = units(it.source.bytes());
    let start = it.index;
    let c = match it.this() {
        Ok(c) => c,
        Err(e) => return Err(e),
    };
    proof {
        lemma_runs_go_forward(t, start + 1);
    }
    if is_letter(c) {
        let word = read_word(it);
        if crate::text::same_text(word.as_str(), "true") {
            Ok(TokenType::Literal(Literal::Bool(true)))
        } else if crate::text::same_text(word.as_str(), "false") {
            Ok(TokenType::Literal(Literal::Bool(false)))
        } else {
            Ok(TokenType::Ident(word))
        }
    } else if is_numeral(c) {
        let mut text = String::new();
        let value = read_digits(it, &mut text);
        let ghost e = it.index as int;
        let point = match under(it) {
            Some(p) => p == '.',
            None => false,
        };
        let digit_behind = point && match it.peek() {
            Ok(d) => is_numeral(d),
            Err(_) => false,
        };
        if digit_behind {
            push_char(&mut text, '.');
            step(it);
            read_digits(it, &mut text);
            assert(text@ =~= t.subrange(start as int, it.index as int));
            Ok(TokenType::Literal(Literal::Number(NumLit::Float(text))))
        } else {
            match value {
                Some(n) => Ok(TokenType::Literal(Literal::Number(NumLit::Integer(n)))),
                None => {
                    let here = it.here();
                    Err(
                        ParseET::ParseLiteralError(
                            Literal::Number(NumLit::Integer(0)),
                            "integer does not fit in 64 bits".to_owned(),
                        ).at(Span { source: here.0, start, end: it.index - 1 }),
                    )
                },
            }
        }
    } else if c == '"' {
        step(it);
        match read_quoted(it, '"') {
            Ok(s) => Ok(TokenType::Literal(Literal::String(s))),
            Err(e) => Err(e),
        }
    } else if c == '\'' {
        step(it);
        match read_quoted(it, '\'') {
            Ok(s) => {
                let v = crate::inclusion::chars_of(s.as_str());
                if v.len() == 1 {
                    Ok(TokenType::Literal(Literal::Char(v[0])))
                } else {
                    let here = it.here();
                    Err(
                        ParseET::ParseLiteralError(
                            Literal::Char('\''),
                            "a character literal holds one character".to_owned(),
                        ).at(Span { source: here.0, start, end: it.index - 1 }),
                    )
                }
            },
            Err(e) => Err(e),
        }
    } else if is_symbol(c) {
        step(it);
        Ok(TokenType::Particle(c))
    } else {
        let here = it.here();
        Err(
            ParseET::TokenizationError("unexpected character".to_owned()).at(
                Span { source: here.0, start, end: start },
            ),
        )
    }
}

/// Splits a source text into its tokens, each with the span of its bytes.
pub fn tokenize(source: Source) -> (res: Result<Vec<Token>, ParseError>)
    ensures
        match lexed(Rc::new(source)) {
            Ok(ts) => res is Ok && token_views(res->Ok_0@) == ts,
            Err(e) => res is Err && res->Err_0@ == e,
        },
{
    let mut it = SourceIter::new(source);
    let ghost src = it.source;
    let mut tokens: Vec<Token> = Vec::new();
    assert(token_views(tokens@) =~= Seq::empty());
    loop
        invariant
            it.source == src,
            src == source,
            it.index <= src.bytes().len(),
            lexed(src) == lexed_after(token_views(tokens@), lexed_from(src, it.index as int)),
        decreases src.bytes().len() - it.index,
    {
        let c = match under(&it) {
            Some(c) => c,
            None => {
                assert(token_views(tokens@) + Seq::<TokenView>::empty() =~= token_views(tokens@));
                return Ok(tokens);
            },
        };
        if is_blank(c) {
            step(&mut it);
        } else {
            let start = it.index;
            let tt = match read_token(&mut it) {
                Ok(tt) => tt,
                Err(e) => return Err(e),
            };
            let here = it.here();
            let token = Token { tt, loc: Span { source: here.0, start, end: it.index - 1 } };
            proof {
                if let Ok(rest) = lexed_from(src, it.index as int) {
                    assert(token_views(tokens@.push(token)) + rest =~= token_views(tokens@) + (
                    seq![token@] + rest));
                }
            }
            tokens.push(token);
        }
    }
}

} // verus!
