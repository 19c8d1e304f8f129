//! Source text, positions and spans in it, and located parse errors.

use vstd::prelude::*;
use vstd::string::StringExecFns;
use vstd::utf8::encode_utf8;
use std::rc::Rc;
use crate::excerpt::{column, excerpt, joined, render_excerpt};
use crate::lines::{line_number, position};
use crate::text::{decimal, push_decimal};
use crate::tokens::tokens::{Literal, LiteralView, NumLit, NumLitView};

verus! {

/// Where a source text came from.
#[derive(Debug, PartialEq, Eq)]
pub enum SourceType {
    File(String),
    String,
}

/// A source text and its origin. It is shared, never copied.
#[derive(Debug, PartialEq, Eq)]
pub struct Source {
    pub st: SourceType,
    pub source: String,
}

impl SourceType {
    /// How the origin is named in a message.
    pub open spec fn label(&self) -> Seq<char> {
        match self {
            SourceType::File(path) => path@,
            SourceType::String => "<string>"@,
        }
    }

    /// The origin as a message names it: the path of a file, or a fixed
    /// word for a text that came from no file.
    pub fn describe(&self) -> (res: String)
        ensures
            res@ == self.label(),
    {
        match self {
            SourceType::File(path) => path.clone(),
            SourceType::String => String::from_str("<string>"),
        }
    }
}

impl Source {
    /// The text as the bytes that offsets count.
    pub open spec fn bytes(&self) -> Seq<u8> {
        encode_utf8(self.source@)
    }

    /// A source text that came from no file.
    pub fn from_string(source: String) -> (res: Self)
        ensures
            res.st == SourceType::String,
            res.source == source,
    {
        Self { st: SourceType::String, source }
    }

    /// A source text read from the file at `path`.
    pub fn from_file_text(path: String, source: String) -> (res: Self)
        ensures
            res.st == SourceType::File(path),
            res.source == source,
    {
        Self { st: SourceType::File(path), source }
    }
}

/// A cursor over the bytes of a source text.
#[derive(Debug)]
pub struct SourceIter {
    pub source: Rc<Source>,
    pub index: usize,
}

impl SourceIter {
/// A cursor at the start of `source`.
    pub fn new(source: Source) -> (res: Self)
        ensures
            res.source == source,
            res.index == 0,
    {
        Self { source: Rc::new(source), index: 0 }
    }

    /// The failure for reading where the text has ended.
    pub open spec fn past_end(&self) -> ParseErrorView {
        ParseETView::EOF.at(
            Span { source: self.source, start: self.index, end: self.index },
        ).when("getting char"@)
    }

    /// The character at offset `index`, if the text reaches that far.
    pub open spec fn char_at(&self, index: int) -> Result<char, ParseErrorView> {
        if 0 <= index < self.source.bytes().len() {
            Ok(self.source.bytes()[index] as char)
        } else {
            Err(self.past_end())
        }
    }

    /// The byte at offset `index`, as a character.
    pub fn get(&self, index: usize) -> (res: Result<char, ParseError>)
        ensures
            matches_outcome(res, self.char_at(index as int)),
    {
        let b = self.source.source.as_str().as_bytes();
        if index >= b.len() {
            Err(ParseET::EOF.at(self.here().span()).when("getting char"))
        } else {
            Ok(b[index] as char)
        }
    }

    /// The length of the text in bytes.
    pub fn len(&self) -> (res: usize)
        ensures
            res == self.source.bytes().len(),
    {
        self.source.source.as_str().as_bytes().len()
    }

    /// How many bytes lie at or after the cursor.
    pub fn left(&self) -> (res: usize)
        requires
            self.index <= self.source.bytes().len(),
        ensures
            res == self.source.bytes().len() - self.index,
    {
        self.source.source.as_str().as_bytes().len() - self.index
    }

    /// The byte under the cursor.
    pub fn this(&self) -> (res: Result<char, ParseError>)
        ensures
            matches_outcome(res, self.char_at(self.index as int)),
    {
        self.get(self.index)
    }

    /// The place of the cursor.
    pub fn here(&self) -> (res: CodePoint)
        ensures
            res == CodePoint(self.source, self.index),
    {
        CodePoint(share(&self.source), self.index)
    }

    /// Moves the cursor one byte on.
    pub fn next(&mut self)
        requires
            old(self).index < usize::MAX,
        ensures
            final(self).source == old(self).source,
            final(self).index == old(self).index + 1,
    {
        self.index += 1;
    }

    /// The byte after the one under the cursor.
    pub fn peek(&self) -> (res: Result<char, ParseError>)
        ensures
            matches_outcome(res, self.char_at(self.index + 1)),
    {
        if self.index >= self.len() {
            Err(ParseET::EOF.at(self.here().span()).when("getting char"))
        } else {
            self.get(self.index + 1)
        }
    }

    /// The byte `n` places from the cursor, before it where `n` is
    /// negative.
    pub fn peekn(&self, n: isize) -> (res: Result<char, ParseError>)
        ensures
            matches_outcome(res, self.char_at(self.index + n)),
    {
        let len = self.len();
        if n >= 0 {
            let m = n as usize;
            if self.index >= len || m >= len - self.index {
                Err(ParseET::EOF.at(self.here().span()).when("getting char"))
            } else {
                self.get(self.index + m)
            }
        } else {
            let m = (-(n + 1)) as usize;
            if m >= self.index {
                Err(ParseET::EOF.at(self.here().span()).when("getting char"))
            } else {
                self.get(self.index - m - 1)
            }
        }
    }
}

/// `Rc::clone`: a second handle to the same allocation, so the value behind
/// the result is the value behind the argument.
#[verifier::external_body]
fn share(source: &Rc<Source>) -> (res: Rc<Source>)
    ensures
        res == *source,
{
    Rc::clone(source)
}

/// An offset into a source text.
#[derive(Debug, PartialEq)]
pub struct CodePoint(pub Rc<Source>, pub usize);

impl Clone for CodePoint {
    fn clone(&self) -> (res: Self)
        ensures
            res == *self,
    {
        CodePoint(share(&self.0), self.1)
    }
}

/// A range of offsets in one source text, both ends included when rendered.
#[derive(Debug, PartialEq)]
pub struct Span {
    pub source: Rc<Source>,
    pub start: usize,
    pub end: usize,
}

impl Clone for Span {
    fn clone(&self) -> (res: Self)
        ensures
            res == *self,
    {
        Span { source: share(&self.source), start: self.start, end: self.end }
    }
}

impl CodePoint {
    /// The point lies in its text, and lines can be counted up to it.
    pub open spec fn in_text(&self) -> bool {
        self.1 <= self.0.bytes().len() && self.1 < usize::MAX
    }

    /// The line of the point, counted from one, and its column: the
    /// number of bytes between the start of that line and the point.
    pub fn pos(&self) -> (res: (usize, usize))
        requires
            self.in_text(),
        ensures
            res.0 == line_number(self.0.bytes(), self.1 as int),
            res.1 == column(self.0.bytes(), self.1 as int),
    {
        position(self.0.source.as_str().as_bytes(), self.1)
    }

    /// The empty span at this point.
    pub fn span(self) -> (res: Span)
        ensures
            res == (Span { source: self.0, start: self.1, end: self.1 }),
    {
        Span::single(self)
    }
}

impl Span {
    /// The bounds are in order.
    pub open spec fn wf(&self) -> bool {
        self.start <= self.end
    }

/// The empty span at `p`.
    pub fn single(p: CodePoint) -> (res: Self)
        ensures
            res == (Span { source: p.0, start: p.1, end: p.1 }),
            res.wf(),
    {
        Self { source: p.0, start: p.1, end: p.1 }
    }

    /// The span between two points of one source, whichever comes first.
    pub fn from_points(a: CodePoint, b: CodePoint) -> (res: Self)
        requires
            a.0 == b.0,
        ensures
            res.source == a.0,
            res.start == if a.1 <= b.1 { a.1 } else { b.1 },
            res.end == if a.1 <= b.1 { b.1 } else { a.1 },
            res.wf(),
    {
        let start = if a.1 <= b.1 { a.1 } else { b.1 };
        let end = if a.1 <= b.1 { b.1 } else { a.1 };
        Self { source: a.0, start, end }
    }

/// The first and the last point of the span.
    pub fn bounds(&self) -> (res: (CodePoint, CodePoint))
        ensures
            res.0 == CodePoint(self.source, self.start),
            res.1 == CodePoint(self.source, self.end),
    {
        (CodePoint(share(&self.source), self.start), CodePoint(share(&self.source), self.end))
    }

/// The first point of the span.
    pub fn start(&self) -> (res: CodePoint)
        ensures
            res == CodePoint(self.source, self.start),
    {
        CodePoint(share(&self.source), self.start)
    }

/// The last point of the span.
    pub fn end(&self) -> (res: CodePoint)
        ensures
            res == CodePoint(self.source, self.end),
    {
        CodePoint(share(&self.source), self.end)
    }

    /// The span lies in its text, bounds in order, and lines can be
    /// counted over the whole text.
    pub open spec fn in_text(&self) -> bool {
        self.start <= self.end <= self.source.bytes().len() < usize::MAX
    }

    /// Whether the span lies in its text, so that it can be rendered.
    pub fn is_in_text(&self) -> (res: bool)
        ensures
            res == self.in_text(),
    {
        let n = self.source.source.as_str().as_bytes().len();
        self.start <= self.end && self.end <= n && n < usize::MAX
    }

    /// The excerpt of the text for this span, line by line, with up to
    /// `line_pad` lines above and below it.
    pub open spec fn excerpt(&self, line_pad: int) -> Seq<Seq<char>> {
        excerpt(self.source.bytes(), self.start as int, self.end as int, line_pad)
    }

    /// The lines of the text that the span touches, with up to `line_pad`
    /// lines above and below, each behind its number, and under each line
    /// of the span a band of carets.
    pub fn render_span_code(&self, line_pad: usize) -> (res: String)
        requires
            self.in_text(),
        ensures
            res@ == joined(self.excerpt(line_pad as int)),
    {
        render_excerpt(self.source.source.as_str(), self.start, self.end, line_pad)
    }

    /// The place of the span as a message gives it: the origin of the
    /// text, then line and column of the one point of an empty span, or
    /// of both ends.
    pub open spec fn place(&self) -> Seq<char> {
        let b = self.source.bytes();
        let from = decimal(line_number(b, self.start as int) as nat) + ":"@ + decimal(
            column(b, self.start as int) as nat,
        );
        let to = decimal(line_number(b, self.end as int) as nat) + ":"@ + decimal(
            column(b, self.end as int) as nat,
        );
        if self.start == self.end {
            "\n\nat: "@ + self.source.st.label() + ": "@ + from
        } else {
            "\n\nat: "@ + self.source.st.label() + ": "@ + from + ".."@ + to
        }
    }

    /// Widens the span just enough to hold `p`.
    pub fn extend(&mut self, p: CodePoint)
        requires
            p.0 == old(self).source,
        ensures
            final(self).source == old(self).source,
            final(self).start == if old(self).start <= p.1 { old(self).start } else { p.1 },
            final(self).end == if old(self).end >= p.1 { old(self).end } else { p.1 },
            old(self).wf() ==> final(self).wf(),
    {
        if p.1 < self.start {
            self.start = p.1;
        }
        if p.1 > self.end {
            self.end = p.1;
        }
    }
}

/// The kinds of failure.
#[derive(Debug)]
pub enum ParseET {
    EOF,
    EmptyInput,
    IOError(String),
    TokenizationError(String),
    ParseError(String, String),
    ParseLiteralError(Literal, String),
    VariableError(String),
}

/// A kind of failure with its messages as character sequences.
pub enum ParseETView {
    EOF,
    EmptyInput,
    IOError(Seq<char>),
    TokenizationError(Seq<char>),
    ParseError(Seq<char>, Seq<char>),
    ParseLiteralError(LiteralView, Seq<char>),
    VariableError(Seq<char>),
}

impl View for ParseET {
    type V = ParseETView;

    open spec fn view(&self) -> ParseETView {
        match self {
            ParseET::EOF => ParseETView::EOF,
            ParseET::EmptyInput => ParseETView::EmptyInput,
            ParseET::IOError(e) => ParseETView::IOError(e@),
            ParseET::TokenizationError(e) => ParseETView::TokenizationError(e@),
            ParseET::ParseError(expected, found) => ParseETView::ParseError(expected@, found@),
            ParseET::ParseLiteralError(lit, e) => ParseETView::ParseLiteralError(lit@, e@),
            ParseET::VariableError(e) => ParseETView::VariableError(e@),
        }
    }
}

/// A failure, the place it was found at, and what was being done, outermost
/// activity last.
#[derive(Debug)]
pub struct ParseError {
    pub et: ParseET,
    pub loc: Option<Span>,
    pub context: Vec<String>,
}

/// A failure with its messages as character sequences.
pub struct ParseErrorView {
    pub et: ParseETView,
    pub loc: Option<Span>,
    pub context: Seq<Seq<char>>,
}

/// The word a message has for a kind of literal.
pub open spec fn literal_kind(lit: LiteralView) -> Seq<char> {
    match lit {
        LiteralView::String(_) => "String"@,
        LiteralView::Char(_) => "Char"@,
        LiteralView::Number(NumLitView::Integer(_)) => "Integer"@,
        LiteralView::Number(NumLitView::Float(_)) => "Float"@,
        LiteralView::Bool(_) => "Bool"@,
    }
}

/// The activities of a failure, each on a line of its own.
pub open spec fn context_text(context: Seq<Seq<char>>) -> Seq<char>
    decreases context.len(),
{
    if context.len() == 0 {
        Seq::empty()
    } else {
        context_text(context.drop_last()) + "\n    while "@ + context.last()
    }
}

impl ParseETView {
    /// What the message says of the kind of failure.
    pub open spec fn headline(self) -> Seq<char> {
        match self {
            ParseETView::EOF => "Input error:\n    reached end of file"@,
            ParseETView::EmptyInput => "Input error:\n    input was empty"@,
            ParseETView::IOError(e) => "IO error:\n    "@ + e,
            ParseETView::TokenizationError(e) => "Tokenization error:\n    "@ + e,
            ParseETView::ParseError(expected, found) => "Parsing error:\n    expected "@
                + expected + " found "@ + found,
            ParseETView::ParseLiteralError(lit, e) => literal_kind(lit)
                + " literal parsing error:\n    "@ + e,
            ParseETView::VariableError(e) => "cant find variable:\n    "@ + e,
        }
    }

    /// This kind of failure, with no place and no context yet.
    pub open spec fn error(self) -> ParseErrorView {
        ParseErrorView { et: self, loc: None, context: Seq::empty() }
    }

    /// This kind of failure at `loc`, with no context yet.
    pub open spec fn at(self, loc: Span) -> ParseErrorView {
        ParseErrorView { et: self, loc: Some(loc), context: Seq::empty() }
    }
}

impl ParseErrorView {
    /// The same failure with one more activity recorded.
    pub open spec fn when(self, reason: Seq<char>) -> ParseErrorView {
        ParseErrorView { context: self.context.push(reason), ..self }
    }

    /// The same failure, placed at `loc`.
    pub open spec fn at(self, loc: Span) -> ParseErrorView {
        ParseErrorView { loc: Some(loc), ..self }
    }

    /// The message: the kind of failure, the activities in the order they
    /// were recorded, and for a placed failure the place and an excerpt of
    /// the text around it.
    pub open spec fn text(self) -> Seq<char> {
        self.et.headline() + context_text(self.context) + match self.loc {
            Some(loc) => loc.place() + "\n"@ + joined(loc.excerpt(2)),
            None => Seq::empty(),
        }
    }
}

/// The character sequences of a list of strings.
pub open spec fn texts(v: Seq<String>) -> Seq<Seq<char>> {
    Seq::new(v.len(), |i: int| v[i]@)
}

impl View for ParseError {
    type V = ParseErrorView;

    open spec fn view(&self) -> ParseErrorView {
        ParseErrorView { et: self.et@, loc: self.loc, context: texts(self.context@) }
    }
}

impl ParseET {
    fn push_headline(&self, out: &mut String)
        ensures
            final(out)@ == old(out)@ + self@.headline(),
    {
        match self {
            ParseET::EOF => {
                out.append("Input error:\n    reached end of file");
            },
            ParseET::EmptyInput => {
                out.append("Input error:\n    input was empty");
            },
            ParseET::IOError(e) => {
                out.append("IO error:\n    ");
                out.append(e.as_str());
            },
            ParseET::TokenizationError(e) => {
                out.append("Tokenization error:\n    ");
                out.append(e.as_str());
            },
            ParseET::ParseError(expected, found) => {
                out.append("Parsing error:\n    expected ");
                out.append(expected.as_str());
                out.append(" found ");
                out.append(found.as_str());
            },
            ParseET::ParseLiteralError(lit, e) => {
                match lit {
                    Literal::String(_) => out.append("String"),
                    Literal::Char(_) => out.append("Char"),
                    Literal::Number(NumLit::Integer(_)) => out.append("Integer"),
                    Literal::Number(NumLit::Float(_)) => out.append("Float"),
                    Literal::Bool(_) => out.append("Bool"),
                }
                out.append(" literal parsing error:\n    ");
                out.append(e.as_str());
            },
            ParseET::VariableError(e) => {
                out.append("cant find variable:\n    ");
                out.append(e.as_str());
            },
        }
        assert(out@ =~= old(out)@ + self@.headline());
    }
}

impl Span {
    fn push_place(&self, out: &mut String)
        requires
            self.in_text(),
        ensures
            final(out)@ == old(out)@ + self.place(),
    {
        let b = self.source.source.as_str().as_bytes();
        let (sl, sp) = position(b, self.start);
        out.append("\n\nat: ");
        match &self.source.st {
            SourceType::File(path) => out.append(path.as_str()),
            SourceType::String => out.append("<string>"),
        }
        out.append(": ");
        push_decimal(out, sl as u64);
        out.append(":");
        push_decimal(out, sp as u64);
        if self.start != self.end {
            let (el, ep) = position(b, self.end);
            out.append("..");
            push_decimal(out, el as u64);
            out.append(":");
            push_decimal(out, ep as u64);
        }
        assert(out@ =~= old(out)@ + self.place());
    }
}

impl ParseError {
    /// Whether the failure can be rendered: it has no place, or a place
    /// that lies in its text.
    pub open spec fn renders(&self) -> bool {
        match self.loc {
            Some(loc) => loc.in_text(),
            None => true,
        }
    }

    /// Whether the failure can be rendered.
    pub fn can_render(&self) -> (res: bool)
        ensures
            res == self.renders(),
    {
        match &self.loc {
            Some(loc) => loc.is_in_text(),
            None => true,
        }
    }

    /// The message for the failure.
    pub fn render(&self) -> (res: String)
        requires
            self.renders(),
        ensures
            res@ == self@.text(),
    {
        let mut out = String::new();
        self.et.push_headline(&mut out);
        let mut i: usize = 0;
        while i < self.context.len()
            invariant
                i <= self.context@.len(),
                out@ == self.et@.headline() + context_text(texts(self.context@).take(i as int)),
            decreases self.context@.len() - i,
        {
            out.append("\n    while ");
            out.append(self.context[i].as_str());
            proof {
                let all = texts(self.context@);
                assert(all.take(i + 1).drop_last() =~= all.take(i as int));
                assert(out@ =~= self.et@.headline() + context_text(all.take(i + 1)));
            }
            i += 1;
        }
        assert(texts(self.context@).take(i as int) =~= texts(self.context@));
        match &self.loc {
            Some(loc) => {
                loc.push_place(&mut out);
                out.append("\n");
                let code = loc.render_span_code(2);
                out.append(code.as_str());
                assert(out@ =~= self@.text());
            },
            None => {
                assert(out@ =~= self@.text());
            },
        }
        out
    }

    /// Records what was being done when the failure surfaced.
    pub fn when(self, reason: &str) -> (res: Self)
        ensures
            res@ == self@.when(reason@),
    {
        let mut e = self;
        e.context.push(reason.to_owned());
        assert(texts(e.context@) =~= texts(self.context@).push(reason@));
        e
    }

    /// Places the failure at `loc`, replacing any earlier place.
    pub fn at(self, loc: Span) -> (res: Self)
        ensures
            res@ == self@.at(loc),
    {
        let mut e = self;
        e.loc = Some(loc);
        e
    }

    /// The failure for an input or output operation that went wrong, from the
    /// message of the operating system.
    pub fn from_io(message: String) -> (res: Self)
        ensures
            res@ == ParseETView::IOError(message@).error().when("doing IO operation"@),
    {
        ParseET::IOError(message).error().when("doing IO operation")
    }
}

impl ParseET {
/// A failure of this kind, with no place and no context yet.
    pub fn error(self) -> (res: ParseError)
        ensures
            res@ == self@.error(),
    {
        let e = ParseError { et: self, loc: None, context: Vec::new() };
        assert(texts(e.context@) =~= Seq::<Seq<char>>::empty());
        e
    }

/// A failure of this kind at `loc`, with no context yet.
    pub fn at(self, loc: Span) -> (res: ParseError)
        ensures
            res@ == self@.at(loc),
    {
        let e = ParseError { et: self, loc: Some(loc), context: Vec::new() };
        assert(texts(e.context@) =~= Seq::<Seq<char>>::empty());
        e
    }
}

/// Whether an outcome is the one that is wanted: the same value, or a
/// failure with the same kind, place and context.
pub open spec fn matches_outcome<T>(got: Result<T, ParseError>, want: Result<T, ParseErrorView>) -> bool {
    match (got, want) {
        (Ok(a), Ok(b)) => a == b,
        (Err(e), Err(f)) => e@ == f,
        _ => false,
    }
}

/// Annotating the failure of an outcome on its way up.
pub trait OnParseErr: Sized {
    /// Whether `res` is this outcome with `reason` added to what was being
    /// done if it is a failure, and this outcome itself if it is none.
    spec fn annotated(self, reason: Seq<char>, res: Self) -> bool;

    /// Whether `res` is this outcome placed at `loc` if it is a failure,
    /// and this outcome itself if it is none.
    spec fn placed(self, loc: Span, res: Self) -> bool;

    /// Adds an activity to the failure of an outcome; a success passes
    /// through.
    fn e_when(self, reason: String) -> (res: Self)
        ensures
            self.annotated(reason@, res),
    ;

    /// Places the failure of an outcome at `loc`; a success passes
    /// through.
    fn e_at(self, loc: Span) -> (res: Self)
        ensures
            self.placed(loc, res),
    ;
}

impl<T> OnParseErr for Result<T, ParseError> {
    open spec fn annotated(self, reason: Seq<char>, res: Self) -> bool {
        match self {
            Ok(v) => res == Ok::<T, ParseError>(v),
            Err(e) => res is Err && res->Err_0@ == e@.when(reason),
        }
    }

    open spec fn placed(self, loc: Span, res: Self) -> bool {
        match self {
            Ok(v) => res == Ok::<T, ParseError>(v),
            Err(e) => res is Err && res->Err_0@ == e@.at(loc),
        }
    }

    fn e_when(self, reason: String) -> (res: Self) {
        match self {
            Ok(v) => Ok(v),
            Err(e) => Err(e.when(reason.as_str())),
        }
    }

    fn e_at(self, loc: Span) -> (res: Self) {
        match self {
            Ok(v) => Ok(v),
            Err(e) => Err(e.at(loc)),
        }
    }
}

} // verus!
