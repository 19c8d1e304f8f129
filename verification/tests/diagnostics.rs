use std::rc::Rc;

use mi_compiler::source::{
    CodePoint, OnParseErr, ParseET, ParseError, Source, SourceIter, SourceType, Span,
};
use mi_compiler::tokens::tokens::{Literal, NumLit};

fn text(s: &str) -> Rc<Source> {
    Rc::new(Source::from_string(s.to_string()))
}

fn span(source: &Rc<Source>, start: usize, end: usize) -> Span {
    Span { source: source.clone(), start, end }
}

#[test]
fn from_string_has_no_file() {
    let s = Source::from_string("abc".to_string());
    assert_eq!(s.st, SourceType::String);
    assert_eq!(s.source, "abc");
    assert_eq!(s.st.describe(), "<string>");
    let f = Source::from_file_text("a/b.mi".to_string(), "x".to_string());
    assert_eq!(f.st.describe(), "a/b.mi");
}

#[test]
fn pos_counts_lines_from_one_and_columns_from_zero() {
    let src = text("ab\ncd\n\nxyz");
    assert_eq!(CodePoint(src.clone(), 0).pos(), (1, 0));
    assert_eq!(CodePoint(src.clone(), 2).pos(), (1, 2));
    assert_eq!(CodePoint(src.clone(), 3).pos(), (2, 0));
    assert_eq!(CodePoint(src.clone(), 5).pos(), (2, 2));
    assert_eq!(CodePoint(src.clone(), 6).pos(), (3, 0));
    assert_eq!(CodePoint(src.clone(), 7).pos(), (4, 0));
    assert_eq!(CodePoint(src.clone(), 10).pos(), (4, 3));
}

#[test]
fn pos_counts_columns_in_bytes() {
    let src = text("é\nüx");
    assert_eq!(CodePoint(src.clone(), 2).pos(), (1, 2));
    assert_eq!(CodePoint(src.clone(), 5).pos(), (2, 2));
}

#[test]
fn span_constructors_and_bounds() {
    let src = text("hello world");
    let a = CodePoint(src.clone(), 7);
    let b = CodePoint(src.clone(), 2);
    let s = Span::from_points(a.clone(), b.clone());
    assert_eq!((s.start, s.end), (2, 7));
    let s2 = Span::from_points(b.clone(), a.clone());
    assert_eq!((s2.start, s2.end), (2, 7));
    assert_eq!(s.start(), b);
    assert_eq!(s.end(), a);
    assert_eq!(s.bounds(), (b.clone(), a.clone()));
    let single = Span::single(a.clone());
    assert_eq!((single.start, single.end), (7, 7));
    assert_eq!(a.clone().span(), single);
    let mut e = span(&src, 4, 5);
    e.extend(CodePoint(src.clone(), 9));
    assert_eq!((e.start, e.end), (4, 9));
    e.extend(CodePoint(src.clone(), 1));
    assert_eq!((e.start, e.end), (1, 9));
    e.extend(CodePoint(src.clone(), 3));
    assert_eq!((e.start, e.end), (1, 9));
}

#[test]
fn empty_span_renders_one_caret() {
    let src = text("let x = 5\nfoo bar\nbaz");
    let s = span(&src, 4, 4);
    assert!(s.is_in_text());
    assert_eq!(s.render_span_code(2), "  1 | let x = 5\n    |     ^\n  2 | foo bar\n  3 | baz");
    assert_eq!(s.render_span_code(0), "  1 | let x = 5\n    |     ^");
}

#[test]
fn span_within_a_line_is_underlined_to_its_last_byte() {
    let src = text("one\ntwo three\nfour");
    let s = span(&src, 8, 12);
    assert_eq!(s.render_span_code(1), "  1 | one\n  2 | two three\n    |     ^^^^^\n  3 | four");
}

#[test]
fn span_over_lines_gets_a_band_under_each() {
    let src = text("aaaa\nbbbbbb\ncc\ndddd\neeee");
    // from column 2 of line 1 to column 1 of line 4
    let s = span(&src, 2, 16);
    let want = [
        "  1 | aaaa",
        "    |   ^^^",
        "  2 | bbbbbb",
        "    | ^^^^^^",
        "  3 | cc",
        "    | ^^",
        "  4 | dddd",
        "    | ^^   ",
        "  5 | eeee",
    ]
    .join("\n");
    assert_eq!(s.render_span_code(2), want);
    assert_eq!(s.render_span_code(0), want[..want.len() - "\n  5 | eeee".len()]);
}

#[test]
fn excerpt_is_padded_above_and_below() {
    let body: Vec<String> = (1..=12).map(|i| format!("line{i}")).collect();
    let src = text(&body.join("\n"));
    // "line10" begins after 9 lines of 5 bytes and their line ends
    let start = 9 * 6;
    let s = span(&src, start, start + 3);
    let want = ["  8 | line8", "  9 | line9", " 10 | line10", "    | ^^^^", " 11 | line11", " 12 | line12"]
        .join("\n");
    assert_eq!(s.render_span_code(2), want);
}

#[test]
fn excerpt_keeps_text_that_is_not_ascii() {
    let src = text("añb\nçx");
    let s = span(&src, 5, 7);
    assert_eq!(s.render_span_code(1), "  1 | añb\n  2 | çx\n    | ^^^");
}

#[test]
fn excerpt_of_an_empty_text_and_with_any_padding() {
    let src = text("");
    assert_eq!(span(&src, 0, 0).render_span_code(2), "  1 | \n    | ^");
    let src = text("a\nb\n");
    assert_eq!(span(&src, 2, 2).render_span_code(usize::MAX), "  1 | a\n  2 | b\n    | ^\n  3 | ");
    // a span may end on the line end itself, and at the end of the text
    assert_eq!(span(&src, 1, 4).render_span_code(0), "  1 | a\n    |  ^\n  2 | b\n    | ^\n  3 | \n    | ^");
}

#[test]
fn span_past_the_text_is_not_in_it() {
    let src = text("abc");
    assert!(span(&src, 0, 3).is_in_text());
    assert!(!span(&src, 0, 4).is_in_text());
    assert!(!span(&src, 2, 1).is_in_text());
}

#[test]
fn source_iter_walks_bytes() {
    let mut it = SourceIter::new(Source::from_string("ab".to_string()));
    assert_eq!(it.len(), 2);
    assert_eq!(it.left(), 2);
    assert_eq!(it.this().unwrap(), 'a');
    assert_eq!(it.peek().unwrap(), 'b');
    assert_eq!(it.peekn(1).unwrap(), 'b');
    assert_eq!(it.peekn(0).unwrap(), 'a');
    assert!(it.peekn(-1).is_err());
    assert!(it.peekn(2).is_err());
    it.next();
    assert_eq!(it.here().1, 1);
    assert_eq!(it.left(), 1);
    assert_eq!(it.this().unwrap(), 'b');
    assert_eq!(it.peekn(-1).unwrap(), 'a');
    assert!(it.peek().is_err());
    it.next();
    let e = it.this().unwrap_err();
    assert!(matches!(e.et, ParseET::EOF));
    assert_eq!(e.context, vec!["getting char".to_string()]);
    let loc = e.loc.unwrap();
    assert_eq!((loc.start, loc.end), (2, 2));
    assert_eq!(it.get(0).unwrap(), 'a');
}

#[test]
fn errors_collect_place_and_context() {
    let src = text("abc");
    let e = ParseET::EOF.error();
    assert!(e.loc.is_none());
    assert!(e.context.is_empty());
    let e = e.when("first").at(span(&src, 1, 2)).when("second");
    assert_eq!(e.context, vec!["first".to_string(), "second".to_string()]);
    assert_eq!(e.loc, Some(span(&src, 1, 2)));
    let e = e.at(span(&src, 0, 0));
    assert_eq!(e.loc, Some(span(&src, 0, 0)));
    let at = ParseET::EmptyInput.at(span(&src, 2, 3));
    assert_eq!(at.loc, Some(span(&src, 2, 3)));
    assert!(at.context.is_empty());
}

#[test]
fn outcomes_pass_through_or_are_annotated() {
    let src = text("abc");
    let ok: Result<u8, ParseError> = Ok(7);
    assert_eq!(ok.e_when("x".to_string()).unwrap(), 7);
    let ok: Result<u8, ParseError> = Ok(7);
    assert_eq!(ok.e_at(span(&src, 0, 1)).unwrap(), 7);
    let bad: Result<u8, ParseError> = Err(ParseET::EOF.error().when("first"));
    let e = bad.e_when("reading".to_string()).unwrap_err();
    assert_eq!(e.context, vec!["first".to_string(), "reading".to_string()]);
    let bad: Result<u8, ParseError> = Err(ParseET::EOF.error());
    let e = bad.e_at(span(&src, 0, 1)).unwrap_err();
    assert_eq!(e.loc, Some(span(&src, 0, 1)));
}

#[test]
fn messages_name_each_kind() {
    assert_eq!(ParseET::EOF.error().render(), "Input error:\n    reached end of file");
    assert_eq!(ParseET::EmptyInput.error().render(), "Input error:\n    input was empty");
    assert_eq!(ParseET::IOError("gone".to_string()).error().render(), "IO error:\n    gone");
    assert_eq!(
        ParseET::TokenizationError("bad char".to_string()).error().render(),
        "Tokenization error:\n    bad char"
    );
    assert_eq!(
        ParseET::ParseError("name".to_string(), "Particle('+')".to_string()).error().render(),
        "Parsing error:\n    expected name found Particle('+')"
    );
    assert_eq!(
        ParseET::VariableError("x".to_string()).error().render(),
        "cant find variable:\n    x"
    );
    let lit = |l: Literal| ParseET::ParseLiteralError(l, "why".to_string()).error().render();
    assert_eq!(lit(Literal::String("s".to_string())), "String literal parsing error:\n    why");
    assert_eq!(lit(Literal::Char('c')), "Char literal parsing error:\n    why");
    assert_eq!(lit(Literal::Number(NumLit::Integer(3))), "Integer literal parsing error:\n    why");
    assert_eq!(
        lit(Literal::Number(NumLit::Float("1.5".to_string()))),
        "Float literal parsing error:\n    why"
    );
    assert_eq!(lit(Literal::Bool(true)), "Bool literal parsing error:\n    why");
}

#[test]
fn message_lists_context_in_push_order_then_the_place() {
    let src = Rc::new(Source::from_file_text("dir/prog.mi".to_string(), "fn main do\n  oops\nend".to_string()));
    let e = ParseET::ParseError("[let|<expr>]".to_string(), "x".to_string())
        .at(span(&src, 13, 16))
        .when("compiling statement")
        .when("compiling function body");
    assert!(e.can_render());
    assert_eq!(
        e.render(),
        "Parsing error:\n    expected [let|<expr>] found x\n    while compiling statement\n    while compiling function body\n\nat: dir/prog.mi: 2:2..2:5\n  1 | fn main do\n  2 |   oops\n    |   ^^^^\n  3 | end"
    );
    let point = ParseET::EOF.at(span(&src, 20, 20)).when("trying to get token");
    assert_eq!(
        point.render(),
        "Input error:\n    reached end of file\n    while trying to get token\n\nat: dir/prog.mi: 3:2\n  1 | fn main do\n  2 |   oops\n  3 | end\n    |   ^"
    );
}

#[test]
fn io_failures_are_wrapped() {
    let e = ParseError::from_io("No such file or directory (os error 2)".to_string());
    assert_eq!(
        e.render(),
        "IO error:\n    No such file or directory (os error 2)\n    while doing IO operation"
    );
    assert!(e.can_render());
    let src = text("ab");
    assert!(!ParseET::EOF.at(span(&src, 1, 9)).can_render());
}
