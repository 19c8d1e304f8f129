//! The lexical tokens the engine consumes.

use vstd::prelude::*;
use vstd::string::StringExecFns;
use crate::source::Span;
use crate::text::{decimal, push_char, push_decimal};

verus! {

/// A numeric literal. A floating-point literal is kept as the text it was
/// written with; the engine never computes with it.
#[derive(Debug, PartialEq, Eq)]
pub enum NumLit {
    Integer(u64),
    Float(String),
}

impl Clone for NumLit {
    fn clone(&self) -> (res: Self)
        ensures
            res == *self,
    {
        match self {
            NumLit::Integer(i) => NumLit::Integer(*i),
            NumLit::Float(f) => NumLit::Float(f.clone()),
        }
    }
}

/// A numeric literal, with the text of a floating-point literal as a
/// sequence.
pub enum NumLitView {
    Integer(u64),
    Float(Seq<char>),
}

impl View for NumLit {
    type V = NumLitView;

    open spec fn view(&self) -> NumLitView {
        match self {
            NumLit::Integer(i) => NumLitView::Integer(*i),
            NumLit::Float(f) => NumLitView::Float(f@),
        }
    }
}

impl NumLitView {
    /// How the literal is named in a message.
    pub open spec fn description(self) -> Seq<char> {
        match self {
            NumLitView::Integer(i) => "Integer("@ + decimal(i as nat) + ")"@,
            NumLitView::Float(f) => "Float("@ + f + ")"@,
        }
    }
}

impl NumLit {
    /// How the literal is named in a message.
    pub open spec fn description(&self) -> Seq<char> {
        self@.description()
    }

    fn describe_into(&self, out: &mut String)
        ensures
            final(out)@ == old(out)@ + self.description(),
    {
        match self {
            NumLit::Integer(i) => {
                out.append("Integer(");
                push_decimal(out, *i);
                out.append(")");
            },
            NumLit::Float(f) => {
                out.append("Float(");
                out.append(f.as_str());
                out.append(")");
            },
        }
        assert(out@ =~= old(out)@ + self.description());
    }
}

/// A literal value as it stood in the source.
#[derive(Debug, PartialEq, Eq)]
pub enum Literal {
    String(String),
    Char(char),
    Number(NumLit),
    Bool(bool),
}

impl Clone for Literal {
    fn clone(&self) -> (res: Self)
        ensures
            res == *self,
    {
        match self {
            Literal::String(s) => Literal::String(s.clone()),
            Literal::Char(c) => Literal::Char(*c),
            Literal::Number(n) => Literal::Number(n.clone()),
            Literal::Bool(b) => Literal::Bool(*b),
        }
    }
}

/// A literal, with its text as a sequence.
pub enum LiteralView {
    String(Seq<char>),
    Char(char),
    Number(NumLitView),
    Bool(bool),
}

impl View for Literal {
    type V = LiteralView;

    open spec fn view(&self) -> LiteralView {
        match self {
            Literal::String(s) => LiteralView::String(s@),
            Literal::Char(c) => LiteralView::Char(*c),
            Literal::Number(n) => LiteralView::Number(n@),
            Literal::Bool(b) => LiteralView::Bool(*b),
        }
    }
}

impl LiteralView {
    /// How the literal is named in a message.
    pub open spec fn description(self) -> Seq<char> {
        match self {
            LiteralView::String(s) => "String(\""@ + s + "\")"@,
            LiteralView::Char(c) => "Char('"@ + seq![c] + "')"@,
            LiteralView::Number(n) => "Number("@ + n.description() + ")"@,
            LiteralView::Bool(b) => if b {
                "Bool(true)"@
            } else {
                "Bool(false)"@
            },
        }
    }
}

impl Literal {
    /// How the literal is named in a message.
    pub open spec fn description(&self) -> Seq<char> {
        self@.description()
    }

    fn describe_into(&self, out: &mut String)
        ensures
            final(out)@ == old(out)@ + self.description(),
    {
        match self {
            Literal::String(s) => {
                out.append("String(\"");
                out.append(s.as_str());
                out.append("\")");
            },
            Literal::Char(c) => {
                out.append("Char('");
                push_char(out, *c);
                out.append("')");
            },
            Literal::Number(n) => {
                out.append("Number(");
                n.describe_into(out);
                out.append(")");
            },
            Literal::Bool(b) => {
                if *b {
                    out.append("Bool(true)");
                } else {
                    out.append("Bool(false)");
                }
            },
        }
        assert(out@ =~= old(out)@ + self.description());
    }

    /// The literal as a message names it.
    pub fn describe(&self) -> (res: String)
        ensures
            res@ == self.description(),
    {
        let mut out = String::new();
        self.describe_into(&mut out);
        assert(out@ =~= self.description());
        out
    }
}

/// What a token is: a name (keywords are names too), a literal, or a
/// one-character operator symbol.
#[derive(Debug, PartialEq, Eq)]
pub enum TokenType {
    Ident(String),
    Literal(Literal),
    Particle(char),
}

impl Clone for TokenType {
    fn clone(&self) -> (res: Self)
        ensures
            res == *self,
    {
        match self {
            TokenType::Ident(s) => TokenType::Ident(s.clone()),
            TokenType::Literal(l) => TokenType::Literal(l.clone()),
            TokenType::Particle(c) => TokenType::Particle(*c),
        }
    }
}

/// What a token is, with its text as a sequence.
pub enum TokenTypeView {
    Ident(Seq<char>),
    Literal(LiteralView),
    Particle(char),
}

impl View for TokenType {
    type V = TokenTypeView;

    open spec fn view(&self) -> TokenTypeView {
        match self {
            TokenType::Ident(s) => TokenTypeView::Ident(s@),
            TokenType::Literal(l) => TokenTypeView::Literal(l@),
            TokenType::Particle(c) => TokenTypeView::Particle(*c),
        }
    }
}

impl TokenTypeView {
    /// How the token is named in a message.
    pub open spec fn description(self) -> Seq<char> {
        match self {
            TokenTypeView::Ident(s) => "Ident(\""@ + s + "\")"@,
            TokenTypeView::Literal(l) => "Literal("@ + l.description() + ")"@,
            TokenTypeView::Particle(c) => "Particle('"@ + seq![c] + "')"@,
        }
    }
}

impl TokenType {
    /// How the token is named in a message.
    pub open spec fn description(&self) -> Seq<char> {
        self@.description()
    }

    /// The token as a message names it.
    pub fn describe(&self) -> (res: String)
        ensures
            res@ == self.description(),
    {
        let mut out = String::new();
        match self {
            TokenType::Ident(s) => {
                out.append("Ident(\"");
                out.append(s.as_str());
                out.append("\")");
            },
            TokenType::Literal(l) => {
                out.append("Literal(");
                l.describe_into(&mut out);
                out.append(")");
            },
            TokenType::Particle(c) => {
                out.append("Particle('");
                push_char(&mut out, *c);
                out.append("')");
            },
        }
        assert(out@ =~= self.description());
        out
    }
}

/// A token and the place in the source it was read from.
#[derive(Debug, PartialEq)]
pub struct Token {
    pub tt: TokenType,
    pub loc: Span,
}

/// A token, with its text as a sequence.
pub struct TokenView {
    pub tt: TokenTypeView,
    pub loc: Span,
}

impl View for Token {
    type V = TokenView;

    open spec fn view(&self) -> TokenView {
        TokenView { tt: self.tt@, loc: self.loc }
    }
}

/// The views of a sequence of tokens.
pub open spec fn token_views(ts: Seq<Token>) -> Seq<TokenView> {
    Seq::new(ts.len(), |i: int| ts[i]@)
}

impl Clone for Token {
    fn clone(&self) -> (res: Self)
        ensures
            res == *self,
    {
        Token { tt: self.tt.clone(), loc: self.loc.clone() }
    }
}

} // verus!
