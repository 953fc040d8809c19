use crate::value::{value_view, Value, ValueView};
use vstd::prelude::*;

verus! {

/// Mathematical model of one token of a definition source.
pub enum TokenView {
    Ident(Seq<char>),
    OpenBrace,
    CloseBrace,
    Comma,
    Colon,
    Equals,
    Lit(ValueView),
    Code(Seq<char>),
}

/// One token of a definition source. Identifiers carry their spelling, literal
/// value expressions carry their opaque payload, and a transform body is one
/// opaque code token.
#[derive(Debug, PartialEq)]
pub enum Token {
    Ident(String),
    OpenBrace,
    CloseBrace,
    Comma,
    Colon,
    Equals,
    Lit(Value),
    Code(String),
}

pub open spec fn token_view(t: Token) -> TokenView {
    match t {
        Token::Ident(s) => TokenView::Ident(s@),
        Token::OpenBrace => TokenView::OpenBrace,
        Token::CloseBrace => TokenView::CloseBrace,
        Token::Comma => TokenView::Comma,
        Token::Colon => TokenView::Colon,
        Token::Equals => TokenView::Equals,
        Token::Lit(v) => TokenView::Lit(value_view(v)),
        Token::Code(s) => TokenView::Code(s@),
    }
}

impl View for Token {
    type V = TokenView;

    open spec fn view(&self) -> TokenView {
        token_view(*self)
    }
}

pub open spec fn tokens_view(ts: Seq<Token>) -> Seq<TokenView> {
    Seq::new(ts.len(), |i: int| ts[i]@)
}

impl Token {
    /// An identifier token spelled like `s`.
    pub fn ident(s: &str) -> (t: Token)
        ensures
            t@ == TokenView::Ident(s@),
    {
        Token::Ident(s.to_owned())
    }

    /// An integer literal value expression.
    pub fn int_lit(n: u64) -> (t: Token)
        ensures
            t@ == TokenView::Lit(ValueView::Int(n)),
    {
        Token::Lit(Value::Int(n))
    }

    /// A boolean literal value expression.
    pub fn bool_lit(b: bool) -> (t: Token)
        ensures
            t@ == TokenView::Lit(ValueView::Bool(b)),
    {
        Token::Lit(Value::Bool(b))
    }

    /// A text literal value expression.
    pub fn text_lit(s: &str) -> (t: Token)
        ensures
            t@ == TokenView::Lit(ValueView::Text(s@)),
    {
        Token::Lit(Value::Text(s.to_owned()))
    }

    /// An opaque transform body, kept as uninterpreted source text.
    pub fn code(s: &str) -> (t: Token)
        ensures
            t@ == TokenView::Code(s@),
    {
        Token::Code(s.to_owned())
    }
}

} // verus!
