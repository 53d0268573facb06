use crate::scanner::token::Token;
use vstd::prelude::*;

verus! {

/// A literal value attached to a token or standing in an expression.
///
/// A number is kept as the decimal numeral that was written, digit for
/// digit, so that no precision is lost before a consumer decides how to
/// represent it.
#[derive(Debug)]
pub enum AstLiteral {
    Number(String),
    String(String),
    Boolean(bool),
    Nil,
}

/// The mathematical value of an [`AstLiteral`].
pub enum LiteralView {
    Number(Seq<char>),
    String(Seq<char>),
    Boolean(bool),
    Nil,
}

impl View for AstLiteral {
    type V = LiteralView;

    open spec fn view(&self) -> LiteralView {
        match self {
            AstLiteral::Number(text) => LiteralView::Number(text@),
            AstLiteral::String(text) => LiteralView::String(text@),
            AstLiteral::Boolean(b) => LiteralView::Boolean(*b),
            AstLiteral::Nil => LiteralView::Nil,
        }
    }
}

impl Clone for AstLiteral {
    fn clone(&self) -> (res: Self)
        ensures
            res@ == self@,
    {
        match self {
            AstLiteral::Number(text) => AstLiteral::Number(text.clone()),
            AstLiteral::String(text) => AstLiteral::String(text.clone()),
            AstLiteral::Boolean(b) => AstLiteral::Boolean(*b),
            AstLiteral::Nil => AstLiteral::Nil,
        }
    }
}

/// The view of an optional literal.
pub open spec fn literal_view(literal: Option<AstLiteral>) -> Option<LiteralView> {
    match literal {
        Some(value) => Some(value@),
        None => None,
    }
}

/// An expression of the language, as a tree.
pub enum Expr {
    Literal(AstLiteral),
    Unary { unary_operator: Token, expression: Box<Expr> },
    Binary { left: Box<Expr>, operator: Token, right: Box<Expr> },
    Grouping { expression: Box<Expr> },
}

} // verus!
