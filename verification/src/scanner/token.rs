use super::token_type::TokenType;
use crate::expr::{literal_view, AstLiteral, LiteralView};
use vstd::prelude::*;

verus! {

/// A classified, positioned unit of source text. Immutable once built.
#[derive(Debug)]
pub struct Token {
    token_type: TokenType,
    lexeme: String,
    literal: Option<AstLiteral>,
    _line: usize,
    _col: usize,
}

/// The mathematical value of a [`Token`].
pub struct TokenView {
    pub token_type: TokenType,
    pub lexeme: Seq<char>,
    pub literal: Option<LiteralView>,
    pub line: nat,
    pub col: nat,
}

impl View for Token {
    type V = TokenView;

    closed spec fn view(&self) -> TokenView {
        TokenView {
            token_type: self.token_type,
            lexeme: self.lexeme@,
            literal: literal_view(self.literal),
            line: self._line as nat,
            col: self._col as nat,
        }
    }
}

/// The values of a sequence of tokens, in order.
pub open spec fn token_views(tokens: Seq<Token>) -> Seq<TokenView> {
    tokens.map_values(|t: Token| t@)
}

impl Token {
    /// A token of the given type, text, literal and position.
    pub fn new(
        token_type: TokenType,
        lexeme: &str,
        literal: Option<AstLiteral>,
        line: usize,
        col: usize,
    ) -> (token: Self)
        ensures
            token@ == (TokenView {
                token_type,
                lexeme: lexeme@,
                literal: literal_view(literal),
                line: line as nat,
                col: col as nat,
            }),
    {
        Self { token_type, lexeme: lexeme.to_owned(), literal, _line: line, _col: col }
    }

    /// The lexical category.
    pub fn token_type(&self) -> (t: TokenType)
        ensures
            t == self@.token_type,
    {
        self.token_type
    }

    /// The exact source text of the token.
    pub fn lexeme(&self) -> (text: &str)
        ensures
            text@ == self@.lexeme,
    {
        self.lexeme.as_str()
    }

    /// The literal value, present on string and number tokens.
    pub fn literal(&self) -> (value: &Option<AstLiteral>)
        ensures
            literal_view(*value) == self@.literal,
    {
        &self.literal
    }

    /// The line on which the lexeme starts, counted from zero.
    pub fn line(&self) -> (line: usize)
        ensures
            line == self@.line,
    {
        self._line
    }

    /// The column at which the lexeme starts, counted from zero.
    pub fn col(&self) -> (col: usize)
        ensures
            col == self@.col,
    {
        self._col
    }
}

impl Clone for Token {
    fn clone(&self) -> (res: Self)
        ensures
            res@ == self@,
    {
        let literal = match &self.literal {
            Some(value) => Some(value.clone()),
            None => None,
        };
        Self {
            token_type: self.token_type,
            lexeme: self.lexeme.clone(),
            literal,
            _line: self._line,
            _col: self._col,
        }
    }
}

} // verus!
