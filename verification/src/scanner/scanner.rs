use super::error::LexError;
use super::grammar::{
    byte_is, col_at, eof_token, is_digit, is_word_part, is_word_start, lemma_position_bounds,
    lemma_step_advances, line_at, reports_from, reserved_words, run_end, step_at, step_reports,
    step_tokens, text_of, tokens_from, word_type, ByteClass, DOT, EQUALS, NEWLINE, QUOTE, SLASH,
};
use super::laws::lemma_word_has_no_literal;
use super::text::{lemma_ascii_is_bounded, slice_text};
use super::token::{token_views, Token, TokenView};
use super::token_type::TokenType;
use crate::expr::{literal_view, AstLiteral};
use crate::init::Lox;
use vstd::hash_map::StringHashMap;
use vstd::prelude::*;
use vstd::string::StringSliceAdditionalSpecFns;
use vstd::utf8::{encode_utf8, encode_utf8_valid_utf8, is_char_boundary, valid_utf8};

verus! {

/// A single pass over a source text.
///
/// `start` is the offset of the first byte of the lexeme being recognized,
/// `current` that of the byte being considered; `line` and `col` give the
/// position of `current`, `start_line` and `start_col` that of `start`.
pub struct Scanner {
    source: String,
    tokens: Vec<Token>,
    start: usize,
    current: usize,
    line: usize,
    col: usize,
    start_line: usize,
    start_col: usize,
    reserved_map: StringHashMap<TokenType>,
}

/// The mathematical value of a [`Scanner`].
pub struct ScannerView {
    /// The bytes of the source text.
    pub source: Seq<u8>,
    /// Where the lexeme being recognized starts.
    pub start: int,
    /// How far the source has been consumed.
    pub current: int,
    /// The tokens emitted so far.
    pub tokens: Seq<TokenView>,
}

impl View for Scanner {
    type V = ScannerView;

    closed spec fn view(&self) -> ScannerView {
        ScannerView {
            source: encode_utf8(self.source@),
            start: self.start as int,
            current: self.current as int,
            tokens: token_views(self.tokens@),
        }
    }
}

fn digit(b: u8) -> (r: bool)
    ensures
        r == is_digit(b),
{
    0x30 <= b && b <= 0x39
}

fn word_start(b: u8) -> (r: bool)
    ensures
        r == is_word_start(b),
{
    (0x41 <= b && b <= 0x5a) || (0x61 <= b && b <= 0x7a) || b == 0x5f
}

fn word_part(b: u8) -> (r: bool)
    ensures
        r == is_word_part(b),
{
    word_start(b) || digit(b)
}

impl Scanner {
    /// The invariant of the scanner: the cursor lies inside the source and
    /// behind the start of the lexeme, the position counters agree with the
    /// offsets, and the reserved words are those of the language.
    pub closed spec fn wf(&self) -> bool {
        &&& self.start <= self.current <= self@.source.len()
        &&& self.line == line_at(self@.source, self.current as int)
        &&& self.col == col_at(self@.source, self.current as int)
        &&& self.start_line == line_at(self@.source, self.start as int)
        &&& self.start_col == col_at(self@.source, self.start as int)
        &&& self.reserved_map@ == reserved_words()
    }

    /// The cursor of a well-formed scanner lies inside the source, at or
    /// behind the start of the lexeme.
    pub proof fn lemma_wf_bounds(&self)
        requires
            self.wf(),
        ensures
            0 <= self@.start <= self@.current <= self@.source.len(),
    {
    }

    /// Whether `self` differs from `before` in the cursor alone, which now
    /// stands at `to`.
    spec fn moved_from(&self, before: &Scanner, to: int) -> bool {
        &&& self.wf()
        &&& self.source == before.source
        &&& self.tokens == before.tokens
        &&& self.start == before.start
        &&& self.start_line == before.start_line
        &&& self.start_col == before.start_col
        &&& self.current == to
    }

    /// A scanner at the start of `source`, with no token emitted.
    pub fn new(source: &str) -> (scanner: Self)
        ensures
            scanner.wf(),
            scanner@ == (ScannerView {
                source: source.spec_bytes(),
                start: 0,
                current: 0,
                tokens: Seq::<TokenView>::empty(),
            }),
    {
        let mut reserved_map: StringHashMap<TokenType> = StringHashMap::new();
        reserved_map.insert("and".to_owned(), TokenType::And);
        reserved_map.insert("class".to_owned(), TokenType::Class);
        reserved_map.insert("else".to_owned(), TokenType::Else);
        reserved_map.insert("false".to_owned(), TokenType::False);
        reserved_map.insert("for".to_owned(), TokenType::For);
        reserved_map.insert("fun".to_owned(), TokenType::Fun);
        reserved_map.insert("if".to_owned(), TokenType::If);
        reserved_map.insert("nil".to_owned(), TokenType::Nil);
        reserved_map.insert("or".to_owned(), TokenType::Or);
        reserved_map.insert("print".to_owned(), TokenType::Print);
        reserved_map.insert("return".to_owned(), TokenType::Return);
        reserved_map.insert("super".to_owned(), TokenType::Super);
        reserved_map.insert("this".to_owned(), TokenType::This);
        reserved_map.insert("true".to_owned(), TokenType::True);
        reserved_map.insert("var".to_owned(), TokenType::Var);
        reserved_map.insert("while".to_owned(), TokenType::While);
        let scanner = Self {
            source: source.to_owned(),
            tokens: Vec::new(),
            start: 0,
            current: 0,
            line: 0,
            col: 0,
            start_line: 0,
            start_col: 0,
            reserved_map,
        };
        assert(scanner@.tokens =~= Seq::<TokenView>::empty());
        scanner
    }

    fn is_at_end(&self) -> (at_end: bool)
        ensures
            at_end == (self@.current >= self@.source.len()),
    {
        self.current >= self.source.as_str().as_bytes().len()
    }

    /// The byte under the cursor, or zero at the end of the source.
    fn peek(&self) -> (b: u8)
        ensures
            b == if self@.current < self@.source.len() {
                self@.source[self@.current]
            } else {
                0u8
            },
    {
        let bytes = self.source.as_str().as_bytes();
        if self.current >= bytes.len() {
            0
        } else {
            bytes[self.current]
        }
    }

    /// The byte behind the one under the cursor, or zero where there is none.
    fn peek_next(&self) -> (b: u8)
        ensures
            b == if self@.current + 1 < self@.source.len() {
                self@.source[self@.current + 1]
            } else {
                0u8
            },
    {
        let bytes = self.source.as_str().as_bytes();
        if self.current >= bytes.len() || bytes.len() - self.current <= 1 {
            0
        } else {
            bytes[self.current + 1]
        }
    }

    /// Consumes the byte under the cursor and returns it.
    fn advance(&mut self) -> (b: u8)
        requires
            old(self).wf(),
            old(self)@.current < old(self)@.source.len(),
        ensures
            final(self).moved_from(old(self), old(self)@.current + 1),
            b == old(self)@.source[old(self)@.current],
    {
        let bytes = self.source.as_str().as_bytes();
        let b = bytes[self.current];
        proof {
            lemma_position_bounds(self@.source, self.current as int);
        }
        self.current += 1;
        if b == NEWLINE {
            self.line += 1;
            self.col = 0;
        } else {
            self.col += 1;
        }
        b
    }

    /// Consumes the byte under the cursor if it is `expected`.
    fn match_char(&mut self, expected: u8) -> (matched: bool)
        requires
            old(self).wf(),
        ensures
            matched == byte_is(old(self)@.source, old(self)@.current, expected),
            final(self).moved_from(
                old(self),
                if matched {
                    old(self)@.current + 1
                } else {
                    old(self)@.current
                },
            ),
    {
        if self.is_at_end() {
            return false;
        }
        if self.source.as_str().as_bytes()[self.current] != expected {
            return false;
        }
        self.advance();
        true
    }

    /// Whether `self` is `before` with `token` emitted behind the others.
    spec fn emitted_from(&self, before: &Scanner, token: TokenView) -> bool {
        &&& self.wf()
        &&& self.source == before.source
        &&& self.start == before.start
        &&& self.current == before.current
        &&& self.start_line == before.start_line
        &&& self.start_col == before.start_col
        &&& self@.tokens == before@.tokens.push(token)
    }

    /// Whether `self` is `before` after one step of the grammar, taken at
    /// the start of the lexeme of `before`.
    spec fn stepped_from(&self, before: &Scanner) -> bool {
        &&& self.wf()
        &&& self.source == before.source
        &&& self.start == before.start
        &&& self.start_line == before.start_line
        &&& self.start_col == before.start_col
        &&& self@.current == step_at(before@.source, before@.start).end
        &&& self@.tokens == before@.tokens + step_tokens(before@.source, before@.start)
    }

    /// Whether the lexeme from `start` up to `current` is cut at character
    /// boundaries.
    spec fn lexeme_bounded(&self) -> bool {
        &&& is_char_boundary(self@.source, self@.start)
        &&& is_char_boundary(self@.source, self@.current)
    }

    proof fn lemma_source_valid(&self)
        ensures
            valid_utf8(self@.source),
    {
        encode_utf8_valid_utf8(self.source@);
    }

    /// Emits a token without a literal for the lexeme from `start` up to
    /// `current`.
    fn add_token(&mut self, token_type: TokenType)
        requires
            old(self).wf(),
            old(self).lexeme_bounded(),
        ensures
            final(self).emitted_from(
                old(self),
                TokenView {
                    token_type,
                    lexeme: text_of(old(self)@.source, old(self)@.start, old(self)@.current),
                    literal: None,
                    line: line_at(old(self)@.source, old(self)@.start),
                    col: col_at(old(self)@.source, old(self)@.start),
                },
            ),
    {
        self.add_token_w_lit(token_type, None);
    }

    /// Emits a token with the given literal for the lexeme from `start` up
    /// to `current`.
    fn add_token_w_lit(&mut self, token_type: TokenType, literal: Option<AstLiteral>)
        requires
            old(self).wf(),
            old(self).lexeme_bounded(),
        ensures
            final(self).emitted_from(
                old(self),
                TokenView {
                    token_type,
                    lexeme: text_of(old(self)@.source, old(self)@.start, old(self)@.current),
                    literal: literal_view(literal),
                    line: line_at(old(self)@.source, old(self)@.start),
                    col: col_at(old(self)@.source, old(self)@.start),
                },
            ),
    {
        let lexeme = slice_text(self.source.as_str(), self.start, self.current);
        let token = Token::new(token_type, lexeme, literal, self.start_line, self.start_col);
        self.tokens.push(token);
        assert(final(self)@.tokens =~= old(self)@.tokens.push(token@));
    }

    /// Scans the whole source from the cursor on and returns every token
    /// emitted so far, closed by the end-of-input token. Malformed lexemes
    /// are reported to `lox` and emit nothing; the scan goes on behind them.
    pub fn scan_tokens(&mut self, lox: &mut Lox) -> (tokens: Vec<Token>)
        requires
            old(self).wf(),
        ensures
            final(self).wf(),
            final(self)@.source == old(self)@.source,
            final(self)@.current == old(self)@.source.len(),
            final(self)@.tokens == old(self)@.tokens + tokens_from(
                old(self)@.source,
                old(self)@.current,
            ),
            token_views(tokens@) == final(self)@.tokens,
            final(lox)@.reports == old(lox)@.reports + reports_from(
                old(self)@.source,
                old(self)@.current,
            ),
            final(lox)@.had_error == (old(lox)@.had_error || reports_from(
                old(self)@.source,
                old(self)@.current,
            ).len() > 0),
    {
        let ghost src = self@.source;
        let ghost goal_tokens = self@.tokens + tokens_from(src, self@.current);
        let ghost goal_reports = lox@.reports + reports_from(src, self@.current);
        let ghost goal_flag = lox@.had_error || reports_from(src, self@.current).len() > 0;
        while !self.is_at_end()
            invariant
                self.wf(),
                self@.source == src,
                self@.tokens + tokens_from(src, self@.current) == goal_tokens,
                lox@.reports + reports_from(src, self@.current) == goal_reports,
                (lox@.had_error || reports_from(src, self@.current).len() > 0) == goal_flag,
            decreases src.len() - self@.current,
        {
            self.start = self.current;
            self.start_line = self.line;
            self.start_col = self.col;
            let ghost at = self@.current;
            let ghost tokens_before = self@.tokens;
            let ghost reports_before = lox@.reports;
            proof {
                lemma_step_advances(src, at);
            }
            self.scan_token(lox);
            proof {
                let rest = step_at(src, at).end;
                assert(self@.tokens + tokens_from(src, rest) =~= tokens_before + (step_tokens(
                    src,
                    at,
                ) + tokens_from(src, rest)));
                assert(lox@.reports + reports_from(src, rest) =~= reports_before + (step_reports(
                    src,
                    at,
                ) + reports_from(src, rest)));
            }
        }
        let ghost tokens_before = self@.tokens;
        let eof = Token::new(TokenType::Eof, "", None, self.line, self.col);
        proof {
            reveal_strlit("");
            assert(""@ =~= Seq::<char>::empty());
            assert(eof@ == eof_token(src));
        }
        self.tokens.push(eof);
        assert(self@.tokens =~= tokens_before.push(eof@));
        assert(self@.tokens =~= goal_tokens);
        assert(lox@.reports =~= goal_reports);
        let tokens = self.tokens.clone();
        assert(token_views(tokens@) =~= self@.tokens);
        tokens
    }

    /// Scans the one lexeme that starts at the cursor.
    fn scan_token(&mut self, lox: &mut Lox)
        requires
            old(self).wf(),
            old(self)@.start == old(self)@.current,
            old(self)@.current < old(self)@.source.len(),
        ensures
            final(self).stepped_from(old(self)),
            reported_step(final(lox), old(lox), old(self)@.source, old(self)@.start),
    {
        let ghost before = *self;
        let ghost src = self@.source;
        let ghost start = self@.start;
        proof {
            self.lemma_source_valid();
        }
        let c: u8 = self.advance();
        proof {
            if c <= 0x7f {
                lemma_ascii_is_bounded(src, start);
            }
        }
        match c {
            // Single-character tokens
            0x28 => self.add_token(TokenType::LeftParen),
            0x29 => self.add_token(TokenType::RightParen),
            0x7b => self.add_token(TokenType::LeftBrace),
            0x7d => self.add_token(TokenType::RightBrace),
            0x2c => self.add_token(TokenType::Comma),
            0x2e => self.add_token(TokenType::Dot),
            0x2d => self.add_token(TokenType::Minus),
            0x2b => self.add_token(TokenType::Plus),
            0x3b => self.add_token(TokenType::SemiColon),
            0x2a => self.add_token(TokenType::Star),
            // Operators of one or two characters
            0x21 => {
                let token_type = if self.match_char(EQUALS) {
                    TokenType::BangEqual
                } else {
                    TokenType::Bang
                };
                proof {
                    lemma_ascii_is_bounded(src, self@.current - 1);
                }
                self.add_token(token_type);
            },
            0x3d => {
                let token_type = if self.match_char(EQUALS) {
                    TokenType::EqualEqual
                } else {
                    TokenType::Equal
                };
                proof {
                    lemma_ascii_is_bounded(src, self@.current - 1);
                }
                self.add_token(token_type);
            },
            0x3c => {
                let token_type = if self.match_char(EQUALS) {
                    TokenType::LesserEqual
                } else {
                    TokenType::Lesser
                };
                proof {
                    lemma_ascii_is_bounded(src, self@.current - 1);
                }
                self.add_token(token_type);
            },
            0x3e => {
                let token_type = if self.match_char(EQUALS) {
                    TokenType::GreaterEqual
                } else {
                    TokenType::Greater
                };
                proof {
                    lemma_ascii_is_bounded(src, self@.current - 1);
                }
                self.add_token(token_type);
            },
            // A comment runs to the end of its line
            0x2f => {
                if self.match_char(SLASH) {
                    let ghost body = self@.current;
                    while self.peek() != NEWLINE && !self.is_at_end()
                        invariant
                            self.moved_from(&before, self@.current),
                            before@.source == src,
                            body <= self@.current <= src.len(),
                            run_end(src, ByteClass::InLine, self@.current) == run_end(
                                src,
                                ByteClass::InLine,
                                body,
                            ),
                        decreases src.len() - self@.current,
                    {
                        self.advance();
                    }
                } else {
                    self.add_token(TokenType::Slash);
                }
            },
            // Blank space
            0x20 | 0x0d | 0x09 => {},
            0x0a => {},
            // String
            0x22 => self.string(lox),
            _ => {
                if digit(c) {
                    self.number();
                } else if word_start(c) {
                    self.identifier();
                } else {
                    lox.error(self.start_line, self.start_col, LexError::UnexpectedCharacter.message());
                }
            },
        }
        proof {
            assert(self@.tokens =~= before@.tokens + step_tokens(src, start));
            assert(lox@.reports =~= old(lox)@.reports + step_reports(src, start));
        }
    }

    /// Scans the rest of an identifier or reserved word whose first byte
    /// has been consumed.
    fn identifier(&mut self)
        requires
            old(self).wf(),
            old(self)@.current == old(self)@.start + 1,
            is_word_start(old(self)@.source[old(self)@.start]),
        ensures
            final(self).stepped_from(old(self)),
    {
        let ghost before = *self;
        let ghost src = self@.source;
        proof {
            self.lemma_source_valid();
            lemma_ascii_is_bounded(src, self@.start);
        }
        while word_part(self.peek())
            invariant
                self.moved_from(&before, self@.current),
                before@.source == src,
                valid_utf8(src),
                self@.start < self@.current <= src.len(),
                is_char_boundary(src, self@.start),
                is_char_boundary(src, self@.current),
                run_end(src, ByteClass::Word, self@.current) == run_end(
                    src,
                    ByteClass::Word,
                    before@.current,
                ),
            decreases src.len() - self@.current,
        {
            proof {
                lemma_ascii_is_bounded(src, self@.current);
            }
            self.advance();
        }
        let text = slice_text(self.source.as_str(), self.start, self.current);
        let token_type = match self.reserved_map.get(text) {
            Some(reserved) => *reserved,
            None => TokenType::Identifier,
        };
        proof {
            lemma_word_has_no_literal(text@);
        }
        self.add_token(token_type);
        proof {
            let step = step_at(src, before@.start);
            assert(step.end == self@.current);
            assert(token_type == word_type(text_of(src, before@.start, step.end)));
            assert(final(self)@.tokens =~= before@.tokens + step_tokens(src, before@.start));
        }
    }

    /// Scans the rest of a number whose first digit has been consumed.
    fn number(&mut self)
        requires
            old(self).wf(),
            old(self)@.current == old(self)@.start + 1,
            is_digit(old(self)@.source[old(self)@.start]),
        ensures
            final(self).stepped_from(old(self)),
    {
        let ghost before = *self;
        let ghost src = self@.source;
        proof {
            self.lemma_source_valid();
            lemma_ascii_is_bounded(src, self@.start);
        }
        while digit(self.peek())
            invariant
                self.moved_from(&before, self@.current),
                before@.source == src,
                valid_utf8(src),
                self@.start < self@.current <= src.len(),
                is_char_boundary(src, self@.current),
                run_end(src, ByteClass::Digit, self@.current) == run_end(
                    src,
                    ByteClass::Digit,
                    before@.current,
                ),
            decreases src.len() - self@.current,
        {
            proof {
                lemma_ascii_is_bounded(src, self@.current);
            }
            self.advance();
        }
        if self.peek() == DOT && digit(self.peek_next()) {
            let ghost whole = self@.current;
            proof {
                lemma_ascii_is_bounded(src, whole);
            }
            self.advance();
            while digit(self.peek())
                invariant
                    self.moved_from(&before, self@.current),
                    before@.source == src,
                    valid_utf8(src),
                    whole + 1 <= self@.current <= src.len(),
                    self@.start < self@.current,
                    is_char_boundary(src, self@.current),
                    self@.current == whole + 1 ==> is_digit(src[self@.current]),
                    run_end(src, ByteClass::Digit, self@.current) == run_end(
                        src,
                        ByteClass::Digit,
                        whole + 2,
                    ),
                decreases src.len() - self@.current,
            {
                proof {
                    lemma_ascii_is_bounded(src, self@.current);
                }
                self.advance();
            }
        }
        let text = slice_text(self.source.as_str(), self.start, self.current);
        let literal = AstLiteral::Number(text.to_owned());
        self.add_token_w_lit(TokenType::Number, Some(literal));
        proof {
            let step = step_at(src, before@.start);
            assert(step.end == self@.current);
            assert(final(self)@.tokens =~= before@.tokens + step_tokens(src, before@.start));
        }
    }

    /// Scans the rest of a string whose opening quote has been consumed.
    fn string(&mut self, lox: &mut Lox)
        requires
            old(self).wf(),
            old(self)@.current == old(self)@.start + 1,
            old(self)@.source[old(self)@.start] == QUOTE,
        ensures
            final(self).stepped_from(old(self)),
            reported_step(final(lox), old(lox), old(self)@.source, old(self)@.start),
    {
        let ghost before = *self;
        let ghost src = self@.source;
        proof {
            self.lemma_source_valid();
            lemma_ascii_is_bounded(src, self@.start);
        }
        while self.peek() != QUOTE && !self.is_at_end()
            invariant
                self.moved_from(&before, self@.current),
                before@.source == src,
                self@.start < self@.current <= src.len(),
                run_end(src, ByteClass::InString, self@.current) == run_end(
                    src,
                    ByteClass::InString,
                    before@.current,
                ),
            decreases src.len() - self@.current,
        {
            self.advance();
        }
        if self.is_at_end() {
            lox.error(self.line, self.col, LexError::UnterminatedString.message());
            assert(final(lox)@.reports =~= old(lox)@.reports + step_reports(src, before@.start));
            assert(final(self)@.tokens =~= before@.tokens + step_tokens(src, before@.start));
            return ;
        }
        proof {
            lemma_ascii_is_bounded(src, self@.current);
        }
        self.advance();
        let text = slice_text(self.source.as_str(), self.start + 1, self.current - 1);
        let literal = AstLiteral::String(text.to_owned());
        self.add_token_w_lit(TokenType::String, Some(literal));
        proof {
            let step = step_at(src, before@.start);
            assert(step.end == self@.current);
            assert(final(self)@.tokens =~= before@.tokens + step_tokens(src, before@.start));
            assert(final(lox)@.reports =~= old(lox)@.reports + step_reports(src, before@.start));
        }
    }
}

/// Whether `after` is `before` with the diagnostics of the step at `start`
/// reported.
spec fn reported_step(after: &Lox, before: &Lox, src: Seq<u8>, start: int) -> bool {
    &&& after@.reports == before@.reports + step_reports(src, start)
    &&& after@.had_error == (before@.had_error || step_reports(src, start).len() > 0)
}

} // verus!
