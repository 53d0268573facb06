//! The lexical grammar, stated over the bytes of the source text.
//!
//! Everything here is specification: what the lexeme that starts at a given
//! offset is, where it ends, how it is classified, and which line and column
//! an offset lies on. The scanner is proved against these definitions.

use super::token::TokenView;
use super::token_type::TokenType;
use crate::expr::LiteralView;
use crate::init::DiagnosticView;
use vstd::prelude::*;
use vstd::utf8::decode_utf8;

verus! {

pub const NEWLINE: u8 = 0x0a;

pub const QUOTE: u8 = 0x22;

pub const EQUALS: u8 = 0x3d;

pub const SLASH: u8 = 0x2f;

pub const DOT: u8 = 0x2e;

/// `0` to `9`.
pub open spec fn is_digit(b: u8) -> bool {
    0x30 <= b <= 0x39
}

/// `A` to `Z`, `a` to `z`, or an underscore.
pub open spec fn is_word_start(b: u8) -> bool {
    0x41 <= b <= 0x5a || 0x61 <= b <= 0x7a || b == 0x5f
}

/// A byte that may continue an identifier.
pub open spec fn is_word_part(b: u8) -> bool {
    is_word_start(b) || is_digit(b)
}

/// Space, carriage return, tab or newline.
pub open spec fn is_blank(b: u8) -> bool {
    b == 0x20 || b == 0x0d || b == 0x09 || b == NEWLINE
}

/// The sets of bytes of which a lexeme takes a longest run.
pub enum ByteClass {
    /// Decimal digits.
    Digit,
    /// Letters, digits and the underscore.
    Word,
    /// Everything but a newline: the rest of a comment.
    InLine,
    /// Everything but a double quote: the inside of a string.
    InString,
}

pub open spec fn in_class(class: ByteClass, b: u8) -> bool {
    match class {
        ByteClass::Digit => is_digit(b),
        ByteClass::Word => is_word_part(b),
        ByteClass::InLine => b != NEWLINE,
        ByteClass::InString => b != QUOTE,
    }
}

/// The offset at which the longest run of bytes of `class` that starts at
/// `from` ends: the first offset at or after `from` whose byte is not in the
/// class, or the length of the source.
pub open spec fn run_end(src: Seq<u8>, class: ByteClass, from: int) -> int
    decreases src.len() - from,
{
    if 0 <= from < src.len() && in_class(class, src[from]) {
        run_end(src, class, from + 1)
    } else {
        from
    }
}

/// Whether the byte at `pos` exists and is `b`.
pub open spec fn byte_is(src: Seq<u8>, pos: int, b: u8) -> bool {
    0 <= pos < src.len() && src[pos] == b
}

/// The number of newlines before `pos`: the line of `pos`, from zero.
pub open spec fn line_at(src: Seq<u8>, pos: int) -> nat
    decreases pos,
{
    if pos <= 0 || pos > src.len() {
        0
    } else if src[pos - 1] == NEWLINE {
        line_at(src, pos - 1) + 1
    } else {
        line_at(src, pos - 1)
    }
}

/// The number of bytes between the start of its line and `pos`: the column
/// of `pos`, from zero.
pub open spec fn col_at(src: Seq<u8>, pos: int) -> nat
    decreases pos,
{
    if pos <= 0 || pos > src.len() {
        0
    } else if src[pos - 1] == NEWLINE {
        0
    } else {
        col_at(src, pos - 1) + 1
    }
}

/// Neither the line nor the column of an offset exceeds the offset.
pub proof fn lemma_position_bounds(src: Seq<u8>, pos: int)
    requires
        0 <= pos,
    ensures
        line_at(src, pos) <= pos,
        col_at(src, pos) <= pos,
    decreases pos,
{
    if 0 < pos <= src.len() {
        lemma_position_bounds(src, pos - 1);
    }
}

/// The text that the bytes from `from` up to `to` encode.
pub open spec fn text_of(src: Seq<u8>, from: int, to: int) -> Seq<char> {
    decode_utf8(src.subrange(from, to))
}

/// The reserved words and their token types.
pub open spec fn reserved_words() -> Map<Seq<char>, TokenType> {
    Map::<Seq<char>, TokenType>::empty()
        .insert("and"@, TokenType::And)
        .insert("class"@, TokenType::Class)
        .insert("else"@, TokenType::Else)
        .insert("false"@, TokenType::False)
        .insert("for"@, TokenType::For)
        .insert("fun"@, TokenType::Fun)
        .insert("if"@, TokenType::If)
        .insert("nil"@, TokenType::Nil)
        .insert("or"@, TokenType::Or)
        .insert("print"@, TokenType::Print)
        .insert("return"@, TokenType::Return)
        .insert("super"@, TokenType::Super)
        .insert("this"@, TokenType::This)
        .insert("true"@, TokenType::True)
        .insert("var"@, TokenType::Var)
        .insert("while"@, TokenType::While)
}

/// The type of a word: that of the reserved word it spells in full, else
/// identifier.
pub open spec fn word_type(text: Seq<char>) -> TokenType {
    if reserved_words().contains_key(text) {
        reserved_words()[text]
    } else {
        TokenType::Identifier
    }
}

/// The type of a lexeme that is one punctuation byte, whatever follows.
pub open spec fn punctuation_type(b: u8) -> Option<TokenType> {
    if b == 0x28 {
        Some(TokenType::LeftParen)
    } else if b == 0x29 {
        Some(TokenType::RightParen)
    } else if b == 0x7b {
        Some(TokenType::LeftBrace)
    } else if b == 0x7d {
        Some(TokenType::RightBrace)
    } else if b == 0x2c {
        Some(TokenType::Comma)
    } else if b == DOT {
        Some(TokenType::Dot)
    } else if b == 0x2d {
        Some(TokenType::Minus)
    } else if b == 0x2b {
        Some(TokenType::Plus)
    } else if b == 0x3b {
        Some(TokenType::SemiColon)
    } else if b == 0x2a {
        Some(TokenType::Star)
    } else {
        None
    }
}

/// For a byte that starts an operator of one or two bytes: the type of the
/// operator alone, and its type when an equals sign follows.
pub open spec fn operator_types(b: u8) -> Option<(TokenType, TokenType)> {
    if b == 0x21 {
        Some((TokenType::Bang, TokenType::BangEqual))
    } else if b == EQUALS {
        Some((TokenType::Equal, TokenType::EqualEqual))
    } else if b == 0x3c {
        Some((TokenType::Lesser, TokenType::LesserEqual))
    } else if b == 0x3e {
        Some((TokenType::Greater, TokenType::GreaterEqual))
    } else {
        None
    }
}

/// Where the number that starts at `start` ends: after the longest run of
/// digits and, if a dot and a digit follow it, after the longest run of
/// digits behind that dot.
pub open spec fn number_end(src: Seq<u8>, start: int) -> int {
    let whole = run_end(src, ByteClass::Digit, start + 1);
    if byte_is(src, whole, DOT) && whole + 1 < src.len() && is_digit(src[whole + 1]) {
        run_end(src, ByteClass::Digit, whole + 2)
    } else {
        whole
    }
}

/// What the scanner makes of one lexeme.
pub enum Outcome {
    /// A token of this type.
    Emit(TokenType),
    /// Nothing: blank space or a comment.
    Skip,
    /// A byte that starts no lexeme.
    UnexpectedCharacter,
    /// A string whose closing quote is missing.
    UnterminatedString,
}

/// One step of the scanner: the offset just behind the lexeme, and what
/// becomes of it.
pub struct Step {
    pub end: int,
    pub outcome: Outcome,
}

/// The step that the scanner takes at `start`, an offset inside the source.
pub open spec fn step_at(src: Seq<u8>, start: int) -> Step {
    let b = src[start];
    let next = start + 1;
    if punctuation_type(b) is Some {
        Step { end: next, outcome: Outcome::Emit(punctuation_type(b).unwrap()) }
    } else if operator_types(b) is Some {
        if byte_is(src, next, EQUALS) {
            Step { end: next + 1, outcome: Outcome::Emit(operator_types(b).unwrap().1) }
        } else {
            Step { end: next, outcome: Outcome::Emit(operator_types(b).unwrap().0) }
        }
    } else if b == SLASH {
        if byte_is(src, next, SLASH) {
            Step { end: run_end(src, ByteClass::InLine, next + 1), outcome: Outcome::Skip }
        } else {
            Step { end: next, outcome: Outcome::Emit(TokenType::Slash) }
        }
    } else if is_blank(b) {
        Step { end: next, outcome: Outcome::Skip }
    } else if b == QUOTE {
        let close = run_end(src, ByteClass::InString, next);
        if close < src.len() {
            Step { end: close + 1, outcome: Outcome::Emit(TokenType::String) }
        } else {
            Step { end: close, outcome: Outcome::UnterminatedString }
        }
    } else if is_digit(b) {
        Step { end: number_end(src, start), outcome: Outcome::Emit(TokenType::Number) }
    } else if is_word_start(b) {
        let end = run_end(src, ByteClass::Word, next);
        Step { end, outcome: Outcome::Emit(word_type(text_of(src, start, end))) }
    } else {
        Step { end: next, outcome: Outcome::UnexpectedCharacter }
    }
}

/// A run ends at or after the offset where it starts, and inside the source.
pub proof fn lemma_run_end_bounds(src: Seq<u8>, class: ByteClass, from: int)
    requires
        0 <= from <= src.len(),
    ensures
        from <= run_end(src, class, from) <= src.len(),
    decreases src.len() - from,
{
    if from < src.len() && in_class(class, src[from]) {
        lemma_run_end_bounds(src, class, from + 1);
    }
}

/// Every step consumes at least one byte and stays inside the source.
pub proof fn lemma_step_advances(src: Seq<u8>, start: int)
    requires
        0 <= start < src.len(),
    ensures
        start < step_at(src, start).end <= src.len(),
{
    let next = start + 1;
    lemma_run_end_bounds(src, ByteClass::InString, next);
    lemma_run_end_bounds(src, ByteClass::Word, next);
    lemma_run_end_bounds(src, ByteClass::Digit, next);
    if next < src.len() {
        lemma_run_end_bounds(src, ByteClass::InLine, next + 1);
    }
    let whole = run_end(src, ByteClass::Digit, next);
    if whole + 1 < src.len() {
        lemma_run_end_bounds(src, ByteClass::Digit, whole + 2);
    }
}

/// The literal that a token of type `token_type` carries, whose lexeme runs
/// from `start` up to `end`: the text between the quotes of a string, the
/// numeral of a number, and none otherwise.
pub open spec fn literal_of(src: Seq<u8>, token_type: TokenType, start: int, end: int) -> Option<
    LiteralView,
> {
    match token_type {
        TokenType::String => Some(LiteralView::String(text_of(src, start + 1, end - 1))),
        TokenType::Number => Some(LiteralView::Number(text_of(src, start, end))),
        _ => None,
    }
}

/// The token of type `token_type` whose lexeme runs from `start` up to
/// `end`. Its position is that of its first byte.
pub open spec fn token_at(src: Seq<u8>, token_type: TokenType, start: int, end: int) -> TokenView {
    TokenView {
        token_type,
        lexeme: text_of(src, start, end),
        literal: literal_of(src, token_type, start, end),
        line: line_at(src, start),
        col: col_at(src, start),
    }
}

/// The token that ends every scan: empty, at the end of the source.
pub open spec fn eof_token(src: Seq<u8>) -> TokenView {
    TokenView {
        token_type: TokenType::Eof,
        lexeme: Seq::<char>::empty(),
        literal: None,
        line: line_at(src, src.len() as int),
        col: col_at(src, src.len() as int),
    }
}

/// The tokens that the step at `start` emits: one or none.
pub open spec fn step_tokens(src: Seq<u8>, start: int) -> Seq<TokenView> {
    let step = step_at(src, start);
    match step.outcome {
        Outcome::Emit(token_type) => seq![token_at(src, token_type, start, step.end)],
        _ => Seq::<TokenView>::empty(),
    }
}

/// What is reported for an unexpected character.
pub open spec fn unexpected_character_message() -> Seq<char> {
    "Unexpected Character"@
}

/// What is reported for a string without its closing quote.
pub open spec fn unterminated_string_message() -> Seq<char> {
    "Unterminated String."@
}

/// The diagnostics that the step at `start` reports: one or none. An
/// unexpected character is reported where it stands, an unterminated string
/// where the source ends.
pub open spec fn step_reports(src: Seq<u8>, start: int) -> Seq<DiagnosticView> {
    let step = step_at(src, start);
    match step.outcome {
        Outcome::UnexpectedCharacter => seq![
            DiagnosticView {
                line: line_at(src, start),
                col: col_at(src, start),
                place: Seq::<char>::empty(),
                message: unexpected_character_message(),
            },
        ],
        Outcome::UnterminatedString => seq![
            DiagnosticView {
                line: line_at(src, step.end),
                col: col_at(src, step.end),
                place: Seq::<char>::empty(),
                message: unterminated_string_message(),
            },
        ],
        _ => Seq::<DiagnosticView>::empty(),
    }
}

/// The tokens of the source from offset `from` on, the closing end-of-input
/// token included.
pub open spec fn tokens_from(src: Seq<u8>, from: int) -> Seq<TokenView>
    decreases src.len() - from,
    when from >= 0
    via tokens_from_terminates
{
    if from >= src.len() {
        seq![eof_token(src)]
    } else {
        step_tokens(src, from) + tokens_from(src, step_at(src, from).end)
    }
}

#[via_fn]
proof fn tokens_from_terminates(src: Seq<u8>, from: int) {
    if from < src.len() {
        lemma_step_advances(src, from);
    }
}

/// The diagnostics that scanning the source from offset `from` on reports,
/// in order.
pub open spec fn reports_from(src: Seq<u8>, from: int) -> Seq<DiagnosticView>
    decreases src.len() - from,
    when from >= 0
    via reports_from_terminates
{
    if from >= src.len() {
        Seq::<DiagnosticView>::empty()
    } else {
        step_reports(src, from) + reports_from(src, step_at(src, from).end)
    }
}

#[via_fn]
proof fn reports_from_terminates(src: Seq<u8>, from: int) {
    if from < src.len() {
        lemma_step_advances(src, from);
    }
}

/// The tokens of a whole source text.
pub open spec fn scan(src: Seq<u8>) -> Seq<TokenView> {
    tokens_from(src, 0)
}

/// The diagnostics of a whole source text.
pub open spec fn scan_reports(src: Seq<u8>) -> Seq<DiagnosticView> {
    reports_from(src, 0)
}

} // verus!
