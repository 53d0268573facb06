//! What holds of every scan, proved from the grammar.

use super::grammar::{
    byte_is, col_at, eof_token, in_class, is_blank, is_digit, is_word_start, lemma_step_advances,
    line_at, number_end, operator_types, punctuation_type, reports_from, run_end, scan,
    scan_reports, step_at, step_reports, step_tokens, text_of, token_at, tokens_from,
    unexpected_character_message, unterminated_string_message, word_type, ByteClass, Outcome,
    Step, DOT, EQUALS, NEWLINE, QUOTE, SLASH,
};
use super::token::TokenView;
use super::token_type::TokenType;
use crate::init::DiagnosticView;
use vstd::prelude::*;
use super::text::{lemma_ascii_is_bounded, lemma_boundary_in_prefix};
use vstd::utf8::{
    decode_utf8_encode_utf8, encode_utf8, encode_utf8_decode_utf8, is_ascii_chars,
    is_ascii_chars_encode_utf8, is_char_boundary, valid_utf8, valid_utf8_split,
};

verus! {

/// Maximal munch: a run holds only bytes of its class, and it stops only at
/// the end of the source or at a byte outside the class.
pub proof fn lemma_run_end_is_maximal(src: Seq<u8>, class: ByteClass, from: int)
    requires
        0 <= from <= src.len(),
    ensures
        from <= run_end(src, class, from) <= src.len(),
        forall|i: int| from <= i < run_end(src, class, from) ==> in_class(class, #[trigger] src[i]),
        run_end(src, class, from) < src.len() ==> !in_class(
            class,
            src[run_end(src, class, from)],
        ),
    decreases src.len() - from,
{
    if from < src.len() && in_class(class, src[from]) {
        lemma_run_end_is_maximal(src, class, from + 1);
    }
}

/// A scan is never empty: it ends with the end-of-input token, and no
/// token before that one is an end-of-input token.
pub proof fn lemma_scan_ends_with_eof(src: Seq<u8>, from: int)
    requires
        0 <= from <= src.len(),
    ensures
        tokens_from(src, from).len() >= 1,
        tokens_from(src, from).last() == eof_token(src),
        forall|i: int|
            0 <= i < tokens_from(src, from).len() - 1 ==> (#[trigger] tokens_from(
                src,
                from,
            )[i]).token_type != TokenType::Eof,
    decreases src.len() - from,
{
    if from < src.len() {
        lemma_step_advances(src, from);
        lemma_scan_ends_with_eof(src, step_at(src, from).end);
    }
}

/// Scanning an empty source gives the end-of-input token alone, at line
/// zero and column zero, and reports nothing.
pub proof fn lemma_scan_empty(src: Seq<u8>)
    requires
        src.len() == 0,
    ensures
        scan(src) == seq![eof_token(src)],
        eof_token(src).line == 0,
        eof_token(src).col == 0,
        scan_reports(src) == Seq::<DiagnosticView>::empty(),
{
}

/// A string that is opened at `start` and never closed takes the rest of
/// the source: it emits no token, is reported once, at the end of the
/// source, and the scan ends with the end-of-input token.
pub proof fn lemma_unterminated_string(src: Seq<u8>, start: int)
    requires
        0 <= start < src.len(),
        src[start] == QUOTE,
        forall|i: int| start < i < src.len() ==> src[i] != QUOTE,
    ensures
        tokens_from(src, start) == seq![eof_token(src)],
        reports_from(src, start) == seq![
            DiagnosticView {
                line: line_at(src, src.len() as int),
                col: col_at(src, src.len() as int),
                place: Seq::<char>::empty(),
                message: unterminated_string_message(),
            },
        ],
{
    lemma_run_end_is_maximal(src, ByteClass::InString, start + 1);
    let step = step_at(src, start);
    assert(step.end == src.len());
    assert(tokens_from(src, step.end) =~= seq![eof_token(src)]);
    assert(reports_from(src, step.end) =~= Seq::<DiagnosticView>::empty());
    assert(step_tokens(src, start) =~= Seq::<TokenView>::empty());
    assert(tokens_from(src, start) =~= seq![eof_token(src)]);
    assert(reports_from(src, start) =~= step_reports(src, start));
}

/// A string that is opened at `start` is closed by the next double quote,
/// whatever lies between the two, newlines included.
pub proof fn lemma_string_closes_at_next_quote(src: Seq<u8>, start: int, close: int)
    requires
        0 <= start < close < src.len(),
        src[start] == QUOTE,
        src[close] == QUOTE,
        forall|i: int| start < i < close ==> src[i] != QUOTE,
    ensures
        step_at(src, start).end == close + 1,
        step_at(src, start).outcome == Outcome::Emit(TokenType::String),
    decreases close - start,
{
    lemma_run_reaches(src, ByteClass::InString, start + 1, close);
}

/// A run that starts at `from` ends at `to` if every byte between the two
/// is in the class and the byte at `to` is not.
pub proof fn lemma_run_reaches(src: Seq<u8>, class: ByteClass, from: int, to: int)
    requires
        0 <= from <= to <= src.len(),
        forall|i: int| from <= i < to ==> in_class(class, #[trigger] src[i]),
        to < src.len() ==> !in_class(class, src[to]),
    ensures
        run_end(src, class, from) == to,
    decreases to - from,
{
    if from < to {
        lemma_run_reaches(src, class, from + 1, to);
    }
}

/// Whether a byte starts no lexeme of the language.
pub open spec fn starts_no_lexeme(b: u8) -> bool {
    &&& punctuation_type(b) is None
    &&& operator_types(b) is None
    &&& b != SLASH
    &&& b != QUOTE
    &&& !is_blank(b)
    &&& !is_digit(b)
    &&& !is_word_start(b)
}

/// A byte that starts no lexeme emits no token and is reported once, at its
/// own line and column; the scan goes on with the byte behind it.
pub proof fn lemma_unexpected_character(src: Seq<u8>, at: int)
    requires
        0 <= at < src.len(),
        starts_no_lexeme(src[at]),
    ensures
        tokens_from(src, at) == tokens_from(src, at + 1),
        reports_from(src, at) == seq![
            DiagnosticView {
                line: line_at(src, at),
                col: col_at(src, at),
                place: Seq::<char>::empty(),
                message: unexpected_character_message(),
            },
        ] + reports_from(src, at + 1),
{
    assert(tokens_from(src, at) =~= tokens_from(src, at + 1));
}

/// The longer operator wins: where an equals sign follows `!`, `=`, `<` or
/// `>`, the two bytes are one token, and the equals sign starts no lexeme
/// of its own.
pub proof fn lemma_operator_prefers_longer(src: Seq<u8>, start: int)
    requires
        0 <= start < src.len(),
        operator_types(src[start]) is Some,
    ensures
        byte_is(src, start + 1, EQUALS) ==> step_at(src, start) == (Step {
            end: start + 2,
            outcome: Outcome::Emit(operator_types(src[start]).unwrap().1),
        }),
        !byte_is(src, start + 1, EQUALS) ==> step_at(src, start) == (Step {
            end: start + 1,
            outcome: Outcome::Emit(operator_types(src[start]).unwrap().0),
        }),
{
}

/// A word never carries a literal, and never ends the scan: its type is
/// that of a reserved word, or identifier.
pub proof fn lemma_word_has_no_literal(text: Seq<char>)
    ensures
        word_type(text) != TokenType::String,
        word_type(text) != TokenType::Number,
        word_type(text) != TokenType::Eof,
{
}

/// Reserved words are matched in full: each of the sixteen spellings has
/// its own type, and every other word is an identifier, also one that a
/// reserved word is the beginning of.
pub proof fn lemma_reserved_words_exact()
    ensures
        word_type("and"@) == TokenType::And,
        word_type("class"@) == TokenType::Class,
        word_type("else"@) == TokenType::Else,
        word_type("false"@) == TokenType::False,
        word_type("for"@) == TokenType::For,
        word_type("fun"@) == TokenType::Fun,
        word_type("if"@) == TokenType::If,
        word_type("nil"@) == TokenType::Nil,
        word_type("or"@) == TokenType::Or,
        word_type("print"@) == TokenType::Print,
        word_type("return"@) == TokenType::Return,
        word_type("super"@) == TokenType::Super,
        word_type("this"@) == TokenType::This,
        word_type("true"@) == TokenType::True,
        word_type("var"@) == TokenType::Var,
        word_type("while"@) == TokenType::While,
        forall|text: Seq<char>|
            #![trigger word_type(text)]
            text != "and"@ && text != "class"@ && text != "else"@ && text != "false"@ && text
                != "for"@ && text != "fun"@ && text != "if"@ && text != "nil"@ && text != "or"@
                && text != "print"@ && text != "return"@ && text != "super"@ && text != "this"@
                && text != "true"@ && text != "var"@ && text != "while"@ ==> word_type(text)
                == TokenType::Identifier,
        forall|text: Seq<char>|
            #![trigger word_type(text)]
            text.len() < 2 || text.len() > 6 ==> word_type(text) == TokenType::Identifier,
{
    reveal_strlit("and");
    reveal_strlit("class");
    reveal_strlit("else");
    reveal_strlit("false");
    reveal_strlit("for");
    reveal_strlit("fun");
    reveal_strlit("if");
    reveal_strlit("nil");
    reveal_strlit("or");
    reveal_strlit("print");
    reveal_strlit("return");
    reveal_strlit("super");
    reveal_strlit("this");
    reveal_strlit("true");
    reveal_strlit("var");
    reveal_strlit("while");
    assert("and"@.len() == 3 && "and"@[0] == 'a' && "and"@[1] == 'n');
    assert("class"@.len() == 5 && "class"@[0] == 'c' && "class"@[1] == 'l');
    assert("else"@.len() == 4 && "else"@[0] == 'e' && "else"@[1] == 'l');
    assert("false"@.len() == 5 && "false"@[0] == 'f' && "false"@[1] == 'a');
    assert("for"@.len() == 3 && "for"@[0] == 'f' && "for"@[1] == 'o');
    assert("fun"@.len() == 3 && "fun"@[0] == 'f' && "fun"@[1] == 'u');
    assert("if"@.len() == 2 && "if"@[0] == 'i' && "if"@[1] == 'f');
    assert("nil"@.len() == 3 && "nil"@[0] == 'n' && "nil"@[1] == 'i');
    assert("or"@.len() == 2 && "or"@[0] == 'o' && "or"@[1] == 'r');
    assert("print"@.len() == 5 && "print"@[0] == 'p' && "print"@[1] == 'r');
    assert("return"@.len() == 6 && "return"@[0] == 'r' && "return"@[1] == 'e');
    assert("super"@.len() == 5 && "super"@[0] == 's' && "super"@[1] == 'u');
    assert("this"@.len() == 4 && "this"@[0] == 't' && "this"@[1] == 'h');
    assert("true"@.len() == 4 && "true"@[0] == 't' && "true"@[1] == 'r');
    assert("var"@.len() == 3 && "var"@[0] == 'v' && "var"@[1] == 'a');
    assert("while"@.len() == 5 && "while"@[0] == 'w' && "while"@[1] == 'h');
}

/// The number of newlines among the bytes from `from` up to `to`.
pub open spec fn newlines_in(src: Seq<u8>, from: int, to: int) -> nat {
    src.subrange(from, to).filter(|b: u8| b == NEWLINE).len()
}

/// The line counter grows by exactly one for each newline consumed, and by
/// nothing else.
pub proof fn lemma_line_counts_newlines(src: Seq<u8>, from: int, to: int)
    requires
        0 <= from <= to <= src.len(),
    ensures
        line_at(src, to) == line_at(src, from) + newlines_in(src, from, to),
    decreases to - from,
{
    reveal(Seq::filter);
    if from < to {
        lemma_line_counts_newlines(src, from, to - 1);
        assert(src.subrange(from, to).drop_last() =~= src.subrange(from, to - 1));
        assert(src.subrange(from, to).last() == src[to - 1]);
    }
}

/// Lines never go back, and two offsets with a newline between them lie on
/// different lines: what starts behind the newline has the greater line.
pub proof fn lemma_line_grows(src: Seq<u8>, from: int, to: int)
    requires
        0 <= from <= to <= src.len(),
    ensures
        line_at(src, from) <= line_at(src, to),
        (exists|i: int| from <= i < to && src[i] == NEWLINE) ==> line_at(src, from) < line_at(
            src,
            to,
        ),
    decreases to - from,
{
    if from < to {
        lemma_line_grows(src, from, to - 1);
    }
}

/// Of two tokens with a newline between their first bytes, the later one
/// reports the greater line.
pub proof fn lemma_tokens_across_newline(
    src: Seq<u8>,
    first: TokenType,
    first_start: int,
    first_end: int,
    second: TokenType,
    second_start: int,
    second_end: int,
)
    requires
        0 <= first_start <= second_start <= src.len(),
        exists|i: int| first_start <= i < second_start && src[i] == NEWLINE,
    ensures
        token_at(src, first, first_start, first_end).line < token_at(
            src,
            second,
            second_start,
            second_end,
        ).line,
{
    lemma_line_grows(src, first_start, second_start);
}

/// The tokens of a scan come in the order of their lines, and none lies
/// before the line on which the scan began.
pub proof fn lemma_token_lines_ordered(src: Seq<u8>, from: int)
    requires
        0 <= from <= src.len(),
    ensures
        forall|i: int|
            0 <= i < tokens_from(src, from).len() ==> line_at(src, from) <= (#[trigger] tokens_from(
                src,
                from,
            )[i]).line,
        forall|i: int, j: int|
            0 <= i <= j < tokens_from(src, from).len() ==> (#[trigger] tokens_from(
                src,
                from,
            )[i]).line <= (#[trigger] tokens_from(src, from)[j]).line,
    decreases src.len() - from,
{
    if from < src.len() {
        lemma_step_advances(src, from);
        let next = step_at(src, from).end;
        lemma_token_lines_ordered(src, next);
        lemma_line_grows(src, from, next);
    } else {
        lemma_line_grows(src, from, src.len() as int);
    }
}

/// Whether every byte of `s` is a decimal digit.
pub open spec fn all_digits(s: Seq<u8>) -> bool {
    forall|i: int| 0 <= i < s.len() ==> is_digit(#[trigger] s[i])
}

/// Whether `s` is a decimal numeral: one or more digits, or one or more
/// digits, a dot, and one or more digits.
pub open spec fn is_numeral(s: Seq<u8>) -> bool {
    ||| s.len() > 0 && all_digits(s)
    ||| exists|dot: int|
        0 < dot < s.len() - 1 && #[trigger] s[dot] == DOT && all_digits(s.subrange(0, dot))
            && all_digits(s.subrange(dot + 1, s.len() as int))
}

/// The lexeme of a number is a decimal numeral, and the longest one that
/// starts where it starts: neither a digit nor a dot with a digit behind
/// it follows.
pub proof fn lemma_number_is_numeral(src: Seq<u8>, start: int)
    requires
        0 <= start < src.len(),
        is_digit(src[start]),
    ensures
        start < number_end(src, start) <= src.len(),
        is_numeral(src.subrange(start, number_end(src, start))),
        number_end(src, start) < src.len() ==> !is_digit(src[number_end(src, start)]),
{
    let whole = run_end(src, ByteClass::Digit, start + 1);
    lemma_run_end_is_maximal(src, ByteClass::Digit, start + 1);
    let end = number_end(src, start);
    let s = src.subrange(start, end);
    if end == whole {
        assert forall|i: int| 0 <= i < s.len() implies is_digit(#[trigger] s[i]) by {
            assert(s[i] == src[start + i]);
        }
    } else {
        lemma_run_end_is_maximal(src, ByteClass::Digit, whole + 2);
        let dot = whole - start;
        assert(s[dot] == src[whole]);
        let head = s.subrange(0, dot);
        let tail = s.subrange(dot + 1, s.len() as int);
        assert forall|i: int| 0 <= i < head.len() implies is_digit(#[trigger] head[i]) by {
            assert(head[i] == src[start + i]);
        }
        assert forall|i: int| 0 <= i < tail.len() implies is_digit(#[trigger] tail[i]) by {
            assert(tail[i] == src[whole + 1 + i]);
        }
    }
}

/// Bytes below `0x80` stand for themselves: the text of such a stretch of
/// the source has one character for each byte, with the same number.
pub proof fn lemma_ascii_text(src: Seq<u8>, from: int, to: int)
    requires
        0 <= from <= to <= src.len(),
        forall|i: int| from <= i < to ==> #[trigger] src[i] <= 0x7f,
    ensures
        text_of(src, from, to) == Seq::new((to - from) as nat, |i: int| src[from + i] as char),
{
    let bytes = src.subrange(from, to);
    let chars = Seq::new((to - from) as nat, |i: int| src[from + i] as char);
    assert(is_ascii_chars(chars));
    is_ascii_chars_encode_utf8(chars);
    assert(encode_utf8(chars) =~= bytes);
    encode_utf8_decode_utf8(chars);
}

/// A token starts and ends with a byte below `0x80`, so that no character
/// of the source is cut in two by it.
pub proof fn lemma_token_ends_are_ascii(src: Seq<u8>, start: int)
    requires
        0 <= start < src.len(),
        step_at(src, start).outcome is Emit,
    ensures
        start < step_at(src, start).end <= src.len(),
        src[start] <= 0x7f,
        src[step_at(src, start).end - 1] <= 0x7f,
{
    lemma_step_advances(src, start);
    lemma_run_end_is_maximal(src, ByteClass::InString, start + 1);
    lemma_run_end_is_maximal(src, ByteClass::Word, start + 1);
    lemma_run_end_is_maximal(src, ByteClass::Digit, start + 1);
    let whole = run_end(src, ByteClass::Digit, start + 1);
    if whole + 1 < src.len() {
        lemma_run_end_is_maximal(src, ByteClass::Digit, whole + 2);
    }
}

/// The lexeme of a token is the exact text of the source from the start of
/// the token up to its end, and the literal of a string is the exact text
/// between its quotes: encoded again, each gives back the bytes it was
/// read from.
pub proof fn lemma_lexeme_is_source_text(src: Seq<u8>, start: int)
    requires
        valid_utf8(src),
        0 <= start < src.len(),
        step_at(src, start).outcome is Emit,
    ensures
        encode_utf8(text_of(src, start, step_at(src, start).end)) == src.subrange(
            start,
            step_at(src, start).end,
        ),
        step_at(src, start).outcome == Outcome::Emit(TokenType::String) ==> encode_utf8(
            text_of(src, start + 1, step_at(src, start).end - 1),
        ) == src.subrange(start + 1, step_at(src, start).end - 1),
{
    let end = step_at(src, start).end;
    lemma_token_ends_are_ascii(src, start);
    lemma_ascii_is_bounded(src, start);
    lemma_ascii_is_bounded(src, end - 1);
    lemma_source_text(src, start, end);
    if step_at(src, start).outcome == Outcome::Emit(TokenType::String) {
        lemma_run_end_is_maximal(src, ByteClass::InString, start + 1);
        lemma_source_text(src, start + 1, end - 1);
    }
}

/// The text between two character boundaries encodes to the bytes between
/// them.
pub proof fn lemma_source_text(src: Seq<u8>, from: int, to: int)
    requires
        valid_utf8(src),
        0 <= from <= to <= src.len(),
        is_char_boundary(src, from),
        is_char_boundary(src, to),
    ensures
        valid_utf8(src.subrange(from, to)),
        encode_utf8(text_of(src, from, to)) == src.subrange(from, to),
{
    lemma_boundary_in_prefix(src, from, to);
    let head = src.subrange(0, to);
    valid_utf8_split(head, from);
    assert(head.subrange(from, head.len() as int) =~= src.subrange(from, to));
    decode_utf8_encode_utf8(src.subrange(from, to));
}

} // verus!
