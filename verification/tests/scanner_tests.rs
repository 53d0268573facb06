use rinterlox::expr::AstLiteral;
use rinterlox::init::Lox;
use rinterlox::scanner::error::LexError;
use rinterlox::scanner::scanner::Scanner;
use rinterlox::scanner::token::Token;
use rinterlox::scanner::token_type::TokenType;

fn scan(source: &str) -> (Vec<Token>, Lox) {
    let mut lox = Lox::new();
    let mut scanner = Scanner::new(source);
    let tokens = scanner.scan_tokens(&mut lox);
    (tokens, lox)
}

fn types(tokens: &[Token]) -> Vec<TokenType> {
    tokens.iter().map(|t| t.token_type()).collect()
}

fn lexemes(tokens: &[Token]) -> Vec<String> {
    tokens.iter().map(|t| t.lexeme().to_string()).collect()
}

fn number_of(token: &Token) -> f64 {
    match token.literal() {
        Some(AstLiteral::Number(text)) => text.parse::<f64>().unwrap(),
        other => panic!("not a number literal: {:?}", other),
    }
}

fn string_of(token: &Token) -> String {
    match token.literal() {
        Some(AstLiteral::String(text)) => text.clone(),
        other => panic!("not a string literal: {:?}", other),
    }
}

#[test]
fn empty_source_yields_only_eof() {
    let (tokens, lox) = scan("");
    assert_eq!(tokens.len(), 1);
    assert_eq!(tokens[0].token_type(), TokenType::Eof);
    assert_eq!(tokens[0].lexeme(), "");
    assert!(tokens[0].literal().is_none());
    assert_eq!(tokens[0].line(), 0);
    assert_eq!(tokens[0].col(), 0);
    assert!(!lox.had_error());
    assert_eq!(lox.report_count(), 0);
}

#[test]
fn one_plus_two() {
    let (tokens, lox) = scan("1+2");
    assert_eq!(
        types(&tokens),
        vec![TokenType::Number, TokenType::Plus, TokenType::Number, TokenType::Eof]
    );
    assert_eq!(lexemes(&tokens), vec!["1", "+", "2", ""]);
    assert_eq!(number_of(&tokens[0]), 1.0);
    assert!(tokens[1].literal().is_none());
    assert_eq!(number_of(&tokens[2]), 2.0);
    assert!(tokens[3].literal().is_none());
    assert_eq!(tokens[0].col(), 0);
    assert_eq!(tokens[1].col(), 1);
    assert_eq!(tokens[2].col(), 2);
    assert_eq!(tokens[3].col(), 3);
    assert!(!lox.had_error());
    assert_eq!(lox.report_count(), 0);
}

#[test]
fn unterminated_string_is_reported_once() {
    let (tokens, lox) = scan("\"abc");
    assert_eq!(types(&tokens), vec![TokenType::Eof]);
    assert!(lox.had_error());
    assert_eq!(lox.report_count(), 1);
    let report = lox.report_at(0);
    assert_eq!(report.message, "Unterminated String.");
    assert_eq!(report.place, "");
    assert_eq!(report.line, 0);
    assert_eq!(report.col, 4);
}

#[test]
fn unterminated_string_after_tokens() {
    let (tokens, lox) = scan("var a = \"never\nclosed");
    assert_eq!(
        types(&tokens),
        vec![TokenType::Var, TokenType::Identifier, TokenType::Equal, TokenType::Eof]
    );
    assert_eq!(lox.report_count(), 1);
    assert_eq!(lox.report_at(0).message, "Unterminated String.");
    assert_eq!(lox.report_at(0).line, 1);
    assert_eq!(lox.report_at(0).col, 6);
    assert_eq!(tokens[3].line(), 1);
    assert_eq!(tokens[3].col(), 6);
}

#[test]
fn keyword_is_matched_in_full() {
    let (tokens, lox) = scan("and andy");
    assert_eq!(types(&tokens), vec![TokenType::And, TokenType::Identifier, TokenType::Eof]);
    assert_eq!(lexemes(&tokens), vec!["and", "andy", ""]);
    assert!(tokens[0].literal().is_none());
    assert!(tokens[1].literal().is_none());
    assert!(!lox.had_error());
}

#[test]
fn newline_advances_the_line() {
    let (tokens, lox) = scan("a\nb");
    assert_eq!(
        types(&tokens),
        vec![TokenType::Identifier, TokenType::Identifier, TokenType::Eof]
    );
    assert_eq!(tokens[0].line(), 0);
    assert_eq!(tokens[1].line(), 1);
    assert!(tokens[0].line() < tokens[1].line());
    assert_eq!(tokens[0].col(), 0);
    assert_eq!(tokens[1].col(), 0);
    assert_eq!(tokens[2].line(), 1);
    assert_eq!(tokens[2].col(), 1);
    assert!(!lox.had_error());
}

#[test]
fn each_newline_counts_once() {
    let (tokens, _) = scan("a\n\n\n  b\n");
    assert_eq!(tokens[0].line(), 0);
    assert_eq!(tokens[1].line(), 3);
    assert_eq!(tokens[1].col(), 2);
    assert_eq!(tokens[2].token_type(), TokenType::Eof);
    assert_eq!(tokens[2].line(), 4);
    assert_eq!(tokens[2].col(), 0);
}

#[test]
fn bang_and_equal_operators() {
    let (tokens, lox) = scan("! != = ==");
    assert_eq!(
        types(&tokens),
        vec![
            TokenType::Bang,
            TokenType::BangEqual,
            TokenType::Equal,
            TokenType::EqualEqual,
            TokenType::Eof
        ]
    );
    assert_eq!(lexemes(&tokens), vec!["!", "!=", "=", "==", ""]);
    assert_eq!(tokens[0].col(), 0);
    assert_eq!(tokens[1].col(), 2);
    assert_eq!(tokens[2].col(), 5);
    assert_eq!(tokens[3].col(), 7);
    assert!(!lox.had_error());
}

#[test]
fn comparison_operators() {
    let (tokens, lox) = scan("< <= > >= <==");
    assert_eq!(
        types(&tokens),
        vec![
            TokenType::Lesser,
            TokenType::LesserEqual,
            TokenType::Greater,
            TokenType::GreaterEqual,
            TokenType::LesserEqual,
            TokenType::Equal,
            TokenType::Eof
        ]
    );
    assert!(!lox.had_error());
}

#[test]
fn adjacent_equals_pair_up_from_the_left() {
    let (tokens, _) = scan("===");
    assert_eq!(types(&tokens), vec![TokenType::EqualEqual, TokenType::Equal, TokenType::Eof]);
    let (tokens, _) = scan("!==");
    assert_eq!(types(&tokens), vec![TokenType::BangEqual, TokenType::Equal, TokenType::Eof]);
}

#[test]
fn unexpected_character_is_reported_and_skipped() {
    let (tokens, lox) = scan("a @ b");
    assert_eq!(
        types(&tokens),
        vec![TokenType::Identifier, TokenType::Identifier, TokenType::Eof]
    );
    assert_eq!(lexemes(&tokens), vec!["a", "b", ""]);
    assert!(lox.had_error());
    assert_eq!(lox.report_count(), 1);
    assert_eq!(lox.report_at(0).message, "Unexpected Character");
    assert_eq!(lox.report_at(0).line, 0);
    assert_eq!(lox.report_at(0).col, 2);
}

#[test]
fn unexpected_character_on_a_later_line() {
    let (tokens, lox) = scan("1\n2\n  #3");
    assert_eq!(
        types(&tokens),
        vec![TokenType::Number, TokenType::Number, TokenType::Number, TokenType::Eof]
    );
    assert_eq!(lox.report_count(), 1);
    assert_eq!(lox.report_at(0).message, "Unexpected Character");
    assert_eq!(lox.report_at(0).line, 2);
    assert_eq!(lox.report_at(0).col, 2);
    assert_eq!(tokens[2].line(), 2);
    assert_eq!(tokens[2].col(), 3);
}

#[test]
fn every_malformed_lexeme_is_reported_in_order() {
    let (tokens, lox) = scan("@\n$ \"open");
    assert_eq!(types(&tokens), vec![TokenType::Eof]);
    assert_eq!(lox.report_count(), 3);
    assert_eq!(lox.report_at(0).message, "Unexpected Character");
    assert_eq!((lox.report_at(0).line, lox.report_at(0).col), (0, 0));
    assert_eq!(lox.report_at(1).message, "Unexpected Character");
    assert_eq!((lox.report_at(1).line, lox.report_at(1).col), (1, 0));
    assert_eq!(lox.report_at(2).message, "Unterminated String.");
    assert_eq!((lox.report_at(2).line, lox.report_at(2).col), (1, 7));
}

#[test]
fn punctuation() {
    let (tokens, lox) = scan("(){},.-+;*/");
    assert_eq!(
        types(&tokens),
        vec![
            TokenType::LeftParen,
            TokenType::RightParen,
            TokenType::LeftBrace,
            TokenType::RightBrace,
            TokenType::Comma,
            TokenType::Dot,
            TokenType::Minus,
            TokenType::Plus,
            TokenType::SemiColon,
            TokenType::Star,
            TokenType::Slash,
            TokenType::Eof
        ]
    );
    assert_eq!(lexemes(&tokens), vec!["(", ")", "{", "}", ",", ".", "-", "+", ";", "*", "/", ""]);
    for (i, token) in tokens.iter().enumerate() {
        assert_eq!(token.col(), i);
        assert_eq!(token.line(), 0);
        assert!(token.literal().is_none());
    }
    assert!(!lox.had_error());
}

#[test]
fn comment_runs_to_the_end_of_the_line() {
    let (tokens, lox) = scan("a // b + c \"\nd");
    assert_eq!(
        types(&tokens),
        vec![TokenType::Identifier, TokenType::Identifier, TokenType::Eof]
    );
    assert_eq!(lexemes(&tokens), vec!["a", "d", ""]);
    assert_eq!(tokens[1].line(), 1);
    assert!(!lox.had_error());
}

#[test]
fn comment_at_the_end_of_the_source() {
    let (tokens, lox) = scan("1 // the rest");
    assert_eq!(types(&tokens), vec![TokenType::Number, TokenType::Eof]);
    assert_eq!(tokens[1].col(), 13);
    assert!(!lox.had_error());
    let (tokens, _) = scan("//");
    assert_eq!(types(&tokens), vec![TokenType::Eof]);
}

#[test]
fn slash_alone_is_a_token() {
    let (tokens, _) = scan("8 / 2");
    assert_eq!(
        types(&tokens),
        vec![TokenType::Number, TokenType::Slash, TokenType::Number, TokenType::Eof]
    );
    let (tokens, _) = scan("/");
    assert_eq!(types(&tokens), vec![TokenType::Slash, TokenType::Eof]);
}

#[test]
fn blank_space_emits_nothing() {
    let (tokens, lox) = scan(" \t\r\n \t");
    assert_eq!(types(&tokens), vec![TokenType::Eof]);
    assert_eq!(tokens[0].line(), 1);
    assert_eq!(tokens[0].col(), 2);
    assert!(!lox.had_error());
}

#[test]
fn string_literal_holds_the_text_between_the_quotes() {
    let (tokens, lox) = scan("print \"hello, world\";");
    assert_eq!(
        types(&tokens),
        vec![TokenType::Print, TokenType::String, TokenType::SemiColon, TokenType::Eof]
    );
    assert_eq!(tokens[1].lexeme(), "\"hello, world\"");
    assert_eq!(string_of(&tokens[1]), "hello, world");
    assert_eq!(tokens[1].col(), 6);
    assert_eq!(tokens[2].col(), 20);
    assert!(!lox.had_error());
}

#[test]
fn empty_string_literal() {
    let (tokens, lox) = scan("\"\"");
    assert_eq!(types(&tokens), vec![TokenType::String, TokenType::Eof]);
    assert_eq!(tokens[0].lexeme(), "\"\"");
    assert_eq!(string_of(&tokens[0]), "");
    assert!(!lox.had_error());
}

#[test]
fn string_may_span_lines() {
    let (tokens, lox) = scan("x \"one\ntwo\" y");
    assert_eq!(
        types(&tokens),
        vec![TokenType::Identifier, TokenType::String, TokenType::Identifier, TokenType::Eof]
    );
    assert_eq!(string_of(&tokens[1]), "one\ntwo");
    assert_eq!(tokens[1].lexeme(), "\"one\ntwo\"");
    assert_eq!((tokens[1].line(), tokens[1].col()), (0, 2));
    assert_eq!((tokens[2].line(), tokens[2].col()), (1, 5));
    assert!(!lox.had_error());
}

#[test]
fn string_may_hold_any_text() {
    let (tokens, lox) = scan("\"h\u{e9}llo \u{4e16}\u{754c} // @ \u{1f600}\" z");
    assert_eq!(types(&tokens), vec![TokenType::String, TokenType::Identifier, TokenType::Eof]);
    assert_eq!(string_of(&tokens[0]), "h\u{e9}llo \u{4e16}\u{754c} // @ \u{1f600}");
    assert_eq!(tokens[0].lexeme(), "\"h\u{e9}llo \u{4e16}\u{754c} // @ \u{1f600}\"");
    assert_eq!(tokens[1].lexeme(), "z");
    assert!(!lox.had_error());
}

#[test]
fn text_outside_ascii_is_unexpected_byte_by_byte() {
    let (tokens, lox) = scan("a \u{e9} b");
    assert_eq!(
        types(&tokens),
        vec![TokenType::Identifier, TokenType::Identifier, TokenType::Eof]
    );
    assert_eq!(lox.report_count(), 2);
    assert_eq!(lox.report_at(0).message, "Unexpected Character");
    assert_eq!(lox.report_at(0).col, 2);
    assert_eq!(lox.report_at(1).message, "Unexpected Character");
    assert_eq!(lox.report_at(1).col, 3);
    assert_eq!(tokens[1].col(), 5);
}

#[test]
fn comment_may_hold_any_text() {
    let (tokens, lox) = scan("// \u{4e16}\u{754c} \"\n7");
    assert_eq!(types(&tokens), vec![TokenType::Number, TokenType::Eof]);
    assert_eq!(tokens[0].line(), 1);
    assert!(!lox.had_error());
}

#[test]
fn number_with_a_fraction() {
    let (tokens, lox) = scan("12.5");
    assert_eq!(types(&tokens), vec![TokenType::Number, TokenType::Eof]);
    assert_eq!(tokens[0].lexeme(), "12.5");
    assert_eq!(number_of(&tokens[0]), 12.5);
    assert!(!lox.had_error());
}

#[test]
fn number_does_not_take_a_trailing_dot() {
    let (tokens, _) = scan("12.");
    assert_eq!(types(&tokens), vec![TokenType::Number, TokenType::Dot, TokenType::Eof]);
    assert_eq!(tokens[0].lexeme(), "12");
    assert_eq!(number_of(&tokens[0]), 12.0);
    let (tokens, _) = scan("12.a");
    assert_eq!(
        types(&tokens),
        vec![TokenType::Number, TokenType::Dot, TokenType::Identifier, TokenType::Eof]
    );
}

#[test]
fn number_does_not_take_a_leading_dot() {
    let (tokens, _) = scan(".5");
    assert_eq!(types(&tokens), vec![TokenType::Dot, TokenType::Number, TokenType::Eof]);
    assert_eq!(number_of(&tokens[1]), 5.0);
}

#[test]
fn number_takes_one_fraction_only() {
    let (tokens, _) = scan("1.2.3");
    assert_eq!(
        types(&tokens),
        vec![TokenType::Number, TokenType::Dot, TokenType::Number, TokenType::Eof]
    );
    assert_eq!(number_of(&tokens[0]), 1.2);
    assert_eq!(number_of(&tokens[2]), 3.0);
}

#[test]
fn number_takes_every_digit() {
    let (tokens, _) = scan("0123456789.9876543210x");
    assert_eq!(types(&tokens), vec![TokenType::Number, TokenType::Identifier, TokenType::Eof]);
    assert_eq!(tokens[0].lexeme(), "0123456789.9876543210");
    assert_eq!(number_of(&tokens[0]), 123456789.987654321);
    assert_eq!(tokens[1].lexeme(), "x");
}

#[test]
fn number_literal_keeps_the_numeral() {
    let (tokens, _) = scan("007.250");
    match tokens[0].literal() {
        Some(AstLiteral::Number(text)) => assert_eq!(text, "007.250"),
        other => panic!("not a number literal: {:?}", other),
    }
    assert_eq!(number_of(&tokens[0]), 7.25);
}

#[test]
fn every_reserved_word() {
    let (tokens, lox) = scan(
        "and class else false fun for if nil or print return super this true var while",
    );
    assert_eq!(
        types(&tokens),
        vec![
            TokenType::And,
            TokenType::Class,
            TokenType::Else,
            TokenType::False,
            TokenType::Fun,
            TokenType::For,
            TokenType::If,
            TokenType::Nil,
            TokenType::Or,
            TokenType::Print,
            TokenType::Return,
            TokenType::Super,
            TokenType::This,
            TokenType::True,
            TokenType::Var,
            TokenType::While,
            TokenType::Eof
        ]
    );
    for token in tokens.iter() {
        assert!(token.literal().is_none());
    }
    assert!(!lox.had_error());
}

#[test]
fn reserved_words_are_case_sensitive_and_whole() {
    let (tokens, _) = scan("And AND an ands _and and_ and1 classy form nilnil");
    for token in &tokens[..tokens.len() - 1] {
        assert_eq!(token.token_type(), TokenType::Identifier);
    }
    assert_eq!(tokens.len(), 11);
}

#[test]
fn identifier_takes_letters_digits_and_underscores() {
    let (tokens, lox) = scan("_a1_B2__ x9-y");
    assert_eq!(
        types(&tokens),
        vec![
            TokenType::Identifier,
            TokenType::Identifier,
            TokenType::Minus,
            TokenType::Identifier,
            TokenType::Eof
        ]
    );
    assert_eq!(lexemes(&tokens), vec!["_a1_B2__", "x9", "-", "y", ""]);
    assert!(!lox.had_error());
}

#[test]
fn digits_before_letters_are_a_number_and_a_word() {
    let (tokens, _) = scan("12abc");
    assert_eq!(types(&tokens), vec![TokenType::Number, TokenType::Identifier, TokenType::Eof]);
    assert_eq!(lexemes(&tokens), vec!["12", "abc", ""]);
}

#[test]
fn nul_byte_is_unexpected() {
    let (tokens, lox) = scan("a\0b");
    assert_eq!(
        types(&tokens),
        vec![TokenType::Identifier, TokenType::Identifier, TokenType::Eof]
    );
    assert_eq!(lox.report_count(), 1);
    assert_eq!(lox.report_at(0).col, 1);
}

#[test]
fn a_small_program() {
    let source = "var total = 0;\nfor (var i = 1; i <= 10; i = i + 1) {\n  total = total + i; // sum\n}\nprint total;\n";
    let (tokens, lox) = scan(source);
    assert!(!lox.had_error());
    assert_eq!(tokens.len(), 34);
    assert_eq!(tokens[0].token_type(), TokenType::Var);
    assert_eq!(tokens[5].token_type(), TokenType::For);
    assert_eq!((tokens[5].line(), tokens[5].col()), (1, 0));
    assert_eq!(tokens[13].token_type(), TokenType::LesserEqual);
    assert_eq!((tokens[13].line(), tokens[13].col()), (1, 18));
    assert_eq!(number_of(&tokens[14]), 10.0);
    assert_eq!(tokens[30].token_type(), TokenType::Print);
    assert_eq!((tokens[30].line(), tokens[30].col()), (4, 0));
    assert_eq!(tokens[33].token_type(), TokenType::Eof);
    assert_eq!((tokens[33].line(), tokens[33].col()), (5, 0));
    for pair in tokens.windows(2) {
        assert!(pair[0].line() <= pair[1].line());
    }
    for token in &tokens[..33] {
        assert_ne!(token.token_type(), TokenType::Eof);
    }
}

#[test]
fn scanning_again_adds_only_the_end_marker() {
    let mut lox = Lox::new();
    let mut scanner = Scanner::new("a @");
    let first = scanner.scan_tokens(&mut lox);
    assert_eq!(types(&first), vec![TokenType::Identifier, TokenType::Eof]);
    assert_eq!(lox.report_count(), 1);
    let second = scanner.scan_tokens(&mut lox);
    assert_eq!(types(&second), vec![TokenType::Identifier, TokenType::Eof, TokenType::Eof]);
    assert_eq!(lox.report_count(), 1);
}

#[test]
fn sink_keeps_its_flag_across_scans() {
    let mut lox = Lox::new();
    let mut bad = Scanner::new("?");
    bad.scan_tokens(&mut lox);
    assert!(lox.had_error());
    let mut good = Scanner::new("ok");
    good.scan_tokens(&mut lox);
    assert!(lox.had_error());
    assert_eq!(lox.report_count(), 1);
    lox.reset();
    assert!(!lox.had_error());
    assert_eq!(lox.report_count(), 0);
    let mut again = Scanner::new("ok");
    again.scan_tokens(&mut lox);
    assert!(!lox.had_error());
}

#[test]
fn each_error_has_its_message() {
    assert_eq!(LexError::UnexpectedCharacter.message(), "Unexpected Character");
    assert_eq!(LexError::UnterminatedString.message(), "Unterminated String.");
    let (_, lox) = scan("^");
    assert_eq!(lox.report_at(0).message, LexError::UnexpectedCharacter.message());
    let (_, lox) = scan("\"");
    assert_eq!(lox.report_at(0).message, LexError::UnterminatedString.message());
    assert_eq!((lox.report_at(0).line, lox.report_at(0).col), (0, 1));
}
