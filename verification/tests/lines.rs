use vid::error::{LexError, LexErrorKind};
use vid::lex::classify::width_in_utf8;
use vid::lex::{Lexer, Token, TokenType};

fn lines_of(source: &str) -> Vec<usize> {
    let mut lexer = Lexer::new(source.to_string());
    lexer.parse().unwrap();
    lexer.tokens.iter().map(|token| token.line()).collect()
}

fn error_of(source: &str) -> LexError {
    let mut lexer = Lexer::new(source.to_string());
    lexer.parse().unwrap_err()
}

#[test]
fn tokens_start_on_line_one() {
    assert_eq!(lines_of("a b c"), vec![1, 1, 1, 1]);
}

#[test]
fn each_newline_adds_one_line() {
    assert_eq!(lines_of("a\nb\n\nc\n\n\nd"), vec![1, 2, 4, 7, 7]);
}

#[test]
fn end_marker_is_on_the_last_line_reached() {
    assert_eq!(lines_of("\n\n\n"), vec![4]);
    assert_eq!(lines_of("a\n"), vec![1, 2]);
    assert_eq!(lines_of("a\n   "), vec![1, 2]);
}

#[test]
fn carriage_return_adds_no_line() {
    assert_eq!(lines_of("a\r\nb\rc"), vec![1, 2, 2, 2]);
}

#[test]
fn line_difference_is_the_number_of_newlines_between() {
    let source = "one\n two three\n\n\nfour\nfive";
    let mut lexer = Lexer::new(source.to_string());
    lexer.parse().unwrap();
    let starts = [0usize, 5, 9, 17, 22, 26];
    assert_eq!(lexer.tokens.len(), starts.len());
    for i in 0..starts.len() {
        for j in i..starts.len() {
            let between = source[starts[i]..starts[j]].matches('\n').count();
            assert_eq!(lexer.tokens[j].line(), lexer.tokens[i].line() + between);
        }
    }
}

#[test]
fn newline_inside_a_string_counts_for_what_follows() {
    let mut lexer = Lexer::new("\"a\nb\" c".to_string());
    lexer.parse().unwrap();
    assert_eq!(
        lexer.tokens,
        vec![
            Token::new("a\nb", TokenType::StringLiteral, 1),
            Token::new("c", TokenType::Identifier, 2),
            Token::new("", TokenType::Eof, 2),
        ]
    );
}

#[test]
fn escaped_newline_adds_no_line() {
    assert_eq!(lines_of("\"a\\nb\" c"), vec![1, 1, 1]);
}

#[test]
fn newline_as_a_character_literal_counts() {
    let mut lexer = Lexer::new("'\n' x".to_string());
    lexer.parse().unwrap();
    assert_eq!(
        lexer.tokens,
        vec![
            Token::new("\n", TokenType::CharLiteral, 1),
            Token::new("x", TokenType::Identifier, 2),
            Token::new("", TokenType::Eof, 2),
        ]
    );
}

#[test]
fn unexpected_character_is_reported_with_its_place() {
    assert_eq!(
        error_of("let x = #;"),
        LexError { kind: LexErrorKind::UnexpectedCharacter('#'), position: 8, line: 1 }
    );
    assert_eq!(
        error_of("a\nb\n  @"),
        LexError { kind: LexErrorKind::UnexpectedCharacter('@'), position: 6, line: 3 }
    );
    assert_eq!(
        error_of("`"),
        LexError { kind: LexErrorKind::UnexpectedCharacter('`'), position: 0, line: 1 }
    );
}

#[test]
fn characters_beyond_ascii_begin_no_token() {
    for c in ['é', 'Ω', '٣', '✓', '𝒳', '\u{0}', '\u{7f}', '\u{a0}'] {
        assert_eq!(
            error_of(&c.to_string()),
            LexError { kind: LexErrorKind::UnexpectedCharacter(c), position: 0, line: 1 }
        );
    }
}

#[test]
fn position_counts_bytes() {
    assert_eq!(
        error_of("\"é\" #"),
        LexError { kind: LexErrorKind::UnexpectedCharacter('#'), position: 5, line: 1 }
    );
    assert_eq!(
        error_of("\"a✓𝒳\"\n$"),
        LexError { kind: LexErrorKind::UnexpectedCharacter('$'), position: 11, line: 2 }
    );
    let source = "\"ünï";
    assert_eq!(
        error_of(source),
        LexError { kind: LexErrorKind::UnterminatedString, position: source.len(), line: 1 }
    );
}

#[test]
fn failure_line_counts_newlines_inside_the_literal() {
    assert_eq!(
        error_of("\"a\nb\nc"),
        LexError { kind: LexErrorKind::UnterminatedString, position: 6, line: 3 }
    );
    assert_eq!(
        error_of("x\n'\n"),
        LexError { kind: LexErrorKind::UnterminatedChar, position: 4, line: 3 }
    );
}

#[test]
fn widths_in_utf8() {
    for c in ['\u{0}', 'a', '\u{7f}', '\u{80}', 'é', '\u{7ff}', '\u{800}', '✓', '\u{ffff}'] {
        assert_eq!(width_in_utf8(c), c.len_utf8());
    }
    assert_eq!(width_in_utf8('\u{10000}'), 4);
    assert_eq!(width_in_utf8('\u{10ffff}'), 4);
    assert_eq!(width_in_utf8('a'), 1);
    assert_eq!(width_in_utf8('é'), 2);
    assert_eq!(width_in_utf8('✓'), 3);
}
