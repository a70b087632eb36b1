use vid::error::{LexError, LexErrorKind};
use vid::lex::classify::{unescape_in_char, unescape_in_string};
use vid::lex::{Lexer, Token, TokenType};

fn literal_tokens(source: &str) -> Vec<Token> {
    let mut lexer = Lexer::new(source.to_string());
    lexer.parse().unwrap();
    lexer.tokens
}

fn literal_error(source: &str) -> LexError {
    let mut lexer = Lexer::new(source.to_string());
    lexer.parse().unwrap_err()
}

fn written(text: &str) -> String {
    let mut source = String::from("\"");
    for c in text.chars() {
        match c {
            '\t' => source.push_str("\\t"),
            '\n' => source.push_str("\\n"),
            '\r' => source.push_str("\\r"),
            '\\' => source.push_str("\\\\"),
            '"' => source.push_str("\\\""),
            other => source.push(other),
        }
    }
    source.push('"');
    source
}

#[test]
fn empty_string_literal() {
    assert_eq!(
        literal_tokens("\"\""),
        vec![Token::new("", TokenType::StringLiteral, 1), Token::new("", TokenType::Eof, 1)]
    );
}

#[test]
fn string_literal_keeps_plain_text() {
    assert_eq!(
        literal_tokens("\"let x = 1; 'c' // é\""),
        vec![
            Token::new("let x = 1; 'c' // é", TokenType::StringLiteral, 1),
            Token::new("", TokenType::Eof, 1)
        ]
    );
}

#[test]
fn every_string_escape() {
    assert_eq!(
        literal_tokens("\"a\\tb\\nc\\rd\\\\e\\\"f\"")[0],
        Token::new("a\tb\nc\rd\\e\"f", TokenType::StringLiteral, 1)
    );
}

#[test]
fn escapes_are_decoded_once() {
    let tokens = literal_tokens("\"\\\\n\"");
    assert_eq!(tokens[0].lexeme(), "\\n");
    assert_eq!(tokens[0].lexeme().chars().count(), 2);
    let tokens = literal_tokens("\"\\\\\\\\\"");
    assert_eq!(tokens[0].lexeme(), "\\\\");
}

#[test]
fn written_text_is_read_back() {
    for text in [
        "",
        "plain",
        "tab\there",
        "two\nlines",
        "back\\slash",
        "\\n",
        "\\\\t",
        "say \"hi\"",
        "\r\n\t\\\"",
        "ünïcödé ✓",
    ] {
        assert_eq!(
            literal_tokens(&written(text)),
            vec![Token::new(text, TokenType::StringLiteral, 1), Token::new("", TokenType::Eof, 1)]
        );
    }
}

#[test]
fn decoded_text_is_shorter_by_one_for_each_escape() {
    let source = "\"\\t\\n\\r\\\\\\\"x\"";
    assert_eq!(source.chars().count(), 13);
    assert_eq!(literal_tokens(source)[0].lexeme().chars().count(), 6);
}

#[test]
fn text_without_escaped_backslash_has_no_backslash() {
    for source in ["\"a\\tb\"", "\"\\n\\n\"", "\"q\\\"q\"", "\"plain\""] {
        assert!(!literal_tokens(source)[0].lexeme().contains('\\'));
    }
}

#[test]
fn two_strings_side_by_side() {
    assert_eq!(
        literal_tokens("\"a\"\"b\""),
        vec![
            Token::new("a", TokenType::StringLiteral, 1),
            Token::new("b", TokenType::StringLiteral, 1),
            Token::new("", TokenType::Eof, 1),
        ]
    );
}

#[test]
fn unterminated_string() {
    assert_eq!(
        literal_error("\"abc"),
        LexError { kind: LexErrorKind::UnterminatedString, position: 4, line: 1 }
    );
    assert_eq!(
        literal_error("\""),
        LexError { kind: LexErrorKind::UnterminatedString, position: 1, line: 1 }
    );
}

#[test]
fn string_that_ends_in_a_backslash_is_unterminated() {
    assert_eq!(
        literal_error("\"abc\\"),
        LexError { kind: LexErrorKind::UnterminatedString, position: 5, line: 1 }
    );
}

#[test]
fn escaped_quote_does_not_close_a_string() {
    assert_eq!(
        literal_error("\"abc\\\""),
        LexError { kind: LexErrorKind::UnterminatedString, position: 6, line: 1 }
    );
}

#[test]
fn unknown_escape_in_a_string() {
    assert_eq!(
        literal_error("x = \"a\\qb\""),
        LexError { kind: LexErrorKind::UnknownEscapeSequence, position: 7, line: 1 }
    );
    assert_eq!(
        literal_error("\"\\'\""),
        LexError { kind: LexErrorKind::UnknownEscapeSequence, position: 2, line: 1 }
    );
    assert_eq!(
        literal_error("\"\\0\""),
        LexError { kind: LexErrorKind::UnknownEscapeSequence, position: 2, line: 1 }
    );
}

#[test]
fn unknown_escape_comes_before_the_missing_quote() {
    assert_eq!(
        literal_error("\"a\\zb"),
        LexError { kind: LexErrorKind::UnknownEscapeSequence, position: 3, line: 1 }
    );
}

#[test]
fn plain_character_literals() {
    for (source, text) in [("'a'", "a"), ("'0'", "0"), ("' '", " "), ("'\"'", "\""), ("'é'", "é")]
    {
        assert_eq!(
            literal_tokens(source),
            vec![Token::new(text, TokenType::CharLiteral, 1), Token::new("", TokenType::Eof, 1)]
        );
    }
}

#[test]
fn every_character_escape() {
    for (source, text) in [
        ("'\\t'", "\t"),
        ("'\\n'", "\n"),
        ("'\\r'", "\r"),
        ("'\\\\'", "\\"),
        ("'\\\"'", "\""),
        ("'\\''", "'"),
    ] {
        assert_eq!(
            literal_tokens(source),
            vec![Token::new(text, TokenType::CharLiteral, 1), Token::new("", TokenType::Eof, 1)]
        );
    }
}

#[test]
fn empty_character_literal() {
    assert_eq!(
        literal_error("''"),
        LexError { kind: LexErrorKind::EmptyCharLiteral, position: 1, line: 1 }
    );
    assert_eq!(
        literal_error("c = '';"),
        LexError { kind: LexErrorKind::EmptyCharLiteral, position: 5, line: 1 }
    );
    assert_eq!(
        literal_error("'''"),
        LexError { kind: LexErrorKind::EmptyCharLiteral, position: 1, line: 1 }
    );
}

#[test]
fn character_literal_with_more_than_one_character() {
    assert_eq!(
        literal_error("'ab'"),
        LexError { kind: LexErrorKind::MultiCharCharLiteral, position: 2, line: 1 }
    );
    assert_eq!(
        literal_error("'\\nn'"),
        LexError { kind: LexErrorKind::MultiCharCharLiteral, position: 3, line: 1 }
    );
    assert_eq!(
        literal_error("'a b"),
        LexError { kind: LexErrorKind::MultiCharCharLiteral, position: 2, line: 1 }
    );
}

#[test]
fn unterminated_character_literal() {
    assert_eq!(
        literal_error("'a"),
        LexError { kind: LexErrorKind::UnterminatedChar, position: 2, line: 1 }
    );
    assert_eq!(
        literal_error("'\\"),
        LexError { kind: LexErrorKind::UnterminatedChar, position: 2, line: 1 }
    );
    assert_eq!(
        literal_error("'\\n"),
        LexError { kind: LexErrorKind::UnterminatedChar, position: 3, line: 1 }
    );
    assert_eq!(
        literal_error("x '"),
        LexError { kind: LexErrorKind::UnterminatedChar, position: 2, line: 1 }
    );
}

#[test]
fn quote_at_the_end_is_reported_where_it_stands() {
    assert_eq!(
        literal_error("'"),
        LexError { kind: LexErrorKind::UnterminatedChar, position: 0, line: 1 }
    );
    assert_eq!(
        literal_error("\"é\"\n'"),
        LexError { kind: LexErrorKind::UnterminatedChar, position: 5, line: 2 }
    );
    assert_eq!(
        literal_error("'a''"),
        LexError { kind: LexErrorKind::UnterminatedChar, position: 3, line: 1 }
    );
}

#[test]
fn unknown_escape_in_a_character_literal() {
    assert_eq!(
        literal_error("'\\q'"),
        LexError { kind: LexErrorKind::UnknownEscapeSequence, position: 2, line: 1 }
    );
}

#[test]
fn escape_tables() {
    assert_eq!(unescape_in_string('t'), Some('\t'));
    assert_eq!(unescape_in_string('n'), Some('\n'));
    assert_eq!(unescape_in_string('r'), Some('\r'));
    assert_eq!(unescape_in_string('\\'), Some('\\'));
    assert_eq!(unescape_in_string('"'), Some('"'));
    assert_eq!(unescape_in_string('\''), None);
    assert_eq!(unescape_in_string('0'), None);
    assert_eq!(unescape_in_string('T'), None);
    assert_eq!(unescape_in_char('\''), Some('\''));
    assert_eq!(unescape_in_char('"'), Some('"'));
    assert_eq!(unescape_in_char('n'), Some('\n'));
    assert_eq!(unescape_in_char('x'), None);
}
