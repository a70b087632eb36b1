use vid::lex::classify::{
    is_blank, is_digit, is_letter, is_number_part, is_word_part, is_word_start, keyword, same_text,
};
use vid::lex::{Lexer, Token, TokenType};

fn word_tokens(source: &str) -> Vec<Token> {
    let mut lexer = Lexer::new(source.to_string());
    lexer.parse().unwrap();
    lexer.tokens
}

fn reserved_words() -> Vec<(&'static str, TokenType)> {
    vec![
        ("void", TokenType::Void),
        ("main", TokenType::Main),
        ("let", TokenType::Let),
        ("const", TokenType::Const),
        ("if", TokenType::If),
        ("else", TokenType::Else),
        ("while", TokenType::While),
        ("return", TokenType::Return),
        ("break", TokenType::Break),
        ("continue", TokenType::Continue),
        ("in", TokenType::In),
        ("match", TokenType::Match),
        ("struct", TokenType::Struct),
        ("enum", TokenType::Enum),
        ("impl", TokenType::Impl),
        ("true", TokenType::True),
        ("false", TokenType::False),
        ("goto", TokenType::Goto),
        ("label", TokenType::Label),
        ("mut", TokenType::Mut),
        ("pub", TokenType::Pub),
        ("and", TokenType::And),
        ("or", TokenType::Or),
        ("not", TokenType::Not),
        ("i8", TokenType::I8),
        ("i16", TokenType::I16),
        ("i32", TokenType::I32),
        ("i64", TokenType::I64),
        ("f32", TokenType::F32),
        ("f64", TokenType::F64),
        ("u8", TokenType::U8),
        ("u16", TokenType::U16),
        ("u32", TokenType::U32),
        ("u64", TokenType::U64),
        ("bool", TokenType::Bool),
        ("byte", TokenType::Byte),
        ("char", TokenType::Char),
        ("String", TokenType::String),
    ]
}

#[test]
fn every_reserved_word_has_its_kind() {
    for (word, kind) in reserved_words() {
        assert_eq!(keyword(word), Some(kind));
        assert_eq!(
            word_tokens(word),
            vec![Token::new(word, kind, 1), Token::new("", TokenType::Eof, 1)]
        );
    }
}

#[test]
fn a_reserved_word_with_more_after_it_is_an_identifier() {
    for (word, _) in reserved_words() {
        for tail in ["x", "_", "0", "fy"] {
            let longer = format!("{}{}", word, tail);
            if reserved_words().iter().any(|(other, _)| *other == longer) {
                continue;
            }
            assert_eq!(keyword(&longer), None);
            assert_eq!(
                word_tokens(&longer),
                vec![
                    Token::new(&longer, TokenType::Identifier, 1),
                    Token::new("", TokenType::Eof, 1)
                ]
            );
        }
    }
}

#[test]
fn iffy_is_one_identifier() {
    assert_eq!(
        word_tokens("iffy"),
        vec![Token::new("iffy", TokenType::Identifier, 1), Token::new("", TokenType::Eof, 1)]
    );
}

#[test]
fn reserved_words_mind_case() {
    for word in ["If", "LET", "While", "string", "Bool", "I32"] {
        assert_eq!(keyword(word), None);
        assert_eq!(word_tokens(word)[0], Token::new(word, TokenType::Identifier, 1));
    }
}

#[test]
fn a_prefix_of_a_reserved_word_is_an_identifier() {
    for word in ["whil", "i", "f3", "retur", "Strin", "u"] {
        assert_eq!(word_tokens(word)[0], Token::new(word, TokenType::Identifier, 1));
    }
}

#[test]
fn identifiers_take_letters_digits_and_underscores() {
    for word in ["_", "__init__", "_9", "snake_case", "CamelCase", "x1y2z3", "a_", "Z"] {
        assert_eq!(
            word_tokens(word),
            vec![Token::new(word, TokenType::Identifier, 1), Token::new("", TokenType::Eof, 1)]
        );
    }
}

#[test]
fn a_word_ends_where_its_characters_end() {
    assert_eq!(
        word_tokens("foo.bar(baz)"),
        vec![
            Token::new("foo", TokenType::Identifier, 1),
            Token::new(".", TokenType::Dot, 1),
            Token::new("bar", TokenType::Identifier, 1),
            Token::new("(", TokenType::LeftParen, 1),
            Token::new("baz", TokenType::Identifier, 1),
            Token::new(")", TokenType::RightParen, 1),
            Token::new("", TokenType::Eof, 1),
        ]
    );
}

#[test]
fn a_word_at_the_end_of_the_source_is_whole() {
    assert_eq!(
        word_tokens("return value"),
        vec![
            Token::new("return", TokenType::Return, 1),
            Token::new("value", TokenType::Identifier, 1),
            Token::new("", TokenType::Eof, 1),
        ]
    );
}

#[test]
fn digits_before_letters_are_a_number_then_a_word() {
    assert_eq!(
        word_tokens("12ab"),
        vec![
            Token::new("12", TokenType::NumberLiteral, 1),
            Token::new("ab", TokenType::Identifier, 1),
            Token::new("", TokenType::Eof, 1),
        ]
    );
}

#[test]
fn numbers_keep_their_text() {
    for text in ["0", "007", "3.14", "1.", "1..2", "10.20.30.", "9999999999999999999999999"] {
        assert_eq!(
            word_tokens(text),
            vec![Token::new(text, TokenType::NumberLiteral, 1), Token::new("", TokenType::Eof, 1)]
        );
    }
}

#[test]
fn a_dot_before_digits_is_a_dot() {
    assert_eq!(
        word_tokens(".5"),
        vec![
            Token::new(".", TokenType::Dot, 1),
            Token::new("5", TokenType::NumberLiteral, 1),
            Token::new("", TokenType::Eof, 1),
        ]
    );
}

#[test]
fn a_minus_before_digits_is_a_minus() {
    assert_eq!(
        word_tokens("-42"),
        vec![
            Token::new("-", TokenType::Minus, 1),
            Token::new("42", TokenType::NumberLiteral, 1),
            Token::new("", TokenType::Eof, 1),
        ]
    );
}

#[test]
fn character_classes() {
    for c in ['0', '5', '9'] {
        assert!(is_digit(c) && is_word_part(c) && is_number_part(c));
        assert!(!is_letter(c) && !is_word_start(c) && !is_blank(c));
    }
    for c in ['a', 'm', 'z', 'A', 'M', 'Z'] {
        assert!(is_letter(c) && is_word_start(c) && is_word_part(c));
        assert!(!is_digit(c) && !is_number_part(c) && !is_blank(c));
    }
    assert!(is_word_start('_') && is_word_part('_') && !is_letter('_'));
    assert!(is_number_part('.') && !is_digit('.') && !is_word_part('.'));
    for c in [' ', '\t', '\r'] {
        assert!(is_blank(c));
    }
    for c in ['\n', '/', ':', '@', '[', '`', '{', 'é', '٣', 'Ω'] {
        assert!(!is_digit(c) && !is_letter(c) && !is_word_part(c) && !is_blank(c));
    }
}

#[test]
fn same_text_compares_characters() {
    assert!(same_text("", ""));
    assert!(same_text("while", "while"));
    assert!(same_text("héllo", "héllo"));
    assert!(!same_text("while", "whilf"));
    assert!(!same_text("while", "whil"));
    assert!(!same_text("", "a"));
    assert!(!same_text("e\u{301}", "é"));
}

#[test]
fn kinds_are_named_as_they_are_written() {
    assert_eq!(TokenType::Identifier.name(), "Identifier");
    assert_eq!(TokenType::LessEqual.name(), "LessEqual");
    assert_eq!(TokenType::Power.name(), "Power");
    assert_eq!(TokenType::StringLiteral.name(), "StringLiteral");
    assert_eq!(TokenType::I8.name(), "I8");
    assert_eq!(TokenType::String.name(), "String");
    assert_eq!(TokenType::Eof.name(), "Eof");
    for (_, kind) in reserved_words() {
        assert_eq!(kind.name(), format!("{:?}", kind));
    }
}
