use vid::lex::classify::punctuation;
use vid::lex::{Lexer, Token, TokenType};

fn operator_tokens(source: &str) -> Vec<(String, TokenType)> {
    let mut lexer = Lexer::new(source.to_string());
    lexer.parse().unwrap();
    lexer.tokens.iter().map(|token| (token.lexeme().to_string(), token.token_type())).collect()
}

fn pair(text: &str, kind: TokenType) -> (String, TokenType) {
    (text.to_string(), kind)
}

#[test]
fn every_single_operator() {
    let table = [
        (".", TokenType::Dot),
        (",", TokenType::Comma),
        (";", TokenType::Semicolon),
        (":", TokenType::Colon),
        ("(", TokenType::LeftParen),
        (")", TokenType::RightParen),
        ("{", TokenType::LeftBrace),
        ("}", TokenType::RightBrace),
        ("[", TokenType::LeftBracket),
        ("]", TokenType::RightBracket),
        ("+", TokenType::Plus),
        ("/", TokenType::Slash),
        ("%", TokenType::Percent),
        ("|", TokenType::Pipe),
        ("^", TokenType::Caret),
        ("&", TokenType::Ampersand),
        ("!", TokenType::Bang),
        ("?", TokenType::Question),
        ("*", TokenType::Star),
        ("<", TokenType::Less),
        (">", TokenType::Greater),
        ("=", TokenType::Equal),
        ("-", TokenType::Minus),
    ];
    for (text, kind) in table {
        assert_eq!(operator_tokens(text), vec![pair(text, kind), pair("", TokenType::Eof)]);
    }
}

#[test]
fn every_double_operator() {
    let table = [
        ("<=", TokenType::LessEqual),
        ("<-", TokenType::LeftAssign),
        ("<<", TokenType::LeftShift),
        (">=", TokenType::GreaterEqual),
        (">>", TokenType::RightShift),
        ("==", TokenType::EqualEqual),
        ("=>", TokenType::Arrow),
        ("->", TokenType::RightAssign),
        ("**", TokenType::Power),
    ];
    for (text, kind) in table {
        assert_eq!(operator_tokens(text), vec![pair(text, kind), pair("", TokenType::Eof)]);
    }
}

#[test]
fn operators_without_spaces_split_by_the_table() {
    assert_eq!(
        operator_tokens("<<=>>==>->-***<-<"),
        vec![
            pair("<<", TokenType::LeftShift),
            pair("=>", TokenType::Arrow),
            pair(">=", TokenType::GreaterEqual),
            pair("=>", TokenType::Arrow),
            pair("->", TokenType::RightAssign),
            pair("-", TokenType::Minus),
            pair("**", TokenType::Power),
            pair("*", TokenType::Star),
            pair("<-", TokenType::LeftAssign),
            pair("<", TokenType::Less),
            pair("", TokenType::Eof),
        ]
    );
}

#[test]
fn operator_lexemes_add_up_to_the_source() {
    let source = ".,;:(){}[]+/%|^&!?*<>-=.<=<-<<>=>>===>->**";
    let mut lexer = Lexer::new(source.to_string());
    lexer.parse().unwrap();
    let joined: String = lexer.tokens.iter().map(|token| token.lexeme()).collect();
    assert_eq!(joined, source);
    assert_eq!(lexer.tokens.len(), 18 + 6 + 9 + 1);
}

#[test]
fn lookahead_stops_at_the_end_of_the_source() {
    for (text, kind) in [
        ("<", TokenType::Less),
        (">", TokenType::Greater),
        ("=", TokenType::Equal),
        ("-", TokenType::Minus),
        ("*", TokenType::Star),
    ] {
        let source = format!("a{}", text);
        assert_eq!(
            operator_tokens(&source),
            vec![pair("a", TokenType::Identifier), pair(text, kind), pair("", TokenType::Eof)]
        );
    }
}

#[test]
fn second_character_can_be_the_last() {
    assert_eq!(
        operator_tokens("x<="),
        vec![
            pair("x", TokenType::Identifier),
            pair("<=", TokenType::LessEqual),
            pair("", TokenType::Eof)
        ]
    );
}

#[test]
fn a_space_keeps_operators_apart() {
    assert_eq!(
        operator_tokens("< = - >"),
        vec![
            pair("<", TokenType::Less),
            pair("=", TokenType::Equal),
            pair("-", TokenType::Minus),
            pair(">", TokenType::Greater),
            pair("", TokenType::Eof),
        ]
    );
}

#[test]
fn pairs_that_form_no_operator() {
    assert_eq!(
        operator_tokens("+=!=<>"),
        vec![
            pair("+", TokenType::Plus),
            pair("=", TokenType::Equal),
            pair("!", TokenType::Bang),
            pair("=", TokenType::Equal),
            pair("<", TokenType::Less),
            pair(">", TokenType::Greater),
            pair("", TokenType::Eof),
        ]
    );
}

#[test]
fn punctuation_table() {
    assert_eq!(punctuation('?'), Some(TokenType::Question));
    assert_eq!(punctuation('<'), Some(TokenType::Less));
    assert_eq!(punctuation('a'), None);
    assert_eq!(punctuation(' '), None);
    assert_eq!(punctuation('#'), None);
}

#[test]
fn operator_token_is_on_its_line() {
    let mut lexer = Lexer::new("\n\n<=".to_string());
    lexer.parse().unwrap();
    assert_eq!(lexer.tokens[0], Token::new("<=", TokenType::LessEqual, 3));
}
