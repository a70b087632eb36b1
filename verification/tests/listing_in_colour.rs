use vid::lex::{Token, TokenType};
use vid::style::{entry_line, token_line, Entry, Tint};

#[test]
fn entry_line_in_each_colour() {
    colored::control::set_override(true);
    for (tint, code) in
        [(Tint::Green, "32"), (Tint::Yellow, "33"), (Tint::Red, "31"), (Tint::Purple, "35")]
    {
        let entry = Entry { label: "label".to_string(), text: "text".to_string(), tint };
        assert_eq!(
            entry_line(&entry),
            format!("\u{1b}[{}mlabel\u{1b}[0m: \u{1b}[1;{}mtext\u{1b}[0m", code, code)
        );
    }
}

#[test]
fn listing_in_colour() {
    colored::control::set_override(true);
    assert_eq!(
        token_line(&Token::new("x", TokenType::Identifier, 1)),
        "\u{1b}[32mIdentifier\u{1b}[0m: \u{1b}[1;32mx\u{1b}[0m"
    );
    assert_eq!(
        token_line(&Token::new("42", TokenType::NumberLiteral, 1)),
        "\u{1b}[33mNumberLiteral\u{1b}[0m: \u{1b}[1;33m42\u{1b}[0m"
    );
    assert_eq!(
        token_line(&Token::new("hi", TokenType::StringLiteral, 1)),
        "\u{1b}[31mStringLiteral\u{1b}[0m: \u{1b}[1;31mhi\u{1b}[0m"
    );
    assert_eq!(
        token_line(&Token::new("let", TokenType::Let, 1)),
        "\u{1b}[35mLet\u{1b}[0m: \u{1b}[1;35mlet\u{1b}[0m"
    );
}
