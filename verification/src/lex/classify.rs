//! The character classes and tables of the grammar, as executable code.

use crate::lex::grammar;
use crate::lex::token::TokenType;
use vstd::prelude::*;
use vstd::utf8::encode_utf8_decode_utf8;

verus! {

/// Whether `c` is an ASCII digit.
pub fn is_digit(c: char) -> (yes: bool)
    ensures
        yes == grammar::digit(c),
{
    '0' <= c && c <= '9'
}

/// Whether `c` is an ASCII letter.
pub fn is_letter(c: char) -> (yes: bool)
    ensures
        yes == grammar::letter(c),
{
    ('a' <= c && c <= 'z') || ('A' <= c && c <= 'Z')
}

/// Whether `c` may begin an identifier or a reserved word.
pub fn is_word_start(c: char) -> (yes: bool)
    ensures
        yes == grammar::word_start(c),
{
    is_letter(c) || c == '_'
}

/// Whether `c` may continue an identifier or a reserved word.
pub fn is_word_part(c: char) -> (yes: bool)
    ensures
        yes == grammar::word_part(c),
{
    is_letter(c) || is_digit(c) || c == '_'
}

/// Whether `c` may continue a number.
pub fn is_number_part(c: char) -> (yes: bool)
    ensures
        yes == grammar::number_part(c),
{
    is_digit(c) || c == '.'
}

/// Whether `c` is a space, a tab or a carriage return.
pub fn is_blank(c: char) -> (yes: bool)
    ensures
        yes == grammar::blank(c),
{
    c == ' ' || c == '\t' || c == '\r'
}

/// The token that `c` stands for when it stands alone.
pub fn punctuation(c: char) -> (kind: Option<TokenType>)
    ensures
        kind == grammar::single_operator(c),
{
    match c {
        '.' => Some(TokenType::Dot),
        ',' => Some(TokenType::Comma),
        ';' => Some(TokenType::Semicolon),
        ':' => Some(TokenType::Colon),
        '(' => Some(TokenType::LeftParen),
        ')' => Some(TokenType::RightParen),
        '{' => Some(TokenType::LeftBrace),
        '}' => Some(TokenType::RightBrace),
        '[' => Some(TokenType::LeftBracket),
        ']' => Some(TokenType::RightBracket),
        '+' => Some(TokenType::Plus),
        '/' => Some(TokenType::Slash),
        '%' => Some(TokenType::Percent),
        '|' => Some(TokenType::Pipe),
        '^' => Some(TokenType::Caret),
        '&' => Some(TokenType::Ampersand),
        '!' => Some(TokenType::Bang),
        '?' => Some(TokenType::Question),
        '*' => Some(TokenType::Star),
        '<' => Some(TokenType::Less),
        '>' => Some(TokenType::Greater),
        '=' => Some(TokenType::Equal),
        '-' => Some(TokenType::Minus),
        _ => None,
    }
}

/// The kind that the reserved word `word` stands for, if it is one.
pub fn keyword(word: &str) -> (kind: Option<TokenType>)
    ensures
        kind == grammar::reserved(word@),
{
    reveal(grammar::reserved);
    if same_text(word, "void") {
        Some(TokenType::Void)
    } else if same_text(word, "main") {
        Some(TokenType::Main)
    } else if same_text(word, "let") {
        Some(TokenType::Let)
    } else if same_text(word, "const") {
        Some(TokenType::Const)
    } else if same_text(word, "if") {
        Some(TokenType::If)
    } else if same_text(word, "else") {
        Some(TokenType::Else)
    } else if same_text(word, "while") {
        Some(TokenType::While)
    } else if same_text(word, "return") {
        Some(TokenType::Return)
    } else if same_text(word, "break") {
        Some(TokenType::Break)
    } else if same_text(word, "continue") {
        Some(TokenType::Continue)
    } else if same_text(word, "in") {
        Some(TokenType::In)
    } else if same_text(word, "match") {
        Some(TokenType::Match)
    } else if same_text(word, "struct") {
        Some(TokenType::Struct)
    } else if same_text(word, "enum") {
        Some(TokenType::Enum)
    } else if same_text(word, "impl") {
        Some(TokenType::Impl)
    } else if same_text(word, "true") {
        Some(TokenType::True)
    } else if same_text(word, "false") {
        Some(TokenType::False)
    } else if same_text(word, "goto") {
        Some(TokenType::Goto)
    } else if same_text(word, "label") {
        Some(TokenType::Label)
    } else if same_text(word, "mut") {
        Some(TokenType::Mut)
    } else if same_text(word, "pub") {
        Some(TokenType::Pub)
    } else if same_text(word, "and") {
        Some(TokenType::And)
    } else if same_text(word, "or") {
        Some(TokenType::Or)
    } else if same_text(word, "not") {
        Some(TokenType::Not)
    } else if same_text(word, "i8") {
        Some(TokenType::I8)
    } else if same_text(word, "i16") {
        Some(TokenType::I16)
    } else if same_text(word, "i32") {
        Some(TokenType::I32)
    } else if same_text(word, "i64") {
        Some(TokenType::I64)
    } else if same_text(word, "f32") {
        Some(TokenType::F32)
    } else if same_text(word, "f64") {
        Some(TokenType::F64)
    } else if same_text(word, "u8") {
        Some(TokenType::U8)
    } else if same_text(word, "u16") {
        Some(TokenType::U16)
    } else if same_text(word, "u32") {
        Some(TokenType::U32)
    } else if same_text(word, "u64") {
        Some(TokenType::U64)
    } else if same_text(word, "bool") {
        Some(TokenType::Bool)
    } else if same_text(word, "byte") {
        Some(TokenType::Byte)
    } else if same_text(word, "char") {
        Some(TokenType::Char)
    } else if same_text(word, "String") {
        Some(TokenType::String)
    } else {
        None
    }
}

/// What a backslash and `c` stand for inside a string literal.
pub fn unescape_in_string(c: char) -> (decoded: Option<char>)
    ensures
        decoded == grammar::string_escape(c),
{
    match c {
        't' => Some('\t'),
        'n' => Some('\n'),
        'r' => Some('\r'),
        '\\' => Some('\\'),
        '"' => Some('"'),
        _ => None,
    }
}

/// What a backslash and `c` stand for inside a character literal.
pub fn unescape_in_char(c: char) -> (decoded: Option<char>)
    ensures
        decoded == grammar::char_escape(c),
{
    if c == '\'' {
        Some('\'')
    } else {
        unescape_in_string(c)
    }
}

/// The number of bytes that `c` takes in UTF-8.
pub fn width_in_utf8(c: char) -> (width: usize)
    ensures
        width == grammar::utf8_width(c),
{
    if c <= '\u{7f}' {
        1
    } else if c <= '\u{7ff}' {
        2
    } else if c <= '\u{ffff}' {
        3
    } else {
        4
    }
}

/// Whether two pieces of text hold the same characters.
pub fn same_text(a: &str, b: &str) -> (same: bool)
    ensures
        same == (a@ == b@),
{
    let x = a.as_bytes();
    let y = b.as_bytes();
    proof {
        encode_utf8_decode_utf8(a@);
        encode_utf8_decode_utf8(b@);
    }
    if x.len() != y.len() {
        return false;
    }
    let mut i: usize = 0;
    while i < x.len()
        invariant
            i <= x.len() == y.len(),
            forall|j: int| 0 <= j < i ==> x[j] == y[j],
            x@ != y@ ==> a@ != b@,
            x@ == y@ ==> a@ == b@,
        decreases x.len() - i,
    {
        if x[i] != y[i] {
            return false;
        }
        i += 1;
    }
    assert(x@ =~= y@);
    true
}

} // verus!
