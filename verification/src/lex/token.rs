//! Tokens and their kinds.

use vstd::prelude::*;

verus! {

/// The kind of a token.
#[derive(Debug, Clone, Copy, PartialEq, Eq, Hash, Structural)]
pub enum TokenType {
    /// `variableName`
    Identifier,
    /// `=`
    Equal,
    /// `==`
    EqualEqual,
    /// `<`
    Less,
    /// `<=`
    LessEqual,
    /// `>`
    Greater,
    /// `>=`
    GreaterEqual,
    /// `=>`
    Arrow,
    /// `+`
    Plus,
    /// `-`
    Minus,
    /// `*`
    Star,
    /// `/`
    Slash,
    /// `%`
    Percent,
    /// `!`
    Bang,
    /// `.`
    Dot,
    /// `,`
    Comma,
    /// `;`
    Semicolon,
    /// `:`
    Colon,
    /// `?`
    Question,
    /// `(`
    LeftParen,
    /// `)`
    RightParen,
    /// `{`
    LeftBrace,
    /// `}`
    RightBrace,
    /// `[`
    LeftBracket,
    /// `]`
    RightBracket,
    /// `<-`
    LeftAssign,
    /// `->`
    RightAssign,
    /// `|`
    Pipe,
    /// `**`
    Power,
    /// `^`
    Caret,
    /// `&`
    Ampersand,
    /// `<<`
    LeftShift,
    /// `>>`
    RightShift,
    /// `"string"`
    StringLiteral,
    /// `'c'`
    CharLiteral,
    /// `12345`
    NumberLiteral,
    /// `void`
    Void,
    /// `main`
    Main,
    /// `let`
    Let,
    /// `const`
    Const,
    /// `if`
    If,
    /// `else`
    Else,
    /// `while`
    While,
    /// `return`
    Return,
    /// `break`
    Break,
    /// `continue`
    Continue,
    /// `in`
    In,
    /// `match`
    Match,
    /// `struct`
    Struct,
    /// `enum`
    Enum,
    /// `impl`
    Impl,
    /// `true`
    True,
    /// `false`
    False,
    /// `goto`
    Goto,
    /// `label`
    Label,
    /// `mut`
    Mut,
    /// `pub`
    Pub,
    /// `and`
    And,
    /// `or`
    Or,
    /// `not`
    Not,
    /// `i8`
    I8,
    /// `i16`
    I16,
    /// `i32`
    I32,
    /// `i64`
    I64,
    /// `f32`
    F32,
    /// `f64`
    F64,
    /// `u8`
    U8,
    /// `u16`
    U16,
    /// `u32`
    U32,
    /// `u64`
    U64,
    /// `bool`
    Bool,
    /// `byte`
    Byte,
    /// `char`
    Char,
    /// `String`
    String,
    /// End of input.
    Eof,
}

impl TokenType {
    /// The name of the kind, as this enumeration writes it.
    pub open spec fn name_text(self) -> Seq<char> {
        match self {
            TokenType::Identifier => "Identifier"@,
            TokenType::Equal => "Equal"@,
            TokenType::EqualEqual => "EqualEqual"@,
            TokenType::Less => "Less"@,
            TokenType::LessEqual => "LessEqual"@,
            TokenType::Greater => "Greater"@,
            TokenType::GreaterEqual => "GreaterEqual"@,
            TokenType::Arrow => "Arrow"@,
            TokenType::Plus => "Plus"@,
            TokenType::Minus => "Minus"@,
            TokenType::Star => "Star"@,
            TokenType::Slash => "Slash"@,
            TokenType::Percent => "Percent"@,
            TokenType::Bang => "Bang"@,
            TokenType::Dot => "Dot"@,
            TokenType::Comma => "Comma"@,
            TokenType::Semicolon => "Semicolon"@,
            TokenType::Colon => "Colon"@,
            TokenType::Question => "Question"@,
            TokenType::LeftParen => "LeftParen"@,
            TokenType::RightParen => "RightParen"@,
            TokenType::LeftBrace => "LeftBrace"@,
            TokenType::RightBrace => "RightBrace"@,
            TokenType::LeftBracket => "LeftBracket"@,
            TokenType::RightBracket => "RightBracket"@,
            TokenType::LeftAssign => "LeftAssign"@,
            TokenType::RightAssign => "RightAssign"@,
            TokenType::Pipe => "Pipe"@,
            TokenType::Power => "Power"@,
            TokenType::Caret => "Caret"@,
            TokenType::Ampersand => "Ampersand"@,
            TokenType::LeftShift => "LeftShift"@,
            TokenType::RightShift => "RightShift"@,
            TokenType::StringLiteral => "StringLiteral"@,
            TokenType::CharLiteral => "CharLiteral"@,
            TokenType::NumberLiteral => "NumberLiteral"@,
            TokenType::Void => "Void"@,
            TokenType::Main => "Main"@,
            TokenType::Let => "Let"@,
            TokenType::Const => "Const"@,
            TokenType::If => "If"@,
            TokenType::Else => "Else"@,
            TokenType::While => "While"@,
            TokenType::Return => "Return"@,
            TokenType::Break => "Break"@,
            TokenType::Continue => "Continue"@,
            TokenType::In => "In"@,
            TokenType::Match => "Match"@,
            TokenType::Struct => "Struct"@,
            TokenType::Enum => "Enum"@,
            TokenType::Impl => "Impl"@,
            TokenType::True => "True"@,
            TokenType::False => "False"@,
            TokenType::Goto => "Goto"@,
            TokenType::Label => "Label"@,
            TokenType::Mut => "Mut"@,
            TokenType::Pub => "Pub"@,
            TokenType::And => "And"@,
            TokenType::Or => "Or"@,
            TokenType::Not => "Not"@,
            TokenType::I8 => "I8"@,
            TokenType::I16 => "I16"@,
            TokenType::I32 => "I32"@,
            TokenType::I64 => "I64"@,
            TokenType::F32 => "F32"@,
            TokenType::F64 => "F64"@,
            TokenType::U8 => "U8"@,
            TokenType::U16 => "U16"@,
            TokenType::U32 => "U32"@,
            TokenType::U64 => "U64"@,
            TokenType::Bool => "Bool"@,
            TokenType::Byte => "Byte"@,
            TokenType::Char => "Char"@,
            TokenType::String => "String"@,
            TokenType::Eof => "Eof"@,
        }
    }

    /// The name of the kind, as this enumeration writes it.
    pub fn name(&self) -> (name: &'static str)
        ensures
            name@ == self.name_text(),
    {
        match self {
            TokenType::Identifier => "Identifier",
            TokenType::Equal => "Equal",
            TokenType::EqualEqual => "EqualEqual",
            TokenType::Less => "Less",
            TokenType::LessEqual => "LessEqual",
            TokenType::Greater => "Greater",
            TokenType::GreaterEqual => "GreaterEqual",
            TokenType::Arrow => "Arrow",
            TokenType::Plus => "Plus",
            TokenType::Minus => "Minus",
            TokenType::Star => "Star",
            TokenType::Slash => "Slash",
            TokenType::Percent => "Percent",
            TokenType::Bang => "Bang",
            TokenType::Dot => "Dot",
            TokenType::Comma => "Comma",
            TokenType::Semicolon => "Semicolon",
            TokenType::Colon => "Colon",
            TokenType::Question => "Question",
            TokenType::LeftParen => "LeftParen",
            TokenType::RightParen => "RightParen",
            TokenType::LeftBrace => "LeftBrace",
            TokenType::RightBrace => "RightBrace",
            TokenType::LeftBracket => "LeftBracket",
            TokenType::RightBracket => "RightBracket",
            TokenType::LeftAssign => "LeftAssign",
            TokenType::RightAssign => "RightAssign",
            TokenType::Pipe => "Pipe",
            TokenType::Power => "Power",
            TokenType::Caret => "Caret",
            TokenType::Ampersand => "Ampersand",
            TokenType::LeftShift => "LeftShift",
            TokenType::RightShift => "RightShift",
            TokenType::StringLiteral => "StringLiteral",
            TokenType::CharLiteral => "CharLiteral",
            TokenType::NumberLiteral => "NumberLiteral",
            TokenType::Void => "Void",
            TokenType::Main => "Main",
            TokenType::Let => "Let",
            TokenType::Const => "Const",
            TokenType::If => "If",
            TokenType::Else => "Else",
            TokenType::While => "While",
            TokenType::Return => "Return",
            TokenType::Break => "Break",
            TokenType::Continue => "Continue",
            TokenType::In => "In",
            TokenType::Match => "Match",
            TokenType::Struct => "Struct",
            TokenType::Enum => "Enum",
            TokenType::Impl => "Impl",
            TokenType::True => "True",
            TokenType::False => "False",
            TokenType::Goto => "Goto",
            TokenType::Label => "Label",
            TokenType::Mut => "Mut",
            TokenType::Pub => "Pub",
            TokenType::And => "And",
            TokenType::Or => "Or",
            TokenType::Not => "Not",
            TokenType::I8 => "I8",
            TokenType::I16 => "I16",
            TokenType::I32 => "I32",
            TokenType::I64 => "I64",
            TokenType::F32 => "F32",
            TokenType::F64 => "F64",
            TokenType::U8 => "U8",
            TokenType::U16 => "U16",
            TokenType::U32 => "U32",
            TokenType::U64 => "U64",
            TokenType::Bool => "Bool",
            TokenType::Byte => "Byte",
            TokenType::Char => "Char",
            TokenType::String => "String",
            TokenType::Eof => "Eof",
        }
    }
}

/// What a token is, as mathematics sees it.
pub struct TokenView {
    /// The text behind the token; for literals, after escape decoding.
    pub lexeme: Seq<char>,
    pub kind: TokenType,
    /// The line on which the token's first character stands, counted from 1.
    pub line: nat,
}

/// A classified piece of source text.
#[derive(Debug, Clone, PartialEq, Eq)]
pub struct Token {
    lexeme: String,
    token_type: TokenType,
    pub line: usize,
}

impl Token {
    /// A token with the given text, kind and line.
    pub fn new(lexeme: &str, token_type: TokenType, line: usize) -> (token: Self)
        ensures
            token@ == (TokenView { lexeme: lexeme@, kind: token_type, line: line as nat }),
    {
        let lexeme = lexeme.to_owned();
        Self { lexeme, token_type, line }
    }

    /// The text behind the token.
    pub fn lexeme(&self) -> (text: &str)
        ensures
            text@ == self@.lexeme,
    {
        self.lexeme.as_str()
    }

    /// The token's kind.
    pub fn token_type(&self) -> (kind: TokenType)
        ensures
            kind == self@.kind,
    {
        self.token_type
    }

    /// The line on which the token's first character stands.
    pub fn line(&self) -> (line: usize)
        ensures
            line == self@.line,
    {
        self.line
    }
}

/// The views of a sequence of tokens, in order.
pub open spec fn views(tokens: Seq<Token>) -> Seq<TokenView> {
    Seq::new(tokens.len(), |i: int| tokens[i]@)
}

impl View for Token {
    type V = TokenView;

    closed spec fn view(&self) -> TokenView {
        TokenView { lexeme: self.lexeme@, kind: self.token_type, line: self.line as nat }
    }
}

} // verus!
