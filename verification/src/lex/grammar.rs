//! The lexical grammar, as functions on sequences of characters.
//!
//! Nothing here runs. These functions say what the tokens of a source text
//! are; the scanner is proved to compute exactly that.
//!
//! Where the language leaves room, the grammar decides as follows.
//!
//! - A number is a digit and then any run of digits and dots: `1.2.3` is
//!   one number literal. The text is kept as it is written, and what it
//!   means is left to a later stage.
//! - A character literal whose content is followed by anything but a quote
//!   fails as `MultiCharCharLiteral`. `UnterminatedChar` is for a source
//!   that ends inside the literal.
//! - A newline counts wherever it is consumed, inside a literal too. A
//!   token is on the line of its first character.
//! - A failure lies at the character that is to blame, or at the end of
//!   the source when the input ran out inside a literal. A quote that opens
//!   a character literal as the last character of the source is itself to
//!   blame. A failure is reported with the byte offset and the line of its
//!   place.

use crate::error::{LexError, LexErrorKind};
use crate::lex::token::{TokenType, TokenView};
use vstd::prelude::*;
use vstd::utf8::encode_utf8;

verus! {

/// An ASCII digit.
pub open spec fn digit(c: char) -> bool {
    '0' <= c <= '9'
}

/// An ASCII letter.
pub open spec fn letter(c: char) -> bool {
    'a' <= c <= 'z' || 'A' <= c <= 'Z'
}

/// A character that may begin an identifier or a reserved word.
pub open spec fn word_start(c: char) -> bool {
    letter(c) || c == '_'
}

/// A character that may continue an identifier or a reserved word.
pub open spec fn word_part(c: char) -> bool {
    letter(c) || digit(c) || c == '_'
}

/// A character that may continue a number: a digit or a dot. Any number of
/// dots is taken; what the digits mean is left to a later stage.
pub open spec fn number_part(c: char) -> bool {
    digit(c) || c == '.'
}

/// Space, tab or carriage return: consumed without a token.
pub open spec fn blank(c: char) -> bool {
    c == ' ' || c == '\t' || c == '\r'
}

/// The token that a punctuation or operator character stands for when it
/// stands alone.
pub open spec fn single_operator(c: char) -> Option<TokenType> {
    match c {
        '.' => Some(TokenType::Dot),
        ',' => Some(TokenType::Comma),
        ';' => Some(TokenType::Semicolon),
        ':' => Some(TokenType::Colon),
        '(' => Some(TokenType::LeftParen),
        ')' => Some(TokenType::RightParen),
        '{' => Some(TokenType::LeftBrace),
        '}' => Some(TokenType::RightBrace),
        '[' => Some(TokenType::LeftBracket),
        ']' => Some(TokenType::RightBracket),
        '+' => Some(TokenType::Plus),
        '/' => Some(TokenType::Slash),
        '%' => Some(TokenType::Percent),
        '|' => Some(TokenType::Pipe),
        '^' => Some(TokenType::Caret),
        '&' => Some(TokenType::Ampersand),
        '!' => Some(TokenType::Bang),
        '?' => Some(TokenType::Question),
        '*' => Some(TokenType::Star),
        '<' => Some(TokenType::Less),
        '>' => Some(TokenType::Greater),
        '=' => Some(TokenType::Equal),
        '-' => Some(TokenType::Minus),
        _ => None,
    }
}

/// The token that two adjacent characters form together, if they form one.
pub open spec fn double_operator(first: char, second: char) -> Option<TokenType> {
    match (first, second) {
        ('<', '=') => Some(TokenType::LessEqual),
        ('<', '-') => Some(TokenType::LeftAssign),
        ('<', '<') => Some(TokenType::LeftShift),
        ('>', '=') => Some(TokenType::GreaterEqual),
        ('>', '>') => Some(TokenType::RightShift),
        ('=', '=') => Some(TokenType::EqualEqual),
        ('=', '>') => Some(TokenType::Arrow),
        ('-', '>') => Some(TokenType::RightAssign),
        ('*', '*') => Some(TokenType::Power),
        _ => None,
    }
}

/// The reserved words: keywords and the names of the primitive types. The
/// match is on the whole word and minds case.
#[verifier::opaque]
pub open spec fn reserved(word: Seq<char>) -> Option<TokenType> {
    if word == "void"@ {
        Some(TokenType::Void)
    } else if word == "main"@ {
        Some(TokenType::Main)
    } else if word == "let"@ {
        Some(TokenType::Let)
    } else if word == "const"@ {
        Some(TokenType::Const)
    } else if word == "if"@ {
        Some(TokenType::If)
    } else if word == "else"@ {
        Some(TokenType::Else)
    } else if word == "while"@ {
        Some(TokenType::While)
    } else if word == "return"@ {
        Some(TokenType::Return)
    } else if word == "break"@ {
        Some(TokenType::Break)
    } else if word == "continue"@ {
        Some(TokenType::Continue)
    } else if word == "in"@ {
        Some(TokenType::In)
    } else if word == "match"@ {
        Some(TokenType::Match)
    } else if word == "struct"@ {
        Some(TokenType::Struct)
    } else if word == "enum"@ {
        Some(TokenType::Enum)
    } else if word == "impl"@ {
        Some(TokenType::Impl)
    } else if word == "true"@ {
        Some(TokenType::True)
    } else if word == "false"@ {
        Some(TokenType::False)
    } else if word == "goto"@ {
        Some(TokenType::Goto)
    } else if word == "label"@ {
        Some(TokenType::Label)
    } else if word == "mut"@ {
        Some(TokenType::Mut)
    } else if word == "pub"@ {
        Some(TokenType::Pub)
    } else if word == "and"@ {
        Some(TokenType::And)
    } else if word == "or"@ {
        Some(TokenType::Or)
    } else if word == "not"@ {
        Some(TokenType::Not)
    } else if word == "i8"@ {
        Some(TokenType::I8)
    } else if word == "i16"@ {
        Some(TokenType::I16)
    } else if word == "i32"@ {
        Some(TokenType::I32)
    } else if word == "i64"@ {
        Some(TokenType::I64)
    } else if word == "f32"@ {
        Some(TokenType::F32)
    } else if word == "f64"@ {
        Some(TokenType::F64)
    } else if word == "u8"@ {
        Some(TokenType::U8)
    } else if word == "u16"@ {
        Some(TokenType::U16)
    } else if word == "u32"@ {
        Some(TokenType::U32)
    } else if word == "u64"@ {
        Some(TokenType::U64)
    } else if word == "bool"@ {
        Some(TokenType::Bool)
    } else if word == "byte"@ {
        Some(TokenType::Byte)
    } else if word == "char"@ {
        Some(TokenType::Char)
    } else if word == "String"@ {
        Some(TokenType::String)
    } else {
        None
    }
}

/// The kind of a word: that of the reserved word it equals, else
/// `Identifier`.
pub open spec fn word_kind(word: Seq<char>) -> TokenType {
    match reserved(word) {
        Some(kind) => kind,
        None => TokenType::Identifier,
    }
}

/// What a backslash and `c` stand for inside a string literal.
pub open spec fn string_escape(c: char) -> Option<char> {
    match c {
        't' => Some('\t'),
        'n' => Some('\n'),
        'r' => Some('\r'),
        '\\' => Some('\\'),
        '"' => Some('"'),
        _ => None,
    }
}

/// What a backslash and `c` stand for inside a character literal: the
/// escapes of a string literal, and the single quote.
pub open spec fn char_escape(c: char) -> Option<char> {
    if c == '\'' {
        Some('\'')
    } else {
        string_escape(c)
    }
}

/// The number of newlines among the first `p` characters of `src`.
pub open spec fn newlines(src: Seq<char>, p: int) -> nat
    decreases p,
{
    if p <= 0 || p > src.len() {
        0
    } else if src[p - 1] == '\n' {
        newlines(src, p - 1) + 1
    } else {
        newlines(src, p - 1)
    }
}

/// The line, counted from 1, on which position `p` of `src` stands.
pub open spec fn line_at(src: Seq<char>, p: int) -> nat {
    newlines(src, p) + 1
}

/// The number of bytes that `c` takes in UTF-8.
pub open spec fn utf8_width(c: char) -> nat {
    if c <= '\u{7f}' {
        1
    } else if c <= '\u{7ff}' {
        2
    } else if c <= '\u{ffff}' {
        3
    } else {
        4
    }
}

/// The byte offset of position `p`: the number of bytes that the text
/// before `p` takes in UTF-8.
pub open spec fn byte_offset(src: Seq<char>, p: int) -> nat {
    encode_utf8(src.take(p)).len()
}

/// No more newlines than characters.
pub proof fn lemma_newlines_bound(src: Seq<char>, p: int)
    requires
        0 <= p <= src.len(),
    ensures
        newlines(src, p) <= p,
    decreases p,
{
    if p > 0 {
        lemma_newlines_bound(src, p - 1);
    }
}

/// Lines grow with positions.
pub proof fn lemma_newlines_grow(src: Seq<char>, p: int, q: int)
    requires
        0 <= p <= q <= src.len(),
    ensures
        newlines(src, p) <= newlines(src, q),
    decreases q,
{
    if p < q {
        lemma_newlines_grow(src, p, q - 1);
    }
}

/// Appending a character appends its encoding.
proof fn lemma_encode_push(text: Seq<char>, c: char)
    ensures
        encode_utf8(text.push(c)).len() == encode_utf8(text).len() + utf8_width(c),
    decreases text.len(),
{
    if text.len() == 0 {
        assert(text.push(c).drop_first() =~= Seq::<char>::empty());
        assert(encode_utf8(text.push(c).drop_first()).len() == 0);
    } else {
        assert(text.push(c).drop_first() =~= text.drop_first().push(c));
        lemma_encode_push(text.drop_first(), c);
    }
}

/// The start of the source has byte offset 0, and each character moves
/// the byte offset on by its width.
pub proof fn lemma_byte_offset_step(src: Seq<char>, p: int)
    requires
        0 <= p < src.len(),
    ensures
        byte_offset(src, 0) == 0,
        byte_offset(src, p + 1) == byte_offset(src, p) + utf8_width(src[p]),
{
    assert(src.take(0) =~= Seq::<char>::empty());
    assert(src.take(p + 1) =~= src.take(p).push(src[p]));
    lemma_encode_push(src.take(p), src[p]);
}

/// Byte offsets grow with positions.
pub proof fn lemma_byte_offset_grows(src: Seq<char>, p: int, q: int)
    requires
        0 <= p <= q <= src.len(),
    ensures
        byte_offset(src, p) <= byte_offset(src, q),
    decreases q,
{
    if p < q {
        lemma_byte_offset_grows(src, p, q - 1);
        lemma_byte_offset_step(src, q - 1);
    }
}

/// A token as it lies in the source: its kind, its text, and the range of
/// positions `start..end` that it was read from.
pub struct Lexeme {
    pub kind: TokenType,
    pub text: Seq<char>,
    pub start: int,
    pub end: int,
}

/// A failure and the position at which the scanner met it: that of the
/// offending character, or the length of the source when the input ran out
/// inside a literal.
pub struct Failure {
    pub kind: LexErrorKind,
    pub at: int,
}

/// What stands at one position of the source.
pub enum Step {
    /// White space: one character is consumed and nothing is emitted.
    Skip,
    /// A token.
    Emit(Lexeme),
    /// No token can be read here.
    Fail(Failure),
}

/// The lexeme of kind `kind` whose text is the source from `start` to `end`.
pub open spec fn verbatim(src: Seq<char>, kind: TokenType, start: int, end: int) -> Lexeme {
    Lexeme { kind, text: src.subrange(start, end), start, end }
}

/// The operator at `p`. Two characters that form an operator together are
/// taken together; otherwise the character at `p` stands alone.
pub open spec fn operator_at(src: Seq<char>, p: int) -> Option<Lexeme>
    recommends
        0 <= p < src.len(),
{
    if p + 1 < src.len() && double_operator(src[p], src[p + 1]) is Some {
        Some(verbatim(src, double_operator(src[p], src[p + 1])->0, p, p + 2))
    } else if single_operator(src[p]) is Some {
        Some(verbatim(src, single_operator(src[p])->0, p, p + 1))
    } else {
        None
    }
}

/// Where the run of word characters that holds position `p` ends: the first
/// position from `p` on that holds no word character, or the length of the
/// source.
pub open spec fn word_end(src: Seq<char>, p: int) -> int
    decreases src.len() - p,
{
    if 0 <= p < src.len() && word_part(src[p]) {
        word_end(src, p + 1)
    } else {
        p
    }
}

/// Where the run of digits and dots that holds position `p` ends.
pub open spec fn number_end(src: Seq<char>, p: int) -> int
    decreases src.len() - p,
{
    if 0 <= p < src.len() && number_part(src[p]) {
        number_end(src, p + 1)
    } else {
        p
    }
}

/// The word at `p`: the whole run of word characters, as a reserved word if
/// it equals one and as an identifier if not.
pub open spec fn word_at(src: Seq<char>, p: int) -> Lexeme {
    let end = word_end(src, p);
    verbatim(src, word_kind(src.subrange(p, end)), p, end)
}

/// The number at `p`: the whole run of digits and dots, kept as text.
pub open spec fn number_at(src: Seq<char>, p: int) -> Lexeme {
    verbatim(src, TokenType::NumberLiteral, p, number_end(src, p))
}

/// A decoded piece of text with `c` put in front; a failure stays as it is.
pub open spec fn preceded(c: char, rest: Result<(Seq<char>, int), Failure>) -> Result<
    (Seq<char>, int),
    Failure,
> {
    match rest {
        Ok((text, end)) => Ok((seq![c] + text, end)),
        Err(failure) => Err(failure),
    }
}

/// The rest of a string literal, read from position `q` inside it: the
/// decoded text up to the closing quote and the position after that quote.
///
/// A backslash and the character after it stand for one character. The
/// literal fails at a backslash that names no escape, and at the end of the
/// source if no closing quote was met.
pub open spec fn string_tail(src: Seq<char>, q: int) -> Result<(Seq<char>, int), Failure>
    decreases src.len() - q,
{
    if q < 0 || q >= src.len() {
        Err(Failure { kind: LexErrorKind::UnterminatedString, at: src.len() as int })
    } else if src[q] == '"' {
        Ok((Seq::empty(), q + 1))
    } else if src[q] != '\\' {
        preceded(src[q], string_tail(src, q + 1))
    } else if q + 1 >= src.len() {
        Err(Failure { kind: LexErrorKind::UnterminatedString, at: src.len() as int })
    } else {
        match string_escape(src[q + 1]) {
            Some(c) => preceded(c, string_tail(src, q + 2)),
            None => Err(Failure { kind: LexErrorKind::UnknownEscapeSequence, at: q + 1 }),
        }
    }
}

/// The string literal whose opening quote stands at `p`.
pub open spec fn string_at(src: Seq<char>, p: int) -> Step {
    match string_tail(src, p + 1) {
        Ok((text, end)) => Step::Emit(
            Lexeme { kind: TokenType::StringLiteral, text, start: p, end },
        ),
        Err(failure) => Step::Fail(failure),
    }
}

/// The end of a character literal whose content `c` has been read:
/// position `q` must hold the closing quote.
///
/// The literal is unterminated if the source ends at `q`, and holds more
/// than one character if anything but a quote stands there.
pub open spec fn char_close(src: Seq<char>, p: int, c: char, q: int) -> Step {
    if q >= src.len() {
        Step::Fail(Failure { kind: LexErrorKind::UnterminatedChar, at: src.len() as int })
    } else if src[q] == '\'' {
        Step::Emit(Lexeme { kind: TokenType::CharLiteral, text: seq![c], start: p, end: q + 1 })
    } else {
        Step::Fail(Failure { kind: LexErrorKind::MultiCharCharLiteral, at: q })
    }
}

/// The character literal whose opening quote stands at `p`: one character,
/// or a backslash and a character that names an escape, between two quotes.
///
/// A quote that is the last character of the source is itself to blame:
/// the literal is unterminated at `p`.
pub open spec fn char_at(src: Seq<char>, p: int) -> Step {
    if p + 1 >= src.len() {
        Step::Fail(Failure { kind: LexErrorKind::UnterminatedChar, at: p })
    } else if src[p + 1] == '\'' {
        Step::Fail(Failure { kind: LexErrorKind::EmptyCharLiteral, at: p + 1 })
    } else if src[p + 1] != '\\' {
        char_close(src, p, src[p + 1], p + 2)
    } else if p + 2 >= src.len() {
        Step::Fail(Failure { kind: LexErrorKind::UnterminatedChar, at: src.len() as int })
    } else {
        match char_escape(src[p + 2]) {
            Some(c) => char_close(src, p, c, p + 3),
            None => Step::Fail(Failure { kind: LexErrorKind::UnknownEscapeSequence, at: p + 2 }),
        }
    }
}

/// What stands at position `p` of `src`.
pub open spec fn step_at(src: Seq<char>, p: int) -> Step
    recommends
        0 <= p < src.len(),
{
    let c = src[p];
    if blank(c) || c == '\n' {
        Step::Skip
    } else if single_operator(c) is Some {
        Step::Emit(operator_at(src, p)->0)
    } else if word_start(c) {
        Step::Emit(word_at(src, p))
    } else if digit(c) {
        Step::Emit(number_at(src, p))
    } else if c == '"' {
        string_at(src, p)
    } else if c == '\'' {
        char_at(src, p)
    } else {
        Step::Fail(Failure { kind: LexErrorKind::UnexpectedCharacter(c), at: p })
    }
}

/// A run of word characters lies inside the source, and ends where the word
/// characters end.
pub proof fn lemma_word_end(src: Seq<char>, p: int)
    requires
        0 <= p <= src.len(),
    ensures
        p <= word_end(src, p) <= src.len(),
        forall|i: int| p <= i < word_end(src, p) ==> word_part(#[trigger] src[i]),
        word_end(src, p) < src.len() ==> !word_part(src[word_end(src, p)]),
    decreases src.len() - p,
{
    if p < src.len() && word_part(src[p]) {
        lemma_word_end(src, p + 1);
    }
}

/// A run of digits and dots lies inside the source, and ends where the
/// digits and dots end.
pub proof fn lemma_number_end(src: Seq<char>, p: int)
    requires
        0 <= p <= src.len(),
    ensures
        p <= number_end(src, p) <= src.len(),
        forall|i: int| p <= i < number_end(src, p) ==> number_part(#[trigger] src[i]),
        number_end(src, p) < src.len() ==> !number_part(src[number_end(src, p)]),
    decreases src.len() - p,
{
    if p < src.len() && number_part(src[p]) {
        lemma_number_end(src, p + 1);
    }
}

/// A string literal read from `q` ends after `q` and inside the source, and
/// fails at or after `q` and no later than the end of the source.
pub proof fn lemma_string_tail_bounds(src: Seq<char>, q: int)
    requires
        0 <= q <= src.len(),
    ensures
        match string_tail(src, q) {
            Ok((text, end)) => q < end <= src.len(),
            Err(failure) => q <= failure.at <= src.len(),
        },
    decreases src.len() - q,
{
    if q < src.len() && src[q] != '"' {
        if src[q] != '\\' {
            lemma_string_tail_bounds(src, q + 1);
        } else if q + 1 < src.len() && string_escape(src[q + 1]) is Some {
            lemma_string_tail_bounds(src, q + 2);
        }
    }
}

/// A token read at `p` starts at `p`, ends after `p` and inside the source;
/// a failure met at `p` lies at or after `p` and no later than the end of
/// the source.
pub proof fn lemma_step_bounds(src: Seq<char>, p: int)
    requires
        0 <= p < src.len(),
    ensures
        match step_at(src, p) {
            Step::Skip => true,
            Step::Emit(lexeme) => lexeme.start == p && p < lexeme.end <= src.len(),
            Step::Fail(failure) => p <= failure.at <= src.len(),
        },
{
    lemma_word_end(src, p + 1);
    lemma_number_end(src, p + 1);
    lemma_string_tail_bounds(src, p + 1);
}

/// The end marker: an empty lexeme at the end of the source.
pub open spec fn end_marker(src: Seq<char>) -> Lexeme {
    Lexeme {
        kind: TokenType::Eof,
        text: Seq::empty(),
        start: src.len() as int,
        end: src.len() as int,
    }
}

/// A scan with `first` put in front; a failure stays as it is.
pub open spec fn followed(first: Lexeme, rest: Result<Seq<Lexeme>, Failure>) -> Result<
    Seq<Lexeme>,
    Failure,
> {
    match rest {
        Ok(lexemes) => Ok(seq![first] + lexemes),
        Err(failure) => Err(failure),
    }
}

/// The lexemes of `src` from position `p` on, the end marker last; or the
/// first failure.
pub open spec fn lexemes_from(src: Seq<char>, p: int) -> Result<Seq<Lexeme>, Failure>
    decreases src.len() - p,
    via lexemes_from_decreases
{
    if p < 0 || p >= src.len() {
        Ok(seq![end_marker(src)])
    } else {
        match step_at(src, p) {
            Step::Skip => lexemes_from(src, p + 1),
            Step::Emit(lexeme) => followed(lexeme, lexemes_from(src, lexeme.end)),
            Step::Fail(failure) => Err(failure),
        }
    }
}

#[via_fn]
proof fn lexemes_from_decreases(src: Seq<char>, p: int) {
    if 0 <= p < src.len() {
        lemma_step_bounds(src, p);
    }
}

/// The token that a lexeme becomes: its text, its kind, and the line on
/// which its first character stands.
pub open spec fn token_of(src: Seq<char>, lexeme: Lexeme) -> TokenView {
    TokenView { lexeme: lexeme.text, kind: lexeme.kind, line: line_at(src, lexeme.start) }
}

/// The tokens that a sequence of lexemes becomes.
pub open spec fn tokens_of(src: Seq<char>, lexemes: Seq<Lexeme>) -> Seq<TokenView> {
    Seq::new(lexemes.len(), |i: int| token_of(src, lexemes[i]))
}

/// The tokens of `src` from position `p` on, the end marker last; or the
/// first failure.
pub open spec fn tokens_from(src: Seq<char>, p: int) -> Result<Seq<TokenView>, Failure> {
    match lexemes_from(src, p) {
        Ok(lexemes) => Ok(tokens_of(src, lexemes)),
        Err(failure) => Err(failure),
    }
}

/// Whether `error` reports `failure`: it has the failure's kind, and
/// gives the byte offset and the line of the position at which the failure
/// was met.
pub open spec fn reports(error: LexError, src: Seq<char>, failure: Failure) -> bool {
    &&& error.kind == failure.kind
    &&& error.position == byte_offset(src, failure.at)
    &&& error.line == line_at(src, failure.at)
}

/// Tokens put in front of a scan; a failure stays as it is.
pub open spec fn joined(front: Seq<TokenView>, rest: Result<Seq<TokenView>, Failure>) -> Result<
    Seq<TokenView>,
    Failure,
> {
    match rest {
        Ok(tokens) => Ok(front + tokens),
        Err(failure) => Err(failure),
    }
}

/// The tokens from `p` on are what stands at `p`, then the tokens from
/// where that ends.
pub proof fn lemma_tokens_from(src: Seq<char>, p: int)
    requires
        0 <= p <= src.len(),
    ensures
        p == src.len() ==> tokens_from(src, p) == Ok::<Seq<TokenView>, Failure>(
            seq![token_of(src, end_marker(src))],
        ),
        p < src.len() ==> tokens_from(src, p) == match step_at(src, p) {
            Step::Skip => tokens_from(src, p + 1),
            Step::Emit(lexeme) => joined(seq![token_of(src, lexeme)], tokens_from(src, lexeme.end)),
            Step::Fail(failure) => Err(failure),
        },
{
    if p == src.len() {
        assert(tokens_of(src, seq![end_marker(src)]) =~= seq![token_of(src, end_marker(src))]);
    } else {
        match step_at(src, p) {
            Step::Emit(lexeme) => {
                match lexemes_from(src, lexeme.end) {
                    Ok(rest) => {
                        assert(tokens_of(src, seq![lexeme] + rest) =~= seq![token_of(src, lexeme)]
                            + tokens_of(src, rest));
                    },
                    Err(_) => {},
                }
            },
            _ => {},
        }
    }
}

/// The tokens of a whole source text.
pub open spec fn scan(src: Seq<char>) -> Result<Seq<TokenView>, Failure> {
    tokens_from(src, 0)
}

} // verus!
