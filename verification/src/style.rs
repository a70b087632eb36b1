//! Token listings for the terminal, one styled line per token.

use crate::lex::token::{Token, TokenType};
use vstd::prelude::*;
use vstd::string::StringExecFns;

verus! {

/// A text with a colour and a weight, as the `colored` crate holds it.
#[verifier::external_type_specification]
#[verifier::external_body]
pub struct ExColoredString(colored::ColoredString);

/// The colours of a listing.
#[derive(Debug, Clone, Copy, PartialEq, Eq, Structural)]
pub enum Tint {
    Green,
    Yellow,
    Red,
    Purple,
}

/// The colour in which tokens of a kind are listed: identifiers and round
/// brackets green, numbers and braces yellow, string and character
/// literals and square brackets red, everything else purple.
pub open spec fn tint_of(kind: TokenType) -> Tint {
    match kind {
        TokenType::Identifier | TokenType::LeftParen | TokenType::RightParen => Tint::Green,
        TokenType::NumberLiteral | TokenType::LeftBrace | TokenType::RightBrace => Tint::Yellow,
        TokenType::StringLiteral
        | TokenType::CharLiteral
        | TokenType::LeftBracket
        | TokenType::RightBracket => Tint::Red,
        _ => Tint::Purple,
    }
}

/// The colour in which tokens of kind `kind` are listed.
pub fn tint(kind: TokenType) -> (tint: Tint)
    ensures
        tint == tint_of(kind),
{
    match kind {
        TokenType::Identifier => Tint::Green,
        TokenType::NumberLiteral => Tint::Yellow,
        TokenType::StringLiteral | TokenType::CharLiteral => Tint::Red,
        TokenType::LeftBrace | TokenType::RightBrace => Tint::Yellow,
        TokenType::LeftBracket | TokenType::RightBracket => Tint::Red,
        TokenType::LeftParen | TokenType::RightParen => Tint::Green,
        _ => Tint::Purple,
    }
}

/// What a `ColoredString` holds, as far as a listing goes.
pub struct Styling {
    /// The text: the field `input`.
    pub text: Seq<char>,
    /// The colour of the text, from the field `fgcolor`: `Purple` stands
    /// for `Color::Magenta`, and `None` for no colour and for every colour
    /// that a listing does not use.
    pub tint: Option<Tint>,
    /// Whether the field `style` holds `Styles::Bold`.
    pub bold: bool,
}

/// What `painted` holds.
pub uninterp spec fn styling(painted: colored::ColoredString) -> Styling;

/// `colored::Colorize::green` on a `&str`: a copy of the text with
/// `Color::Green` as its colour and no style.
#[verifier::external_body]
fn green(text: &str) -> (painted: colored::ColoredString)
    ensures
        styling(painted) == (Styling { text: text@, tint: Some(Tint::Green), bold: false }),
{
    colored::Colorize::green(text)
}

/// `colored::Colorize::yellow` on a `&str`: a copy of the text with
/// `Color::Yellow` as its colour and no style.
#[verifier::external_body]
fn yellow(text: &str) -> (painted: colored::ColoredString)
    ensures
        styling(painted) == (Styling { text: text@, tint: Some(Tint::Yellow), bold: false }),
{
    colored::Colorize::yellow(text)
}

/// `colored::Colorize::red` on a `&str`: a copy of the text with
/// `Color::Red` as its colour and no style.
#[verifier::external_body]
fn red(text: &str) -> (painted: colored::ColoredString)
    ensures
        styling(painted) == (Styling { text: text@, tint: Some(Tint::Red), bold: false }),
{
    colored::Colorize::red(text)
}

/// `colored::Colorize::purple` on a `&str`: a copy of the text with
/// `Color::Magenta` as its colour and no style.
#[verifier::external_body]
fn purple(text: &str) -> (painted: colored::ColoredString)
    ensures
        styling(painted) == (Styling { text: text@, tint: Some(Tint::Purple), bold: false }),
{
    colored::Colorize::purple(text)
}

/// `colored::Colorize::bold` on a `ColoredString`: the same text and
/// colour, with `Styles::Bold` added to the style.
#[verifier::external_body]
fn bold(text: colored::ColoredString) -> (painted: colored::ColoredString)
    ensures
        styling(painted) == (Styling {
            text: styling(text).text,
            tint: styling(text).tint,
            bold: true,
        }),
{
    colored::Colorize::bold(text)
}

/// `to_string` on a `ColoredString`: the text, wrapped in the escape codes
/// of its colour and weight if the crate finds that the terminal and the
/// environment take colour, and bare if not. Nothing is claimed of it.
#[verifier::external_body]
fn render(text: &colored::ColoredString) -> String {
    text.to_string()
}

/// `text` in the given colour, and not in bold.
fn paint(text: &str, tint: Tint) -> (painted: colored::ColoredString)
    ensures
        styling(painted) == (Styling { text: text@, tint: Some(tint), bold: false }),
{
    match tint {
        Tint::Green => green(text),
        Tint::Yellow => yellow(text),
        Tint::Red => red(text),
        Tint::Purple => purple(text),
    }
}

/// A label, a colon, a space, and a text.
pub open spec fn labelled(label: Seq<char>, text: Seq<char>) -> Seq<char> {
    label + seq![':', ' '] + text
}

/// Whether `line` is some label, a colon, a space, and some text.
pub open spec fn is_labelled(line: Seq<char>) -> bool {
    exists|label: Seq<char>, text: Seq<char>| line == labelled(label, text)
}

/// The line that sets `label` before `text`.
pub fn label_line(label: &str, text: &str) -> (line: String)
    ensures
        line@ == labelled(label@, text@),
{
    let mut line = String::from_str(label);
    line.append(": ");
    line.append(text);
    proof {
        reveal_strlit(": ");
        assert(": "@ =~= seq![':', ' ']);
    }
    line
}

/// How a token is listed: the name of its kind as the label, its text,
/// and the colour of both.
#[derive(Debug, Clone, PartialEq, Eq)]
pub struct Entry {
    pub label: String,
    pub text: String,
    pub tint: Tint,
}

/// How `token` is listed.
pub fn entry(token: &Token) -> (entry: Entry)
    ensures
        entry.label@ == token@.kind.name_text(),
        entry.text@ == token@.lexeme,
        entry.tint == tint_of(token@.kind),
{
    let kind = token.token_type();
    Entry {
        label: String::from_str(kind.name()),
        text: String::from_str(token.lexeme()),
        tint: tint(kind),
    }
}

/// The two parts of an entry as they are painted: the label in the colour
/// of the entry, and the text in that colour and in bold.
pub fn painted(entry: &Entry) -> (pair: (colored::ColoredString, colored::ColoredString))
    ensures
        styling(pair.0) == (Styling { text: entry.label@, tint: Some(entry.tint), bold: false }),
        styling(pair.1) == (Styling { text: entry.text@, tint: Some(entry.tint), bold: true }),
{
    let label = paint(entry.label.as_str(), entry.tint);
    let text = bold(paint(entry.text.as_str(), entry.tint));
    (label, text)
}

/// The line of an entry: its two painted parts, each as the terminal is
/// found to take it, with a colon and a space between them.
pub fn entry_line(entry: &Entry) -> (line: String)
    ensures
        is_labelled(line@),
{
    let (label, text) = painted(entry);
    let label = render(&label);
    let text = render(&text);
    let line = label_line(label.as_str(), text.as_str());
    assert(line@ == labelled(label@, text@));
    line
}

/// The line that lists `token`: the name of its kind, then its text in
/// bold, both in the colour of the kind and both as the terminal is found
/// to take them.
pub fn token_line(token: &Token) -> (line: String)
    ensures
        is_labelled(line@),
{
    entry_line(&entry(token))
}

/// The listing of `tokens`: one line for each, in order.
pub fn token_lines(tokens: &Vec<Token>) -> (lines: Vec<String>)
    ensures
        lines@.len() == tokens@.len(),
        forall|i: int| 0 <= i < lines@.len() ==> is_labelled(#[trigger] lines@[i]@),
{
    let mut lines: Vec<String> = Vec::new();
    let mut i: usize = 0;
    while i < tokens.len()
        invariant
            i <= tokens.len(),
            lines@.len() == i,
            forall|j: int| 0 <= j < lines@.len() ==> is_labelled(#[trigger] lines@[j]@),
        decreases tokens.len() - i,
    {
        lines.push(token_line(&tokens[i]));
        i += 1;
    }
    lines
}

} // verus!
