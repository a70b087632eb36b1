//! The scanner: a cursor over the source and the tokens read so far.

use crate::error::{LexError, LexErrorKind};
use crate::lex::classify::{
    is_blank, is_digit, is_number_part, is_word_part, is_word_start, keyword, punctuation,
    unescape_in_char, unescape_in_string, width_in_utf8,
};
use crate::lex::grammar::{
    byte_offset, char_at, digit, end_marker, joined, lemma_byte_offset_grows,
    lemma_byte_offset_step, lemma_newlines_grow, lemma_step_bounds, lemma_tokens_from, line_at,
    number_at, number_end, operator_at, reports, single_operator, step_at, string_at, string_tail,
    token_of, tokens_from, word_at, word_end, word_start, Failure, Lexeme, Step,
};
use crate::lex::token::{views, Token, TokenType, TokenView};
use vstd::prelude::*;

verus! {

/// `String::push` of the standard library: it appends one character to
/// the string and leaves the rest of it as it was. As with the vectors of
/// `vstd`, running out of memory is not part of the model.
pub assume_specification[ std::string::String::push ](text: &mut std::string::String, c: char)
    ensures
        final(text)@ == old(text)@.push(c),
;

/// What a scanner is, as mathematics sees it.
pub struct LexerView {
    /// The source text.
    pub source: Seq<char>,
    /// The position of the cursor: the number of characters consumed.
    pub position: nat,
    /// The line counter.
    pub line: nat,
    /// The tokens read so far.
    pub tokens: Seq<Token>,
}

/// A scanner over one source text.
///
/// The cursor only moves forward. `tokens` holds what has been read; a scan
/// that fails leaves it as it found it.
#[derive(Debug)]
pub struct Lexer {
    source: Vec<char>,
    pub tokens: Vec<Token>,
    current: usize,
    line: usize,
}

impl View for Lexer {
    type V = LexerView;

    closed spec fn view(&self) -> LexerView {
        LexerView {
            source: self.source@,
            position: self.current as nat,
            line: self.line as nat,
            tokens: self.tokens@,
        }
    }
}

impl Lexer {
    /// The cursor lies inside the source, the line counter is the line of
    /// the cursor, and the lines and byte offsets of the source fit the
    /// machine's integers.
    pub open spec fn wf(&self) -> bool {
        &&& self@.position <= self@.source.len() <= usize::MAX
        &&& self@.line == line_at(self@.source, self@.position as int)
        &&& line_at(self@.source, self@.source.len() as int) <= usize::MAX
        &&& byte_offset(self@.source, self@.source.len() as int) <= usize::MAX
    }

    /// The cursor has moved over `lexeme`, and its token has been added
    /// behind the tokens that `before` had.
    pub open spec fn has_read(&self, before: &Lexer, lexeme: Lexeme) -> bool {
        &&& self@.position == lexeme.end
        &&& self@.tokens.len() == before@.tokens.len() + 1
        &&& self@.tokens.drop_last() == before@.tokens
        &&& self@.tokens.last()@ == token_of(self@.source, lexeme)
    }

    /// The cursor has stopped at `failure`, no token has been added, and
    /// `error` reports the failure.
    pub open spec fn has_failed(&self, before: &Lexer, failure: Failure, error: LexError) -> bool {
        &&& self@.position == failure.at
        &&& self@.tokens == before@.tokens
        &&& reports(error, self@.source, failure)
    }

    /// A scanner at the start of `source`, with no tokens. The lines of the
    /// source must be countable in `usize`.
    pub fn new(source: String) -> (lexer: Self)
        requires
            line_at(source@, source@.len() as int) <= usize::MAX,
        ensures
            lexer.wf(),
            lexer@ == (LexerView {
                source: source@,
                position: 0,
                line: 1,
                tokens: Seq::empty(),
            }),
    {
        let mut chars: Vec<char> = Vec::new();
        for c in it: source.as_str().chars()
            invariant
                chars@ == it.seq().take(it.index() as int),
                it.seq() == source@,
        {
            chars.push(c);
        }
        let bytes = source.as_str().as_bytes();
        proof {
            assert(chars@ == source@);
            assert(chars@.len() == chars.len());
            assert(bytes@.len() == vstd::slice::spec_slice_len(bytes));
            assert(chars@.take(chars@.len() as int) =~= chars@);
        }
        Self { source: chars, tokens: Vec::new(), current: 0, line: 1 }
    }

    /// The position of the cursor: the number of characters consumed.
    pub fn position(&self) -> (position: usize)
        ensures
            position == self@.position,
    {
        self.current
    }

    /// The line counter.
    pub fn line(&self) -> (line: usize)
        ensures
            line == self@.line,
    {
        self.line
    }

    /// The tokens read so far.
    pub fn tokens(&self) -> (tokens: &Vec<Token>)
        ensures
            tokens@ == self@.tokens,
    {
        &self.tokens
    }

    /// Reads the source from the cursor to its end and adds the tokens to
    /// `tokens`, the end marker last.
    ///
    /// On the first failure the scan stops: the cursor stays at the failure,
    /// the tokens that this call had added are dropped, and the failure is
    /// returned with its byte offset and line.
    pub fn parse(&mut self) -> (result: Result<(), LexError>)
        requires
            old(self).wf(),
        ensures
            final(self).wf(),
            final(self)@.source == old(self)@.source,
            match tokens_from(old(self)@.source, old(self)@.position as int) {
                Ok(tokens) => {
                    let kept = old(self)@.tokens.len() as int;
                    &&& result is Ok
                    &&& final(self)@.position == old(self)@.source.len()
                    &&& final(self)@.tokens.len() == kept + tokens.len()
                    &&& final(self)@.tokens.take(kept) == old(self)@.tokens
                    &&& views(final(self)@.tokens.skip(kept)) == tokens
                },
                Err(failure) => {
                    &&& result is Err
                    &&& reports(result->Err_0, old(self)@.source, failure)
                    &&& old(self)@.position <= final(self)@.position == failure.at
                    &&& final(self)@.tokens == old(self)@.tokens
                },
            },
    {
        let base = self.tokens.len();
        let ghost start = self.current as int;
        let ghost src = self.source@;
        let ghost kept = self.tokens@;
        while self.current < self.source.len()
            invariant
                self.wf(),
                src == old(self)@.source,
                start == old(self)@.position,
                kept == old(self)@.tokens,
                self.source@ == src,
                0 <= start <= self.current,
                base == kept.len() <= self.tokens@.len(),
                self.tokens@.take(base as int) == kept,
                tokens_from(src, start) == joined(
                    views(self.tokens@.skip(base as int)),
                    tokens_from(src, self.current as int),
                ),
            decreases self.source.len() - self.current,
        {
            let ghost before = *self;
            proof {
                lemma_tokens_from(src, self.current as int);
                lemma_step_bounds(src, self.current as int);
            }
            match self.step() {
                Ok(()) => {
                    proof {
                        match step_at(src, before.current as int) {
                            Step::Emit(lexeme) => {
                                assert(self.tokens@.take(base as int) =~= before.tokens@.take(
                                    base as int,
                                ));
                                assert(views(self.tokens@.skip(base as int)) =~= views(
                                    before.tokens@.skip(base as int),
                                ) + seq![token_of(src, lexeme)]);
                                match tokens_from(src, lexeme.end) {
                                    Ok(rest) => {
                                        assert(views(before.tokens@.skip(base as int)) + (seq![
                                            token_of(src, lexeme),
                                        ] + rest) =~= views(self.tokens@.skip(base as int))
                                            + rest);
                                    },
                                    Err(_) => {},
                                }
                            },
                            _ => {},
                        }
                    }
                },
                Err(error) => {
                    self.tokens.truncate(base);
                    proof {
                        assert(self.tokens@ =~= kept);
                    }
                    return Err(error);
                },
            }
        }
        let line = self.line;
        self.emit("", TokenType::Eof, line);
        proof {
            reveal_strlit("");
            lemma_tokens_from(src, self.current as int);
            let done = self.tokens@.drop_last();
            assert(self.tokens@.take(base as int) =~= done.take(base as int));
            assert(""@ =~= Seq::<char>::empty());
            assert(views(self.tokens@.skip(base as int)) =~= views(done.skip(base as int)) + seq![
                token_of(src, end_marker(src)),
            ]);
        }
        Ok(())
    }

    /// Reads what stands at the cursor: white space, a token, or nothing
    /// that the grammar knows.
    pub fn step(&mut self) -> (result: Result<(), LexError>)
        requires
            old(self).wf(),
            old(self)@.position < old(self)@.source.len(),
        ensures
            final(self).wf(),
            final(self)@.source == old(self)@.source,
            match step_at(old(self)@.source, old(self)@.position as int) {
                Step::Skip => {
                    &&& result is Ok
                    &&& final(self)@.position == old(self)@.position + 1
                    &&& final(self)@.tokens == old(self)@.tokens
                },
                Step::Emit(lexeme) => result is Ok && final(self).has_read(old(self), lexeme),
                Step::Fail(failure) => result is Err && final(self).has_failed(
                    old(self),
                    failure,
                    result->Err_0,
                ),
            },
    {
        let c = self.peek();
        if is_blank(c) || c == '\n' {
            self.advance();
            Ok(())
        } else if punctuation(c).is_some() {
            self.operator();
            Ok(())
        } else if is_word_start(c) {
            self.identifier();
            Ok(())
        } else if is_digit(c) {
            self.number();
            Ok(())
        } else if c == '"' {
            self.string()
        } else if c == '\'' {
            self.char()
        } else {
            Err(self.fail(LexErrorKind::UnexpectedCharacter(c)))
        }
    }

    /// The character at the cursor.
    fn peek(&self) -> (c: char)
        requires
            self.wf(),
            self.current < self.source.len(),
        ensures
            c == self.source@[self.current as int],
    {
        self.source[self.current]
    }

    /// Whether the cursor has consumed the whole source.
    fn exhausted(&self) -> (yes: bool)
        ensures
            yes == (self.current >= self.source.len()),
    {
        self.current >= self.source.len()
    }

    /// Moves the cursor forward by one character, whatever stands there. A
    /// newline that it moves over adds one line. A cursor that was inside
    /// the source stays well formed; one that stood at the end leaves the
    /// source.
    pub fn advance(&mut self)
        requires
            old(self).wf(),
            old(self)@.position < usize::MAX,
        ensures
            final(self)@.source == old(self)@.source,
            final(self)@.tokens == old(self)@.tokens,
            final(self)@.position == old(self)@.position + 1,
            final(self)@.line == old(self)@.line + if old(self)@.position < old(self)@.source.len()
                && old(self)@.source[old(self)@.position as int] == '\n' {
                1nat
            } else {
                0nat
            },
            old(self)@.position < old(self)@.source.len() ==> final(self).wf(),
    {
        if self.current < self.source.len() {
            proof {
                lemma_newlines_grow(self.source@, self.current + 1, self.source@.len() as int);
            }
            if self.source[self.current] == '\n' {
                self.line += 1;
            }
        }
        self.current += 1;
    }

    /// Whether the character after the one at the cursor is `expected`;
    /// `false` if there is none.
    pub fn check(&self, expected: char) -> (yes: bool)
        requires
            self.wf(),
        ensures
            yes == (self@.position + 1 < self@.source.len() && self@.source[self@.position as int
                + 1] == expected),
    {
        if self.ended() {
            return false;
        }
        self.source[self.current + 1] == expected
    }

    /// Whether no character stands after the one at the cursor.
    pub fn ended(&self) -> (yes: bool)
        requires
            self.wf(),
        ensures
            yes == (self@.position + 1 >= self@.source.len()),
    {
        self.source.len() - self.current <= 1
    }

    /// The source from `start` to the cursor.
    fn lexeme(&self, start: usize) -> (text: String)
        requires
            start <= self.current <= self.source.len(),
        ensures
            text@ == self.source@.subrange(start as int, self.current as int),
    {
        let mut text = String::new();
        let mut i: usize = start;
        while i < self.current
            invariant
                start <= i <= self.current <= self.source.len(),
                text@ == self.source@.subrange(start as int, i as int),
            decreases self.current - i,
        {
            text.push(self.source[i]);
            i += 1;
        }
        text
    }

    /// Adds a token.
    fn emit(&mut self, text: &str, kind: TokenType, line: usize)
        requires
            old(self).wf(),
        ensures
            final(self).wf(),
            final(self)@.source == old(self)@.source,
            final(self)@.position == old(self)@.position,
            final(self)@.tokens.len() == old(self)@.tokens.len() + 1,
            final(self)@.tokens.drop_last() == old(self)@.tokens,
            final(self)@.tokens.last()@ == (TokenView { lexeme: text@, kind, line: line as nat }),
    {
        self.tokens.push(Token::new(text, kind, line));
        assert(self.tokens@.drop_last() =~= old(self)@.tokens);
    }

    /// The failure of kind `kind` at the cursor.
    fn fail(&self, kind: LexErrorKind) -> (error: LexError)
        requires
            self.wf(),
        ensures
            reports(error, self.source@, Failure { kind, at: self.current as int }),
    {
        let mut position: usize = 0;
        let mut i: usize = 0;
        while i < self.current
            invariant
                self.wf(),
                i <= self.current,
                position == byte_offset(self.source@, i as int),
            decreases self.current - i,
        {
            proof {
                lemma_byte_offset_step(self.source@, i as int);
                lemma_byte_offset_grows(self.source@, i + 1, self.source@.len() as int);
            }
            position += width_in_utf8(self.source[i]);
            i += 1;
        }
        LexError { kind, position, line: self.line }
    }

    /// Reads the operator at the cursor. For a character that may begin a
    /// longer operator the next character is tried in a fixed order: `<=`,
    /// `<-`, `<<`; `>=`, `>>`; `==`, `=>`; `->`; `**`. The first that fits
    /// is taken with the character; if none fits the character stands
    /// alone.
    pub fn operator(&mut self)
        requires
            old(self).wf(),
            old(self)@.position < old(self)@.source.len(),
            single_operator(old(self)@.source[old(self)@.position as int]) is Some,
        ensures
            final(self).wf(),
            final(self)@.source == old(self)@.source,
            final(self).has_read(
                old(self),
                operator_at(old(self)@.source, old(self)@.position as int)->0,
            ),
    {
        let start = self.current;
        let line = self.line;
        let first = self.peek();
        let longer = if first == '<' {
            if self.check('=') {
                Some(TokenType::LessEqual)
            } else if self.check('-') {
                Some(TokenType::LeftAssign)
            } else if self.check('<') {
                Some(TokenType::LeftShift)
            } else {
                None
            }
        } else if first == '>' {
            if self.check('=') {
                Some(TokenType::GreaterEqual)
            } else if self.check('>') {
                Some(TokenType::RightShift)
            } else {
                None
            }
        } else if first == '=' {
            if self.check('=') {
                Some(TokenType::EqualEqual)
            } else if self.check('>') {
                Some(TokenType::Arrow)
            } else {
                None
            }
        } else if first == '-' {
            if self.check('>') {
                Some(TokenType::RightAssign)
            } else {
                None
            }
        } else if first == '*' {
            if self.check('*') {
                Some(TokenType::Power)
            } else {
                None
            }
        } else {
            None
        };
        let kind = match longer {
            Some(kind) => {
                self.advance();
                kind
            },
            None => punctuation(first).unwrap(),
        };
        self.advance();
        let text = self.lexeme(start);
        self.emit(text.as_str(), kind, line);
    }

    /// Reads the identifier or reserved word at the cursor.
    pub fn identifier(&mut self)
        requires
            old(self).wf(),
            old(self)@.position < old(self)@.source.len(),
            word_start(old(self)@.source[old(self)@.position as int]),
        ensures
            final(self).wf(),
            final(self)@.source == old(self)@.source,
            final(self).has_read(old(self), word_at(old(self)@.source, old(self)@.position as int)),
    {
        let start = self.current;
        let line = self.line;
        while !self.exhausted() && is_word_part(self.source[self.current])
            invariant
                self.wf(),
                self.source@ == old(self)@.source,
                self.tokens@ == old(self)@.tokens,
                start <= self.current <= self.source.len(),
                word_end(self.source@, start as int) == word_end(
                    self.source@,
                    self.current as int,
                ),
            decreases self.source.len() - self.current,
        {
            self.advance();
        }
        let text = self.lexeme(start);
        let kind = match keyword(text.as_str()) {
            Some(kind) => kind,
            None => TokenType::Identifier,
        };
        self.emit(text.as_str(), kind, line);
    }

    /// Reads the number at the cursor.
    pub fn number(&mut self)
        requires
            old(self).wf(),
            old(self)@.position < old(self)@.source.len(),
            digit(old(self)@.source[old(self)@.position as int]),
        ensures
            final(self).wf(),
            final(self)@.source == old(self)@.source,
            final(self).has_read(
                old(self),
                number_at(old(self)@.source, old(self)@.position as int),
            ),
    {
        let start = self.current;
        let line = self.line;
        while !self.exhausted() && is_number_part(self.source[self.current])
            invariant
                self.wf(),
                self.source@ == old(self)@.source,
                self.tokens@ == old(self)@.tokens,
                start <= self.current <= self.source.len(),
                number_end(self.source@, start as int) == number_end(
                    self.source@,
                    self.current as int,
                ),
            decreases self.source.len() - self.current,
        {
            self.advance();
        }
        let text = self.lexeme(start);
        self.emit(text.as_str(), TokenType::NumberLiteral, line);
    }

    /// Reads the string literal whose opening quote stands at the cursor.
    pub fn string(&mut self) -> (result: Result<(), LexError>)
        requires
            old(self).wf(),
            old(self)@.position < old(self)@.source.len(),
            old(self)@.source[old(self)@.position as int] == '"',
        ensures
            final(self).wf(),
            final(self)@.source == old(self)@.source,
            match string_at(old(self)@.source, old(self)@.position as int) {
                Step::Emit(lexeme) => result is Ok && final(self).has_read(old(self), lexeme),
                Step::Fail(failure) => result is Err && final(self).has_failed(
                    old(self),
                    failure,
                    result->Err_0,
                ),
                Step::Skip => false,
            },
    {
        let ghost src = self.source@;
        let ghost start = self.current as int;
        let line = self.line;
        let mut text = String::new();
        self.advance();
        loop
            invariant
                self.wf(),
                src == old(self)@.source,
                start == old(self)@.position,
                line == line_at(src, start),
                self.source@ == src,
                self.tokens@ == old(self)@.tokens,
                start < self.current <= self.source.len(),
                string_tail(src, start + 1) == match string_tail(src, self.current as int) {
                    Ok((rest, end)) => Ok::<(Seq<char>, int), Failure>((text@ + rest, end)),
                    Err(failure) => Err(failure),
                },
            ensures
                self.current < self.source.len(),
                self.source@[self.current as int] == '"',
            decreases self.source.len() - self.current,
        {
            if self.exhausted() {
                return Err(self.fail(LexErrorKind::UnterminatedString));
            }
            let c = self.peek();
            if c == '"' {
                break ;
            }
            let ghost read = text@;
            if c == '\\' {
                self.advance();
                if self.exhausted() {
                    return Err(self.fail(LexErrorKind::UnterminatedString));
                }
                match unescape_in_string(self.peek()) {
                    Some(decoded) => {
                        text.push(decoded);
                    },
                    None => {
                        return Err(self.fail(LexErrorKind::UnknownEscapeSequence));
                    },
                }
            } else {
                text.push(c);
            }
            self.advance();
            proof {
                match string_tail(src, self.current as int) {
                    Ok((rest, end)) => {
                        assert(read + (seq![text@[read.len() as int]] + rest) =~= text@ + rest);
                    },
                    Err(_) => {},
                }
            }
        }
        self.advance();
        proof {
            assert(text@ + Seq::<char>::empty() =~= text@);
        }
        self.emit(text.as_str(), TokenType::StringLiteral, line);
        Ok(())
    }

    /// Reads the character literal whose opening quote stands at the cursor.
    pub fn char(&mut self) -> (result: Result<(), LexError>)
        requires
            old(self).wf(),
            old(self)@.position < old(self)@.source.len(),
            old(self)@.source[old(self)@.position as int] == '\'',
        ensures
            final(self).wf(),
            final(self)@.source == old(self)@.source,
            match char_at(old(self)@.source, old(self)@.position as int) {
                Step::Emit(lexeme) => result is Ok && final(self).has_read(old(self), lexeme),
                Step::Fail(failure) => result is Err && final(self).has_failed(
                    old(self),
                    failure,
                    result->Err_0,
                ),
                Step::Skip => false,
            },
    {
        if self.ended() {
            return Err(self.fail(LexErrorKind::UnterminatedChar));
        }
        let line = self.line;
        self.advance();
        let c = self.peek();
        if c == '\'' {
            return Err(self.fail(LexErrorKind::EmptyCharLiteral));
        }
        let mut text = String::new();
        if c == '\\' {
            self.advance();
            if self.exhausted() {
                return Err(self.fail(LexErrorKind::UnterminatedChar));
            }
            match unescape_in_char(self.peek()) {
                Some(decoded) => {
                    text.push(decoded);
                },
                None => {
                    return Err(self.fail(LexErrorKind::UnknownEscapeSequence));
                },
            }
        } else {
            text.push(c);
        }
        self.advance();
        if self.exhausted() {
            return Err(self.fail(LexErrorKind::UnterminatedChar));
        }
        if self.peek() != '\'' {
            return Err(self.fail(LexErrorKind::MultiCharCharLiteral));
        }
        self.advance();
        proof {
            assert(text@ =~= seq![text@[0]]);
        }
        self.emit(text.as_str(), TokenType::CharLiteral, line);
        Ok(())
    }
}

} // verus!
