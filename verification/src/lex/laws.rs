//! What holds of every scan.

use crate::error::LexErrorKind;
use crate::lex::grammar::{
    blank, char_at, char_escape, digit, double_operator, end_marker, followed, lemma_newlines_bound,
    lemma_number_end, lemma_step_bounds, lemma_word_end, lexemes_from, line_at, newlines, number_at,
    number_end, number_part, operator_at, preceded, reserved, scan, single_operator, step_at,
    string_escape, string_tail, tokens_from, tokens_of, verbatim, word_at, word_end, word_kind,
    word_part, word_start, Failure, Lexeme, Step,
};
use crate::lex::token::{TokenType, TokenView};
use vstd::prelude::*;

verus! {

/// The lines of a source of fewer than `usize::MAX` characters can be
/// counted in `usize`.
pub proof fn lemma_lines_are_countable(src: Seq<char>)
    requires
        src.len() < usize::MAX,
    ensures
        line_at(src, src.len() as int) <= usize::MAX,
{
    lemma_newlines_bound(src, src.len() as int);
}

/// Whether `src` is made of punctuation and operator characters alone.
pub open spec fn operators_only(src: Seq<char>) -> bool {
    forall|i: int| 0 <= i < src.len() ==> single_operator(#[trigger] src[i]) is Some
}

/// The operators of `src` from `p` on, read off the two operator tables:
/// two characters where they form an operator together, else one; the end
/// marker last.
pub open spec fn operators_from(src: Seq<char>, p: int) -> Seq<Lexeme>
    decreases src.len() - p,
{
    if p < 0 || p >= src.len() {
        seq![end_marker(src)]
    } else if p + 1 < src.len() && double_operator(src[p], src[p + 1]) is Some {
        seq![verbatim(src, double_operator(src[p], src[p + 1])->0, p, p + 2)] + operators_from(
            src,
            p + 2,
        )
    } else {
        seq![verbatim(src, single_operator(src[p])->0, p, p + 1)] + operators_from(src, p + 1)
    }
}

/// The texts of a sequence of lexemes, one after another.
pub open spec fn texts_of(lexemes: Seq<Lexeme>) -> Seq<char>
    decreases lexemes.len(),
{
    if lexemes.len() == 0 {
        Seq::empty()
    } else {
        lexemes[0].text + texts_of(lexemes.drop_first())
    }
}

/// From any position on, a source made of punctuation and operator
/// characters alone holds the operators that the tables give, and their
/// texts are the source from that position on.
proof fn lemma_operators_from(src: Seq<char>, p: int)
    requires
        operators_only(src),
        0 <= p <= src.len(),
    ensures
        lexemes_from(src, p) == Ok::<Seq<Lexeme>, Failure>(operators_from(src, p)),
        texts_of(operators_from(src, p)) == src.subrange(p, src.len() as int),
    decreases src.len() - p,
{
    let operators = operators_from(src, p);
    if p < src.len() {
        assert(single_operator(src[p]) is Some);
        let lexeme = operator_at(src, p)->0;
        assert(step_at(src, p) == Step::Emit(lexeme));
        if p + 1 < src.len() {
            assert(single_operator(src[p + 1]) is Some);
        }
        lemma_operators_from(src, lexeme.end);
        assert(operators.drop_first() =~= operators_from(src, lexeme.end));
        assert(texts_of(operators) =~= src.subrange(p, src.len() as int));
    } else {
        assert(operators.drop_first() =~= Seq::<Lexeme>::empty());
        assert(texts_of(operators.drop_first()) =~= Seq::<char>::empty());
        assert(texts_of(operators) =~= src.subrange(p, src.len() as int));
    }
}

/// A source made of punctuation and operator characters alone always scans,
/// and its tokens are exactly the operators that the tables give: every
/// character belongs to one token, and no token is anything else.
pub proof fn lemma_operators_scan_by_table(src: Seq<char>)
    requires
        operators_only(src),
    ensures
        lexemes_from(src, 0) == Ok::<Seq<Lexeme>, Failure>(operators_from(src, 0)),
        scan(src) == Ok::<Seq<TokenView>, Failure>(tokens_of(src, operators_from(src, 0))),
        texts_of(operators_from(src, 0)) == src,
{
    lemma_operators_from(src, 0);
    assert(src.subrange(0, src.len() as int) =~= src);
}

/// Whether `src` has the shape of a word: a letter or an underscore, then
/// letters, digits and underscores.
pub open spec fn word_shaped(src: Seq<char>) -> bool {
    &&& src.len() > 0
    &&& word_start(src[0])
    &&& forall|i: int| 0 <= i < src.len() ==> word_part(#[trigger] src[i])
}

/// No reserved word stands for an identifier or for the end marker.
pub proof fn lemma_reserved_kinds(word: Seq<char>)
    ensures
        reserved(word) is Some ==> reserved(word)->0 != TokenType::Identifier && reserved(word)->0
            != TokenType::Eof,
        word_kind(word) == TokenType::Identifier <==> reserved(word) is None,
{
    reveal(reserved);
}

/// No newline stands before `p` if none stands anywhere in `src`.
proof fn lemma_no_newlines(src: Seq<char>, p: int)
    requires
        0 <= p <= src.len(),
        forall|i: int| 0 <= i < src.len() ==> #[trigger] src[i] != '\n',
    ensures
        newlines(src, p) == 0,
    decreases p,
{
    if p > 0 {
        lemma_no_newlines(src, p - 1);
    }
}

/// Wherever a word begins, it is read whole: the token runs from there to
/// the first character that is no letter, digit or underscore, or to the
/// end of the source. Its text is that run as it is written. Its kind is
/// that of the reserved word if the run equals one, and never
/// `Identifier` then; it is `Identifier` if the run equals none.
pub proof fn lemma_word_is_read_whole(src: Seq<char>, p: int)
    requires
        0 <= p < src.len(),
        word_start(src[p]),
    ensures
        step_at(src, p) == Step::Emit(word_at(src, p)),
        ({
            let word = word_at(src, p);
            &&& word.start == p < word.end <= src.len()
            &&& word.text == src.subrange(p, word.end)
            &&& forall|i: int| p <= i < word.end ==> word_part(#[trigger] src[i])
            &&& word.end < src.len() ==> !word_part(src[word.end])
            &&& reserved(word.text) is Some ==> word.kind == reserved(word.text)->0 && word.kind
                != TokenType::Identifier
            &&& reserved(word.text) is None ==> word.kind == TokenType::Identifier
        }),
{
    lemma_word_end(src, p);
    lemma_reserved_kinds(src.subrange(p, word_end(src, p)));
}

/// A source that has the shape of a word scans as one token and the end
/// marker. The token holds the whole source. Its kind is that of the
/// reserved word if the source equals one, and `Identifier` if it does
/// not, whatever reserved word it may begin with.
pub proof fn lemma_word_is_one_token(src: Seq<char>)
    requires
        word_shaped(src),
    ensures
        scan(src) == Ok::<Seq<TokenView>, Failure>(
            seq![
                TokenView { lexeme: src, kind: word_kind(src), line: 1 },
                TokenView { lexeme: Seq::empty(), kind: TokenType::Eof, line: 1 },
            ],
        ),
        reserved(src) is Some ==> word_kind(src) == reserved(src)->0 && word_kind(src)
            != TokenType::Identifier,
        reserved(src) is None ==> word_kind(src) == TokenType::Identifier,
{
    let n = src.len() as int;
    lemma_word_end(src, 0);
    assert(word_end(src, 0) == n) by {
        if word_end(src, 0) < n {
            assert(word_part(src[word_end(src, 0)]));
        }
    }
    assert(src.subrange(0, n) =~= src);
    let word = word_at(src, 0);
    assert(step_at(src, 0) == Step::Emit(word));
    assert(lexemes_from(src, n) == Ok::<Seq<Lexeme>, Failure>(seq![end_marker(src)]));
    let lexemes = seq![word] + seq![end_marker(src)];
    assert(lexemes_from(src, 0) == Ok::<Seq<Lexeme>, Failure>(lexemes));
    assert forall|i: int| 0 <= i < src.len() implies #[trigger] src[i] != '\n' by {
        assert(word_part(src[i]));
    }
    lemma_no_newlines(src, n);
    assert(tokens_of(src, lexemes) =~= seq![
        TokenView { lexeme: src, kind: word_kind(src), line: 1 },
        TokenView { lexeme: Seq::empty(), kind: TokenType::Eof, line: 1 },
    ]);
    lemma_reserved_kinds(src);
}

/// Whether `src` has the shape of a number: a digit, then digits and dots.
pub open spec fn number_shaped(src: Seq<char>) -> bool {
    &&& src.len() > 0
    &&& digit(src[0])
    &&& forall|i: int| 0 <= i < src.len() ==> number_part(#[trigger] src[i])
}

/// A source that has the shape of a number scans as one number literal and
/// the end marker, however many dots it holds. The literal keeps the
/// source as it is written.
pub proof fn lemma_number_is_one_token(src: Seq<char>)
    requires
        number_shaped(src),
    ensures
        scan(src) == Ok::<Seq<TokenView>, Failure>(
            seq![
                TokenView { lexeme: src, kind: TokenType::NumberLiteral, line: 1 },
                TokenView { lexeme: Seq::empty(), kind: TokenType::Eof, line: 1 },
            ],
        ),
{
    let n = src.len() as int;
    lemma_number_end(src, 0);
    assert(number_end(src, 0) == n) by {
        if number_end(src, 0) < n {
            assert(number_part(src[number_end(src, 0)]));
        }
    }
    assert(src.subrange(0, n) =~= src);
    let number = number_at(src, 0);
    assert(step_at(src, 0) == Step::Emit(number));
    assert(lexemes_from(src, n) == Ok::<Seq<Lexeme>, Failure>(seq![end_marker(src)]));
    let lexemes = seq![number] + seq![end_marker(src)];
    assert(lexemes_from(src, 0) == Ok::<Seq<Lexeme>, Failure>(lexemes));
    assert forall|i: int| 0 <= i < src.len() implies #[trigger] src[i] != '\n' by {
        assert(number_part(src[i]));
    }
    lemma_no_newlines(src, n);
    assert(tokens_of(src, lexemes) =~= seq![
        TokenView { lexeme: src, kind: TokenType::NumberLiteral, line: 1 },
        TokenView { lexeme: Seq::empty(), kind: TokenType::Eof, line: 1 },
    ]);
}

/// Whether a kind is that of a string or character literal.
pub open spec fn quoted(kind: TokenType) -> bool {
    kind == TokenType::StringLiteral || kind == TokenType::CharLiteral
}

/// A token that is no string or character literal holds the source as it
/// is written, and no white space.
pub proof fn lemma_plain_tokens_are_verbatim(src: Seq<char>, p: int)
    requires
        0 <= p < src.len(),
    ensures
        step_at(src, p) matches Step::Emit(lexeme) ==> quoted(lexeme.kind) || {
            &&& lexeme.text == src.subrange(lexeme.start, lexeme.end)
            &&& forall|i: int|
                lexeme.start <= i < lexeme.end ==> !blank(#[trigger] src[i]) && src[i] != '\n'
        },
{
    lemma_word_end(src, p);
    lemma_number_end(src, p);
    lemma_reserved_kinds(src.subrange(p, word_end(src, p)));
    if p + 1 < src.len() && double_operator(src[p], src[p + 1]) is Some {
        assert(single_operator(src[p + 1]) is Some);
    }
}

/// Whether the characters of `src` from `from` up to `to` are all white
/// space.
pub open spec fn white_between(src: Seq<char>, from: int, to: int) -> bool {
    forall|i: int| from <= i < to ==> blank(#[trigger] src[i]) || src[i] == '\n'
}

/// Whether the lexeme at index `i` is a token in its place: it is no end
/// marker, it is not empty, and only white space lies between it and the
/// lexeme after it.
pub open spec fn in_place(src: Seq<char>, lexemes: Seq<Lexeme>, i: int) -> bool {
    &&& lexemes[i].kind != TokenType::Eof
    &&& lexemes[i].start < lexemes[i].end <= lexemes[i + 1].start
    &&& white_between(src, lexemes[i].end, lexemes[i + 1].start)
}

/// Whether `lexemes` covers `src` from `p` on: tokens in the order of the
/// source, with nothing but white space before, between and after them,
/// and then the end marker, once.
pub open spec fn covers(src: Seq<char>, p: int, lexemes: Seq<Lexeme>) -> bool {
    &&& lexemes.len() >= 1
    &&& lexemes.last() == end_marker(src)
    &&& p <= lexemes[0].start
    &&& white_between(src, p, lexemes[0].start)
    &&& forall|i: int| 0 <= i < lexemes.len() - 1 ==> #[trigger] in_place(src, lexemes, i)
}

/// No token read from the source is the end marker.
pub proof fn lemma_step_is_no_end_marker(src: Seq<char>, p: int)
    requires
        0 <= p < src.len(),
    ensures
        step_at(src, p) matches Step::Emit(lexeme) ==> lexeme.kind != TokenType::Eof,
{
    lemma_reserved_kinds(src.subrange(p, word_end(src, p)));
}

/// A scan that succeeds leaves nothing out and adds nothing: its lexemes
/// lie in the source one after another, only white space lies outside
/// them, and the end marker comes last and only there.
pub proof fn lemma_scan_covers_source(src: Seq<char>, p: int)
    requires
        0 <= p <= src.len(),
        lexemes_from(src, p) is Ok,
    ensures
        covers(src, p, lexemes_from(src, p)->Ok_0),
    decreases src.len() - p,
{
    let lexemes = lexemes_from(src, p)->Ok_0;
    if p < src.len() {
        lemma_step_bounds(src, p);
        lemma_step_is_no_end_marker(src, p);
        match step_at(src, p) {
            Step::Skip => {
                lemma_scan_covers_source(src, p + 1);
            },
            Step::Emit(first) => {
                lemma_scan_covers_source(src, first.end);
                let rest = lexemes_from(src, first.end)->Ok_0;
                assert(lexemes == seq![first] + rest);
                assert(lexemes[0] == first);
                assert forall|i: int| 0 <= i < lexemes.len() - 1 implies #[trigger] in_place(
                    src,
                    lexemes,
                    i,
                ) by {
                    assert(lexemes[i + 1] == rest[i]);
                    if i > 0 {
                        assert(lexemes[i] == rest[i - 1]);
                        assert(in_place(src, rest, i - 1));
                    }
                }
            },
            Step::Fail(_) => {},
        }
    }
}

/// A scan that succeeds ends in the end marker, on the last line that the
/// source reaches, and holds no other end marker.
pub proof fn lemma_one_end_marker(src: Seq<char>)
    requires
        scan(src) is Ok,
    ensures
        scan(src)->Ok_0.len() >= 1,
        scan(src)->Ok_0.last() == (TokenView {
            lexeme: Seq::empty(),
            kind: TokenType::Eof,
            line: line_at(src, src.len() as int),
        }),
        forall|i: int|
            0 <= i < scan(src)->Ok_0.len() - 1 ==> (#[trigger] scan(src)->Ok_0[i]).kind
                != TokenType::Eof,
{
    let lexemes = lexemes_from(src, 0)->Ok_0;
    let tokens = scan(src)->Ok_0;
    lemma_scan_covers_source(src, 0);
    assert forall|i: int| 0 <= i < tokens.len() - 1 implies (#[trigger] tokens[i]).kind
        != TokenType::Eof by {
        assert(in_place(src, lexemes, i));
    }
}

/// Later lexemes start later.
proof fn lemma_starts_in_order(src: Seq<char>, p: int, lexemes: Seq<Lexeme>, i: int, j: int)
    requires
        covers(src, p, lexemes),
        0 <= i <= j < lexemes.len(),
    ensures
        lexemes[i].start <= lexemes[j].start,
    decreases j - i,
{
    if i < j {
        lemma_starts_in_order(src, p, lexemes, i + 1, j);
        assert(in_place(src, lexemes, i));
    }
}

/// The newlines before `q` are those before `p` and those from `p` up to
/// `q`.
pub proof fn lemma_newlines_add(src: Seq<char>, p: int, q: int)
    requires
        0 <= p <= q <= src.len(),
    ensures
        newlines(src, q) == newlines(src, p) + newlines(src.subrange(p, q), q - p),
    decreases q - p,
{
    if p < q {
        lemma_newlines_add(src, p, q - 1);
        lemma_newlines_of_prefix(src.subrange(p, q), src.subrange(p, q - 1), q - p - 1);
    }
}

/// The newlines before a position depend only on the text before it.
proof fn lemma_newlines_of_prefix(a: Seq<char>, b: Seq<char>, p: int)
    requires
        0 <= p <= a.len(),
        p <= b.len(),
        forall|i: int| 0 <= i < p ==> a[i] == b[i],
    ensures
        newlines(a, p) == newlines(b, p),
    decreases p,
{
    if p > 0 {
        lemma_newlines_of_prefix(a, b, p - 1);
    }
}

/// Every newline counts once: the first token stands on line 1 plus the
/// newlines before it, and of two tokens of a scan the later one stands as
/// many lines below the earlier one as there are newlines between the
/// places where they start.
pub proof fn lemma_lines_count_newlines(src: Seq<char>, i: int, j: int)
    requires
        lexemes_from(src, 0) is Ok,
        0 <= i <= j < lexemes_from(src, 0)->Ok_0.len(),
    ensures
        scan(src) is Ok,
        scan(src)->Ok_0.len() == lexemes_from(src, 0)->Ok_0.len(),
        ({
            let lexemes = lexemes_from(src, 0)->Ok_0;
            let tokens = scan(src)->Ok_0;
            &&& 0 <= lexemes[i].start <= lexemes[j].start <= src.len()
            &&& tokens[i].line == 1 + newlines(src.subrange(0, lexemes[i].start), lexemes[i].start)
            &&& tokens[j].line == tokens[i].line + newlines(
                src.subrange(lexemes[i].start, lexemes[j].start),
                lexemes[j].start - lexemes[i].start,
            )
        }),
{
    let lexemes = lexemes_from(src, 0)->Ok_0;
    lemma_scan_covers_source(src, 0);
    lemma_starts_in_order(src, 0, lexemes, 0, i);
    lemma_starts_in_order(src, 0, lexemes, i, j);
    lemma_starts_in_order(src, 0, lexemes, j, lexemes.len() - 1);
    lemma_newlines_add(src, 0, lexemes[i].start);
    lemma_newlines_add(src, lexemes[i].start, lexemes[j].start);
}

/// One character as it is written inside a string literal: a backslash
/// and its name if it has one, else the character itself.
pub open spec fn escaped_char(c: char) -> Seq<char> {
    if c == '\t' {
        seq!['\\', 't']
    } else if c == '\n' {
        seq!['\\', 'n']
    } else if c == '\r' {
        seq!['\\', 'r']
    } else if c == '\\' {
        seq!['\\', '\\']
    } else if c == '"' {
        seq!['\\', '"']
    } else {
        seq![c]
    }
}

/// A text as it is written inside a string literal.
pub open spec fn escaped(text: Seq<char>) -> Seq<char>
    decreases text.len(),
{
    if text.len() == 0 {
        Seq::empty()
    } else {
        escaped_char(text[0]) + escaped(text.drop_first())
    }
}

/// Escapes are decoded once, no more and no less: a text written with
/// escapes and closed by a quote is read back as that same text, whatever
/// stands before and after it.
pub proof fn lemma_unescape_inverts_escape(before: Seq<char>, text: Seq<char>, after: Seq<char>)
    ensures
        string_tail(before + escaped(text) + seq!['"'] + after, before.len() as int) == Ok::<
            (Seq<char>, int),
            Failure,
        >((text, (before.len() + escaped(text).len() + 1) as int)),
    decreases text.len(),
{
    let src = before + escaped(text) + seq!['"'] + after;
    let q = before.len() as int;
    if text.len() == 0 {
        assert(src[q] == '"');
        assert(text =~= Seq::<char>::empty());
    } else {
        let c = text[0];
        let rest = text.drop_first();
        let head = escaped_char(c);
        assert(escaped(text) == head + escaped(rest));
        assert((before + head) + escaped(rest) + seq!['"'] + after =~= src);
        lemma_unescape_inverts_escape(before + head, rest, after);
        assert(string_tail(src, q + head.len()) == Ok::<(Seq<char>, int), Failure>(
            (rest, q + head.len() + escaped(rest).len() + 1),
        ));
        assert(src[q] == head[0]);
        if head.len() == 2 {
            assert(src[q + 1] == head[1]);
            assert(string_escape(head[1]) == Some(c));
        } else {
            assert(head == seq![c]);
        }
        assert(seq![c] + rest =~= text);
        assert(string_tail(src, q) == preceded(c, string_tail(src, q + head.len())));
    }
}

/// The escapes of a text hold no raw newline.
proof fn lemma_escaped_has_no_newline(text: Seq<char>)
    ensures
        forall|i: int| 0 <= i < escaped(text).len() ==> #[trigger] escaped(text)[i] != '\n',
    decreases text.len(),
{
    if text.len() > 0 {
        let head = escaped_char(text[0]);
        let tail = escaped(text.drop_first());
        lemma_escaped_has_no_newline(text.drop_first());
        assert forall|i: int| 0 <= i < escaped(text).len() implies #[trigger] escaped(text)[i]
            != '\n' by {
            if i < head.len() {
                assert(escaped(text)[i] == head[i]);
            } else {
                assert(escaped(text)[i] == tail[i - head.len()]);
            }
        }
    }
}

/// Any text, written with escapes between two quotes, scans as one string
/// literal that holds that text.
pub proof fn lemma_quoted_text_scans_back(text: Seq<char>)
    ensures
        scan(seq!['"'] + escaped(text) + seq!['"']) == Ok::<Seq<TokenView>, Failure>(
            seq![
                TokenView { lexeme: text, kind: TokenType::StringLiteral, line: 1 },
                TokenView { lexeme: Seq::empty(), kind: TokenType::Eof, line: 1 },
            ],
        ),
{
    let src = seq!['"'] + escaped(text) + seq!['"'];
    let n = src.len() as int;
    lemma_unescape_inverts_escape(seq!['"'], text, Seq::empty());
    assert(seq!['"'] + escaped(text) + seq!['"'] + Seq::<char>::empty() =~= src);
    let literal = Lexeme { kind: TokenType::StringLiteral, text, start: 0, end: n };
    assert(step_at(src, 0) == Step::Emit(literal));
    let lexemes = seq![literal] + seq![end_marker(src)];
    assert(lexemes_from(src, n) == Ok::<Seq<Lexeme>, Failure>(seq![end_marker(src)]));
    assert(lexemes_from(src, 0) == Ok::<Seq<Lexeme>, Failure>(lexemes));
    lemma_escaped_has_no_newline(text);
    assert forall|i: int| 0 <= i < src.len() implies #[trigger] src[i] != '\n' by {
        if 1 <= i < n - 1 {
            assert(src[i] == escaped(text)[i - 1]);
        }
    }
    lemma_no_newlines(src, n);
    assert(tokens_of(src, lexemes) =~= seq![
        TokenView { lexeme: text, kind: TokenType::StringLiteral, line: 1 },
        TokenView { lexeme: Seq::empty(), kind: TokenType::Eof, line: 1 },
    ]);
}

/// Whether `text` holds, at index `i`, a backslash and then a character
/// that names a string escape.
pub open spec fn escape_pair_at(text: Seq<char>, i: int) -> bool {
    0 <= i < text.len() - 1 && text[i] == '\\' && string_escape(text[i + 1]) is Some
}

/// Whether `text` holds a backslash and then a character that names a
/// string escape.
pub open spec fn holds_escape_pair(text: Seq<char>) -> bool {
    exists|i: int| escape_pair_at(text, i)
}

/// Whether what stands at `q` inside a string literal is read as a
/// character that names a string escape: a plain `t`, `n` or `r`, or an
/// escaped backslash or quote.
pub open spec fn reads_as_escape_name(src: Seq<char>, q: int) -> bool {
    &&& 0 <= q < src.len()
    &&& if src[q] == '\\' {
        q + 1 < src.len() && (src[q + 1] == '\\' || src[q + 1] == '"')
    } else {
        src[q] != '"' && string_escape(src[q]) is Some
    }
}

/// Whether the string literal read from `q` holds an escaped backslash
/// right before something that is read as the name of an escape. Such a
/// literal, and no other, decodes to a text that looks escaped again.
pub open spec fn backslash_before_escape_name(src: Seq<char>, q: int) -> bool
    decreases src.len() - q,
{
    if q < 0 || q >= src.len() || src[q] == '"' {
        false
    } else if src[q] != '\\' {
        backslash_before_escape_name(src, q + 1)
    } else if q + 1 >= src.len() {
        false
    } else {
        ||| src[q + 1] == '\\' && reads_as_escape_name(src, q + 2)
        ||| backslash_before_escape_name(src, q + 2)
    }
}

/// The text of a string literal begins with the name of an escape exactly
/// if the literal begins with something that is read as one.
proof fn lemma_first_decoded(src: Seq<char>, q: int)
    requires
        0 <= q <= src.len(),
        string_tail(src, q) is Ok,
    ensures
        ({
            let text = string_tail(src, q)->Ok_0.0;
            (text.len() > 0 && string_escape(text[0]) is Some) <==> reads_as_escape_name(src, q)
        }),
{
    if q < src.len() && src[q] != '"' {
        if src[q] != '\\' {
            assert(string_tail(src, q + 1) is Ok);
        } else {
            assert(string_tail(src, q + 2) is Ok);
        }
    }
}

/// The text of a string literal holds a backslash followed by the name of
/// an escape exactly if the literal holds an escaped backslash right
/// before something that is read as such a name.
pub proof fn lemma_escape_pairs_in_text(src: Seq<char>, q: int)
    requires
        0 <= q <= src.len(),
        string_tail(src, q) is Ok,
    ensures
        holds_escape_pair(string_tail(src, q)->Ok_0.0) <==> backslash_before_escape_name(src, q),
    decreases src.len() - q,
{
    let text = string_tail(src, q)->Ok_0.0;
    if q < src.len() && src[q] != '"' {
        let next = if src[q] != '\\' {
            q + 1
        } else {
            q + 2
        };
        assert(string_tail(src, next) is Ok);
        let rest = string_tail(src, next)->Ok_0.0;
        assert(text == seq![text[0]] + rest);
        lemma_escape_pairs_in_text(src, next);
        lemma_first_decoded(src, next);
        let first_pair = text[0] == '\\' && rest.len() > 0 && string_escape(rest[0]) is Some;
        assert(first_pair <==> escape_pair_at(text, 0)) by {
            if rest.len() > 0 {
                assert(text[1] == rest[0]);
            }
        }
        if holds_escape_pair(text) {
            let i = choose|i: int| escape_pair_at(text, i);
            if i > 0 {
                assert(text[i] == rest[i - 1]);
                assert(text[i + 1] == rest[i]);
                assert(escape_pair_at(rest, i - 1));
            }
        }
        if holds_escape_pair(rest) {
            let i = choose|i: int| escape_pair_at(rest, i);
            assert(text[i + 1] == rest[i]);
            assert(text[i + 2] == rest[i + 1]);
            assert(escape_pair_at(text, i + 1));
        }
    } else {
        assert(text.len() == 0);
    }
}

/// Escapes leave no trace: the text of a string literal holds no backslash
/// followed by the name of an escape. Left out are the literals that hold an
/// escaped backslash right before something that is read as such a name;
/// their text holds that backslash and that name, as it should.
pub proof fn lemma_no_escape_pair_survives(src: Seq<char>, q: int)
    requires
        0 <= q <= src.len(),
        string_tail(src, q) is Ok,
        !backslash_before_escape_name(src, q),
    ensures
        !holds_escape_pair(string_tail(src, q)->Ok_0.0),
{
    lemma_escape_pairs_in_text(src, q);
}

/// A character literal holds one character: the character between the
/// quotes, or what the backslash and the character between the quotes
/// stand for. It ends three characters after its opening quote in the
/// first case and four in the second.
pub proof fn lemma_char_literal_is_one_character(src: Seq<char>, p: int)
    requires
        0 <= p < src.len(),
    ensures
        char_at(src, p) matches Step::Emit(lexeme) ==> {
            &&& lexeme.kind == TokenType::CharLiteral
            &&& lexeme.start == p
            &&& lexeme.text.len() == 1
            &&& lexeme.end <= src.len()
            &&& src[lexeme.end - 1] == '\''
            &&& if src[p + 1] == '\\' {
                lexeme.end == p + 4 && char_escape(src[p + 2]) == Some(lexeme.text[0])
            } else {
                lexeme.end == p + 3 && lexeme.text[0] == src[p + 1] && src[p + 1] != '\''
            }
        },
{
}

/// The number of escapes in the string literal read from `q`: the
/// backslashes that begin one, up to the closing quote.
pub open spec fn escapes_in(src: Seq<char>, q: int) -> nat
    decreases src.len() - q,
{
    if q < 0 || q >= src.len() || src[q] == '"' {
        0
    } else if src[q] != '\\' {
        escapes_in(src, q + 1)
    } else if q + 1 >= src.len() {
        0
    } else {
        1 + escapes_in(src, q + 2)
    }
}

/// The text of a string literal is shorter than what stands between the
/// quotes by one character for each escape, and the literal ends right
/// after its closing quote.
pub proof fn lemma_decoded_length(src: Seq<char>, q: int)
    requires
        0 <= q <= src.len(),
        string_tail(src, q) is Ok,
    ensures
        ({
            let (text, end) = string_tail(src, q)->Ok_0;
            &&& q < end <= src.len()
            &&& src[end - 1] == '"'
            &&& text.len() + escapes_in(src, q) == end - 1 - q
        }),
    decreases src.len() - q,
{
    if q < src.len() && src[q] != '"' {
        if src[q] != '\\' {
            lemma_decoded_length(src, q + 1);
        } else {
            lemma_decoded_length(src, q + 2);
        }
    }
}

/// Whether `failure` lies where its kind says: at the end of the source
/// if the input ran out inside a literal, at a quote that opens a
/// character literal as the last character of the source, and else at the
/// character that is to blame.
pub open spec fn well_placed(src: Seq<char>, failure: Failure) -> bool {
    match failure.kind {
        LexErrorKind::UnterminatedString => failure.at == src.len(),
        LexErrorKind::UnterminatedChar => {
            ||| failure.at == src.len()
            ||| failure.at == src.len() - 1 && src[failure.at] == '\''
        },
        LexErrorKind::EmptyCharLiteral => {
            &&& 1 <= failure.at < src.len()
            &&& src[failure.at - 1] == '\''
            &&& src[failure.at] == '\''
        },
        LexErrorKind::MultiCharCharLiteral => 0 <= failure.at < src.len() && src[failure.at]
            != '\'',
        LexErrorKind::UnknownEscapeSequence => {
            &&& 1 <= failure.at < src.len()
            &&& src[failure.at - 1] == '\\'
            &&& string_escape(src[failure.at]) is None
        },
        LexErrorKind::UnexpectedCharacter(c) => {
            &&& 0 <= failure.at < src.len()
            &&& src[failure.at] == c
            &&& !blank(c) && c != '\n'
            &&& single_operator(c) is None
            &&& !word_start(c) && !digit(c)
            &&& c != '"' && c != '\''
        },
    }
}

/// A string literal fails where its kind of failure says.
proof fn lemma_string_failure(src: Seq<char>, q: int)
    requires
        0 <= q <= src.len(),
        string_tail(src, q) is Err,
    ensures
        well_placed(src, string_tail(src, q)->Err_0),
        q <= string_tail(src, q)->Err_0.at,
    decreases src.len() - q,
{
    if q < src.len() && src[q] != '"' {
        if src[q] != '\\' {
            lemma_string_failure(src, q + 1);
        } else if q + 1 < src.len() && string_escape(src[q + 1]) is Some {
            lemma_string_failure(src, q + 2);
        }
    }
}

/// A scan that fails, fails at or after the place where it began, and
/// where its kind of failure says: at the end of the source if the input
/// ran out inside a literal, at the quote if a character literal opens
/// with the last character of the source, and else at the character that
/// is to blame.
pub proof fn lemma_failure_is_well_placed(src: Seq<char>, p: int)
    requires
        0 <= p <= src.len(),
        tokens_from(src, p) is Err,
    ensures
        p <= tokens_from(src, p)->Err_0.at <= src.len(),
        well_placed(src, tokens_from(src, p)->Err_0),
    decreases src.len() - p,
{
    if p < src.len() {
        lemma_step_bounds(src, p);
        match step_at(src, p) {
            Step::Skip => {
                lemma_failure_is_well_placed(src, p + 1);
            },
            Step::Emit(lexeme) => {
                lemma_failure_is_well_placed(src, lexeme.end);
            },
            Step::Fail(failure) => {
                if src[p] == '"' {
                    lemma_string_failure(src, p + 1);
                }
            },
        }
    }
}

} // verus!
