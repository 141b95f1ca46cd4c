//! The lexical grammar, as functions on a sequence of characters.
//!
//! [`lexeme_at`] says what begins at a position of the text and where it
//! ends; [`tokens_from`] and [`errors_from`] walk the text lexeme by lexeme;
//! [`scan`] is what the scanner returns for a whole text.

use crate::interpreter_error::ErrorView;
use crate::scanner::number::DecimalView;
use crate::scanner::token::{LiteralView, TokenType, TokenView};
use vstd::prelude::*;

verus! {

/// Whether `char::is_alphanumeric` holds of `c`.
pub uninterp spec fn alphanumeric(c: char) -> bool;

/// One of the digits `0` to `9`.
pub open spec fn is_digit(c: char) -> bool {
    '0' <= c && c <= '9'
}

/// A character that may begin an identifier: a letter of the Latin alphabet
/// without accents, or an underscore.
pub open spec fn is_identifier_start(c: char) -> bool {
    ('a' <= c && c <= 'z') || ('A' <= c && c <= 'Z') || c == '_'
}

/// The kinds of character of which a lexeme takes as many as follow each
/// other.
pub enum CharClass {
    /// The digits of a number.
    Digit,
    /// The characters of an identifier after its first: letters and digits,
    /// and never a line break.
    Alphanumeric,
    /// What a comment holds: anything but a line break.
    CommentBody,
    /// What a string literal holds: anything but a double quote.
    StringBody,
}

impl CharClass {
    pub open spec fn holds(self, c: char) -> bool {
        match self {
            CharClass::Digit => is_digit(c),
            CharClass::Alphanumeric => c != '\n' && alphanumeric(c),
            CharClass::CommentBody => c != '\n',
            CharClass::StringBody => c != '"',
        }
    }
}

/// The length of the longest run of characters of `class` that begins at
/// position `i` of `s`.
pub open spec fn run_len(s: Seq<char>, i: int, class: CharClass) -> nat
    decreases s.len() - i,
{
    if 0 <= i < s.len() && class.holds(s[i]) {
        1 + run_len(s, i + 1, class)
    } else {
        0
    }
}

/// Every character of a run is of its class, and the run ends at the first
/// character that is not, or at the end of the text.
pub proof fn lemma_run(s: Seq<char>, i: int, class: CharClass)
    requires
        0 <= i <= s.len(),
    ensures
        i + run_len(s, i, class) <= s.len(),
        forall|k: int| i <= k < i + run_len(s, i, class) ==> class.holds(#[trigger] s[k]),
        i + run_len(s, i, class) < s.len() ==> !class.holds(s[i + run_len(s, i, class)]),
    decreases s.len() - i,
{
    if i < s.len() && class.holds(s[i]) {
        lemma_run(s, i + 1, class);
    }
}

/// A run is as long as the stretch of characters of its class, up to the
/// first character that is not of the class or to the end of the text.
pub proof fn lemma_run_len_is(s: Seq<char>, i: int, j: int, class: CharClass)
    requires
        0 <= i <= j <= s.len(),
        forall|k: int| i <= k < j ==> class.holds(#[trigger] s[k]),
        j == s.len() || !class.holds(s[j]),
    ensures
        run_len(s, i, class) == j - i,
    decreases j - i,
{
    if i < j {
        lemma_run_len_is(s, i + 1, j, class);
    }
}

/// The number of line breaks among the first `n` characters of `s`.
pub open spec fn newlines_before(s: Seq<char>, n: int) -> nat
    decreases n,
{
    if n <= 0 {
        0
    } else if s[n - 1] == '\n' {
        newlines_before(s, n - 1) + 1
    } else {
        newlines_before(s, n - 1)
    }
}

/// There are no more line breaks than characters.
pub proof fn lemma_newlines_bound(s: Seq<char>, n: int)
    ensures
        newlines_before(s, n) <= if n <= 0 { 0 } else { n },
    decreases n,
{
    if n > 0 {
        lemma_newlines_bound(s, n - 1);
    }
}

/// The line, counted from 1, on which position `i` of `s` lies.
pub open spec fn line_at(s: Seq<char>, i: int) -> nat {
    1 + newlines_before(s, i)
}

/// The token that a punctuation character makes by itself.
pub open spec fn punctuation(c: char) -> Option<TokenType> {
    if c == '(' {
        Some(TokenType::LeftParen)
    } else if c == ')' {
        Some(TokenType::RightParen)
    } else if c == '{' {
        Some(TokenType::LeftBrace)
    } else if c == '}' {
        Some(TokenType::RightBrace)
    } else if c == ',' {
        Some(TokenType::Comma)
    } else if c == '.' {
        Some(TokenType::Dot)
    } else if c == '-' {
        Some(TokenType::Minus)
    } else if c == '+' {
        Some(TokenType::Plus)
    } else if c == ';' {
        Some(TokenType::Semicolon)
    } else if c == '*' {
        Some(TokenType::Star)
    } else {
        None
    }
}

/// The reserved word that `text` spells, if it spells one.
pub open spec fn keyword(text: Seq<char>) -> Option<TokenType> {
    if text == "and"@ {
        Some(TokenType::And)
    } else if text == "class"@ {
        Some(TokenType::Class)
    } else if text == "else"@ {
        Some(TokenType::Else)
    } else if text == "false"@ {
        Some(TokenType::False)
    } else if text == "for"@ {
        Some(TokenType::For)
    } else if text == "fun"@ {
        Some(TokenType::Fun)
    } else if text == "if"@ {
        Some(TokenType::If)
    } else if text == "nil"@ {
        Some(TokenType::Nil)
    } else if text == "or"@ {
        Some(TokenType::Or)
    } else if text == "print"@ {
        Some(TokenType::Print)
    } else if text == "return"@ {
        Some(TokenType::Return)
    } else if text == "super"@ {
        Some(TokenType::Super)
    } else if text == "this"@ {
        Some(TokenType::This)
    } else if text == "true"@ {
        Some(TokenType::True)
    } else if text == "var"@ {
        Some(TokenType::Var)
    } else if text == "while"@ {
        Some(TokenType::While)
    } else {
        None
    }
}

/// The kind of a word: that of the reserved word it spells, else an
/// identifier.
pub open spec fn word_kind(text: Seq<char>) -> TokenType {
    match keyword(text) {
        Some(kind) => kind,
        None => TokenType::Identifier,
    }
}

/// What a lexeme comes to.
pub enum LexemeKind {
    /// A token of the given kind.
    Token(TokenType),
    /// Blank space or a comment, of which nothing is kept.
    Blank,
    /// A character that begins no lexeme of the language.
    Unexpected,
    /// A string literal that the end of the text cuts short.
    Unterminated,
}

/// A lexeme: what it comes to, and the position behind its last character.
pub struct Lexeme {
    pub kind: LexemeKind,
    pub end: int,
}

/// Whether the character behind position `i` of `s` is `c`.
pub open spec fn followed_by(s: Seq<char>, i: int, c: char) -> bool {
    i + 1 < s.len() && s[i + 1] == c
}

/// The operator that begins at position `i`: `long` if an equals sign
/// follows, which then belongs to it, else `short`.
pub open spec fn operator_at(s: Seq<char>, i: int, short: TokenType, long: TokenType) -> Lexeme {
    if followed_by(s, i, '=') {
        Lexeme { kind: LexemeKind::Token(long), end: i + 2 }
    } else {
        Lexeme { kind: LexemeKind::Token(short), end: i + 1 }
    }
}

/// The position behind the number that begins at position `i`: behind its
/// digits, and behind a decimal point with the digits after it where at
/// least one digit follows the point.
pub open spec fn number_end(s: Seq<char>, i: int) -> int {
    let point = i + 1 + run_len(s, i + 1, CharClass::Digit);
    if point + 1 < s.len() && s[point] == '.' && is_digit(s[point + 1]) {
        point + 2 + run_len(s, point + 2, CharClass::Digit)
    } else {
        point
    }
}

/// The lexeme that begins at position `i` of `s`, for `0 <= i < s.len()`.
/// Of several lexemes that could begin there it is the longest.
pub open spec fn lexeme_at(s: Seq<char>, i: int) -> Lexeme {
    let c = s[i];
    if punctuation(c) is Some {
        Lexeme { kind: LexemeKind::Token(punctuation(c)->0), end: i + 1 }
    } else if c == '!' {
        operator_at(s, i, TokenType::Bang, TokenType::BangEqual)
    } else if c == '=' {
        operator_at(s, i, TokenType::Equal, TokenType::EqualEqual)
    } else if c == '<' {
        operator_at(s, i, TokenType::Less, TokenType::LessEqual)
    } else if c == '>' {
        operator_at(s, i, TokenType::Greater, TokenType::GreaterEqual)
    } else if c == '/' {
        if followed_by(s, i, '/') {
            // A comment runs up to the end of its line.
            Lexeme { kind: LexemeKind::Blank, end: i + 2 + run_len(s, i + 2, CharClass::CommentBody) }
        } else {
            Lexeme { kind: LexemeKind::Token(TokenType::Slash), end: i + 1 }
        }
    } else if c == ' ' || c == '\r' || c == '\t' || c == '\n' {
        Lexeme { kind: LexemeKind::Blank, end: i + 1 }
    } else if c == '"' {
        let close = i + 1 + run_len(s, i + 1, CharClass::StringBody);
        if close < s.len() {
            Lexeme { kind: LexemeKind::Token(TokenType::String), end: close + 1 }
        } else {
            Lexeme { kind: LexemeKind::Unterminated, end: close }
        }
    } else if is_digit(c) {
        Lexeme { kind: LexemeKind::Token(TokenType::Number), end: number_end(s, i) }
    } else if is_identifier_start(c) {
        let end = i + 1 + run_len(s, i + 1, CharClass::Alphanumeric);
        Lexeme { kind: LexemeKind::Token(word_kind(s.subrange(i, end))), end }
    } else {
        Lexeme { kind: LexemeKind::Unexpected, end: i + 1 }
    }
}

/// The number that a digit stands for.
pub open spec fn digit_value(c: char) -> u8 {
    (c as u8 - '0' as u8) as u8
}

/// The digits among the characters of `text`, in their order, each as the
/// number it stands for.
pub open spec fn digits_of(text: Seq<char>) -> Seq<u8>
    decreases text.len(),
{
    if text.len() == 0 {
        Seq::empty()
    } else if is_digit(text.last()) {
        digits_of(text.drop_last()).push(digit_value(text.last()))
    } else {
        digits_of(text.drop_last())
    }
}

/// Whether `text` is a number literal: one digit or more, and after them
/// either nothing or a decimal point and again one digit or more.
pub open spec fn is_number(text: Seq<char>) -> bool {
    let point = run_len(text, 0, CharClass::Digit) as int;
    &&& point >= 1
    &&& point == text.len() || (text[point] == '.' && point + 1 < text.len() && point + 1
        + run_len(text, point + 1, CharClass::Digit) == text.len())
}

/// The value of a number literal: all its digits, and how many of them come
/// behind the decimal point.
pub open spec fn number_value(text: Seq<char>) -> DecimalView {
    let point = run_len(text, 0, CharClass::Digit);
    DecimalView {
        digits: digits_of(text),
        scale: if point < text.len() {
            (text.len() - point - 1) as nat
        } else {
            0
        },
    }
}

/// What a token of the given kind and text carries: a string literal its
/// text between the quotes, a number literal its value, any other nothing.
pub open spec fn literal_of(kind: TokenType, text: Seq<char>) -> LiteralView {
    match kind {
        TokenType::String => LiteralView::String(text.subrange(1, text.len() - 1)),
        TokenType::Number => LiteralView::Number(number_value(text)),
        _ => LiteralView::Nothing,
    }
}

/// The token of the given kind, text and line.
pub open spec fn token(kind: TokenType, text: Seq<char>, line: nat) -> TokenView {
    TokenView { token_type: kind, lexeme: text, literal: literal_of(kind, text), line }
}

/// The token that closes every token sequence.
pub open spec fn end_of_input(line: nat) -> TokenView {
    token(TokenType::Eof, Seq::empty(), line)
}

/// The message for a character that begins no lexeme.
pub open spec fn unexpected_character(c: char) -> Seq<char> {
    "Unexpected character: "@.push(c)
}

/// The message for a string literal without its closing quote.
pub open spec fn unterminated_string() -> Seq<char> {
    "Unterminated string."@
}

/// The error with the given message on the given line.
pub open spec fn error(line: nat, message: Seq<char>) -> ErrorView {
    ErrorView { line, location: Seq::empty(), message }
}

/// A lexeme holds at least one character, and ends within the text.
pub proof fn lemma_lexeme_bounds(s: Seq<char>, i: int)
    requires
        0 <= i < s.len(),
    ensures
        i < lexeme_at(s, i).end <= s.len(),
{
    lemma_run(s, i + 1, CharClass::Digit);
    lemma_run(s, i + 1, CharClass::Alphanumeric);
    lemma_run(s, i + 1, CharClass::StringBody);
    if followed_by(s, i, '/') {
        lemma_run(s, i + 2, CharClass::CommentBody);
    }
    let point = i + 1 + run_len(s, i + 1, CharClass::Digit);
    if point + 1 < s.len() {
        lemma_run(s, point + 2, CharClass::Digit);
    }
}

#[via_fn]
proof fn tokens_from_terminates(s: Seq<char>, i: int) {
    if 0 <= i < s.len() {
        lemma_lexeme_bounds(s, i);
    }
}

#[via_fn]
proof fn errors_from_terminates(s: Seq<char>, i: int) {
    if 0 <= i < s.len() {
        lemma_lexeme_bounds(s, i);
    }
}

/// The tokens of the lexemes of `s` from position `i` on, in their order,
/// with the end-of-input token behind them. Each token has the line on
/// which its first character lies.
pub open spec fn tokens_from(s: Seq<char>, i: int) -> Seq<TokenView>
    decreases s.len() - i,
    via tokens_from_terminates
{
    if 0 <= i < s.len() {
        let lexeme = lexeme_at(s, i);
        match lexeme.kind {
            LexemeKind::Token(kind) => seq![token(kind, s.subrange(i, lexeme.end), line_at(s, i))]
                + tokens_from(s, lexeme.end),
            _ => tokens_from(s, lexeme.end),
        }
    } else {
        seq![end_of_input(line_at(s, s.len() as int))]
    }
}

/// The errors in the lexemes of `s` from position `i` on, in their order.
/// An unexpected character is reported on its own line, a string literal
/// without end on the last line of the text, where it was found out.
pub open spec fn errors_from(s: Seq<char>, i: int) -> Seq<ErrorView>
    decreases s.len() - i,
    via errors_from_terminates
{
    if 0 <= i < s.len() {
        let lexeme = lexeme_at(s, i);
        match lexeme.kind {
            LexemeKind::Unexpected => seq![error(line_at(s, i), unexpected_character(s[i]))]
                + errors_from(s, lexeme.end),
            LexemeKind::Unterminated => seq![error(line_at(s, lexeme.end), unterminated_string())]
                + errors_from(s, lexeme.end),
            _ => errors_from(s, lexeme.end),
        }
    } else {
        Seq::empty()
    }
}

/// What scanning the text `s` gives: its tokens if there is no error in it,
/// else all its errors.
pub open spec fn scan(s: Seq<char>) -> Result<Seq<TokenView>, Seq<ErrorView>> {
    if errors_from(s, 0).len() == 0 {
        Ok(tokens_from(s, 0))
    } else {
        Err(errors_from(s, 0))
    }
}

} // verus!
