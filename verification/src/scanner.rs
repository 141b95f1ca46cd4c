pub mod grammar;
pub mod number;
pub mod theorems;
pub mod token;

use crate::interpreter_error::{error_views, ErrorView, InterpreterError};
use crate::scanner::grammar::{
    alphanumeric, errors_from, is_digit, is_identifier_start, lemma_newlines_bound,
    lemma_run_len_is, lexeme_at, line_at, literal_of, scan, tokens_from, unexpected_character,
    CharClass, Lexeme, LexemeKind,
};
use crate::scanner::number::{is_ascii_digit, Decimal};
use crate::scanner::token::{token_views, Literal, Token, TokenType, TokenView};
use vstd::prelude::*;

verus! {

/// `char::is_alphanumeric` of the standard library decides which characters
/// continue an identifier. Nothing is claimed of its answer but that it
/// depends on the character alone.
pub assume_specification[ char::is_alphanumeric ](c: char) -> (r: bool)
    ensures
        r == alphanumeric(c),
;

/// The characters of `text`, one by one.
pub(crate) fn decode(text: &str) -> (chars: Vec<char>)
    ensures
        chars@ == text@,
{
    let mut chars: Vec<char> = Vec::new();
    for c in it: text.chars()
        invariant
            chars@ == it.seq().take(it.index()),
    {
        chars.push(c);
    }
    chars
}

/// Whether `chars` spell `word`.
fn spells(chars: &Vec<char>, word: &str) -> (r: bool)
    ensures
        r == (chars@ == word@),
{
    let n = word.unicode_len();
    if chars.len() != n {
        return false;
    }
    let mut i: usize = 0;
    while i < n
        invariant
            i <= n,
            n == chars.len(),
            n == word@.len(),
            forall|k: int| 0 <= k < i ==> chars@[k] == word@[k],
        decreases n - i,
    {
        if chars[i] != word.get_char(i) {
            return false;
        }
        i += 1;
    }
    assert(chars@ =~= word@);
    true
}

/// The reserved word that `text` spells, if it spells one. Upper and lower
/// case differ.
pub fn keyword(text: &str) -> (kind: Option<TokenType>)
    ensures
        kind == grammar::keyword(text@),
{
    let chars = decode(text);
    if spells(&chars, "and") {
        Some(TokenType::And)
    } else if spells(&chars, "class") {
        Some(TokenType::Class)
    } else if spells(&chars, "else") {
        Some(TokenType::Else)
    } else if spells(&chars, "false") {
        Some(TokenType::False)
    } else if spells(&chars, "for") {
        Some(TokenType::For)
    } else if spells(&chars, "fun") {
        Some(TokenType::Fun)
    } else if spells(&chars, "if") {
        Some(TokenType::If)
    } else if spells(&chars, "nil") {
        Some(TokenType::Nil)
    } else if spells(&chars, "or") {
        Some(TokenType::Or)
    } else if spells(&chars, "print") {
        Some(TokenType::Print)
    } else if spells(&chars, "return") {
        Some(TokenType::Return)
    } else if spells(&chars, "super") {
        Some(TokenType::Super)
    } else if spells(&chars, "this") {
        Some(TokenType::This)
    } else if spells(&chars, "true") {
        Some(TokenType::True)
    } else if spells(&chars, "var") {
        Some(TokenType::Var)
    } else if spells(&chars, "while") {
        Some(TokenType::While)
    } else {
        None
    }
}

/// What a scan returned, as a mathematical value.
pub open spec fn result_view(result: Result<Vec<Token>, Vec<InterpreterError>>) -> Result<
    Seq<TokenView>,
    Seq<ErrorView>,
> {
    match result {
        Ok(tokens) => Ok(token_views(tokens@)),
        Err(errors) => Err(error_views(errors@)),
    }
}

/// Walks a source text once and collects its tokens and its errors.
pub struct Scanner {
    source: String,
    /// The characters of `source`, for access by position.
    chars: Vec<char>,
    tokens: Vec<Token>,
    errors: Vec<InterpreterError>,
    /// Where the lexeme at hand begins.
    start: usize,
    /// The first character not yet consumed.
    current: usize,
    /// The line counter: between two lexemes, the line of `current`.
    line: usize,
    /// The line of `start`.
    start_line: usize,
}

impl Default for Scanner {
    /// A scanner of the empty text.
    fn default() -> (scanner: Scanner)
        ensures
            scanner.wf(),
            scanner.at_start(),
            scanner.source() == Seq::<char>::empty(),
    {
        Scanner::new(String::new())
    }
}

impl Scanner {
    /// The text that the scanner was made for.
    pub closed spec fn source(&self) -> Seq<char> {
        self.chars@
    }

    /// Nothing has been scanned yet: the cursor stands at the beginning of
    /// the text, on line 1, and no token and no error has been collected.
    pub closed spec fn at_start(&self) -> bool {
        &&& self.start == 0
        &&& self.current == 0
        &&& self.line == 1
        &&& self.start_line == 1
        &&& self.tokens@.len() == 0
        &&& self.errors@.len() == 0
    }

    /// The cursor lies within the text, behind the beginning of the lexeme
    /// at hand, whose line is known.
    spec fn cursor_ok(&self) -> bool {
        &&& self.chars@ == self.source@
        &&& self.chars.len() < usize::MAX
        &&& self.start <= self.current <= self.chars.len()
        &&& self.start_line == line_at(self.chars@, self.start as int)
    }

    /// The line counter is the line of the cursor.
    spec fn line_ok(&self) -> bool {
        self.line == line_at(self.chars@, self.current as int)
    }

    /// The tokens and errors collected are those of the lexemes before
    /// position `i`.
    spec fn collected_before(&self, i: int) -> bool {
        &&& tokens_from(self.chars@, 0) == token_views(self.tokens@) + tokens_from(self.chars@, i)
        &&& errors_from(self.chars@, 0) == error_views(self.errors@) + errors_from(self.chars@, i)
    }

    /// The scanner stands between two lexemes, and holds the tokens and
    /// errors of all lexemes before.
    pub closed spec fn wf(&self) -> bool {
        &&& self.cursor_ok()
        &&& self.line_ok()
        &&& self.collected_before(self.current as int)
    }

    /// The lexeme at hand begins with the character at `start`, which alone
    /// has been consumed, and nothing of the lexeme has been collected yet.
    spec fn lexeme_begun(&self) -> bool {
        &&& self.cursor_ok()
        &&& self.line_ok()
        &&& self.current == self.start + 1
        &&& self.collected_before(self.start as int)
    }

    /// The lexeme at hand has been consumed to its end, and what comes of it
    /// has been collected.
    spec fn lexeme_done(&self) -> bool {
        &&& self.cursor_ok()
        &&& self.line_ok()
        &&& self.start < self.chars.len()
        &&& self.current == lexeme_at(self.chars@, self.start as int).end
        &&& self.collected_before(self.current as int)
    }

    /// The same text, with the same lexeme at hand, as in `other`.
    spec fn same_lexeme(&self, other: Scanner) -> bool {
        &&& self.source == other.source
        &&& self.chars == other.chars
        &&& self.start == other.start
        &&& self.start_line == other.start_line
    }

    /// The text of the lexeme at hand, as far as it has been consumed.
    spec fn text(&self) -> Seq<char> {
        self.chars@.subrange(self.start as int, self.current as int)
    }

    /// The character at position `i`, and NUL behind the end of the text.
    spec fn char_at(&self, i: int) -> char {
        if 0 <= i < self.chars.len() {
            self.chars@[i]
        } else {
            '\0'
        }
    }

    /// A scanner at the beginning of `source`.
    pub fn new(source: String) -> (scanner: Scanner)
        requires
            source@.len() < usize::MAX,
        ensures
            scanner.wf(),
            scanner.at_start(),
            scanner.source() == source@,
    {
        let chars = decode(source.as_str());
        Self {
            source,
            chars,
            tokens: Vec::new(),
            errors: Vec::new(),
            start: 0,
            current: 0,
            line: 1,
            start_line: 1,
        }
    }

    /// Scans the whole text. Returns its tokens, the last of which marks the
    /// end of input, if the text holds no lexical error; else every error in
    /// it, in the order of the text.
    pub fn scan_tokens(self) -> (result: Result<Vec<Token>, Vec<InterpreterError>>)
        requires
            self.wf(),
        ensures
            result_view(result) == scan(self.source()),
    {
        let mut scanner = self;
        while !scanner.is_at_end()
            invariant
                scanner.wf(),
                scanner.chars@ == self.chars@,
            decreases scanner.chars.len() - scanner.current,
        {
            scanner.start = scanner.current;
            scanner.start_line = scanner.line;
            scanner.scan_token();
        }

        let end = Token {
            token_type: TokenType::Eof,
            lexeme: String::new(),
            literal: Literal::Nothing,
            line: scanner.line,
        };
        proof {
            let views = token_views(scanner.tokens@);
            assert(token_views(scanner.tokens@.push(end)) =~= views.push(end@));
            assert(views.push(end@) =~= views + seq![end@]);
            let errors = error_views(scanner.errors@);
            assert(errors + Seq::<ErrorView>::empty() =~= errors);
        }
        scanner.tokens.push(end);

        if scanner.errors.is_empty() {
            Ok(scanner.tokens)
        } else {
            Err(scanner.errors)
        }
    }

    /// Scans the lexeme that begins at the cursor.
    fn scan_token(&mut self)
        requires
            old(self).cursor_ok(),
            old(self).line_ok(),
            old(self).start == old(self).current,
            old(self).current < old(self).chars.len(),
            old(self).collected_before(old(self).start as int),
        ensures
            final(self).lexeme_done(),
            final(self).same_lexeme(*old(self)),
    {
        let c = self.advance();

        match c {
            '(' => self.add_token(TokenType::LeftParen, Literal::Nothing),
            ')' => self.add_token(TokenType::RightParen, Literal::Nothing),
            '{' => self.add_token(TokenType::LeftBrace, Literal::Nothing),
            '}' => self.add_token(TokenType::RightBrace, Literal::Nothing),
            ',' => self.add_token(TokenType::Comma, Literal::Nothing),
            '.' => self.add_token(TokenType::Dot, Literal::Nothing),
            '-' => self.add_token(TokenType::Minus, Literal::Nothing),
            '+' => self.add_token(TokenType::Plus, Literal::Nothing),
            ';' => self.add_token(TokenType::Semicolon, Literal::Nothing),
            '*' => self.add_token(TokenType::Star, Literal::Nothing),
            '!' => {
                let token_type = if self.match_next('=') {
                    TokenType::BangEqual
                } else {
                    TokenType::Bang
                };
                self.add_token(token_type, Literal::Nothing);
            },
            '=' => {
                let token_type = if self.match_next('=') {
                    TokenType::EqualEqual
                } else {
                    TokenType::Equal
                };
                self.add_token(token_type, Literal::Nothing);
            },
            '<' => {
                let token_type = if self.match_next('=') {
                    TokenType::LessEqual
                } else {
                    TokenType::Less
                };
                self.add_token(token_type, Literal::Nothing);
            },
            '>' => {
                let token_type = if self.match_next('=') {
                    TokenType::GreaterEqual
                } else {
                    TokenType::Greater
                };
                self.add_token(token_type, Literal::Nothing);
            },
            '/' => {
                if self.match_next('/') {
                    assert(line_at(self.chars@, self.start + 1) == self.line);
                    // A comment goes until the end of the line.
                    while self.peek() != '\n' && !self.is_at_end()
                        invariant
                            self.cursor_ok(),
                            self.line_ok(),
                            self.same_lexeme(*old(self)),
                            self.tokens == old(self).tokens,
                            self.errors == old(self).errors,
                            self.start + 2 <= self.current,
                            forall|k: int|
                                self.start + 2 <= k < self.current ==> self.chars@[k] != '\n',
                        decreases self.chars.len() - self.current,
                    {
                        self.advance();
                    }
                    proof {
                        lemma_run_len_is(
                            self.chars@,
                            self.start + 2,
                            self.current as int,
                            CharClass::CommentBody,
                        );
                    }
                } else {
                    self.add_token(TokenType::Slash, Literal::Nothing);
                }
            },
            // Ignore whitespace.
            ' ' | '\r' | '\t' => {},
            '\n' => {
                proof {
                    lemma_newlines_bound(self.chars@, self.start as int);
                }
                self.line += 1;
            },
            '"' => {
                self.string();
            },
            '0'..='9' => {
                self.number();
            },
            'a'..='z' | 'A'..='Z' | '_' => {
                self.identifier();
            },
            _ => {
                let message = String::from_str("Unexpected character: ").concat(
                    self.source.as_str().substring_char(self.start, self.current),
                );
                let error = InterpreterError {
                    line: self.line,
                    location: String::new(),
                    message,
                };
                proof {
                    assert(message@ =~= unexpected_character(c));
                    let views = error_views(self.errors@);
                    assert(error_views(self.errors@.push(error)) =~= views.push(error@));
                    let rest = errors_from(self.chars@, self.current as int);
                    assert(views.push(error@) + rest =~= views + (seq![error@] + rest));
                }
                self.errors.push(error);
            },
        }
    }

    /// Adds the token of the given kind and payload for the lexeme at hand.
    fn add_token(&mut self, token_type: TokenType, literal: Literal)
        requires
            old(self).cursor_ok(),
        ensures
            *final(self) == (Scanner { tokens: final(self).tokens, ..*old(self) }),
            token_views(final(self).tokens@) == token_views(old(self).tokens@).push(
                (TokenView {
                    token_type,
                    lexeme: old(self).text(),
                    literal: literal@,
                    line: old(self).start_line as nat,
                }),
            ),
            old(self).collected_before(old(self).start as int) && old(self).start < old(
                self,
            ).chars.len() && lexeme_at(old(self).chars@, old(self).start as int) == (Lexeme {
                kind: LexemeKind::Token(token_type),
                end: old(self).current as int,
            }) && literal@ == literal_of(token_type, old(self).text()) && old(self).line_ok()
                ==> final(self).lexeme_done(),
    {
        let text = self.source.as_str().substring_char(self.start, self.current).to_owned();
        let token = Token { token_type, lexeme: text, literal, line: self.start_line };
        proof {
            let views = token_views(self.tokens@);
            assert(token_views(self.tokens@.push(token)) =~= views.push(token@));
            let rest = tokens_from(self.chars@, self.current as int);
            assert(views.push(token@) + rest =~= views + (seq![token@] + rest));
        }
        self.tokens.push(token);
    }

    /// Consumes the next character of the source and returns it.
    fn advance(&mut self) -> (c: char)
        requires
            old(self).current < old(self).chars.len(),
        ensures
            c == old(self).chars@[old(self).current as int],
            *final(self) == (Scanner {
                current: (old(self).current + 1) as usize,
                ..*old(self)
            }),
    {
        let result = self.chars[self.current];
        self.current += 1;
        result
    }

    fn is_at_end(&self) -> (r: bool)
        ensures
            r == (self.current >= self.chars.len()),
    {
        self.current >= self.chars.len()
    }

    /// Consumes the next character if it is `expected`, and says whether it
    /// did.
    fn match_next(&mut self, expected: char) -> (matched: bool)
        ensures
            matched == (old(self).current < old(self).chars.len() && old(self).chars@[old(
                self,
            ).current as int] == expected),
            *final(self) == (Scanner {
                current: if matched {
                    (old(self).current + 1) as usize
                } else {
                    old(self).current
                },
                ..*old(self)
            }),
    {
        if self.is_at_end() {
            return false;
        }
        if self.chars[self.current] == expected {
            self.current += 1;
            true
        } else {
            false
        }
    }

    /// The next character, not consumed; NUL at the end of the text.
    fn peek(&self) -> (c: char)
        ensures
            c == self.char_at(self.current as int),
    {
        if self.current < self.chars.len() {
            self.chars[self.current]
        } else {
            '\0'
        }
    }

    /// The character after the next, not consumed; NUL behind the end of the
    /// text.
    fn peek_next(&self) -> (c: char)
        ensures
            c == self.char_at(self.current + 1),
    {
        if self.current < self.chars.len() && self.current + 1 < self.chars.len() {
            self.chars[self.current + 1]
        } else {
            '\0'
        }
    }
    /// Scans the string literal whose opening quote has been consumed.
    fn string(&mut self)
        requires
            old(self).lexeme_begun(),
            old(self).chars@[old(self).start as int] == '"',
        ensures
            final(self).lexeme_done(),
            final(self).same_lexeme(*old(self)),
    {
        while self.peek() != '"' && !self.is_at_end()
            invariant
                self.cursor_ok(),
                self.line_ok(),
                self.same_lexeme(*old(self)),
                self.tokens == old(self).tokens,
                self.errors == old(self).errors,
                self.start < self.current,
                forall|k: int| self.start < k < self.current ==> self.chars@[k] != '"',
            decreases self.chars.len() - self.current,
        {
            if self.peek() == '\n' {
                proof {
                    lemma_newlines_bound(self.chars@, self.current as int);
                }
                self.line += 1;
            }
            self.advance();
        }
        proof {
            lemma_run_len_is(
                self.chars@,
                self.start + 1,
                self.current as int,
                CharClass::StringBody,
            );
        }

        if self.is_at_end() {
            let error = InterpreterError {
                line: self.line,
                location: String::new(),
                message: String::from_str("Unterminated string."),
            };
            proof {
                let views = error_views(self.errors@);
                assert(error_views(self.errors@.push(error)) =~= views.push(error@));
                let rest = errors_from(self.chars@, self.current as int);
                assert(views.push(error@) + rest =~= views + (seq![error@] + rest));
            }
            self.errors.push(error);
            return ;
        }
        // The closing quote.
        self.advance();

        let value = self.source.as_str().substring_char(
            self.start + 1,
            self.current - 1,
        ).to_owned();
        proof {
            let text = self.text();
            assert(value@ =~= text.subrange(1, text.len() - 1));
        }
        self.add_token(TokenType::String, Literal::String(value));
    }

    /// Scans the number whose first digit has been consumed.
    fn number(&mut self)
        requires
            old(self).lexeme_begun(),
            is_digit(old(self).chars@[old(self).start as int]),
        ensures
            final(self).lexeme_done(),
            final(self).same_lexeme(*old(self)),
    {
        while is_ascii_digit(self.peek())
            invariant
                self.cursor_ok(),
                self.line_ok(),
                self.same_lexeme(*old(self)),
                self.tokens == old(self).tokens,
                self.errors == old(self).errors,
                self.start < self.current,
                forall|k: int| self.start <= k < self.current ==> is_digit(self.chars@[k]),
            decreases self.chars.len() - self.current,
        {
            self.advance();
        }
        let ghost point = self.current as int;
        proof {
            lemma_run_len_is(self.chars@, self.start + 1, point, CharClass::Digit);
        }

        // Look for a fractional part.
        if self.peek() == '.' && is_ascii_digit(self.peek_next()) {
            // Consume the "."
            self.advance();

            while is_ascii_digit(self.peek())
                invariant
                    self.cursor_ok(),
                    self.line_ok(),
                    self.same_lexeme(*old(self)),
                    self.tokens == old(self).tokens,
                    self.errors == old(self).errors,
                    self.start < point < self.current,
                    point + 1 < self.chars.len(),
                    forall|k: int| point < k < self.current ==> is_digit(self.chars@[k]),
                decreases self.chars.len() - self.current,
            {
                self.advance();
            }
            proof {
                lemma_run_len_is(self.chars@, point + 2, self.current as int, CharClass::Digit);
            }
        }
        let text = self.source.as_str().substring_char(self.start, self.current);
        proof {
            let first = self.start as int;
            assert forall|k: int| 0 <= k < point - first implies CharClass::Digit.holds(
                #[trigger] text@[k],
            ) by {
                assert(text@[k] == self.chars@[first + k]);
            }
            lemma_run_len_is(text@, 0, point - first, CharClass::Digit);
            if point < self.current {
                assert forall|k: int| point - first + 1 <= k < text@.len() implies CharClass::Digit.holds(
                 #[trigger] text@[k]) by {
                    assert(text@[k] == self.chars@[first + k]);
                }
                lemma_run_len_is(
                    text@,
                    point - first + 1,
                    text@.len() as int,
                    CharClass::Digit,
                );
            }
        }
        let value = Decimal::parse(text).unwrap();
        self.add_token(TokenType::Number, Literal::Number(value));
    }

    /// Scans the keyword or identifier whose first character has been
    /// consumed.
    fn identifier(&mut self)
        requires
            old(self).lexeme_begun(),
            is_identifier_start(old(self).chars@[old(self).start as int]),
            !is_digit(old(self).chars@[old(self).start as int]),
        ensures
            final(self).lexeme_done(),
            final(self).same_lexeme(*old(self)),
    {
        // A line break ends the word, whatever the character tables say.
        while !self.is_at_end() && self.peek() != '\n' && self.peek().is_alphanumeric()
            invariant
                self.cursor_ok(),
                self.line_ok(),
                self.same_lexeme(*old(self)),
                self.tokens == old(self).tokens,
                self.errors == old(self).errors,
                self.start < self.current,
                forall|k: int|
                    self.start < k < self.current ==> CharClass::Alphanumeric.holds(
                        self.chars@[k],
                    ),
            decreases self.chars.len() - self.current,
        {
            self.advance();
        }
        proof {
            lemma_run_len_is(
                self.chars@,
                self.start + 1,
                self.current as int,
                CharClass::Alphanumeric,
            );
        }

        let text = self.source.as_str().substring_char(self.start, self.current);
        let token_type = match keyword(text) {
            Some(kind) => kind,
            None => TokenType::Identifier,
        };
        self.add_token(token_type, Literal::Nothing);
    }
}

} // verus!
