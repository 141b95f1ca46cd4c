//! What holds of every scan, proved from the grammar.

use crate::interpreter_error::{ErrorView, InterpreterError};
use crate::scanner::grammar::{
    end_of_input, errors_from, followed_by, is_digit, is_identifier_start, keyword,
    lemma_lexeme_bounds, lemma_run, lemma_run_len_is, lexeme_at, line_at, newlines_before,
    punctuation, run_len, scan, token, tokens_from, word_kind, CharClass, Lexeme, LexemeKind,
};
use crate::scanner::token::{LiteralView, Token, TokenType, TokenView};
use crate::scanner::{result_view, Scanner};
use vstd::prelude::*;

verus! {

/// The positions at which the tokens of `s` from position `i` on begin, in
/// their order.
pub open spec fn token_starts(s: Seq<char>, i: int) -> Seq<int>
    decreases s.len() - i,
    via token_starts_terminates
{
    if 0 <= i < s.len() {
        let lexeme = lexeme_at(s, i);
        match lexeme.kind {
            LexemeKind::Token(_) => seq![i] + token_starts(s, lexeme.end),
            _ => token_starts(s, lexeme.end),
        }
    } else {
        Seq::empty()
    }
}

#[via_fn]
proof fn token_starts_terminates(s: Seq<char>, i: int) {
    if 0 <= i < s.len() {
        lemma_lexeme_bounds(s, i);
    }
}

/// The token `t` is the one that the lexeme at position `p` of `s` makes:
/// its text is the text of `s` from `p` on, as long as the longest lexeme
/// there, and its line is that of `p`.
pub open spec fn token_lies_at(s: Seq<char>, t: TokenView, p: int) -> bool {
    &&& 0 <= p < p + t.lexeme.len() <= s.len()
    &&& lexeme_at(s, p) == (Lexeme {
        kind: LexemeKind::Token(t.token_type),
        end: p + t.lexeme.len(),
    })
    &&& t == token(t.token_type, s.subrange(p, p + t.lexeme.len()), line_at(s, p))
}

/// Line breaks only add up.
pub proof fn lemma_newlines_monotonic(s: Seq<char>, p: int, q: int)
    requires
        p <= q,
    ensures
        newlines_before(s, p) <= newlines_before(s, q),
    decreases q - p,
{
    if p < q {
        lemma_newlines_monotonic(s, p, q - 1);
    }
}

proof fn lemma_tokens_lie_in_text(s: Seq<char>, i: int)
    requires
        0 <= i <= s.len(),
    ensures
        tokens_from(s, i).len() == token_starts(s, i).len() + 1,
        tokens_from(s, i).last() == end_of_input(line_at(s, s.len() as int)),
        forall|k: int|
            0 <= k < token_starts(s, i).len() ==> i <= #[trigger] token_starts(s, i)[k]
                && token_lies_at(s, tokens_from(s, i)[k], token_starts(s, i)[k]),
        forall|j: int, k: int|
            0 <= j < k < token_starts(s, i).len() ==> #[trigger] token_starts(s, i)[j]
                + tokens_from(s, i)[j].lexeme.len() <= #[trigger] token_starts(s, i)[k],
    decreases s.len() - i,
{
    if i < s.len() {
        let lexeme = lexeme_at(s, i);
        lemma_lexeme_bounds(s, i);
        lemma_tokens_lie_in_text(s, lexeme.end);
        let tokens = tokens_from(s, i);
        let starts = token_starts(s, i);
        let rest = tokens_from(s, lexeme.end);
        let rest_starts = token_starts(s, lexeme.end);
        match lexeme.kind {
            LexemeKind::Token(kind) => {
                let first = token(kind, s.subrange(i, lexeme.end), line_at(s, i));
                assert(tokens == seq![first] + rest);
                assert(starts == seq![i] + rest_starts);
                assert(token_lies_at(s, first, i));
                assert forall|k: int| 0 <= k < starts.len() implies i <= #[trigger] starts[k]
                    && token_lies_at(s, tokens[k], starts[k]) by {
                    if k > 0 {
                        assert(starts[k] == rest_starts[k - 1]);
                        assert(tokens[k] == rest[k - 1]);
                    }
                }
                assert forall|j: int, k: int| 0 <= j < k < starts.len() implies #[trigger] starts[j]
                    + tokens[j].lexeme.len() <= #[trigger] starts[k] by {
                    assert(starts[k] == rest_starts[k - 1]);
                    assert(tokens[k] == rest[k - 1]);
                    if j > 0 {
                        assert(starts[j] == rest_starts[j - 1]);
                        assert(tokens[j] == rest[j - 1]);
                    }
                }
            },
            _ => {},
        }
    }
}

/// Each token but the last stands for a stretch of the text: there is a
/// position (`token_starts` names it) where the token's text stands in the
/// source, character for character, and is the longest lexeme there; the
/// token's line is one more than the number of line breaks before that
/// position. The stretches follow one another in the order of the tokens and
/// do not overlap, so the lines never go down. The last token marks the end
/// of input, with no text, on the line on which the source ends.
pub proof fn theorem_tokens_lie_in_text(s: Seq<char>)
    ensures
        tokens_from(s, 0).len() == token_starts(s, 0).len() + 1,
        tokens_from(s, 0).last() == end_of_input(1 + newlines_before(s, s.len() as int)),
        forall|k: int|
            0 <= k < token_starts(s, 0).len() ==> token_lies_at(
                s,
                #[trigger] tokens_from(s, 0)[k],
                token_starts(s, 0)[k],
            ) && tokens_from(s, 0)[k].line == 1 + newlines_before(s, token_starts(s, 0)[k]),
        forall|j: int, k: int|
            0 <= j < k < token_starts(s, 0).len() ==> #[trigger] token_starts(s, 0)[j]
                + tokens_from(s, 0)[j].lexeme.len() <= #[trigger] token_starts(s, 0)[k],
        forall|j: int, k: int|
            0 <= j <= k < tokens_from(s, 0).len() ==> (#[trigger] tokens_from(s, 0)[j]).line <= (
            #[trigger] tokens_from(s, 0)[k]).line,
{
    lemma_tokens_lie_in_text(s, 0);
    let tokens = tokens_from(s, 0);
    let starts = token_starts(s, 0);
    assert forall|j: int, k: int| 0 <= j <= k < tokens.len() implies (#[trigger] tokens[j]).line
        <= (#[trigger] tokens[k]).line by {
        if j < k {
            assert(token_lies_at(s, tokens[j], starts[j]));
            if k < starts.len() {
                assert(token_lies_at(s, tokens[k], starts[k]));
                assert(starts[j] + tokens[j].lexeme.len() <= starts[k]);
                lemma_newlines_monotonic(s, starts[j], starts[k]);
            } else {
                lemma_newlines_monotonic(s, starts[j], s.len() as int);
            }
        }
    }
}

/// A lexeme taken out of its text is, alone, the same lexeme: it makes a
/// token of the same kind and reaches to the end.
proof fn lemma_lexeme_alone(s: Seq<char>, p: int, kind: TokenType)
    requires
        0 <= p < s.len(),
        lexeme_at(s, p).kind == LexemeKind::Token(kind),
    ensures
        p < lexeme_at(s, p).end <= s.len(),
        lexeme_at(s.subrange(p, lexeme_at(s, p).end), 0) == (Lexeme {
            kind: LexemeKind::Token(kind),
            end: lexeme_at(s, p).end - p,
        }),
{
    lemma_lexeme_bounds(s, p);
    let end = lexeme_at(s, p).end;
    let t = s.subrange(p, end);
    let c = s[p];
    assert(t[0] == c);
    if punctuation(c) is Some {
    } else if c == '!' || c == '=' || c == '<' || c == '>' {
        if followed_by(s, p, '=') {
            assert(t[1] == '=');
        }
    } else if c == '/' {
    } else if c == '"' {
        lemma_run(s, p + 1, CharClass::StringBody);
        let close = p + 1 + run_len(s, p + 1, CharClass::StringBody);
        assert forall|k: int| 1 <= k < close - p implies CharClass::StringBody.holds(
            #[trigger] t[k],
        ) by {
            assert(t[k] == s[p + k]);
        }
        assert(t[close - p] == s[close]);
        lemma_run_len_is(t, 1, close - p, CharClass::StringBody);
    } else if is_digit(c) {
        lemma_run(s, p + 1, CharClass::Digit);
        let point = p + 1 + run_len(s, p + 1, CharClass::Digit);
        assert forall|k: int| 1 <= k < point - p implies CharClass::Digit.holds(
            #[trigger] t[k],
        ) by {
            assert(t[k] == s[p + k]);
        }
        if point < end {
            lemma_run(s, point + 2, CharClass::Digit);
            assert(t[point - p] == s[point]);
            assert(t[point - p + 1] == s[point + 1]);
            lemma_run_len_is(t, 1, point - p, CharClass::Digit);
            assert forall|k: int| point - p + 2 <= k < end - p implies CharClass::Digit.holds(
                #[trigger] t[k],
            ) by {
                assert(t[k] == s[p + k]);
            }
            lemma_run_len_is(t, point - p + 2, end - p, CharClass::Digit);
        } else {
            lemma_run_len_is(t, 1, end - p, CharClass::Digit);
        }
    } else {
        lemma_run(s, p + 1, CharClass::Alphanumeric);
        assert forall|k: int| 1 <= k < end - p implies CharClass::Alphanumeric.holds(
            #[trigger] t[k],
        ) by {
            assert(t[k] == s[p + k]);
        }
        lemma_run_len_is(t, 1, end - p, CharClass::Alphanumeric);
        assert(t.subrange(0, end - p) =~= t);
    }
}

/// Scanning the text of a token alone gives that token again, on line 1,
/// and the end of input behind it: for each token of `s` but the last, its
/// kind, text and payload depend on its text alone.
pub proof fn theorem_token_scans_alone(s: Seq<char>, k: int)
    requires
        0 <= k < tokens_from(s, 0).len() - 1,
    ensures
        ({
            let t = tokens_from(s, 0)[k];
            &&& t == token(t.token_type, t.lexeme, t.line)
            &&& scan(t.lexeme) == Ok::<Seq<TokenView>, Seq<ErrorView>>(
                seq![
                    token(t.token_type, t.lexeme, 1),
                    end_of_input(line_at(t.lexeme, t.lexeme.len() as int)),
                ],
            )
        }),
{
    lemma_tokens_lie_in_text(s, 0);
    let t = tokens_from(s, 0)[k];
    let p = token_starts(s, 0)[k];
    assert(token_lies_at(s, t, p));
    lemma_lexeme_alone(s, p, t.token_type);
    let text = t.lexeme;
    assert(text == s.subrange(p, p + text.len()));
    let n = text.len() as int;
    assert(text.subrange(0, n) =~= text);
    assert(tokens_from(text, n) == seq![end_of_input(line_at(text, n))]);
    assert(errors_from(text, n) == Seq::<ErrorView>::empty());
    assert(tokens_from(text, 0) == seq![token(t.token_type, text, line_at(text, 0))]
        + tokens_from(text, n));
    assert(errors_from(text, 0) == errors_from(text, n));
    assert(tokens_from(text, 0) =~= seq![
        token(t.token_type, text, 1),
        end_of_input(line_at(text, n)),
    ]);
}

/// The token that a character of punctuation makes where no comment begins:
/// the slash is among them.
pub open spec fn single_character_token(c: char) -> Option<TokenType> {
    if c == '/' {
        Some(TokenType::Slash)
    } else {
        punctuation(c)
    }
}

/// Whether `s` holds punctuation characters only, and no two slashes in a
/// row, which would begin a comment.
pub open spec fn punctuation_only(s: Seq<char>) -> bool {
    &&& forall|i: int| 0 <= i < s.len() ==> single_character_token(#[trigger] s[i]) is Some
    &&& forall|i: int| 0 <= i < s.len() - 1 ==> !(#[trigger] s[i] == '/' && s[i + 1] == '/')
}

proof fn lemma_punctuation_only(s: Seq<char>, i: int)
    requires
        punctuation_only(s),
        0 <= i <= s.len(),
    ensures
        errors_from(s, i) == Seq::<ErrorView>::empty(),
        tokens_from(s, i).len() == s.len() - i + 1,
        newlines_before(s, i) == 0,
        forall|k: int|
            0 <= k < s.len() - i ==> #[trigger] tokens_from(s, i)[k] == token(
                single_character_token(s[i + k])->0,
                seq![s[i + k]],
                1,
            ),
    decreases s.len() - i,
{
    lemma_no_newlines(s, i);
    if i < s.len() {
        lemma_punctuation_only(s, i + 1);
        assert(single_character_token(s[i]) is Some);
        assert(lexeme_at(s, i) == (Lexeme {
            kind: LexemeKind::Token(single_character_token(s[i])->0),
            end: i + 1,
        }));
        assert(s.subrange(i, i + 1) =~= seq![s[i]]);
        let first = token(single_character_token(s[i])->0, seq![s[i]], 1);
        assert(tokens_from(s, i) == seq![first] + tokens_from(s, i + 1));
        assert forall|k: int| 0 <= k < s.len() - i implies #[trigger] tokens_from(s, i)[k]
            == token(single_character_token(s[i + k])->0, seq![s[i + k]], 1) by {
            if k > 0 {
                assert(tokens_from(s, i)[k] == tokens_from(s, i + 1)[k - 1]);
            }
        }
    }
}

proof fn lemma_no_newlines(s: Seq<char>, i: int)
    requires
        punctuation_only(s),
        0 <= i <= s.len(),
    ensures
        newlines_before(s, i) == 0,
    decreases i,
{
    if i > 0 {
        lemma_no_newlines(s, i - 1);
        assert(single_character_token(s[i - 1]) is Some);
    }
}

/// A text of punctuation characters alone, with no comment in it, scans
/// without error to one token for each character, in the order of the text
/// and all on line 1, and the end of input behind them: one token more than
/// the text has characters.
pub proof fn theorem_punctuation_only(s: Seq<char>)
    requires
        punctuation_only(s),
    ensures
        scan(s) is Ok,
        scan(s)->Ok_0.len() == s.len() + 1,
        forall|k: int|
            0 <= k < s.len() ==> #[trigger] scan(s)->Ok_0[k] == token(
                single_character_token(s[k])->0,
                seq![s[k]],
                1,
            ),
        scan(s)->Ok_0[s.len() as int] == end_of_input(1),
{
    lemma_punctuation_only(s, 0);
    lemma_tokens_lie_in_text(s, 0);
    lemma_no_newlines(s, s.len() as int);
}

/// Scanning is a function of the text: two scans of the same text return
/// the same tokens, or the same errors.
pub proof fn theorem_scan_is_deterministic(
    first: Scanner,
    second: Scanner,
    first_result: Result<Vec<Token>, Vec<InterpreterError>>,
    second_result: Result<Vec<Token>, Vec<InterpreterError>>,
)
    requires
        first.source() == second.source(),
        result_view(first_result) == scan(first.source()),
        result_view(second_result) == scan(second.source()),
    ensures
        result_view(first_result) == result_view(second_result),
        first_result is Ok <==> second_result is Ok,
{
}

/// A comment comes to nothing: two slashes begin a lexeme that makes no
/// token and no error, runs over every character up to the next line break
/// or to the end of the text, and leaves that line break to be scanned
/// next.
pub proof fn theorem_comment_is_blank(s: Seq<char>, i: int)
    requires
        0 <= i,
        i + 1 < s.len(),
        s[i] == '/',
        s[i + 1] == '/',
    ensures
        lexeme_at(s, i).kind == LexemeKind::Blank,
        i + 2 <= lexeme_at(s, i).end <= s.len(),
        forall|k: int| i + 2 <= k < lexeme_at(s, i).end ==> #[trigger] s[k] != '\n',
        lexeme_at(s, i).end == s.len() || s[lexeme_at(s, i).end] == '\n',
        tokens_from(s, i) == tokens_from(s, lexeme_at(s, i).end),
        errors_from(s, i) == errors_from(s, lexeme_at(s, i).end),
        line_at(s, lexeme_at(s, i).end) == line_at(s, i),
{
    lemma_run(s, i + 2, CharClass::CommentBody);
    let end = lexeme_at(s, i).end;
    assert forall|k: int| i + 2 <= k < end implies #[trigger] s[k] != '\n' by {
        assert(CharClass::CommentBody.holds(s[k]));
    }
    lemma_no_line_break_between(s, i, end);
}

/// Where no line break lies between two positions, they are on one line.
pub proof fn lemma_no_line_break_between(s: Seq<char>, p: int, q: int)
    requires
        0 <= p <= q <= s.len(),
        forall|k: int| p <= k < q ==> #[trigger] s[k] != '\n',
    ensures
        line_at(s, q) == line_at(s, p),
    decreases q - p,
{
    if p < q {
        lemma_no_line_break_between(s, p, q - 1);
    }
}

/// The word that is reserved for a kind of token, if the kind is that of a
/// reserved word.
pub open spec fn reserved_word(kind: TokenType) -> Option<Seq<char>> {
    match kind {
        TokenType::And => Some("and"@),
        TokenType::Class => Some("class"@),
        TokenType::Else => Some("else"@),
        TokenType::False => Some("false"@),
        TokenType::For => Some("for"@),
        TokenType::Fun => Some("fun"@),
        TokenType::If => Some("if"@),
        TokenType::Nil => Some("nil"@),
        TokenType::Or => Some("or"@),
        TokenType::Print => Some("print"@),
        TokenType::Return => Some("return"@),
        TokenType::Super => Some("super"@),
        TokenType::This => Some("this"@),
        TokenType::True => Some("true"@),
        TokenType::Var => Some("var"@),
        TokenType::While => Some("while"@),
        _ => None,
    }
}

/// A word has the kind of a reserved word exactly when it is that word,
/// whole and letter for letter; every other word is an identifier.
pub proof fn theorem_keywords_are_whole_words(text: Seq<char>, kind: TokenType)
    ensures
        keyword(text) == Some(kind) <==> reserved_word(kind) == Some(text),
        word_kind(text) == kind <==> reserved_word(kind) == Some(text) || (kind
            == TokenType::Identifier && forall|other: TokenType|
            reserved_word(other) != Some(text)),
{
    reveal_strlit("and");
    reveal_strlit("class");
    reveal_strlit("else");
    reveal_strlit("false");
    reveal_strlit("for");
    reveal_strlit("fun");
    reveal_strlit("if");
    reveal_strlit("nil");
    reveal_strlit("or");
    reveal_strlit("print");
    reveal_strlit("return");
    reveal_strlit("super");
    reveal_strlit("this");
    reveal_strlit("true");
    reveal_strlit("var");
    reveal_strlit("while");
    assert("and"@.len() == 3 && "and"@[0] == 'a' && "and"@[1] == 'n');
    assert("class"@.len() == 5 && "class"@[0] == 'c' && "class"@[1] == 'l');
    assert("else"@.len() == 4 && "else"@[0] == 'e' && "else"@[1] == 'l');
    assert("false"@.len() == 5 && "false"@[0] == 'f' && "false"@[1] == 'a');
    assert("for"@.len() == 3 && "for"@[0] == 'f' && "for"@[1] == 'o');
    assert("fun"@.len() == 3 && "fun"@[0] == 'f' && "fun"@[1] == 'u');
    assert("if"@.len() == 2 && "if"@[0] == 'i' && "if"@[1] == 'f');
    assert("nil"@.len() == 3 && "nil"@[0] == 'n' && "nil"@[1] == 'i');
    assert("or"@.len() == 2 && "or"@[0] == 'o' && "or"@[1] == 'r');
    assert("print"@.len() == 5 && "print"@[0] == 'p' && "print"@[1] == 'r');
    assert("return"@.len() == 6 && "return"@[0] == 'r' && "return"@[1] == 'e');
    assert("super"@.len() == 5 && "super"@[0] == 's' && "super"@[1] == 'u');
    assert("this"@.len() == 4 && "this"@[0] == 't' && "this"@[1] == 'h');
    assert("true"@.len() == 4 && "true"@[0] == 't' && "true"@[1] == 'r');
    assert("var"@.len() == 3 && "var"@[0] == 'v' && "var"@[1] == 'a');
    assert("while"@.len() == 5 && "while"@[0] == 'w' && "while"@[1] == 'h');
    if keyword(text) is Some {
        assert(reserved_word(keyword(text)->0) == Some(text));
    } else {
        assert forall|other: TokenType| reserved_word(other) != Some(text) by {}
    }
}

/// A word is one token: where a letter or an underscore begins a lexeme,
/// the lexeme runs over the letters and digits that follow, and is a token
/// without payload, of the kind of the reserved word that its whole text
/// spells, else an identifier.
pub proof fn theorem_word_is_one_token(s: Seq<char>, i: int)
    requires
        0 <= i < s.len(),
        is_identifier_start(s[i]),
    ensures
        ({
            let end = lexeme_at(s, i).end;
            let text = s.subrange(i, end);
            &&& i < end <= s.len()
            &&& end == i + 1 + run_len(s, i + 1, CharClass::Alphanumeric)
            &&& lexeme_at(s, i).kind == LexemeKind::Token(word_kind(text))
            &&& tokens_from(s, i) == seq![token(word_kind(text), text, line_at(s, i))]
                + tokens_from(s, end)
            &&& token(word_kind(text), text, line_at(s, i)).literal == LiteralView::Nothing
            &&& errors_from(s, i) == errors_from(s, end)
        }),
{
    lemma_lexeme_bounds(s, i);
    let text = s.subrange(i, lexeme_at(s, i).end);
    theorem_keywords_are_whole_words(text, word_kind(text));
    theorem_keywords_are_whole_words(text, TokenType::String);
    theorem_keywords_are_whole_words(text, TokenType::Number);
}

} // verus!
