use tree_walker::scanner::number::Decimal;
use tree_walker::scanner::token::{Literal, Token, TokenType};
use tree_walker::scanner::Scanner;

/// The floating-point number nearest to a decimal.
fn as_f64(number: &Decimal) -> f64 {
    let mut text = String::new();
    for (i, digit) in number.digits.iter().enumerate() {
        if number.scale > 0 && i + number.scale == number.digits.len() {
            text.push('.');
        }
        text.push(char::from(b'0' + digit));
    }
    text.parse().unwrap()
}

fn decimal(digits: &[u8], scale: usize) -> Literal {
    Literal::Number(Decimal { digits: digits.to_vec(), scale })
}

#[test]
fn test_parsing() {
    let source = "// this is a comment
    (( )){} // grouping stuff
    !*+-/=<> <= == // operators
    \"and this is a string\"
    12345
    123.45
    class fun if nil or orchard super";

    let result = vec![
        Token { token_type: TokenType::LeftParen, lexeme: "(".to_string(), literal: Literal::Nothing, line: 2 },
        Token { token_type: TokenType::LeftParen, lexeme: "(".to_string(), literal: Literal::Nothing, line: 2 },
        Token { token_type: TokenType::RightParen, lexeme: ")".to_string(), literal: Literal::Nothing, line: 2 },
        Token { token_type: TokenType::RightParen, lexeme: ")".to_string(), literal: Literal::Nothing, line: 2 },
        Token { token_type: TokenType::LeftBrace, lexeme: "{".to_string(), literal: Literal::Nothing, line: 2 },
        Token { token_type: TokenType::RightBrace, lexeme: "}".to_string(), literal: Literal::Nothing, line: 2 },
        Token { token_type: TokenType::Bang, lexeme: "!".to_string(), literal: Literal::Nothing, line: 3 },
        Token { token_type: TokenType::Star, lexeme: "*".to_string(), literal: Literal::Nothing, line: 3 },
        Token { token_type: TokenType::Plus, lexeme: "+".to_string(), literal: Literal::Nothing, line: 3 },
        Token { token_type: TokenType::Minus, lexeme: "-".to_string(), literal: Literal::Nothing, line: 3 },
        Token { token_type: TokenType::Slash, lexeme: "/".to_string(), literal: Literal::Nothing, line: 3 },
        Token { token_type: TokenType::Equal, lexeme: "=".to_string(), literal: Literal::Nothing, line: 3 },
        Token { token_type: TokenType::Less, lexeme: "<".to_string(), literal: Literal::Nothing, line: 3 },
        Token { token_type: TokenType::Greater, lexeme: ">".to_string(), literal: Literal::Nothing, line: 3 },
        Token { token_type: TokenType::LessEqual, lexeme: "<=".to_string(), literal: Literal::Nothing, line: 3 },
        Token { token_type: TokenType::EqualEqual, lexeme: "==".to_string(), literal: Literal::Nothing, line: 3 },
        Token { token_type: TokenType::String, lexeme: "\"and this is a string\"".to_string(), literal: Literal::String("and this is a string".to_string()), line: 4 },
        Token { token_type: TokenType::Number, lexeme: "12345".to_string(), literal: decimal(&[1, 2, 3, 4, 5], 0), line: 5 },
        Token { token_type: TokenType::Number, lexeme: "123.45".to_string(), literal: decimal(&[1, 2, 3, 4, 5], 2), line: 6 },
        Token { token_type: TokenType::Class, lexeme: "class".to_string(), literal: Literal::Nothing, line: 7 },
        Token { token_type: TokenType::Fun, lexeme: "fun".to_string(), literal: Literal::Nothing, line: 7 },
        Token { token_type: TokenType::If, lexeme: "if".to_string(), literal: Literal::Nothing, line: 7 },
        Token { token_type: TokenType::Nil, lexeme: "nil".to_string(), literal: Literal::Nothing, line: 7 },
        Token { token_type: TokenType::Or, lexeme: "or".to_string(), literal: Literal::Nothing, line: 7 },
        Token { token_type: TokenType::Identifier, lexeme: "orchard".to_string(), literal: Literal::Nothing, line: 7 },
        Token { token_type: TokenType::Super, lexeme: "super".to_string(), literal: Literal::Nothing, line: 7 },
        Token { token_type: TokenType::Eof, lexeme: String::new(), literal: Literal::Nothing, line: 7 },
    ];

    let scanner = Scanner::new(source.into());

    let tokens = scanner.scan_tokens().unwrap();

    assert_eq!(result, tokens);

    let numbers: Vec<f64> = tokens
        .iter()
        .filter_map(|token| match &token.literal {
            Literal::Number(number) => Some(as_f64(number)),
            _ => None,
        })
        .collect();
    assert_eq!(numbers, vec![12345.0, 123.45]);
}

fn scan(source: &str) -> Result<Vec<Token>, Vec<tree_walker::interpreter_error::InterpreterError>> {
    Scanner::new(source.to_string()).scan_tokens()
}

fn plain(token_type: TokenType, lexeme: &str, line: usize) -> Token {
    Token { token_type, lexeme: lexeme.to_string(), literal: Literal::Nothing, line }
}

fn eof(line: usize) -> Token {
    plain(TokenType::Eof, "", line)
}

fn kinds(tokens: &[Token]) -> Vec<TokenType> {
    tokens.iter().map(|token| token.token_type).collect()
}

#[test]
fn empty_source_is_end_of_input_on_line_one() {
    assert_eq!(scan("").unwrap(), vec![eof(1)]);
}

#[test]
fn default_scanner_scans_the_empty_text() {
    assert_eq!(Scanner::default().scan_tokens().unwrap(), vec![eof(1)]);
}

#[test]
fn blank_space_makes_no_token() {
    assert_eq!(scan(" \r\t").unwrap(), vec![eof(1)]);
    assert_eq!(scan(" \r\t\n").unwrap(), vec![eof(2)]);
    assert_eq!(scan("\n\n\n").unwrap(), vec![eof(4)]);
}

#[test]
fn every_punctuation_character_is_a_token() {
    let source = "(){},.-+;*/";
    let tokens = scan(source).unwrap();
    assert_eq!(tokens.len(), source.chars().count() + 1);
    assert_eq!(
        kinds(&tokens),
        vec![
            TokenType::LeftParen,
            TokenType::RightParen,
            TokenType::LeftBrace,
            TokenType::RightBrace,
            TokenType::Comma,
            TokenType::Dot,
            TokenType::Minus,
            TokenType::Plus,
            TokenType::Semicolon,
            TokenType::Star,
            TokenType::Slash,
            TokenType::Eof,
        ]
    );
    for (token, c) in tokens.iter().zip(source.chars()) {
        assert_eq!(token.lexeme, c.to_string());
        assert_eq!(token.literal, Literal::Nothing);
        assert_eq!(token.line, 1);
    }
}

#[test]
fn punctuation_gives_one_token_more_than_characters() {
    for source in ["", "/", "+", "((((", "/*/*/", ";;,,..", "}{)(-+*/.,;"] {
        let tokens = scan(source).unwrap();
        assert_eq!(tokens.len(), source.len() + 1, "{source}");
    }
}

#[test]
fn two_equals_signs_are_one_token() {
    assert_eq!(scan("==").unwrap(), vec![plain(TokenType::EqualEqual, "==", 1), eof(1)]);
}

#[test]
fn one_equals_sign_is_an_assignment() {
    assert_eq!(scan("=").unwrap(), vec![plain(TokenType::Equal, "=", 1), eof(1)]);
}

#[test]
fn operators_take_a_following_equals_sign() {
    assert_eq!(
        scan("! != < <= > >= = ==").unwrap(),
        vec![
            plain(TokenType::Bang, "!", 1),
            plain(TokenType::BangEqual, "!=", 1),
            plain(TokenType::Less, "<", 1),
            plain(TokenType::LessEqual, "<=", 1),
            plain(TokenType::Greater, ">", 1),
            plain(TokenType::GreaterEqual, ">=", 1),
            plain(TokenType::Equal, "=", 1),
            plain(TokenType::EqualEqual, "==", 1),
            eof(1),
        ]
    );
}

#[test]
fn the_longest_operator_is_taken_from_the_left() {
    assert_eq!(
        scan("===").unwrap(),
        vec![plain(TokenType::EqualEqual, "==", 1), plain(TokenType::Equal, "=", 1), eof(1)]
    );
    assert_eq!(
        scan("!==").unwrap(),
        vec![plain(TokenType::BangEqual, "!=", 1), plain(TokenType::Equal, "=", 1), eof(1)]
    );
    assert_eq!(
        scan("=!").unwrap(),
        vec![plain(TokenType::Equal, "=", 1), plain(TokenType::Bang, "!", 1), eof(1)]
    );
    assert_eq!(
        scan("= =").unwrap(),
        vec![plain(TokenType::Equal, "=", 1), plain(TokenType::Equal, "=", 1), eof(1)]
    );
}

#[test]
fn a_comment_makes_no_token() {
    assert_eq!(scan("// comment\n").unwrap(), vec![eof(2)]);
}

#[test]
fn a_comment_ends_with_its_line_or_the_text() {
    assert_eq!(scan("// comment").unwrap(), vec![eof(1)]);
    assert_eq!(scan("//").unwrap(), vec![eof(1)]);
    assert_eq!(
        scan("+ // - \n*").unwrap(),
        vec![plain(TokenType::Plus, "+", 1), plain(TokenType::Star, "*", 2), eof(2)]
    );
    assert_eq!(scan("// \"open @ #\n").unwrap(), vec![eof(2)]);
}

#[test]
fn a_single_slash_divides() {
    assert_eq!(
        scan("/ /").unwrap(),
        vec![plain(TokenType::Slash, "/", 1), plain(TokenType::Slash, "/", 1), eof(1)]
    );
    assert_eq!(scan("/// x").unwrap(), vec![eof(1)]);
}

#[test]
fn unterminated_string_is_one_error() {
    let errors = scan("\"abc").unwrap_err();
    assert_eq!(errors.len(), 1);
    assert_eq!(errors[0].message, "Unterminated string.");
    assert_eq!(errors[0].line, 1);
    assert_eq!(errors[0].location, "");
}

#[test]
fn unterminated_string_is_reported_where_the_text_ends() {
    let errors = scan("x\n\"abc\n\ndef\n").unwrap_err();
    assert_eq!(errors.len(), 1);
    assert_eq!(errors[0].message, "Unterminated string.");
    assert_eq!(errors[0].line, 5);
    assert_eq!(errors[0].location, "");
}

#[test]
fn a_lone_quote_is_an_unterminated_string() {
    let errors = scan("\"").unwrap_err();
    assert_eq!(errors.len(), 1);
    assert_eq!(errors[0].message, "Unterminated string.");
    assert_eq!(errors[0].line, 1);
}

#[test]
fn a_string_literal_keeps_its_text_without_the_quotes() {
    assert_eq!(
        scan("\"\"").unwrap(),
        vec![
            Token {
                token_type: TokenType::String,
                lexeme: "\"\"".to_string(),
                literal: Literal::String(String::new()),
                line: 1,
            },
            eof(1),
        ]
    );
    assert_eq!(
        scan("\"a\\n // b\"").unwrap(),
        vec![
            Token {
                token_type: TokenType::String,
                lexeme: "\"a\\n // b\"".to_string(),
                literal: Literal::String("a\\n // b".to_string()),
                line: 1,
            },
            eof(1),
        ]
    );
}

#[test]
fn a_string_literal_may_span_lines_and_stands_on_its_first() {
    assert_eq!(
        scan("\n\"a\nb\" x").unwrap(),
        vec![
            Token {
                token_type: TokenType::String,
                lexeme: "\"a\nb\"".to_string(),
                literal: Literal::String("a\nb".to_string()),
                line: 2,
            },
            plain(TokenType::Identifier, "x", 3),
            eof(3),
        ]
    );
}

#[test]
fn a_string_literal_may_hold_any_character() {
    assert_eq!(
        scan("\"h\u{e9}llo \u{4eac}\" +").unwrap(),
        vec![
            Token {
                token_type: TokenType::String,
                lexeme: "\"h\u{e9}llo \u{4eac}\"".to_string(),
                literal: Literal::String("h\u{e9}llo \u{4eac}".to_string()),
                line: 1,
            },
            plain(TokenType::Plus, "+", 1),
            eof(1),
        ]
    );
}

#[test]
fn a_number_with_a_fraction_is_one_token() {
    let tokens = scan("123.45").unwrap();
    assert_eq!(
        tokens,
        vec![
            Token {
                token_type: TokenType::Number,
                lexeme: "123.45".to_string(),
                literal: decimal(&[1, 2, 3, 4, 5], 2),
                line: 1,
            },
            eof(1),
        ]
    );
    match &tokens[0].literal {
        Literal::Number(number) => assert_eq!(as_f64(number), 123.45),
        other => panic!("{other:?}"),
    }
}

#[test]
fn a_point_without_a_digit_behind_it_is_a_dot() {
    let tokens = scan("123.").unwrap();
    assert_eq!(
        tokens,
        vec![
            Token {
                token_type: TokenType::Number,
                lexeme: "123".to_string(),
                literal: decimal(&[1, 2, 3], 0),
                line: 1,
            },
            plain(TokenType::Dot, ".", 1),
            eof(1),
        ]
    );
    match &tokens[0].literal {
        Literal::Number(number) => assert_eq!(as_f64(number), 123.0),
        other => panic!("{other:?}"),
    }
}

#[test]
fn a_number_takes_one_point_only() {
    assert_eq!(
        scan(".5 1.2.3 4.x").unwrap(),
        vec![
            plain(TokenType::Dot, ".", 1),
            Token {
                token_type: TokenType::Number,
                lexeme: "5".to_string(),
                literal: decimal(&[5], 0),
                line: 1,
            },
            Token {
                token_type: TokenType::Number,
                lexeme: "1.2".to_string(),
                literal: decimal(&[1, 2], 1),
                line: 1,
            },
            plain(TokenType::Dot, ".", 1),
            Token {
                token_type: TokenType::Number,
                lexeme: "3".to_string(),
                literal: decimal(&[3], 0),
                line: 1,
            },
            Token {
                token_type: TokenType::Number,
                lexeme: "4".to_string(),
                literal: decimal(&[4], 0),
                line: 1,
            },
            plain(TokenType::Dot, ".", 1),
            plain(TokenType::Identifier, "x", 1),
            eof(1),
        ]
    );
}

#[test]
fn a_number_keeps_every_digit() {
    let tokens = scan("007.250 340282366920938463463374607431768211456").unwrap();
    assert_eq!(tokens[0].literal, decimal(&[0, 0, 7, 2, 5, 0], 3));
    assert_eq!(tokens[0].lexeme, "007.250");
    match &tokens[0].literal {
        Literal::Number(number) => assert_eq!(as_f64(number), 7.25),
        other => panic!("{other:?}"),
    }
    match &tokens[1].literal {
        Literal::Number(number) => {
            assert_eq!(number.digits.len(), 39);
            assert_eq!(number.scale, 0);
            assert_eq!(as_f64(number), 340282366920938463463374607431768211456.0);
        }
        other => panic!("{other:?}"),
    }
}

#[test]
fn a_number_ends_where_a_letter_begins() {
    assert_eq!(
        kinds(&scan("12ab 3_4").unwrap()),
        vec![
            TokenType::Number,
            TokenType::Identifier,
            TokenType::Number,
            TokenType::Identifier,
            TokenType::Eof,
        ]
    );
}

#[test]
fn reserved_words_are_told_from_identifiers() {
    assert_eq!(
        scan("class fun if nil or orchard super").unwrap(),
        vec![
            plain(TokenType::Class, "class", 1),
            plain(TokenType::Fun, "fun", 1),
            plain(TokenType::If, "if", 1),
            plain(TokenType::Nil, "nil", 1),
            plain(TokenType::Or, "or", 1),
            plain(TokenType::Identifier, "orchard", 1),
            plain(TokenType::Super, "super", 1),
            eof(1),
        ]
    );
}

#[test]
fn every_reserved_word_has_its_kind() {
    assert_eq!(
        kinds(
            &scan("and class else false for fun if nil or print return super this true var while")
                .unwrap()
        ),
        vec![
            TokenType::And,
            TokenType::Class,
            TokenType::Else,
            TokenType::False,
            TokenType::For,
            TokenType::Fun,
            TokenType::If,
            TokenType::Nil,
            TokenType::Or,
            TokenType::Print,
            TokenType::Return,
            TokenType::Super,
            TokenType::This,
            TokenType::True,
            TokenType::Var,
            TokenType::While,
            TokenType::Eof,
        ]
    );
}

#[test]
fn reserved_words_are_case_sensitive_and_whole() {
    assert_eq!(
        scan("Class IF nil2 classy whileTrue").unwrap(),
        vec![
            plain(TokenType::Identifier, "Class", 1),
            plain(TokenType::Identifier, "IF", 1),
            plain(TokenType::Identifier, "nil2", 1),
            plain(TokenType::Identifier, "classy", 1),
            plain(TokenType::Identifier, "whileTrue", 1),
            eof(1),
        ]
    );
}

#[test]
fn an_identifier_runs_over_letters_and_digits() {
    assert_eq!(
        scan("ab1+c2d").unwrap(),
        vec![
            plain(TokenType::Identifier, "ab1", 1),
            plain(TokenType::Plus, "+", 1),
            plain(TokenType::Identifier, "c2d", 1),
            eof(1),
        ]
    );
}

#[test]
fn an_underscore_begins_an_identifier_and_does_not_continue_one() {
    assert_eq!(
        scan("foo_bar").unwrap(),
        vec![
            plain(TokenType::Identifier, "foo", 1),
            plain(TokenType::Identifier, "_bar", 1),
            eof(1),
        ]
    );
    assert_eq!(
        scan("_ __ _x1 or_").unwrap(),
        vec![
            plain(TokenType::Identifier, "_", 1),
            plain(TokenType::Identifier, "_", 1),
            plain(TokenType::Identifier, "_", 1),
            plain(TokenType::Identifier, "_x1", 1),
            plain(TokenType::Or, "or", 1),
            plain(TokenType::Identifier, "_", 1),
            eof(1),
        ]
    );
}

#[test]
fn an_identifier_continues_over_letters_and_digits_of_any_script() {
    assert_eq!(
        scan("a\u{e9}\u{663} b").unwrap(),
        vec![
            plain(TokenType::Identifier, "a\u{e9}\u{663}", 1),
            plain(TokenType::Identifier, "b", 1),
            eof(1),
        ]
    );
}

#[test]
fn an_unexpected_character_is_an_error() {
    let errors = scan("@").unwrap_err();
    assert_eq!(errors.len(), 1);
    assert_eq!(errors[0].message, "Unexpected character: @");
    assert_eq!(errors[0].line, 1);
    assert_eq!(errors[0].location, "");
}

#[test]
fn a_letter_with_an_accent_begins_no_lexeme() {
    let errors = scan("\u{e9}").unwrap_err();
    assert_eq!(errors.len(), 1);
    assert_eq!(errors[0].message, "Unexpected character: \u{e9}");
    let errors = scan("x = \u{663};").unwrap_err();
    assert_eq!(errors.len(), 1);
    assert_eq!(errors[0].message, "Unexpected character: \u{663}");
    let errors = scan("\0").unwrap_err();
    assert_eq!(errors.len(), 1);
    assert_eq!(errors[0].message, "Unexpected character: \0");
}

#[test]
fn every_error_is_collected_in_the_order_of_the_text() {
    let errors = scan("var a = @;\n#\nprint ~a; \"abc\n").unwrap_err();
    let seen: Vec<(usize, &str, &str)> = errors
        .iter()
        .map(|error| (error.line, error.location.as_str(), error.message.as_str()))
        .collect();
    assert_eq!(
        seen,
        vec![
            (1, "", "Unexpected character: @"),
            (2, "", "Unexpected character: #"),
            (3, "", "Unexpected character: ~"),
            (4, "", "Unterminated string."),
        ]
    );
}

#[test]
fn scanning_goes_on_behind_an_unexpected_character() {
    let errors = scan("a @ b $ c").unwrap_err();
    assert_eq!(errors.len(), 2);
    assert_eq!(errors[0].message, "Unexpected character: @");
    assert_eq!(errors[1].message, "Unexpected character: $");
}

#[test]
fn a_token_stands_on_the_line_of_its_first_character() {
    let source = "var a = 1;\n\n  print a; // done\n\"x\ny\"\n// end\nwhile\n";
    let tokens = scan(source).unwrap();
    let chars: Vec<char> = source.chars().collect();
    let mut from = 0;
    for token in &tokens[..tokens.len() - 1] {
        let lexeme: Vec<char> = token.lexeme.chars().collect();
        let start = (from..chars.len())
            .find(|&p| {
                chars[p..].starts_with(&lexeme) && !chars[p].is_whitespace()
                    && !(chars[p] == '/' && chars.get(p + 1) == Some(&'/'))
                    && !chars[..p].iter().rev().take_while(|&&c| c != '\n').collect::<String>()
                        .contains("//")
            })
            .unwrap();
        let breaks = chars[..start].iter().filter(|&&c| c == '\n').count();
        assert_eq!(token.line, 1 + breaks, "{token:?}");
        from = start + lexeme.len();
    }
    assert_eq!(
        tokens.iter().map(|token| token.line).collect::<Vec<usize>>(),
        vec![1, 1, 1, 1, 1, 3, 3, 3, 4, 7, 8]
    );
    assert_eq!(tokens.last().unwrap(), &eof(8));
}

#[test]
fn the_text_of_a_token_scans_alone_to_that_token() {
    let source = "fun add(a, b) {\n  return a + b * 2.50 / c1 != \"two\nlines\"; // sum\n}\n_x <= >= == = ! < > - . ;";
    let tokens = scan(source).unwrap();
    assert_eq!(tokens.len(), 32);
    for token in &tokens[..tokens.len() - 1] {
        let alone = scan(&token.lexeme).unwrap();
        assert_eq!(alone.len(), 2, "{token:?}");
        assert_eq!(alone[0], Token { line: 1, ..token.clone() });
        assert_eq!(alone[1].token_type, TokenType::Eof);
        assert_eq!(alone[1].lexeme, "");
        assert_eq!(alone[1].line, 1 + token.lexeme.matches('\n').count());
    }
}

#[test]
fn scanning_twice_gives_the_same() {
    let source = "var answer = 42.0; // what else\nprint \"x\" + answer;\n";
    assert_eq!(scan(source).unwrap(), scan(source).unwrap());
    let faulty = "var @ = \"open";
    let first = scan(faulty).unwrap_err();
    let second = scan(faulty).unwrap_err();
    assert_eq!(first.len(), 2);
    assert_eq!(first.len(), second.len());
    for (a, b) in first.iter().zip(second.iter()) {
        assert_eq!((a.line, &a.location, &a.message), (b.line, &b.location, &b.message));
    }
}

#[test]
fn the_last_token_marks_the_end_of_input() {
    for source in ["", "a", "a\n", "1 + 2", "// c\n\n", "\"s\"\n\n\n"] {
        let tokens = scan(source).unwrap();
        let last = tokens.last().unwrap();
        assert_eq!(last, &eof(1 + source.matches('\n').count()));
        assert!(tokens[..tokens.len() - 1].iter().all(|token| {
            token.token_type != TokenType::Eof && !token.lexeme.is_empty()
        }));
    }
}

#[test]
fn a_line_break_ends_a_word_and_begins_a_line() {
    assert_eq!(
        scan("ab\ncd\n\n12\n_e").unwrap(),
        vec![
            plain(TokenType::Identifier, "ab", 1),
            plain(TokenType::Identifier, "cd", 2),
            Token {
                token_type: TokenType::Number,
                lexeme: "12".to_string(),
                literal: decimal(&[1, 2], 0),
                line: 4,
            },
            plain(TokenType::Identifier, "_e", 5),
            eof(5),
        ]
    );
}
