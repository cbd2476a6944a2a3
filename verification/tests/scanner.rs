use lexer::input_parser::LoC;
use lexer::tokenizer::{Error, Range, Token, TokenType, Tokenizer};

fn at(pos: usize, line: i32, col: i32) -> LoC {
    LoC { pos, line, col }
}

fn on_line_one(from: usize, to: usize) -> Range {
    Range { start: at(from, 1, from as i32), end: at(to, 1, to as i32) }
}

fn scan_all(code: &str) -> (Vec<Token>, Vec<Error>) {
    let mut scanner = Tokenizer::new(code);
    let mut tokens = Vec::new();
    loop {
        match scanner.consume() {
            Some(token) => tokens.push(token),
            None => {
                if scanner.input.is_eof() {
                    break;
                }
            }
        }
    }
    (tokens, scanner.errors)
}

fn values(code: &str) -> Vec<TokenType> {
    scan_all(code).0.into_iter().map(|t| t.val).collect()
}

fn text(s: &str) -> String {
    String::from(s)
}

#[test]
fn quoted_digits_are_a_string() {
    let (tokens, errors) = scan_all("\"123\"");
    assert_eq!(tokens, vec![Token { val: TokenType::Str(text("123")), range: on_line_one(1, 4) }]);
    assert!(errors.is_empty());
}

#[test]
fn string_consumes_its_closing_quote() {
    let mut scanner = Tokenizer::new("\"ab\"c");
    let token = scanner.consume().unwrap();
    assert_eq!(token.val, TokenType::Str(text("ab")));
    assert_eq!(scanner.input.loc(), at(4, 1, 4));
    assert_eq!(scanner.consume().unwrap().val, TokenType::Var(text("c")));
}

#[test]
fn string_keeps_its_characters_verbatim() {
    let (tokens, errors) = scan_all("\"a\\n // b\nc\"");
    assert_eq!(tokens.len(), 1);
    assert_eq!(tokens[0].val, TokenType::Str(text("a\\n // b\nc")));
    assert_eq!(tokens[0].range, Range { start: at(1, 1, 1), end: at(11, 2, 1) });
    assert!(errors.is_empty());
}

#[test]
fn empty_string() {
    let (tokens, errors) = scan_all("\"\"");
    assert_eq!(tokens, vec![Token { val: TokenType::Str(text("")), range: on_line_one(1, 1) }]);
    assert!(errors.is_empty());
}

#[test]
fn unterminated_string_is_kept_and_reported() {
    let (tokens, errors) = scan_all("\"unterminated");
    assert_eq!(
        tokens,
        vec![Token { val: TokenType::Str(text("unterminated")), range: on_line_one(1, 13) }]
    );
    assert_eq!(
        errors,
        vec![Error { msg: text("Expected end of string"), range: on_line_one(1, 13) }]
    );
}

#[test]
fn second_decimal_point_ends_the_number() {
    let (tokens, errors) = scan_all("3.14.5");
    assert_eq!(tokens.len(), 2);
    match &tokens[0].val {
        TokenType::Float(numeral) => {
            assert_eq!(numeral, "3.14");
            assert_eq!(numeral.parse::<f32>().unwrap(), 3.14f32);
        }
        other => panic!("expected a float, found {:?}", other),
    }
    assert_eq!(tokens[0].range, on_line_one(0, 5));
    assert_eq!(tokens[1], Token { val: TokenType::Int(5), range: on_line_one(5, 6) });
    assert_eq!(
        errors,
        vec![Error {
            msg: text("Numbers cannot contain more than one decimal point"),
            range: on_line_one(0, 5),
        }]
    );
}

#[test]
fn underscores_separate_digits() {
    let (tokens, errors) = scan_all("1_000");
    assert_eq!(tokens, vec![Token { val: TokenType::Int(1000), range: on_line_one(0, 5) }]);
    assert!(errors.is_empty());
    assert_eq!(values("1__2_"), vec![TokenType::Int(12)]);
    assert_eq!(values("1_.5"), vec![TokenType::Float(text("1.5"))]);
}

#[test]
fn floats_hold_their_numeral() {
    assert_eq!(values("1.5"), vec![TokenType::Float(text("1.5"))]);
    assert_eq!(values("0.25 7."), vec![TokenType::Float(text("0.25")), TokenType::Float(text("7."))]);
    match &values("7.")[0] {
        TokenType::Float(numeral) => assert_eq!(numeral.parse::<f32>().unwrap(), 7.0f32),
        other => panic!("expected a float, found {:?}", other),
    }
}

#[test]
fn integers() {
    assert_eq!(values("0"), vec![TokenType::Int(0)]);
    assert_eq!(values("007"), vec![TokenType::Int(7)]);
    assert_eq!(values("42 1234567890"), vec![TokenType::Int(42), TokenType::Int(1234567890)]);
}

#[test]
fn largest_integer_is_exact() {
    let (tokens, errors) = scan_all("2147483647");
    assert_eq!(tokens, vec![Token { val: TokenType::Int(i32::MAX), range: on_line_one(0, 10) }]);
    assert!(errors.is_empty());
}

#[test]
fn integer_beyond_i32_saturates_and_is_reported() {
    let (tokens, errors) = scan_all("2147483648");
    assert_eq!(tokens, vec![Token { val: TokenType::Int(i32::MAX), range: on_line_one(0, 10) }]);
    assert_eq!(errors, vec![Error { msg: text("Invalid digit"), range: on_line_one(0, 10) }]);

    let (tokens, errors) = scan_all("99999999999999999999999999 1");
    assert_eq!(tokens[0].val, TokenType::Int(i32::MAX));
    assert_eq!(tokens[1].val, TokenType::Int(1));
    assert_eq!(errors.len(), 1);
    assert_eq!(errors[0].msg, "Invalid digit");
}

#[test]
fn statement() {
    let (tokens, errors) = scan_all("let x = 5;");
    assert_eq!(
        tokens,
        vec![
            Token { val: TokenType::Kw(text("let")), range: on_line_one(0, 3) },
            Token { val: TokenType::Var(text("x")), range: on_line_one(4, 5) },
            Token { val: TokenType::Op(text("=")), range: on_line_one(6, 7) },
            Token { val: TokenType::Int(5), range: on_line_one(8, 9) },
            Token { val: TokenType::Punc(';'), range: on_line_one(9, 9) },
        ]
    );
    assert!(errors.is_empty());
    for token in &tokens {
        assert!(token.range.start.pos <= token.range.end.pos);
    }
    for pair in tokens.windows(2) {
        assert!(pair[0].range.end.pos <= pair[1].range.start.pos);
        assert!(pair[0].range.start.pos < pair[1].range.start.pos);
    }
}

#[test]
fn standalone_operator_does_not_combine() {
    let (tokens, errors) = scan_all("a?.b");
    assert_eq!(
        tokens,
        vec![
            Token { val: TokenType::Var(text("a")), range: on_line_one(0, 1) },
            Token { val: TokenType::Op(text("?")), range: on_line_one(1, 2) },
            Token { val: TokenType::Op(text(".")), range: on_line_one(2, 3) },
            Token { val: TokenType::Var(text("b")), range: on_line_one(3, 4) },
        ]
    );
    assert!(errors.is_empty());
    assert_eq!(values("??"), vec![TokenType::Op(text("?")), TokenType::Op(text("?"))]);
    assert_eq!(values("?="), vec![TokenType::Op(text("?")), TokenType::Op(text("="))]);
}

#[test]
fn operator_characters_combine() {
    assert_eq!(values("=="), vec![TokenType::Op(text("=="))]);
    assert_eq!(values("a != b"), vec![
        TokenType::Var(text("a")),
        TokenType::Op(text("!=")),
        TokenType::Var(text("b")),
    ]);
    assert_eq!(values(">= <= && || ->"), vec![
        TokenType::Op(text(">=")),
        TokenType::Op(text("<=")),
        TokenType::Op(text("&&")),
        TokenType::Op(text("||")),
        TokenType::Op(text("->")),
    ]);
    assert_eq!(values("+-><=!%|&."), vec![TokenType::Op(text("+-><=!%|&."))]);
    assert_eq!(values("!?"), vec![TokenType::Op(text("!?"))]);
    assert_eq!(values("=?="), vec![TokenType::Op(text("=?="))]);
}

#[test]
fn every_punctuation_mark() {
    let (tokens, errors) = scan_all(",:;{}[]()");
    let marks: Vec<char> = ",:;{}[]()".chars().collect();
    assert_eq!(tokens.len(), marks.len());
    for (i, token) in tokens.iter().enumerate() {
        assert_eq!(token.val, TokenType::Punc(marks[i]));
        assert_eq!(token.range, on_line_one(i, i));
    }
    assert!(errors.is_empty());
}

#[test]
fn keywords_booleans_and_identifiers() {
    for word in
        ["main", "let", "emit", "match", "while", "if", "actor", "enum", "struct", "on", "single"]
    {
        assert_eq!(values(word), vec![TokenType::Kw(text(word))]);
    }
    assert_eq!(values("true"), vec![TokenType::Bool(true)]);
    assert_eq!(values("false"), vec![TokenType::Bool(false)]);
    assert_eq!(values("truex True _ a1_b lets"), vec![
        TokenType::Var(text("truex")),
        TokenType::Var(text("True")),
        TokenType::Var(text("_")),
        TokenType::Var(text("a1_b")),
        TokenType::Var(text("lets")),
    ]);
}

#[test]
fn digits_then_letters_are_two_tokens() {
    assert_eq!(values("12ab"), vec![TokenType::Int(12), TokenType::Var(text("ab"))]);
}

#[test]
fn line_comment_runs_to_the_newline() {
    let (tokens, errors) = scan_all("a // b \"c\n  d");
    assert_eq!(
        tokens,
        vec![
            Token { val: TokenType::Var(text("a")), range: on_line_one(0, 1) },
            Token {
                val: TokenType::Var(text("d")),
                range: Range { start: at(12, 2, 2), end: at(13, 2, 3) },
            },
        ]
    );
    assert!(errors.is_empty());
    assert_eq!(values("// only"), vec![]);
    assert_eq!(values("//"), vec![]);
}

#[test]
fn block_comment_runs_to_its_end() {
    assert_eq!(values("a /* b\n c */ d"), vec![TokenType::Var(text("a")), TokenType::Var(text("d"))]);
    assert_eq!(values("/**/x"), vec![TokenType::Var(text("x"))]);
    assert_eq!(values("/* * / */x"), vec![TokenType::Var(text("x"))]);
    assert_eq!(values("/* // */ x"), vec![TokenType::Var(text("x"))]);
}

#[test]
fn block_comment_end_is_searched_from_its_star() {
    assert_eq!(values("/*/x"), vec![TokenType::Var(text("x"))]);
}

#[test]
fn unterminated_block_comment_runs_to_the_end() {
    let (tokens, errors) = scan_all("a /* b *");
    assert_eq!(tokens.len(), 1);
    assert!(errors.is_empty());
}

#[test]
fn blanks_only() {
    let mut scanner = Tokenizer::new(" \n\t ");
    assert_eq!(scanner.consume(), None);
    assert!(scanner.input.is_eof());
    assert!(scanner.errors.is_empty());
    assert_eq!(scanner.consume(), None);
}

#[test]
fn empty_text() {
    let mut scanner = Tokenizer::new("");
    assert_eq!(scanner.peek(), None);
    assert_eq!(scanner.consume(), None);
    assert!(scanner.errors.is_empty());
}

#[test]
fn stray_character_is_reported_and_dropped() {
    let mut scanner = Tokenizer::new("#a");
    assert_eq!(scanner.consume(), None);
    assert!(!scanner.input.is_eof());
    assert_eq!(
        scanner.errors,
        vec![Error { msg: text("Invalid character #"), range: on_line_one(0, 0) }]
    );
    assert_eq!(
        scanner.consume(),
        Some(Token { val: TokenType::Var(text("a")), range: on_line_one(1, 2) })
    );
    assert_eq!(scanner.consume(), None);
    assert!(scanner.input.is_eof());
    assert_eq!(scanner.errors.len(), 1);
}

#[test]
fn slash_alone_is_a_stray_character() {
    let (tokens, errors) = scan_all("a / b");
    assert_eq!(tokens.len(), 2);
    assert_eq!(errors, vec![Error { msg: text("Invalid character /"), range: on_line_one(2, 2) }]);

    let mut scanner = Tokenizer::new("/");
    assert_eq!(scanner.consume(), None);
    assert!(scanner.input.is_eof());
    assert_eq!(scanner.errors.len(), 1);
}

#[test]
fn carriage_return_is_a_stray_character() {
    let (tokens, errors) = scan_all("a\r\nb");
    assert_eq!(tokens.len(), 2);
    assert_eq!(errors.len(), 1);
    assert_eq!(errors[0].msg, "Invalid character \r");
    assert_eq!(tokens[1].range, Range { start: at(3, 2, 0), end: at(4, 2, 1) });
}

#[test]
fn errors_are_kept_in_the_order_found() {
    let (tokens, errors) = scan_all("# 1.2.3 $ \"x");
    assert_eq!(tokens.len(), 3);
    let messages: Vec<&str> = errors.iter().map(|e| e.msg.as_str()).collect();
    assert_eq!(
        messages,
        vec![
            "Invalid character #",
            "Numbers cannot contain more than one decimal point",
            "Invalid character $",
            "Expected end of string",
        ]
    );
}

#[test]
fn peek_keeps_the_token_until_it_is_taken() {
    let mut scanner = Tokenizer::new("let x");
    let first = scanner.peek().cloned();
    let after_first = scanner.input.loc();
    let second = scanner.peek().cloned();
    assert_eq!(first, second);
    assert_eq!(scanner.input.loc(), after_first);
    assert_eq!(after_first, at(3, 1, 3));
    assert_eq!(first, Some(Token { val: TokenType::Kw(text("let")), range: on_line_one(0, 3) }));
    let taken = scanner.consume();
    assert_eq!(taken, first);
    assert_eq!(scanner.input.loc(), after_first);
    assert_eq!(scanner.consume().unwrap().val, TokenType::Var(text("x")));
    assert_eq!(scanner.peek(), None);
    assert_eq!(scanner.peek(), None);
    assert_eq!(scanner.consume(), None);
}

#[test]
fn peek_after_a_stray_character_looks_again() {
    let mut scanner = Tokenizer::new("#a");
    assert_eq!(scanner.peek(), None);
    assert_eq!(scanner.errors.len(), 1);
    assert_eq!(scanner.peek().cloned().unwrap().val, TokenType::Var(text("a")));
    assert_eq!(scanner.errors.len(), 1);
}

#[test]
fn error_records_what_it_is_given() {
    let mut scanner = Tokenizer::new("a");
    scanner.error(text("first"), at(0, 1, 0), at(1, 1, 1));
    scanner.error(text("second"), at(5, 2, 3), at(5, 2, 3));
    assert_eq!(
        scanner.errors,
        vec![
            Error { msg: text("first"), range: on_line_one(0, 1) },
            Error { msg: text("second"), range: Range { start: at(5, 2, 3), end: at(5, 2, 3) } },
        ]
    );
    assert_eq!(scanner.consume().unwrap().val, TokenType::Var(text("a")));
    assert_eq!(scanner.errors.len(), 2);
}

#[test]
fn every_character_is_accounted_for() {
    let code = "let x = 5 // c\n#";
    let (tokens, errors) = scan_all(code);
    let spanned: usize = tokens.iter().map(|t| t.range.end.pos - t.range.start.pos).sum();
    let stray = errors.len();
    let blanks_and_comments = 4 + 5;
    assert_eq!(spanned, 6);
    assert_eq!(stray, 1);
    assert_eq!(spanned + blanks_and_comments + stray, code.chars().count());
}

#[test]
fn quotes_and_punctuation_lie_outside_spans() {
    let code = "\"ab\";";
    let (tokens, _) = scan_all(code);
    let spanned: usize = tokens.iter().map(|t| t.range.end.pos - t.range.start.pos).sum();
    assert_eq!(spanned, 2);
    assert_eq!(spanned + 3, code.chars().count());
}

#[test]
fn range_text() {
    assert_eq!(on_line_one(1, 4).to_string(), "(1:1 - 1:4)");
    assert_eq!(
        Range { start: at(0, 9, 12), end: at(0, 10, 0) }.to_string(),
        "(9:12 - 10:0)"
    );
    assert_eq!(
        Range { start: at(0, -1, -2), end: at(0, i32::MIN, i32::MAX) }.to_string(),
        "(-1:-2 - -2147483648:2147483647)"
    );
}

#[test]
fn recorded_error_renders_against_its_line() {
    let source = "abc def\nxyz";
    let error = Error { msg: text("Something"), range: on_line_one(1, 3) };
    assert_eq!(error.format(source), "abc def\n\n ^^^\nSomething (1:1 - 1:3)");
    let error =
        Error { msg: text("Other"), range: Range { start: at(8, 2, 0), end: at(9, 2, 1) } };
    assert_eq!(error.format(source), "xyz\n\n^^\nOther (2:0 - 2:1)");
}

#[test]
fn recorded_error_renders_lines_between_newlines() {
    let source = "a\n\nc\n";
    let line = |n: i32| Error {
        msg: text("m"),
        range: Range { start: at(0, n, 0), end: at(0, n, 0) },
    };
    assert_eq!(line(1).format(source), "a\n\n^\nm (1:0 - 1:0)");
    assert_eq!(line(2).format(source), "\n\n^\nm (2:0 - 2:0)");
    assert_eq!(line(3).format(source), "c\n\n^\nm (3:0 - 3:0)");
    assert_eq!(line(4).format(source), "\n\n^\nm (4:0 - 4:0)");
}

#[test]
fn recorded_error_with_negative_end_column_has_no_markers() {
    let error = Error {
        msg: text("m"),
        range: Range { start: at(0, 1, 0), end: at(0, 1, -1) },
    };
    assert_eq!(error.format("ab"), "ab\n\n\nm (1:0 - 1:-1)");
}

#[test]
fn unterminated_string_error_renders() {
    let source = "\"abc";
    let mut scanner = Tokenizer::new(source);
    scanner.consume();
    assert_eq!(scanner.errors.len(), 1);
    assert_eq!(
        scanner.errors[0].format(source),
        "\"abc\n\n ^^^^\nExpected end of string (1:1 - 1:4)"
    );
    assert_eq!(scanner.errors[0].format(source), scanner.errors[0].format(source));
}
