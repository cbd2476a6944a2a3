use lexer::input_parser::{InputParser, LoC};

#[test]
fn replay_of_two_lines() {
    let mut cursor = InputParser::new("ab\ncd");
    assert_eq!((cursor.line, cursor.col), (1, 0));
    assert_eq!(cursor.consume(), Some('a'));
    assert_eq!((cursor.line, cursor.col), (1, 1));
    assert_eq!(cursor.consume(), Some('b'));
    assert_eq!((cursor.line, cursor.col), (1, 2));
    assert_eq!(cursor.consume(), Some('\n'));
    assert_eq!((cursor.line, cursor.col), (2, 0));
    assert_eq!(cursor.consume(), Some('c'));
    assert_eq!((cursor.line, cursor.col), (2, 1));
    assert_eq!(cursor.consume(), Some('d'));
    assert_eq!((cursor.line, cursor.col), (2, 2));
    assert_eq!(cursor.consume(), None);
    assert_eq!(cursor.loc(), LoC { pos: 5, line: 2, col: 2 });
}

#[test]
fn consume_at_end_changes_nothing() {
    let mut cursor = InputParser::new("x");
    assert_eq!(cursor.consume(), Some('x'));
    let before = cursor.loc();
    assert_eq!(cursor.consume(), None);
    assert_eq!(cursor.consume(), None);
    assert_eq!(cursor.loc(), before);
    assert!(cursor.is_eof());
}

#[test]
fn empty_text_is_at_end() {
    let mut cursor = InputParser::new("");
    assert!(cursor.is_eof());
    assert_eq!(cursor.peek(0), None);
    assert_eq!(cursor.consume(), None);
    assert_eq!(cursor.loc(), LoC { pos: 0, line: 1, col: 0 });
}

#[test]
fn peek_does_not_move() {
    let cursor = InputParser::new("xyz");
    let before = cursor.loc();
    for _ in 0..10 {
        assert_eq!(cursor.peek(0), Some('x'));
        assert_eq!(cursor.loc(), before);
    }
    assert_eq!(cursor.peek(1), Some('y'));
    assert_eq!(cursor.peek(2), Some('z'));
    assert_eq!(cursor.peek(3), None);
    assert_eq!(cursor.peek(usize::MAX), None);
    assert_eq!(cursor.loc(), before);
}

#[test]
fn peek_looks_ahead_of_the_cursor() {
    let mut cursor = InputParser::new("abc");
    cursor.consume();
    assert_eq!(cursor.peek(0), Some('b'));
    assert_eq!(cursor.peek(1), Some('c'));
    assert_eq!(cursor.peek(2), None);
    cursor.consume();
    cursor.consume();
    assert_eq!(cursor.peek(0), None);
    assert_eq!(cursor.peek(usize::MAX), None);
}

#[test]
fn is_eof_only_after_the_last_character() {
    let mut cursor = InputParser::new("ab");
    assert!(!cursor.is_eof());
    cursor.consume();
    assert!(!cursor.is_eof());
    cursor.consume();
    assert!(cursor.is_eof());
}

#[test]
fn characters_are_scalars_not_bytes() {
    let mut cursor = InputParser::new("é\nü");
    assert_eq!(cursor.consume(), Some('é'));
    assert_eq!(cursor.loc(), LoC { pos: 1, line: 1, col: 1 });
    assert_eq!(cursor.consume(), Some('\n'));
    assert_eq!(cursor.consume(), Some('ü'));
    assert_eq!(cursor.loc(), LoC { pos: 3, line: 2, col: 1 });
    assert!(cursor.is_eof());
}

#[test]
fn consecutive_newlines_count_lines() {
    let mut cursor = InputParser::new("\n\n\nx");
    cursor.consume();
    cursor.consume();
    cursor.consume();
    assert_eq!(cursor.loc(), LoC { pos: 3, line: 4, col: 0 });
    cursor.consume();
    assert_eq!(cursor.loc(), LoC { pos: 4, line: 4, col: 1 });
}

#[test]
fn loc_inc_shifts_line_and_column_only() {
    let mut cursor = InputParser::new("ab\ncd");
    cursor.consume();
    cursor.consume();
    cursor.consume();
    cursor.consume();
    assert_eq!(cursor.loc(), LoC { pos: 4, line: 2, col: 1 });
    assert_eq!(cursor.loc_inc(3, 5), LoC { pos: 4, line: 7, col: 4 });
    assert_eq!(cursor.loc_inc(-1, -1), LoC { pos: 4, line: 1, col: 0 });
    assert_eq!(cursor.loc_inc(0, 0), cursor.loc());
    assert_eq!(cursor.loc(), LoC { pos: 4, line: 2, col: 1 });
}

#[test]
fn loc_text() {
    assert_eq!(LoC { pos: 0, line: 1, col: 0 }.to_string(), "(1:0)");
    assert_eq!(LoC { pos: 9, line: 12, col: 345 }.to_string(), "(12:345)");
    assert_eq!(LoC { pos: 9, line: -3, col: -10 }.to_string(), "(-3:-10)");
    assert_eq!(
        LoC { pos: 0, line: i32::MAX, col: i32::MIN }.to_string(),
        "(2147483647:-2147483648)"
    );
}
