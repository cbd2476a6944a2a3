//! The lexical grammar as mathematics: which characters belong to which
//! class, how far each kind of lexeme reaches, and what one scanning step
//! yields from a given offset of a given text.

use crate::error::{Describe, ErrorType};
use crate::input_parser::loc_at;
use crate::tokenizer::Range;
use vstd::prelude::*;

verus! {

/// What a token holds, as plain values.
pub enum TokenValue {
    Str(Seq<char>),
    Float(Seq<char>),
    Int(int),
    Kw(Seq<char>),
    Bool(bool),
    Var(Seq<char>),
    Op(Seq<char>),
    Punc(char),
}

/// A token as plain values.
pub struct TokenView {
    pub range: Range,
    pub val: TokenValue,
}

/// A recorded error as plain values.
pub struct ErrorView {
    pub range: Range,
    pub msg: Seq<char>,
}

pub open spec fn is_digit(c: char) -> bool {
    '0' <= c <= '9'
}

pub open spec fn is_letter(c: char) -> bool {
    ('a' <= c <= 'z') || ('A' <= c <= 'Z')
}

pub open spec fn is_ident_start(c: char) -> bool {
    is_letter(c) || c == '_'
}

pub open spec fn is_ident_char(c: char) -> bool {
    is_letter(c) || is_digit(c) || c == '_'
}

pub open spec fn is_blank(c: char) -> bool {
    c == ' ' || c == '\n' || c == '\t'
}

pub open spec fn is_punctuation(c: char) -> bool {
    c == ',' || c == ':' || c == ';' || c == '{' || c == '}' || c == '[' || c == ']' || c == '('
        || c == ')'
}

/// The characters that operators are made of.
pub open spec fn operator_chars() -> Seq<char> {
    seq!['+', '-', '>', '<', '=', '!', '%', '|', '&', '.', '?']
}

pub open spec fn is_operator_char(c: char) -> bool {
    operator_chars().contains(c)
}

/// The operators that stand alone: once read, no further operator
/// character joins them.
pub open spec fn standalone_chars() -> Seq<char> {
    seq!['?']
}

/// Whether `text` is exactly one standalone operator.
pub open spec fn is_standalone(text: Seq<char>) -> bool {
    text.len() == 1 && standalone_chars().contains(text[0])
}

/// The reserved words.
pub open spec fn keywords() -> Seq<Seq<char>> {
    seq![
        "main"@,
        "let"@,
        "emit"@,
        "match"@,
        "while"@,
        "if"@,
        "actor"@,
        "enum"@,
        "struct"@,
        "true"@,
        "false"@,
        "on"@,
        "single"@,
    ]
}

pub open spec fn is_keyword(text: Seq<char>) -> bool {
    keywords().contains(text)
}

/// The span between two offsets of a text.
pub open spec fn span(s: Seq<char>, from: int, to: int) -> Range {
    Range { start: loc_at(s, from), end: loc_at(s, to) }
}

/// The width of a span in characters.
pub open spec fn range_width(r: Range) -> int {
    r.end.pos - r.start.pos
}

/// The offset of the first `"` at or after `i`, or the length of the text
/// where there is none.
pub open spec fn string_close(s: Seq<char>, i: int) -> int
    decreases s.len() - i,
{
    if i >= s.len() {
        s.len() as int
    } else if s[i] == '"' {
        i
    } else {
        string_close(s, i + 1)
    }
}

/// A numeral as read from the text.
pub struct Numeral {
    /// The offset after the last character read.
    pub end: int,
    /// The digits, and the decimal point if there is one; separators are
    /// left out.
    pub text: Seq<char>,
    /// Whether a decimal point was read.
    pub fraction: bool,
    /// Whether the numeral was cut short by a second decimal point.
    pub surplus_point: bool,
}

/// The numeral that continues at offset `i`, where `fraction` says whether
/// a decimal point has been read already. Digits are kept, `_` is skipped,
/// the first `.` is kept, a second `.` is read and ends the numeral, and
/// any other character ends it unread.
pub open spec fn numeral(s: Seq<char>, i: int, fraction: bool) -> Numeral
    decreases s.len() - i,
{
    if i < 0 || i >= s.len() {
        Numeral { end: i, text: Seq::empty(), fraction, surplus_point: false }
    } else if is_digit(s[i]) {
        let rest = numeral(s, i + 1, fraction);
        Numeral { text: seq![s[i]] + rest.text, ..rest }
    } else if s[i] == '_' {
        numeral(s, i + 1, fraction)
    } else if s[i] == '.' {
        if fraction {
            Numeral { end: i + 1, text: Seq::empty(), fraction: true, surplus_point: true }
        } else {
            let rest = numeral(s, i + 1, true);
            Numeral { text: seq![s[i]] + rest.text, ..rest }
        }
    } else {
        Numeral { end: i, text: Seq::empty(), fraction, surplus_point: false }
    }
}

/// The value of a decimal digit.
pub open spec fn digit_value(c: char) -> int {
    c as int - '0' as int
}

/// The number that a run of decimal digits denotes.
pub open spec fn decimal_value(digits: Seq<char>) -> int
    decreases digits.len(),
{
    if digits.len() == 0 {
        0
    } else {
        decimal_value(digits.drop_last()) * 10 + digit_value(digits.last())
    }
}

/// The value that an integer token holds for a numeral of the given value:
/// the value itself, or the largest `i32` where it is beyond that.
pub open spec fn saturated(value: int) -> int {
    if value > i32::MAX {
        i32::MAX as int
    } else {
        value
    }
}

/// The offset of the first character at or after `i` that cannot be part
/// of an identifier, or the length of the text.
pub open spec fn ident_end(s: Seq<char>, i: int) -> int
    decreases s.len() - i,
{
    if i < 0 || i >= s.len() {
        i
    } else if is_ident_char(s[i]) {
        ident_end(s, i + 1)
    } else {
        i
    }
}

/// The end of the operator that starts at `start` and has been read up to
/// `i`: it stops at the end of the text, once what has been read is a
/// standalone operator, or before a character that no operator holds.
pub open spec fn operator_end(s: Seq<char>, start: int, i: int) -> int
    decreases s.len() - i,
{
    if i < start || i >= s.len() {
        i
    } else if is_standalone(s.subrange(start, i)) {
        i
    } else if is_operator_char(s[i]) {
        operator_end(s, start, i + 1)
    } else {
        i
    }
}

/// The offset after the first newline at or after `i`, or the length of
/// the text: where a line comment ends.
pub open spec fn line_comment_end(s: Seq<char>, i: int) -> int
    decreases s.len() - i,
{
    if i >= s.len() {
        s.len() as int
    } else if s[i] == '\n' {
        i + 1
    } else {
        line_comment_end(s, i + 1)
    }
}

/// The offset after the first `*/` at or after `i`, or the length of the
/// text: where a block comment ends.
pub open spec fn block_comment_end(s: Seq<char>, i: int) -> int
    decreases s.len() - i,
{
    if i >= s.len() {
        s.len() as int
    } else if s[i] == '*' && i + 1 < s.len() && s[i + 1] == '/' {
        i + 2
    } else {
        block_comment_end(s, i + 1)
    }
}

/// Whether a line comment starts at `p`.
pub open spec fn at_line_comment(s: Seq<char>, p: int) -> bool {
    0 <= p && p + 1 < s.len() && s[p] == '/' && s[p + 1] == '/'
}

/// Whether a block comment starts at `p`.
pub open spec fn at_block_comment(s: Seq<char>, p: int) -> bool {
    0 <= p && p + 1 < s.len() && s[p] == '/' && s[p + 1] == '*'
}

/// The offset of the first character at or after `p` that is neither blank
/// nor inside a comment, or the length of the text. A block comment is
/// searched for its end from the character after its `/`.
pub open spec fn skip_trivia(s: Seq<char>, p: int) -> int
    decreases s.len() - p,
{
    if p < 0 || p >= s.len() {
        p
    } else if at_line_comment(s, p) {
        let q = line_comment_end(s, p + 2);
        if p < q <= s.len() {
            skip_trivia(s, q)
        } else {
            p
        }
    } else if at_block_comment(s, p) {
        let q = block_comment_end(s, p + 1);
        if p < q <= s.len() {
            skip_trivia(s, q)
        } else {
            p
        }
    } else if is_blank(s[p]) {
        skip_trivia(s, p + 1)
    } else {
        p
    }
}

/// What one scanning step yields.
pub struct Scan {
    /// The token, if the step produced one.
    pub token: Option<TokenView>,
    /// The errors that the step recorded, in order.
    pub errors: Seq<ErrorView>,
    /// The offset at which the lexeme starts, after blanks and comments.
    pub start: int,
    /// The offset that the cursor has reached.
    pub end: int,
}

/// A string literal whose opening quote is at `q`. Its span covers the
/// characters between the quotes. Without a closing quote the literal runs
/// to the end of the text and an error is recorded over the same span.
pub open spec fn string_lexeme(s: Seq<char>, q: int) -> Scan {
    let close = string_close(s, q + 1);
    let range = span(s, q + 1, close);
    let token = TokenView { range, val: TokenValue::Str(s.subrange(q + 1, close)) };
    if close < s.len() {
        Scan { token: Some(token), errors: Seq::empty(), start: q, end: close + 1 }
    } else {
        Scan {
            token: Some(token),
            errors: seq![ErrorView { range, msg: ErrorType::EndOfStr.message_text() }],
            start: q,
            end: close,
        }
    }
}

/// A numeric literal that starts at `q`. With a decimal point it is a
/// float, which holds the numeral's text; a second point is read, ends the
/// literal and is recorded as an error. Without a point it is an integer;
/// a value beyond `i32` is held as the largest `i32` and recorded as an
/// error.
pub open spec fn number_lexeme(s: Seq<char>, q: int) -> Scan {
    let n = numeral(s, q, false);
    let range = span(s, q, n.end);
    if n.fraction {
        Scan {
            token: Some(TokenView { range, val: TokenValue::Float(n.text) }),
            errors: if n.surplus_point {
                seq![ErrorView { range, msg: ErrorType::DecimalPoint.message_text() }]
            } else {
                Seq::empty()
            },
            start: q,
            end: n.end,
        }
    } else {
        let value = decimal_value(n.text);
        Scan {
            token: Some(TokenView { range, val: TokenValue::Int(saturated(value)) }),
            errors: if value > i32::MAX {
                seq![ErrorView { range, msg: ErrorType::InvalidDigit.message_text() }]
            } else {
                Seq::empty()
            },
            start: q,
            end: n.end,
        }
    }
}

/// What a word is: a boolean, a keyword or an identifier.
pub open spec fn word_value(text: Seq<char>) -> TokenValue {
    if text == "true"@ {
        TokenValue::Bool(true)
    } else if text == "false"@ {
        TokenValue::Bool(false)
    } else if is_keyword(text) {
        TokenValue::Kw(text)
    } else {
        TokenValue::Var(text)
    }
}

/// A word that starts at `q`.
pub open spec fn word_lexeme(s: Seq<char>, q: int) -> Scan {
    let end = ident_end(s, q);
    Scan {
        token: Some(TokenView { range: span(s, q, end), val: word_value(s.subrange(q, end)) }),
        errors: Seq::empty(),
        start: q,
        end,
    }
}

/// The punctuation mark at `q`. Its span is the point before the mark.
pub open spec fn punctuation_lexeme(s: Seq<char>, q: int) -> Scan {
    Scan {
        token: Some(TokenView { range: span(s, q, q), val: TokenValue::Punc(s[q]) }),
        errors: Seq::empty(),
        start: q,
        end: q + 1,
    }
}

/// The operator that starts at `q`.
pub open spec fn operator_lexeme(s: Seq<char>, q: int) -> Scan {
    let end = operator_end(s, q, q);
    Scan {
        token: Some(TokenView { range: span(s, q, end), val: TokenValue::Op(s.subrange(q, end)) }),
        errors: Seq::empty(),
        start: q,
        end,
    }
}

/// A character at `q` that starts no lexeme: it is recorded as an error at
/// the point before it and passed over, and the step yields no token.
pub open spec fn stray_lexeme(s: Seq<char>, q: int) -> Scan {
    Scan {
        token: None,
        errors: seq![
            ErrorView { range: span(s, q, q), msg: ErrorType::InvalidCharacter(s[q]).message_text() },
        ],
        start: q,
        end: q + 1,
    }
}

/// The lexeme at `q`, chosen by the character there.
pub open spec fn lexeme(s: Seq<char>, q: int) -> Scan {
    let c = s[q];
    if c == '"' {
        string_lexeme(s, q)
    } else if is_digit(c) {
        number_lexeme(s, q)
    } else if is_operator_char(c) {
        operator_lexeme(s, q)
    } else if is_punctuation(c) {
        punctuation_lexeme(s, q)
    } else if is_ident_start(c) {
        word_lexeme(s, q)
    } else {
        stray_lexeme(s, q)
    }
}

/// One scanning step from offset `p`: blanks and comments are passed over,
/// then the lexeme that follows is read. At the end of the text the step
/// yields nothing.
pub open spec fn scan(s: Seq<char>, p: int) -> Scan {
    let q = skip_trivia(s, p);
    if q >= s.len() {
        Scan { token: None, errors: Seq::empty(), start: q, end: q }
    } else {
        lexeme(s, q)
    }
}

/// A string literal's closing quote, or the end of the text, is found at
/// or after the offset where the search starts.
pub proof fn lemma_string_close_bounds(s: Seq<char>, i: int)
    requires
        i <= s.len(),
    ensures
        i <= string_close(s, i) <= s.len(),
    decreases s.len() - i,
{
    if i < s.len() && s[i] != '"' {
        lemma_string_close_bounds(s, i + 1);
    }
}

/// A numeral ends inside the text, at or after the offset where it
/// continues, and after its first character where that is a digit.
pub proof fn lemma_numeral_bounds(s: Seq<char>, i: int, fraction: bool)
    requires
        0 <= i <= s.len(),
    ensures
        i <= numeral(s, i, fraction).end <= s.len(),
        i < s.len() && is_digit(s[i]) ==> i < numeral(s, i, fraction).end,
    decreases s.len() - i,
{
    if i < s.len() {
        if is_digit(s[i]) || s[i] == '_' {
            lemma_numeral_bounds(s, i + 1, fraction);
        } else if s[i] == '.' && !fraction {
            lemma_numeral_bounds(s, i + 1, true);
        }
    }
}

/// A word ends inside the text, at or after the offset where it
/// continues, and after its first character where that can be part of one.
pub proof fn lemma_ident_end_bounds(s: Seq<char>, i: int)
    requires
        0 <= i <= s.len(),
    ensures
        i <= ident_end(s, i) <= s.len(),
        i < s.len() && is_ident_char(s[i]) ==> i < ident_end(s, i),
    decreases s.len() - i,
{
    if i < s.len() && is_ident_char(s[i]) {
        lemma_ident_end_bounds(s, i + 1);
    }
}

/// An operator ends inside the text, at or after the offset up to which
/// it has been read.
pub proof fn lemma_operator_end_bounds(s: Seq<char>, start: int, i: int)
    requires
        0 <= start <= i <= s.len(),
    ensures
        i <= operator_end(s, start, i) <= s.len(),
    decreases s.len() - i,
{
    if i < s.len() && !is_standalone(s.subrange(start, i)) && is_operator_char(s[i]) {
        lemma_operator_end_bounds(s, start, i + 1);
    }
}

/// A line comment ends inside the text, at or after the offset where the
/// search for its newline starts.
pub proof fn lemma_line_comment_end_bounds(s: Seq<char>, i: int)
    requires
        i <= s.len(),
    ensures
        i <= line_comment_end(s, i) <= s.len(),
    decreases s.len() - i,
{
    if i < s.len() && s[i] != '\n' {
        lemma_line_comment_end_bounds(s, i + 1);
    }
}

/// A block comment ends inside the text, at or after the offset where the
/// search for its end starts.
pub proof fn lemma_block_comment_end_bounds(s: Seq<char>, i: int)
    requires
        i <= s.len(),
    ensures
        i <= block_comment_end(s, i) <= s.len(),
    decreases s.len() - i,
{
    if i < s.len() && !(s[i] == '*' && i + 1 < s.len() && s[i + 1] == '/') {
        lemma_block_comment_end_bounds(s, i + 1);
    }
}

/// Passing over blanks and comments never goes back and never leaves the
/// text, and stops at a character that starts neither.
pub proof fn lemma_skip_trivia_bounds(s: Seq<char>, p: int)
    requires
        0 <= p <= s.len(),
    ensures
        p <= skip_trivia(s, p) <= s.len(),
        skip_trivia(s, p) < s.len() ==> {
            &&& !is_blank(s[skip_trivia(s, p)])
            &&& !at_line_comment(s, skip_trivia(s, p))
            &&& !at_block_comment(s, skip_trivia(s, p))
        },
    decreases s.len() - p,
{
    if p < s.len() {
        if at_line_comment(s, p) {
            lemma_line_comment_end_bounds(s, p + 2);
            lemma_skip_trivia_bounds(s, line_comment_end(s, p + 2));
        } else if at_block_comment(s, p) {
            lemma_block_comment_end_bounds(s, p + 1);
            lemma_skip_trivia_bounds(s, block_comment_end(s, p + 1));
        } else if is_blank(s[p]) {
            lemma_skip_trivia_bounds(s, p + 1);
        }
    }
}

/// A scanning step never moves the cursor back and never past the end of
/// the text; before the end it moves the cursor on, and its lexeme starts
/// where the blanks and comments before it stop.
pub proof fn lemma_scan_advances(s: Seq<char>, p: int)
    requires
        0 <= p <= s.len(),
    ensures
        p <= scan(s, p).start <= scan(s, p).end <= s.len(),
        p < s.len() ==> p < scan(s, p).end,
        scan(s, p).start == skip_trivia(s, p),
        scan(s, p).token is Some ==> scan(s, p).start < scan(s, p).end,
{
    lemma_skip_trivia_bounds(s, p);
    let q = skip_trivia(s, p);
    if q < s.len() {
        let c = s[q];
        if c == '"' {
            lemma_string_close_bounds(s, q + 1);
        } else if is_digit(c) {
            lemma_numeral_bounds(s, q, false);
        } else if is_operator_char(c) {
            assert(!is_standalone(s.subrange(q, q)));
            lemma_operator_end_bounds(s, q, q + 1);
        } else if is_punctuation(c) {
        } else if is_ident_start(c) {
            lemma_ident_end_bounds(s, q);
        }
    }
}

/// The span of every token starts no later than it ends, in offset and in
/// line, and lies inside the lexeme that the step read.
pub proof fn lemma_token_range_ordered(s: Seq<char>, p: int)
    requires
        0 <= p <= s.len() < i32::MAX,
    ensures
        match scan(s, p).token {
            Some(t) => {
                &&& scan(s, p).start <= t.range.start.pos <= t.range.end.pos <= scan(s, p).end
                &&& t.range.start.line <= t.range.end.line
                &&& t.range.start == loc_at(s, t.range.start.pos as int)
                &&& t.range.end == loc_at(s, t.range.end.pos as int)
            },
            None => true,
        },
{
    lemma_skip_trivia_bounds(s, p);
    lemma_scan_advances(s, p);
    let q = skip_trivia(s, p);
    if q < s.len() {
        let c = s[q];
        if c == '"' {
            lemma_string_close_bounds(s, q + 1);
            lemma_span_ordered(s, q + 1, string_close(s, q + 1));
        } else if is_digit(c) {
            lemma_numeral_bounds(s, q, false);
            lemma_span_ordered(s, q, numeral(s, q, false).end);
        } else if is_operator_char(c) {
            lemma_operator_end_bounds(s, q, q);
            lemma_span_ordered(s, q, operator_end(s, q, q));
        } else if is_punctuation(c) {
            lemma_span_ordered(s, q, q);
        } else if is_ident_start(c) {
            lemma_ident_end_bounds(s, q);
            lemma_span_ordered(s, q, ident_end(s, q));
        }
    }
}

/// The span between two offsets of a text that positions can count starts
/// no later than it ends.
pub proof fn lemma_span_ordered(s: Seq<char>, from: int, to: int)
    requires
        0 <= from <= to <= s.len() < i32::MAX,
    ensures
        span(s, from, to).start.pos == from,
        span(s, from, to).end.pos == to,
        span(s, from, to).start.line <= span(s, from, to).end.line,
        range_width(span(s, from, to)) == to - from,
{
    crate::input_parser::lemma_position_bounds(s, from);
    crate::input_parser::lemma_position_bounds(s, to);
    crate::input_parser::lemma_line_monotonic(s, from, to);
}

/// Whether a text is made of decimal digits only.
pub open spec fn is_digits(text: Seq<char>) -> bool {
    forall|j: int| 0 <= j < text.len() ==> is_digit(#[trigger] text[j])
}

/// Whether a text is digits with one decimal point at offset `point`.
pub open spec fn has_point_at(text: Seq<char>, point: int) -> bool {
    &&& 0 <= point < text.len()
    &&& text[point] == '.'
    &&& forall|j: int| 0 <= j < text.len() && j != point ==> is_digit(#[trigger] text[j])
}

/// Whether a text is the numeral of a float: digits, of which there is at
/// least one in front, with exactly one decimal point among them.
pub open spec fn is_float_numeral(text: Seq<char>) -> bool {
    exists|point: int| 0 < point && #[trigger] has_point_at(text, point)
}

/// The text of a numeral holds digits and at most one decimal point: none
/// where no point was read, and exactly one where one was read while the
/// numeral was being read from `i` on.
pub proof fn lemma_numeral_text(s: Seq<char>, i: int, fraction: bool)
    requires
        0 <= i <= s.len(),
    ensures
        fraction ==> numeral(s, i, fraction).fraction,
        fraction || !numeral(s, i, fraction).fraction ==> is_digits(numeral(s, i, fraction).text),
        !fraction && numeral(s, i, fraction).fraction ==> exists|point: int|
            has_point_at(numeral(s, i, fraction).text, point),
        i < s.len() && is_digit(s[i]) ==> numeral(s, i, fraction).text.len() > 0 && numeral(
            s,
            i,
            fraction,
        ).text[0] == s[i],
    decreases s.len() - i,
{
    if i < s.len() {
        let whole = numeral(s, i, fraction);
        if is_digit(s[i]) {
            let rest = numeral(s, i + 1, fraction);
            lemma_numeral_text(s, i + 1, fraction);
            assert(whole.text == seq![s[i]] + rest.text);
            if !fraction && whole.fraction {
                let point = choose|point: int| has_point_at(rest.text, point);
                assert(has_point_at(whole.text, point + 1)) by {
                    assert forall|j: int| 0 <= j < whole.text.len() && j != point + 1 implies is_digit(
                        #[trigger] whole.text[j],
                    ) by {
                        if j > 0 {
                            assert(whole.text[j] == rest.text[j - 1]);
                        }
                    }
                }
            } else {
                assert forall|j: int| 0 <= j < whole.text.len() implies is_digit(
                    #[trigger] whole.text[j],
                ) by {
                    if j > 0 {
                        assert(whole.text[j] == rest.text[j - 1]);
                    }
                }
            }
        } else if s[i] == '_' {
            lemma_numeral_text(s, i + 1, fraction);
        } else if s[i] == '.' && !fraction {
            let rest = numeral(s, i + 1, true);
            lemma_numeral_text(s, i + 1, true);
            assert(whole.text == seq![s[i]] + rest.text);
            assert(has_point_at(whole.text, 0)) by {
                assert forall|j: int| 0 <= j < whole.text.len() && j != 0 implies is_digit(
                    #[trigger] whole.text[j],
                ) by {
                    assert(whole.text[j] == rest.text[j - 1]);
                }
            }
        }
    }
}

/// What a numeric token holds. A float holds a numeral that starts with a
/// digit and has exactly one decimal point, all else being digits. An
/// integer holds the value of a run of digits, or the largest `i32` where
/// that is less, and so is never negative.
pub proof fn lemma_number_token(s: Seq<char>, q: int)
    requires
        0 <= q < s.len(),
        is_digit(s[q]),
    ensures
        number_lexeme(s, q).token is Some,
        number_lexeme(s, q).token->0.val is Float || number_lexeme(s, q).token->0.val is Int,
        number_lexeme(s, q).token->0.val matches TokenValue::Float(text) ==> is_float_numeral(
            text,
        ),
        number_lexeme(s, q).token->0.val matches TokenValue::Int(value) ==> {
            &&& is_digits(numeral(s, q, false).text)
            &&& value == saturated(decimal_value(numeral(s, q, false).text))
            &&& 0 <= value <= i32::MAX
        },
{
    let n = numeral(s, q, false);
    let token = number_lexeme(s, q).token->0;
    lemma_numeral_text(s, q, false);
    if n.fraction {
        let point = choose|point: int| has_point_at(n.text, point);
        assert(0 < point && has_point_at(n.text, point));
        assert(is_float_numeral(n.text));
        assert(token.val == TokenValue::Float(n.text));
    } else {
        lemma_digits_value(n.text);
        assert(token.val == TokenValue::Int(saturated(decimal_value(n.text))));
    }
}

/// A run of decimal digits never denotes a negative number.
pub proof fn lemma_digits_value(digits: Seq<char>)
    requires
        is_digits(digits),
    ensures
        decimal_value(digits) >= 0,
    decreases digits.len(),
{
    if digits.len() > 0 {
        lemma_digits_value(digits.drop_last());
    }
}

} // verus!
