//! Tokens, their spans, and the scanner that produces them.

use crate::error::{caret_row, push_caret_row, Describe, ErrorType};
use crate::grammar::{
    at_block_comment, at_line_comment, block_comment_end, decimal_value, ident_end, is_blank,
    is_digit, is_ident_char, is_ident_start, is_keyword, is_punctuation, is_standalone, keywords,
    lemma_digits_value, lexeme, line_comment_end, number_lexeme, numeral, operator_chars, operator_end,
    operator_lexeme, punctuation_lexeme, saturated, scan, skip_trivia, span, standalone_chars,
    string_close, string_lexeme, word_lexeme, ErrorView, Numeral, Scan, TokenValue, TokenView,
};
use crate::input_parser::{
    line_at, line_count, line_start, line_stop, source_line, InputParser, LoC,
};
use crate::text::{decimal, push_char, push_decimal, text_equals};
use vstd::prelude::*;
use vstd::std_specs::iter::IteratorSpec;

verus! {

/// A span of the source: where it starts and where it ends.
#[derive(Clone, Copy, Debug, PartialEq, Eq, Structural)]
pub struct Range {
    pub start: LoC,
    pub end: LoC,
}

/// The text of a span: `(line:col - line:col)`.
pub open spec fn range_text(r: Range) -> Seq<char> {
    seq!['('] + decimal(r.start.line as int) + seq![':'] + decimal(r.start.col as int) + seq![
        ' ',
        '-',
        ' ',
    ] + decimal(r.end.line as int) + seq![':'] + decimal(r.end.col as int) + seq![')']
}

impl Range {
    /// Renders the span as `(line:col - line:col)`.
    pub fn to_string(&self) -> (s: String)
        ensures
            s@ == range_text(*self),
    {
        let mut s = String::new();
        self.write_to(&mut s);
        s
    }

    /// Appends the span's text to `out`.
    pub(crate) fn write_to(&self, out: &mut String)
        ensures
            final(out)@ == old(out)@ + range_text(*self),
    {
        push_char(out, '(');
        push_decimal(out, self.start.line);
        push_char(out, ':');
        push_decimal(out, self.start.col);
        push_char(out, ' ');
        push_char(out, '-');
        push_char(out, ' ');
        push_decimal(out, self.end.line);
        push_char(out, ':');
        push_decimal(out, self.end.col);
        push_char(out, ')');
        assert(out@ =~= old(out)@ + range_text(*self));
    }
}

/// What a token is, with what it holds. A float holds the text of its
/// numeral: digits, one decimal point, digits.
#[derive(Clone, Debug, PartialEq)]
pub enum TokenType {
    Str(String),
    Float(String),
    Int(i32),
    Kw(String),
    Bool(bool),
    Var(String),
    Op(String),
    Punc(char),
}

impl View for TokenType {
    type V = TokenValue;

    open spec fn view(&self) -> TokenValue {
        match self {
            TokenType::Str(text) => TokenValue::Str(text@),
            TokenType::Float(text) => TokenValue::Float(text@),
            TokenType::Int(value) => TokenValue::Int(*value as int),
            TokenType::Kw(text) => TokenValue::Kw(text@),
            TokenType::Bool(value) => TokenValue::Bool(*value),
            TokenType::Var(text) => TokenValue::Var(text@),
            TokenType::Op(text) => TokenValue::Op(text@),
            TokenType::Punc(mark) => TokenValue::Punc(*mark),
        }
    }
}

/// An error that the scanner recorded: where, and what in words.
#[derive(Clone, Debug, PartialEq)]
pub struct Error {
    pub range: Range,
    pub msg: String,
}

impl View for Error {
    type V = ErrorView;

    open spec fn view(&self) -> ErrorView {
        ErrorView { range: self.range, msg: self.msg@ }
    }
}

/// The rendering of a recorded error against the source text: the line on
/// which the span starts, a row that marks the columns from the start
/// column to the end column, then the message and the span.
pub open spec fn error_rendering(e: ErrorView, src: Seq<char>) -> Seq<char> {
    source_line(src, e.range.start.line as int) + seq!['\n', '\n'] + caret_row(
        e.range.end.col + 1,
        e.range.start.col as int,
        seq!['^'],
    ) + seq!['\n'] + e.msg + seq![' '] + range_text(e.range)
}

/// The text of line `number` of `source`.
fn nth_line(source: &str, number: i32) -> (line: String)
    requires
        1 <= number <= line_count(source@),
    ensures
        line@ == source_line(source@, number as int),
{
    let ghost src = source@;
    let mut it = source.chars();
    let mut line = String::new();
    let mut current: i32 = 1;
    let ghost mut k: int = 0;
    assert(src.skip(0) =~= src);
    assert(line@ =~= src.subrange(0, 0));
    loop
        invariant_except_break
            src == source@,
            it.decrease() is Some,
            0 <= k <= src.len(),
            it.remaining() == src.skip(k),
            1 <= current <= number <= line_count(src),
            current == line_at(src, k),
            0 <= line_start(src, current as int) <= k,
            line_stop(src, line_start(src, current as int)) == line_stop(src, k),
            current == number ==> line@ == src.subrange(line_start(src, number as int), k),
            current < number ==> line@ == Seq::<char>::empty(),
        ensures
            line@ == source_line(src, number as int),
        decreases it.decrease()->0,
    {
        match it.next() {
            Some(c) => {
                assert(c == src[k]);
                assert(src.skip(k).drop_first() =~= src.skip(k + 1));
                if c == '\n' {
                    if current == number {
                        break ;
                    }
                    current += 1;
                } else if current == number {
                    push_char(&mut line, c);
                    assert(line@ =~= src.subrange(line_start(src, number as int), k + 1));
                }
                proof {
                    k = k + 1;
                    if current == number && c == '\n' {
                        assert(line@ =~= src.subrange(line_start(src, number as int), k));
                    }
                }
            },
            None => {
                assert(k == src.len());
                break ;
            },
        }
    }
    line
}

impl Error {
    /// Renders the error against the source text: the line on which the
    /// span starts, a row of markers, the message and the span.
    pub fn format(&self, source: &str) -> (out: String)
        requires
            1 <= self.range.start.line <= line_count(source@),
        ensures
            out@ == error_rendering(self@, source@),
    {
        proof {
            reveal_strlit("^");
            assert("^"@ =~= seq!['^']);
        }
        let mut out = nth_line(source, self.range.start.line);
        push_char(&mut out, '\n');
        push_char(&mut out, '\n');
        if self.range.end.col >= 0 {
            push_caret_row(&mut out, self.range.end.col as usize, self.range.start.col, "^");
        } else {
            assert(out@ + caret_row(
                self.range.end.col + 1,
                self.range.start.col as int,
                seq!['^'],
            ) =~= out@);
        }
        push_char(&mut out, '\n');
        out.append(self.msg.as_str());
        push_char(&mut out, ' ');
        self.range.write_to(&mut out);
        assert(out@ =~= error_rendering(self@, source@));
        out
    }
}

/// A lexical unit: what it is and where it stands.
#[derive(Clone, Debug, PartialEq)]
pub struct Token {
    pub range: Range,
    pub val: TokenType,
}

impl View for Token {
    type V = TokenView;

    open spec fn view(&self) -> TokenView {
        TokenView { range: self.range, val: self.val@ }
    }
}

/// The recorded errors as plain values.
pub open spec fn error_views(errors: Seq<Error>) -> Seq<ErrorView> {
    Seq::new(errors.len(), |i: int| errors[i]@)
}

/// A token, if any, as plain values.
pub open spec fn token_view(token: Option<Token>) -> Option<TokenView> {
    match token {
        Some(t) => Some(t@),
        None => None,
    }
}

/// The texts of a list of words.
pub open spec fn word_texts(words: Seq<&str>) -> Seq<Seq<char>> {
    Seq::new(words.len(), |i: int| words[i]@)
}

/// What a scanner is at a moment: the text, how far the cursor has come,
/// the token that was looked at and not yet taken, and the errors so far.
pub struct ScannerState {
    pub source: Seq<char>,
    pub offset: int,
    pub lookahead: Option<TokenView>,
    pub errors: Seq<ErrorView>,
}

/// The state after one scanning step from `st`, with the token it yields.
pub open spec fn scan_step(st: ScannerState) -> (ScannerState, Option<TokenView>) {
    let sc = scan(st.source, st.offset);
    (ScannerState { offset: sc.end, errors: st.errors + sc.errors, ..st }, sc.token)
}

/// Taking the next token: the one that was looked at, if there is one,
/// else the one that a scanning step yields.
pub open spec fn consume_step(st: ScannerState) -> (ScannerState, Option<TokenView>) {
    if st.lookahead is Some {
        (ScannerState { lookahead: None, ..st }, st.lookahead)
    } else {
        scan_step(st)
    }
}

/// Looking at the next token: a scanning step whose token is kept, unless
/// one is kept already.
pub open spec fn peek_step(st: ScannerState) -> ScannerState {
    if st.lookahead is Some {
        st
    } else {
        let (next, token) = scan_step(st);
        ScannerState { lookahead: token, ..next }
    }
}

/// Whether looking at the next token settles: it yields a token to keep,
/// or the text is exhausted. It does not where the step only passed over
/// a stray character and more text follows.
pub open spec fn peek_settles(st: ScannerState) -> bool {
    peek_step(st).lookahead is Some || peek_step(st).offset >= peek_step(st).source.len()
}

/// Looking twice is looking once: where the first look settles, a second
/// look changes nothing, so it shows the same token and leaves the cursor
/// and the errors as they are.
pub proof fn lemma_peek_twice(st: ScannerState)
    requires
        peek_settles(st),
    ensures
        peek_step(peek_step(st)) == peek_step(st),
{
    let once = peek_step(st);
    if once.lookahead is None {
        assert(skip_trivia(once.source, once.offset) == once.offset);
        assert(once.errors + Seq::<ErrorView>::empty() =~= once.errors);
    }
}

/// Taking after looking gives the token that was looked at and moves
/// nothing more: the cursor and the errors stay as the look left them, so
/// a look followed by a take advances exactly once, as a take alone does.
pub proof fn lemma_consume_after_peek(st: ScannerState)
    requires
        peek_settles(st),
    ensures
        consume_step(peek_step(st)).1 == peek_step(st).lookahead,
        consume_step(peek_step(st)).0 == (ScannerState { lookahead: None, ..peek_step(st) }),
        st.lookahead is None ==> consume_step(peek_step(st)) == consume_step(st),
{
    let once = peek_step(st);
    if once.lookahead is None {
        assert(skip_trivia(once.source, once.offset) == once.offset);
        assert(once.errors + Seq::<ErrorView>::empty() =~= once.errors);
    }
}

/// A take never moves the cursor back, never loses a recorded error, and
/// leaves nothing looked at.
pub proof fn lemma_consume_monotonic(st: ScannerState)
    requires
        0 <= st.offset <= st.source.len(),
    ensures
        st.offset <= consume_step(st).0.offset <= st.source.len(),
        consume_step(st).0.source == st.source,
        consume_step(st).0.lookahead is None,
        consume_step(st).0.errors.len() >= st.errors.len(),
        consume_step(st).0.errors.subrange(0, st.errors.len() as int) == st.errors,
{
    crate::grammar::lemma_scan_advances(st.source, st.offset);
    assert(consume_step(st).0.errors.subrange(0, st.errors.len() as int) =~= st.errors);
}

/// Rendering is a function of the error and the source alone: two
/// renderings of the same error against the same source are the same text.
pub proof fn lemma_format_repeatable(
    first: Seq<char>,
    second: Seq<char>,
    e: ErrorView,
    src: Seq<char>,
)
    requires
        first == error_rendering(e, src),
        second == error_rendering(e, src),
    ensures
        first == second,
{
}

/// The scanner: a cursor over the source, the fixed sets of keywords and
/// operator characters, one token of lookahead, and the errors found.
pub struct Tokenizer<'a> {
    keywords: Vec<&'a str>,
    operators: Vec<char>,
    standalone_operators: Vec<char>,
    current: Option<Token>,
    pub errors: Vec<Error>,
    pub input: InputParser,
}

/// Whether `list` holds `c`.
fn holds(list: &Vec<char>, c: char) -> (found: bool)
    ensures
        found == list@.contains(c),
{
    let mut i: usize = 0;
    while i < list.len()
        invariant
            i <= list.len(),
            forall|j: int| 0 <= j < i ==> list@[j] != c,
        decreases list.len() - i,
    {
        if list[i] == c {
            return true;
        }
        i += 1;
    }
    false
}

/// Whether `c` is a decimal digit.
fn digit_at(c: char) -> (b: bool)
    ensures
        b == is_digit(c),
{
    c >= '0' && c <= '9'
}

/// Whether `c` can be part of a word.
fn ident_char_at(c: char) -> (b: bool)
    ensures
        b == is_ident_char(c),
{
    (c >= 'a' && c <= 'z') || (c >= 'A' && c <= 'Z') || (c >= '0' && c <= '9') || c == '_'
}

/// Whether `c` can start a word.
fn ident_start_at(c: char) -> (b: bool)
    ensures
        b == is_ident_start(c),
{
    (c >= 'a' && c <= 'z') || (c >= 'A' && c <= 'Z') || c == '_'
}

/// Whether `c` is a punctuation mark.
fn punctuation_at(c: char) -> (b: bool)
    ensures
        b == is_punctuation(c),
{
    c == ',' || c == ':' || c == ';' || c == '{' || c == '}' || c == '[' || c == ']' || c == '('
        || c == ')'
}

/// Whether `c` is a blank.
fn blank_at(c: char) -> (b: bool)
    ensures
        b == is_blank(c),
{
    c == ' ' || c == '\n' || c == '\t'
}

impl<'a> Tokenizer<'a> {
    /// The scanner's state as plain values.
    pub closed spec fn state(&self) -> ScannerState {
        ScannerState {
            source: self.input.source(),
            offset: self.input.offset(),
            lookahead: token_view(self.current),
            errors: error_views(self.errors@),
        }
    }

    /// The cursor is well formed and the fixed sets are the grammar's.
    pub closed spec fn wf(&self) -> bool {
        &&& self.input.wf()
        &&& self.operators@ == operator_chars()
        &&& self.standalone_operators@ == standalone_chars()
        &&& word_texts(self.keywords@) == keywords()
    }

    /// The fixed sets and the lookahead are those of `before`.
    spec fn same_setup(&self, before: &Self) -> bool {
        &&& self.keywords == before.keywords
        &&& self.operators == before.operators
        &&& self.standalone_operators == before.standalone_operators
        &&& self.current == before.current
    }

    /// Only the cursor has moved since `before`, over the same text.
    spec fn moved_from(&self, before: &Self) -> bool {
        &&& self.same_setup(before)
        &&& self.errors == before.errors
        &&& self.input.wf()
        &&& self.input.source() == before.input.source()
    }

    /// The scanner has read the lexeme `sc` since `before`: the cursor
    /// stands at its end and its errors have been recorded.
    spec fn has_read(&self, before: &Self, sc: Scan) -> bool {
        &&& self.same_setup(before)
        &&& self.input.wf()
        &&& self.input.source() == before.input.source()
        &&& self.input.offset() == sc.end
        &&& error_views(self.errors@) == error_views(before.errors@) + sc.errors
    }

    /// A scanner at the start of `code`, with nothing looked at and no
    /// error recorded.
    pub fn new(code: &'a str) -> (t: Self)
        requires
            code@.len() < i32::MAX,
        ensures
            t.wf(),
            t.state() == (ScannerState {
                source: code@,
                offset: 0,
                lookahead: None,
                errors: Seq::empty(),
            }),
    {
        let t = Tokenizer {
            keywords: vec![
                "main",
                "let",
                "emit",
                "match",
                "while",
                "if",
                "actor",
                "enum",
                "struct",
                "true",
                "false",
                "on",
                "single",
            ],
            operators: vec!['+', '-', '>', '<', '=', '!', '%', '|', '&', '.', '?'],
            standalone_operators: vec!['?'],
            current: None,
            errors: vec![],
            input: InputParser::new(code),
        };
        assert(word_texts(t.keywords@) =~= keywords());
        assert(t.operators@ =~= operator_chars());
        assert(t.standalone_operators@ =~= standalone_chars());
        assert(error_views(t.errors@) =~= Seq::empty());
        t
    }

    /// The errors recorded so far, in the order in which they were found.
    pub fn errors(&self) -> (list: &Vec<Error>)
        ensures
            error_views(list@) == self.state().errors,
    {
        &self.errors
    }

    /// Whether the cursor has reached the end of the text. With `None` from
    /// `consume` this tells the end of the text from a stray character that
    /// was passed over.
    pub fn is_eof(&self) -> (b: bool)
        ensures
            b == (self.state().offset >= self.state().source.len()),
    {
        self.input.is_eof()
    }

    /// Records an error with the given message over the given span.
    pub fn error(&mut self, msg: String, start: LoC, end: LoC)
        ensures
            final(self).wf() == old(self).wf(),
            final(self).state() == (ScannerState {
                errors: old(self).state().errors.push(
                    ErrorView { range: Range { start, end }, msg: msg@ },
                ),
                ..old(self).state()
            }),
    {
        self.record(msg, start, end);
    }

    fn record(&mut self, msg: String, start: LoC, end: LoC)
        ensures
            final(self).same_setup(old(self)),
            final(self).input == old(self).input,
            error_views(final(self).errors@) == error_views(old(self).errors@).push(
                ErrorView { range: Range { start, end }, msg: msg@ },
            ),
    {
        self.errors.push(Error { msg, range: Range { start, end } });
        assert(error_views(self.errors@) =~= error_views(old(self).errors@).push(
            ErrorView { range: Range { start, end }, msg: msg@ },
        ));
    }

    /// Whether `word` is one of the keywords.
    fn is_reserved(&self, word: &str) -> (b: bool)
        requires
            self.wf(),
        ensures
            b == is_keyword(word@),
    {
        let mut i: usize = 0;
        while i < self.keywords.len()
            invariant
                i <= self.keywords.len(),
                word_texts(self.keywords@) == keywords(),
                forall|j: int| 0 <= j < i ==> keywords()[j] != word@,
            decreases self.keywords.len() - i,
        {
            assert(keywords()[i as int] == self.keywords@[i as int]@);
            if text_equals(self.keywords[i], word) {
                return true;
            }
            i += 1;
        }
        false
    }

    /// Reads a string literal; the cursor stands at its opening quote.
    fn parse_str(&mut self) -> (t: Token)
        requires
            old(self).wf(),
            old(self).input.spec_peek(0) == Some('"'),
        ensures
            final(self).has_read(
                old(self),
                string_lexeme(old(self).input.source(), old(self).input.offset()),
            ),
            Some(t@) == string_lexeme(old(self).input.source(), old(self).input.offset()).token,
    {
        let ghost s = self.input.source();
        let ghost q = self.input.offset();
        self.input.consume();
        let start = self.input.loc();
        let mut text = String::new();
        let mut more = true;
        assert(text@ =~= s.subrange(q + 1, q + 1));
        while more
            invariant
                self.moved_from(old(self)),
                s == self.input.source(),
                0 <= q,
                q + 1 <= self.input.offset() <= s.len(),
                string_close(s, q + 1) == string_close(s, self.input.offset()),
                text@ == s.subrange(q + 1, self.input.offset()),
                !more ==> string_close(s, self.input.offset()) == self.input.offset(),
            decreases s.len() - self.input.offset() + (if more { 1int } else { 0int }),
        {
            let ghost at = self.input.offset();
            match self.input.peek(0) {
                Some(c) => {
                    if c == '"' {
                        more = false;
                    } else {
                        self.input.consume();
                        push_char(&mut text, c);
                        assert(text@ =~= s.subrange(q + 1, at + 1));
                    }
                },
                None => {
                    more = false;
                },
            }
        }
        let end = self.input.loc();
        match self.input.consume() {
            Some(_) => {
                assert(error_views(self.errors@) =~= error_views(old(self).errors@)
                    + Seq::<ErrorView>::empty());
            },
            None => {
                self.record(ErrorType::EndOfStr.to_string(), start, end);
                assert(error_views(self.errors@) =~= error_views(old(self).errors@) + seq![
                    ErrorView {
                        range: Range { start, end },
                        msg: ErrorType::EndOfStr.message_text(),
                    },
                ]);
            },
        }
        Token { val: TokenType::Str(text), range: Range { start, end } }
    }

    /// Reads a numeric literal; the cursor stands at its first digit.
    fn parse_num(&mut self) -> (t: Token)
        requires
            old(self).wf(),
        ensures
            final(self).has_read(
                old(self),
                number_lexeme(old(self).input.source(), old(self).input.offset()),
            ),
            Some(t@) == number_lexeme(old(self).input.source(), old(self).input.offset()).token,
    {
        let ghost s = self.input.source();
        let ghost q = self.input.offset();
        let ghost whole = numeral(s, q, false);
        let mut dot = false;
        let mut surplus = false;
        let mut value: i32 = 0;
        let mut overflow = false;
        let mut num = String::new();
        let start = self.input.loc();
        let mut more = true;
        assert(num@ + whole.text =~= whole.text);
        while more
            invariant
                self.moved_from(old(self)),
                s == self.input.source(),
                0 <= q <= self.input.offset() <= s.len(),
                whole == numeral(s, q, false),
                whole.end == numeral_tail(s, self.input.offset(), more, dot, surplus).end,
                whole.text == num@ + numeral_tail(s, self.input.offset(), more, dot, surplus).text,
                whole.fraction == numeral_tail(s, self.input.offset(), more, dot, surplus).fraction,
                whole.surplus_point == numeral_tail(
                    s,
                    self.input.offset(),
                    more,
                    dot,
                    surplus,
                ).surplus_point,
                more ==> !surplus,
                !dot ==> forall|i: int| 0 <= i < num@.len() ==> is_digit(#[trigger] num@[i]),
                !dot ==> value == saturated(decimal_value(num@)),
                !dot ==> overflow == (decimal_value(num@) > i32::MAX),
            decreases s.len() - self.input.offset() + (if more { 1int } else { 0int }),
        {
            let ghost at = self.input.offset();
            let ghost before = num@;
            let ghost tail = numeral(s, at, dot);
            match self.input.peek(0) {
                Some(ch) => {
                    if digit_at(ch) {
                        self.input.consume();
                        push_char(&mut num, ch);
                        proof {
                            let rest = numeral(s, at + 1, dot);
                            assert(tail.text == seq![ch] + rest.text);
                            assert(num@ + rest.text =~= before + tail.text);
                            assert(num@.drop_last() =~= before);
                            if !dot {
                                lemma_digits_value(before);
                            }
                        }
                        if !dot {
                            let d: i64 = (ch as u8 - 48u8) as i64;
                            let next: i64 = value as i64 * 10 + d;
                            if overflow || next > i32::MAX as i64 {
                                overflow = true;
                                value = i32::MAX;
                            } else {
                                value = next as i32;
                            }
                        }
                    } else if ch == '.' {
                        self.input.consume();
                        if dot {
                            surplus = true;
                            more = false;
                            assert(num@ + Seq::<char>::empty() =~= before + tail.text);
                        } else {
                            dot = true;
                            push_char(&mut num, ch);
                            proof {
                                let rest = numeral(s, at + 1, true);
                                assert(num@ + rest.text =~= before + tail.text);
                            }
                        }
                    } else if ch == '_' {
                        self.input.consume();
                    } else {
                        more = false;
                    }
                },
                None => {
                    more = false;
                },
            }
        }
        assert(num@ =~= whole.text);
        let end = self.input.loc();
        let range = Range { start, end };
        if dot {
            if surplus {
                self.record(ErrorType::DecimalPoint.to_string(), start, end);
                assert(error_views(self.errors@) =~= error_views(old(self).errors@) + seq![
                    ErrorView { range, msg: ErrorType::DecimalPoint.message_text() },
                ]);
            } else {
                assert(error_views(self.errors@) =~= error_views(old(self).errors@)
                    + Seq::<ErrorView>::empty());
            }
            Token { val: TokenType::Float(num), range }
        } else {
            if overflow {
                self.record(ErrorType::InvalidDigit.to_string(), start, end);
                assert(error_views(self.errors@) =~= error_views(old(self).errors@) + seq![
                    ErrorView { range, msg: ErrorType::InvalidDigit.message_text() },
                ]);
            } else {
                assert(error_views(self.errors@) =~= error_views(old(self).errors@)
                    + Seq::<ErrorView>::empty());
            }
            Token { val: TokenType::Int(value), range }
        }
    }

    /// Reads a word; the cursor stands at its first character.
    fn parse_ident(&mut self) -> (t: Token)
        requires
            old(self).wf(),
        ensures
            final(self).has_read(
                old(self),
                word_lexeme(old(self).input.source(), old(self).input.offset()),
            ),
            Some(t@) == word_lexeme(old(self).input.source(), old(self).input.offset()).token,
    {
        let ghost s = self.input.source();
        let ghost q = self.input.offset();
        let mut ident = String::new();
        let start = self.input.loc();
        let mut more = true;
        assert(ident@ =~= s.subrange(q, q));
        while more
            invariant
                self.moved_from(old(self)),
                s == self.input.source(),
                0 <= q <= self.input.offset() <= s.len(),
                ident_end(s, q) == ident_end(s, self.input.offset()),
                ident@ == s.subrange(q, self.input.offset()),
                !more ==> ident_end(s, self.input.offset()) == self.input.offset(),
            decreases s.len() - self.input.offset() + (if more { 1int } else { 0int }),
        {
            let ghost at = self.input.offset();
            match self.input.peek(0) {
                Some(ch) => {
                    if ident_char_at(ch) {
                        self.input.consume();
                        push_char(&mut ident, ch);
                        assert(ident@ =~= s.subrange(q, at + 1));
                    } else {
                        more = false;
                    }
                },
                None => {
                    more = false;
                },
            }
        }
        let end = self.input.loc();
        let range = Range { start, end };
        assert(error_views(self.errors@) =~= error_views(old(self).errors@)
            + Seq::<ErrorView>::empty());
        if text_equals(ident.as_str(), "true") {
            Token { val: TokenType::Bool(true), range }
        } else if text_equals(ident.as_str(), "false") {
            Token { val: TokenType::Bool(false), range }
        } else if self.is_reserved(ident.as_str()) {
            Token { val: TokenType::Kw(ident), range }
        } else {
            Token { val: TokenType::Var(ident), range }
        }
    }

    /// Reads a punctuation mark; the cursor stands at it.
    fn parse_punc(&mut self) -> (t: Token)
        requires
            old(self).wf(),
            old(self).input.spec_peek(0) is Some,
        ensures
            final(self).has_read(
                old(self),
                punctuation_lexeme(old(self).input.source(), old(self).input.offset()),
            ),
            Some(t@) == punctuation_lexeme(
                old(self).input.source(),
                old(self).input.offset(),
            ).token,
    {
        let range = Range { start: self.input.loc(), end: self.input.loc() };
        assert(error_views(self.errors@) =~= error_views(old(self).errors@)
            + Seq::<ErrorView>::empty());
        Token { val: TokenType::Punc(self.input.consume().unwrap()), range }
    }

    /// Reads an operator; the cursor stands at its first character.
    fn parse_op(&mut self) -> (t: Token)
        requires
            old(self).wf(),
        ensures
            final(self).has_read(
                old(self),
                operator_lexeme(old(self).input.source(), old(self).input.offset()),
            ),
            Some(t@) == operator_lexeme(old(self).input.source(), old(self).input.offset()).token,
    {
        let ghost s = self.input.source();
        let ghost q = self.input.offset();
        let start = self.input.loc();
        let mut op = String::new();
        let mut alone = false;
        let mut empty = true;
        let mut more = true;
        assert(op@ =~= s.subrange(q, q));
        while more
            invariant
                self.moved_from(old(self)),
                old(self).wf(),
                s == self.input.source(),
                0 <= q <= self.input.offset() <= s.len(),
                operator_end(s, q, q) == operator_end(s, q, self.input.offset()),
                op@ == s.subrange(q, self.input.offset()),
                alone == is_standalone(op@),
                empty == (op@.len() == 0),
                !more ==> operator_end(s, q, self.input.offset()) == self.input.offset(),
            decreases s.len() - self.input.offset() + (if more { 1int } else { 0int }),
        {
            let ghost at = self.input.offset();
            if alone {
                more = false;
            } else {
                match self.input.peek(0) {
                    Some(ch) => {
                        if holds(&self.operators, ch) {
                            self.input.consume();
                            push_char(&mut op, ch);
                            alone = empty && holds(&self.standalone_operators, ch);
                            empty = false;
                            assert(op@ =~= s.subrange(q, at + 1));
                        } else {
                            more = false;
                        }
                    },
                    None => {
                        more = false;
                    },
                }
            }
        }
        let end = self.input.loc();
        assert(error_views(self.errors@) =~= error_views(old(self).errors@)
            + Seq::<ErrorView>::empty());
        Token { val: TokenType::Op(op), range: Range { start, end } }
    }

    /// Passes over a line comment; the cursor stands at its first `/`.
    fn skip_line_comment(&mut self)
        requires
            old(self).wf(),
            at_line_comment(old(self).input.source(), old(self).input.offset()),
        ensures
            final(self).moved_from(old(self)),
            final(self).input.offset() == line_comment_end(
                old(self).input.source(),
                old(self).input.offset() + 2,
            ),
            old(self).input.offset() + 2 <= final(self).input.offset(),
    {
        let ghost s = self.input.source();
        let ghost p = self.input.offset();
        self.input.consume();
        self.input.consume();
        let mut more = true;
        while more
            invariant
                self.moved_from(old(self)),
                s == self.input.source(),
                p + 2 <= self.input.offset() <= s.len(),
                more ==> line_comment_end(s, p + 2) == line_comment_end(s, self.input.offset()),
                !more ==> line_comment_end(s, p + 2) == self.input.offset(),
            decreases s.len() - self.input.offset() + (if more { 1int } else { 0int }),
        {
            match self.input.consume() {
                Some(c) => {
                    if c == '\n' {
                        more = false;
                    }
                },
                None => {
                    more = false;
                },
            }
        }
    }

    /// Passes over a block comment; the cursor stands at its `/`.
    fn skip_block_comment(&mut self)
        requires
            old(self).wf(),
            at_block_comment(old(self).input.source(), old(self).input.offset()),
        ensures
            final(self).moved_from(old(self)),
            final(self).input.offset() == block_comment_end(
                old(self).input.source(),
                old(self).input.offset() + 1,
            ),
            old(self).input.offset() + 1 <= final(self).input.offset(),
    {
        let ghost s = self.input.source();
        let ghost p = self.input.offset();
        self.input.consume();
        let mut more = true;
        while more
            invariant
                self.moved_from(old(self)),
                s == self.input.source(),
                0 <= p,
                p + 1 <= self.input.offset() <= s.len(),
                more ==> block_comment_end(s, p + 1) == block_comment_end(s, self.input.offset()),
                !more ==> block_comment_end(s, p + 1) == self.input.offset(),
            decreases s.len() - self.input.offset() + (if more { 1int } else { 0int }),
        {
            match self.input.consume() {
                Some(c) => {
                    if c == '*' {
                        match self.input.peek(0) {
                            Some(d) => {
                                if d == '/' {
                                    self.input.consume();
                                    more = false;
                                }
                            },
                            None => {},
                        }
                    }
                },
                None => {
                    more = false;
                },
            }
        }
    }

    /// One scanning step: passes over blanks and comments, then reads the
    /// lexeme that follows. Yields no token at the end of the text, and none
    /// for a character that starts no lexeme, which is recorded and passed
    /// over.
    fn _next(&mut self) -> (r: Option<Token>)
        requires
            old(self).wf(),
        ensures
            final(self).has_read(
                old(self),
                scan(old(self).input.source(), old(self).input.offset()),
            ),
            token_view(r) == scan(old(self).input.source(), old(self).input.offset()).token,
    {
        let ghost s = self.input.source();
        let ghost p = self.input.offset();
        loop
            invariant
                self.moved_from(old(self)),
                old(self).wf(),
                s == self.input.source(),
                p == old(self).input.offset(),
                0 <= p <= self.input.offset() <= s.len(),
                skip_trivia(s, p) == skip_trivia(s, self.input.offset()),
            decreases s.len() - self.input.offset(),
        {
            let tok = match self.input.peek(0) {
                Some(c) => c,
                None => {
                    assert(skip_trivia(s, self.input.offset()) == self.input.offset());
                    assert(error_views(self.errors@) =~= error_views(old(self).errors@)
                        + Seq::<ErrorView>::empty());
                    return None;
                },
            };
            let ahead = self.input.peek(1);
            let line_comment = tok == '/' && match ahead {
                Some(c) => c == '/',
                None => false,
            };
            let block_comment = tok == '/' && match ahead {
                Some(c) => c == '*',
                None => false,
            };
            if line_comment {
                self.skip_line_comment();
            } else if block_comment {
                self.skip_block_comment();
            } else if blank_at(tok) {
                self.input.consume();
            } else {
                assert(skip_trivia(s, self.input.offset()) == self.input.offset());
                if tok == '"' {
                    return Some(self.parse_str());
                } else if digit_at(tok) {
                    return Some(self.parse_num());
                } else if holds(&self.operators, tok) {
                    return Some(self.parse_op());
                } else if punctuation_at(tok) {
                    return Some(self.parse_punc());
                } else if ident_start_at(tok) {
                    return Some(self.parse_ident());
                } else {
                    let msg = ErrorType::InvalidCharacter(tok).to_string();
                    let at = self.input.loc();
                    self.record(msg, at, at);
                    self.input.consume();
                    assert(error_views(self.errors@) =~= error_views(old(self).errors@) + seq![
                        ErrorView {
                            range: Range { start: at, end: at },
                            msg: ErrorType::InvalidCharacter(tok).message_text(),
                        },
                    ]);
                    return None;
                }
            }
        }
    }

    /// Returns the next token and moves past it: the token that `peek`
    /// last looked at, if it has not been taken yet, else the one that a
    /// scanning step yields. `None` comes at the end of the text, and after
    /// a character that starts no lexeme was recorded and passed over.
    pub fn consume(&mut self) -> (r: Option<Token>)
        requires
            old(self).wf(),
        ensures
            final(self).wf(),
            (final(self).state(), token_view(r)) == consume_step(old(self).state()),
    {
        if self.current.is_some() {
            self.current.take()
        } else {
            self._next()
        }
    }

    /// Returns the next token without taking it: it is scanned once and
    /// kept until `consume` takes it.
    pub fn peek(&mut self) -> (r: Option<&Token>)
        requires
            old(self).wf(),
        ensures
            final(self).wf(),
            final(self).state() == peek_step(old(self).state()),
            match r {
                Some(t) => final(self).state().lookahead == Some(t@),
                None => final(self).state().lookahead is None,
            },
    {
        if self.current.is_some() {
            return self.current.as_ref();
        }
        self.current = self._next();
        self.current.as_ref()
    }
}

/// What is left of a numeral at offset `i` while it is being read: the
/// rest as the grammar gives it, or nothing more once reading has stopped.
spec fn numeral_tail(
    s: Seq<char>,
    i: int,
    more: bool,
    fraction: bool,
    surplus_point: bool,
) -> Numeral {
    if more {
        numeral(s, i, fraction)
    } else {
        Numeral { end: i, text: Seq::empty(), fraction, surplus_point }
    }
}

} // verus!
