//! The shared vocabulary of errors and their rendering against the source:
//! the offending line or lines, a row of markers under them, the message and
//! the span.

use crate::text::{decimal, decimal_width, push_char, push_decimal, push_spaces, spaces};
use crate::tokenizer::{range_text, Range};
use colored::Colorize;
use vstd::prelude::*;

verus! {

/// What went wrong. The scanner raises the first few kinds; the others are
/// raised by later stages that report through the same type.
#[derive(Clone, Debug, PartialEq)]
pub enum ErrorType {
    EndOfStr,
    DecimalPoint,
    InvalidCharacter(char),
    ExpectedFound(String, String),
    Expected(String),
    ExpectedDelimiter(char),
    ProperProperty,
    ArrowAccess,
    StartOfBlock,
    EndOfBlock,
    Semicolon,
    EmptyCharLiteral,
    ConstantWithoutInit,
    NoGenerics,
    TooMuchTypes(i8),
    UnexpectedOp(String),
    UnexpectedPunc(char),
    Unexpected(String),
    EndOfIterator,
    ManyEntryPoints,
    WrongMatchArmExp,
    AlreadyHasModifier(String),
    Disallowed(String),
    Custom(String),
    Confusable(String, String),
    InvalidDigit,
    PointlessTemplate,
}

/// Something that can say what it is in one line of text.
pub trait Describe {
    /// The text that `to_string` produces.
    spec fn message_text(&self) -> Seq<char>;

    /// The message, as text for a reader.
    fn to_string(&self) -> (s: String)
        ensures
            s@ == self.message_text(),
    ;
}

impl Describe for ErrorType {
    open spec fn message_text(&self) -> Seq<char> {
        match self {
            ErrorType::EndOfStr => "Expected end of string"@,
            ErrorType::DecimalPoint => "Numbers cannot contain more than one decimal point"@,
            ErrorType::ProperProperty => "Expected a property name"@,
            ErrorType::InvalidCharacter(character) => "Invalid character "@.push(*character),
            ErrorType::UnexpectedOp(op) => "Unexpected operator "@ + op@,
            ErrorType::UnexpectedPunc(punc) => "Unexpected punctuation "@.push(*punc),
            ErrorType::Semicolon => "Expected semicolon at the end of the expression"@,
            ErrorType::EndOfBlock => "Expected end of block"@,
            ErrorType::Expected(val) => "Expected "@ + val@,
            ErrorType::ExpectedFound(val, found) => "Expected "@ + val@ + ", but found "@ + found@,
            ErrorType::StartOfBlock => "Expected start of block"@,
            ErrorType::ArrowAccess => "Arrow access cannot be chained"@,
            ErrorType::ExpectedDelimiter(val) => "Expected delimiter "@.push(*val),
            ErrorType::Custom(msg) => msg@,
            ErrorType::Unexpected(msg) => "Unexpected "@ + msg@,
            ErrorType::TooMuchTypes(amount) => "Too much typings provided, expected only "@
                + decimal(*amount as int),
            ErrorType::EmptyCharLiteral => "Empty char literal"@,
            ErrorType::ConstantWithoutInit => "Constant variables must have an initializor"@,
            ErrorType::NoGenerics => "Generics are not allowed here"@,
            ErrorType::EndOfIterator => "Expected end of iterator"@,
            ErrorType::Disallowed(string) => string@ + " is not allowed here"@,
            ErrorType::ManyEntryPoints => "Too many entry points"@,
            ErrorType::WrongMatchArmExp => "Incorrect match arm expression. Match arms only accept enum variants or literals."@,
            ErrorType::AlreadyHasModifier(string) => "The field is already "@ + string@
                + ", unnecessary "@ + string@ + " modifier"@,
            ErrorType::Confusable(confused_with, expected) => "Found "@ + confused_with@
                + ", which is similar to "@ + expected@,
            ErrorType::InvalidDigit => "Invalid digit"@,
            ErrorType::PointlessTemplate => "Pointless template literal"@,
        }
    }

    fn to_string(&self) -> (s: String) {
        match self {
            ErrorType::EndOfStr => String::from_str("Expected end of string"),
            ErrorType::DecimalPoint => String::from_str(
                "Numbers cannot contain more than one decimal point",
            ),
            ErrorType::ProperProperty => String::from_str("Expected a property name"),
            ErrorType::InvalidCharacter(character) => {
                let mut s = String::from_str("Invalid character ");
                push_char(&mut s, *character);
                s
            },
            ErrorType::UnexpectedOp(op) => {
                let mut s = String::from_str("Unexpected operator ");
                s.append(op.as_str());
                s
            },
            ErrorType::UnexpectedPunc(punc) => {
                let mut s = String::from_str("Unexpected punctuation ");
                push_char(&mut s, *punc);
                s
            },
            ErrorType::Semicolon => String::from_str(
                "Expected semicolon at the end of the expression",
            ),
            ErrorType::EndOfBlock => String::from_str("Expected end of block"),
            ErrorType::Expected(val) => {
                let mut s = String::from_str("Expected ");
                s.append(val.as_str());
                s
            },
            ErrorType::ExpectedFound(val, found) => {
                let mut s = String::from_str("Expected ");
                s.append(val.as_str());
                s.append(", but found ");
                s.append(found.as_str());
                s
            },
            ErrorType::StartOfBlock => String::from_str("Expected start of block"),
            ErrorType::ArrowAccess => String::from_str("Arrow access cannot be chained"),
            ErrorType::ExpectedDelimiter(val) => {
                let mut s = String::from_str("Expected delimiter ");
                push_char(&mut s, *val);
                s
            },
            ErrorType::Custom(msg) => msg.clone(),
            ErrorType::Unexpected(msg) => {
                let mut s = String::from_str("Unexpected ");
                s.append(msg.as_str());
                s
            },
            ErrorType::TooMuchTypes(amount) => {
                let mut s = String::from_str("Too much typings provided, expected only ");
                push_decimal(&mut s, *amount as i32);
                s
            },
            ErrorType::EmptyCharLiteral => String::from_str("Empty char literal"),
            ErrorType::ConstantWithoutInit => String::from_str(
                "Constant variables must have an initializor",
            ),
            ErrorType::NoGenerics => String::from_str("Generics are not allowed here"),
            ErrorType::EndOfIterator => String::from_str("Expected end of iterator"),
            ErrorType::Disallowed(string) => {
                let mut s = string.clone();
                s.append(" is not allowed here");
                s
            },
            ErrorType::ManyEntryPoints => String::from_str("Too many entry points"),
            ErrorType::WrongMatchArmExp => String::from_str(
                "Incorrect match arm expression. Match arms only accept enum variants or literals.",
            ),
            ErrorType::AlreadyHasModifier(string) => {
                let mut s = String::from_str("The field is already ");
                s.append(string.as_str());
                s.append(", unnecessary ");
                s.append(string.as_str());
                s.append(" modifier");
                s
            },
            ErrorType::Confusable(confused_with, expected) => {
                let mut s = String::from_str("Found ");
                s.append(confused_with.as_str());
                s.append(", which is similar to ");
                s.append(expected.as_str());
                s
            },
            ErrorType::InvalidDigit => String::from_str("Invalid digit"),
            ErrorType::PointlessTemplate => String::from_str("Pointless template literal"),
        }
    }
}

/// An error of kind `T` at a span of the source.
pub struct Error<T: Describe> {
    pub range: Range,
    pub e_type: T,
}

/// The texts of the source lines.
pub open spec fn line_texts(source: Seq<&str>) -> Seq<Seq<char>> {
    Seq::new(source.len(), |i: int| source[i]@)
}

/// A row of `cells` cells, numbered from 0: the marker in every cell from
/// `from` on, a space in the cells before it.
pub open spec fn caret_row(cells: int, from: int, caret: Seq<char>) -> Seq<char>
    decreases cells,
{
    if cells <= 0 {
        Seq::empty()
    } else {
        caret_row(cells - 1, from, caret) + (if cells - 1 >= from {
            caret
        } else {
            seq![' ']
        })
    }
}

/// The number of cells under a source line in a multi-line rendering: one
/// more than the line's length in bytes, as `str::len` gives it.
pub open spec fn cells_under(line: Seq<char>) -> int {
    (vstd::utf8::encode_utf8(line).len() as usize) as int + 1
}

/// One source line of a multi-line rendering: its number, right-aligned to
/// `width`, the bar, and the line itself.
pub open spec fn numbered_line(
    number: int,
    width: int,
    bar: Seq<char>,
    line: Seq<char>,
) -> Seq<char> {
    spaces(width - decimal(number).len()) + decimal(number) + seq![' '] + bar + seq![' '] + line
        + seq!['\n']
}

/// The row of markers under a line of a multi-line rendering.
pub open spec fn marker_line(
    width: int,
    bar: Seq<char>,
    line: Seq<char>,
    from: int,
    caret: Seq<char>,
) -> Seq<char> {
    spaces(width) + seq![' '] + bar + caret_row(cells_under(line), from, caret) + seq!['\n']
}

/// The rows that a multi-line rendering shows for source line `number`:
/// the line itself, with a row of markers from the start column on under
/// the span's first line, and one from the end column on under its last.
pub open spec fn line_rows(
    range: Range,
    line: Seq<char>,
    bar: Seq<char>,
    caret: Seq<char>,
    number: int,
) -> Seq<char> {
    let width = decimal(range.end.line as int).len() as int;
    numbered_line(number, width, bar, line) + (if number == range.start.line {
        marker_line(width, bar, line, range.start.col as int, caret)
    } else {
        Seq::empty()
    }) + (if number == range.end.line {
        marker_line(width, bar, line, range.end.col as int, caret)
    } else {
        Seq::empty()
    })
}

/// The rows of a multi-line rendering for the lines from the span's first
/// up to line `upto`.
pub open spec fn numbered_block(
    range: Range,
    lines: Seq<Seq<char>>,
    bar: Seq<char>,
    caret: Seq<char>,
    upto: int,
) -> Seq<char>
    decreases upto - range.start.line + 1,
{
    if upto < range.start.line {
        Seq::empty()
    } else {
        numbered_block(range, lines, bar, caret, upto - 1) + line_rows(
            range,
            lines[upto - 1],
            bar,
            caret,
            upto,
        )
    }
}

/// The rendering of a span that lies within one line: the line with its
/// number, a row that marks the columns from the start column to the end
/// column, then the message and the span.
pub open spec fn single_line_rendering(
    range: Range,
    lines: Seq<Seq<char>>,
    bar: Seq<char>,
    caret: Seq<char>,
    message: Seq<char>,
) -> Seq<char> {
    let number = decimal(range.start.line as int);
    seq!['\n'] + number + seq![' '] + bar + seq![' '] + lines[range.start.line - 1] + seq![
        '\n',
        '\n',
    ] + spaces(number.len() as int + 3) + caret_row(range.end.col + 1, range.start.col as int, caret)
        + seq!['\n'] + message + seq![' '] + range_text(range)
}

/// The rendering of a span that runs over several lines.
pub open spec fn multi_line_rendering(
    range: Range,
    lines: Seq<Seq<char>>,
    bar: Seq<char>,
    caret: Seq<char>,
    message: Seq<char>,
) -> Seq<char> {
    seq!['\n'] + numbered_block(range, lines, bar, caret, range.end.line as int) + seq![
        '\n',
        '\n',
    ] + message + seq![' '] + range_text(range)
}

/// The rendering of a span against the source lines, with the given texts
/// for the bar, the marker and the message.
pub open spec fn rendering(
    range: Range,
    lines: Seq<Seq<char>>,
    bar: Seq<char>,
    caret: Seq<char>,
    message: Seq<char>,
) -> Seq<char> {
    if range.start.line != range.end.line {
        multi_line_rendering(range, lines, bar, caret, message)
    } else {
        single_line_rendering(range, lines, bar, caret, message)
    }
}

/// Every line that the rendering shows exists: the span's lines lie between
/// 1 and the number of source lines.
pub open spec fn renderable(range: Range, line_count: int) -> bool {
    range.start.line <= range.end.line ==> 1 <= range.start.line && range.end.line <= line_count
}

/// Rendering is a function of the span, the source lines and the three
/// texts alone: two renderings of the same are the same text.
pub proof fn lemma_rendering_repeatable(
    first: Seq<char>,
    second: Seq<char>,
    range: Range,
    lines: Seq<Seq<char>>,
    bar: Seq<char>,
    caret: Seq<char>,
    message: Seq<char>,
)
    requires
        first == rendering(range, lines, bar, caret, message),
        second == rendering(range, lines, bar, caret, message),
    ensures
        first == second,
{
}

/// The escape character that starts a terminal control sequence.
pub open spec fn escape_char() -> char {
    '\u{1b}'
}

/// `out` is `plain` as a terminal shows it in the colour with the given
/// code: either the text as it is, where colouring is off, or, for a text
/// without escape characters, the text between the sequence that selects
/// the colour and the one that resets it.
pub open spec fn styled(plain: Seq<char>, code: Seq<char>, out: Seq<char>) -> bool {
    out == plain || (!plain.contains(escape_char()) ==> out == seq![escape_char(), '['] + code
        + seq!['m'] + plain + seq![escape_char(), '[', '0', 'm'])
}

/// The code of red as a foreground colour.
pub open spec fn red_code() -> Seq<char> {
    seq!['3', '1']
}

/// The code of cyan as a foreground colour.
pub open spec fn cyan_code() -> Seq<char> {
    seq!['3', '6']
}

/// The text in red.
///
/// Trusted: calls `Colorize::red` of the crate `colored` on the text and
/// formats the coloured string. Whether colour is applied depends on the
/// environment and on that crate's override switch. Without colour the text
/// comes back as it is. With colour it comes back after the sequence
/// `ESC [ 3 1 m` and before `ESC [ 0 m`; reset sequences inside the text
/// are rewritten, so the contract speaks only of texts without an escape
/// character.
#[verifier::external_body]
fn paint_red(text: &str) -> (out: String)
    ensures
        styled(text@, red_code(), out@),
{
    text.red().to_string()
}

/// The text in cyan.
///
/// Trusted: calls `Colorize::cyan` of the crate `colored` on the text and
/// formats the coloured string. As for red, with the sequence
/// `ESC [ 3 6 m` in front.
#[verifier::external_body]
fn paint_cyan(text: &str) -> (out: String)
    ensures
        styled(text@, cyan_code(), out@),
{
    text.cyan().to_string()
}

/// Appends the cells `0..=last` of a marker row.
pub(crate) fn push_caret_row(out: &mut String, last: usize, from: i32, caret: &str)
    ensures
        final(out)@ == old(out)@ + caret_row(last + 1, from as int, caret@),
{
    let mut i: usize = 0;
    assert(old(out)@ + caret_row(0, from as int, caret@) =~= old(out)@);
    loop
        invariant_except_break
            i <= last,
            out@ == old(out)@ + caret_row(i as int, from as int, caret@),
        ensures
            out@ == old(out)@ + caret_row(last + 1, from as int, caret@),
        decreases last - i,
    {
        if from <= 0 || i >= from as usize {
            out.append(caret);
        } else {
            push_char(out, ' ');
        }
        assert(out@ =~= old(out)@ + caret_row(i as int + 1, from as int, caret@));
        if i == last {
            break ;
        }
        i += 1;
    }
}

/// Appends the row of markers under a line of a multi-line rendering.
fn push_marker_line(out: &mut String, width: usize, bar: &str, line: &str, from: i32, caret: &str)
    ensures
        final(out)@ == old(out)@ + marker_line(width as int, bar@, line@, from as int, caret@),
{
    push_spaces(out, width);
    push_char(out, ' ');
    out.append(bar);
    push_caret_row(out, line.len(), from, caret);
    push_char(out, '\n');
    assert(out@ =~= old(out)@ + marker_line(width as int, bar@, line@, from as int, caret@));
}

/// Appends one source line of a multi-line rendering.
fn push_numbered_line(out: &mut String, number: i32, width: usize, bar: &str, line: &str)
    requires
        decimal(number as int).len() <= width,
    ensures
        final(out)@ == old(out)@ + numbered_line(number as int, width as int, bar@, line@),
{
    push_spaces(out, width - decimal_width(number));
    push_decimal(out, number);
    push_char(out, ' ');
    out.append(bar);
    push_char(out, ' ');
    out.append(line);
    push_char(out, '\n');
    assert(out@ =~= old(out)@ + numbered_line(number as int, width as int, bar@, line@));
}

/// Appends the rows that a multi-line rendering shows for one source line.
fn push_line_rows(out: &mut String, range: Range, line: &str, bar: &str, caret: &str, number: i32)
    requires
        1 <= number <= range.end.line,
    ensures
        final(out)@ == old(out)@ + line_rows(range, line@, bar@, caret@, number as int),
{
    let width = decimal_width(range.end.line);
    proof {
        crate::text::lemma_decimal_width_monotonic(number as nat, range.end.line as nat);
    }
    push_numbered_line(out, number, width, bar, line);
    let ghost numbered = out@;
    if number == range.start.line {
        push_marker_line(out, width, bar, line, range.start.col, caret);
    }
    let ghost first = out@;
    if number == range.end.line {
        push_marker_line(out, width, bar, line, range.end.col, caret);
    }
    assert(first =~= numbered + (if number == range.start.line {
        marker_line(width as int, bar@, line@, range.start.col as int, caret@)
    } else {
        Seq::empty()
    }));
    assert(out@ =~= old(out)@ + line_rows(range, line@, bar@, caret@, number as int));
}

impl<T: Describe> Error<T> {
    /// Renders the error against the source lines, with `bar` between line
    /// numbers and lines, `caret` as the marker and `message` as the
    /// message.
    pub fn render(&self, source: &[&str], bar: &str, caret: &str, message: &str) -> (out: String)
        requires
            renderable(self.range, source@.len() as int),
        ensures
            out@ == rendering(self.range, line_texts(source@), bar@, caret@, message@),
    {
        if self.range.start.line != self.range.end.line {
            self.render_lines(source, bar, caret, message)
        } else {
            self.render_line(source, bar, caret, message)
        }
    }

    fn render_line(&self, source: &[&str], bar: &str, caret: &str, message: &str) -> (out: String)
        requires
            1 <= self.range.start.line <= source@.len(),
        ensures
            out@ == single_line_rendering(self.range, line_texts(source@), bar@, caret@, message@),
    {
        let range = self.range;
        let mut out = String::new();
        push_char(&mut out, '\n');
        push_decimal(&mut out, range.start.line);
        push_char(&mut out, ' ');
        out.append(bar);
        push_char(&mut out, ' ');
        out.append(source[(range.start.line - 1) as usize]);
        push_char(&mut out, '\n');
        push_char(&mut out, '\n');
        push_spaces(&mut out, decimal_width(range.start.line) + 3);
        if range.end.col >= 0 {
            push_caret_row(&mut out, range.end.col as usize, range.start.col, caret);
        } else {
            assert(out@ + caret_row(range.end.col + 1, range.start.col as int, caret@) =~= out@);
        }
        push_char(&mut out, '\n');
        out.append(message);
        push_char(&mut out, ' ');
        range.write_to(&mut out);
        assert(out@ =~= single_line_rendering(
            self.range,
            line_texts(source@),
            bar@,
            caret@,
            message@,
        ));
        out
    }

    fn render_lines(&self, source: &[&str], bar: &str, caret: &str, message: &str) -> (out: String)
        requires
            self.range.start.line != self.range.end.line,
            renderable(self.range, source@.len() as int),
        ensures
            out@ == multi_line_rendering(self.range, line_texts(source@), bar@, caret@, message@),
    {
        let range = self.range;
        let ghost lines = line_texts(source@);
        let mut out = String::new();
        if range.start.line <= range.end.line {
            let mut x: i32 = range.start.line;
            assert(out@ =~= numbered_block(range, lines, bar@, caret@, x - 1));
            loop
                invariant_except_break
                    1 <= range.start.line <= x <= range.end.line <= source@.len(),
                    lines == line_texts(source@),
                    out@ == numbered_block(range, lines, bar@, caret@, x - 1),
                ensures
                    out@ == numbered_block(range, lines, bar@, caret@, range.end.line as int),
                decreases range.end.line - x,
            {
                let line = source[(x - 1) as usize];
                assert(line@ == lines[x - 1]);
                push_line_rows(&mut out, range, line, bar, caret, x);
                if x == range.end.line {
                    break ;
                }
                x += 1;
            }
        } else {
            assert(out@ =~= numbered_block(range, lines, bar@, caret@, range.end.line as int));
        }
        let mut whole = String::new();
        push_char(&mut whole, '\n');
        whole.append(out.as_str());
        push_char(&mut whole, '\n');
        push_char(&mut whole, '\n');
        whole.append(message);
        push_char(&mut whole, ' ');
        range.write_to(&mut whole);
        assert(whole@ =~= multi_line_rendering(self.range, lines, bar@, caret@, message@));
        whole
    }

    /// Renders the error against the source lines as plain text: `|` as the
    /// bar, `^` as the marker, and the kind's message.
    pub fn format_plain(&self, source: &[&str]) -> (out: String)
        requires
            renderable(self.range, source@.len() as int),
        ensures
            out@ == rendering(
                self.range,
                line_texts(source@),
                seq!['|'],
                seq!['^'],
                self.e_type.message_text(),
            ),
    {
        proof {
            reveal_strlit("|");
            reveal_strlit("^");
            assert("|"@ =~= seq!['|']);
            assert("^"@ =~= seq!['^']);
        }
        let message = self.e_type.to_string();
        self.render(source, "|", "^", message.as_str())
    }

    /// Renders the error against the source lines for a terminal: the bar
    /// in cyan, the markers and the message in red, where the terminal
    /// takes colour.
    pub fn format(&self, source: &[&str]) -> (out: String)
        requires
            renderable(self.range, source@.len() as int),
        ensures
            exists|bar: Seq<char>, caret: Seq<char>, message: Seq<char>|
                {
                    &&& styled(seq!['|'], cyan_code(), bar)
                    &&& styled(seq!['^'], red_code(), caret)
                    &&& styled(self.e_type.message_text(), red_code(), message)
                    &&& out@ == #[trigger] rendering(
                        self.range,
                        line_texts(source@),
                        bar,
                        caret,
                        message,
                    )
                },
    {
        proof {
            reveal_strlit("|");
            reveal_strlit("^");
            assert("|"@ =~= seq!['|']);
            assert("^"@ =~= seq!['^']);
        }
        let plain = self.e_type.to_string();
        let bar = paint_cyan("|");
        let caret = paint_red("^");
        let message = paint_red(plain.as_str());
        self.render(source, bar.as_str(), caret.as_str(), message.as_str())
    }
}

} // verus!
