//! The cursor over the source text: a character sequence read front to back,
//! with the offset, line and column of the next character to be read.

use crate::text::{decimal, push_char, push_decimal};
use vstd::prelude::*;
use vstd::std_specs::iter::IteratorSpec;

verus! {

/// The line (counted from 1) reached after the first `n` characters of `src`:
/// one more than the number of newlines among them.
pub open spec fn line_at(src: Seq<char>, n: int) -> int
    decreases n,
{
    if n <= 0 {
        1
    } else if src[n - 1] == '\n' {
        line_at(src, n - 1) + 1
    } else {
        line_at(src, n - 1)
    }
}

/// The column (counted from 0) reached after the first `n` characters of `src`:
/// the number of characters since the last newline among them.
pub open spec fn col_at(src: Seq<char>, n: int) -> int
    decreases n,
{
    if n <= 0 {
        0
    } else if src[n - 1] == '\n' {
        0
    } else {
        col_at(src, n - 1) + 1
    }
}

/// The offset of the first newline at or after `i`, or the length of the
/// text: where the line that holds offset `i` stops.
pub open spec fn line_stop(src: Seq<char>, i: int) -> int
    decreases src.len() - i,
{
    if i >= src.len() {
        src.len() as int
    } else if src[i] == '\n' {
        i
    } else {
        line_stop(src, i + 1)
    }
}

/// The offset at which line `number` (counted from 1) starts.
pub open spec fn line_start(src: Seq<char>, number: int) -> int
    decreases number,
{
    if number <= 1 {
        0
    } else {
        line_stop(src, line_start(src, number - 1)) + 1
    }
}

/// The text of line `number` (counted from 1), without its newline.
pub open spec fn source_line(src: Seq<char>, number: int) -> Seq<char> {
    src.subrange(line_start(src, number), line_stop(src, line_start(src, number)))
}

/// The number of lines of a text: one more than its newlines.
pub open spec fn line_count(src: Seq<char>) -> int {
    line_at(src, src.len() as int)
}

/// Lines and columns are bounded by the number of characters read.
pub proof fn lemma_position_bounds(src: Seq<char>, n: int)
    requires
        0 <= n <= src.len(),
    ensures
        1 <= line_at(src, n) <= n + 1,
        0 <= col_at(src, n) <= n,
    decreases n,
{
    if n > 0 {
        lemma_position_bounds(src, n - 1);
    }
}

/// The line never goes back as more characters are read.
pub proof fn lemma_line_monotonic(src: Seq<char>, m: int, n: int)
    requires
        0 <= m <= n,
    ensures
        line_at(src, m) <= line_at(src, n),
    decreases n - m,
{
    if m < n {
        lemma_line_monotonic(src, m, n - 1);
    }
}

/// A point in the source: the offset into the character sequence, the line
/// (from 1) and the column (from 0).
#[derive(Clone, Copy, Debug, PartialEq, Eq, Structural)]
pub struct LoC {
    pub pos: usize,
    pub line: i32,
    pub col: i32,
}

/// The text of a point: `(line:col)`.
pub open spec fn loc_text(l: LoC) -> Seq<char> {
    seq!['('] + decimal(l.line as int) + seq![':'] + decimal(l.col as int) + seq![')']
}

/// The point reached after the first `n` characters of `src`.
pub open spec fn loc_at(src: Seq<char>, n: int) -> LoC {
    LoC { pos: n as usize, line: line_at(src, n) as i32, col: col_at(src, n) as i32 }
}

impl LoC {
    /// Renders the point as `(line:col)`.
    pub fn to_string(&self) -> (s: String)
        ensures
            s@ == loc_text(*self),
    {
        let mut s = String::new();
        push_char(&mut s, '(');
        push_decimal(&mut s, self.line);
        push_char(&mut s, ':');
        push_decimal(&mut s, self.col);
        push_char(&mut s, ')');
        s
    }
}

/// The cursor. `line` and `col` describe the next character to be consumed.
pub struct InputParser {
    code: Vec<char>,
    pub line: i32,
    pub col: i32,
    pos: usize,
}

impl InputParser {
    /// The whole character sequence that the cursor reads.
    pub closed spec fn source(&self) -> Seq<char> {
        self.code@
    }

    /// The number of characters consumed so far.
    pub closed spec fn offset(&self) -> int {
        self.pos as int
    }

    /// The line of the next character to be consumed.
    pub closed spec fn spec_line(&self) -> int {
        self.line as int
    }

    /// The column of the next character to be consumed.
    pub closed spec fn spec_col(&self) -> int {
        self.col as int
    }

    /// The cursor is inside its text, the text is short enough for `line`
    /// and `col` to count it, and both agree with a replay of the text
    /// consumed so far.
    pub open spec fn wf(&self) -> bool {
        &&& 0 <= self.offset() <= self.source().len()
        &&& self.source().len() < i32::MAX
        &&& self.spec_line() == line_at(self.source(), self.offset())
        &&& self.spec_col() == col_at(self.source(), self.offset())
    }

    /// The character `am` places ahead of the cursor, if there is one.
    pub open spec fn spec_peek(&self, am: int) -> Option<char> {
        if 0 <= self.offset() + am < self.source().len() {
            Some(self.source()[self.offset() + am])
        } else {
            None
        }
    }

    /// The cursor's position as a point.
    pub open spec fn spec_loc(&self) -> LoC {
        LoC { pos: self.offset() as usize, line: self.spec_line() as i32, col: self.spec_col() as i32 }
    }

    /// A cursor at the start of `code`.
    pub fn new(code: &str) -> (p: Self)
        requires
            code@.len() < i32::MAX,
        ensures
            p.wf(),
            p.source() == code@,
            p.offset() == 0,
            p.spec_line() == 1,
            p.spec_col() == 0,
    {
        let mut it = code.chars();
        let mut chars: Vec<char> = Vec::new();
        loop
            invariant_except_break
                chars@ + it.remaining() == code@,
                it.decrease() is Some,
            ensures
                chars@ == code@,
            decreases it.decrease()->0,
        {
            match it.next() {
                Some(c) => {
                    chars.push(c);
                },
                None => {
                    break ;
                },
            }
        }
        InputParser { line: 1, col: 0, pos: 0, code: chars }
    }

    /// Returns the next character and steps past it, or `None` at the end.
    /// A newline starts the next line at column 0; any other character
    /// moves one column on.
    pub fn consume(&mut self) -> (r: Option<char>)
        requires
            old(self).wf(),
        ensures
            final(self).wf(),
            final(self).source() == old(self).source(),
            r == old(self).spec_peek(0),
            r is None ==> *final(self) == *old(self),
            r is Some ==> final(self).offset() == old(self).offset() + 1,
            r == Some('\n') ==> final(self).spec_line() == old(self).spec_line() + 1,
            r == Some('\n') ==> final(self).spec_col() == 0,
            r is Some && r != Some('\n') ==> final(self).spec_line() == old(self).spec_line()
                && final(self).spec_col() == old(self).spec_col() + 1,
    {
        if self.is_eof() {
            return None;
        }
        let c = self.code[self.pos];
        proof {
            lemma_position_bounds(self.code@, self.pos as int + 1);
        }
        self.pos += 1;
        if c == '\n' {
            self.line += 1;
            self.col = 0;
        } else {
            self.col += 1;
        }
        Some(c)
    }

    /// The character `am` places ahead of the cursor, which stays where it is.
    pub fn peek(&self, am: usize) -> (r: Option<char>)
        ensures
            r == self.spec_peek(am as int),
    {
        let len = self.code.len();
        if self.pos >= len || am >= len - self.pos {
            return None;
        }
        Some(self.code[self.pos + am])
    }

    /// Whether every character has been consumed.
    pub fn is_eof(&self) -> (b: bool)
        ensures
            b == (self.offset() >= self.source().len()),
    {
        self.pos >= self.code.len()
    }

    /// The cursor's position: offset, line and column.
    pub fn loc(&self) -> (l: LoC)
        ensures
            l == self.spec_loc(),
            self.wf() ==> l == loc_at(self.source(), self.offset()),
    {
        LoC { pos: self.pos, line: self.line, col: self.col }
    }

    /// The cursor's position with `col` added to the column and `line` to
    /// the line; the offset is the cursor's own.
    pub fn loc_inc(&self, col: i32, line: i32) -> (l: LoC)
        requires
            i32::MIN <= self.spec_line() + line <= i32::MAX,
            i32::MIN <= self.spec_col() + col <= i32::MAX,
        ensures
            l.pos == self.offset(),
            l.line == self.spec_line() + line,
            l.col == self.spec_col() + col,
    {
        LoC { pos: self.pos, line: self.line + line, col: self.col + col }
    }
}

/// Looking ahead is a function of the cursor alone: any number of looks at
/// the same distance from the same cursor show the same character.
pub proof fn lemma_peek_repeatable(
    cursor: InputParser,
    am: int,
    first: Option<char>,
    second: Option<char>,
)
    requires
        first == cursor.spec_peek(am),
        second == cursor.spec_peek(am),
    ensures
        first == second,
{
}

/// Replaying the consumption of a text gives the cursor's line and column:
/// after any number of `consume` calls the position is that of the replay,
/// and one more call moves it as the character read dictates.
pub proof fn lemma_replay_step(src: Seq<char>, n: int)
    requires
        0 <= n < src.len(),
    ensures
        src[n] == '\n' ==> line_at(src, n + 1) == line_at(src, n) + 1 && col_at(src, n + 1) == 0,
        src[n] != '\n' ==> line_at(src, n + 1) == line_at(src, n) && col_at(src, n + 1) == col_at(
            src,
            n,
        ) + 1,
        line_at(src, 0) == 1,
        col_at(src, 0) == 0,
{
}

} // verus!
