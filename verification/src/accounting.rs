//! Where the characters of a text go when it is scanned from start to end:
//! into the spans of tokens, into blanks and comments, into stray
//! characters, or into the delimiters that no span covers.

use crate::grammar::{
    ident_end, is_digit, is_ident_start, is_operator_char, is_punctuation, lemma_ident_end_bounds,
    lemma_numeral_bounds, lemma_operator_end_bounds, lemma_scan_advances, lemma_span_ordered,
    lemma_string_close_bounds, lemma_token_range_ordered, numeral, operator_end, range_width,
    scan, string_close, TokenValue,
};
use vstd::prelude::*;

verus! {

/// How many characters went where.
pub struct Tally {
    /// Characters inside the spans of tokens.
    pub spanned: int,
    /// Blanks and characters of comments.
    pub skipped: int,
    /// Stray characters that were recorded and passed over.
    pub recovered: int,
    /// Characters that belong to a token's lexeme and lie outside its span:
    /// the quotes of a string literal, a punctuation mark.
    pub unspanned: int,
}

impl Tally {
    /// All the characters counted.
    pub open spec fn total(self) -> int {
        self.spanned + self.skipped + self.recovered + self.unspanned
    }

    /// The sum of two tallies.
    pub open spec fn plus(self, other: Tally) -> Tally {
        Tally {
            spanned: self.spanned + other.spanned,
            skipped: self.skipped + other.skipped,
            recovered: self.recovered + other.recovered,
            unspanned: self.unspanned + other.unspanned,
        }
    }
}

/// The tally of one scanning step from offset `p`.
pub open spec fn step_tally(s: Seq<char>, p: int) -> Tally {
    let sc = scan(s, p);
    match sc.token {
        Some(t) => Tally {
            spanned: range_width(t.range),
            skipped: sc.start - p,
            recovered: 0,
            unspanned: (sc.end - sc.start) - range_width(t.range),
        },
        None => Tally {
            spanned: 0,
            skipped: sc.start - p,
            recovered: sc.end - sc.start,
            unspanned: 0,
        },
    }
}

/// The tally of scanning the text from offset `p` to its end, step by step.
pub open spec fn run_tally(s: Seq<char>, p: int) -> Tally
    decreases s.len() - p,
{
    let next = scan(s, p).end;
    if 0 <= p < next <= s.len() {
        step_tally(s, p).plus(run_tally(s, next))
    } else {
        Tally { spanned: 0, skipped: 0, recovered: 0, unspanned: 0 }
    }
}

/// The characters of a lexeme that its token's span leaves out: both
/// quotes of a closed string literal, the one quote of an open one, a
/// punctuation mark; none for any other token.
pub proof fn lemma_unspanned_characters(s: Seq<char>, p: int)
    requires
        0 <= p <= s.len() < i32::MAX,
    ensures
        step_tally(s, p).unspanned == (match scan(s, p).token {
            Some(t) => match t.val {
                TokenValue::Str(text) => scan(s, p).end - scan(s, p).start - text.len(),
                TokenValue::Punc(_) => 1,
                _ => 0,
            },
            None => 0,
        }),
        step_tally(s, p).unspanned >= 0,
        step_tally(s, p).spanned >= 0,
        step_tally(s, p).skipped >= 0,
        step_tally(s, p).recovered >= 0,
{
    lemma_scan_advances(s, p);
    lemma_token_range_ordered(s, p);
    let sc = scan(s, p);
    let q = sc.start;
    if q < s.len() {
        let c = s[q];
        if c == '"' {
            lemma_string_close_bounds(s, q + 1);
            lemma_span_ordered(s, q + 1, string_close(s, q + 1));
        } else if is_digit(c) {
            lemma_numeral_bounds(s, q, false);
            lemma_span_ordered(s, q, numeral(s, q, false).end);
        } else if is_operator_char(c) {
            lemma_operator_end_bounds(s, q, q);
            lemma_span_ordered(s, q, operator_end(s, q, q));
        } else if is_punctuation(c) {
            lemma_span_ordered(s, q, q);
        } else if is_ident_start(c) {
            lemma_ident_end_bounds(s, q);
            lemma_span_ordered(s, q, ident_end(s, q));
        }
    }
}

/// Every character is counted once: scanning a text from offset `p` to
/// its end, the characters in token spans, those skipped as blanks and
/// comments, those passed over as stray, and the delimiters outside any
/// span add up to the characters from `p` on.
pub proof fn lemma_every_character_counted(s: Seq<char>, p: int)
    requires
        0 <= p <= s.len() < i32::MAX,
    ensures
        run_tally(s, p).total() == s.len() - p,
        run_tally(s, p).spanned >= 0,
        run_tally(s, p).skipped >= 0,
        run_tally(s, p).recovered >= 0,
        run_tally(s, p).unspanned >= 0,
    decreases s.len() - p,
{
    lemma_scan_advances(s, p);
    lemma_unspanned_characters(s, p);
    if p < s.len() {
        lemma_every_character_counted(s, scan(s, p).end);
    }
}

/// Where no character lies outside a span, which is where the text holds
/// neither a string literal nor a punctuation mark as a token, the widths
/// of the token spans, the skipped characters and the stray characters add
/// up to the length of the text.
pub proof fn lemma_spans_cover_text(s: Seq<char>)
    requires
        s.len() < i32::MAX,
        run_tally(s, 0).unspanned == 0,
    ensures
        run_tally(s, 0).spanned + run_tally(s, 0).skipped + run_tally(s, 0).recovered == s.len(),
{
    lemma_every_character_counted(s, 0);
}

} // verus!
