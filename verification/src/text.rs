//! Small text utilities shared by the scanner and the diagnostics: growing a
//! `String` one character at a time, decimal numerals, padding and comparison.

use vstd::prelude::*;
use vstd::std_specs::iter::IteratorSpec;

verus! {

/// Appends one character to a string.
///
/// Trusted: calls `String::push` of the standard library, which by its
/// documentation appends the given character to the end of the string.
#[verifier::external_body]
pub(crate) fn push_char(s: &mut String, c: char)
    ensures
        final(s)@ == old(s)@.push(c),
{
    s.push(c)
}

/// The character of a decimal digit.
pub open spec fn digit_char(d: int) -> char {
    ((48 + d) as u8) as char
}

/// The decimal numeral of a natural number, without leading zeros.
pub open spec fn decimal_nat(n: nat) -> Seq<char>
    decreases n,
{
    if n < 10 {
        seq![digit_char(n as int)]
    } else {
        decimal_nat(n / 10).push(digit_char((n % 10) as int))
    }
}

/// The decimal numeral of an integer, with `-` before a negative one.
pub open spec fn decimal(n: int) -> Seq<char> {
    if n < 0 {
        seq!['-'] + decimal_nat((-n) as nat)
    } else {
        decimal_nat(n as nat)
    }
}

/// A larger natural number has no shorter numeral.
pub proof fn lemma_decimal_width_monotonic(a: nat, b: nat)
    requires
        a <= b,
    ensures
        1 <= decimal_nat(a).len() <= decimal_nat(b).len(),
    decreases b,
{
    if b >= 10 {
        if a >= 10 {
            lemma_decimal_width_monotonic(a / 10, b / 10);
        } else {
            lemma_decimal_width_monotonic(0, b / 10);
        }
    }
}

fn push_decimal_nat(out: &mut String, n: u32)
    ensures
        final(out)@ == old(out)@ + decimal_nat(n as nat),
    decreases n,
{
    if n >= 10 {
        push_decimal_nat(out, n / 10);
    }
    let d: u8 = (n % 10) as u8;
    push_char(out, (48u8 + d) as char);
}

/// Appends the decimal numeral of `n`.
pub(crate) fn push_decimal(out: &mut String, n: i32)
    ensures
        final(out)@ == old(out)@ + decimal(n as int),
{
    if n < 0 {
        push_char(out, '-');
        let m: u32 = if n == i32::MIN {
            2147483648u32
        } else {
            (-n) as u32
        };
        push_decimal_nat(out, m);
    } else {
        push_decimal_nat(out, n as u32);
    }
}

/// The number of characters in the decimal numeral of `n`.
pub(crate) fn decimal_width(n: i32) -> (w: usize)
    ensures
        w == decimal(n as int).len(),
        1 <= w <= 11,
{
    let m: u32 = if n < 0 {
        if n == i32::MIN {
            2147483648u32
        } else {
            (-n) as u32
        }
    } else {
        n as u32
    };
    let digits: usize = if m < 10 {
        1
    } else if m < 100 {
        2
    } else if m < 1000 {
        3
    } else if m < 10000 {
        4
    } else if m < 100000 {
        5
    } else if m < 1000000 {
        6
    } else if m < 10000000 {
        7
    } else if m < 100000000 {
        8
    } else if m < 1000000000 {
        9
    } else {
        10
    };
    proof {
        reveal_with_fuel(decimal_nat, 11);
        assert(digits == decimal_nat(m as nat).len());
    }
    if n < 0 {
        digits + 1
    } else {
        digits
    }
}

/// `count` spaces.
pub open spec fn spaces(count: int) -> Seq<char> {
    Seq::new(
        if count < 0 {
            0nat
        } else {
            count as nat
        },
        |i: int| ' ',
    )
}

/// Appends `count` spaces.
pub(crate) fn push_spaces(out: &mut String, count: usize)
    ensures
        final(out)@ == old(out)@ + spaces(count as int),
{
    let mut i: usize = 0;
    while i < count
        invariant
            i <= count,
            out@ == old(out)@ + spaces(i as int),
        decreases count - i,
    {
        push_char(out, ' ');
        assert(out@ =~= old(out)@ + spaces(i as int + 1));
        i += 1;
    }
    assert(old(out)@ + spaces(0) =~= old(out)@);
}

/// Whether two texts hold the same characters.
pub(crate) fn text_equals(a: &str, b: &str) -> (r: bool)
    ensures
        r == (a@ == b@),
{
    let mut left = a.chars();
    let mut right = b.chars();
    let ghost mut k: int = 0;
    assert(a@.skip(0) =~= a@ && b@.skip(0) =~= b@);
    loop
        invariant
            left.decrease() is Some,
            0 <= k <= a@.len(),
            k <= b@.len(),
            left.remaining() == a@.skip(k),
            right.remaining() == b@.skip(k),
            forall|j: int| 0 <= j < k ==> a@[j] == b@[j],
        decreases left.decrease()->0,
    {
        let x = left.next();
        let y = right.next();
        match x {
            Some(c) => match y {
                Some(d) => {
                    assert(c == a@[k] && d == b@[k]);
                    if c != d {
                        return false;
                    }
                    assert(a@.skip(k).drop_first() =~= a@.skip(k + 1));
                    assert(b@.skip(k).drop_first() =~= b@.skip(k + 1));
                    proof {
                        k = k + 1;
                    }
                },
                None => {
                    assert(b@.len() == k && a@.len() > k);
                    return false;
                },
            },
            None => {
                assert(a@.len() == k);
                match y {
                    Some(_) => {
                        assert(b@.len() > k);
                        return false;
                    },
                    None => {
                        assert(b@.len() == k);
                        assert(a@ =~= b@);
                        return true;
                    },
                }
            },
        }
    }
}

} // verus!
