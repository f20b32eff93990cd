//! Writing numbers with six significant digits.

use crate::float::Single;
use crate::text::{
    chars_of, decimal, digit_value, halves, integer, is_digit, joined, parse_integer, split_once,
    text_of,
};
use vstd::prelude::*;
use vstd::string::*;

verus! {

/// How many digits count.
pub const PRECISION: i32 = 6;

/// The word for a value that has no digits to write, or for a zero, which keeps its
/// sign.
pub open spec fn word_for(v: Single) -> Option<Seq<char>> {
    if v.nan() {
        Some("nan"@)
    } else if !v.finite() {
        if v.place() > 0 {
            Some("inf"@)
        } else {
            Some("-inf"@)
        }
    } else if v.place() == 0 {
        if v.bits >= 0x8000_0000 {
            Some("-0"@)
        } else {
            Some("0"@)
        }
    } else {
        None
    }
}

pub fn special_word(v: Single) -> (r: Option<String>)
    ensures
        match r {
            Some(s) => word_for(v) == Some(s@),
            None => word_for(v) is None,
        },
{
    let zero = Single { bits: 0 };
    if v.is_nan() {
        Some("nan".to_owned())
    } else if !v.is_finite() {
        if v.gt(zero) {
            Some("inf".to_owned())
        } else {
            Some("-inf".to_owned())
        }
    } else if !v.gt(zero) && !zero.gt(v) {
        if v.bits >= 0x8000_0000 {
            Some("-0".to_owned())
        } else {
            Some("0".to_owned())
        }
    } else {
        None
    }
}

/// How a number is written.
#[derive(Clone, Copy, Debug, PartialEq, Eq, Structural)]
pub enum Notation {
    /// With so many digits after the point.
    Fixed(usize),
    /// As a number between one and ten, times a power of ten.
    Scientific,
}

/// How a number is written whose first digit stands for a multiple of ten to the
/// power of `exponent`.
pub fn notation(exponent: i32) -> (r: Notation)
    ensures
        r == (if -4 <= exponent < PRECISION {
            Notation::Fixed((PRECISION - 1 - exponent) as usize)
        } else {
            Notation::Scientific
        }),
{
    if -4 <= exponent && exponent < PRECISION {
        Notation::Fixed((PRECISION - 1 - exponent) as usize)
    } else {
        Notation::Scientific
    }
}

/// `s` without the occurrences of `c` that it ends in.
pub open spec fn trimmed(s: Seq<char>, c: char) -> Seq<char>
    decreases s.len(),
{
    if s.len() > 0 && s.last() == c {
        trimmed(s.drop_last(), c)
    } else {
        s
    }
}

/// `s` without zeros that say nothing: those that it ends in after a point, and the
/// point if nothing follows it.
pub open spec fn stripped(s: Seq<char>) -> Seq<char> {
    if s.contains('.') {
        trimmed(trimmed(s, '0'), '.')
    } else {
        s
    }
}

proof fn lemma_trimmed(s: Seq<char>, c: char, n: int)
    requires
        0 <= n <= s.len(),
        forall|j: int| n <= j < s.len() ==> #[trigger] s[j] == c,
        n == 0 || s[n - 1] != c,
    ensures
        trimmed(s, c) == s.take(n),
    decreases s.len(),
{
    if n < s.len() {
        assert(s[s.len() - 1] == c);
        let t = s.drop_last();
        assert forall|j: int| n <= j < t.len() implies #[trigger] t[j] == c by {
            assert(t[j] == s[j]);
        }
        lemma_trimmed(t, c, n);
        assert(t.take(n) =~= s.take(n));
    } else {
        assert(s.take(n) =~= s);
    }
}

fn trim_end(chars: &Vec<char>, len: usize, c: char) -> (n: usize)
    requires
        len <= chars.len(),
    ensures
        n <= len,
        trimmed(chars@.take(len as int), c) == chars@.take(n as int),
{
    let ghost s = chars@.take(len as int);
    let mut n: usize = len;
    while n > 0 && chars[n - 1] == c
        invariant
            n <= len <= chars.len(),
            s == chars@.take(len as int),
            forall|j: int| n <= j < len ==> #[trigger] s[j] == c,
        decreases n,
    {
        n -= 1;
    }
    proof {
        lemma_trimmed(s, c, n as int);
        assert(s.take(n as int) =~= chars@.take(n as int));
    }
    n
}

/// `s` without zeros that say nothing.
pub fn strip_trailing_zeros(s: &str) -> (r: String)
    ensures
        r@ == stripped(s@),
{
    let chars = chars_of(s);
    let mut found = false;
    let mut i: usize = 0;
    while i < chars.len()
        invariant
            i <= chars.len(),
            found == (exists|j: int| 0 <= j < i && #[trigger] chars@[j] == '.'),
        decreases chars.len() - i,
    {
        if chars[i] == '.' {
            found = true;
        }
        i += 1;
    }
    if !found {
        return s.to_owned();
    }
    assert(s@.contains('.'));
    assert(chars@.take(chars@.len() as int) =~= s@);
    let n = trim_end(&chars, chars.len(), '0');
    let m = trim_end(&chars, n, '.');
    assert(chars@.take(m as int) =~= chars@.subrange(0, m as int));
    text_of(&chars, 0, m)
}

/// The digits of a number.
pub open spec fn digits_of(n: nat) -> Seq<char>
    decreases n,
{
    if n < 10 {
        seq![digit_of(n)]
    } else {
        digits_of(n / 10).push(digit_of(n % 10))
    }
}

pub open spec fn digit_of(n: nat) -> char {
    ('0' as int + n) as char
}

fn digit_char(d: u64) -> (c: char)
    requires
        d < 10,
    ensures
        c == digit_of(d as nat),
{
    match d {
        0 => '0',
        1 => '1',
        2 => '2',
        3 => '3',
        4 => '4',
        5 => '5',
        6 => '6',
        7 => '7',
        8 => '8',
        _ => '9',
    }
}

/// Writes a number in decimal digits.
pub fn digits_text(n: u64) -> (s: String)
    ensures
        s@ == digits_of(n as nat),
    decreases n,
{
    if n < 10 {
        let mut s = String::new();
        s.push(digit_char(n));
        assert(s@ =~= seq![digit_of(n as nat)]);
        s
    } else {
        let mut s = digits_text(n / 10);
        s.push(digit_char(n % 10));
        s
    }
}

/// The digits of a number stand for that number.
pub proof fn law_digits_read_back(n: nat)
    ensures
        digits_of(n).len() > 0,
        forall|i: int| 0 <= i < digits_of(n).len() ==> is_digit(#[trigger] digits_of(n)[i]),
        decimal(digits_of(n)) == n,
    decreases n,
{
    if n < 10 {
        let s = digits_of(n);
        assert(s.drop_last() =~= Seq::empty());
        assert(decimal(s.drop_last()) == 0);
        assert(digit_value(s.last()) == n);
    } else {
        law_digits_read_back(n / 10);
        let s = digits_of(n);
        assert(s.drop_last() =~= digits_of(n / 10));
        assert(digit_value(s.last()) == n % 10);
    }
}

/// A power of ten, with a sign and at least two digits.
pub open spec fn power_text(e: i64) -> Seq<char> {
    let size = if e < 0 {
        -(e as int)
    } else {
        e as int
    };
    (if e < 0 {
        "e-"@
    } else {
        "e+"@
    }) + (if size < 10 {
        "0"@ + digits_of(size as nat)
    } else {
        digits_of(size as nat)
    })
}

/// The parts of a number in scientific notation: the number between one and ten,
/// and the power of ten.
pub open spec fn scientific_parts(s: Seq<char>) -> Option<(Seq<char>, i64)> {
    match halves(s, 'e') {
        Some((m, e)) => match integer(e) {
            Some(i) => Some((m, i)),
            None => None,
        },
        None => None,
    }
}

/// Brings a number in scientific notation into the form in which it is handed out.
/// There is none where `s` is no such number.
pub fn scientific_text(s: &str) -> (r: Option<String>)
    ensures
        match (r, scientific_parts(s@)) {
            (Some(t), Some((m, e))) => t@ == stripped(m) + power_text(e),
            (None, None) => true,
            _ => false,
        },
{
    match split_once(s, 'e') {
        None => None,
        Some((m, e)) => match parse_integer(e.as_str()) {
            None => None,
            Some(i) => {
                let size: u64 = if i < 0 {
                    (-(i as i128)) as u64
                } else {
                    i as u64
                };
                let digits = digits_text(size);
                let padded = if size < 10 {
                    joined("0", digits.as_str())
                } else {
                    digits
                };
                let power = if i < 0 {
                    joined("e-", padded.as_str())
                } else {
                    joined("e+", padded.as_str())
                };
                let mantissa = strip_trailing_zeros(m.as_str());
                Some(joined(mantissa.as_str(), power.as_str()))
            },
        },
    }
}

} // verus!
