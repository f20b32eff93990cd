//! Text primitives: comparing, splitting and joining strings, and the handful
//! of character classes that the protocols use.

use vstd::prelude::*;
use vstd::string::*;
use vstd::utf8::encode_utf8;

verus! {

/// `String::push` appends one character.
pub assume_specification[ String::push ](s: &mut String, c: char)
    ensures
        final(s)@ == old(s)@.push(c),
;

/// Whether two strings hold the same characters.
pub fn same(a: &str, b: &str) -> (r: bool)
    ensures
        r == (a@ == b@),
{
    a.to_owned() == b.to_owned()
}

/// The characters of a string.
pub fn chars_of(s: &str) -> (v: Vec<char>)
    ensures
        v@ == s@,
{
    let mut v: Vec<char> = Vec::new();
    for c in it: s.chars()
        invariant
            v@ == it.seq().take(it.index()),
            it.seq() == s@,
    {
        v.push(c);
    }
    assert(s@.take(s@.len() as int) =~= s@);
    v
}

/// The string made of `chars[from..to]`.
pub fn text_of(chars: &Vec<char>, from: usize, to: usize) -> (s: String)
    requires
        from <= to <= chars.len(),
    ensures
        s@ == chars@.subrange(from as int, to as int),
{
    let mut s = String::new();
    let mut i = from;
    while i < to
        invariant
            from <= i <= to <= chars.len(),
            s@ == chars@.subrange(from as int, i as int),
        decreases to - i,
    {
        s.push(chars[i]);
        i += 1;
        assert(chars@.subrange(from as int, i as int) =~= chars@.subrange(
            from as int,
            i - 1,
        ).push(chars@[i - 1]));
    }
    s
}

/// `a` followed by `b`.
pub fn joined(a: &str, b: &str) -> (s: String)
    ensures
        s@ == a@ + b@,
{
    let mut s = a.to_owned();
    s.append(b);
    s
}

/// The pieces of `s` between occurrences of `sep`.
pub open spec fn pieces(s: Seq<char>, sep: char) -> Seq<Seq<char>>
    decreases s.len(),
{
    if s.len() == 0 {
        seq![Seq::empty()]
    } else {
        let before = pieces(s.drop_last(), sep);
        if s.last() == sep {
            before.push(Seq::empty())
        } else {
            before.drop_last().push(before.last().push(s.last()))
        }
    }
}

/// The characters of each string of a list.
pub open spec fn texts(v: Seq<String>) -> Seq<Seq<char>> {
    v.map_values(|s: String| s@)
}

proof fn lemma_pieces_nonempty(s: Seq<char>, sep: char)
    ensures
        pieces(s, sep).len() >= 1,
    decreases s.len(),
{
    if s.len() > 0 {
        lemma_pieces_nonempty(s.drop_last(), sep);
    }
}

/// Splits `s` at every `sep`.
pub fn split(s: &str, sep: char) -> (v: Vec<String>)
    ensures
        texts(v@) == pieces(s@, sep),
        v.len() >= 1,
{
    let chars = chars_of(s);
    let mut v: Vec<String> = Vec::new();
    let mut piece = String::new();
    let mut i: usize = 0;
    assert(pieces(chars@.take(0), sep) =~= texts(v@).push(piece@));
    while i < chars.len()
        invariant
            i <= chars.len(),
            chars@ == s@,
            pieces(chars@.take(i as int), sep) == texts(v@).push(piece@),
        decreases chars.len() - i,
    {
        let c = chars[i];
        let ghost before = texts(v@).push(piece@);
        assert(chars@.take(i + 1).drop_last() =~= chars@.take(i as int));
        assert(before.drop_last() =~= texts(v@));
        if c == sep {
            let done = piece;
            piece = String::new();
            let ghost v0 = v@;
            v.push(done);
            assert(texts(v@) =~= texts(v0).push(done@));
        } else {
            piece.push(c);
        }
        i += 1;
    }
    assert(chars@.take(i as int) =~= s@);
    let ghost v0 = v@;
    v.push(piece);
    assert(texts(v@) =~= texts(v0).push(piece@));
    v
}

/// How many characters of `s` come before the first `c`.
pub open spec fn until(s: Seq<char>, c: char) -> nat
    decreases s.len(),
{
    if s.len() == 0 || s[0] == c {
        0
    } else {
        1 + until(s.drop_first(), c)
    }
}

pub proof fn lemma_until(s: Seq<char>, c: char, i: nat)
    requires
        i <= s.len(),
        forall|j: int| 0 <= j < i ==> s[j] != c,
        i == s.len() || s[i as int] == c,
    ensures
        until(s, c) == i,
    decreases s.len(),
{
    if i > 0 {
        let t = s.drop_first();
        assert forall|j: int| 0 <= j < i - 1 implies t[j] != c by {
            assert(t[j] == s[j + 1]);
        }
        if i < s.len() {
            assert(t[i - 1] == s[i as int]);
        }
        lemma_until(t, c, (i - 1) as nat);
    }
}

/// What stands before and after the first `sep`.
pub open spec fn halves(s: Seq<char>, sep: char) -> Option<(Seq<char>, Seq<char>)> {
    let u = until(s, sep) as int;
    if u < s.len() {
        Some((s.take(u), s.skip(u + 1)))
    } else {
        None
    }
}

/// Splits `s` at its first `sep`.
pub fn split_once(s: &str, sep: char) -> (r: Option<(String, String)>)
    ensures
        match r {
            Some((a, b)) => halves(s@, sep) == Some((a@, b@)),
            None => halves(s@, sep) is None,
        },
{
    let chars = chars_of(s);
    let mut i: usize = 0;
    while i < chars.len() && chars[i] != sep
        invariant
            i <= chars.len(),
            chars@ == s@,
            forall|j: int| 0 <= j < i ==> s@[j] != sep,
        decreases chars.len() - i,
    {
        i += 1;
    }
    proof {
        lemma_until(s@, sep, i as nat);
    }
    if i < chars.len() {
        assert(s@.take(i as int) =~= s@.subrange(0, i as int));
        assert(s@.skip(i + 1) =~= s@.subrange(i + 1, s@.len() as int));
        Some((text_of(&chars, 0, i), text_of(&chars, i + 1, chars.len())))
    } else {
        None
    }
}

/// `s` without the leading `prefix`, where it has it.
pub fn strip_prefix(s: &str, prefix: &str) -> (r: Option<String>)
    ensures
        r matches Some(rest) ==> s@ == prefix@ + rest@,
        r is None ==> !prefix@.is_prefix_of(s@),
{
    let chars = chars_of(s);
    let head = chars_of(prefix);
    if head.len() > chars.len() {
        return None;
    }
    let mut i: usize = 0;
    while i < head.len()
        invariant
            i <= head.len() <= chars.len(),
            chars@ == s@,
            head@ == prefix@,
            forall|j: int| 0 <= j < i ==> s@[j] == prefix@[j],
        decreases head.len() - i,
    {
        if chars[i] != head[i] {
            assert(s@.subrange(0, prefix@.len() as int)[i as int] == s@[i as int]);
            return None;
        }
        i += 1;
    }
    let rest = text_of(&chars, head.len(), chars.len());
    assert(s@ =~= prefix@ + rest@);
    Some(rest)
}

/// `s` without the trailing `suffix`, where it has it.
pub fn strip_suffix(s: &str, suffix: &str) -> (r: Option<String>)
    ensures
        r matches Some(rest) ==> s@ == rest@ + suffix@,
        r is None ==> !suffix@.is_suffix_of(s@),
{
    let chars = chars_of(s);
    let tail = chars_of(suffix);
    if tail.len() > chars.len() {
        return None;
    }
    let at = chars.len() - tail.len();
    let mut i: usize = 0;
    while i < tail.len()
        invariant
            i <= tail.len(),
            at + tail.len() == chars.len(),
            chars@ == s@,
            tail@ == suffix@,
            forall|j: int| 0 <= j < i ==> s@[at + j] == suffix@[j],
        decreases tail.len() - i,
    {
        if chars[at + i] != tail[i] {
            assert(s@.subrange(at as int, s@.len() as int)[i as int] == s@[at + i]);
            return None;
        }
        i += 1;
    }
    let rest = text_of(&chars, 0, at);
    assert(s@ =~= rest@ + suffix@);
    Some(rest)
}

/// Whether `c` is one of `0` to `9`.
pub open spec fn is_digit(c: char) -> bool {
    '0' <= c <= '9'
}

/// The number that a digit stands for.
pub open spec fn digit_value(c: char) -> int {
    c as int - '0' as int
}

/// The number that a run of decimal digits stands for.
pub open spec fn decimal(s: Seq<char>) -> int
    decreases s.len(),
{
    if s.len() == 0 {
        0
    } else {
        decimal(s.drop_last()) * 10 + digit_value(s.last())
    }
}

/// Where the digits of a decimal integer start: past an optional sign.
pub open spec fn sign_len(s: Seq<char>) -> int {
    if s.len() > 0 && (s[0] == '-' || s[0] == '+') {
        1
    } else {
        0
    }
}

/// The integer that `s` spells: an optional sign, then one or more digits,
/// in the range of 64 bits.
pub open spec fn integer(s: Seq<char>) -> Option<i64> {
    let digits = s.skip(sign_len(s));
    let magnitude = decimal(digits);
    let value = if s.len() > 0 && s[0] == '-' {
        -magnitude
    } else {
        magnitude
    };
    if digits.len() > 0 && (forall|i: int| 0 <= i < digits.len() ==> is_digit(#[trigger] digits[i]))
        && i64::MIN <= value <= i64::MAX {
        Some(value as i64)
    } else {
        None
    }
}

proof fn lemma_decimal_grows(s: Seq<char>, n: int)
    requires
        0 <= n <= s.len(),
        forall|i: int| 0 <= i < s.len() ==> is_digit(#[trigger] s[i]),
    ensures
        0 <= decimal(s.take(n)) <= decimal(s),
    decreases s.len(),
{
    if n == s.len() {
        assert(s.take(n) =~= s);
        if s.len() > 0 {
            lemma_decimal_grows(s.drop_last(), s.len() - 1);
            assert(s.drop_last().take(s.len() - 1) =~= s.drop_last());
            assert(is_digit(s[s.len() - 1]));
        }
    } else {
        lemma_decimal_grows(s.drop_last(), n);
        assert(s.drop_last().take(n) =~= s.take(n));
        assert(is_digit(s[s.len() - 1]));
    }
}

/// Reads a decimal integer, as `str::parse` does for `i64`.
pub fn parse_integer(s: &str) -> (r: Option<i64>)
    ensures
        r == integer(s@),
{
    let chars = chars_of(s);
    let negative = chars.len() > 0 && chars[0] == '-';
    let start: usize = if chars.len() > 0 && (chars[0] == '-' || chars[0] == '+') {
        1
    } else {
        0
    };
    let ghost digits = s@.skip(sign_len(s@));
    if start == chars.len() {
        return None;
    }
    let mut i: usize = start;
    while i < chars.len()
        invariant
            start <= i <= chars.len(),
            chars@ == s@,
            start == sign_len(s@),
            digits == s@.skip(start as int),
            forall|j: int| 0 <= j < i - start ==> is_digit(#[trigger] digits[j]),
        decreases chars.len() - i,
    {
        if !('0' <= chars[i] && chars[i] <= '9') {
            assert(!is_digit(digits[i - start]));
            return None;
        }
        i += 1;
    }
    let mut magnitude: i128 = 0;
    let mut k: usize = start;
    while k < chars.len()
        invariant
            start <= k <= chars.len(),
            chars@ == s@,
            start == sign_len(s@),
            digits == s@.skip(start as int),
            digits.len() == chars.len() - start,
            digits.len() > 0,
            negative == (s@.len() > 0 && s@[0] == '-'),
            forall|j: int| 0 <= j < digits.len() ==> is_digit(#[trigger] digits[j]),
            magnitude == decimal(digits.take(k - start)),
            0 <= magnitude <= 0x8000_0000_0000_0000,
        decreases chars.len() - k,
    {
        proof {
            assert(is_digit(digits[k - start]));
            assert(digits.take(k - start + 1).drop_last() =~= digits.take(k - start));
            lemma_decimal_grows(digits, k - start + 1);
        }
        magnitude = magnitude * 10 + (chars[k] as u32 - '0' as u32) as i128;
        if magnitude > 0x8000_0000_0000_0000 {
            return None;
        }
        k += 1;
    }
    assert(digits.take(digits.len() as int) =~= digits);
    let value: i128 = if negative {
        -magnitude
    } else {
        magnitude
    };
    if value > 0x7fff_ffff_ffff_ffff {
        None
    } else {
        Some(value as i64)
    }
}

/// `c` with the letters `A` to `Z` made small.
pub open spec fn small(c: char) -> char {
    if 'A' <= c <= 'Z' {
        ((c as u8 + 32) as u8) as char
    } else {
        c
    }
}

/// The lower-case form of `s` as far as ASCII letters go.
pub fn lowercase(s: &str) -> (r: String)
    ensures
        r@ == s@.map_values(|c: char| small(c)),
{
    let chars = chars_of(s);
    let mut r = String::new();
    let mut i: usize = 0;
    while i < chars.len()
        invariant
            i <= chars.len(),
            chars@ == s@,
            r@ == s@.take(i as int).map_values(|c: char| small(c)),
        decreases chars.len() - i,
    {
        let c = chars[i];
        if 'A' <= c && c <= 'Z' {
            r.push((c as u8 + 32) as char);
        } else {
            r.push(c);
        }
        i += 1;
        assert(s@.take(i as int).map_values(|c: char| small(c)) =~= s@.take(i - 1).map_values(
            |c: char| small(c),
        ).push(small(c)));
    }
    assert(s@.take(i as int) =~= s@);
    r
}

/// Whether `a` comes after `b` in the order of words, or is the same.
pub open spec fn not_before(a: Seq<char>, b: Seq<char>) -> bool
    decreases b.len(),
{
    if b.len() == 0 {
        true
    } else if a.len() == 0 {
        false
    } else if a[0] == b[0] {
        not_before(a.drop_first(), b.drop_first())
    } else {
        a[0] > b[0]
    }
}

/// Whether `a >= b`.
pub fn at_least(a: &str, b: &str) -> (r: bool)
    ensures
        r == not_before(a@, b@),
{
    let x = chars_of(a);
    let y = chars_of(b);
    let mut i: usize = 0;
    assert(a@.skip(0) =~= a@);
    assert(b@.skip(0) =~= b@);
    while i < y.len()
        invariant
            i <= y.len(),
            i <= x.len(),
            x@ == a@,
            y@ == b@,
            not_before(a@, b@) == not_before(a@.skip(i as int), b@.skip(i as int)),
        decreases y.len() - i,
    {
        if i >= x.len() {
            return false;
        }
        if x[i] != y[i] {
            return x[i] > y[i];
        }
        assert(a@.skip(i as int).drop_first() =~= a@.skip(i + 1));
        assert(b@.skip(i as int).drop_first() =~= b@.skip(i + 1));
        i += 1;
    }
    true
}

// ---- bytes ----

/// What `String::from_utf8_lossy` makes of bytes.
pub uninterp spec fn lossy(b: Seq<u8>) -> Seq<char>;

/// Whether all bytes are ASCII.
pub open spec fn plain(b: Seq<u8>) -> bool {
    forall|i: int| 0 <= i < b.len() ==> #[trigger] b[i] < 128
}

/// The characters of ASCII bytes.
pub open spec fn characters(b: Seq<u8>) -> Seq<char> {
    b.map_values(|x: u8| x as char)
}

/// `String::from_utf8_lossy`: the text depends on the bytes alone; it is the text
/// whose UTF-8 form the bytes are, if there is one; and bytes below 128 are the
/// characters of these numbers. How other bytes are replaced is left unsaid.
#[verifier::external_body]
pub(crate) fn text_of_bytes(b: &[u8]) -> (r: String)
    ensures
        r@ == lossy(b@),
        forall|t: Seq<char>| #[trigger] encode_utf8(t) == b@ ==> r@ == t,
        plain(b@) ==> r@ == characters(b@),
{
    String::from_utf8_lossy(b).into_owned()
}

} // verus!
