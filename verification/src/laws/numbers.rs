//! What holds of numbers: how they are cut, rounded and compared, and what they are
//! written as.

use crate::float::{round_even, Double, Single};
use crate::usb::bootloader::{base64_bytes, byte_of, bytes_of, idle, sextet, sextets};
use crate::usb::m1k::{blank_len, leading, number_len};
use vstd::arithmetic::div_mod::{
    lemma_fundamental_div_mod, lemma_fundamental_div_mod_converse, lemma_mod_bound,
    lemma_mod_multiples_vanish,
};
use vstd::arithmetic::power2::{lemma_pow2_pos, pow2};
use vstd::prelude::*;

verus! {

/// A number that is cut to fewer bits keeps its low ones.
pub proof fn law_low_bits_are_kept(x: i64)
    ensures
        (x as u8) as int == x as int % 0x100,
        (x as u16) as int == x as int % 0x1_0000,
        (x as u32) as int == x as int % 0x1_0000_0000,
{
    let y = x as u64;
    assert(x as u8 == y as u8) by (bit_vector)
        requires
            y == x as u64,
    ;
    assert(x as u16 == y as u16) by (bit_vector)
        requires
            y == x as u64,
    ;
    assert(x as u32 == y as u32) by (bit_vector)
        requires
            y == x as u64,
    ;
    assert(y as u8 == y % 0x100) by (bit_vector);
    assert(y as u16 == y % 0x1_0000) by (bit_vector);
    assert(y as u32 == y % 0x1_0000_0000) by (bit_vector);
    assert(x < 0 ==> y == x + 0x1_0000_0000_0000_0000) by (bit_vector)
        requires
            y == x as u64,
    ;
    assert(x >= 0 ==> y == x) by (bit_vector)
        requires
            y == x as u64,
    ;
    if x < 0 {
        lemma_mod_multiples_vanish(0x100_0000_0000_0000, x as int, 0x100);
        lemma_mod_multiples_vanish(0x1_0000_0000_0000, x as int, 0x1_0000);
        lemma_mod_multiples_vanish(0x1_0000_0000, x as int, 0x1_0000_0000);
    }
}

/// A number that is cut to fewer bits with a sign differs from the number by whole
/// rounds of these bits.
pub proof fn law_low_bits_with_sign_are_kept(x: i64)
    ensures
        (x as i8 - x) % 0x100 == 0,
        (x as i16 - x) % 0x1_0000 == 0,
        (x as i32 - x) % 0x1_0000_0000 == 0,
{
    law_low_bits_are_kept(x);
    let a = x as i8;
    let b = x as i16;
    let c = x as i32;
    assert(a as u8 == x as u8) by (bit_vector)
        requires
            a == x as i8,
    ;
    assert(b as u16 == x as u16) by (bit_vector)
        requires
            b == x as i16,
    ;
    assert(c as u32 == x as u32) by (bit_vector)
        requires
            c == x as i32,
    ;
    assert(a < 0 ==> a as u8 == a + 0x100) by (bit_vector);
    assert(b < 0 ==> b as u16 == b + 0x1_0000) by (bit_vector);
    assert(c < 0 ==> c as u32 == c + 0x1_0000_0000) by (bit_vector);
    lemma_whole_rounds(x as int, a as int, 0x100);
    lemma_whole_rounds(x as int, b as int, 0x1_0000);
    lemma_whole_rounds(x as int, c as int, 0x1_0000_0000);
}

proof fn lemma_whole_rounds(x: int, a: int, m: int)
    requires
        m > 0,
        a == x % m || a == x % m - m,
    ensures
        (a - x) % m == 0,
{
    lemma_fundamental_div_mod(x, m);
    let q = x / m;
    let r = if a == x % m {
        -q
    } else {
        -q - 1
    };
    assert(a - x == r * m + 0) by (nonlinear_arith)
        requires
            x == m * q + x % m,
            (a == x % m && r == -q) || (a == x % m - m && r == -q - 1),
    ;
    lemma_fundamental_div_mod_converse(a - x, m, r, 0);
}

// ---- rounding ----

proof fn lemma_rounds(n: int, d: int)
    requires
        n >= 0,
        d > 0,
    ensures
        ({
            let q = round_even(n, d);
            let off = n - q * d;
            &&& q >= 0
            &&& -d <= 2 * off <= d
            &&& 2 * off == d || 2 * off == -d ==> q % 2 == 0
        }),
{
    lemma_fundamental_div_mod(n, d);
    lemma_mod_bound(n, d);
    let q = n / d;
    let r = n % d;
    assert(q >= 0 && (q + 1) * d == q * d + d && d * q == q * d) by (nonlinear_arith)
        requires
            n == d * q + r,
            0 <= r < d,
            n >= 0,
            d > 0,
    ;
}

/// The binary32 value that is nearest to a binary64 value: its sign is the same, and of
/// the two neighbours the nearer is taken, or the even one where both are as near. What
/// has no room becomes infinite, and NaN stays NaN.
///
/// A binary32 value with the bits `m`, but for its sign, stands for as many units of the
/// last place as `m` less the place of its exponent.
pub proof fn law_narrowing_is_nearest(x: Double)
    ensures
        ({
            let s = x.narrowed();
            let e = x.exponent();
            let m = s.bits as int % 0x8000_0000;
            &&& x.nan() ==> s.nan()
            &&& !x.nan() ==> (s.bits >= 0x8000_0000 <==> x.bits >= 0x8000_0000_0000_0000)
            &&& !x.nan() && e >= 1151 ==> m == 0x7f80_0000
            &&& 897 <= e < 1151 && m < 0x7f80_0000 ==> {
                let off = x.significand() - (m - (e - 897) * 0x80_0000) * 0x2000_0000;
                &&& -0x1000_0000 <= off <= 0x1000_0000
                &&& off == 0x1000_0000 || off == -0x1000_0000 ==> m % 2 == 0
            }
            &&& e < 897 ==> {
                let unit = pow2((926 - e) as nat) as int;
                let off = x.significand() - m * unit;
                &&& -unit <= 2 * off <= unit
                &&& 2 * off == unit || 2 * off == -unit ==> m % 2 == 0
            }
        }),
{
    let e = x.exponent();
    vstd::arithmetic::power2::lemma2_to64();
    if !x.nan() {
        if e >= 897 {
            lemma_rounds(x.significand(), 0x2000_0000);
        } else {
            let k = (926 - e) as nat;
            lemma_pow2_pos(k);
            lemma_rounds(x.significand(), pow2(k) as int);
            let unit = pow2(k) as int;
            let q = round_even(x.significand(), unit);
            if k > 30 {
                vstd::arithmetic::power2::lemma_pow2_strictly_increases(30, k);
            }
            assert(q <= 0x80_0000) by (nonlinear_arith)
                requires
                    0 <= q,
                    2 * (x.significand() - q * unit) >= -unit,
                    x.significand() < 0x20_0000_0000_0000,
                    unit >= 0x4000_0000,
            ;
        }
    }
}

/// The integer part of a binary64 value: rounded towards zero; what is beyond 64 bits
/// goes to the nearest end of their range, and NaN goes to zero.
pub proof fn law_integer_part(x: Double)
    ensures
        ({
            let n = x.integer() as int;
            let size = if n < 0 {
                -n
            } else {
                n
            };
            let e = x.exponent();
            &&& x.nan() ==> n == 0
            &&& !x.nan() && e >= 1086 ==> n == (if x.bits >= 0x8000_0000_0000_0000 {
                -0x8000_0000_0000_0000
            } else {
                0x7fff_ffff_ffff_ffff
            })
            &&& e < 1086 ==> (x.bits >= 0x8000_0000_0000_0000 ==> n <= 0) && (x.bits
                < 0x8000_0000_0000_0000 ==> n >= 0)
            &&& 1 <= e < 1075 ==> size * pow2((1075 - e) as nat) <= x.significand() < (size + 1)
                * pow2((1075 - e) as nat)
            &&& 1075 <= e < 1086 ==> size == x.significand() * pow2((e - 1075) as nat)
            &&& e == 0 ==> n == 0
        }),
{
    let e = x.exponent();
    let m = x.significand();
    vstd::arithmetic::power2::lemma2_to64();
    if 1 <= e < 1075 {
        let d = pow2((1075 - e) as nat) as int;
        lemma_pow2_pos((1075 - e) as nat);
        lemma_fundamental_div_mod(m, d);
        lemma_mod_bound(m, d);
        let q = m / d;
        assert(0 <= q <= m && q * d <= m && m < (q + 1) * d) by (nonlinear_arith)
            requires
                m == d * q + m % d,
                0 <= m % d < d,
                m >= 0,
        ;
    } else if 1075 <= e < 1086 {
        let k = (e - 1075) as nat;
        if k < 10 {
            vstd::arithmetic::power2::lemma_pow2_strictly_increases(k, 10);
        }
        lemma_pow2_pos(k);
        assert(0 <= m * pow2(k) < 0x8000_0000_0000_0000) by (nonlinear_arith)
            requires
                0 <= m < 0x20_0000_0000_0000,
                0 < pow2(k) <= 0x400,
        ;
    }
}

/// The order of numbers: NaN is above nothing and below nothing, the two zeros are
/// equal, and otherwise sign and bits decide.
pub proof fn law_order_of_numbers(a: Single, b: Single, x: Double, y: Double)
    ensures
        ({
            let p = a.bits as int % 0x8000_0000;
            let q = b.bits as int % 0x8000_0000;
            let up = a.bits < 0x8000_0000;
            let uq = b.bits < 0x8000_0000;
            a.above(b) <==> p <= 0x7f80_0000 && q <= 0x7f80_0000 && ((up && uq && p > q) || (up
                && !uq && p + q > 0) || (!up && !uq && p < q))
        }),
        ({
            let p = x.bits as int % 0x8000_0000_0000_0000;
            let q = y.bits as int % 0x8000_0000_0000_0000;
            let up = x.bits < 0x8000_0000_0000_0000;
            let uq = y.bits < 0x8000_0000_0000_0000;
            x.above(y) <==> p <= 0x7ff0_0000_0000_0000 && q <= 0x7ff0_0000_0000_0000 && ((up && uq
                && p > q) || (up && !uq && p + q > 0) || (!up && !uq && p < q))
        }),
{
}

// ---- base64 ----

/// The number that a letter of the base64 alphabet stands for: the capital letters come
/// first, then the small ones, the digits, plus and slash.
pub open spec fn letter(c: char) -> int {
    if 'A' <= c <= 'Z' {
        c as int - 65
    } else if 'a' <= c <= 'z' {
        c as int - 71
    } else if '0' <= c <= '9' {
        c as int + 4
    } else if c == '+' {
        62
    } else if c == '/' {
        63
    } else {
        -1
    }
}

/// Whether a character may stand in a base64 text without meaning.
pub open spec fn meaningless(c: char) -> bool {
    c == ' ' || c == '\t' || c == '\n' || c == '\r' || c == '\u{c}' || c == '='
}

/// Four letters of base64 make up three bytes, the first letter counting most; three
/// make up two bytes, and two make up one.
pub proof fn law_base64_letters(a: char, b: char, c: char, d: char)
    requires
        letter(a) >= 0,
        letter(b) >= 0,
        letter(c) >= 0,
        letter(d) >= 0,
    ensures
        ({
            let all = ((letter(a) * 64 + letter(b)) * 64 + letter(c)) * 64 + letter(d);
            base64_bytes(seq![a, b, c, d]) == Some(
                seq![(all / 0x1_0000) as u8, ((all / 0x100) % 0x100) as u8, (all % 0x100) as u8],
            )
        }),
        base64_bytes(seq![a, b, c]) == Some(
            seq![
                (letter(a) * 4 + letter(b) / 16) as u8,
                ((letter(b) % 16) * 16 + letter(c) / 4) as u8,
            ],
        ),
        base64_bytes(seq![a, b]) == Some(seq![(letter(a) * 4 + letter(b) / 16) as u8]),
        base64_bytes(seq![a]) is None,
{
    let (x, y, z, w) = (letter(a), letter(b), letter(c), letter(d));
    lemma_letters(a, b, c, d);
    lemma_three_bytes(x as u8, y as u8, z as u8, w as u8);
    lemma_digits_of_64(x, y, z, w);
}

proof fn lemma_letter(c: char)
    requires
        letter(c) >= 0,
    ensures
        letter(c) < 64,
        sextet(c) == Some(letter(c) as u8),
        !idle(c),
{
}

proof fn lemma_letters(a: char, b: char, c: char, d: char)
    requires
        letter(a) >= 0,
        letter(b) >= 0,
        letter(c) >= 0,
        letter(d) >= 0,
    ensures
        sextets(seq![a]) == Some(seq![letter(a) as u8]),
        sextets(seq![a, b]) == Some(seq![letter(a) as u8, letter(b) as u8]),
        sextets(seq![a, b, c]) == Some(seq![letter(a) as u8, letter(b) as u8, letter(c) as u8]),
        sextets(seq![a, b, c, d]) == Some(
            seq![letter(a) as u8, letter(b) as u8, letter(c) as u8, letter(d) as u8],
        ),
        letter(a) < 64,
        letter(b) < 64,
        letter(c) < 64,
        letter(d) < 64,
{
    lemma_letter(a);
    lemma_letter(b);
    lemma_letter(c);
    lemma_letter(d);
    let empty = Seq::<char>::empty();
    assert(sextets(empty) == Some(Seq::<u8>::empty()));
    lemma_one_more(empty, Seq::empty(), a);
    assert(empty.push(a) =~= seq![a]);
    assert(Seq::<u8>::empty().push(letter(a) as u8) =~= seq![letter(a) as u8]);
    lemma_one_more(seq![a], seq![letter(a) as u8], b);
    assert(seq![a].push(b) =~= seq![a, b]);
    let t2 = seq![letter(a) as u8, letter(b) as u8];
    assert(seq![letter(a) as u8].push(letter(b) as u8) =~= t2);
    lemma_one_more(seq![a, b], t2, c);
    assert(seq![a, b].push(c) =~= seq![a, b, c]);
    let t3 = seq![letter(a) as u8, letter(b) as u8, letter(c) as u8];
    assert(t2.push(letter(c) as u8) =~= t3);
    lemma_one_more(seq![a, b, c], t3, d);
    assert(seq![a, b, c].push(d) =~= seq![a, b, c, d]);
    assert(t3.push(letter(d) as u8) =~= seq![
        letter(a) as u8,
        letter(b) as u8,
        letter(c) as u8,
        letter(d) as u8,
    ]);
}

proof fn lemma_one_more(s: Seq<char>, t: Seq<u8>, c: char)
    requires
        sextets(s) == Some(t),
        letter(c) >= 0,
    ensures
        sextets(s.push(c)) == Some(t.push(letter(c) as u8)),
{
    lemma_letter(c);
    assert(s.push(c).drop_last() =~= s);
}

proof fn lemma_three_bytes(x: u8, y: u8, z: u8, w: u8)
    ensures
        bytes_of(seq![x, y, z, w]) == seq![
            (x * 4 + y / 16) as u8,
            ((y % 16) * 16 + z / 4) as u8,
            ((z % 4) * 64 + w) as u8,
        ],
        bytes_of(seq![x, y, z]) == seq![(x * 4 + y / 16) as u8, ((y % 16) * 16 + z / 4) as u8],
        bytes_of(seq![x, y]) == seq![(x * 4 + y / 16) as u8],
{
    let t = seq![x, y, z, w];
    assert(byte_of(t, 0) == (x * 4 + y / 16) as u8);
    assert(byte_of(t, 1) == ((y % 16) * 16 + z / 4) as u8);
    assert(byte_of(t, 2) == ((z % 4) * 64 + w) as u8);
    assert(bytes_of(t) =~= seq![
        (x * 4 + y / 16) as u8,
        ((y % 16) * 16 + z / 4) as u8,
        ((z % 4) * 64 + w) as u8,
    ]);
    let u = seq![x, y, z];
    assert(byte_of(u, 0) == (x * 4 + y / 16) as u8);
    assert(byte_of(u, 1) == ((y % 16) * 16 + z / 4) as u8);
    assert(bytes_of(u) =~= seq![(x * 4 + y / 16) as u8, ((y % 16) * 16 + z / 4) as u8]);
    let v = seq![x, y];
    assert(byte_of(v, 0) == (x * 4 + y / 16) as u8);
    assert(bytes_of(v) =~= seq![(x * 4 + y / 16) as u8]);
}

proof fn lemma_digits_of_64(x: int, y: int, z: int, w: int)
    requires
        0 <= x < 64,
        0 <= y < 64,
        0 <= z < 64,
        0 <= w < 64,
    ensures
        ({
            let all = ((x * 64 + y) * 64 + z) * 64 + w;
            &&& all / 0x1_0000 == x * 4 + y / 16
            &&& (all / 0x100) % 0x100 == (y % 16) * 16 + z / 4
            &&& all % 0x100 == (z % 4) * 64 + w
        }),
{
    let all = ((x * 64 + y) * 64 + z) * 64 + w;
    let y1 = y / 16;
    let y0 = y % 16;
    let z1 = z / 4;
    let z0 = z % 4;
    assert(all == 0x1_0000 * (x * 4 + y1) + (0x1000 * y0 + 64 * z + w));
    lemma_fundamental_div_mod_converse(
        all,
        0x1_0000,
        x * 4 + y1,
        0x1000 * y0 + 64 * z + w,
    );
    assert(all == 0x100 * (0x100 * (x * 4 + y1) + 16 * y0 + z1) + (64 * z0 + w));
    lemma_fundamental_div_mod_converse(
        all,
        0x100,
        0x100 * (x * 4 + y1) + 16 * y0 + z1,
        64 * z0 + w,
    );
    lemma_fundamental_div_mod_converse(
        all / 0x100,
        0x100,
        x * 4 + y1,
        16 * y0 + z1,
    );
}

/// A text with a character that is neither a letter of the alphabet nor without meaning
/// is no base64.
pub proof fn law_base64_has_nothing_else(s: Seq<char>, i: int)
    requires
        0 <= i < s.len(),
        letter(s[i]) < 0,
        !meaningless(s[i]),
    ensures
        base64_bytes(s) is None,
{
    lemma_foreign(s, i);
}

proof fn lemma_foreign(s: Seq<char>, i: int)
    requires
        0 <= i < s.len(),
        letter(s[i]) < 0,
        !meaningless(s[i]),
    ensures
        sextets(s) is None,
    decreases s.len(),
{
    if i < s.len() - 1 {
        assert(s.drop_last()[i] == s[i]);
        lemma_foreign(s.drop_last(), i);
    }
}

/// White space and padding, and only these, make no difference in base64.
pub proof fn law_base64_padding(a: Seq<char>, c: char, b: Seq<char>)
    requires
        meaningless(c),
    ensures
        base64_bytes(a.push(c) + b) == base64_bytes(a + b),
{
    crate::usb::bootloader::law_idle_characters_do_not_count(a, c, b);
}

// ---- leading numbers ----

/// White space in front of a number does not count.
pub proof fn law_blanks_before_a_number(blanks: Seq<char>, s: Seq<char>)
    requires
        forall|i: int|
            0 <= i < blanks.len() ==> (#[trigger] blanks[i] == ' ' || '\t' <= blanks[i] <= '\r'),
        s.len() > 0 ==> s[0] != ' ' && !('\t' <= s[0] <= '\r'),
    ensures
        leading(blanks + s) == s.take(number_len(s)),
{
    lemma_blanks(blanks, s);
    assert((blanks + s).skip(blanks.len() as int) =~= s);
}

proof fn lemma_blanks(blanks: Seq<char>, s: Seq<char>)
    requires
        forall|i: int|
            0 <= i < blanks.len() ==> (#[trigger] blanks[i] == ' ' || '\t' <= blanks[i] <= '\r'),
        s.len() > 0 ==> s[0] != ' ' && !('\t' <= s[0] <= '\r'),
    ensures
        blank_len(blanks + s) == blanks.len(),
    decreases blanks.len(),
{
    if blanks.len() > 0 {
        let b = blanks.drop_first();
        assert forall|i: int| 0 <= i < b.len() implies (#[trigger] b[i] == ' ' || '\t' <= b[i]
            <= '\r') by {
            assert(b[i] == blanks[i + 1]);
        }
        lemma_blanks(b, s);
        assert((blanks + s).drop_first() =~= b + s);
        assert((blanks + s)[0] == blanks[0]);
    } else {
        assert(blanks + s =~= s);
    }
}

// ---- padded texts ----

/// Zero characters at the end of a serial number do not count.
pub proof fn law_padding_of_serials(s: Seq<char>, zeros: nat)
    requires
        s.len() > 0 ==> s[s.len() - 1] != '\0',
    ensures
        crate::usb::trimmed(s + Seq::new(zeros, |i: int| '\0')) == s,
    decreases zeros,
{
    let t = s + Seq::new(zeros, |i: int| '\0');
    if zeros > 0 {
        law_padding_of_serials(s, (zeros - 1) as nat);
        assert(t.drop_last() =~= s + Seq::new((zeros - 1) as nat, |i: int| '\0'));
        assert(t.last() == '\0');
    } else {
        assert(t =~= s);
    }
}

} // verus!
