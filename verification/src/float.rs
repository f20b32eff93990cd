//! Binary floating-point values as their IEEE 754 bit patterns.
//!
//! Samples, levels and times are carried through the library as bit patterns.
//! What is decided here about them is their order, whether they are numbers at
//! all, and their conversion from and to integers and between the two formats.
//! Arithmetic on them belongs to the caller.

use vstd::arithmetic::power2::*;
use vstd::bits::*;
use vstd::prelude::*;

verus! {

/// A binary32 value.
#[derive(Clone, Copy, Debug, PartialEq, Eq, Structural)]
pub struct Single {
    pub bits: u32,
}

/// A binary64 value.
#[derive(Clone, Copy, Debug, PartialEq, Eq, Structural)]
pub struct Double {
    pub bits: u64,
}

/// The bits of the quiet not-a-number of binary32.
pub const NAN_BITS: u32 = 0x7fc0_0000;

impl Single {
    /// The biased exponent.
    pub open spec fn exponent(self) -> int {
        (self.bits as int / 0x80_0000) % 256
    }

    /// The stored part of the significand.
    pub open spec fn fraction(self) -> int {
        self.bits as int % 0x80_0000
    }

    pub open spec fn nan(self) -> bool {
        self.exponent() == 255 && self.fraction() != 0
    }

    pub open spec fn finite(self) -> bool {
        self.exponent() != 255
    }

    /// The place of a value that is not NaN in the order of all such values;
    /// both zeros have the same place.
    pub open spec fn place(self) -> int {
        if self.bits >= 0x8000_0000 {
            0x8000_0000 - self.bits
        } else {
            self.bits as int
        }
    }

    /// The order of IEEE 754: a NaN is above nothing.
    pub open spec fn above(self, other: Single) -> bool {
        !self.nan() && !other.nan() && self.place() > other.place()
    }

    pub fn is_nan(self) -> (r: bool)
        ensures
            r == self.nan(),
    {
        (self.bits / 0x80_0000) % 256 == 255 && self.bits % 0x80_0000 != 0
    }

    pub fn is_finite(self) -> (r: bool)
        ensures
            r == self.finite(),
    {
        (self.bits / 0x80_0000) % 256 != 255
    }

    /// Whether `self > other`.
    pub fn gt(self, other: Single) -> (r: bool)
        ensures
            r == self.above(other),
    {
        if self.is_nan() || other.is_nan() {
            return false;
        }
        let a: i64 = if self.bits >= 0x8000_0000 {
            0x8000_0000 - self.bits as i64
        } else {
            self.bits as i64
        };
        let b: i64 = if other.bits >= 0x8000_0000 {
            0x8000_0000 - other.bits as i64
        } else {
            other.bits as i64
        };
        a > b
    }
}

/// `n / d` rounded to the nearest integer, halves to the even one.
pub open spec fn round_even(n: int, d: int) -> int {
    let q = n / d;
    let r = n % d;
    if 2 * r < d || (2 * r == d && q % 2 == 0) {
        q
    } else {
        q + 1
    }
}

/// The bits of the positive binary64 value nearest to `n / d * 2^(e - 1075)`, ties
/// going to the even one: `n` is doubled until the quotient has the 53 bits of a
/// significand.
pub open spec fn with_more_bits(n: int, d: int, e: int) -> int
    decreases 0x20_0000_0000_0000 * d - n,
{
    if 0 < n < 0x10_0000_0000_0000 * d {
        with_more_bits(2 * n, d, e - 1)
    } else {
        (e - 1) * 0x10_0000_0000_0000 + round_even(n, d)
    }
}

/// The bits of the positive binary64 value nearest to `n / d * 2^(e - 1075)`, ties
/// going to the even one: `d` is doubled until the quotient has no more than the 53
/// bits of a significand.
pub open spec fn with_fewer_bits(n: int, d: int, e: int) -> int
    decreases n - 0x10_0000_0000_0000 * d,
{
    if 0 < d && 0x20_0000_0000_0000 * d <= n {
        with_fewer_bits(n, 2 * d, e + 1)
    } else {
        with_more_bits(n, d, e)
    }
}

/// The binary64 value nearest to `n / d * 2^(e - 1075)`, ties going to the even one,
/// with a sign.
pub open spec fn nearest(negative: bool, n: int, d: int, e: int) -> Double {
    let sign = if negative {
        0x8000_0000_0000_0000int
    } else {
        0
    };
    Double {
        bits: (sign + (if n == 0 {
            0
        } else {
            with_fewer_bits(n, d, e)
        })) as u64,
    }
}

/// The binary64 value nearest to an integer.
pub open spec fn of_integer(n: int) -> Double {
    nearest(
        n < 0,
        if n < 0 {
            -n
        } else {
            n
        },
        1,
        1075,
    )
}

/// Makes `nearest`. `n` and `d` have at most 64 and 32 bits, and `e` leaves room for
/// both.
fn make_nearest(negative: bool, n: u64, d: u32, e: u64) -> (r: Double)
    requires
        0 < d,
        100 <= e <= 1200,
    ensures
        r == nearest(negative, n as int, d as int, e as int),
{
    let mut bits: u64 = 0;
    if n > 0 {
        let mut over: u128 = n as u128;
        let mut under: u128 = d as u128;
        let mut exponent: u64 = e;
        let ghost goal = with_fewer_bits(n as int, d as int, e as int);
        proof {
            lemma2_to64();
        }
        while 0x20_0000_0000_0000 * under <= over
            invariant
                0 < over <= 0xffff_ffff_ffff_ffff,
                0 < under <= 0xffff_ffff,
                100 <= e <= exponent <= e + 11,
                e <= 1200,
                pow2((exponent - e) as nat) <= under,
                goal == with_fewer_bits(over as int, under as int, exponent as int),
            decreases over - 0x10_0000_0000_0000 * under,
        {
            proof {
                lemma2_to64();
                let k = (exponent - e) as nat;
                if k >= 11 {
                    lemma_pow2_grows(11, k);
                }
                lemma_pow2_unfold(k + 1);
            }
            under = 2 * under;
            exponent = exponent + 1;
        }
        let ghost most = exponent;
        while over < 0x10_0000_0000_0000 * under
            invariant
                0 < over < 0x20_0000_0000_0000 * under,
                0 < under <= 0xffff_ffff,
                100 <= most <= 1211,
                most - 84 <= exponent <= most,
                pow2((most - exponent) as nat) <= over,
                goal == with_more_bits(over as int, under as int, exponent as int),
            decreases 0x20_0000_0000_0000 * under - over,
        {
            proof {
                let k = (most - exponent) as nat;
                if k >= 84 {
                    lemma2_to64();
                    lemma2_to64_rest();
                    lemma_pow2_adds(64, 20);
                    lemma_pow2_grows(84, k);
                }
                lemma_pow2_unfold(k + 1);
            }
            over = 2 * over;
            exponent = exponent - 1;
        }
        let q: u128 = over / under;
        let rest: u128 = over % under;
        let rounded: u128 = if 2 * rest < under || (2 * rest == under && q % 2 == 0) {
            q
        } else {
            q + 1
        };
        assert(0x10_0000_0000_0000 <= q < 0x20_0000_0000_0000) by (nonlinear_arith)
            requires
                q == over / under,
                0 < under,
                0x10_0000_0000_0000 * under <= over < 0x20_0000_0000_0000 * under,
        ;
        bits = (exponent - 1) * 0x10_0000_0000_0000 + rounded as u64;
    }
    if negative {
        bits = bits + 0x8000_0000_0000_0000;
    }
    Double { bits }
}

impl Single {
    /// The value without its sign is `significand() * 2^(max(exponent(), 1) - 150)`
    /// where it is finite.
    pub open spec fn significand(self) -> int {
        if self.exponent() == 0 {
            self.fraction()
        } else {
            0x80_0000 + self.fraction()
        }
    }

    /// The same finite value in binary64.
    pub open spec fn widened(self) -> Double {
        nearest(
            self.bits >= 0x8000_0000,
            self.significand(),
            1,
            if self.exponent() == 0 {
                926
            } else {
                self.exponent() + 925
            },
        )
    }

    /// Conversion of a finite value to binary64.
    pub fn widen(self) -> (r: Double)
        ensures
            r == self.widened(),
    {
        let e: u32 = (self.bits / 0x80_0000) % 256;
        let f: u32 = self.bits % 0x80_0000;
        let negative = self.bits >= 0x8000_0000;
        if e == 0 {
            make_nearest(negative, f as u64, 1, 926)
        } else {
            make_nearest(negative, 0x80_0000 + f as u64, 1, e as u64 + 925)
        }
    }
}

impl Double {
    pub open spec fn negative(self) -> bool {
        self.bits >= 0x8000_0000_0000_0000
    }

    /// The biased exponent.
    pub open spec fn exponent(self) -> int {
        (self.bits as int / 0x10_0000_0000_0000) % 2048
    }

    /// The stored part of the significand.
    pub open spec fn fraction(self) -> int {
        self.bits as int % 0x10_0000_0000_0000
    }

    pub open spec fn nan(self) -> bool {
        self.exponent() == 2047 && self.fraction() != 0
    }

    pub open spec fn finite(self) -> bool {
        self.exponent() != 2047
    }

    /// The significand as an integer: the value of a finite number is, up to
    /// its sign, `significand() * 2^(max(exponent(), 1) - 1075)`.
    pub open spec fn significand(self) -> int {
        if self.exponent() == 0 {
            self.fraction()
        } else {
            0x10_0000_0000_0000 + self.fraction()
        }
    }

    /// The size of the integer part: the value without its sign, rounded down.
    /// It is of no interest from 2^63 on, where the exponent is 1086.
    pub open spec fn whole(self) -> int {
        let e = self.exponent();
        if e >= 1075 {
            self.significand() * pow2((e - 1075) as nat)
        } else if e >= 1 {
            self.significand() / pow2((1075 - e) as nat) as int
        } else {
            0
        }
    }

    /// The value rounded towards zero to an integer of 64 bits; what lies
    /// beyond goes to the nearest end of the range, and NaN goes to zero.
    pub open spec fn integer(self) -> i64 {
        if self.nan() {
            0
        } else if self.exponent() >= 1086 {
            if self.negative() {
                i64::MIN
            } else {
                i64::MAX
            }
        } else if self.negative() {
            (-self.whole()) as i64
        } else {
            self.whole() as i64
        }
    }

    /// The spacing of binary32 values around this one, as the number of low
    /// bits of the significand that the narrower format has no room for.
    pub open spec fn excess(self) -> int {
        if self.exponent() >= 897 {
            29
        } else {
            926 - self.exponent()
        }
    }

    /// The nearest binary32 value, ties going to the even one; what is too
    /// large becomes infinite.
    pub open spec fn narrowed(self) -> Single {
        let e = self.exponent();
        let base = if e >= 897 {
            (e - 897) * 0x80_0000
        } else {
            0
        };
        let rounded = base + round_even(self.significand(), pow2(self.excess() as nat) as int);
        let sign = if self.negative() {
            0x8000_0000int
        } else {
            0
        };
        if self.nan() {
            Single { bits: NAN_BITS }
        } else if rounded >= 0x7f80_0000 {
            Single { bits: (sign + 0x7f80_0000) as u32 }
        } else {
            Single { bits: (sign + rounded) as u32 }
        }
    }

    pub open spec fn place(self) -> int {
        if self.negative() {
            0x8000_0000_0000_0000 - self.bits
        } else {
            self.bits as int
        }
    }

    pub open spec fn above(self, other: Double) -> bool {
        !self.nan() && !other.nan() && self.place() > other.place()
    }

    /// The value nearest to an integer.
    pub fn from_unsigned(n: u64) -> (r: Double)
        ensures
            r == of_integer(n as int),
    {
        make_nearest(false, n, 1, 1075)
    }

    pub fn from_signed(n: i64) -> (r: Double)
        ensures
            r == of_integer(n as int),
    {
        if n < 0 {
            make_nearest(true, (-(n as i128)) as u64, 1, 1075)
        } else {
            make_nearest(false, n as u64, 1, 1075)
        }
    }

    /// The value nearest to a quotient.
    pub fn quotient(a: u32, b: u32) -> (r: Double)
        requires
            b > 0,
        ensures
            r == nearest(false, a as int, b as int, 1075),
    {
        make_nearest(false, a as u64, b, 1075)
    }

    pub fn is_finite(self) -> (r: bool)
        ensures
            r == self.finite(),
    {
        (self.bits / 0x10_0000_0000_0000) % 2048 != 2047
    }

    pub fn is_nan(self) -> (r: bool)
        ensures
            r == self.nan(),
    {
        (self.bits / 0x10_0000_0000_0000) % 2048 == 2047 && self.bits % 0x10_0000_0000_0000 != 0
    }

    /// Whether `self > other`.
    pub fn gt(self, other: Double) -> (r: bool)
        ensures
            r == self.above(other),
    {
        if self.is_nan() || other.is_nan() {
            return false;
        }
        let a: i128 = if self.bits >= 0x8000_0000_0000_0000 {
            0x8000_0000_0000_0000 - self.bits as i128
        } else {
            self.bits as i128
        };
        let b: i128 = if other.bits >= 0x8000_0000_0000_0000 {
            0x8000_0000_0000_0000 - other.bits as i128
        } else {
            other.bits as i128
        };
        a > b
    }

    /// Conversion to `i64`.
    pub fn to_int(self) -> (r: i64)
        ensures
            r == self.integer(),
    {
        let e: u64 = (self.bits / 0x10_0000_0000_0000) % 2048;
        let f: u64 = self.bits % 0x10_0000_0000_0000;
        let negative = self.bits >= 0x8000_0000_0000_0000;
        if e == 2047 && f != 0 {
            return 0;
        }
        if e >= 1086 {
            return if negative {
                i64::MIN
            } else {
                i64::MAX
            };
        }
        let m: u64 = 0x10_0000_0000_0000 + f;
        let size: u64 = if e >= 1075 {
            proof {
                lemma_pow2_upto(e as nat);
            }
            assert(m * pow2((e - 1075) as nat) < 0x8000_0000_0000_0000) by (nonlinear_arith)
                requires
                    m < 0x20_0000_0000_0000,
                    0 < pow2((e - 1075) as nat) <= 1024,
            ;
            proof {
                lemma_u64_shl_is_mul(m, (e - 1075) as u64);
            }
            m << (e - 1075)
        } else if e >= 1023 {
            proof {
                lemma_u64_shr_is_div(m, (1075 - e) as u64);
                lemma_pow2_pos((1075 - e) as nat);
            }
            assert(m as int / pow2((1075 - e) as nat) as int <= m) by (nonlinear_arith)
                requires
                    0 < pow2((1075 - e) as nat),
                    0 <= m,
            ;
            m >> (1075 - e)
        } else {
            proof {
                if e >= 1 {
                    lemma2_to64_rest();
                    lemma_pow2_grows(53, (1075 - e) as nat);
                    vstd::arithmetic::div_mod::lemma_basic_div(m as int, pow2((1075 - e) as nat) as int);
                }
            }
            0
        };
        if negative {
            -(size as i64)
        } else {
            size as i64
        }
    }

    /// Conversion to binary32.
    pub fn narrow(self) -> (r: Single)
        ensures
            r == self.narrowed(),
    {
        let e: u64 = (self.bits / 0x10_0000_0000_0000) % 2048;
        let f: u64 = self.bits % 0x10_0000_0000_0000;
        let negative = self.bits >= 0x8000_0000_0000_0000;
        if e == 2047 && f != 0 {
            return Single { bits: NAN_BITS };
        }
        let m: u64 = if e == 0 {
            f
        } else {
            0x10_0000_0000_0000 + f
        };
        let base: u64 = if e >= 897 {
            (e - 897) * 0x80_0000
        } else {
            0
        };
        let k: u64 = if e >= 897 {
            29
        } else {
            926 - e
        };
        let rounded: u64 = if k > 54 {
            proof {
                lemma2_to64_rest();
                lemma_pow2_grows(54, k as nat);
                vstd::arithmetic::div_mod::lemma_basic_div(m as int, pow2(k as nat) as int);
                vstd::arithmetic::div_mod::lemma_small_mod(m as nat, pow2(k as nat));
            }
            0
        } else {
            proof {
                lemma2_to64();
                lemma2_to64_rest();
                lemma_pow2_grows(k as nat, 54);
                lemma_pow2_grows(29, k as nat);
                lemma_u64_shl_is_mul(1, k);
            }
            let d: u64 = 1u64 << k;
            let q: u64 = m / d;
            let r: u64 = m % d;
            assert(q <= 0x100_0000) by (nonlinear_arith)
                requires
                    q == m / d,
                    d >= 0x2000_0000,
                    m < 0x20_0000_0000_0000,
            ;
            if 2 * r < d || (2 * r == d && q % 2 == 0) {
                q
            } else {
                q + 1
            }
        };
        let magnitude: u64 = base + rounded;
        let size: u32 = if magnitude >= 0x7f80_0000 {
            0x7f80_0000
        } else {
            magnitude as u32
        };
        Single {
            bits: if negative {
                0x8000_0000 + size
            } else {
                size
            },
        }
    }
}

proof fn lemma_pow2_grows(a: nat, b: nat)
    requires
        a <= b,
    ensures
        0 < pow2(a) <= pow2(b),
{
    lemma_pow2_pos(a);
    if a < b {
        lemma_pow2_strictly_increases(a, b);
    }
}

proof fn lemma_pow2_upto(e: nat)
    requires
        1075 <= e < 1086,
    ensures
        0 < pow2((e - 1075) as nat) <= 1024,
{
    lemma2_to64();
    lemma_pow2_grows((e - 1075) as nat, 10);
}

// ---- laws ----

/// A number of at most 53 bits keeps all of them; `k` is how often it is doubled.
proof fn lemma_exact(n: int, e: int) -> (k: nat)
    requires
        0 < n < 0x20_0000_0000_0000,
    ensures
        k <= 52,
        0x10_0000_0000_0000 <= n * pow2(k) < 0x20_0000_0000_0000,
        with_fewer_bits(n, 1, e) == (e - k - 1) * 0x10_0000_0000_0000 + n * pow2(k),
        with_more_bits(n, 1, e) == with_fewer_bits(n, 1, e),
    decreases 0x20_0000_0000_0000 - n,
{
    lemma2_to64();
    if n < 0x10_0000_0000_0000 {
        let j = lemma_exact(2 * n, e - 1);
        lemma_pow2_unfold((j + 1) as nat);
        assert(n * (2 * pow2(j)) == (2 * n) * pow2(j)) by (nonlinear_arith);
        lemma2_to64_rest();
        if j + 1 > 52 {
            lemma_pow2_grows(53, (j + 1) as nat);
            assert(pow2((j + 1) as nat) <= n * pow2((j + 1) as nat)) by (nonlinear_arith)
                requires
                    n >= 1,
                    pow2((j + 1) as nat) > 0,
            ;
        }
        (j + 1) as nat
    } else {
        assert(round_even(n, 1) == n);
        0
    }
}

/// The parts of the value that `lemma_exact` gives.
proof fn lemma_parts(negative: bool, n: int, e: int) -> (k: nat)
    requires
        0 < n < 0x20_0000_0000_0000,
        100 <= e <= 1200,
    ensures
        k <= 52,
        0x10_0000_0000_0000 <= n * pow2(k) < 0x20_0000_0000_0000,
        nearest(negative, n, 1, e).negative() == negative,
        nearest(negative, n, 1, e).exponent() == e - k,
        nearest(negative, n, 1, e).significand() == n * pow2(k),
{
    let k = lemma_exact(n, e);
    let m = n * pow2(k);
    let x = nearest(negative, n, 1, e);
    let sign = if negative {
        0x8000_0000_0000_0000int
    } else {
        0
    };
    assert(x.bits as int == sign + (e - k) * 0x10_0000_0000_0000 + (m - 0x10_0000_0000_0000));
    k
}

/// An integer of at most 53 bits is the same integer in binary64.
pub proof fn law_integers_are_kept(n: int)
    requires
        -0x20_0000_0000_0000 < n < 0x20_0000_0000_0000,
    ensures
        of_integer(n).integer() == n,
{
    lemma2_to64();
    if n != 0 {
        let size = if n < 0 {
            -n
        } else {
            n
        };
        let k = lemma_parts(n < 0, size, 1075);
        let x = of_integer(n);
        lemma_pow2_pos(k);
        assert(size * pow2(k) == pow2(k) * size) by (nonlinear_arith);
        if k > 0 {
            vstd::arithmetic::div_mod::lemma_div_multiples_vanish(size, pow2(k) as int);
            assert((1075 - x.exponent()) as nat == k);
            assert(x.significand() / pow2(k) as int == size);
        } else {
            assert((x.exponent() - 1075) as nat == 0);
            assert(x.significand() * pow2(0) == x.significand() && size * pow2(0) == size)
                by (nonlinear_arith)
                requires
                    pow2(0) == 1,
            ;
        }
        assert(x.whole() == size);
    } else {
        assert(of_integer(0).bits == 0);
    }
}

proof fn lemma_round_multiple(m: int, k: nat)
    ensures
        round_even(m * pow2(k), pow2(k) as int) == m,
{
    lemma_pow2_pos(k);
    assert(m * pow2(k) == pow2(k) * m) by (nonlinear_arith);
    vstd::arithmetic::div_mod::lemma_div_multiples_vanish(m, pow2(k) as int);
    vstd::arithmetic::div_mod::lemma_mod_multiples_basic(m, pow2(k) as int);
}

/// A finite binary32 value that was widened is narrowed to the same value.
pub proof fn law_narrowing_undoes_widening(s: Single)
    requires
        s.finite(),
    ensures
        s.widened().finite(),
        s.widened().narrowed() == s,
{
    lemma2_to64();
    let x = s.exponent();
    let m = s.significand();
    let negative = s.bits >= 0x8000_0000;
    if m == 0 {
        lemma_round_multiple(0, 926);
        assert(s.widened().significand() == 0);
    } else {
        let e = if x == 0 {
            926
        } else {
            x + 925
        };
        let k = lemma_parts(negative, m, e);
        lemma2_to64_rest();
        if x > 0 {
            if k >= 30 {
                lemma_pow2_grows(30, k);
                assert(m * pow2(k) >= 0x80_0000 * 0x4000_0000) by (nonlinear_arith)
                    requires
                        m >= 0x80_0000,
                        pow2(k) >= 0x4000_0000,
                ;
            }
            if k <= 28 {
                lemma_pow2_grows(k, 28);
                assert(m * pow2(k) < 0x100_0000 * 0x1000_0000) by (nonlinear_arith)
                    requires
                        0 <= m < 0x100_0000,
                        0 < pow2(k) <= 0x1000_0000,
                ;
            }
        } else if k <= 29 {
            lemma_pow2_grows(k, 29);
            assert(m * pow2(k) < 0x80_0000 * 0x2000_0000) by (nonlinear_arith)
                requires
                    0 <= m < 0x80_0000,
                    0 < pow2(k) <= 0x2000_0000,
            ;
        }
        lemma_round_multiple(m, k);
    }
}

} // verus!
