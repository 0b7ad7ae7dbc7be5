//! The numbers that a meter reports, and the arithmetic that is done with them.
use crate::rounding::half_even;
use crate::rounding::lemma_half_even_bounds;
use crate::rounding::lemma_half_even_exact;
use crate::rounding::lemma_half_even_scaled;
use crate::rounding::lemma_quantum;
use crate::rounding::lemma_quantum_bounds;
use crate::rounding::lemma_rounded_scaled;
use crate::rounding::no_short_number_is_nearer;
use crate::rounding::quantum;
use crate::rounding::rounded;
use crate::rounding::rounding_goes_to_the_nearest_even_step;
use crate::rounding::rounding_is_monotone;
use crate::rounding::rounding_is_within_half_a_step;
use crate::rounding::rounding_keeps_short_numbers;
use crate::rounding::rounding_overflows_from_half_a_step_below;
use vstd::arithmetic::power2::lemma2_to64;
use vstd::arithmetic::power2::lemma2_to64_rest;
use vstd::arithmetic::power2::lemma_pow2_adds;
use vstd::arithmetic::power2::lemma_pow2_pos;
use vstd::arithmetic::power2::lemma_pow2_strictly_increases;
use vstd::arithmetic::power2::lemma_pow2_unfold;
use vstd::arithmetic::power2::pow2;
use vstd::math::abs;
use vstd::prelude::*;
use vstd::std_specs::cmp::PartialEqSpec;

verus! {

/// 2^52: one step of the exponent field.
pub const EXPONENT_STEP: u64 = 0x10_0000_0000_0000;

/// 2^63: the weight of the sign bit.
pub const SIGN_BIT: u64 = 0x8000_0000_0000_0000;

/// The magnitude field of an infinity. Larger ones belong to values that are not numbers.
pub const INFINITE: u64 = 0x7FF0_0000_0000_0000;

/// A double precision number of IEEE 754, held by its 64 bits.
#[derive(Clone, Copy, Debug)]
pub struct Reading {
    pub bits: u64,
}

/// The absolute value that a finite magnitude field stands for, counted in steps of
/// 2^-1074, the smallest positive double.
pub open spec fn magnitude_units(magnitude: nat) -> nat {
    if magnitude < EXPONENT_STEP {
        magnitude
    } else {
        (magnitude % (EXPONENT_STEP as nat) + EXPONENT_STEP as nat) * pow2(
            (magnitude / (EXPONENT_STEP as nat) - 1) as nat,
        )
    }
}

impl PartialEq for Reading {
    fn eq(&self, other: &Reading) -> (equal: bool) {
        let a: u64 = self.bits % SIGN_BIT;
        let b: u64 = other.bits % SIGN_BIT;
        a <= INFINITE && b <= INFINITE && (self.bits == other.bits || (a == 0 && b == 0))
    }
}

/// A value that is no number equals nothing, not even itself; the two zeros are equal.
impl vstd::std_specs::cmp::PartialEqSpecImpl for Reading {
    open spec fn obeys_eq_spec() -> bool {
        true
    }

    open spec fn eq_spec(&self, other: &Reading) -> bool {
        &&& !self.is_nan()
        &&& !other.is_nan()
        &&& self.bits == other.bits || (self.is_zero() && other.is_zero())
    }
}

impl Reading {
    /// All bits but the sign.
    pub open spec fn magnitude(self) -> nat {
        (self.bits % SIGN_BIT) as nat
    }

    /// Whether the sign bit is set.
    pub open spec fn negative(self) -> bool {
        self.bits >= SIGN_BIT
    }

    /// Whether the bits stand for no number at all.
    pub open spec fn is_nan(self) -> bool {
        self.magnitude() > INFINITE
    }

    /// Whether this is one of the two infinities.
    pub open spec fn is_infinite(self) -> bool {
        self.magnitude() == INFINITE
    }

    /// Whether this is one of the two zeros.
    pub open spec fn is_zero(self) -> bool {
        self.magnitude() == 0
    }

    /// Whether this is a number and no infinity.
    pub open spec fn is_finite(self) -> bool {
        self.magnitude() < INFINITE
    }

    /// The absolute value of a finite number in steps of 2^-1074.
    pub open spec fn units(self) -> nat {
        magnitude_units(self.magnitude())
    }
}

/// A magnitude field put together from `m` and `q` stands for `m * 2^q`.
proof fn lemma_magnitude_of(m: nat, q: nat)
    requires
        m <= 2 * EXPONENT_STEP,
        q == 0 || EXPONENT_STEP <= m,
    ensures
        magnitude_units(q * EXPONENT_STEP as nat + m) == m * pow2(q),
{
    let e = EXPONENT_STEP as nat;
    let magnitude = q * e + m;
    lemma2_to64();
    if m < e {
    } else if m < 2 * e {
        assert(magnitude == (q + 1) * e + (m - e)) by (nonlinear_arith)
            requires
                magnitude == q * e + m,
        ;
        assert(magnitude / e == q + 1 && magnitude % e == m - e);
    } else {
        assert(magnitude == (q + 2) * e) by (nonlinear_arith)
            requires
                magnitude == q * e + m,
                m == 2 * e,
        ;
        assert(magnitude / e == q + 2 && magnitude % e == 0);
        lemma_pow2_unfold(q + 1);
        assert(e * pow2(q + 1) == (2 * e) * pow2(q)) by (nonlinear_arith)
            requires
                pow2(q + 1) == 2 * pow2(q),
        ;
    }
}

/// Every finite magnitude field stands for less than 2^2098 steps.
proof fn lemma_finite_bound(m: nat, q: nat)
    requires
        m <= 2 * EXPONENT_STEP,
        q == 0 || EXPONENT_STEP <= m,
    ensures
        q * EXPONENT_STEP as nat + m < INFINITE <==> m * pow2(q) < pow2(2098),
{
    lemma2_to64();
    lemma2_to64_rest();
    lemma_pow2_adds(53, q);
    lemma_pow2_adds(52, q);
    lemma_pow2_pos(q);
    let p = pow2(q);
    assert(m * p <= pow2(53) * p) by (nonlinear_arith)
        requires
            m <= pow2(53),
    ;
    if q < 2045 {
        lemma_pow2_strictly_increases(53 + q, 2098);
    } else if q == 2045 {
        if m < pow2(53) {
            assert(m * p < pow2(53) * p) by (nonlinear_arith)
                requires
                    m < pow2(53),
                    p > 0,
            ;
        }
    } else {
        assert(pow2(52) * p <= m * p) by (nonlinear_arith)
            requires
                pow2(52) <= m,
        ;
        if q > 2046 {
            lemma_pow2_strictly_increases(2098, 52 + q);
        }
    }
}

/// A larger magnitude field stands for a larger number.
pub proof fn magnitudes_are_ordered(a: nat, b: nat)
    requires
        a < b,
    ensures
        magnitude_units(a) < magnitude_units(b),
{
    let e = EXPONENT_STEP as nat;
    lemma2_to64();
    if e <= b {
        let s = (b / e - 1) as nat;
        let m = b % e + e;
        lemma_pow2_pos(s);
        assert(e <= e * pow2(s) <= m * pow2(s)) by (nonlinear_arith)
            requires
                pow2(s) >= 1,
                m >= e,
        ;
        if e <= a {
            let r = (a / e - 1) as nat;
            let n = a % e + e;
            lemma_pow2_pos(r);
            if r == s {
                assert(n < m);
                assert(n * pow2(s) < m * pow2(s)) by (nonlinear_arith)
                    requires
                        n < m,
                        pow2(s) > 0,
                ;
            } else {
                assert(r < s);
                lemma_pow2_unfold(r + 1);
                if r + 1 < s {
                    lemma_pow2_strictly_increases(r + 1, s);
                }
                assert(n * pow2(r) < e * pow2(s)) by (nonlinear_arith)
                    requires
                        n < 2 * e,
                        2 * pow2(r) <= pow2(s),
                        pow2(r) > 0,
                ;
            }
        }
    }
}

/// Two finite numbers of the same sign and the same absolute value are the same number, bit
/// for bit.
pub proof fn finite_readings_are_their_value(a: Reading, b: Reading)
    requires
        a.is_finite(),
        b.is_finite(),
        a.negative() == b.negative(),
        a.units() == b.units(),
    ensures
        a == b,
{
    if a.magnitude() < b.magnitude() {
        magnitudes_are_ordered(a.magnitude(), b.magnitude());
    } else if b.magnitude() < a.magnitude() {
        magnitudes_are_ordered(b.magnitude(), a.magnitude());
    }
}

/// The value of a reading in steps of 2^-1074, with its sign. Infinities lie beyond all
/// finite numbers.
pub open spec fn signed_units(r: Reading) -> int {
    let amount: int = if r.is_infinite() {
        pow2(2098) as int
    } else {
        r.units() as int
    };
    if r.negative() {
        -amount
    } else {
        amount
    }
}

/// A finite number is less than 2^2098 steps, and rounding does not change it.
pub proof fn finite_readings_are_exact(r: Reading)
    requires
        r.is_finite(),
    ensures
        r.units() < pow2(2098),
        rounded(r.units(), 0) == r.units(),
{
    let e = EXPONENT_STEP as nat;
    let magnitude = r.magnitude();
    let (m, q) = if magnitude < e {
        (magnitude, 0nat)
    } else {
        (magnitude % e + e, (magnitude / e - 1) as nat)
    };
    lemma2_to64();
    lemma2_to64_rest();
    assert(magnitude == q * e + m) by {
        vstd::arithmetic::div_mod::lemma_fundamental_div_mod(magnitude as int, e as int);
    }
    lemma_magnitude_of(m, q);
    lemma_finite_bound(m, q);
    rounding_keeps_short_numbers(m, q, 0);
}

/// Two to the power of `e`.
fn power_of_two(e: u32) -> (p: u128)
    requires
        e <= 106,
    ensures
        p == pow2(e as nat),
{
    let mut p: u128 = 1;
    let mut i: u32 = 0;
    proof {
        lemma2_to64();
    }
    while i < e
        invariant
            i <= e <= 106,
            p == pow2(i as nat),
        decreases e - i,
    {
        proof {
            lemma_pow2_unfold((i + 1) as nat);
            lemma_pow2_adds(53, 53);
            lemma2_to64_rest();
            if i < 106 {
                lemma_pow2_strictly_increases(i as nat, 106);
            }
        }
        p = p * 2;
        i = i + 1;
    }
    p
}

/// The number of bits that `n` takes.
fn bit_length(n: u128) -> (len: u32)
    requires
        n < pow2(106),
    ensures
        len <= 106,
        n < pow2(len as nat),
        n > 0 ==> len > 0 && pow2((len - 1) as nat) <= n,
        n == 0 ==> len == 0,
{
    let mut len: u32 = 0;
    let mut p: u128 = 1;
    proof {
        lemma2_to64();
        lemma_pow2_adds(53, 53);
        lemma2_to64_rest();
    }
    while p <= n
        invariant
            n < pow2(106) == 0x400_0000_0000_0000_0000_0000_0000,
            len <= 106,
            p == pow2(len as nat),
            n > 0 && len > 0 ==> pow2((len - 1) as nat) <= n,
            n == 0 ==> len == 0,
        decreases 106 - len,
    {
        proof {
            lemma_pow2_pos(len as nat);
            lemma_pow2_unfold((len + 1) as nat);
        }
        p = p * 2;
        len = len + 1;
    }
    len
}

/// The magnitude field of the double nearest to `m * 2^(shift - 1074)` steps, which is what
/// the product of two doubles comes down to.
fn round_to_magnitude(m: u128, shift: u32) -> (magnitude: u64)
    requires
        m < pow2(106),
        shift <= 4096,
    ensures
        ({
            let exact = rounded(m as nat * pow2(shift as nat), 1074);
            if exact < pow2(2098) {
                magnitude < INFINITE && magnitude_units(magnitude as nat) == exact
            } else {
                magnitude == INFINITE
            }
        }),
{
    if m == 0 {
        proof {
            lemma_pow2_pos(1127);
            lemma_quantum(0, 1074, 0);
            lemma_pow2_pos(1074);
            lemma_half_even_exact(0, pow2(1074));
            lemma_pow2_pos(2098);
            assert(m as nat * pow2(shift as nat) == 0) by (nonlinear_arith)
                requires
                    m == 0,
            ;
            assert(0 * pow2(1074) == 0) by (nonlinear_arith);
            assert(rounded(0, 1074) == 0 * pow2(0));
        }
        return 0;
    }
    let len: u32 = bit_length(m);
    let ghost n: nat = m as nat * pow2(shift as nat);
    let q: u32 = if len + shift > 1127 {
        len + shift - 1127
    } else {
        0
    };
    let ghost step: nat = pow2((q + 1074) as nat);
    proof {
        lemma_pow2_pos(shift as nat);
        lemma_pow2_pos((q + 1074) as nat);
        lemma_pow2_adds(len as nat, shift as nat);
        assert(n < pow2(len as nat) * pow2(shift as nat)) by (nonlinear_arith)
            requires
                n == m * pow2(shift as nat),
                m < pow2(len as nat),
                pow2(shift as nat) > 0,
        ;
        if len + shift < 1127 + q {
            lemma_pow2_strictly_increases((len + shift) as nat, (1127 + q) as nat);
        }
        if q > 0 {
            lemma_pow2_adds((len - 1) as nat, shift as nat);
            assert(pow2((len - 1) as nat) * pow2(shift as nat) <= n) by (nonlinear_arith)
                requires
                    n == m * pow2(shift as nat),
                    pow2((len - 1) as nat) <= m,
            ;
            lemma_pow2_adds(52, (q + 1074) as nat);
        }
        lemma_quantum(n, 1074, q as nat);
        lemma_pow2_adds(53, (q + 1074) as nat);
        lemma_half_even_bounds(
            n,
            step,
            if q > 0 {
                pow2(52)
            } else {
                0
            },
            pow2(53),
        );
        lemma2_to64_rest();
    }
    let kept: u128 = if shift >= q + 1074 {
        let up: u32 = shift - (q + 1074);
        let p: u128 = power_of_two(up);
        proof {
            lemma_pow2_adds(up as nat, (q + 1074) as nat);
            let product: nat = m as nat * pow2(up as nat);
            assert(n == product * step) by (nonlinear_arith)
                requires
                    n == m * pow2(shift as nat),
                    product == m * pow2(up as nat),
                    pow2(shift as nat) == pow2(up as nat) * step,
            ;
            lemma_half_even_exact(product, step);
        }
        m * p
    } else {
        let down: u32 = q + 1074 - shift;
        proof {
            lemma_pow2_adds(down as nat, shift as nat);
            lemma_pow2_pos(down as nat);
            lemma_half_even_scaled(m as nat, pow2(down as nat), pow2(shift as nat));
        }
        if down > 106 {
            proof {
                if down > 107 {
                    lemma_pow2_strictly_increases(107, down as nat);
                }
                lemma_pow2_unfold(107);
                vstd::arithmetic::div_mod::lemma_small_mod(m as nat, pow2(down as nat));
                vstd::arithmetic::div_mod::lemma_basic_div(m as int, pow2(down as nat) as int);
            }
            0
        } else {
            let d: u128 = power_of_two(down);
            proof {
                if down < 106 {
                    lemma_pow2_strictly_increases(down as nat, 106);
                }
                lemma_pow2_adds(53, 53);
            }
            let floor: u128 = m / d;
            let rest: u128 = m % d;
            if 2 * rest < d || (2 * rest == d && floor % 2 == 0) {
                floor
            } else {
                floor + 1
            }
        }
    };
    assert(kept == half_even(n, step));
    proof {
        lemma_magnitude_of(kept as nat, q as nat);
        lemma_finite_bound(kept as nat, q as nat);
    }
    let magnitude: u128 = q as u128 * EXPONENT_STEP as u128 + kept;
    if magnitude < INFINITE as u128 {
        magnitude as u64
    } else {
        INFINITE
    }
}

/// The bits of 1000.0.
pub const THOUSAND: u64 = 0x408F_4000_0000_0000;

/// Whether `r` is the product of `a` and `b` in double precision.
pub open spec fn is_product(a: Reading, b: Reading, r: Reading) -> bool {
    if a.is_nan() || b.is_nan() || (a.is_infinite() && b.is_zero()) || (a.is_zero()
        && b.is_infinite()) {
        r.is_nan()
    } else {
        let exact = rounded(a.units() * b.units(), 1074);
        &&& r.negative() == (a.negative() != b.negative())
        &&& if a.is_infinite() || b.is_infinite() || exact >= pow2(2098) {
            r.is_infinite()
        } else {
            r.is_finite() && r.units() == exact
        }
    }
}

/// `amount` with the given sign, held to what an `i64` can express.
pub open spec fn saturated(negative: bool, amount: nat) -> int {
    if negative {
        if amount > 0x8000_0000_0000_0000 {
            i64::MIN as int
        } else {
            -(amount as int)
        }
    } else {
        if amount > 0x7FFF_FFFF_FFFF_FFFF {
            i64::MAX as int
        } else {
            amount as int
        }
    }
}

impl Reading {
    /// The number without its fraction, held to what an `i64` can express; zero if it is no
    /// number.
    pub open spec fn whole_part(self) -> int {
        if self.is_nan() {
            0
        } else if self.is_infinite() {
            if self.negative() {
                i64::MIN as int
            } else {
                i64::MAX as int
            }
        } else {
            saturated(self.negative(), self.units() / pow2(1074))
        }
    }

    /// A thousand times the number, in double precision, without its fraction and held to
    /// what an `i64` can express; zero if it is no number.
    pub open spec fn in_thousandths(self) -> int {
        if self.is_nan() {
            0
        } else if self.is_infinite() {
            if self.negative() {
                i64::MIN as int
            } else {
                i64::MAX as int
            }
        } else {
            saturated(self.negative(), rounded(1000 * self.units(), 0) / pow2(1074))
        }
    }

    /// The number as `m * 2^s` steps of 2^-1074.
    fn split(self) -> (parts: (u64, u32))
        requires
            self.is_finite(),
        ensures
            self.units() == parts.0 as nat * pow2(parts.1 as nat),
            parts.0 < 2 * EXPONENT_STEP,
            parts.1 <= 2045,
            parts.1 > 0 ==> parts.0 >= EXPONENT_STEP,
            parts.0 == 0 <==> self.is_zero(),
    {
        let magnitude: u64 = self.bits % SIGN_BIT;
        if magnitude < EXPONENT_STEP {
            proof {
                lemma2_to64();
            }
            (magnitude, 0)
        } else {
            let exponent: u64 = magnitude / EXPONENT_STEP;
            (magnitude % EXPONENT_STEP + EXPONENT_STEP, (exponent - 1) as u32)
        }
    }

    /// The product of two numbers in double precision.
    pub fn times(self, other: Reading) -> (r: Reading)
        ensures
            is_product(self, other, r),
    {
        let a: u64 = self.bits % SIGN_BIT;
        let b: u64 = other.bits % SIGN_BIT;
        if a > INFINITE || b > INFINITE || (a == INFINITE && b == 0) || (a == 0 && b == INFINITE) {
            return Reading { bits: 0x7FF8_0000_0000_0000 };
        }
        let sign: u64 = if (self.bits >= SIGN_BIT) != (other.bits >= SIGN_BIT) {
            SIGN_BIT
        } else {
            0
        };
        if a == INFINITE || b == INFINITE {
            return Reading { bits: sign + INFINITE };
        }
        let (m, s) = self.split();
        let (n, t) = other.split();
        proof {
            lemma2_to64_rest();
            lemma_pow2_adds(53, 53);
            lemma_pow2_adds(s as nat, t as nat);
            assert((m as nat) * (n as nat) < 0x20_0000_0000_0000nat * 0x20_0000_0000_0000nat)
                by (nonlinear_arith)
                requires
                    m < 0x20_0000_0000_0000u64,
                    n < 0x20_0000_0000_0000u64,
            ;
            assert(self.units() * other.units() == (m as nat * n as nat) * pow2((s + t) as nat))
                by (nonlinear_arith)
                requires
                    self.units() == m as nat * pow2(s as nat),
                    other.units() == n as nat * pow2(t as nat),
                    pow2((s + t) as nat) == pow2(s as nat) * pow2(t as nat),
            ;
        }
        let magnitude: u64 = round_to_magnitude(m as u128 * n as u128, s + t);
        Reading { bits: sign + magnitude }
    }

    /// The number without its fraction, as a conversion to `i64` gives it.
    pub fn truncated(self) -> (w: i64)
        ensures
            w == self.whole_part(),
    {
        let magnitude: u64 = self.bits % SIGN_BIT;
        if magnitude > INFINITE {
            return 0;
        }
        let negative: bool = self.bits >= SIGN_BIT;
        let limit: i64 = if negative {
            i64::MIN
        } else {
            i64::MAX
        };
        if magnitude == INFINITE {
            return limit;
        }
        let (m, s) = self.split();
        let ghost whole: nat = self.units() / pow2(1074);
        proof {
            lemma_pow2_pos(1074);
            lemma2_to64_rest();
        }
        if s >= 1074 {
            let up: u32 = s - 1074;
            proof {
                lemma_pow2_adds(up as nat, 1074);
                assert(self.units() == (m as nat * pow2(up as nat)) * pow2(1074))
                    by (nonlinear_arith)
                    requires
                        self.units() == m as nat * pow2(s as nat),
                        pow2(s as nat) == pow2(up as nat) * pow2(1074),
                ;
                vstd::arithmetic::div_mod::lemma_div_by_multiple(
                    (m as nat * pow2(up as nat)) as int,
                    pow2(1074) as int,
                );
                assert(whole == m as nat * pow2(up as nat));
            }
            if up > 11 {
                proof {
                    lemma_pow2_strictly_increases(11, up as nat);
                    assert(whole > 0x10_0000_0000_0000nat * pow2(11)) by (nonlinear_arith)
                        requires
                            whole == m as nat * pow2(up as nat),
                            m >= 0x10_0000_0000_0000u64,
                            pow2(up as nat) > pow2(11),
                    ;
                    lemma2_to64();
                }
                return limit;
            }
            let p: u128 = power_of_two(up);
            proof {
                lemma2_to64();
                if up < 11 {
                    lemma_pow2_strictly_increases(up as nat, 11);
                }
                assert(m as nat * pow2(up as nat) <= 0x20_0000_0000_0000nat * 2048nat)
                    by (nonlinear_arith)
                    requires
                        m < 0x20_0000_0000_0000u64,
                        pow2(up as nat) <= 2048,
                ;
            }
            let amount: u128 = m as u128 * p;
            if negative {
                if amount >= 0x8000_0000_0000_0000 {
                    i64::MIN
                } else {
                    -(amount as i64)
                }
            } else {
                if amount > 0x7FFF_FFFF_FFFF_FFFF {
                    i64::MAX
                } else {
                    amount as i64
                }
            }
        } else {
            let down: u32 = 1074 - s;
            proof {
                lemma_pow2_adds(down as nat, s as nat);
                lemma_pow2_pos(down as nat);
                lemma_pow2_pos(s as nat);
                vstd::arithmetic::div_mod::lemma_div_denominator(
                    self.units() as int,
                    pow2(s as nat) as int,
                    pow2(down as nat) as int,
                );
                vstd::arithmetic::div_mod::lemma_div_by_multiple(m as int, pow2(s as nat) as int);
                assert(pow2(s as nat) * pow2(down as nat) == pow2(1074)) by (nonlinear_arith)
                    requires
                        pow2(1074) == pow2(down as nat) * pow2(s as nat),
                ;
                assert(whole == m as nat / pow2(down as nat));
            }
            if down > 53 {
                proof {
                    lemma_pow2_strictly_increases(53, down as nat);
                    vstd::arithmetic::div_mod::lemma_basic_div(m as int, pow2(down as nat) as int);
                }
                return 0;
            }
            let d: u128 = power_of_two(down);
            let amount: u128 = m as u128 / d;
            proof {
                vstd::arithmetic::div_mod::lemma_div_nonincreasing(m as int, d as int);
            }
            if negative {
                -(amount as i64)
            } else {
                amount as i64
            }
        }
    }

    /// A thousand times the number as an integer: watts for kilowatts, watt hours for
    /// kilowatt hours.
    pub fn thousandths(self) -> (w: i64)
        ensures
            w == self.in_thousandths(),
    {
        let scaled: Reading = self.times(Reading { bits: THOUSAND });
        proof {
            thousandths_are_the_whole_part_of_the_product(
                self,
                Reading { bits: THOUSAND },
                scaled,
            );
        }
        scaled.truncated()
    }
}

/// `THOUSAND` is a thousand.
proof fn lemma_thousand(r: Reading)
    requires
        r.bits == THOUSAND,
    ensures
        r.is_finite(),
        !r.is_zero(),
        !r.negative(),
        r.units() == 1000 * pow2(1074),
{
    assert(r.magnitude() == 0x408F_4000_0000_0000nat);
    assert(0x408F_4000_0000_0000nat / 0x10_0000_0000_0000nat == 1032);
    assert(0x408F_4000_0000_0000nat % 0x10_0000_0000_0000nat == 0xF_4000_0000_0000nat);
    lemma2_to64_rest();
    lemma_pow2_adds(43, 1031);
    assert((1000 * pow2(43)) * pow2(1031) == 1000 * (pow2(43) * pow2(1031))) by (nonlinear_arith);
}

/// A thousandfold as an integer is the whole part of the product with 1000.0.
pub proof fn thousandths_are_the_whole_part_of_the_product(r: Reading, k: Reading, p: Reading)
    requires
        k.bits == THOUSAND,
        is_product(r, k, p),
    ensures
        r.in_thousandths() == p.whole_part(),
{
    lemma_thousand(k);
    if r.is_finite() {
        let n = 1000 * r.units();
        assert(r.units() * (1000 * pow2(1074)) == n * pow2(1074)) by (nonlinear_arith)
            requires
                n == 1000 * r.units(),
        ;
        lemma_rounded_scaled(n, 1074);
        if rounded(n, 0) >= pow2(2098) {
            lemma_huge(rounded(n, 0));
        }
    }
}

/// What no double can express does not fit an `i64` either.
proof fn lemma_huge(n: nat)
    requires
        n >= pow2(2098),
    ensures
        n / pow2(1074) > 0x8000_0000_0000_0000,
{
    lemma_pow2_adds(1024, 1074);
    lemma_pow2_pos(1074);
    lemma_pow2_strictly_increases(63, 1024);
    lemma2_to64_rest();
    vstd::arithmetic::div_mod::lemma_div_is_ordered(
        pow2(2098) as int,
        n as int,
        pow2(1074) as int,
    );
    vstd::arithmetic::div_mod::lemma_div_by_multiple(pow2(1024) as int, pow2(1074) as int);
}

/// A number whose thousandfold is whole, and short enough for a double, comes out exactly.
pub proof fn whole_thousandths_are_exact(r: Reading, n: nat)
    requires
        r.is_finite(),
        1000 * r.units() == n * pow2(1074),
        n < pow2(53),
    ensures
        r.in_thousandths() == (if r.negative() {
            -(n as int)
        } else {
            n as int
        }),
{
    lemma2_to64();
    lemma2_to64_rest();
    lemma_pow2_pos(1074);
    rounding_keeps_short_numbers(n, 1074, 0);
    assert(n * pow2(1074) * 1 == n * pow2(1074)) by (nonlinear_arith);
    vstd::arithmetic::div_mod::lemma_div_by_multiple(n as int, pow2(1074) as int);
}

/// As long as the thousandfold of a number is below 2^53, dropping the fraction takes off
/// less than one, and rounding before that adds or takes off at most a half.
pub proof fn thousandths_are_close(r: Reading)
    requires
        r.is_finite(),
        1000 * r.units() < pow2(53) * pow2(1074),
    ensures
        ({
            let amount = if r.negative() {
                -r.in_thousandths()
            } else {
                r.in_thousandths()
            };
            &&& 2 * (amount * pow2(1074)) <= 2 * (1000 * r.units()) + pow2(1074)
            &&& 2 * ((amount + 1) * pow2(1074)) > 2 * (1000 * r.units()) - pow2(1074)
        }),
{
    let n = 1000 * r.units();
    let d = pow2(1074);
    let q = quantum(n, 0);
    let whole = rounded(n, 0) / d;
    lemma2_to64();
    lemma2_to64_rest();
    lemma_pow2_pos(1074);
    lemma_pow2_adds(53, 1074);
    lemma_quantum_bounds(n, 0);
    if q > 1074 {
        if 52 + q > 1127 {
            lemma_pow2_strictly_increases(1127, (52 + q) as nat);
        }
    }
    if q < 1074 {
        lemma_pow2_strictly_increases(q, 1074);
    }
    rounding_is_within_half_a_step(n, 0);
    rounding_is_monotone(n, pow2(53) * d, 0);
    rounding_keeps_short_numbers(1, 1127, 0);
    vstd::arithmetic::div_mod::lemma_fundamental_div_mod(rounded(n, 0) as int, d as int);
    vstd::arithmetic::div_mod::lemma_div_is_ordered(
        rounded(n, 0) as int,
        (pow2(53) * d) as int,
        d as int,
    );
    vstd::arithmetic::div_mod::lemma_div_by_multiple(pow2(53) as int, d as int);
    assert(whole <= pow2(53));
    assert((whole + 1) * d == d * whole + d && whole * d == d * whole) by (nonlinear_arith);
}

/// A higher reading never comes out lower.
pub proof fn thousandths_follow_the_reading(a: Reading, b: Reading)
    requires
        !a.is_nan(),
        !b.is_nan(),
        signed_units(a) <= signed_units(b),
    ensures
        a.in_thousandths() <= b.in_thousandths(),
{
    let d = pow2(1074) as int;
    lemma_pow2_pos(1074);
    lemma_pow2_pos(2098);
    let ra = rounded(1000 * a.units(), 0);
    let rb = rounded(1000 * b.units(), 0);
    vstd::arithmetic::div_mod::lemma_div_pos_is_pos(ra as int, d);
    vstd::arithmetic::div_mod::lemma_div_pos_is_pos(rb as int, d);
    if a.is_finite() {
        finite_readings_are_exact(a);
    }
    if b.is_finite() {
        finite_readings_are_exact(b);
    }
    if a.is_finite() && b.is_finite() {
        if a.units() <= b.units() {
            rounding_is_monotone(1000 * a.units(), 1000 * b.units(), 0);
            vstd::arithmetic::div_mod::lemma_div_is_ordered(ra as int, rb as int, d);
        }
        if b.units() <= a.units() {
            rounding_is_monotone(1000 * b.units(), 1000 * a.units(), 0);
            vstd::arithmetic::div_mod::lemma_div_is_ordered(rb as int, ra as int, d);
        }
    }
}

/// The bits are a sign, eleven bits of exponent and 52 bits of fraction. The largest exponent
/// is that of the infinities, and of what is no number; the smallest one that of the numbers
/// without a leading one.
pub proof fn bits_are_sign_exponent_and_fraction(
    r: Reading,
    sign: nat,
    exponent: nat,
    fraction: nat,
)
    requires
        sign <= 1,
        exponent <= 2047,
        fraction < 0x10_0000_0000_0000,
        r.bits == sign * 0x8000_0000_0000_0000 + exponent * 0x10_0000_0000_0000 + fraction,
    ensures
        r.negative() <==> sign == 1,
        r.is_nan() <==> exponent == 2047 && fraction > 0,
        r.is_infinite() <==> exponent == 2047 && fraction == 0,
        r.is_finite() <==> exponent < 2047,
        r.is_zero() <==> exponent == 0 && fraction == 0,
        exponent == 0 ==> r.units() == fraction,
        0 < exponent < 2047 ==> r.units() == (0x10_0000_0000_0000 + fraction) * pow2(
            (exponent - 1) as nat,
        ),
        exponent < 2047 ==> signed_units(r) == (if sign == 1 {
            -r.units()
        } else {
            r.units() as int
        }),
        exponent == 2047 && fraction == 0 ==> signed_units(r) == (if sign == 1 {
            -pow2(2098)
        } else {
            pow2(2098) as int
        }),
{
    assert(r.magnitude() == exponent * 0x10_0000_0000_0000 + fraction);
    assert(r.magnitude() / 0x10_0000_0000_0000 == exponent);
    assert(r.magnitude() % 0x10_0000_0000_0000 == fraction);
}

/// Two readings are equal if and only if both are numbers and have the same value.
pub proof fn equality_is_that_of_values(a: Reading, b: Reading)
    ensures
        a.eq_spec(&b) <==> !a.is_nan() && !b.is_nan() && signed_units(a) == signed_units(b),
{
    lemma_pow2_pos(2098);
    if a.is_finite() {
        finite_readings_are_exact(a);
        if a.magnitude() > 0 {
            magnitudes_are_ordered(0, a.magnitude());
        }
    }
    if b.is_finite() {
        finite_readings_are_exact(b);
        if b.magnitude() > 0 {
            magnitudes_are_ordered(0, b.magnitude());
        }
    }
    if a.is_finite() && b.is_finite() && a.negative() == b.negative() && a.units() == b.units() {
        finite_readings_are_their_value(a, b);
    }
}

/// A product of finite numbers has the sign that goes with theirs. It is infinite from half a
/// step below the first power of two that is too large on. Otherwise no number is nearer to
/// the exact product, and if another one is equally near, the last bit is zero.
pub proof fn products_go_to_the_nearest_number(a: Reading, b: Reading, r: Reading, x: Reading)
    requires
        a.is_finite(),
        b.is_finite(),
        x.is_finite(),
        is_product(a, b, r),
    ensures
        ({
            let exact = a.units() * b.units();
            let off = abs(r.units() * pow2(1074) - exact);
            let other = abs(x.units() * pow2(1074) - exact);
            &&& r.negative() <==> a.negative() != b.negative()
            &&& !r.is_nan()
            &&& r.is_infinite() <==> exact >= (pow2(2098) - pow2(2044)) * pow2(1074)
            &&& r.is_finite() ==> off <= other
            &&& r.is_finite() && off == other && r.units() != x.units() ==> r.bits % 2 == 0
        }),
{
    let exact = a.units() * b.units();
    let e = EXPONENT_STEP as nat;
    let magnitude = x.magnitude();
    let (m, q) = if magnitude < e {
        (magnitude, 0nat)
    } else {
        (magnitude % e + e, (magnitude / e - 1) as nat)
    };
    lemma2_to64();
    lemma2_to64_rest();
    assert(x.units() == m * pow2(q)) by {
        assert(pow2(0) == 1);
    }
    rounding_overflows_from_half_a_step_below(exact, 1074);
    no_short_number_is_nearer(exact, 1074, m, q);
    if r.is_finite() {
        let off = abs(r.units() * pow2(1074) - exact);
        if off == abs(x.units() * pow2(1074) - exact) && r.units() != x.units() {
            lemma_even_step_is_even(r, exact);
        }
    }
}

/// Where a rounded number is off by half a step, its last bit is zero.
proof fn lemma_even_step_is_even(r: Reading, n: nat)
    requires
        r.is_finite(),
        r.units() == rounded(n, 1074),
        2 * abs(rounded(n, 1074) * pow2(1074) - n) == pow2(quantum(n, 1074) + 1074),
    ensures
        r.bits % 2 == 0,
{
    let e = EXPONENT_STEP as nat;
    let q = quantum(n, 1074);
    let d = pow2(q + 1074);
    let h = half_even(n, d);
    lemma2_to64_rest();
    lemma_quantum_bounds(n, 1074);
    rounding_goes_to_the_nearest_even_step(n, 1074, q);
    lemma_pow2_pos(q);
    lemma_pow2_pos(q + 1074);
    lemma_pow2_adds(53, q + 1074);
    lemma_pow2_adds(52, q + 1074);
    lemma_half_even_bounds(
        n,
        d,
        if q > 0 {
            pow2(52)
        } else {
            0
        },
        pow2(53),
    );
    vstd::arithmetic::div_mod::lemma_div_by_multiple(h as int, pow2(q) as int);
    lemma_magnitude_of(h, q);
    let field = q * e + h;
    if field < r.magnitude() {
        magnitudes_are_ordered(field, r.magnitude());
    } else if r.magnitude() < field {
        magnitudes_are_ordered(r.magnitude(), field);
    }
    assert((q * e + h) % 2 == 0) by (nonlinear_arith)
        requires
            e == 0x10_0000_0000_0000,
            h % 2 == 0,
    ;
}

/// What is no number makes a product that is none, and so do an infinity and a zero. Any
/// other product with an infinity is infinite, with the sign that goes with the factors.
pub proof fn products_beyond_finite_numbers(a: Reading, b: Reading, r: Reading)
    requires
        is_product(a, b, r),
    ensures
        a.is_nan() || b.is_nan() ==> r.is_nan(),
        a.is_infinite() && b.is_zero() || a.is_zero() && b.is_infinite() ==> r.is_nan(),
        a.is_infinite() && !b.is_nan() && !b.is_zero() || b.is_infinite() && !a.is_nan()
            && !a.is_zero() ==> r.is_infinite() && (r.negative() <==> a.negative()
            != b.negative()),
{
}

/// The order of the factors does not matter, and there is only one product that is a number.
pub proof fn products_are_unique(a: Reading, b: Reading, r: Reading, s: Reading)
    requires
        is_product(a, b, r),
        is_product(b, a, s),
    ensures
        r.is_nan() <==> s.is_nan(),
        !r.is_nan() ==> r == s,
{
    assert(a.units() * b.units() == b.units() * a.units()) by (nonlinear_arith);
    if r.is_finite() && s.is_finite() {
        finite_readings_are_their_value(r, s);
    }
}

/// The whole part of a number is the largest integer that is no further from zero, held to
/// the range of an `i64`. What is no number counts as zero.
pub proof fn whole_parts_only_drop_the_fraction(r: Reading)
    ensures
        ({
            let one = pow2(1074);
            let limit = 0x8000_0000_0000_0000 * pow2(1074);
            let w = r.whole_part();
            &&& r.is_nan() ==> w == 0
            &&& r.is_infinite() && r.negative() ==> w == -0x8000_0000_0000_0000
            &&& r.is_infinite() && !r.negative() ==> w == 0x7FFF_FFFF_FFFF_FFFF
            &&& r.is_finite() && r.negative() && r.units() >= limit ==> w == -0x8000_0000_0000_0000
            &&& r.is_finite() && !r.negative() && r.units() >= limit ==> w == 0x7FFF_FFFF_FFFF_FFFF
            &&& r.is_finite() && r.negative() && r.units() < limit ==> w <= 0 && -w * one
                <= r.units() < (1 - w) * one
            &&& r.is_finite() && !r.negative() && r.units() < limit ==> 0 <= w && w * one
                <= r.units() < (w + 1) * one
        }),
{
    let one = pow2(1074) as int;
    let amount = r.units() / pow2(1074);
    let limit = 0x8000_0000_0000_0000 * pow2(1074);
    lemma_pow2_pos(1074);
    vstd::arithmetic::div_mod::lemma_fundamental_div_mod(r.units() as int, one);
    vstd::arithmetic::div_mod::lemma_div_by_multiple(0x8000_0000_0000_0000, one);
    assert(one * amount == amount * one && (amount + 1) * one == amount * one + one)
        by (nonlinear_arith);
    if r.units() >= limit {
        vstd::arithmetic::div_mod::lemma_div_is_ordered(limit as int, r.units() as int, one);
    } else {
        assert(amount < 0x8000_0000_0000_0000) by (nonlinear_arith)
            requires
                amount * one <= r.units(),
                r.units() < 0x8000_0000_0000_0000 * one,
                one > 0,
        ;
    }
}

} // verus!
