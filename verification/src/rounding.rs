//! Rounding of binary fractions to a limited number of significant bits.
use vstd::arithmetic::div_mod::lemma_div_is_ordered;
use vstd::arithmetic::div_mod::lemma_fundamental_div_mod;
use vstd::arithmetic::div_mod::lemma_fundamental_div_mod_converse;
use vstd::arithmetic::mul::lemma_mul_inequality;
use vstd::arithmetic::power2::lemma_pow2_adds;
use vstd::arithmetic::power2::lemma_pow2_pos;
use vstd::arithmetic::power2::lemma_pow2_strictly_increases;
use vstd::arithmetic::power2::lemma_pow2_unfold;
use vstd::arithmetic::power2::pow2;
use vstd::math::abs;
use vstd::prelude::*;

verus! {

/// The integer nearest to `n / d`; of two equally near ones, the even one.
pub open spec fn half_even(n: nat, d: nat) -> nat {
    let floor = n / d;
    let rest = n % d;
    if 2 * rest < d || (2 * rest == d && floor % 2 == 0) {
        floor
    } else {
        floor + 1
    }
}

/// How many low bits of `n / 2^k` have to go so that at most 53 bits remain.
pub open spec fn quantum(n: nat, k: nat) -> nat
    decreases n,
{
    if n == 0 || n < pow2(53 + k) {
        0
    } else {
        1 + quantum(n / 2, k)
    }
}

/// `n / 2^k`, rounded to an integer of at most 53 significant bits. The nearest one is
/// taken, and of two equally near ones the one whose last kept bit is zero.
pub open spec fn rounded(n: nat, k: nat) -> nat {
    let q = quantum(n, k);
    half_even(n, pow2(q + k)) * pow2(q)
}

/// `quantum` is the number `q` for which `n / 2^(k + q)` has exactly 53 bits, or zero if
/// `n / 2^k` has fewer.
pub proof fn lemma_quantum(n: nat, k: nat, q: nat)
    requires
        n < pow2(53 + k + q),
        q == 0 || pow2((52 + k + q) as nat) <= n,
    ensures
        quantum(n, k) == q,
    decreases q,
{
    if q > 0 {
        if q > 1 {
            lemma_pow2_strictly_increases(53 + k, (52 + k + q) as nat);
        }
        lemma_pow2_pos((52 + k + q) as nat);
        lemma_pow2_unfold(53 + k + q);
        lemma_pow2_unfold((52 + k + q) as nat);
        lemma_quantum(n / 2, k, (q - 1) as nat);
    }
}

/// A common power of two cancels out of a rounded division.
pub proof fn lemma_half_even_scaled(n: nat, d: nat, c: nat)
    requires
        d > 0,
        c > 0,
    ensures
        half_even(n * c, d * c) == half_even(n, d),
{
    let floor = n / d;
    let rest = n % d;
    lemma_fundamental_div_mod(n as int, d as int);
    assert(n * c == (d * c) * floor + rest * c) by (nonlinear_arith)
        requires
            n == d * floor + rest,
    ;
    assert(0 <= rest * c < d * c) by (nonlinear_arith)
        requires
            0 <= rest < d,
            c > 0,
    ;
    assert((d * c) * floor == floor * (d * c)) by (nonlinear_arith);
    lemma_fundamental_div_mod_converse((n * c) as int, (d * c) as int, floor as int, (rest * c) as int);
    assert(2 * rest < d <==> 2 * (rest * c) < d * c) by (nonlinear_arith)
        requires
            c > 0,
    ;
    assert(2 * rest == d <==> 2 * (rest * c) == d * c) by (nonlinear_arith)
        requires
            c > 0,
    ;
}

/// Rounding a multiple of the divisor changes nothing.
pub proof fn lemma_half_even_exact(m: nat, d: nat)
    requires
        d > 0,
    ensures
        half_even(m * d, d) == m,
{
    assert(m * d == d * m) by (nonlinear_arith);
    lemma_fundamental_div_mod_converse((m * d) as int, d as int, m as int, 0);
}

/// The rounded quotient of a number between `low * d` and `high * d` lies between `low` and
/// `high`.
pub proof fn lemma_half_even_bounds(n: nat, d: nat, low: nat, high: nat)
    requires
        d > 0,
        low * d <= n < high * d,
    ensures
        low <= half_even(n, d) <= high,
{
    let floor = n / d;
    lemma_fundamental_div_mod(n as int, d as int);
    assert(low <= floor < high) by (nonlinear_arith)
        requires
            n == d * floor + n % d,
            0 <= n % d < d,
            low * d <= n < high * d,
    ;
}

/// The bounds on `n` that make `quantum(n, k)` what it is.
pub proof fn lemma_quantum_bounds(n: nat, k: nat)
    ensures
        n < pow2(53 + k + quantum(n, k)),
        quantum(n, k) > 0 ==> pow2((52 + k + quantum(n, k)) as nat) <= n,
    decreases n,
{
    lemma_pow2_pos(53 + k);
    if n >= pow2(53 + k) {
        let q = quantum(n / 2, k);
        lemma_quantum_bounds(n / 2, k);
        lemma_pow2_unfold((53 + k + q + 1) as nat);
        if q > 0 {
            lemma_pow2_unfold((52 + k + q + 1) as nat);
        }
    }
}

/// Scaling the numerator by the divisor leaves the rounding as it was.
pub proof fn lemma_rounded_scaled(n: nat, k: nat)
    ensures
        rounded(n * pow2(k), k) == rounded(n, 0),
{
    let q = quantum(n, 0);
    let c = pow2(k);
    lemma_pow2_pos(k);
    lemma_pow2_pos(q);
    lemma_quantum_bounds(n, 0);
    lemma_pow2_adds(53 + q, k);
    lemma_pow2_adds(52 + q, k);
    assert(n * c < pow2(53 + q) * c) by (nonlinear_arith)
        requires
            n < pow2(53 + q),
            c > 0,
    ;
    if q > 0 {
        assert(pow2(52 + q) * c <= n * c) by (nonlinear_arith)
            requires
                pow2(52 + q) <= n,
        ;
    }
    assert(53 + q + k == 53 + k + q && 52 + q + k == 52 + k + q);
    lemma_quantum(n * c, k, q);
    lemma_pow2_adds(q, k);
    lemma_half_even_scaled(n, pow2(q), c);
}

/// What is rounded is off by at most half a step: `rounded(n, k)` differs from `n / 2^k` by
/// no more than half of `2^quantum(n, k)`.
pub proof fn rounding_is_within_half_a_step(n: nat, k: nat)
    ensures
        2 * (rounded(n, k) * pow2(k) - n) <= pow2(quantum(n, k) + k),
        2 * (n - rounded(n, k) * pow2(k)) <= pow2(quantum(n, k) + k),
{
    let q = quantum(n, k);
    let d = pow2(q + k);
    let m = half_even(n, d);
    lemma_pow2_pos(q + k);
    lemma_pow2_adds(q, k);
    lemma_fundamental_div_mod(n as int, d as int);
    assert((m * pow2(q)) * pow2(k) == m * d) by (nonlinear_arith)
        requires
            d == pow2(q) * pow2(k),
    ;
    let floor = n / d;
    assert(d * floor == floor * d) by (nonlinear_arith);
    assert((floor + 1) * d == floor * d + d) by (nonlinear_arith);
}

/// A number of at most 53 significant bits is not changed by rounding.
pub proof fn rounding_keeps_short_numbers(m: nat, e: nat, k: nat)
    requires
        m < pow2(53),
    ensures
        rounded(m * pow2(e) * pow2(k), k) == m * pow2(e),
{
    let n = m * pow2(e) * pow2(k);
    let q = quantum(n, k);
    lemma_quantum_bounds(n, k);
    lemma_pow2_pos(e + k);
    lemma_pow2_pos(q + k);
    lemma_pow2_adds(e, k);
    lemma_pow2_adds(53, e + k);
    assert(n == m * pow2(e + k)) by (nonlinear_arith)
        requires
            n == m * pow2(e) * pow2(k),
            pow2(e + k) == pow2(e) * pow2(k),
    ;
    assert(n < pow2(53) * pow2(e + k)) by (nonlinear_arith)
        requires
            n == m * pow2(e + k),
            m < pow2(53),
            pow2(e + k) > 0,
    ;
    if q > e {
        if 53 + (e + k) < 52 + k + q {
            lemma_pow2_strictly_increases(53 + (e + k), (52 + k + q) as nat);
        }
    }
    let up = (e - q) as nat;
    let kept = m * pow2(up);
    lemma_pow2_adds(up, q + k);
    lemma_pow2_adds(up, q);
    assert(up + (q + k) == e + k);
    assert(n == kept * pow2(q + k)) by (nonlinear_arith)
        requires
            n == m * pow2(e + k),
            kept == m * pow2(up),
            pow2(e + k) == pow2(up) * pow2(q + k),
    ;
    lemma_half_even_exact(kept, pow2(q + k));
    assert(kept * pow2(q) == m * pow2(e)) by (nonlinear_arith)
        requires
            kept == m * pow2(up),
            pow2(e) == pow2(up) * pow2(q),
    ;
}

proof fn lemma_half_even_monotone(n1: nat, n2: nat, d: nat)
    requires
        d > 0,
        n1 <= n2,
    ensures
        half_even(n1, d) <= half_even(n2, d),
{
    lemma_div_is_ordered(n1 as int, n2 as int, d as int);
    lemma_fundamental_div_mod(n1 as int, d as int);
    lemma_fundamental_div_mod(n2 as int, d as int);
}

/// A larger number never rounds to a smaller one.
pub proof fn rounding_is_monotone(n1: nat, n2: nat, k: nat)
    requires
        n1 <= n2,
    ensures
        rounded(n1, k) <= rounded(n2, k),
{
    let q1 = quantum(n1, k);
    let q2 = quantum(n2, k);
    let d1 = pow2(q1 + k);
    let d2 = pow2(q2 + k);
    lemma_pow2_pos(q1 + k);
    lemma_pow2_pos(q2 + k);
    lemma_pow2_pos(q1);
    lemma_quantum_bounds(n1, k);
    lemma_quantum_bounds(n2, k);
    if q1 > q2 {
        if 53 + k + q2 < 52 + k + q1 {
            lemma_pow2_strictly_increases(53 + k + q2, (52 + k + q1) as nat);
        }
    } else if q1 == q2 {
        lemma_half_even_monotone(n1, n2, d1);
        lemma_mul_inequality(half_even(n1, d1) as int, half_even(n2, d2) as int, pow2(q1) as int);
    } else {
        assert(53 + k + q1 == 53 + (q1 + k) && 52 + k + q2 == 52 + (q2 + k));
        lemma_pow2_adds(53, q1 + k);
        lemma_pow2_adds(52, q2 + k);
        lemma_half_even_bounds(n1, d1, 0, pow2(53));
        let floor = n2 / d2;
        let rest = n2 % d2;
        let above = floor + 1;
        lemma_fundamental_div_mod(n2 as int, d2 as int);
        assert(n2 < above * d2) by (nonlinear_arith)
            requires
                n2 == d2 * floor + rest,
                rest < d2,
                above == floor + 1,
        ;
        lemma_half_even_bounds(n2, d2, pow2(52), above);
        lemma_mul_inequality(half_even(n1, d1) as int, pow2(53) as int, pow2(q1) as int);
        lemma_mul_inequality(pow2(52) as int, half_even(n2, d2) as int, pow2(q2) as int);
        lemma_pow2_adds(53, q1);
        lemma_pow2_adds(52, q2);
        if 53 + q1 < 52 + q2 {
            lemma_pow2_strictly_increases(53 + q1, 52 + q2);
        }
    }
}

/// A rounded quotient is off by at most a half, and where it is off by exactly a half it is
/// even.
pub proof fn quotients_go_to_the_nearest_integer(n: nat, d: nat)
    requires
        d > 0,
    ensures
        2 * abs(half_even(n, d) * d - n) <= d,
        2 * abs(half_even(n, d) * d - n) == d ==> half_even(n, d) % 2 == 0,
{
    let floor = n / d;
    lemma_fundamental_div_mod(n as int, d as int);
    assert(d * floor == floor * d) by (nonlinear_arith);
    assert((floor + 1) * d == floor * d + d) by (nonlinear_arith);
}

/// Where `n / 2^(k + q)` has 53 bits, or fewer and `q` is zero, `n / 2^k` is rounded to a
/// multiple of `2^q`, is off by at most half of that, and where it is off by exactly half of
/// it the multiple is even.
pub proof fn rounding_goes_to_the_nearest_even_step(n: nat, k: nat, q: nat)
    requires
        n < pow2(53 + k + q),
        q == 0 || pow2((52 + k + q) as nat) <= n,
    ensures
        rounded(n, k) % pow2(q) == 0,
        2 * abs(rounded(n, k) * pow2(k) - n) <= pow2(q + k),
        2 * abs(rounded(n, k) * pow2(k) - n) == pow2(q + k) ==> (rounded(n, k) / pow2(q)) % 2 == 0,
{
    lemma_quantum(n, k, q);
    let d = pow2(q + k);
    let m = half_even(n, d);
    lemma_pow2_pos(q + k);
    lemma_pow2_pos(q);
    lemma_pow2_adds(q, k);
    quotients_go_to_the_nearest_integer(n, d);
    assert((m * pow2(q)) * pow2(k) == m * d) by (nonlinear_arith)
        requires
            d == pow2(q) * pow2(k),
    ;
    lemma_fundamental_div_mod_converse((m * pow2(q)) as int, pow2(q) as int, m as int, 0);
}

/// No number of at most 53 significant bits is nearer to `n / 2^k` than the rounded one, and
/// one that is equally near lies half a step away, on the other side.
pub proof fn no_short_number_is_nearer(n: nat, k: nat, m: nat, e: nat)
    requires
        m < pow2(53),
    ensures
        abs(rounded(n, k) * pow2(k) - n) <= abs((m * pow2(e)) * pow2(k) - n),
        abs(rounded(n, k) * pow2(k) - n) == abs((m * pow2(e)) * pow2(k) - n) && rounded(n, k) != m
            * pow2(e) ==> 2 * abs(rounded(n, k) * pow2(k) - n) == pow2(quantum(n, k) + k),
{
    let q = quantum(n, k);
    let c = pow2(k);
    let s = pow2(q);
    let d = pow2(q + k);
    let r = rounded(n, k);
    let x = m * pow2(e);
    lemma_pow2_pos(k);
    lemma_pow2_pos(q);
    lemma_pow2_pos(e);
    lemma_pow2_adds(q, k);
    lemma_quantum_bounds(n, k);
    rounding_goes_to_the_nearest_even_step(n, k, q);
    let h = r / s;
    lemma_fundamental_div_mod(r as int, s as int);
    assert(r * c == h * d) by (nonlinear_arith)
        requires
            r == s * h,
            d == s * c,
    ;
    if e >= q {
        let up = (e - q) as nat;
        let j = m * pow2(up);
        lemma_pow2_adds(up, q);
        assert(x == j * s) by (nonlinear_arith)
            requires
                x == m * pow2(e),
                j == m * pow2(up),
                pow2(e) == pow2(up) * s,
        ;
        lemma_other_step(n, d, h, j);
        assert(x * c == j * d) by (nonlinear_arith)
            requires
                x == j * s,
                d == s * c,
        ;
        if j == h {
            assert(r == x) by (nonlinear_arith)
                requires
                    r == s * h,
                    x == j * s,
                    j == h,
            ;
        }
    } else {
        let b = pow2(52);
        lemma_pow2_adds(53, e);
        lemma_pow2_adds(52, q);
        lemma_pow2_adds(52, q + k);
        assert(x < pow2(53) * pow2(e)) by (nonlinear_arith)
            requires
                x == m * pow2(e),
                m < pow2(53),
                pow2(e) > 0,
        ;
        if 53 + e < 52 + q {
            lemma_pow2_strictly_increases(53 + e, 52 + q);
        }
        assert(x < b * s);
        assert(x * c < b * d) by (nonlinear_arith)
            requires
                x < b * s,
                d == s * c,
                c > 0,
        ;
        lemma_other_step(n, d, h, b);
        assert(52 + k + q == 52 + (q + k));
    }
}

/// Of all multiples of a step, none is nearer than one that is off by at most half of it.
proof fn lemma_other_step(n: nat, d: nat, h: nat, j: nat)
    requires
        d > 0,
        2 * abs(h * d - n) <= d,
    ensures
        abs(h * d - n) <= abs(j * d - n),
        abs(h * d - n) == abs(j * d - n) && h != j ==> 2 * abs(h * d - n) == d,
{
    if j > h {
        assert(j * d >= h * d + d) by (nonlinear_arith)
            requires
                j >= h + 1,
                d > 0,
        ;
    } else if j < h {
        assert(h * d >= j * d + d) by (nonlinear_arith)
            requires
                h >= j + 1,
                d > 0,
        ;
    }
}

/// A number rounds to 2^2098 or more from half a step below it on.
pub proof fn rounding_overflows_from_half_a_step_below(n: nat, k: nat)
    ensures
        rounded(n, k) >= pow2(2098) <==> n >= (pow2(2098) - pow2(2044)) * pow2(k),
{
    let c = pow2(k);
    let half = pow2(2044 + k);
    let d = pow2(2045 + k);
    let limit = ((pow2(2098) - pow2(2044)) * pow2(k)) as nat;
    lemma_pow2_pos(k);
    lemma_pow2_pos(2044 + k);
    lemma_pow2_pos(2045);
    lemma_pow2_unfold(2045 + k);
    lemma_pow2_unfold(2098 + k);
    lemma_pow2_adds(2044, k);
    lemma_pow2_adds(2045, k);
    lemma_pow2_adds(2098, k);
    lemma_pow2_adds(53, 2045 + k);
    lemma_pow2_adds(53, 2045);
    lemma_pow2_adds(52, 2045);
    lemma_pow2_strictly_increases(2044, 2098);
    lemma_pow2_strictly_increases(2044 + k, 2097 + k);
    lemma_pow2_strictly_increases(2097, 2098);
    assert((pow2(2098) - pow2(2044)) * c == pow2(2098) * c - pow2(2044) * c) by (nonlinear_arith);
    assert(limit == pow2(53) * d - half);
    assert(53 + k + 2045 == 2098 + k && 52 + k + 2045 == 2097 + k);
    if n >= limit {
        rounding_is_monotone(limit, n, k);
        rounding_goes_to_the_nearest_even_step(limit, k, 2045);
        lemma_step_of(limit, k, 2045);
        let h = rounded(limit, k) / pow2(2045);
        vstd::arithmetic::power2::lemma2_to64_rest();
        assert(h >= pow2(53)) by {
            if h < pow2(53) {
                let top: nat = (pow2(53) - 1) as nat;
                assert(top * d == pow2(53) * d - d) by (nonlinear_arith)
                    requires
                        top == pow2(53) - 1,
                ;
                if h < top {
                    lemma_mul_inequality((h + 1) as int, top as int, d as int);
                    assert((h + 1) * d == h * d + d) by (nonlinear_arith);
                } else {
                    assert(h == top);
                }
            }
        }
        lemma_mul_inequality(pow2(53) as int, h as int, pow2(2045) as int);
        assert(rounded(limit, k) == h * pow2(2045));
    } else if n >= pow2(2097 + k) {
        rounding_goes_to_the_nearest_even_step(n, k, 2045);
        lemma_step_of(n, k, 2045);
        let h = rounded(n, k) / pow2(2045);
        assert(h < pow2(53)) by {
            if h >= pow2(53) {
                lemma_mul_inequality(pow2(53) as int, h as int, d as int);
            }
        }
        assert(h * pow2(2045) < pow2(53) * pow2(2045)) by (nonlinear_arith)
            requires
                h < pow2(53),
                pow2(2045) > 0,
        ;
    } else {
        rounding_is_monotone(n, pow2(2097 + k), k);
        vstd::arithmetic::power2::lemma2_to64();
        vstd::arithmetic::power2::lemma2_to64_rest();
        lemma_pow2_adds(2097, k);
        rounding_keeps_short_numbers(1, 2097, k);
        assert(1 * pow2(2097) * pow2(k) == pow2(2097 + k));
    }
}

/// A multiple of a step, in steps.
proof fn lemma_step_of(n: nat, k: nat, q: nat)
    requires
        rounded(n, k) % pow2(q) == 0,
    ensures
        rounded(n, k) == (rounded(n, k) / pow2(q)) * pow2(q),
        rounded(n, k) * pow2(k) == (rounded(n, k) / pow2(q)) * pow2(q + k),
{
    let r = rounded(n, k);
    let s = pow2(q);
    let h = r / s;
    lemma_pow2_pos(q);
    lemma_pow2_adds(q, k);
    lemma_fundamental_div_mod(r as int, s as int);
    assert(s * h == h * s) by (nonlinear_arith);
    assert((h * s) * pow2(k) == h * (s * pow2(k))) by (nonlinear_arith);
}

} // verus!
