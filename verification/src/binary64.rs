//! Quotients that are computed in IEEE 754 binary64, and their decimal texts.
//!
//! Durations, token counts and file sizes are shown with few digits of a
//! binary64 quotient. Which digit a tie such as 1.15 rounds to depends on the
//! nearest binary64 value, so that value is computed here, exactly, on
//! integers: numerators below 2^64 divided by denominators below 2^32.

use crate::decimal::{dec, u128_text};
use crate::text::cat3;
use vstd::prelude::*;
use vstd::string::*;

verus! {

/// 2^52: the least significand of a normal number.
pub const LEAST: u128 = 0x10_0000_0000_0000;

/// 2^53: the bound of significands.
pub const BOUND: u128 = 0x20_0000_0000_0000;

/// The integer nearest to `n / d`; of two, the even one.
pub open spec fn nearest(n: nat, d: nat) -> nat {
    let q = n / d;
    let r = n % d;
    if 2 * r < d || (2 * r == d && q % 2 == 0) {
        q
    } else {
        q + 1
    }
}

/// `x` and `p`, doubled together until `x` reaches `least`.
pub open spec fn grown(x: nat, p: nat, least: nat) -> (nat, nat)
    decreases
            if x < least {
                least - x
            } else {
                0
            },
{
    if x == 0 || x >= least {
        (x, p)
    } else {
        grown(2 * x, 2 * p, least)
    }
}

/// `d` and `p`, doubled together until `n` is below `BOUND` times `d`.
pub open spec fn widened(d: nat, p: nat, n: nat) -> (nat, nat)
    decreases n - d,
{
    if d == 0 || n < BOUND * d {
        (d, p)
    } else {
        widened(2 * d, 2 * p, n)
    }
}

/// The binary64 value nearest to an integer.
pub open spec fn double_of(n: nat) -> nat {
    let (d, p) = widened(1, 1, n);
    nearest(n, d) * p
}

/// The binary64 value nearest to `n / d`, as a fraction: significand times a
/// power of two, over a power of two.
pub open spec fn double_quotient(n: nat, d: nat) -> (nat, nat) {
    let (wd, wp) = widened(d, 1, n);
    let (x, p) = grown(n, 1, (LEAST * wd) as nat);
    (nearest(x, wd) * wp, p)
}

/// Tenths of the binary64 quotient of two integers, rounded to nearest, ties
/// to even.
pub open spec fn tenths_of(n: nat, d: nat) -> nat {
    let (m, p) = double_quotient(double_of(n), d);
    nearest(10 * m, p)
}

/// A quotient with one decimal digit.
pub open spec fn one_decimal(n: nat, d: nat) -> Seq<char> {
    dec(tenths_of(n, d) / 10) + "."@ + dec(tenths_of(n, d) % 10)
}

/// The integer nearest to a quotient.
pub fn round_div(n: u128, d: u128) -> (r: u128)
    requires
        0 < d < 0x4000_0000_0000_0000_0000_0000_0000_0000,
    ensures
        r == nearest(n as nat, d as nat),
        r <= n / d + 1,
{
    let q: u128 = n / d;
    let r: u128 = n % d;
    if 2 * r < d || (2 * r == d && q % 2 == 0) {
        q
    } else {
        assert(q < u128::MAX) by (nonlinear_arith)
            requires
                q == n / d,
                d >= 2,
                n <= u128::MAX,
        ;
        q + 1
    }
}

fn widen(d0: u128, n: u128) -> (r: (u128, u128))
    requires
        0 < d0 <= 0x1_0000_0000,
        n < 0x2_0000_0000_0000_0000,
    ensures
        (r.0 as nat, r.1 as nat) == widened(d0 as nat, 1, n as nat),
        d0 <= r.0 <= 0x1_0000_0000,
        0 < r.1 <= r.0,
        d0 == 1 ==> r.1 == r.0,
{
    let mut d: u128 = d0;
    let mut p: u128 = 1;
    while n >= BOUND * d
        invariant
            d0 <= d <= 0x1_0000_0000,
            d0 > 0,
            n < 0x2_0000_0000_0000_0000,
            0 < p <= d,
            d0 == 1 ==> p == d,
            widened(d0 as nat, 1, n as nat) == widened(d as nat, p as nat, n as nat),
        decreases n - d,
    {
        d = 2 * d;
        p = 2 * p;
    }
    (d, p)
}

fn grow(x0: u128, least: u128) -> (r: (u128, u128))
    requires
        0 < x0,
        x0 < 0x2_0000_0000_0000_0000,
        least <= 0x10_0000_0000_0000_0000_0000,
    ensures
        (r.0 as nat, r.1 as nat) == grown(x0 as nat, 1, least as nat),
        0 < r.1 <= r.0 < 0x20_0000_0000_0000_0000_0000,
{
    let mut x: u128 = x0;
    let mut p: u128 = 1;
    while x < least
        invariant
            0 < x < 0x20_0000_0000_0000_0000_0000,
            0 < p <= x,
            least <= 0x10_0000_0000_0000_0000_0000,
            grown(x0 as nat, 1, least as nat) == grown(x as nat, p as nat, least as nat),
        decreases
                if x < least {
                    least - x
                } else {
                    0
                },
    {
        x = 2 * x;
        p = 2 * p;
    }
    (x, p)
}

/// The binary64 quotient of a binary64 integer and an integer below 2^32.
fn divided(a: u128, d: u32) -> (r: (u128, u128))
    requires
        a < 0x2_0000_0000_0000_0000,
        0 < d,
    ensures
        (r.0 as nat, r.1 as nat) == double_quotient(a as nat, d as nat),
        r.0 <= 0x40_0000_0000_0000_0000_0000,
        0 < r.1 < 0x20_0000_0000_0000_0000_0000,
{
    if a == 0 {
        proof {
            assert(widened(d as nat, 1, 0) == (d as nat, 1nat));
            assert(grown(0, 1, (LEAST * d) as nat) == (0nat, 1nat));
            assert(nearest(0, d as nat) == 0) by (nonlinear_arith)
                requires
                    d > 0,
            ;
        }
        return (0, 1);
    }
    let (wd, wp) = widen(d as u128, a);
    let (x, p) = grow(a, LEAST * wd);
    let m: u128 = round_div(x, wd);
    assert(m * wp <= x + wd) by (nonlinear_arith)
        requires
            m <= x / wd + 1,
            wd >= 1,
            wp <= wd,
    ;
    (m * wp, p)
}

/// The binary64 value nearest to an integer.
pub fn to_double(n: u64) -> (r: u128)
    ensures
        r == double_of(n as nat),
        n == 0 ==> r == 0,
        n > 0 ==> r > 0,
        r < 0x2_0000_0000_0000_0000,
{
    let (d, p) = widen(1, n as u128);
    let m: u128 = round_div(n as u128, d);
    assert(m * p <= n + d && (n > 0 <==> m * p > 0)) by {
        lemma_round_back(n as nat, d as nat);
        if n == 0 {
            law_small_integers_are_exact(0);
        } else {
            lemma_widened_keeps_digits(1, 1, n as nat);
        }
    }
    m * p
}

proof fn lemma_round_back(n: nat, d: nat)
    requires
        d > 0,
    ensures
        nearest(n, d) * d <= n + d,
        n >= d ==> nearest(n, d) * d > 0,
{
    let q = n / d;
    assert(q * d <= n && (q + 1) * d <= n + d && (n >= d ==> q >= 1)) by (nonlinear_arith)
        requires
            q == n / d,
            d > 0,
    ;
    assert(q >= 1 ==> q * d > 0 && (q + 1) * d > 0) by (nonlinear_arith)
        requires
            d > 0,
    ;
}

/// Widening stops long before the denominator exceeds the numerator.
proof fn lemma_widened_keeps_digits(d: nat, p: nat, n: nat)
    requires
        0 < d <= n,
    ensures
        widened(d, p, n).0 <= n,
    decreases n - d,
{
    if n >= BOUND * d {
        lemma_widened_keeps_digits(2 * d, 2 * p, n);
    }
}

/// Tenths of the binary64 quotient of two integers.
pub fn tenths(n: u64, d: u32) -> (r: u128)
    requires
        0 < d,
    ensures
        r == tenths_of(n as nat, d as nat),
{
    let a = to_double(n);
    let (m, p) = divided(a, d);
    round_div(10 * m, p)
}

/// The binary64 quotient of two integers, without its fraction.
pub open spec fn whole_quotient(n: nat, d: nat) -> nat {
    let (m, p) = double_quotient(double_of(n), d);
    m / p
}

/// See [`whole_quotient`].
pub fn whole_of_quotient(n: u64, d: u32) -> (r: u128)
    requires
        0 < d,
    ensures
        r == whole_quotient(n as nat, d as nat),
{
    let a = to_double(n);
    let (m, p) = divided(a, d);
    m / p
}

/// A quotient with one decimal digit.
pub fn one_decimal_text(n: u64, d: u32) -> (r: String)
    requires
        0 < d,
    ensures
        r@ == one_decimal(n as nat, d as nat),
{
    let t = tenths(n, d);
    let whole = u128_text(t / 10);
    let digit = u128_text(t % 10);
    cat3(whole.as_str(), ".", digit.as_str())
}

// ---------------------------------------------------------------------------
// Order
// ---------------------------------------------------------------------------
/// Whether a bit pattern is no number.
pub open spec fn is_nan(bits: u64) -> bool {
    bits % 0x8000_0000_0000_0000 > 0x7ff0_0000_0000_0000
}

/// An integer that orders the bit patterns of numbers as the numbers; both
/// zeros have the same.
pub open spec fn rank_of(bits: u64) -> int {
    if bits < 0x8000_0000_0000_0000 {
        bits as int
    } else {
        0x8000_0000_0000_0000 - bits
    }
}

/// The lesser of two numbers, given and returned as bit patterns; what is no
/// number loses against a number. Of the two zeros, the first.
pub open spec fn lesser(a: u64, b: u64) -> u64 {
    if is_nan(a) {
        b
    } else if is_nan(b) || rank_of(a) <= rank_of(b) {
        a
    } else {
        b
    }
}

/// The greater of two numbers, likewise; of the two zeros, the second.
pub open spec fn greater(a: u64, b: u64) -> u64 {
    if is_nan(a) {
        b
    } else if is_nan(b) || rank_of(a) > rank_of(b) {
        a
    } else {
        b
    }
}

fn nan(bits: u64) -> (r: bool)
    ensures
        r == is_nan(bits),
{
    bits % 0x8000_0000_0000_0000 > 0x7ff0_0000_0000_0000
}

fn rank(bits: u64) -> (r: i128)
    ensures
        r == rank_of(bits),
{
    if bits < 0x8000_0000_0000_0000 {
        bits as i128
    } else {
        0x8000_0000_0000_0000i128 - bits as i128
    }
}

/// Two numbers in ascending order, as bit patterns.
pub fn ascending(a: u64, b: u64) -> (r: (u64, u64))
    ensures
        r == (lesser(a, b), greater(a, b)),
{
    if nan(a) {
        (b, b)
    } else if nan(b) {
        (a, a)
    } else if rank(a) <= rank(b) {
        (a, b)
    } else {
        (b, a)
    }
}

/// Integers below 2^53 are binary64 values.
pub proof fn law_small_integers_are_exact(n: nat)
    requires
        n < BOUND,
    ensures
        double_of(n) == n,
{
    assert(widened(1, 1, n) == (1nat, 1nat));
    assert(n / 1 == n && n % 1 == 0);
    assert(nearest(n, 1) == n);
}

/// The nearest integer to a quotient is at most a half away from it; of two that
/// are equally near it is the even one.
pub proof fn law_nearest_is_nearest(n: nat, d: nat)
    requires
        d > 0,
    ensures
        2 * (nearest(n, d) * d - n) <= d,
        2 * (n - nearest(n, d) * d) <= d,
        2 * (nearest(n, d) * d - n) == d || 2 * (n - nearest(n, d) * d) == d ==> nearest(n, d) % 2
            == 0,
{
    let q = n / d;
    let r = n % d;
    assert(n == q * d + r && r < d) by (nonlinear_arith)
        requires
            d > 0,
            q == n / d,
            r == n % d,
    ;
    assert((q + 1) * d == q * d + d) by (nonlinear_arith);
}

/// Of two numbers the lesser one is not above the greater one, both are among the
/// two, and their order does not depend on which was given first.
pub proof fn law_numbers_are_put_in_order(a: u64, b: u64)
    requires
        !is_nan(a),
        !is_nan(b),
    ensures
        rank_of(lesser(a, b)) <= rank_of(greater(a, b)),
        lesser(a, b) == a && greater(a, b) == b || lesser(a, b) == b && greater(a, b) == a,
        rank_of(lesser(a, b)) == rank_of(lesser(b, a)),
        rank_of(greater(a, b)) == rank_of(greater(b, a)),
        a < b < 0x8000_0000_0000_0000 ==> lesser(a, b) == a && greater(a, b) == b,
        a >= 0x8000_0000_0000_0000 && b < 0x8000_0000_0000_0000 && b > 0 ==> lesser(a, b) == a
            && lesser(b, a) == a,
{
}

} // verus!
