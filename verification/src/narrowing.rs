//! Shares kept in half the room: a stored 64-bit value between zero and one,
//! rounded to the nearest 32-bit one.

use vstd::prelude::*;
use vstd::arithmetic::div_mod::lemma_fundamental_div_mod;
use vstd::arithmetic::power2::{lemma2_to64, lemma2_to64_rest, lemma_pow2_adds, lemma_pow2_pos, pow2};
use vstd::arithmetic::power2::{lemma_pow2_strictly_increases, lemma_pow2_unfold};
use crate::measure::{magnitude, magnitudes_grow, signed, SIGN};

verus! {

/// The stored value of one.
pub const UNIT: u64 = 0x3FF0_0000_0000_0000;

/// One in 32 bits.
pub const NARROW_UNIT: u32 = 0x3F80_0000;

/// Negative zero in 32 bits.
pub const NARROW_SIGN: u32 = 0x8000_0000;

/// Between zero and one, negative zero with them.
pub open spec fn share(bits: u64) -> bool {
    0 <= signed(bits) <= UNIT
}

/// The exact value of stored 32 bits without a sign, in the units of
/// `magnitude`.
pub open spec fn narrow_magnitude(n: int) -> int {
    let scale = n / 0x80_0000;
    let part = n % 0x80_0000;
    if scale == 0 {
        part * pow2(925)
    } else {
        (0x80_0000 + part) * pow2((scale + 924) as nat)
    }
}

/// The quotient to the nearest integer, halves to the even one.
pub open spec fn rounded(x: int, d: int) -> int {
    let q = x / d;
    let rest = 2 * (x % d);
    if rest > d || (rest == d && q % 2 == 1) {
        q + 1
    } else {
        q
    }
}

/// A share in 32 bits. Small ones share the steps next to zero.
pub open spec fn narrowed(bits: u64) -> u32 {
    let scale = bits as int / 0x10_0000_0000_0000;
    let part = bits as int % 0x10_0000_0000_0000;
    if bits >= SIGN {
        NARROW_SIGN
    } else if scale > 896 {
        rounded(bits - 0x3800_0000_0000_0000, 0x2000_0000) as u32
    } else if scale > 872 {
        rounded(0x10_0000_0000_0000 + part, pow2((926 - scale) as nat) as int) as u32
    } else {
        0
    }
}

/// `n` is the 32-bit value nearest to a share: no neighbour is nearer, and of
/// two as near it is the even one.
pub open spec fn nearest_narrow(bits: u64, n: u32) -> bool {
    let twice = 2 * magnitude(bits as int);
    let below = narrow_magnitude(n - 1) + narrow_magnitude(n as int);
    let above = narrow_magnitude(n as int) + narrow_magnitude(n + 1);
    &&& n <= NARROW_UNIT
    &&& n > 0 ==> below <= twice && (below == twice ==> n % 2 == 0)
    &&& twice <= above && (twice == above ==> n % 2 == 0)
}

fn round_off(x: u64, d: u64) -> (r: u64)
    requires
        0 < d <= 0x40_0000_0000_0000,
        x < 0x8000_0000_0000_0000,
    ensures
        r == rounded(x as int, d as int),
        r <= x / d + 1,
{
    let q: u64 = x / d;
    let rest: u64 = 2 * (x % d);
    assert(q <= x) by (nonlinear_arith)
        requires
            q == x / d,
            d > 0,
    ;
    if rest > d || (rest == d && q % 2 == 1) {
        q + 1
    } else {
        q
    }
}

/// A share in 32 bits.
pub fn narrow_share(bits: u64) -> (n: u32)
    requires
        share(bits),
    ensures
        n == narrowed(bits),
{
    if bits >= SIGN {
        return NARROW_SIGN;
    }
    let scale: u64 = bits / 0x10_0000_0000_0000;
    let part: u64 = bits % 0x10_0000_0000_0000;
    if scale > 896 {
        let r: u64 = round_off(bits - 0x3800_0000_0000_0000, 0x2000_0000);
        r as u32
    } else if scale > 872 {
        let shift: u64 = 926 - scale;
        let d: u64 = power_of_two(shift);
        let r: u64 = round_off(0x10_0000_0000_0000 + part, d);
        assert((0x10_0000_0000_0000 + part) / d as int <= 0x80_0000) by (nonlinear_arith)
            requires
                part < 0x10_0000_0000_0000,
                d >= 0x4000_0000,
        ;
        r as u32
    } else {
        0
    }
}

fn power_of_two(shift: u64) -> (d: u64)
    requires
        30 <= shift <= 53,
    ensures
        d == pow2(shift as nat),
        0x4000_0000 <= d <= 0x20_0000_0000_0000,
{
    let mut d: u64 = 0x4000_0000;
    let mut k: u64 = 30;
    proof {
        lemma2_to64();
    }
    while k < shift
        invariant
            30 <= k <= shift <= 53,
            d == pow2(k as nat),
            0x4000_0000 <= d,
        decreases shift - k,
    {
        proof {
            lemma2_to64_rest();
            lemma_pow2_unfold((k + 1) as nat);
            lemma_pow2_strictly_increases((k + 1) as nat, 54);
        }
        d = 2 * d;
        k += 1;
    }
    proof {
        lemma2_to64_rest();
        if shift < 53 {
            lemma_pow2_strictly_increases(shift as nat, 53);
        }
    }
    d
}

proof fn lemma_narrow_step(n: int)
    requires
        0 <= n,
    ensures
        n < 0x80_0000 ==> narrow_magnitude(n + 1) == narrow_magnitude(n) + pow2(925),
        n >= 0x80_0000 ==> narrow_magnitude(n + 1) == narrow_magnitude(n) + pow2(
            (n / 0x80_0000 + 924) as nat,
        ),
        narrow_magnitude(n) < narrow_magnitude(n + 1),
{
    let scale = n / 0x80_0000;
    let part = n % 0x80_0000;
    let k = if scale == 0 {
        925nat
    } else {
        (scale + 924) as nat
    };
    let u = pow2(k) as int;
    lemma_pow2_pos(k);
    if part + 1 < 0x80_0000 {
        assert((n + 1) / 0x80_0000 == scale && (n + 1) % 0x80_0000 == part + 1);
        if scale == 0 {
            assert((part + 1) * u == part * u + u) by (nonlinear_arith);
        } else {
            assert((0x80_0000 + (part + 1)) * u == (0x80_0000 + part) * u + u) by (nonlinear_arith);
        }
    } else {
        assert((n + 1) / 0x80_0000 == scale + 1 && (n + 1) % 0x80_0000 == 0);
        if scale == 0 {
            assert(0x80_0000 * u == 0x7F_FFFF * u + u) by (nonlinear_arith);
        } else {
            lemma2_to64();
            lemma_pow2_adds(1, k);
            assert((scale + 1 + 924) as nat == 1 + k);
            assert(0x80_0000 * (2 * u) == (0x80_0000 + 0x7F_FFFF) * u + u) by (nonlinear_arith);
        }
    }
}

/// A value between two neighbouring 32-bit ones is rounded as its distance to
/// them says.
proof fn lemma_between(bits: u64, x: int, d: int, u: int, n0: int)
    requires
        d > 0,
        u > 0,
        0 <= n0 == x / d,
        x >= 0,
        rounded(x, d) <= NARROW_UNIT,
        magnitude(bits as int) == narrow_magnitude(n0) + (x % d) * u,
        narrow_magnitude(n0 + 1) == narrow_magnitude(n0) + d * u,
        n0 < 0x8000_0000,
    ensures
        nearest_narrow(bits, rounded(x, d) as u32),
{
    let low = x % d;
    let n = rounded(x, d);
    assert(0 <= low < d);
    assert(0 <= low * u) by (nonlinear_arith)
        requires
            low >= 0,
            u > 0,
    ;
    assert(low * u < d * u) by (nonlinear_arith)
        requires
            low < d,
            u > 0,
    ;
    if n0 > 0 {
        lemma_narrow_step(n0 - 1);
    }
    lemma_narrow_step(n0);
    lemma_narrow_step(n0 + 1);
    assert(2 * low < d ==> 2 * (low * u) < d * u) by (nonlinear_arith)
        requires
            u > 0,
    ;
    assert(2 * low > d ==> 2 * (low * u) > d * u) by (nonlinear_arith)
        requires
            u > 0,
    ;
    assert(2 * low == d ==> 2 * (low * u) == d * u) by (nonlinear_arith);
}

/// A share is rounded to the nearest 32-bit value, halves to the even one.
pub proof fn narrowing_is_nearest(bits: u64)
    requires
        bits <= UNIT,
    ensures
        nearest_narrow(bits, narrowed(bits)),
{
    let scale = bits as int / 0x10_0000_0000_0000;
    let part = bits as int % 0x10_0000_0000_0000;
    if scale > 896 {
        let x = bits - 0x3800_0000_0000_0000;
        let n0 = x / 0x2000_0000;
        let low = x % 0x2000_0000;
        let u = pow2((scale - 1) as nat) as int;
        lemma_pow2_pos((scale - 1) as nat);
        lemma2_to64();
        // n0 has the exponent of the share and the top of its fraction
        assert(n0 / 0x80_0000 == scale - 896);
        assert(n0 % 0x80_0000 == part / 0x2000_0000);
        assert(low == part % 0x2000_0000);
        lemma_pow2_adds(29, (scale - 1) as nat);
        assert(29 + (scale - 1) as nat == (scale - 896 + 924) as nat);
        lemma_narrow_step(n0);
        let top = n0 % 0x80_0000;
        assert((0x10_0000_0000_0000 + part) * u == (0x80_0000 + top) * (0x2000_0000 * u) + low * u)
            by (nonlinear_arith)
            requires
                part == top * 0x2000_0000 + low,
        ;
        lemma_between(bits, x, 0x2000_0000, u, n0);
    } else if scale > 872 {
        let k = (926 - scale) as nat;
        let d = pow2(k) as int;
        let x = 0x10_0000_0000_0000 + part;
        let n0 = x / d;
        let u = pow2((scale - 1) as nat) as int;
        lemma_pow2_pos(k);
        lemma_pow2_pos((scale - 1) as nat);
        lemma_pow2_adds(k, (scale - 1) as nat);
        assert(k + (scale - 1) as nat == 925);
        lemma2_to64();
        lemma_pow2_adds(30, (k - 30) as nat);
        lemma_pow2_pos((k - 30) as nat);
        assert(d >= 0x4000_0000) by (nonlinear_arith)
            requires
                d == 0x4000_0000 * pow2((k - 30) as nat),
                pow2((k - 30) as nat) >= 1,
        ;
        assert(0 <= n0 < 0x80_0000) by (nonlinear_arith)
            requires
                n0 == x / d,
                0 <= x < 0x20_0000_0000_0000,
                d >= 0x4000_0000,
        ;
        lemma_fundamental_div_mod(x, d);
        lemma_narrow_step(n0);
        assert(x * u == n0 * (d * u) + (x % d) * u) by (nonlinear_arith)
            requires
                x == d * n0 + x % d,
        ;
        lemma_between(bits, x, d, u, n0);
    } else {
        // less than half of the smallest step
        let top = 0x3690_0000_0000_0000;
        magnitudes_grow(bits as int, top);
        assert(top / 0x10_0000_0000_0000 == 873 && top % 0x10_0000_0000_0000 == 0);
        lemma2_to64();
        lemma2_to64_rest();
        lemma_pow2_adds(52, 872);
        lemma_pow2_adds(1, 924);
        lemma_pow2_pos(924);
        lemma_narrow_step(0);
    }
}

/// Negative zero keeps its sign; zero and one are exact.
pub proof fn ends_are_narrowed_exactly(bits: u64)
    ensures
        bits >= 0x8000_0000_0000_0000 ==> narrowed(bits) == 0x8000_0000,
        narrowed(0) == 0,
        narrowed(0x3FF0_0000_0000_0000) == 0x3F80_0000,
        share(bits) <==> bits <= 0x3FF0_0000_0000_0000 || bits == 0x8000_0000_0000_0000,
{
}

} // verus!
