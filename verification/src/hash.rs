//! Deterministic integer mixing: the same inputs give the same draw on every
//! machine and in every frame.

use vstd::prelude::*;

verus! {

/// The SplitMix64 step.
pub open spec fn mixed(x: u64) -> u64 {
    let a = x.wrapping_add(0x9E37_79B9_7F4A_7C15u64);
    finished(a)
}

/// The SplitMix64 finalizer.
pub open spec fn finished(a: u64) -> u64 {
    let b = (a ^ (a >> 30u64)).wrapping_mul(0xBF58_476D_1CE4_E5B9u64);
    let c = (b ^ (b >> 27u64)).wrapping_mul(0x94D0_49BB_1331_11EBu64);
    c ^ (c >> 31u64)
}

fn finish(a: u64) -> (r: u64)
    ensures
        r == finished(a),
{
    let b: u64 = (a ^ (a >> 30)).wrapping_mul(0xBF58_476D_1CE4_E5B9);
    let c: u64 = (b ^ (b >> 27)).wrapping_mul(0x94D0_49BB_1331_11EB);
    c ^ (c >> 31)
}

pub fn splitmix64(x: u64) -> (r: u64)
    ensures
        r == mixed(x),
{
    finish(x.wrapping_add(0x9E37_79B9_7F4A_7C15))
}

/// The key that a river's draw is mixed from.
pub open spec fn river_key(seed: u64, segment_id: u32, lane: u64, salt: u64) -> u64 {
    seed ^ (segment_id as u64).wrapping_mul(0xD6E8_FEB8_6659_FD93u64) ^ lane.wrapping_mul(
        0xA076_1D64_78BD_642Fu64,
    ) ^ salt
}

/// A river's uniform draw as 53 bits: the draw is this over 2^53. Signed seeds
/// and lanes enter in two's complement.
pub fn river_bits(seed: u64, segment_id: u32, lane: u64, salt: u64) -> (r: u64)
    ensures
        r == mixed(river_key(seed, segment_id, lane, salt)) >> 11u64,
        r < 0x20_0000_0000_0000,
{
    let key: u64 = seed ^ (segment_id as u64).wrapping_mul(0xD6E8_FEB8_6659_FD93)
        ^ lane.wrapping_mul(0xA076_1D64_78BD_642F) ^ salt;
    let x: u64 = splitmix64(key);
    assert(x >> 11u64 < 0x20_0000_0000_0000u64) by (bit_vector);
    x >> 11
}

/// The key that a wind streamline's jitter is mixed from.
pub open spec fn wind_key(seed: u64, x: u64, y: u64, lane: u64) -> u64 {
    seed ^ x.wrapping_mul(0x9E37_79B9_7F4A_7C15u64) ^ y.wrapping_mul(0xD1B5_4A32_D192_ED03u64)
        ^ lane.wrapping_mul(0x94D0_49BB_1331_11EBu64)
}

/// A wind streamline's uniform draw as 53 bits.
pub fn wind_bits(seed: u64, x: u64, y: u64, lane: u64) -> (r: u64)
    ensures
        r == finished(wind_key(seed, x, y, lane)) >> 11u64,
        r < 0x20_0000_0000_0000,
{
    let key: u64 = seed ^ x.wrapping_mul(0x9E37_79B9_7F4A_7C15) ^ y.wrapping_mul(
        0xD1B5_4A32_D192_ED03,
    ) ^ lane.wrapping_mul(0x94D0_49BB_1331_11EB);
    let z: u64 = finish(key);
    assert(z >> 11u64 < 0x20_0000_0000_0000u64) by (bit_vector);
    z >> 11
}

/// The key that a torch's flicker phase is mixed from.
pub open spec fn torch_key(face: u8, ci: u64, cj: u64) -> u64 {
    ci ^ ((cj << 21u64) | (cj >> 43u64)) ^ (face as u64).wrapping_mul(0x9E37_79B9_7F4A_7C15u64)
}

/// A torch's flicker phase, as a fraction of `u64::MAX` turns.
pub fn torch_phase(face: u8, ci: u64, cj: u64) -> (r: u64)
    ensures
        r == finished(torch_key(face, ci, cj)),
{
    finish(
        ci ^ ((cj << 21) | (cj >> 43)) ^ (face as u64).wrapping_mul(0x9E37_79B9_7F4A_7C15),
    )
}

proof fn lemma_xor_shift_injective(x: u64, y: u64)
    ensures
        x ^ (x >> 30u64) == y ^ (y >> 30u64) ==> x == y,
        x ^ (x >> 27u64) == y ^ (y >> 27u64) ==> x == y,
        x ^ (x >> 31u64) == y ^ (y >> 31u64) ==> x == y,
{
    assert(x ^ (x >> 30u64) == y ^ (y >> 30u64) ==> x == y) by (bit_vector);
    assert(x ^ (x >> 27u64) == y ^ (y >> 27u64) ==> x == y) by (bit_vector);
    assert(x ^ (x >> 31u64) == y ^ (y >> 31u64) ==> x == y) by (bit_vector);
}

proof fn lemma_odd_multiply_injective(x: u64, y: u64, m: u64, inverse: u64)
    requires
        m.wrapping_mul(inverse) == 1,
        x.wrapping_mul(m) == y.wrapping_mul(m),
    ensures
        x == y,
{
    lemma_multiply_back(x, m, inverse);
    lemma_multiply_back(y, m, inverse);
}

proof fn lemma_multiply_back(x: u64, m: u64, inverse: u64)
    requires
        m.wrapping_mul(inverse) == 1,
    ensures
        x.wrapping_mul(m).wrapping_mul(inverse) == x,
{
    let n = 0x1_0000_0000_0000_0000int;
    let a = x as int;
    let b = m as int;
    let c = inverse as int;
    assert(((a * b) % n) * c % n == (a * b) * c % n) by {
        vstd::arithmetic::div_mod::lemma_mul_mod_noop_left(a * b, c, n);
    }
    assert((a * b) * c == a * (b * c)) by (nonlinear_arith);
    assert(a * (b * c) % n == a * ((b * c) % n) % n) by {
        vstd::arithmetic::div_mod::lemma_mul_mod_noop_right(a, b * c, n);
    }
    assert((b * c) % n == 1);
    assert(a * 1 % n == a) by {
        vstd::arithmetic::div_mod::lemma_small_mod(a as nat, n as nat);
    }
}

/// Mixing loses nothing: different inputs give different draws.
pub proof fn mixing_is_injective(x: u64, y: u64)
    requires
        mixed(x) == mixed(y),
    ensures
        x == y,
{
    let ax = x.wrapping_add(0x9E37_79B9_7F4A_7C15u64);
    let ay = y.wrapping_add(0x9E37_79B9_7F4A_7C15u64);
    let bx = (ax ^ (ax >> 30u64)).wrapping_mul(0xBF58_476D_1CE4_E5B9u64);
    let by = (ay ^ (ay >> 30u64)).wrapping_mul(0xBF58_476D_1CE4_E5B9u64);
    let cx = (bx ^ (bx >> 27u64)).wrapping_mul(0x94D0_49BB_1331_11EBu64);
    let cy = (by ^ (by >> 27u64)).wrapping_mul(0x94D0_49BB_1331_11EBu64);
    lemma_xor_shift_injective(cx, cy);
    lemma_odd_multiply_injective(
        bx ^ (bx >> 27u64),
        by ^ (by >> 27u64),
        0x94D0_49BB_1331_11EB,
        0x319642b2d24d8ec3,
    );
    lemma_xor_shift_injective(bx, by);
    lemma_odd_multiply_injective(
        ax ^ (ax >> 30u64),
        ay ^ (ay >> 30u64),
        0xBF58_476D_1CE4_E5B9,
        0x96de1b173f119089,
    );
    lemma_xor_shift_injective(ax, ay);
}

/// A river's key is its seed, its salt, its segment times one odd number and
/// its lane times another, laid over each other bit by bit.
pub proof fn river_keys_combine_their_parts(seed: u64, id: u32, lane: u64, salt: u64)
    ensures
        river_key(seed, 0, 0, 0) == seed,
        river_key(0, 0, 0, salt) == salt,
        river_key(0, id, 0, 0) == (id as u64).wrapping_mul(0xD6E8_FEB8_6659_FD93u64),
        river_key(0, 0, lane, 0) == lane.wrapping_mul(0xA076_1D64_78BD_642Fu64),
        river_key(seed, id, lane, salt) == river_key(seed, 0, 0, 0) ^ river_key(0, id, 0, 0) ^ river_key(
            0,
            0,
            lane,
            0,
        ) ^ river_key(0, 0, 0, salt),
{
    let a = (id as u64).wrapping_mul(0xD6E8_FEB8_6659_FD93u64);
    let b = lane.wrapping_mul(0xA076_1D64_78BD_642Fu64);
    lemma_no_multiple(0xD6E8_FEB8_6659_FD93);
    lemma_no_multiple(0xA076_1D64_78BD_642F);
    lemma_clear_bits(0);
    lemma_clear_bits(seed);
    lemma_clear_bits(salt);
    lemma_clear_bits(a);
    lemma_clear_bits(b);
}

/// A streamline's key is its seed and three odd multiples: of its column, of
/// its row and of its lane.
pub proof fn wind_keys_combine_their_parts(seed: u64, x: u64, y: u64, lane: u64)
    ensures
        wind_key(seed, 0, 0, 0) == seed,
        wind_key(0, x, 0, 0) == x.wrapping_mul(0x9E37_79B9_7F4A_7C15u64),
        wind_key(0, 0, y, 0) == y.wrapping_mul(0xD1B5_4A32_D192_ED03u64),
        wind_key(0, 0, 0, lane) == lane.wrapping_mul(0x94D0_49BB_1331_11EBu64),
        wind_key(seed, x, y, lane) == wind_key(seed, 0, 0, 0) ^ wind_key(0, x, 0, 0) ^ wind_key(
            0,
            0,
            y,
            0,
        ) ^ wind_key(0, 0, 0, lane),
{
    lemma_no_multiple(0x9E37_79B9_7F4A_7C15);
    lemma_no_multiple(0xD1B5_4A32_D192_ED03);
    lemma_no_multiple(0x94D0_49BB_1331_11EB);
    lemma_clear_bits(0);
    lemma_clear_bits(seed);
    lemma_clear_bits(x.wrapping_mul(0x9E37_79B9_7F4A_7C15u64));
    lemma_clear_bits(y.wrapping_mul(0xD1B5_4A32_D192_ED03u64));
    lemma_clear_bits(lane.wrapping_mul(0x94D0_49BB_1331_11EBu64));
}

/// A torch's key is its column, its row turned left by 21 bits, and an odd
/// multiple of its face.
pub proof fn torch_keys_combine_their_parts(face: u8, ci: u64, cj: u64)
    ensures
        torch_key(0, ci, 0) == ci,
        torch_key(0, 0, cj) == (cj % 0x800_0000_0000) * 0x20_0000 + cj / 0x800_0000_0000,
        torch_key(face, 0, 0) == (face as u64).wrapping_mul(0x9E37_79B9_7F4A_7C15u64),
        torch_key(face, ci, cj) == torch_key(0, ci, 0) ^ torch_key(0, 0, cj) ^ torch_key(face, 0, 0),
{
    let f = (face as u64).wrapping_mul(0x9E37_79B9_7F4A_7C15u64);
    let t = (cj << 21u64) | (cj >> 43u64);
    lemma_no_multiple(0x9E37_79B9_7F4A_7C15);
    lemma_clear_bits(ci);
    lemma_clear_bits(t);
    lemma_clear_bits(f);
    assert((0u64 << 21u64) | (0u64 >> 43u64) == 0u64) by (bit_vector);
    lemma_clear_bits(0);
    assert((cj << 21u64) | (cj >> 43u64) == (cj % 0x800_0000_0000u64) * 0x20_0000u64 + cj
        / 0x800_0000_0000u64) by (bit_vector);
}

proof fn lemma_no_multiple(m: u64)
    ensures
        0u64.wrapping_mul(m) == 0,
{
    assert(0 * m == 0) by (nonlinear_arith);
}

proof fn lemma_clear_bits(x: u64)
    ensures
        x ^ 0u64 == x,
        0u64 ^ x == x,
{
    assert(x ^ 0u64 == x && 0u64 ^ x == x) by (bit_vector);
}

} // verus!
