//! Measured quantities as integers. A 64-bit binary floating-point value
//! stores a sign and a magnitude, and magnitudes are stored in order: the
//! signed magnitude therefore compares as the value does. Rules that only
//! compare, take the smaller or take the larger are stated over these
//! integers.
//!
//! A stored value that is no number has no place in the order. Its measure
//! lies beyond the infinities, and comparisons with it are false: rules that
//! may meet one compare with `below` and `at_most`.

use vstd::prelude::*;
use vstd::arithmetic::power2::{lemma2_to64, lemma_pow2_adds, lemma_pow2_pos, pow2};

verus! {

/// The signed magnitude of a stored value.
pub type Measure = i64;

/// Positive infinity.
pub const INFINITE: Measure = 0x7FF0_0000_0000_0000;

/// Negative infinity.
pub const NEG_INFINITE: Measure = -0x7FF0_0000_0000_0000;

/// The sign bit alone, as a number.
pub const SIGN: u64 = 0x8000_0000_0000_0000;

/// The signed magnitude of stored bits. Both zeros give zero.
pub open spec fn signed(bits: u64) -> int {
    if bits < SIGN {
        bits as int
    } else {
        SIGN - bits
    }
}

/// The measure of a stored value.
pub fn measure(bits: u64) -> (m: Measure)
    ensures
        m == signed(bits),
{
    if bits < SIGN {
        bits as i64
    } else {
        -((bits - SIGN) as i64)
    }
}

/// The stored value of a measure.
pub fn stored(m: Measure) -> (bits: u64)
    requires
        m > i64::MIN,
    ensures
        signed(bits) == m,
        m != 0 ==> bits == (if m > 0 {
            m as int
        } else {
            SIGN - m
        }),
        m == 0 ==> bits == 0,
{
    if m >= 0 {
        m as u64
    } else {
        SIGN + (-m) as u64
    }
}

/// The measure of a number, the infinities among them.
pub open spec fn number(m: Measure) -> bool {
    NEG_INFINITE <= m <= INFINITE
}

/// Both are numbers, and the first is less.
pub open spec fn below(a: Measure, b: Measure) -> bool {
    number(a) && number(b) && a < b
}

/// Both are numbers, and the first is not greater.
pub open spec fn at_most(a: Measure, b: Measure) -> bool {
    number(a) && number(b) && a <= b
}

/// The measure of a number, the infinities among them.
pub fn is_number(m: Measure) -> (r: bool)
    ensures
        r == number(m),
{
    NEG_INFINITE <= m && m <= INFINITE
}

/// Both are numbers, and the first is less.
pub fn is_below(a: Measure, b: Measure) -> (r: bool)
    ensures
        r == below(a, b),
{
    is_number(a) && is_number(b) && a < b
}

/// Both are numbers, and the first is not greater.
pub fn is_at_most(a: Measure, b: Measure) -> (r: bool)
    ensures
        r == at_most(a, b),
{
    is_number(a) && is_number(b) && a <= b
}

/// The lesser of two; a number where there is one.
pub open spec fn lesser(a: Measure, b: Measure) -> Measure {
    if number(b) && (b < a || !number(a)) {
        b
    } else {
        a
    }
}

/// The greater of two; a number where there is one.
pub open spec fn greater(a: Measure, b: Measure) -> Measure {
    if number(b) && (b > a || !number(a)) {
        b
    } else {
        a
    }
}

pub fn least(a: Measure, b: Measure) -> (r: Measure)
    ensures
        r == lesser(a, b),
{
    if is_number(b) && (b < a || !is_number(a)) {
        b
    } else {
        a
    }
}

pub fn most(a: Measure, b: Measure) -> (r: Measure)
    ensures
        r == greater(a, b),
{
    if is_number(b) && (b > a || !is_number(a)) {
        b
    } else {
        a
    }
}

/// Entry `i` is the first one present.
pub open spec fn first_present(keys: Seq<Option<Measure>>, i: int) -> bool {
    &&& 0 <= i < keys.len()
    &&& keys[i] is Some
    &&& forall|j: int| 0 <= j < i ==> (#[trigger] keys[j]) is None
}

/// Entry `i` is the smallest number present, and the first of its size. Where
/// the first entry present is no number, nothing is less than it, and it is
/// that one.
pub open spec fn first_least(keys: Seq<Option<Measure>>, i: int) -> bool {
    &&& 0 <= i < keys.len()
    &&& keys[i] is Some
    &&& number(keys[i]->0) || first_present(keys, i)
    &&& forall|j: int| #[trigger] first_present(keys, j) && !number(keys[j]->0) ==> i == j
    &&& forall|j: int|
        0 <= j < i && (#[trigger] keys[j]) is Some && number(keys[j]->0) ==> keys[j]->0 > keys[i]->0
    &&& number(keys[i]->0) ==> forall|j: int|
        i <= j < keys.len() && (#[trigger] keys[j]) is Some && number(keys[j]->0) ==> keys[j]->0
            >= keys[i]->0
}

/// The smallest entry present, earliest on a tie: an entry replaces the one
/// held only where it is less.
pub fn nearest(keys: &Vec<Option<Measure>>) -> (r: Option<usize>)
    ensures
        r is None <==> forall|j: int| 0 <= j < keys@.len() ==> (#[trigger] keys@[j]) is None,
        r matches Some(i) ==> first_least(keys@, i as int),
{
    let mut best: Option<usize> = None;
    let mut i: usize = 0;
    while i < keys.len()
        invariant
            i <= keys@.len(),
            best is None ==> forall|j: int| 0 <= j < i ==> (#[trigger] keys@[j]) is None,
            best matches Some(b) ==> b < i && first_least(keys@.take(i as int), b as int),
        decreases keys@.len() - i,
    {
        let ghost held = best;
        if let Some(d) = keys[i] {
            let wins: bool = match best {
                None => true,
                Some(b) => match keys[b] {
                    None => true,
                    Some(have) => is_below(d, have),
                },
            };
            if wins {
                best = Some(i);
            }
        }
        proof {
            if best is Some {
                lemma_held(keys@, i as int, held, best->0 as int);
            }
        }
        i += 1;
    }
    proof {
        assert(keys@.take(keys@.len() as int) =~= keys@);
    }
    best
}

/// One more entry keeps what is held the first least.
proof fn lemma_held(keys: Seq<Option<Measure>>, n: int, held: Option<usize>, b: int)
    requires
        0 <= n < keys.len(),
        0 <= b <= n,
        held is None ==> forall|j: int| 0 <= j < n ==> (#[trigger] keys[j]) is None,
        held matches Some(h) ==> h < n && first_least(keys.take(n), h as int),
        held is None ==> b == n && keys[n] is Some,
        held matches Some(h) ==> b == (if keys[n] is Some && below(keys[n]->0, keys[h as int]->0) {
            n
        } else {
            h as int
        }),
    ensures
        first_least(keys.take(n + 1), b),
{
    let (s, t) = (keys.take(n), keys.take(n + 1));
    assert forall|j: int| 0 <= j < n implies s[j] == t[j] && t[j] == #[trigger] keys[j] by {}
    assert(t[n] == keys[n]);
    if let Some(h) = held {
        let h = h as int;
        assert(s[h] == t[h]);
        assert forall|j: int| #[trigger] first_present(t, j) && !number(t[j]->0) implies b == j by {
            if j == n {
                assert(t[h] is None);
            } else {
                assert forall|k: int| 0 <= k < j implies (#[trigger] s[k]) is None by {
                    assert(t[k] is None);
                }
                assert(first_present(s, j));
            }
        }
        if number(t[b]->0) && !number(s[h]->0) {
            assert(b == n);
        }
        if !number(t[b]->0) {
            assert(b == h && first_present(s, h));
            assert forall|k: int| 0 <= k < b implies (#[trigger] t[k]) is None by {
                assert(s[k] is None);
            }
        }
        assert forall|j: int|
            0 <= j < b && (#[trigger] t[j]) is Some && number(t[j]->0) implies t[j]->0 > t[b]->0 by {
            assert(s[j] == t[j]);
        }
        if number(t[b]->0) {
            assert forall|j: int|
                b <= j < t.len() && (#[trigger] t[j]) is Some && number(t[j]->0) implies t[j]->0
                >= t[b]->0 by {
                if j < n {
                    assert(s[j] == t[j]);
                }
            }
        }
    } else {
        assert forall|j: int| 0 <= j < n implies (#[trigger] t[j]) is None by {
            assert(keys[j] is None);
        }
        assert(first_present(t, n));
    }
}

/// The smallest of a start and the entries present.
pub open spec fn least_with(keys: Seq<Option<Measure>>, start: Measure) -> Measure
    decreases keys.len(),
{
    if keys.len() == 0 {
        start
    } else {
        match keys.last() {
            None => least_with(keys.drop_last(), start),
            Some(k) => lesser(least_with(keys.drop_last(), start), k),
        }
    }
}

/// The smallest of a start and the entries present.
pub fn least_of(keys: &Vec<Option<Measure>>, start: Measure) -> (r: Measure)
    ensures
        r == least_with(keys@, start),
{
    let mut r: Measure = start;
    let mut i: usize = 0;
    while i < keys.len()
        invariant
            i <= keys@.len(),
            r == least_with(keys@.take(i as int), start),
        decreases keys@.len() - i,
    {
        proof {
            assert(keys@.take(i + 1).drop_last() =~= keys@.take(i as int));
        }
        if let Some(k) = keys[i] {
            r = least(r, k);
        }
        i += 1;
    }
    proof {
        assert(keys@.take(keys@.len() as int) =~= keys@);
    }
    r
}

/// The smallest value bounds the start and every number present, and is one.
pub proof fn least_is_a_bound(keys: Seq<Option<Measure>>, start: Measure)
    requires
        number(start),
    ensures
        number(least_with(keys, start)),
        least_with(keys, start) <= start,
        forall|i: int|
            0 <= i < keys.len() && (#[trigger] keys[i]) is Some && number(keys[i]->0) ==> least_with(
                keys,
                start,
            ) <= keys[i]->0,
    decreases keys.len(),
{
    if keys.len() > 0 {
        let head = keys.drop_last();
        least_is_a_bound(head, start);
        assert forall|i: int|
            0 <= i < keys.len() && (#[trigger] keys[i]) is Some && number(keys[i]->0) implies least_with(
            keys,
            start,
        ) <= keys[i]->0 by {
            if i < keys.len() - 1 {
                assert(head[i] == keys[i]);
            }
        }
    }
}

/// The smallest value is the start or an entry.
pub proof fn least_is_attained(keys: Seq<Option<Measure>>, start: Measure)
    ensures
        least_with(keys, start) == start || exists|i: int|
            0 <= i < keys.len() && (#[trigger] keys[i]) == Some(least_with(keys, start)),
    decreases keys.len(),
{
    if keys.len() > 0 {
        let head = keys.drop_last();
        least_is_attained(head, start);
        let r = least_with(keys, start);
        if r != start {
            if r == least_with(head, start) {
                let i = choose|i: int| 0 <= i < head.len() && (#[trigger] head[i]) == Some(r);
                assert(keys[i] == Some(r));
            } else {
                assert(keys[keys.len() - 1] == Some(r));
            }
        }
    }
}

/// Measures of numbers compare as the numbers do: by sign first, then by
/// magnitude, the larger magnitude being the smaller value below zero.
pub proof fn measures_compare_as_values(a: u64, b: u64)
    ensures
        a < SIGN && b < SIGN ==> (signed(a) < signed(b) <==> a < b),
        a > SIGN && b < SIGN ==> signed(a) < signed(b),
        a >= SIGN && b >= SIGN ==> (signed(a) < signed(b) <==> a > b),
        signed(0) == signed(SIGN),
{
}

/// At most one entry is the first of the smallest.
pub proof fn first_least_is_unique(keys: Seq<Option<Measure>>, i: int, j: int)
    requires
        first_least(keys, i),
        first_least(keys, j),
    ensures
        i == j,
{
    assert(keys[i] is Some && keys[j] is Some);
}

/// The exact value of a measure that is not negative, in units of the smallest
/// positive value.
pub open spec fn magnitude(m: int) -> int {
    let scale = m / 0x10_0000_0000_0000;
    let part = m % 0x10_0000_0000_0000;
    if scale == 0 {
        part
    } else {
        (0x10_0000_0000_0000 + part) * pow2((scale - 1) as nat)
    }
}

/// Greater measures have greater values.
pub proof fn magnitudes_grow(a: int, b: int)
    requires
        0 <= a < b,
    ensures
        magnitude(a) < magnitude(b),
    decreases b - a,
{
    let c = b - 1;
    if a < c {
        magnitudes_grow(a, c);
    }
    let scale = c / 0x10_0000_0000_0000;
    let part = c % 0x10_0000_0000_0000;
    lemma2_to64();
    if part + 1 < 0x10_0000_0000_0000 {
        assert(b / 0x10_0000_0000_0000 == scale && b % 0x10_0000_0000_0000 == part + 1);
        if scale > 0 {
            let u = pow2((scale - 1) as nat) as int;
            lemma_pow2_pos((scale - 1) as nat);
            assert((0x10_0000_0000_0000 + (part + 1)) * u == (0x10_0000_0000_0000 + part) * u + u)
                by (nonlinear_arith);
        }
    } else {
        assert(b / 0x10_0000_0000_0000 == scale + 1 && b % 0x10_0000_0000_0000 == 0);
        if scale > 0 {
            let u = pow2((scale - 1) as nat) as int;
            lemma_pow2_pos((scale - 1) as nat);
            lemma_pow2_adds(1, (scale - 1) as nat);
            assert(1 + (scale - 1) as nat == (scale + 1 - 1) as nat);
            assert(0x10_0000_0000_0000 * (2 * u) == (0x10_0000_0000_0000 + 0xF_FFFF_FFFF_FFFF) * u + u)
                by (nonlinear_arith);
        }
    }
}

/// Comparisons hold of numbers only, and the infinities are the outermost of
/// them: stored values beyond infinity compare with nothing.
pub proof fn only_numbers_compare(a: Measure, b: Measure)
    ensures
        below(a, b) ==> a < b && !at_most(b, a),
        at_most(a, b) ==> a <= b,
        a > 0x7FF0_0000_0000_0000 || a < -0x7FF0_0000_0000_0000 ==> !below(a, b) && !below(b, a)
            && !at_most(a, b) && !at_most(b, a),
        -0x7FF0_0000_0000_0000 <= a < b <= 0x7FF0_0000_0000_0000 ==> below(a, b),
        -0x7FF0_0000_0000_0000 <= a <= b <= 0x7FF0_0000_0000_0000 ==> at_most(a, b),
        number(a) && number(b) ==> below(a, b) || at_most(b, a),
{
}

/// The lesser and the greater of two are one of the two; of two numbers they
/// bound both, and of a number and something else they are the number.
pub proof fn lesser_and_greater_choose(a: Measure, b: Measure)
    ensures
        lesser(a, b) == a || lesser(a, b) == b,
        greater(a, b) == a || greater(a, b) == b,
        number(a) && number(b) ==> lesser(a, b) <= a && lesser(a, b) <= b && greater(a, b) >= a && greater(
            a,
            b,
        ) >= b,
        number(a) && !number(b) ==> lesser(a, b) == a && greater(a, b) == a,
        !number(a) && number(b) ==> lesser(a, b) == b && greater(a, b) == b,
{
}

/// A measure keeps the stored value: values below the sign bit are their own
/// measure, the others are as far below zero as they lie above it.
pub proof fn measures_keep_their_values(bits: u64)
    ensures
        bits < 0x8000_0000_0000_0000 ==> signed(bits) == bits,
        bits >= 0x8000_0000_0000_0000 ==> signed(bits) + bits == 0x8000_0000_0000_0000,
{
}

/// The first least entry is present, and no number present is less, nor
/// equal and earlier, where it is a number itself.
pub proof fn first_least_is_least(keys: Seq<Option<Measure>>, i: int, j: int)
    requires
        first_least(keys, i),
        0 <= j < keys.len(),
        keys[j] is Some,
        number(keys[i]->0),
        number(keys[j]->0),
    ensures
        keys[i] is Some,
        keys[i]->0 <= keys[j]->0,
        j < i ==> keys[i]->0 < keys[j]->0,
{
}

} // verus!
