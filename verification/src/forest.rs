//! The forest curve: how densely trees stand by the strength of the forest
//! signal.

use vstd::prelude::*;
use crate::measure::{magnitude, magnitudes_grow, Measure, NEG_INFINITE};
use crate::tree::MAX_TREE_DENSITY;

verus! {

/// A stretch of the forest curve: the density rises evenly, from the first to
/// the second number of trees in ten thousand columns, while the forest signal
/// goes from the first to the second value.
#[derive(Clone, Copy, PartialEq, Eq, Structural, Debug)]
pub struct ForestSpan {
    pub from: Measure,
    pub to: Measure,
    pub sparse: u32,
    pub dense: u32,
}

/// The stretches of the forest curve, between the signals of established
/// forests. The last is level.
pub open spec fn forest_span(k: int) -> ForestSpan {
    if k <= 0 {
        ForestSpan { from: 0, to: 0x3FC3_3333_3333_3333, sparse: 0, dense: 12 }
    } else if k == 1 {
        ForestSpan { from: 0x3FC3_3333_3333_3333, to: 0x3FD3_3333_3333_3333, sparse: 12, dense: 25 }
    } else if k == 2 {
        ForestSpan { from: 0x3FD3_3333_3333_3333, to: 0x3FD9_9999_9999_999A, sparse: 25, dense: 30 }
    } else if k == 3 {
        ForestSpan { from: 0x3FD9_9999_9999_999A, to: 0x3FE0_0000_0000_0000, sparse: 30, dense: 50 }
    } else if k == 4 {
        ForestSpan { from: 0x3FE0_0000_0000_0000, to: 0x3FE3_3333_3333_3333, sparse: 50, dense: 70 }
    } else if k == 5 {
        ForestSpan { from: 0x3FE3_3333_3333_3333, to: 0x3FEB_3333_3333_3333, sparse: 70, dense: 110 }
    } else {
        ForestSpan { from: 0x3FEB_3333_3333_3333, to: 0x3FF0_0000_0000_0000, sparse: 110, dense: 110 }
    }
}

/// Which stretch a forest signal lies on: the first that ends at or above it,
/// or the last.
pub open spec fn stretch(signal: int) -> int {
    if signal < NEG_INFINITE {
        6
    } else if signal <= forest_span(0).to {
        0
    } else if signal <= forest_span(1).to {
        1
    } else if signal <= forest_span(2).to {
        2
    } else if signal <= forest_span(3).to {
        3
    } else if signal <= forest_span(4).to {
        4
    } else if signal <= forest_span(5).to {
        5
    } else {
        6
    }
}

/// How far a stretch of the curve goes, in exact values.
pub open spec fn reach(k: int) -> int {
    magnitude(forest_span(k).to as int) - magnitude(forest_span(k).from as int)
}

/// The exact density at a signal, in trees in ten thousand columns times the
/// `reach` of the signal's stretch.
pub open spec fn grown(signal: int) -> int {
    let s = forest_span(stretch(signal));
    s.sparse * reach(stretch(signal)) + (s.dense - s.sparse) * (magnitude(signal) - magnitude(
        s.from as int,
    ))
}

/// The curve is thinner at one signal than at another.
pub open spec fn thinner(a: int, b: int) -> bool {
    grown(a) * reach(stretch(b)) < grown(b) * reach(stretch(a))
}

/// The stretch that a forest signal lies on.
pub fn forest_density_span(signal: Measure) -> (r: ForestSpan)
    ensures
        r == forest_span(stretch(signal as int)),
{
    if signal < NEG_INFINITE {
        ForestSpan { from: 0x3FEB_3333_3333_3333, to: 0x3FF0_0000_0000_0000, sparse: 110, dense: 110 }
    } else if signal <= 0x3FC3_3333_3333_3333 {
        ForestSpan { from: 0, to: 0x3FC3_3333_3333_3333, sparse: 0, dense: 12 }
    } else if signal <= 0x3FD3_3333_3333_3333 {
        ForestSpan { from: 0x3FC3_3333_3333_3333, to: 0x3FD3_3333_3333_3333, sparse: 12, dense: 25 }
    } else if signal <= 0x3FD9_9999_9999_999A {
        ForestSpan { from: 0x3FD3_3333_3333_3333, to: 0x3FD9_9999_9999_999A, sparse: 25, dense: 30 }
    } else if signal <= 0x3FE0_0000_0000_0000 {
        ForestSpan { from: 0x3FD9_9999_9999_999A, to: 0x3FE0_0000_0000_0000, sparse: 30, dense: 50 }
    } else if signal <= 0x3FE3_3333_3333_3333 {
        ForestSpan { from: 0x3FE0_0000_0000_0000, to: 0x3FE3_3333_3333_3333, sparse: 50, dense: 70 }
    } else if signal <= 0x3FEB_3333_3333_3333 {
        ForestSpan { from: 0x3FE3_3333_3333_3333, to: 0x3FEB_3333_3333_3333, sparse: 70, dense: 110 }
    } else {
        ForestSpan { from: 0x3FEB_3333_3333_3333, to: 0x3FF0_0000_0000_0000, sparse: 110, dense: 110 }
    }
}

/// The forest curve has no jumps: each stretch begins where the one before
/// ends. Every stretch but the last grows denser, the last is level at the
/// densest forest.
pub proof fn the_forest_curve_is_continuous(k: int)
    requires
        0 <= k <= 6,
    ensures
        forest_span(k).from < forest_span(k).to,
        k < 6 ==> forest_span(k).sparse < forest_span(k).dense <= MAX_TREE_DENSITY,
        k == 6 ==> forest_span(k).sparse == forest_span(k).dense == MAX_TREE_DENSITY,
        k < 6 ==> forest_span(k).to == forest_span(k + 1).from && forest_span(k).dense
            == forest_span(k + 1).sparse,
{
}

/// On its stretch, a signal's density lies above the thin end and at most at
/// the thick end.
proof fn lemma_on_stretch(signal: int)
    requires
        0 < signal <= forest_span(5).to,
    ensures
        ({
            let k = stretch(signal);
            &&& reach(k) > 0
            &&& forest_span(k).sparse * reach(k) < grown(signal)
            &&& grown(signal) <= forest_span(k).dense * reach(k)
        }),
{
    let k = stretch(signal);
    let s = forest_span(k);
    magnitudes_grow(s.from as int, s.to as int);
    magnitudes_grow(s.from as int, signal);
    if signal < s.to {
        magnitudes_grow(signal, s.to as int);
    }
    let rise = s.dense - s.sparse;
    let gone = magnitude(signal) - magnitude(s.from as int);
    assert(0 < rise * gone) by (nonlinear_arith)
        requires
            rise > 0,
            gone > 0,
    ;
    assert(rise * gone <= rise * reach(k)) by (nonlinear_arith)
        requires
            rise > 0,
            gone <= reach(k),
    ;
    assert(s.sparse * reach(k) + rise * reach(k) == s.dense * reach(k)) by (nonlinear_arith)
        requires
            rise == s.dense - s.sparse,
    ;
}

/// Below the curve's level stretch, of two signals the larger has the larger
/// density.
pub proof fn stronger_signals_grow_denser(a: int, b: int)
    requires
        0 < a < b <= forest_span(5).to,
    ensures
        thinner(a, b),
{
    let (j, k) = (stretch(a), stretch(b));
    let (s, t) = (forest_span(j), forest_span(k));
    lemma_on_stretch(a);
    lemma_on_stretch(b);
    if j == k {
        magnitudes_grow(a, b);
        let rise = s.dense - s.sparse;
        let (x, y) = (magnitude(a) - magnitude(s.from as int), magnitude(b) - magnitude(s.from as int));
        assert(rise * x < rise * y) by (nonlinear_arith)
            requires
                rise > 0,
                x < y,
        ;
        assert(grown(a) * reach(k) < grown(b) * reach(k)) by (nonlinear_arith)
            requires
                grown(a) < grown(b),
                reach(k) > 0,
        ;
    } else {
        assert(s.dense <= t.sparse);
        let (p, q) = (reach(j), reach(k));
        let (m, n) = (grown(a), grown(b));
        let (d, e) = (s.dense as int, t.sparse as int);
        assert(m * q <= d * p * q) by (nonlinear_arith)
            requires
                m <= d * p,
                q > 0,
        ;
        assert(e * q * p < n * p) by (nonlinear_arith)
            requires
                e * q < n,
                p > 0,
        ;
        assert(d * p * q <= e * q * p) by (nonlinear_arith)
            requires
                d <= e,
                p > 0,
                q > 0,
        ;
    }
}

/// Wherever there is a signal the curve grows trees, and nowhere more densely
/// than the densest forest.
pub proof fn every_signal_grows_some(signal: int)
    requires
        0 < signal <= 0x3FF0_0000_0000_0000,
    ensures
        0 < grown(signal) <= MAX_TREE_DENSITY * reach(stretch(signal)),
{
    let k = stretch(signal);
    let s = forest_span(k);
    magnitudes_grow(s.from as int, s.to as int);
    if k < 6 {
        lemma_on_stretch(signal);
        assert(0 <= s.sparse * reach(k)) by (nonlinear_arith)
            requires
                reach(k) > 0,
                s.sparse >= 0,
        ;
        assert(s.dense * reach(k) <= MAX_TREE_DENSITY * reach(k)) by (nonlinear_arith)
            requires
                s.dense <= MAX_TREE_DENSITY,
                reach(k) > 0,
        ;
    } else {
        assert(grown(signal) == 110 * reach(k)) by (nonlinear_arith)
            requires
                grown(signal) == s.sparse * reach(k) + (s.dense - s.sparse) * (magnitude(signal)
                    - magnitude(s.from as int)),
                s.sparse == 110,
                s.dense == 110,
        ;
    }
}

/// The forest curve goes through its known densities: nothing at no signal,
/// twelve trees at 0.15, 25 at 0.3, 30 at 0.4, 50 at 0.5, 70 at 0.6 and 110
/// from 0.85 on. An invalid signal counts as the densest.
pub proof fn signals_lie_on_their_stretch(signal: int)
    ensures
        ({
            let s = forest_span(stretch(signal));
            let number = signal >= -0x7FF0_0000_0000_0000;
            &&& number && signal <= 0x3FC3_3333_3333_3333 ==> s.from == 0 && s.to
                == 0x3FC3_3333_3333_3333 && s.sparse == 0 && s.dense == 12
            &&& 0x3FC3_3333_3333_3333 < signal <= 0x3FD3_3333_3333_3333 ==> s.from
                == 0x3FC3_3333_3333_3333 && s.to == 0x3FD3_3333_3333_3333 && s.sparse == 12 && s.dense
                == 25
            &&& 0x3FD3_3333_3333_3333 < signal <= 0x3FD9_9999_9999_999A ==> s.from
                == 0x3FD3_3333_3333_3333 && s.to == 0x3FD9_9999_9999_999A && s.sparse == 25 && s.dense
                == 30
            &&& 0x3FD9_9999_9999_999A < signal <= 0x3FE0_0000_0000_0000 ==> s.from
                == 0x3FD9_9999_9999_999A && s.to == 0x3FE0_0000_0000_0000 && s.sparse == 30 && s.dense
                == 50
            &&& 0x3FE0_0000_0000_0000 < signal <= 0x3FE3_3333_3333_3333 ==> s.from
                == 0x3FE0_0000_0000_0000 && s.to == 0x3FE3_3333_3333_3333 && s.sparse == 50 && s.dense
                == 70
            &&& 0x3FE3_3333_3333_3333 < signal <= 0x3FEB_3333_3333_3333 ==> s.from
                == 0x3FE3_3333_3333_3333 && s.to == 0x3FEB_3333_3333_3333 && s.sparse == 70 && s.dense
                == 110
            &&& signal > 0x3FEB_3333_3333_3333 || !number ==> s.from == 0x3FEB_3333_3333_3333 && s.to
                == 0x3FF0_0000_0000_0000 && s.sparse == 110 && s.dense == 110
        }),
{
}

} // verus!
