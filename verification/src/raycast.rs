//! Looking at a block: the first place along the look where the ray dips
//! below the walkable surface.

use vstd::prelude::*;
use crate::edits::ColumnKey;

verus! {

/// A step along the look: the column there, and whether the ray is at or below
/// its walkable surface.
#[derive(Clone, Copy)]
pub struct RayStep {
    pub column: ColumnKey,
    pub below: bool,
}

/// What the look meets: the column hit, and the last one before it in the air,
/// where a placed block belongs.
#[derive(Clone, Copy)]
pub struct RayHit {
    pub hit: ColumnKey,
    pub air: ColumnKey,
}

/// Step `i` is the first below the surface.
pub open spec fn strikes(steps: Seq<RayStep>, i: int) -> bool {
    &&& 0 <= i < steps.len()
    &&& steps[i].below
    &&& forall|k: int| 0 <= k < i ==> !(#[trigger] steps[k]).below
}

/// The column just before step `i`.
pub open spec fn before(start: ColumnKey, steps: Seq<RayStep>, i: int) -> ColumnKey {
    if i == 0 {
        start
    } else {
        steps[i - 1].column
    }
}

/// The first column that the look meets, and the one before it. Nothing where
/// the look stays in the air.
pub fn raycast_column(start: ColumnKey, steps: &Vec<RayStep>) -> (r: Option<RayHit>)
    ensures
        r is None <==> forall|i: int| 0 <= i < steps@.len() ==> !(#[trigger] steps@[i]).below,
        r matches Some(found) ==> exists|i: int| #[trigger]
            strikes(steps@, i) && found.hit == steps@[i].column && found.air == before(
                start,
                steps@,
                i,
            ),
{
    let mut air: ColumnKey = start;
    let mut i: usize = 0;
    while i < steps.len()
        invariant
            i <= steps@.len(),
            forall|k: int| 0 <= k < i ==> !(#[trigger] steps@[k]).below,
            air == before(start, steps@, i as int),
        decreases steps@.len() - i,
    {
        let step = steps[i];
        if step.below {
            assert(strikes(steps@, i as int));
            return Some(RayHit { hit: step.column, air });
        }
        air = step.column;
        i += 1;
    }
    None
}

/// A look strikes at one step only.
pub proof fn looks_strike_once(steps: Seq<RayStep>, i: int, j: int)
    requires
        strikes(steps, i),
        strikes(steps, j),
    ensures
        i == j,
{
}

/// A look strikes at the first step below the surface, wherever there is one,
/// and a block is placed in the air just before it.
pub proof fn looks_strike_the_first_surface(start: ColumnKey, steps: Seq<RayStep>, i: int, k: int)
    requires
        0 <= k < steps.len(),
        steps[k].below,
    ensures
        strikes(steps, i) ==> i <= k && steps[i].below,
        strikes(steps, i) && i > 0 ==> before(start, steps, i) == steps[i - 1].column && !steps[i
            - 1].below,
        strikes(steps, i) && i == 0 ==> before(start, steps, i) == start,
        exists|s: int| #[trigger] strikes(steps, s),
{
    lemma_strike(steps, k);
}

proof fn lemma_strike(steps: Seq<RayStep>, k: int)
    requires
        0 <= k < steps.len(),
        steps[k].below,
    ensures
        exists|s: int| #[trigger] strikes(steps, s),
    decreases k,
{
    if exists|j: int| 0 <= j < k && (#[trigger] steps[j]).below {
        let j = choose|j: int| 0 <= j < k && (#[trigger] steps[j]).below;
        lemma_strike(steps, j);
    } else {
        assert(strikes(steps, k));
    }
}

} // verus!
