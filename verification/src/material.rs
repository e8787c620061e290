//! Block materials: what a column wears on top and what lies below it.

use vstd::prelude::*;
use crate::body::{MainBlock, MoonMaterial};
use crate::column::{ColCtx, BLOCK_LIMIT, DRY};

verus! {

/// A block material.
#[derive(Clone, Copy, PartialEq, Eq, Structural, Debug)]
pub enum Mat {
    Grass,
    Dirt,
    Sand,
    Gravel,
    Stone,
    Rock,
    Snow,
    Ice,
    Water,
    Log,
    LeavesBroad,
    LeavesConifer,
    LeavesJungle,
    LeavesAcacia,
    Shrub,
    RegolithHighland,
    RegolithMaria,
    RegolithRay,
    RegolithSubsurface,
    LunarRock,
}

/// The climate's block as a material.
pub open spec fn climate_mat(block: MainBlock) -> Mat {
    match block {
        MainBlock::Grass => Mat::Grass,
        MainBlock::Sand => Mat::Sand,
        MainBlock::Snow => Mat::Snow,
    }
}

/// Surface material: water floors first, then lake sand, snow, bare rock by
/// slope, beach sand, and last the climate's own block.
pub open spec fn surface(c: ColCtx, steep: int, climate: MainBlock) -> Mat {
    if c.water != DRY && c.ground < c.water {
        if c.water - c.ground > 4 {
            Mat::Gravel
        } else {
            Mat::Sand
        }
    } else if c.lake_shoal || c.lake_shore {
        Mat::Sand
    } else if climate == MainBlock::Snow {
        Mat::Snow
    } else if steep >= 5 {
        Mat::Rock
    } else if steep >= 3 {
        Mat::Stone
    } else if c.beach {
        Mat::Sand
    } else {
        climate_mat(climate)
    }
}

/// Surface material given local steepness, the largest natural height
/// difference to a neighbour.
pub fn surface_mat(c: &ColCtx, steep: i64, climate_block: MainBlock) -> (r: Mat)
    requires
        c.wf(),
    ensures
        r == surface(*c, steep as int, climate_block),
{
    if c.water != DRY && c.ground < c.water {
        return if c.water - c.ground > 4 {
            Mat::Gravel
        } else {
            Mat::Sand
        };
    }
    if c.lake_shoal {
        return Mat::Sand;
    }
    if c.lake_shore {
        return Mat::Sand;
    }
    if climate_block == MainBlock::Snow {
        return Mat::Snow;
    }
    if steep >= 5 {
        return Mat::Rock;
    }
    if steep >= 3 {
        return Mat::Stone;
    }
    if c.beach {
        return Mat::Sand;
    }
    match climate_block {
        MainBlock::Sand => Mat::Sand,
        MainBlock::Grass => Mat::Grass,
        MainBlock::Snow => Mat::Snow,
    }
}

/// The climate block a material stands for, or `fallback` where it is none.
pub open spec fn main_block(mat: Mat, fallback: MainBlock) -> MainBlock {
    match mat {
        Mat::Grass => MainBlock::Grass,
        Mat::Sand => MainBlock::Sand,
        Mat::Snow => MainBlock::Snow,
        _ => fallback,
    }
}

pub fn mat_main_block(mat: Mat, fallback: MainBlock) -> (r: MainBlock)
    ensures
        r == main_block(mat, fallback),
{
    match mat {
        Mat::Grass => MainBlock::Grass,
        Mat::Sand => MainBlock::Sand,
        Mat::Snow => MainBlock::Snow,
        _ => fallback,
    }
}

/// The material directly below a surface material.
pub open spec fn substrate(surface: Mat) -> Mat {
    match surface {
        Mat::Sand | Mat::Gravel | Mat::Rock | Mat::Stone | Mat::LunarRock => surface,
        Mat::RegolithHighland | Mat::RegolithMaria | Mat::RegolithRay
        | Mat::RegolithSubsurface => Mat::RegolithSubsurface,
        _ => Mat::Dirt,
    }
}

pub fn sub_mat(surface: Mat) -> (r: Mat)
    ensures
        r == substrate(surface),
{
    match surface {
        Mat::Sand => Mat::Sand,
        Mat::Snow => Mat::Dirt,
        Mat::Gravel => Mat::Gravel,
        Mat::Rock => Mat::Rock,
        Mat::Stone => Mat::Stone,
        Mat::RegolithHighland | Mat::RegolithMaria | Mat::RegolithRay => Mat::RegolithSubsurface,
        Mat::RegolithSubsurface => Mat::RegolithSubsurface,
        Mat::LunarRock => Mat::LunarRock,
        _ => Mat::Dirt,
    }
}

/// Material of solid block `z`. Strata measure from the natural ground; blocks
/// a player built above it are surface on top and substrate in the body.
pub open spec fn stratum(c: ColCtx, z: int, surface: Mat) -> Mat {
    let d = c.ground0 - z;
    if d < 0 {
        if z >= c.ground {
            surface
        } else {
            substrate(surface)
        }
    } else if d == 0 {
        surface
    } else if c.lunar is Some {
        if d <= 4 {
            Mat::RegolithSubsurface
        } else {
            Mat::LunarRock
        }
    } else if d <= 3 {
        substrate(surface)
    } else {
        Mat::Stone
    }
}

/// Material of solid block `z` in a column that wears `surface`.
pub fn mat_at(c: &ColCtx, z: i64, surface: Mat) -> (r: Mat)
    requires
        c.wf(),
        -2 * BLOCK_LIMIT <= z,
    ensures
        r == stratum(*c, z as int, surface),
{
    if z > c.ground0 {
        return if z >= c.ground {
            surface
        } else {
            sub_mat(surface)
        };
    }
    let d: i64 = c.ground0 - z;
    if c.lunar.is_some() {
        if d <= 0 {
            surface
        } else if d <= 4 {
            Mat::RegolithSubsurface
        } else {
            Mat::LunarRock
        }
    } else if d <= 0 {
        surface
    } else if d <= 3 {
        sub_mat(surface)
    } else {
        Mat::Stone
    }
}

pub open spec fn lunar_surface(material: MoonMaterial) -> Mat {
    match material {
        MoonMaterial::Highland => Mat::RegolithHighland,
        MoonMaterial::Maria => Mat::RegolithMaria,
        MoonMaterial::Ray => Mat::RegolithRay,
    }
}

pub fn lunar_surface_mat(material: MoonMaterial) -> (r: Mat)
    ensures
        r == lunar_surface(material),
{
    match material {
        MoonMaterial::Highland => Mat::RegolithHighland,
        MoonMaterial::Maria => Mat::RegolithMaria,
        MoonMaterial::Ray => Mat::RegolithRay,
    }
}

/// Digging does not grow grass underground: the material of a natural block
/// depends on its depth below the natural surface alone, whatever was dug or
/// built above it.
pub proof fn strata_ignore_edits(a: ColCtx, b: ColCtx, z: int, surface: Mat)
    requires
        a.ground0 == b.ground0,
        a.lunar == b.lunar,
        z <= a.ground0,
    ensures
        stratum(a, z, surface) == stratum(b, z, surface),
{
}

/// A tower keeps the material it was built on: its body is the substrate of
/// the surface it wears, capped by that surface, never stone at depth.
pub proof fn towers_are_capped_substrate(c: ColCtx, z: int, surface: Mat)
    requires
        c.ground0 < z <= c.ground,
    ensures
        stratum(c, c.ground as int, surface) == surface,
        z < c.ground ==> stratum(c, z, surface) == substrate(surface),
{
}

/// What a column wears. The floor under open water is sand, or gravel under
/// more than four blocks of it. Dry shoals and lake shores are sand. Snow lies
/// on any slope; elsewhere slopes of five blocks show rock, of three or four
/// stone, and gentler ground shows a beach's sand or the climate's own block.
pub proof fn surfaces_follow_water_slope_and_climate(c: ColCtx, steep: int, climate: MainBlock)
    ensures
        ({
            let covered = c.water != i64::MIN && c.water > c.ground;
            let shore = c.lake_shoal || c.lake_shore;
            let worn = surface(c, steep, climate);
            &&& covered && c.water - c.ground <= 4 ==> worn == Mat::Sand
            &&& covered && c.water - c.ground >= 5 ==> worn == Mat::Gravel
            &&& !covered && shore ==> worn == Mat::Sand
            &&& !covered && !shore && climate == MainBlock::Snow ==> worn == Mat::Snow
            &&& !covered && !shore && climate != MainBlock::Snow ==> {
                &&& steep >= 5 ==> worn == Mat::Rock
                &&& steep == 3 || steep == 4 ==> worn == Mat::Stone
                &&& steep < 3 && c.beach ==> worn == Mat::Sand
                &&& steep < 3 && !c.beach && climate == MainBlock::Grass ==> worn == Mat::Grass
                &&& steep < 3 && !c.beach && climate == MainBlock::Sand ==> worn == Mat::Sand
            }
        }),
{
}

/// What lies below: under the natural surface three blocks of its substrate,
/// then stone; on the moon four blocks of regolith, then lunar rock.
pub proof fn strata_lie_in_order(c: ColCtx, z: int, worn: Mat)
    ensures
        z == c.ground0 ==> stratum(c, z, worn) == worn,
        c.lunar is None && c.ground0 - 3 <= z < c.ground0 ==> stratum(c, z, worn) == substrate(worn),
        c.lunar is None && z < c.ground0 - 3 ==> stratum(c, z, worn) == Mat::Stone,
        c.lunar is Some && c.ground0 - 4 <= z < c.ground0 ==> stratum(c, z, worn)
            == Mat::RegolithSubsurface,
        c.lunar is Some && z < c.ground0 - 4 ==> stratum(c, z, worn) == Mat::LunarRock,
        c.ground0 < z < c.ground ==> stratum(c, z, worn) == substrate(worn),
        z > c.ground0 && z >= c.ground ==> stratum(c, z, worn) == worn,
{
}

/// Substrates: sand, gravel, rock, stone and lunar rock lie on themselves,
/// regolith on its own subsurface, and everything that grows or falls on dirt.
pub proof fn substrates_carry_their_surface(worn: Mat)
    ensures
        worn == Mat::Sand || worn == Mat::Gravel || worn == Mat::Rock || worn == Mat::Stone || worn
            == Mat::LunarRock ==> substrate(worn) == worn,
        worn == Mat::RegolithHighland || worn == Mat::RegolithMaria || worn == Mat::RegolithRay
            ==> substrate(worn) == Mat::RegolithSubsurface,
        worn == Mat::Grass || worn == Mat::Snow || worn == Mat::Dirt ==> substrate(worn) == Mat::Dirt,
        substrate(substrate(worn)) == substrate(worn),
{
}

/// Lunar families wear their own regolith, and the climate's blocks their own
/// material, which stands for the same block again.
pub proof fn families_wear_their_own(fallback: MainBlock)
    ensures
        lunar_surface(MoonMaterial::Highland) == Mat::RegolithHighland,
        lunar_surface(MoonMaterial::Maria) == Mat::RegolithMaria,
        lunar_surface(MoonMaterial::Ray) == Mat::RegolithRay,
        forall|b: MainBlock| main_block(#[trigger] climate_mat(b), fallback) == b,
        climate_mat(MainBlock::Grass) == Mat::Grass && climate_mat(MainBlock::Sand) == Mat::Sand,
        forall|m: Mat|
            m != Mat::Grass && m != Mat::Sand && m != Mat::Snow ==> #[trigger] main_block(m, fallback)
                == fallback,
{
}

} // verus!
