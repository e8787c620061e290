//! Physical bodies and their column lattices.

use std::sync::Arc;
use vstd::prelude::*;

verus! {

/// Columns along one edge of a cube face on Neisor.
pub const COLUMNS_PER_FACE: u64 = 10_000_000;

/// Columns along one edge of a cube face on the moon, whose radius is exactly
/// 27/100 of Neisor's.
pub const LUNAR_COLUMNS_PER_FACE: u64 = 2_700_000;

/// Columns along one edge of a chunk.
pub const CHUNK: u64 = 32;

/// A physical body of the solar system.
#[derive(Clone, Copy, PartialEq, Eq, Structural, Hash, Debug)]
pub enum BodyId {
    Sun,
    Neisor,
    Moon,
}

/// The climate's choice of surface block.
#[derive(Clone, Copy, PartialEq, Eq, Structural, Debug)]
pub enum MainBlock {
    Grass,
    Sand,
    Snow,
}

/// The family of a lunar surface block.
#[derive(Clone, Copy, PartialEq, Eq, Structural, Debug)]
pub enum MoonMaterial {
    Highland,
    Maria,
    Ray,
}

/// The season that structural decisions (freezing, snow) are made for:
/// disabled means annual averages, otherwise `bucket` numbers the quantized
/// part of the year.
#[derive(Clone, Copy, PartialEq, Eq, Structural, Debug)]
pub struct StructuralSeason {
    pub enabled: bool,
    pub bucket: u32,
}

/// The bucket of the annual averages, outside every part of the year.
pub const ANNUAL_BUCKET: u32 = u32::MAX;

impl StructuralSeason {
    /// The annual averages.
    pub open spec fn spec_annual() -> Self {
        StructuralSeason { enabled: false, bucket: ANNUAL_BUCKET }
    }

    /// The annual averages.
    pub fn annual() -> (s: Self)
        ensures
            s == Self::spec_annual(),
    {
        StructuralSeason { enabled: false, bucket: ANNUAL_BUCKET }
    }
}

/// Immutable Neisor snapshot for one structural season: meshing and physics
/// receive the same value, so both see the same ice.
pub struct SeasonalPlanet<P> {
    pub planet: Arc<P>,
    pub season: StructuralSeason,
}

impl<P> SeasonalPlanet<P> {
    pub fn new(planet: Arc<P>, season: StructuralSeason) -> (r: Self)
        ensures
            r.planet == planet,
            r.season == season,
    {
        Self { planet, season }
    }
}

pub open spec fn spec_columns_per_face(body: BodyId) -> u64 {
    if body == BodyId::Moon {
        LUNAR_COLUMNS_PER_FACE
    } else {
        COLUMNS_PER_FACE
    }
}

/// The column lattice of a body.
pub fn columns_per_face_for_body(body: BodyId) -> (n: u64)
    ensures
        n == spec_columns_per_face(body),
{
    match body {
        BodyId::Moon => LUNAR_COLUMNS_PER_FACE,
        BodyId::Sun | BodyId::Neisor => COLUMNS_PER_FACE,
    }
}

/// The moon's lattice is exactly 27/100 of Neisor's, and both lattices are
/// whole numbers of chunks.
pub proof fn lattices_divide_into_chunks(body: BodyId)
    ensures
        LUNAR_COLUMNS_PER_FACE * 100 == COLUMNS_PER_FACE * 27,
        spec_columns_per_face(body) % CHUNK == 0,
{
}

/// A face of the moon is 2.7 million columns wide, of every other body ten
/// million; a chunk is 32 wide.
pub proof fn bodies_have_their_lattice(body: BodyId)
    ensures
        body == BodyId::Moon ==> spec_columns_per_face(body) == 2_700_000,
        body != BodyId::Moon ==> spec_columns_per_face(body) == 10_000_000,
        CHUNK == 32,
{
}

/// The annual averages are no part of any year.
pub proof fn annual_averages_have_no_season()
    ensures
        !StructuralSeason::spec_annual().enabled,
        StructuralSeason::spec_annual().bucket == u32::MAX,
{
}

} // verus!
