//! Which landscape feature a land tile gets from its distance to the ocean
//! and the plateau field.
//!
//! Ocean tiles and tiles that belong to a faction keep their feature. Any
//! other tile more than five steps from the ocean becomes a mountain where
//! the plateau field is above its mountain threshold; else, more than four
//! steps away, a plateau where the field is above its plateau threshold;
//! else, more than three steps away, a lake where the field is below its lake
//! threshold. Otherwise the tile keeps its feature.
use vstd::prelude::*;

use crate::cliffs::{distance_of, CliffTile, LandscapeFeature, OceanState};

verus! {

/// Where the plateau field stands at a tile against the three thresholds of
/// the landscape rule.
#[derive(Debug, Clone, Copy, PartialEq, Eq, Structural)]
pub struct PlateauReading {
    /// The field is above the mountain threshold.
    pub above_mountain: bool,
    /// The field is above the plateau threshold.
    pub above_plateau: bool,
    /// The field is below the lake threshold.
    pub below_lake: bool,
}

/// The feature of `tile` after the landscape rule, at `distance` steps from
/// the ocean.
pub open spec fn feature_after(tile: CliffTile, distance: int, reading: PlateauReading) -> LandscapeFeature {
    if tile.ocean_state == OceanState::Ocean || tile.claimed {
        tile.landscape_feature
    } else if distance > 5 && reading.above_mountain {
        LandscapeFeature::Mountain
    } else if distance > 4 && reading.above_plateau {
        LandscapeFeature::Plateau
    } else if distance > 3 && reading.below_lake {
        LandscapeFeature::Lake
    } else {
        tile.landscape_feature
    }
}

/// The feature that the landscape rule gives one tile.
pub fn landscape_feature_for(tile: CliffTile, distance: Option<u32>, reading: PlateauReading) -> (feature:
    LandscapeFeature)
    ensures
        feature == feature_after(tile, distance_of(seq![distance], 0), reading),
{
    let d: u32 = match distance {
        Some(d) => d,
        None => 0,
    };
    if tile.ocean_state == OceanState::Ocean || tile.claimed {
        tile.landscape_feature
    } else if d > 5 && reading.above_mountain {
        LandscapeFeature::Mountain
    } else if d > 4 && reading.above_plateau {
        LandscapeFeature::Plateau
    } else if d > 3 && reading.below_lake {
        LandscapeFeature::Lake
    } else {
        tile.landscape_feature
    }
}

/// Applies the landscape rule to every tile; `distances[t]` and
/// `readings[t]` describe the `t`-th tile. Only landscape features change.
pub fn apply_landscape_features(
    tiles: &mut Vec<CliffTile>,
    distances: &Vec<Option<u32>>,
    readings: &Vec<PlateauReading>,
)
    requires
        distances@.len() == old(tiles)@.len(),
        readings@.len() == old(tiles)@.len(),
    ensures
        final(tiles)@.len() == old(tiles)@.len(),
        forall|t: int|
            0 <= t < old(tiles)@.len() ==> #[trigger] final(tiles)@[t] == (CliffTile {
                landscape_feature: feature_after(old(tiles)@[t], distance_of(distances@, t), readings@[t]),
                ..old(tiles)@[t]
            }),
{
    let ghost before = tiles@;
    let mut t: usize = 0;
    while t < tiles.len()
        invariant
            tiles@.len() == before.len(),
            distances@.len() == before.len(),
            readings@.len() == before.len(),
            t <= before.len(),
            forall|x: int|
                0 <= x < t ==> #[trigger] tiles@[x] == (CliffTile {
                    landscape_feature: feature_after(before[x], distance_of(distances@, x), readings@[x]),
                    ..before[x]
                }),
            forall|x: int| t <= x < before.len() ==> #[trigger] tiles@[x] == before[x],
        decreases before.len() - t,
    {
        let tile = tiles[t];
        let feature = landscape_feature_for(tile, distances[t], readings[t]);
        proof {
            assert(distance_of(seq![distances@[t as int]], 0) == distance_of(distances@, t as int));
        }
        tiles.set(t, CliffTile { landscape_feature: feature, ..tile });
        t += 1;
    }
}

} // verus!
