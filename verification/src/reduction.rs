//! Planning the displacement back-off rounds of topology generation.
//!
//! Generation first places every corner at its full profile displacement.
//! Each round checks the geometry of every face; the corners of the faces that
//! fail keep one eighth less of their raw displacement than in the round
//! before, from eight eighths down to none, and corners that still fail
//! after that round fall back to their regular positions.
use vstd::prelude::*;

use crate::corner_key::{canonical_corner_key, corner_key_spec};
use crate::hex_coord::HexCoord;
use crate::map_layout::MapLayout;
use crate::sorted_set::{insert_sorted, strictly_ascending};
use crate::topology::tiles_have_neighbors;
use crate::types::SharedCornerKey;

verus! {

/// The number of displacement fractions tried: eight eighths down to none.
pub const REDUCTION_STEPS: usize = 9;

/// The eighths of its raw displacement that a corner keeps at reduction
/// step `index`.
pub open spec fn kept_eighths(index: int) -> int {
    8 - index
}

/// What one back-off round does with the corners of the failing faces.
#[derive(Debug, Clone, Copy, PartialEq, Eq, Structural)]
pub enum ReductionStep {
    /// No face failed: the positions are final.
    Done,
    /// Round `round`: the failing corners keep `kept_eighths` eighths of their
    /// raw displacement.
    Reduce { round: usize, kept_eighths: u8 },
    /// Every fraction was tried: the failing corners go to their regular
    /// positions.
    FallBack,
}

/// `key` is a corner key of a tile whose face failed.
pub open spec fn is_failed_corner_key(tiles: Seq<HexCoord>, failed: Seq<bool>, key: SharedCornerKey) -> bool {
    exists|t: int, i: int|
        0 <= t < tiles.len() && failed[t] && 0 <= i < 6 && key == corner_key_spec(tiles[t], i)
}

/// The step after reduction step `reduction_index`, given how many corners
/// belong to failing faces.
pub fn next_reduction(reduction_index: usize, failed_keys: usize) -> (step: ReductionStep)
    requires
        reduction_index < REDUCTION_STEPS,
    ensures
        failed_keys == 0 ==> step == ReductionStep::Done,
        failed_keys > 0 && reduction_index + 1 >= REDUCTION_STEPS ==> step == ReductionStep::FallBack,
        failed_keys > 0 && reduction_index + 1 < REDUCTION_STEPS ==> step == (ReductionStep::Reduce {
            round: (reduction_index + 1) as usize,
            kept_eighths: kept_eighths(reduction_index + 1) as u8,
        }),
{
    if failed_keys == 0 {
        ReductionStep::Done
    } else if reduction_index + 1 >= REDUCTION_STEPS {
        ReductionStep::FallBack
    } else {
        let round = reduction_index + 1;
        ReductionStep::Reduce { round, kept_eighths: (8 - round) as u8 }
    }
}

/// The corner keys of the tiles whose faces failed (`failed[t]` for the
/// `t`-th tile in ascending order), ascending and each once.
pub fn failed_corner_keys(layout: &MapLayout, failed: &Vec<bool>) -> (keys: Vec<SharedCornerKey>)
    requires
        tiles_have_neighbors(layout.tile_seq()),
        failed@.len() == layout.tile_seq().len(),
    ensures
        strictly_ascending(keys@),
        forall|key: SharedCornerKey|
            keys@.contains(key) <==> is_failed_corner_key(layout.tile_seq(), failed@, key),
{
    let tiles = layout.tiles();
    let mut keys: Vec<SharedCornerKey> = Vec::new();
    let mut t: usize = 0;
    while t < tiles.len()
        invariant
            t <= tiles@.len(),
            tiles@ == layout.tile_seq(),
            failed@.len() == tiles@.len(),
            tiles_have_neighbors(tiles@),
            strictly_ascending(keys@),
            forall|key: SharedCornerKey| keys@.contains(key) <==> exists|u: int, i: int|
                0 <= u < t && failed@[u] && 0 <= i < 6 && key == corner_key_spec(tiles@[u], i),
        decreases tiles@.len() - t,
    {
        if failed[t] {
            let coord = tiles[t];
            let mut i: usize = 0;
            while i < 6
                invariant
                    t < tiles@.len(),
                    i <= 6,
                    failed@[t as int],
                    failed@.len() == tiles@.len(),
                    coord == tiles@[t as int],
                    coord.has_neighbors(),
                    strictly_ascending(keys@),
                    forall|key: SharedCornerKey| keys@.contains(key) <==> (exists|u: int, j: int|
                        0 <= u < t && failed@[u] && 0 <= j < 6 && key == corner_key_spec(tiles@[u], j)) || (
                    exists|j: int| 0 <= j < i && key == corner_key_spec(coord, j)),
                decreases 6 - i,
            {
                let key = canonical_corner_key(coord, i);
                let ghost before = keys@;
                insert_sorted(&mut keys, key);
                proof {
                    assert forall|k: SharedCornerKey| keys@.contains(k) <==> (exists|u: int, j: int|
                        0 <= u < t && failed@[u] && 0 <= j < 6 && k == corner_key_spec(tiles@[u], j)) || (
                    exists|j: int| 0 <= j < i + 1 && k == corner_key_spec(coord, j)) by {
                        assert(keys@.contains(k) == keys@.to_set().contains(k));
                        assert(before.contains(k) == before.to_set().contains(k));
                        if k == key {
                            assert(0 <= i < i + 1 && k == corner_key_spec(coord, i as int));
                        }
                        if exists|j: int| 0 <= j < i + 1 && k == corner_key_spec(coord, j) {
                            let j = choose|j: int| 0 <= j < i + 1 && k == corner_key_spec(coord, j);
                            if j == i {
                                assert(k == key);
                            }
                        }
                    }
                }
                i += 1;
            }
            proof {
                assert forall|k: SharedCornerKey| keys@.contains(k) <==> exists|u: int, j: int|
                    0 <= u < t + 1 && failed@[u] && 0 <= j < 6 && k == corner_key_spec(tiles@[u], j) by {
                    if exists|u: int, j: int|
                        0 <= u < t + 1 && failed@[u] && 0 <= j < 6 && k == corner_key_spec(tiles@[u], j) {
                        let (u, j) = choose|u: int, j: int|
                            0 <= u < t + 1 && failed@[u] && 0 <= j < 6 && k == corner_key_spec(tiles@[u], j);
                        if u == t {
                            assert(exists|j2: int| 0 <= j2 < 6 && k == corner_key_spec(coord, j2));
                        }
                    }
                }
            }
        } else {
            proof {
                assert forall|k: SharedCornerKey| keys@.contains(k) <==> exists|u: int, j: int|
                    0 <= u < t + 1 && failed@[u] && 0 <= j < 6 && k == corner_key_spec(tiles@[u], j) by {
                    if exists|u: int, j: int|
                        0 <= u < t + 1 && failed@[u] && 0 <= j < 6 && k == corner_key_spec(tiles@[u], j) {
                        let (u, j) = choose|u: int, j: int|
                            0 <= u < t + 1 && failed@[u] && 0 <= j < 6 && k == corner_key_spec(tiles@[u], j);
                        assert(u < t);
                    }
                }
            }
        }
        t += 1;
    }
    keys
}

} // verus!
