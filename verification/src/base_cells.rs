//! The cells of a freshly generated map, the border cells that are always
//! ocean, and what a regenerated tile keeps of the tile it replaces.
//!
//! A map `width` by `height` covers the axial rectangle of cells with
//! `-width / 2 <= q < width / 2` and `-height / 2 <= r < height / 2`. The two
//! outermost rows and columns on each side are border cells.
use vstd::prelude::*;

use crate::cliffs::{LandscapeFeature, OceanState};
use crate::hex_coord::HexCoord;
use crate::map_layout::MapLayout;

verus! {

/// `coord` lies in the axial rectangle of a `width` by `height` map.
pub open spec fn in_base_rectangle(width: u32, height: u32, coord: HexCoord) -> bool {
    let half_w = (width / 2) as int;
    let half_h = (height / 2) as int;
    &&& -half_w <= coord.q < half_w
    &&& -half_h <= coord.r < half_h
}

/// `coord` is one of the two outermost columns or rows on a side of the map.
pub open spec fn is_border_cell_spec(width: u32, height: u32, coord: HexCoord) -> bool {
    let half_w = (width / 2) as int;
    let half_h = (height / 2) as int;
    ||| coord.q <= -half_w + 1
    ||| coord.q >= half_w - 2
    ||| coord.r <= -half_h + 1
    ||| coord.r >= half_h - 2
}

/// Whether `coord` is a border cell of a `width` by `height` map, which
/// generation always makes ocean.
pub fn is_border_cell(width: u32, height: u32, coord: HexCoord) -> (border: bool)
    ensures
        border == is_border_cell_spec(width, height, coord),
{
    let half_w = (width / 2) as i64;
    let half_h = (height / 2) as i64;
    let q = coord.q as i64;
    let r = coord.r as i64;
    q <= -half_w + 1 || q >= half_w - 2 || r <= -half_h + 1 || r >= half_h - 2
}

/// The layout of a freshly generated `width` by `height` map: its dimensions
/// and every cell of its axial rectangle.
pub fn base_layout(width: u32, height: u32) -> (layout: MapLayout)
    ensures
        layout.width_spec() == width,
        layout.height_spec() == height,
        forall|coord: HexCoord| #[trigger] layout.has_tile(coord) <==> in_base_rectangle(width, height, coord),
{
    let half_w = (width / 2) as i32;
    let half_h = (height / 2) as i32;
    let mut layout = MapLayout::new(width, height);
    let mut q: i32 = -half_w;
    while q < half_w
        invariant
            half_w == width / 2,
            half_h == height / 2,
            -half_w <= q <= half_w,
            layout.width_spec() == width,
            layout.height_spec() == height,
            forall|coord: HexCoord|
                #[trigger] layout.has_tile(coord) <==> (in_base_rectangle(width, height, coord) && coord.q < q),
        decreases half_w - q,
    {
        let mut r: i32 = -half_h;
        while r < half_h
            invariant
                half_w == width / 2,
                half_h == height / 2,
                -half_w <= q < half_w,
                -half_h <= r <= half_h,
                layout.width_spec() == width,
                layout.height_spec() == height,
                forall|coord: HexCoord|
                    #[trigger] layout.has_tile(coord) <==> (in_base_rectangle(width, height, coord) && (
                    coord.q < q || (coord.q == q && coord.r < r))),
            decreases half_h - r,
        {
            let ghost before = layout.tile_seq();
            let ghost before_layout = layout;
            let cell = HexCoord::new(q, r);
            layout.insert_tile(cell);
            proof {
                assert forall|coord: HexCoord| #[trigger] layout.has_tile(coord) <==> (in_base_rectangle(
                    width,
                    height,
                    coord,
                ) && (coord.q < q || (coord.q == q && coord.r < r + 1))) by {
                    assert(layout.tile_seq().to_set().contains(coord) == layout.tile_seq().contains(coord));
                    assert(before.to_set().contains(coord) == before.contains(coord));
                    assert(layout.tile_seq().to_set() == before.to_set().insert(cell));
                    if coord == cell {
                        assert(in_base_rectangle(width, height, coord));
                    } else {
                        assert(layout.has_tile(coord) == before.contains(coord));
                        assert(before_layout.has_tile(coord) == before.contains(coord));
                        if coord.q == q && coord.r == r {
                            assert(coord == cell);
                        }
                    }
                }
            }
            r += 1;
        }
        q += 1;
    }
    layout
}

/// What a regenerated tile keeps of the tile that stood at its cell before:
/// whether it is ocean, the faction holding it and its landscape feature.
#[derive(Debug, Clone, Copy, PartialEq, Eq, Structural)]
pub struct CarriedTileState {
    pub ocean_state: OceanState,
    pub faction_id: Option<u32>,
    pub landscape_feature: LandscapeFeature,
}

/// The state of a regenerated tile. A border cell is ocean. Otherwise a
/// reset, or a cell that had no tile, takes the ocean flag of the map's shape
/// (`shaped_ocean`), and a kept tile stays ocean or land as it was. A reset
/// clears the faction and the landscape feature; without one the previous
/// tile's are kept (none for a new cell).
pub open spec fn carried_state_spec(
    border: bool,
    reset: bool,
    shaped_ocean: bool,
    previous: Option<CarriedTileState>,
) -> CarriedTileState {
    let ocean = border || if reset {
        shaped_ocean
    } else {
        match previous {
            Some(tile) => tile.ocean_state == OceanState::Ocean,
            None => shaped_ocean,
        }
    };
    CarriedTileState {
        ocean_state: if ocean {
            OceanState::Ocean
        } else {
            OceanState::Land
        },
        faction_id: if reset {
            None
        } else {
            match previous {
                Some(tile) => tile.faction_id,
                None => None,
            }
        },
        landscape_feature: if reset {
            LandscapeFeature::NoFeature
        } else {
            match previous {
                Some(tile) => tile.landscape_feature,
                None => LandscapeFeature::NoFeature,
            }
        },
    }
}

/// The ocean flag, faction and landscape feature of a regenerated tile, from
/// whether its cell is a border cell, whether the generation is a reset,
/// whether the map's shape puts ocean there, and the tile that stood there
/// before, if any.
pub fn carried_tile_state(
    border: bool,
    reset: bool,
    shaped_ocean: bool,
    previous: Option<CarriedTileState>,
) -> (state: CarriedTileState)
    ensures
        state == carried_state_spec(border, reset, shaped_ocean, previous),
        border ==> state.ocean_state == OceanState::Ocean,
        reset ==> state.faction_id is None && state.landscape_feature == LandscapeFeature::NoFeature,
        !reset && !border && previous is Some ==> state == previous.unwrap(),
{
    let ocean = border || if reset {
        shaped_ocean
    } else {
        match previous {
            Some(tile) => tile.ocean_state == OceanState::Ocean,
            None => shaped_ocean,
        }
    };
    let ocean_state = if ocean {
        OceanState::Ocean
    } else {
        OceanState::Land
    };
    if reset {
        CarriedTileState { ocean_state, faction_id: None, landscape_feature: LandscapeFeature::NoFeature }
    } else {
        match previous {
            Some(tile) => CarriedTileState {
                ocean_state,
                faction_id: tile.faction_id,
                landscape_feature: tile.landscape_feature,
            },
            None => CarriedTileState { ocean_state, faction_id: None, landscape_feature: LandscapeFeature::NoFeature },
        }
    }
}

} // verus!
