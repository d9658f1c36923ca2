//! The tile layout of a map: its dimensions and the set of tile cells.
use vstd::prelude::*;

use crate::hex_coord::HexCoord;
use crate::sorted_set::{insert_sorted, search_sorted, strictly_ascending};

verus! {

/// Map dimensions and tile cells, the cells kept in ascending `(q, r)` order
/// without repetition.
pub struct MapLayout {
    width: u32,
    height: u32,
    tiles: Vec<HexCoord>,
}

impl MapLayout {
    #[verifier::type_invariant]
    spec fn tiles_ascending(self) -> bool {
        strictly_ascending(self.tiles@)
    }

    /// The tile cells in ascending `(q, r)` order.
    pub closed spec fn tile_seq(self) -> Seq<HexCoord> {
        self.tiles@
    }

    pub closed spec fn width_spec(self) -> u32 {
        self.width
    }

    pub closed spec fn height_spec(self) -> u32 {
        self.height
    }

    /// Whether `coord` is a tile of the map.
    pub open spec fn has_tile(self, coord: HexCoord) -> bool {
        self.tile_seq().contains(coord)
    }

    /// A map of the given dimensions without tiles.
    pub fn new(width: u32, height: u32) -> (layout: Self)
        ensures
            layout.width_spec() == width,
            layout.height_spec() == height,
            layout.tile_seq() == Seq::<HexCoord>::empty(),
    {
        MapLayout { width, height, tiles: Vec::new() }
    }

    /// Adds a tile cell; adding one that is already there changes nothing.
    pub fn insert_tile(&mut self, coord: HexCoord)
        ensures
            final(self).width_spec() == old(self).width_spec(),
            final(self).height_spec() == old(self).height_spec(),
            final(self).tile_seq().to_set() == old(self).tile_seq().to_set().insert(coord),
            strictly_ascending(final(self).tile_seq()),
    {
        proof {
            use_type_invariant(&*self);
        }
        let mut tiles = Vec::new();
        std::mem::swap(&mut tiles, &mut self.tiles);
        insert_sorted(&mut tiles, coord);
        self.tiles = tiles;
    }

    pub fn set_dimensions(&mut self, width: u32, height: u32)
        ensures
            final(self).width_spec() == width,
            final(self).height_spec() == height,
            final(self).tile_seq() == old(self).tile_seq(),
    {
        proof {
            use_type_invariant(&*self);
        }
        self.width = width;
        self.height = height;
    }

    pub fn width(&self) -> (width: u32)
        ensures
            width == self.width_spec(),
    {
        self.width
    }

    pub fn height(&self) -> (height: u32)
        ensures
            height == self.height_spec(),
    {
        self.height
    }

    /// The tile cells in ascending `(q, r)` order.
    pub fn tiles(&self) -> (tiles: &Vec<HexCoord>)
        ensures
            tiles@ == self.tile_seq(),
            strictly_ascending(tiles@),
    {
        proof {
            use_type_invariant(self);
        }
        &self.tiles
    }

    pub fn tile_count(&self) -> (count: usize)
        ensures
            count == self.tile_seq().len(),
    {
        self.tiles.len()
    }

    /// Whether `coord` is a tile of the map.
    pub fn contains_tile(&self, coord: HexCoord) -> (found: bool)
        ensures
            found == self.has_tile(coord),
    {
        proof {
            use_type_invariant(self);
        }
        match search_sorted(&self.tiles, &coord) {
            Ok(_) => true,
            Err(_) => false,
        }
    }
}

} // verus!
