//! Canonical corner keys and portable displacement determinism for hex topology.
//!
//! Integer axial coordinates feed a fixed wrapping mixer, low hash bits select
//! an immutable Q15 direction, and other hash bits select a Q16 magnitude. No
//! random-number algorithm or runtime trigonometry is involved in corner
//! displacement.
use vstd::prelude::*;

use crate::hex_coord::HexCoord;
use crate::types::SharedCornerKey;

verus! {

pub const DIRECTION_INDEX_MASK: u64 = 0x0f;
pub const MAGNITUDE_SHIFT: u64 = 8;
pub const MAGNITUDE_MASK: u64 = 0xff;
pub const MIN_MAGNITUDE_Q16: u16 = 5_243;
pub const MAX_MAGNITUDE_Q16: u16 = 7_864;
pub const MAX_DISPLACEMENT_Q16: u16 = 10_486;

/// Sixteen immutable Q15 unit directions, spaced at 22.5 degree intervals.
pub open spec fn direction_table(index: int) -> (int, int) {
    if index == 0 {
        (32_767, 0)
    } else if index == 1 {
        (30_274, 12_539)
    } else if index == 2 {
        (23_170, 23_170)
    } else if index == 3 {
        (12_539, 30_274)
    } else if index == 4 {
        (0, 32_767)
    } else if index == 5 {
        (-12_539, 30_274)
    } else if index == 6 {
        (-23_170, 23_170)
    } else if index == 7 {
        (-30_274, 12_539)
    } else if index == 8 {
        (-32_767, 0)
    } else if index == 9 {
        (-30_274, -12_539)
    } else if index == 10 {
        (-23_170, -23_170)
    } else if index == 11 {
        (-12_539, -30_274)
    } else if index == 12 {
        (0, -32_767)
    } else if index == 13 {
        (12_539, -30_274)
    } else if index == 14 {
        (23_170, -23_170)
    } else {
        (30_274, -12_539)
    }
}

/// The Q15 unit direction with the given index (`0..16`).
pub fn displacement_direction_q15(index: usize) -> (direction: (i16, i16))
    requires
        index < 16,
    ensures
        direction.0 == direction_table(index as int).0,
        direction.1 == direction_table(index as int).1,
{
    match index {
        0 => (32_767, 0),
        1 => (30_274, 12_539),
        2 => (23_170, 23_170),
        3 => (12_539, 30_274),
        4 => (0, 32_767),
        5 => (-12_539, 30_274),
        6 => (-23_170, 23_170),
        7 => (-30_274, 12_539),
        8 => (-32_767, 0),
        9 => (-30_274, -12_539),
        10 => (-23_170, -23_170),
        11 => (-12_539, -30_274),
        12 => (0, -32_767),
        13 => (12_539, -30_274),
        14 => (23_170, -23_170),
        _ => (30_274, -12_539),
    }
}

/// One fixed SplitMix64-style round with wrapping `u64` arithmetic.
pub open spec fn splitmix_spec(state: u64, word: u64) -> u64 {
    let a = state.wrapping_add(word).wrapping_mul(0x9e37_79b9_7f4a_7c15);
    let b = (a ^ (a >> 30u64)).wrapping_mul(0xbf58_476d_1ce4_e5b9);
    let c = (b ^ (b >> 27u64)).wrapping_mul(0x94d0_49bb_1331_11eb);
    c ^ (c >> 31u64)
}

/// Applies one fixed SplitMix64-style round with wrapping u64 arithmetic.
fn splitmix64_round(state: u64, word: u64) -> (mixed: u64)
    ensures
        mixed == splitmix_spec(state, word),
{
    let mut mixed = state.wrapping_add(word).wrapping_mul(0x9e37_79b9_7f4a_7c15);
    mixed = (mixed ^ (mixed >> 30u64)).wrapping_mul(0xbf58_476d_1ce4_e5b9);
    mixed = (mixed ^ (mixed >> 27u64)).wrapping_mul(0x94d0_49bb_1331_11eb);
    mixed ^ (mixed >> 31u64)
}

/// The bit pattern of an `i32` coordinate as a 32-bit word.
pub open spec fn coordinate_word(value: i32) -> u64 {
    (value as u32) as u64
}

fn coordinate_bits(value: i32) -> (bits: u64)
    ensures
        bits == coordinate_word(value),
{
    (value as u32) as u64
}

/// The mixed corner seed: six rounds over the `(q, r)` words of the three
/// key cells, starting from the world seed.
pub open spec fn corner_seed_spec(seed: u32, key: SharedCornerKey) -> u64 {
    let h0 = splitmix_spec(seed as u64, coordinate_word(key.0.q));
    let h1 = splitmix_spec(h0, coordinate_word(key.0.r));
    let h2 = splitmix_spec(h1, coordinate_word(key.1.q));
    let h3 = splitmix_spec(h2, coordinate_word(key.1.r));
    let h4 = splitmix_spec(h3, coordinate_word(key.2.q));
    splitmix_spec(h4, coordinate_word(key.2.r))
}

/// Computes a stable, deterministic 64-bit seed for a corner.
///
/// Six coordinate words are mixed in `(q, r)` order for each canonical key
/// cell. The fixed constants and explicit u32-to-u64 conversion make this
/// independent of Rust hashers, platform endianness, and `usize` width.
pub fn seed_for_corner(seed_val: u32, key: SharedCornerKey) -> (seed: u64)
    ensures
        seed == corner_seed_spec(seed_val, key),
{
    let inputs: [u64; 6] = [
        coordinate_bits(key.first().q),
        coordinate_bits(key.first().r),
        coordinate_bits(key.second().q),
        coordinate_bits(key.second().r),
        coordinate_bits(key.third().q),
        coordinate_bits(key.third().r),
    ];
    let mut h = seed_val as u64;
    let mut i: usize = 0;
    while i < 6
        invariant
            0 <= i <= 6,
            inputs@ == seq![
                coordinate_word(key.0.q),
                coordinate_word(key.0.r),
                coordinate_word(key.1.q),
                coordinate_word(key.1.r),
                coordinate_word(key.2.q),
                coordinate_word(key.2.r),
            ],
            i == 0 ==> h == seed_val as u64,
            i == 1 ==> h == splitmix_spec(seed_val as u64, inputs@[0]),
            i == 2 ==> h == splitmix_spec(splitmix_spec(seed_val as u64, inputs@[0]), inputs@[1]),
            i == 3 ==> h == splitmix_spec(
                splitmix_spec(splitmix_spec(seed_val as u64, inputs@[0]), inputs@[1]),
                inputs@[2],
            ),
            i == 4 ==> h == splitmix_spec(
                splitmix_spec(
                    splitmix_spec(splitmix_spec(seed_val as u64, inputs@[0]), inputs@[1]),
                    inputs@[2],
                ),
                inputs@[3],
            ),
            i == 5 ==> h == splitmix_spec(
                splitmix_spec(
                    splitmix_spec(
                        splitmix_spec(splitmix_spec(seed_val as u64, inputs@[0]), inputs@[1]),
                        inputs@[2],
                    ),
                    inputs@[3],
                ),
                inputs@[4],
            ),
            i == 6 ==> h == corner_seed_spec(seed_val, key),
        decreases 6 - i,
    {
        h = splitmix64_round(h, inputs[i]);
        i += 1;
    }
    h
}

/// The integer parts of a legacy corner displacement: a Q15 unit direction
/// selected by bits 0..=3 of the mixed corner seed and a Q16 magnitude of
/// `5_243 + sample * 2_621 / 255` for the sample in bits 8..=15, capped at
/// `10_486`.
pub open spec fn corner_displacement_parts_spec(seed: u32, key: SharedCornerKey) -> ((int, int), int) {
    let mixed = corner_seed_spec(seed, key);
    let direction = direction_table((mixed & 0x0f) as int);
    let sample = ((mixed >> 8u64) & 0xff) as int;
    let magnitude = MIN_MAGNITUDE_Q16 + sample * (MAX_MAGNITUDE_Q16 - MIN_MAGNITUDE_Q16) / 255;
    let capped = if magnitude <= MAX_DISPLACEMENT_Q16 {
        magnitude
    } else {
        MAX_DISPLACEMENT_Q16 as int
    };
    (direction, capped)
}

/// Derives the fixed-point parts of a portable corner displacement from the
/// mixed corner seed: the Q15 direction and the Q16 magnitude, which the
/// caller scales by the hex radius.
pub fn corner_displacement_parts(seed_val: u32, key: SharedCornerKey) -> (parts: ((i16, i16), u16))
    ensures
        parts.0.0 == corner_displacement_parts_spec(seed_val, key).0.0,
        parts.0.1 == corner_displacement_parts_spec(seed_val, key).0.1,
        parts.1 == corner_displacement_parts_spec(seed_val, key).1,
        MIN_MAGNITUDE_Q16 <= parts.1 <= MAX_MAGNITUDE_Q16,
{
    let mixed = seed_for_corner(seed_val, key);
    let index = mixed & DIRECTION_INDEX_MASK;
    assert(index < 16) by (bit_vector)
        requires
            index == mixed & 0x0f,
    ;
    let direction = displacement_direction_q15(index as usize);
    let sample = (mixed >> MAGNITUDE_SHIFT) & MAGNITUDE_MASK;
    assert(sample <= 255) by (bit_vector)
        requires
            sample == (mixed >> 8u64) & 0xff,
    ;
    let span = (MAX_MAGNITUDE_Q16 - MIN_MAGNITUDE_Q16) as u32;
    let delta = (sample as u32) * span / 255;
    assert(delta <= span) by (nonlinear_arith)
        requires
            sample <= 255,
            delta == (sample as u32) * span / 255,
            span == 2621,
    ;
    let magnitude = MIN_MAGNITUDE_Q16 + (delta as u16);
    let capped = if magnitude <= MAX_DISPLACEMENT_Q16 {
        magnitude
    } else {
        MAX_DISPLACEMENT_Q16
    };
    (direction, capped)
}

/// The two neighbor directions whose cells meet `coord` at corner `index`.
pub open spec fn corner_neighbor_directions(index: int) -> (int, int) {
    if index == 0 {
        (0, 5)
    } else if index == 1 {
        (5, 4)
    } else if index == 2 {
        (4, 3)
    } else if index == 3 {
        (3, 2)
    } else if index == 4 {
        (2, 1)
    } else {
        (1, 0)
    }
}

/// The key lists its three cells in strictly ascending `(q, r)` order.
pub open spec fn key_is_ascending(key: SharedCornerKey) -> bool {
    key.0.precedes(key.1) && key.1.precedes(key.2)
}

/// The set of the key's three cells.
pub open spec fn key_cells(key: SharedCornerKey) -> Set<HexCoord> {
    set![key.0, key.1, key.2]
}

/// The three cells meeting at corner `index` (taken modulo six) of `coord`.
pub open spec fn corner_cells(coord: HexCoord, index: int) -> Set<HexCoord> {
    let directions = corner_neighbor_directions(index % 6);
    set![coord, coord.neighbor(directions.0), coord.neighbor(directions.1)]
}

/// The canonical key of corner `index` of `coord`: its three cells in
/// ascending `(q, r)` order.
pub open spec fn corner_key_spec(coord: HexCoord, index: int) -> SharedCornerKey {
    choose|key: SharedCornerKey|
        key_is_ascending(key) && key_cells(key) == corner_cells(coord, index)
}

/// Orders three cells ascending by `(q, r)`.
fn sort_three(a: HexCoord, b: HexCoord, c: HexCoord) -> (key: SharedCornerKey)
    requires
        a != b,
        b != c,
        a != c,
    ensures
        key_is_ascending(key),
        key_cells(key) == set![a, b, c],
{
    let (a, b) = if b.is_before(a) {
        (b, a)
    } else {
        (a, b)
    };
    let (b, c) = if c.is_before(b) {
        (c, b)
    } else {
        (b, c)
    };
    let (a, b) = if b.is_before(a) {
        (b, a)
    } else {
        (a, b)
    };
    let key = SharedCornerKey::new(a, b, c);
    assert(key_cells(key) =~= set![key.0, key.1, key.2]);
    key
}

/// Derives the canonical `SharedCornerKey` for a corner index of a `HexCoord`.
///
/// Each corner is shared by the three hexes meeting there; listing them in
/// ascending `(q, r)` order gives a key that does not depend on which incident
/// cell is processing the corner.
pub fn canonical_corner_key(coord: HexCoord, corner_idx: usize) -> (key: SharedCornerKey)
    requires
        coord.has_neighbors(),
    ensures
        key_is_ascending(key),
        key_cells(key) == corner_cells(coord, corner_idx as int),
        key == corner_key_spec(coord, corner_idx as int),
{
    let neighbors = coord.neighbors();
    let idx = corner_idx % 6;
    let (h_b, h_c) = match idx {
        0 => (neighbors[0], neighbors[5]),
        1 => (neighbors[5], neighbors[4]),
        2 => (neighbors[4], neighbors[3]),
        3 => (neighbors[3], neighbors[2]),
        4 => (neighbors[2], neighbors[1]),
        _ => (neighbors[1], neighbors[0]),
    };
    let key = sort_three(coord, h_b, h_c);
    assert(key_cells(key) =~= corner_cells(coord, corner_idx as int));
    proof {
        let chosen = corner_key_spec(coord, corner_idx as int);
        assert(key_is_ascending(chosen) && key_cells(chosen) == corner_cells(
            coord,
            corner_idx as int,
        ));
        lemma_ascending_key_unique(key, chosen);
    }
    key
}

/// Three cells as a key listed in ascending `(q, r)` order.
pub open spec fn ascending_key_of(a: HexCoord, b: HexCoord, c: HexCoord) -> SharedCornerKey {
    if a.precedes(b) && b.precedes(c) {
        SharedCornerKey(a, b, c)
    } else if a.precedes(c) && c.precedes(b) {
        SharedCornerKey(a, c, b)
    } else if b.precedes(a) && a.precedes(c) {
        SharedCornerKey(b, a, c)
    } else if b.precedes(c) && c.precedes(a) {
        SharedCornerKey(b, c, a)
    } else if c.precedes(a) && a.precedes(b) {
        SharedCornerKey(c, a, b)
    } else {
        SharedCornerKey(c, b, a)
    }
}

/// The canonical key of a corner lists exactly the corner's three cells,
/// ascending.
pub proof fn lemma_corner_key_spec(coord: HexCoord, index: int)
    requires
        coord.has_neighbors(),
    ensures
        key_is_ascending(corner_key_spec(coord, index)),
        key_cells(corner_key_spec(coord, index)) == corner_cells(coord, index),
{
    let directions = corner_neighbor_directions(index % 6);
    let b = coord.neighbor(directions.0);
    let c = coord.neighbor(directions.1);
    let key = ascending_key_of(coord, b, c);
    assert(key_is_ascending(key));
    assert(key_cells(key) =~= corner_cells(coord, index));
}

/// Two different corners of a cell have different keys.
pub proof fn lemma_corner_keys_distinct(coord: HexCoord, i: int, j: int)
    requires
        coord.has_neighbors(),
        0 <= i < 6,
        0 <= j < 6,
        i != j,
    ensures
        corner_key_spec(coord, i) != corner_key_spec(coord, j),
{
    lemma_corner_key_spec(coord, i);
    lemma_corner_key_spec(coord, j);
    let di = corner_neighbor_directions(i);
    let dj = corner_neighbor_directions(j);
    let d = if di.0 != dj.0 && di.0 != dj.1 {
        di.0
    } else {
        di.1
    };
    let x = coord.neighbor(d);
    assert(corner_cells(coord, i).contains(x));
    assert(!corner_cells(coord, j).contains(x));
}

/// An ascending key is determined by its set of cells.
pub proof fn lemma_ascending_key_unique(a: SharedCornerKey, b: SharedCornerKey)
    requires
        key_is_ascending(a),
        key_is_ascending(b),
        key_cells(a) == key_cells(b),
    ensures
        a == b,
{
    assert(key_cells(a).contains(a.0));
    assert(key_cells(a).contains(a.1));
    assert(key_cells(a).contains(a.2));
    assert(key_cells(b).contains(b.0));
    assert(key_cells(b).contains(b.1));
    assert(key_cells(b).contains(b.2));
}

/// Every corner is the same shared corner of all three cells that meet there:
/// corner `i` of a cell is corner `i + 2` of its first neighbor at that corner
/// and corner `i + 4` of its second, so the three cells agree on the key.
pub proof fn law_corner_shared_by_three_cells(coord: HexCoord, index: int)
    requires
        0 <= index < 6,
        i32::MIN + 2 < coord.q < i32::MAX - 2,
        i32::MIN + 2 < coord.r < i32::MAX - 2,
    ensures
        corner_cells(coord, index) == corner_cells(
            coord.neighbor(corner_neighbor_directions(index).0),
            index + 2,
        ),
        corner_cells(coord, index) == corner_cells(
            coord.neighbor(corner_neighbor_directions(index).1),
            index + 4,
        ),
{
    let b = coord.neighbor(corner_neighbor_directions(index).0);
    let c = coord.neighbor(corner_neighbor_directions(index).1);
    assert(corner_cells(coord, index) =~= corner_cells(b, index + 2));
    assert(corner_cells(coord, index) =~= corner_cells(c, index + 4));
}

/// Across the side of `coord` facing neighbor direction `direction`, the two
/// corners at the ends of that side (corners `5 - direction` and the next one)
/// are corners `(9 - direction) % 6` and `(8 - direction) % 6` of the
/// neighbor: the neighbor's side `(8 - direction) % 6` runs between the same
/// corners the other way.
pub proof fn lemma_side_shared_with_neighbor(coord: HexCoord, direction: int)
    requires
        0 <= direction < 6,
        coord.has_neighbors(),
        coord.neighbor(direction).has_neighbors(),
    ensures
        corner_key_spec(coord, 5 - direction) == corner_key_spec(
            coord.neighbor(direction),
            (9 - direction) % 6,
        ),
        corner_key_spec(coord, (6 - direction) % 6) == corner_key_spec(
            coord.neighbor(direction),
            (8 - direction) % 6,
        ),
{
    let other = coord.neighbor(direction);
    let first = 5 - direction;
    let second = (6 - direction) % 6;
    assert(corner_cells(coord, first) =~= corner_cells(other, (9 - direction) % 6));
    assert(corner_cells(coord, second) =~= corner_cells(other, (8 - direction) % 6));
    lemma_corner_key_spec(coord, first);
    lemma_corner_key_spec(coord, second);
    lemma_corner_key_spec(other, (9 - direction) % 6);
    lemma_corner_key_spec(other, (8 - direction) % 6);
    lemma_ascending_key_unique(corner_key_spec(coord, first), corner_key_spec(other, (9 - direction) % 6));
    lemma_ascending_key_unique(corner_key_spec(coord, second), corner_key_spec(other, (8 - direction) % 6));
}

/// The corner of the key's first cell that the key names: the first corner
/// index whose canonical key is `key`, or `None` when no corner of that cell
/// has it.
pub fn anchor_corner_index(key: SharedCornerKey) -> (index: Option<usize>)
    requires
        key.0.has_neighbors(),
    ensures
        match index {
            Some(i) => i < 6 && corner_key_spec(key.0, i as int) == key && forall|j: int|
                0 <= j < i ==> corner_key_spec(key.0, j) != key,
            None => forall|j: int| 0 <= j < 6 ==> corner_key_spec(key.0, j) != key,
        },
{
    let anchor = key.first();
    let mut i: usize = 0;
    while i < 6
        invariant
            i <= 6,
            anchor == key.0,
            anchor.has_neighbors(),
            forall|j: int| 0 <= j < i ==> corner_key_spec(key.0, j) != key,
        decreases 6 - i,
    {
        if canonical_corner_key(anchor, i) == key {
            return Some(i);
        }
        i += 1;
    }
    None
}

/// The sixteen directions are pairwise different.
proof fn lemma_direction_table_injective(a: int, b: int)
    requires
        0 <= a < 16,
        0 <= b < 16,
        direction_table(a) == direction_table(b),
    ensures
        a == b,
{
}

/// The legacy direction of a corner is chosen by the low four bits of its
/// mixed corner seed, and by nothing else: two corners (under any seeds) get
/// the same direction exactly when their mixed seeds agree in bits 0..=3, so
/// corners whose seeds differ there are pushed in different directions.
pub proof fn law_legacy_direction_follows_seed_bits(seed_a: u32, key_a: SharedCornerKey, seed_b: u32, key_b: SharedCornerKey)
    ensures
        (corner_displacement_parts_spec(seed_a, key_a).0 == corner_displacement_parts_spec(seed_b, key_b).0) <==> (
        corner_seed_spec(seed_a, key_a) & 0x0f == corner_seed_spec(seed_b, key_b) & 0x0f),
{
    let ma = corner_seed_spec(seed_a, key_a);
    let mb = corner_seed_spec(seed_b, key_b);
    let ia = ma & 0x0f;
    let ib = mb & 0x0f;
    assert(ia < 16 && ib < 16) by (bit_vector)
        requires
            ia == ma & 0x0f,
            ib == mb & 0x0f,
    ;
    if corner_displacement_parts_spec(seed_a, key_a).0 == corner_displacement_parts_spec(seed_b, key_b).0 {
        lemma_direction_table_injective(ia as int, ib as int);
    }
}

/// The legacy direction of a corner has Q15 length one, up to the rounding
/// of its coordinates: its squared length lies between `32_766^2` and
/// `32_768^2`.
pub proof fn law_legacy_direction_is_a_unit_direction(seed: u32, key: SharedCornerKey)
    ensures
        ({
            let d = corner_displacement_parts_spec(seed, key).0;
            &&& 32_766 * 32_766 <= d.0 * d.0 + d.1 * d.1 <= 32_768 * 32_768
        }),
{
    let m = corner_seed_spec(seed, key);
    let i = m & 0x0f;
    assert(i < 16) by (bit_vector)
        requires
            i == m & 0x0f,
    ;
}

} // verus!
