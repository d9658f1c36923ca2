//! Pure cached data and identity-based edge extraction for diagnostics.
use vstd::prelude::*;
use std::collections::HashSet;

use crate::corner_key::{canonical_corner_key, corner_key_spec};
use crate::map_layout::MapLayout;
use crate::sorted_set::{insert_sorted, strictly_ascending, StrictOrder};
use crate::topology::{direction_key, direction_key_of, lemma_direction_key_injective, tiles_have_neighbors, HexFaceTopology};
use crate::types::{HalfEdge, SharedCornerKey, VertexId};

verus! {

broadcast use vstd::std_specs::hash::group_hash_axioms;

/// One topology edge, its two vertex ids in ascending order.
#[derive(Debug, Clone, Copy, PartialEq, Eq, Hash, Structural)]
pub struct UniqueUndirectedEdge {
    pub min: VertexId,
    pub max: VertexId,
}

/// One regular hex edge, its two corner keys in ascending order.
#[derive(Debug, Clone, Copy, PartialEq, Eq, Hash, Structural)]
pub struct UniqueRegularEdge {
    pub min: SharedCornerKey,
    pub max: SharedCornerKey,
}

/// Regular edges are ordered by their first corner key, then their second.
impl StrictOrder for UniqueRegularEdge {
    open spec fn ordered_before(self, other: Self) -> bool {
        ||| self.min.ordered_before(other.min)
        ||| (self.min == other.min && self.max.ordered_before(other.max))
    }

    proof fn ordered_before_transitive(a: Self, b: Self, c: Self) {
        if a.min.ordered_before(b.min) && b.min.ordered_before(c.min) {
            SharedCornerKey::ordered_before_transitive(a.min, b.min, c.min);
        }
        if a.min == b.min && b.min == c.min && a.max.ordered_before(b.max) && b.max.ordered_before(c.max) {
            SharedCornerKey::ordered_before_transitive(a.max, b.max, c.max);
        }
    }

    proof fn ordered_before_trichotomy(a: Self, b: Self) {
        SharedCornerKey::ordered_before_trichotomy(a.min, b.min);
        SharedCornerKey::ordered_before_trichotomy(a.max, b.max);
    }

    fn comes_before(&self, other: &Self) -> (before: bool) {
        if self.min.comes_before(&other.min) {
            true
        } else if other.min.comes_before(&self.min) {
            proof {
                SharedCornerKey::ordered_before_trichotomy(self.min, other.min);
            }
            false
        } else {
            proof {
                SharedCornerKey::ordered_before_trichotomy(self.min, other.min);
            }
            self.max.comes_before(&other.max)
        }
    }
}

/// Cached diagnostic edge and vertex identities of one topology.
#[derive(Debug, Clone, Default, PartialEq, Eq)]
pub struct HexFaceDebugCache {
    pub edges: Vec<UniqueUndirectedEdge>,
    pub regular_edges: Vec<UniqueRegularEdge>,
    pub shared_vertices: Vec<VertexId>,
}

/// The undirected edge of a half-edge, its vertex ids ascending.
pub open spec fn undirected_of(edge: HalfEdge) -> UniqueUndirectedEdge {
    if edge.origin.0 <= edge.destination.0 {
        UniqueUndirectedEdge { min: edge.origin, max: edge.destination }
    } else {
        UniqueUndirectedEdge { min: edge.destination, max: edge.origin }
    }
}

/// The undirected edges of the half-edges, each once, in order of first
/// occurrence.
pub open spec fn unique_undirected(edges: Seq<HalfEdge>) -> Seq<UniqueUndirectedEdge>
    decreases edges.len(),
{
    if edges.len() == 0 {
        Seq::empty()
    } else {
        let earlier = unique_undirected(edges.drop_last());
        let edge = undirected_of(edges.last());
        if earlier.contains(edge) {
            earlier
        } else {
            earlier.push(edge)
        }
    }
}

/// Extracts each topology edge once using `VertexId` identity, never positions.
pub fn extract_unique_undirected_edges(topology: &HexFaceTopology) -> (unique: Vec<UniqueUndirectedEdge>)
    ensures
        unique@ == unique_undirected(topology.half_edges@),
{
    let ghost edges = topology.half_edges@;
    let mut seen: HashSet<u128> = HashSet::new();
    let mut unique: Vec<UniqueUndirectedEdge> = Vec::new();
    let mut i: usize = 0;
    while i < topology.half_edges.len()
        invariant
            i <= edges.len(),
            edges == topology.half_edges@,
            unique@ == unique_undirected(edges.take(i as int)),
            forall|x: u128| #[trigger] seen@.contains(x) <==> exists|u: UniqueUndirectedEdge|
                unique@.contains(u) && x == direction_key(u.min.0, u.max.0),
        decreases edges.len() - i,
    {
        let edge = topology.half_edges[i];
        let (min, max) = if edge.origin.0 <= edge.destination.0 {
            (edge.origin, edge.destination)
        } else {
            (edge.destination, edge.origin)
        };
        let unique_edge = UniqueUndirectedEdge { min, max };
        let key = direction_key_of(min.0, max.0);
        let ghost before = unique@;
        proof {
            assert(edges.take(i as int + 1).drop_last() =~= edges.take(i as int));
            assert(edges.take(i as int + 1).last() == edge);
            if !seen@.contains(key) {
                assert(!before.contains(unique_edge));
            } else {
                let u = choose|u: UniqueUndirectedEdge| before.contains(u) && key == direction_key(u.min.0, u.max.0);
                lemma_direction_key_injective(min.0, max.0, u.min.0, u.max.0);
                assert(u == unique_edge);
            }
        }
        if seen.insert(key) {
            unique.push(unique_edge);
            proof {
                assert(unique@ == before.push(unique_edge));
                assert forall|x: u128| #[trigger] seen@.contains(x) <==> exists|u: UniqueUndirectedEdge|
                    unique@.contains(u) && x == direction_key(u.min.0, u.max.0) by {
                    if x == key {
                        assert(unique@[unique@.len() - 1] == unique_edge);
                        assert(unique@.contains(unique_edge));
                    } else if seen@.contains(x) {
                        let u = choose|u: UniqueUndirectedEdge| before.contains(u) && x == direction_key(u.min.0, u.max.0);
                        let k = choose|k: int| 0 <= k < before.len() && before[k] == u;
                        assert(unique@[k] == u);
                        assert(unique@.contains(u));
                    }
                    if exists|u: UniqueUndirectedEdge| unique@.contains(u) && x == direction_key(u.min.0, u.max.0) {
                        let u = choose|u: UniqueUndirectedEdge| unique@.contains(u) && x == direction_key(u.min.0, u.max.0);
                        let k = choose|k: int| 0 <= k < unique@.len() && unique@[k] == u;
                        if k < before.len() {
                            assert(before[k] == u);
                            assert(before.contains(u));
                        }
                    }
                }
            }
        }
        i += 1;
    }
    assert(edges.take(i as int) =~= edges);
    unique
}

/// The regular edge between corners `index` and `index + 1` of a tile.
pub open spec fn regular_edge_of(coord: crate::hex_coord::HexCoord, index: int) -> UniqueRegularEdge {
    let a = corner_key_spec(coord, index);
    let b = corner_key_spec(coord, (index + 1) % 6);
    if a.ordered_before(b) || a == b {
        UniqueRegularEdge { min: a, max: b }
    } else {
        UniqueRegularEdge { min: b, max: a }
    }
}

/// `edge` is the regular edge of some side of some tile.
pub open spec fn is_tile_regular_edge(tiles: Seq<crate::hex_coord::HexCoord>, edge: UniqueRegularEdge) -> bool {
    exists|t: int, i: int| 0 <= t < tiles.len() && 0 <= i < 6 && edge == #[trigger] regular_edge_of(tiles[t], i)
}

/// Extracts each regular logical hex edge once using canonical corner keys,
/// in ascending order.
pub fn extract_unique_regular_edges(layout: &MapLayout) -> (unique: Vec<UniqueRegularEdge>)
    requires
        tiles_have_neighbors(layout.tile_seq()),
    ensures
        strictly_ascending(unique@),
        forall|edge: UniqueRegularEdge| unique@.contains(edge) <==> is_tile_regular_edge(layout.tile_seq(), edge),
{
    let tiles = layout.tiles();
    let mut unique: Vec<UniqueRegularEdge> = Vec::new();
    let mut t: usize = 0;
    while t < tiles.len()
        invariant
            t <= tiles@.len(),
            tiles@ == layout.tile_seq(),
            tiles_have_neighbors(tiles@),
            strictly_ascending(unique@),
            forall|edge: UniqueRegularEdge| unique@.contains(edge) <==> exists|u: int, i: int|
                0 <= u < t && 0 <= i < 6 && edge == #[trigger] regular_edge_of(tiles@[u], i),
        decreases tiles@.len() - t,
    {
        let coord = tiles[t];
        let mut index: usize = 0;
        while index < 6
            invariant
                t < tiles@.len(),
                index <= 6,
                coord == tiles@[t as int],
                coord.has_neighbors(),
                strictly_ascending(unique@),
                forall|edge: UniqueRegularEdge| unique@.contains(edge) <==> (exists|u: int, i: int|
                    0 <= u < t && 0 <= i < 6 && edge == #[trigger] regular_edge_of(tiles@[u], i)) || (
                exists|i: int| 0 <= i < index && edge == #[trigger] regular_edge_of(coord, i)),
            decreases 6 - index,
        {
            let corner_a = canonical_corner_key(coord, index);
            let corner_b = canonical_corner_key(coord, (index + 1) % 6);
            let edge = if corner_a.comes_before(&corner_b) || !corner_b.comes_before(&corner_a) {
                proof {
                    SharedCornerKey::ordered_before_trichotomy(corner_a, corner_b);
                }
                UniqueRegularEdge { min: corner_a, max: corner_b }
            } else {
                UniqueRegularEdge { min: corner_b, max: corner_a }
            };
            assert(edge == regular_edge_of(coord, index as int));
            let ghost before = unique@;
            insert_sorted(&mut unique, edge);
            proof {
                assert forall|e: UniqueRegularEdge| unique@.contains(e) <==> (exists|u: int, i: int|
                    0 <= u < t && 0 <= i < 6 && e == #[trigger] regular_edge_of(tiles@[u], i)) || (
                exists|i: int| 0 <= i < index + 1 && e == #[trigger] regular_edge_of(coord, i)) by {
                    assert(unique@.contains(e) == unique@.to_set().contains(e));
                    assert(before.contains(e) == before.to_set().contains(e));
                    if exists|i: int| 0 <= i < index + 1 && e == #[trigger] regular_edge_of(coord, i) {
                        let i = choose|i: int| 0 <= i < index + 1 && e == #[trigger] regular_edge_of(coord, i);
                        if i == index {
                            assert(e == edge);
                        }
                    }
                }
            }
            index += 1;
        }
        proof {
            assert forall|e: UniqueRegularEdge| unique@.contains(e) <==> exists|u: int, i: int|
                0 <= u < t + 1 && 0 <= i < 6 && e == #[trigger] regular_edge_of(tiles@[u], i) by {
                if exists|u: int, i: int| 0 <= u < t + 1 && 0 <= i < 6 && e == #[trigger] regular_edge_of(tiles@[u], i) {
                    let (u, i) = choose|u: int, i: int|
                        0 <= u < t + 1 && 0 <= i < 6 && e == #[trigger] regular_edge_of(tiles@[u], i);
                    if u == t {
                        assert(exists|j: int| 0 <= j < 6 && e == #[trigger] regular_edge_of(coord, j));
                    }
                }
            }
        }
        t += 1;
    }
    unique
}

/// Returns one marker identity per canonical stored vertex.
pub fn extract_shared_vertices(topology: &HexFaceTopology) -> (shared: Vec<VertexId>)
    ensures
        shared@.len() == topology.vertices@.len(),
        forall|v: int| 0 <= v < shared@.len() ==> #[trigger] shared@[v] == VertexId(v as usize),
{
    let mut shared: Vec<VertexId> = Vec::with_capacity(topology.vertices.len());
    let mut v: usize = 0;
    while v < topology.vertices.len()
        invariant
            v <= topology.vertices@.len(),
            shared@.len() == v,
            forall|u: int| 0 <= u < v ==> #[trigger] shared@[u] == VertexId(u as usize),
        decreases topology.vertices@.len() - v,
    {
        shared.push(VertexId::new(v));
        v += 1;
    }
    shared
}

/// No value occurs twice.
pub open spec fn all_distinct<T>(items: Seq<T>) -> bool {
    forall|i: int, j: int| 0 <= i < j < items.len() ==> items[i] != items[j]
}

fn undirected_all_distinct(items: &Vec<UniqueUndirectedEdge>) -> (distinct: bool)
    ensures
        distinct == all_distinct(items@),
{
    let mut i: usize = 0;
    while i < items.len()
        invariant
            i <= items@.len(),
            forall|a: int, b: int| 0 <= a < b < items@.len() && a < i ==> items@[a] != items@[b],
        decreases items@.len() - i,
    {
        let mut j: usize = i + 1;
        while j < items.len()
            invariant
                i < j <= items@.len(),
                forall|a: int, b: int| 0 <= a < b < items@.len() && a < i ==> items@[a] != items@[b],
                forall|b: int| i < b < j ==> items@[i as int] != items@[b],
            decreases items@.len() - j,
        {
            if items[i] == items[j] {
                return false;
            }
            j += 1;
        }
        i += 1;
    }
    true
}

fn regular_all_distinct(items: &Vec<UniqueRegularEdge>) -> (distinct: bool)
    ensures
        distinct == all_distinct(items@),
{
    let mut i: usize = 0;
    while i < items.len()
        invariant
            i <= items@.len(),
            forall|a: int, b: int| 0 <= a < b < items@.len() && a < i ==> items@[a] != items@[b],
        decreases items@.len() - i,
    {
        let mut j: usize = i + 1;
        while j < items.len()
            invariant
                i < j <= items@.len(),
                forall|a: int, b: int| 0 <= a < b < items@.len() && a < i ==> items@[a] != items@[b],
                forall|b: int| i < b < j ==> items@[i as int] != items@[b],
            decreases items@.len() - j,
        {
            if items[i] == items[j] {
                return false;
            }
            j += 1;
        }
        i += 1;
    }
    true
}

impl HexFaceDebugCache {
    /// Recomputes every cached identity from the topology and the map.
    pub fn rebuild(&mut self, topology: &HexFaceTopology, layout: &MapLayout)
        requires
            tiles_have_neighbors(layout.tile_seq()),
        ensures
            final(self).edges@ == unique_undirected(topology.half_edges@),
            strictly_ascending(final(self).regular_edges@),
            forall|edge: UniqueRegularEdge|
                final(self).regular_edges@.contains(edge) <==> is_tile_regular_edge(layout.tile_seq(), edge),
            final(self).shared_vertices@.len() == topology.vertices@.len(),
            forall|v: int|
                0 <= v < final(self).shared_vertices@.len() ==> #[trigger] final(self).shared_vertices@[v]
                    == VertexId(v as usize),
    {
        self.edges = extract_unique_undirected_edges(topology);
        self.regular_edges = extract_unique_regular_edges(layout);
        self.shared_vertices = extract_shared_vertices(topology);
    }

    /// Empties every cached list.
    pub fn clear(&mut self)
        ensures
            final(self).edges@.len() == 0,
            final(self).regular_edges@.len() == 0,
            final(self).shared_vertices@.len() == 0,
    {
        self.edges.clear();
        self.regular_edges.clear();
        self.shared_vertices.clear();
    }

    /// Whether the cache holds one warped and one regular edge per logical
    /// edge of the topology, each once, and one marker per vertex.
    pub fn is_consistent(&self, topology: &HexFaceTopology) -> (consistent: bool)
        requires
            topology.stats.paired_edge_count + topology.stats.border_edge_count <= usize::MAX,
        ensures
            consistent == {
                let expected = topology.stats.paired_edge_count + topology.stats.border_edge_count;
                &&& self.edges@.len() == expected
                &&& self.regular_edges@.len() == expected
                &&& self.shared_vertices@.len() == topology.vertices@.len()
                &&& all_distinct(self.edges@)
                &&& all_distinct(self.regular_edges@)
            },
    {
        let expected_edges = topology.stats.paired_edge_count + topology.stats.border_edge_count;
        self.edges.len() == expected_edges && self.regular_edges.len() == expected_edges
            && self.edges.len() == self.regular_edges.len() && self.shared_vertices.len()
            == topology.vertices.len() && undirected_all_distinct(&self.edges) && regular_all_distinct(
            &self.regular_edges,
        )
    }
}

/// Which diagnostic overlays are shown.
#[derive(Debug, Clone, Copy, PartialEq, Eq, Structural)]
pub struct HexFaceDebugSettings {
    pub enabled: bool,
    pub show_regular_outlines: bool,
    pub show_warped_outlines: bool,
    pub show_shared_vertices: bool,
    pub show_half_edge_directions: bool,
}

impl Default for HexFaceDebugSettings {
    /// Diagnostics off; when switched on, both outlines show and the vertex
    /// and direction markers stay hidden.
    fn default() -> (settings: Self)
        ensures
            !settings.enabled,
            settings.show_regular_outlines,
            settings.show_warped_outlines,
            !settings.show_shared_vertices,
            !settings.show_half_edge_directions,
    {
        HexFaceDebugSettings {
            enabled: false,
            show_regular_outlines: true,
            show_warped_outlines: true,
            show_shared_vertices: false,
            show_half_edge_directions: false,
        }
    }
}

impl HexFaceDebugSettings {
    /// Flips the overlay switch, the shared-vertex markers and the half-edge
    /// direction markers for each of their shortcuts that was just pressed.
    pub fn apply_toggles(&mut self, toggle_enabled: bool, toggle_shared_vertices: bool, toggle_half_edge_directions: bool)
        ensures
            final(self).enabled == (old(self).enabled != toggle_enabled),
            final(self).show_shared_vertices == (old(self).show_shared_vertices != toggle_shared_vertices),
            final(self).show_half_edge_directions == (old(self).show_half_edge_directions
                != toggle_half_edge_directions),
            final(self).show_regular_outlines == old(self).show_regular_outlines,
            final(self).show_warped_outlines == old(self).show_warped_outlines,
    {
        if toggle_enabled {
            self.enabled = !self.enabled;
        }
        if toggle_shared_vertices {
            self.show_shared_vertices = !self.show_shared_vertices;
        }
        if toggle_half_edge_directions {
            self.show_half_edge_directions = !self.show_half_edge_directions;
        }
    }
}

/// Whether the game is being played or the map edited.
#[derive(Debug, Clone, Copy, PartialEq, Eq, Hash, Structural)]
pub enum GameState {
    Playing,
    Editing,
}

/// The phases of the map editor, in the order in which the editor walks them.
#[derive(Debug, Clone, Copy, PartialEq, Eq, Hash, Structural)]
pub enum EditorPhase {
    Shape,
    Landscape,
    Sediments,
    Balance,
    Height3D,
}

impl EditorPhase {
    /// The phase's place in the editor's order, from zero.
    pub open spec fn rank(self) -> int {
        match self {
            EditorPhase::Shape => 0,
            EditorPhase::Landscape => 1,
            EditorPhase::Sediments => 2,
            EditorPhase::Balance => 3,
            EditorPhase::Height3D => 4,
        }
    }
}

/// The topology overlay shows only while the map is edited, when it is
/// switched on and the editor is at the balance phase or an earlier (flat)
/// one; it stays hidden while playing.
pub fn debug_overlay_visible(state: GameState, phase: EditorPhase, settings: &HexFaceDebugSettings) -> (visible: bool)
    ensures
        visible == (state == GameState::Editing && settings.enabled && phase.rank() <= EditorPhase::Balance.rank()),
{
    let early = match phase {
        EditorPhase::Height3D => false,
        _ => true,
    };
    state == GameState::Editing && settings.enabled && early
}

/// Applies the diagnostics shortcuts that were just pressed, only while the
/// map is edited; while playing the settings stay as they are.
pub fn apply_debug_shortcuts(
    settings: &mut HexFaceDebugSettings,
    state: GameState,
    toggle_enabled: bool,
    toggle_shared_vertices: bool,
    toggle_half_edge_directions: bool,
)
    ensures
        state == GameState::Playing ==> *final(settings) == *old(settings),
        state == GameState::Editing ==> {
            &&& final(settings).enabled == (old(settings).enabled != toggle_enabled)
            &&& final(settings).show_shared_vertices == (old(settings).show_shared_vertices != toggle_shared_vertices)
            &&& final(settings).show_half_edge_directions == (old(settings).show_half_edge_directions
                != toggle_half_edge_directions)
            &&& final(settings).show_regular_outlines == old(settings).show_regular_outlines
            &&& final(settings).show_warped_outlines == old(settings).show_warped_outlines
        },
{
    if state == GameState::Editing {
        settings.apply_toggles(toggle_enabled, toggle_shared_vertices, toggle_half_edge_directions);
    }
}

} // verus!
