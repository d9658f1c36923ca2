//! When the authoritative topology is regenerated, and what a failed
//! generation leaves behind.
//!
//! A pass runs only when an event asked for it or an input may have changed;
//! it generates only when the logical inputs differ from the last ones seen;
//! and a failure clears the stored topology unless the stored one was built
//! from exactly these inputs.
use vstd::prelude::*;

use crate::hex_coord::HexCoord;
use crate::map_layout::MapLayout;
use crate::profiles::HexDeformationProfile;

verus! {

/// The logical inputs of one topology generation: map dimensions, seed,
/// tile cells in ascending `(q, r)` order, and deformation profile.
#[derive(Debug, Clone)]
pub struct LogicalMapInputs {
    pub width: u32,
    pub height: u32,
    pub seed: u32,
    pub tiles: Vec<HexCoord>,
    pub profile: HexDeformationProfile,
}

impl LogicalMapInputs {
    /// Both describe the same generation.
    pub open spec fn same_as(self, other: LogicalMapInputs) -> bool {
        &&& self.width == other.width
        &&& self.height == other.height
        &&& self.seed == other.seed
        &&& self.tiles@ == other.tiles@
        &&& self.profile == other.profile
    }

    /// The inputs of generating `layout` with `seed` and `profile`.
    pub fn from_map(layout: &MapLayout, seed: u32, profile: HexDeformationProfile) -> (inputs: Self)
        ensures
            inputs.width == layout.width_spec(),
            inputs.height == layout.height_spec(),
            inputs.seed == seed,
            inputs.tiles@ == layout.tile_seq(),
            inputs.profile == profile,
    {
        LogicalMapInputs {
            width: layout.width(),
            height: layout.height(),
            seed,
            tiles: copy_tiles(layout.tiles()),
            profile,
        }
    }

    /// Whether both describe the same generation.
    pub fn matches(&self, other: &Self) -> (same: bool)
        ensures
            same == self.same_as(*other),
    {
        if self.width != other.width || self.height != other.height || self.seed != other.seed
            || self.profile != other.profile || self.tiles.len() != other.tiles.len() {
            return false;
        }
        let mut i: usize = 0;
        while i < self.tiles.len()
            invariant
                i <= self.tiles@.len(),
                self.tiles@.len() == other.tiles@.len(),
                forall|j: int| 0 <= j < i ==> self.tiles@[j] == other.tiles@[j],
            decreases self.tiles@.len() - i,
        {
            if self.tiles[i] != other.tiles[i] {
                return false;
            }
            i += 1;
        }
        assert(self.tiles@ =~= other.tiles@);
        true
    }

    /// A copy describing the same generation.
    pub fn duplicate(&self) -> (copy: Self)
        ensures
            copy.same_as(*self),
    {
        LogicalMapInputs {
            width: self.width,
            height: self.height,
            seed: self.seed,
            tiles: copy_tiles(&self.tiles),
            profile: self.profile,
        }
    }
}

fn copy_tiles(tiles: &Vec<HexCoord>) -> (copy: Vec<HexCoord>)
    ensures
        copy@ == tiles@,
{
    let mut copy: Vec<HexCoord> = Vec::with_capacity(tiles.len());
    let mut i: usize = 0;
    while i < tiles.len()
        invariant
            i <= tiles@.len(),
            copy@ == tiles@.take(i as int),
        decreases tiles@.len() - i,
    {
        copy.push(tiles[i]);
        i += 1;
        assert(copy@ =~= tiles@.take(i as int));
    }
    assert(tiles@.take(tiles@.len() as int) =~= tiles@);
    copy
}

/// `inputs` is present and describes the same generation as `other`.
pub open spec fn holds_same(inputs: Option<LogicalMapInputs>, other: LogicalMapInputs) -> bool {
    match inputs {
        Some(held) => held.same_as(other),
        None => false,
    }
}

/// The bookkeeping of topology regeneration.
#[derive(Debug)]
pub struct HexFaceTopologyGenerationState {
    pub last_inputs: Option<LogicalMapInputs>,
    pub last_successful_inputs: Option<LogicalMapInputs>,
    pub generation_count: u64,
    pub failure_count: u64,
    pub generation_events_consumed: u64,
    pub rebuild_events_consumed: u64,
}

impl Default for HexFaceTopologyGenerationState {
    fn default() -> (state: Self)
        ensures
            state.last_inputs is None,
            state.last_successful_inputs is None,
            state.generation_count == 0,
            state.failure_count == 0,
            state.generation_events_consumed == 0,
            state.rebuild_events_consumed == 0,
    {
        HexFaceTopologyGenerationState {
            last_inputs: None,
            last_successful_inputs: None,
            generation_count: 0,
            failure_count: 0,
            generation_events_consumed: 0,
            rebuild_events_consumed: 0,
        }
    }
}

impl HexFaceTopologyGenerationState {
    /// Counts the consumed generation and rebuild events; a pass goes on
    /// when an event asked for it, an input may have changed, or nothing was
    /// generated yet.
    pub fn note_events(&mut self, generation_events: u64, rebuild_events: u64, input_may_have_changed: bool) -> (proceed: bool)
        requires
            old(self).generation_events_consumed + generation_events <= u64::MAX,
            old(self).rebuild_events_consumed + rebuild_events <= u64::MAX,
        ensures
            final(self).generation_events_consumed == old(self).generation_events_consumed + generation_events,
            final(self).rebuild_events_consumed == old(self).rebuild_events_consumed + rebuild_events,
            final(self).last_inputs == old(self).last_inputs,
            final(self).last_successful_inputs == old(self).last_successful_inputs,
            final(self).generation_count == old(self).generation_count,
            final(self).failure_count == old(self).failure_count,
            proceed == (generation_events > 0 || rebuild_events > 0 || input_may_have_changed
                || old(self).last_inputs is None),
    {
        self.generation_events_consumed = self.generation_events_consumed + generation_events;
        self.rebuild_events_consumed = self.rebuild_events_consumed + rebuild_events;
        generation_events > 0 || rebuild_events > 0 || input_may_have_changed || self.last_inputs.is_none()
    }

    /// Whether `inputs` call for a generation: not when they are the last
    /// inputs seen. When they do, they become the last inputs.
    pub fn begin_generation(&mut self, inputs: &LogicalMapInputs) -> (generate: bool)
        ensures
            generate == !holds_same(old(self).last_inputs, *inputs),
            generate ==> holds_same(final(self).last_inputs, *inputs),
            !generate ==> final(self).last_inputs == old(self).last_inputs,
            final(self).last_successful_inputs == old(self).last_successful_inputs,
            final(self).generation_count == old(self).generation_count,
            final(self).failure_count == old(self).failure_count,
            final(self).generation_events_consumed == old(self).generation_events_consumed,
            final(self).rebuild_events_consumed == old(self).rebuild_events_consumed,
    {
        let seen = match &self.last_inputs {
            Some(last) => last.matches(inputs),
            None => false,
        };
        if seen {
            return false;
        }
        self.last_inputs = Some(inputs.duplicate());
        true
    }

    /// Records a generation from `inputs` that produced a consistent
    /// topology, which is now the stored one.
    pub fn record_success(&mut self, inputs: &LogicalMapInputs)
        requires
            old(self).generation_count < u64::MAX,
        ensures
            holds_same(final(self).last_successful_inputs, *inputs),
            final(self).generation_count == old(self).generation_count + 1,
            final(self).last_inputs == old(self).last_inputs,
            final(self).failure_count == old(self).failure_count,
            final(self).generation_events_consumed == old(self).generation_events_consumed,
            final(self).rebuild_events_consumed == old(self).rebuild_events_consumed,
    {
        self.last_successful_inputs = Some(inputs.duplicate());
        self.generation_count = self.generation_count + 1;
    }

    /// Records a failed generation from `inputs`; the stored topology must be
    /// cleared unless it was built from these same inputs.
    pub fn record_failure(&mut self, inputs: &LogicalMapInputs) -> (clear_stored: bool)
        requires
            old(self).failure_count < u64::MAX,
        ensures
            clear_stored == !holds_same(old(self).last_successful_inputs, *inputs),
            final(self).failure_count == old(self).failure_count + 1,
            final(self).last_inputs == old(self).last_inputs,
            final(self).last_successful_inputs == old(self).last_successful_inputs,
            final(self).generation_count == old(self).generation_count,
            final(self).generation_events_consumed == old(self).generation_events_consumed,
            final(self).rebuild_events_consumed == old(self).rebuild_events_consumed,
    {
        self.failure_count = self.failure_count + 1;
        match &self.last_successful_inputs {
            Some(stored) => !stored.matches(inputs),
            None => true,
        }
    }
}

/// Regeneration does not repeat itself: inputs that describe the same
/// generation as inputs already held are held as well, so after a pass began
/// a generation from some inputs, a later pass with the same inputs finds
/// them held and does not generate again.
pub proof fn law_same_inputs_do_not_regenerate(
    held: Option<LogicalMapInputs>,
    first: LogicalMapInputs,
    again: LogicalMapInputs,
)
    requires
        holds_same(held, first),
        again.same_as(first),
    ensures
        holds_same(held, again),
{
}

} // verus!
