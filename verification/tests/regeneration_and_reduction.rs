//! Regeneration bookkeeping and the displacement back-off plan.
use face_topology::hex_coord::HexCoord;
use face_topology::map_layout::MapLayout;
use face_topology::profiles::HexDeformationProfile;
use face_topology::reduction::{failed_corner_keys, next_reduction, ReductionStep, REDUCTION_STEPS};
use face_topology::regeneration::{HexFaceTopologyGenerationState, LogicalMapInputs};
use face_topology::topology::{assemble_topology, collect_corner_keys, HexFaceTopology};
use face_topology::types::PositionBits;
use face_topology::validation::validate_complete_topology;

fn two_hex() -> MapLayout {
    let mut map = MapLayout::new(4, 3);
    map.insert_tile(HexCoord::new(1, 0));
    map.insert_tile(HexCoord::new(0, 0));
    map
}

#[test]
fn inputs_list_tiles_in_ascending_order() {
    let inputs = LogicalMapInputs::from_map(&two_hex(), 42, HexDeformationProfile::Organic);
    assert_eq!(inputs.width, 4);
    assert_eq!(inputs.height, 3);
    assert_eq!(inputs.seed, 42);
    assert_eq!(inputs.tiles, vec![HexCoord::new(0, 0), HexCoord::new(1, 0)]);
    assert_eq!(inputs.profile, HexDeformationProfile::Organic);
    assert!(inputs.matches(&inputs.duplicate()));
    let other_seed = LogicalMapInputs::from_map(&two_hex(), 43, HexDeformationProfile::Organic);
    assert!(!inputs.matches(&other_seed));
    let mut bigger = two_hex();
    bigger.insert_tile(HexCoord::new(2, 0));
    assert!(!inputs.matches(&LogicalMapInputs::from_map(&bigger, 42, HexDeformationProfile::Organic)));
}

#[test]
fn same_inputs_do_not_regenerate_and_seed_change_does() {
    let mut state = HexFaceTopologyGenerationState::default();
    assert!(state.note_events(0, 0, false), "nothing generated yet");
    let inputs = LogicalMapInputs::from_map(&two_hex(), 42, HexDeformationProfile::Subtle);
    assert!(state.begin_generation(&inputs));
    state.record_success(&inputs);
    assert_eq!(state.generation_count, 1);
    assert!(!state.note_events(0, 0, false));
    assert!(state.note_events(2, 1, false));
    assert_eq!(state.generation_events_consumed, 2);
    assert_eq!(state.rebuild_events_consumed, 1);
    assert!(!state.begin_generation(&inputs), "same inputs must not regenerate");
    let reseeded = LogicalMapInputs::from_map(&two_hex(), 7, HexDeformationProfile::Subtle);
    assert!(state.begin_generation(&reseeded));
    state.record_success(&reseeded);
    assert_eq!(state.generation_count, 2);
    assert_eq!(state.failure_count, 0);
}

#[test]
fn failed_generation_clears_only_foreign_topologies() {
    let mut state = HexFaceTopologyGenerationState::default();
    let inputs = LogicalMapInputs::from_map(&two_hex(), 42, HexDeformationProfile::Subtle);
    assert!(state.begin_generation(&inputs));
    assert!(state.record_failure(&inputs), "nothing stored: clear");
    assert_eq!(state.failure_count, 1);
    state.record_success(&inputs);
    assert!(!state.record_failure(&inputs), "stored topology is from these inputs");
    let other = LogicalMapInputs::from_map(&two_hex(), 1, HexDeformationProfile::PagoniaLike);
    assert!(state.record_failure(&other));
    assert_eq!(state.failure_count, 3);
    assert_eq!(state.generation_count, 1);
}

#[test]
fn back_off_steps_through_eighths_then_falls_back() {
    assert_eq!(REDUCTION_STEPS, 9);
    assert_eq!(next_reduction(0, 0), ReductionStep::Done);
    assert_eq!(next_reduction(0, 6), ReductionStep::Reduce { round: 1, kept_eighths: 7 });
    assert_eq!(next_reduction(3, 1), ReductionStep::Reduce { round: 4, kept_eighths: 4 });
    assert_eq!(next_reduction(7, 12), ReductionStep::Reduce { round: 8, kept_eighths: 0 });
    assert_eq!(next_reduction(8, 12), ReductionStep::FallBack);
    assert_eq!(next_reduction(8, 0), ReductionStep::Done);
}

#[test]
fn failed_faces_give_their_corner_keys_once() {
    let map = two_hex();
    assert!(failed_corner_keys(&map, &vec![false, false]).is_empty());
    let first = failed_corner_keys(&map, &vec![true, false]);
    assert_eq!(first.len(), 6);
    let both = failed_corner_keys(&map, &vec![true, true]);
    assert_eq!(both, collect_corner_keys(&map));
    assert_eq!(both.len(), 10);
    assert!(both.windows(2).all(|pair| pair[0] != pair[1]));
}

/// One regeneration pass as the engine system runs it: count the events,
/// decide whether to generate, generate from the map's own corner keys, and
/// record the outcome, clearing the stored topology when told to.
fn pass(
    state: &mut HexFaceTopologyGenerationState,
    stored: &mut HexFaceTopology,
    map: &MapLayout,
    seed: u32,
    events: (u64, u64),
    input_may_have_changed: bool,
) {
    if !state.note_events(events.0, events.1, input_may_have_changed) {
        return;
    }
    let inputs = LogicalMapInputs::from_map(map, seed, HexDeformationProfile::Subtle);
    if !state.begin_generation(&inputs) {
        return;
    }
    let keys = collect_corner_keys(map);
    let positions: Vec<PositionBits> =
        keys.iter().enumerate().map(|(i, _)| PositionBits { x: seed ^ i as u32, y: i as u32 }).collect();
    match assemble_topology(map, &keys, &positions) {
        Ok(topology) => {
            *stored = topology;
            state.record_success(&inputs);
        }
        Err(_) => {
            if state.record_failure(&inputs) {
                *stored = HexFaceTopology::default();
            }
        }
    }
}

fn map_with_tiles(count: i32) -> MapLayout {
    let mut map = MapLayout::new(count as u32, 1);
    for q in 0..count {
        map.insert_tile(HexCoord::new(q, 0));
    }
    map
}

#[test]
fn valid_map_populates_and_validates_stored_topology() {
    let map = map_with_tiles(2);
    let mut state = HexFaceTopologyGenerationState::default();
    let mut stored = HexFaceTopology::default();
    pass(&mut state, &mut stored, &map, 42, (0, 0), true);
    validate_complete_topology(&stored, &map, &vec![None; stored.faces.len()]).expect("stored topology must validate");
    assert_eq!(stored.faces.len(), 2);
}

#[test]
fn content_change_does_not_regenerate_but_membership_change_does() {
    let mut map = map_with_tiles(2);
    let mut state = HexFaceTopologyGenerationState::default();
    let mut stored = HexFaceTopology::default();
    pass(&mut state, &mut stored, &map, 42, (0, 0), true);
    // A tile's content changed: the map is marked changed, its logical inputs are not.
    pass(&mut state, &mut stored, &map, 42, (0, 0), true);
    assert_eq!(state.generation_count, 1);
    map.insert_tile(HexCoord::new(2, 0));
    pass(&mut state, &mut stored, &map, 42, (0, 0), true);
    assert_eq!(state.generation_count, 2);
}

#[test]
fn failed_generation_clears_once_and_does_not_store_partial_data() {
    let map = MapLayout::new(0, 0);
    let mut state = HexFaceTopologyGenerationState::default();
    let mut stored = HexFaceTopology::default();
    pass(&mut state, &mut stored, &map, 42, (0, 0), true);
    assert!(stored.faces.is_empty());
    assert_eq!(state.failure_count, 1);
    pass(&mut state, &mut stored, &map, 42, (0, 0), false);
    assert_eq!(state.failure_count, 1);
}

#[test]
fn event_burst_drains_both_readers_and_regenerates_once() {
    let map = map_with_tiles(2);
    let mut state = HexFaceTopologyGenerationState::default();
    let mut stored = HexFaceTopology::default();
    pass(&mut state, &mut stored, &map, 42, (3, 4), true);
    assert_eq!(state.generation_events_consumed, 3);
    assert_eq!(state.rebuild_events_consumed, 4);
    assert_eq!(state.generation_count, 1);
    pass(&mut state, &mut stored, &map, 42, (0, 0), false);
    assert_eq!(state.generation_events_consumed, 3);
    assert_eq!(state.rebuild_events_consumed, 4);
    assert_eq!(state.generation_count, 1);
}
