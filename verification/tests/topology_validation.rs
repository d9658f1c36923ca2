//! Complete validation of assembled topologies, and targeted corruptions.
use face_topology::hex_coord::HexCoord;
use face_topology::map_layout::MapLayout;
use face_topology::topology::{
    assemble_topology, collect_corner_keys, HexFaceTopology, HexFaceTopologyError, TopologyViolation,
};
use face_topology::types::{FaceId, HalfEdgeId, PositionBits, VertexId};
use face_topology::validation::{validate_border_edges, validate_complete_topology, validate_neighbor_twins};

fn layout_of(coords: &[HexCoord]) -> MapLayout {
    let mut map = MapLayout::new(0, 0);
    for &coord in coords {
        map.insert_tile(coord);
    }
    map
}

fn map_40x40() -> MapLayout {
    let mut map = MapLayout::new(40, 40);
    for r in 0..40i32 {
        let offset = r >> 1;
        for q in -offset..(40 - offset) {
            map.insert_tile(HexCoord::new(q, r));
        }
    }
    map
}

fn assembled(map: &MapLayout) -> HexFaceTopology {
    let keys = collect_corner_keys(map);
    let positions = vec![PositionBits { x: 0, y: 0 }; keys.len()];
    assemble_topology(map, &keys, &positions).expect("assembled")
}

fn validate(topology: &HexFaceTopology, map: &MapLayout) -> Result<(), HexFaceTopologyError> {
    let geometry = vec![None; topology.faces.len()];
    validate_complete_topology(topology, map, &geometry)
}

fn two_hex() -> (MapLayout, HexFaceTopology) {
    let map = layout_of(&[HexCoord::new(0, 0), HexCoord::new(1, 0)]);
    let topology = assembled(&map);
    (map, topology)
}

fn internal_pair(topology: &HexFaceTopology) -> (usize, usize) {
    let index = topology.half_edges.iter().position(|edge| edge.twin.is_some()).expect("internal edge");
    (index, topology.half_edges[index].twin.expect("twin").index())
}

#[test]
fn assembled_topologies_pass_complete_validation() {
    let center = HexCoord::new(0, 0);
    let mut cluster = vec![center];
    cluster.extend(center.neighbors());
    for map in [
        map_40x40(),
        layout_of(&[HexCoord::new(0, 0)]),
        layout_of(&[HexCoord::new(0, 0), HexCoord::new(1, 0)]),
        layout_of(&cluster),
        layout_of(&[HexCoord::new(0, 0), HexCoord::new(1, 0), HexCoord::new(2, 0), HexCoord::new(0, 1), HexCoord::new(0, 2)]),
        layout_of(&[HexCoord::new(0, 0), HexCoord::new(1, 1), HexCoord::new(2, 2), HexCoord::new(3, 3)]),
    ] {
        let topology = assembled(&map);
        assert_eq!(validate(&topology, &map), Ok(()));
        assert_eq!(validate_neighbor_twins(&topology, &map), Ok(()));
        assert_eq!(validate_border_edges(&topology, &map), Ok(()));
    }
}

#[test]
fn face_count_mismatch_is_reported_first() {
    let (_, topology) = two_hex();
    let bigger = layout_of(&[HexCoord::new(0, 0), HexCoord::new(1, 0), HexCoord::new(2, 0)]);
    assert_eq!(
        validate(&topology, &bigger),
        Err(HexFaceTopologyError::ValidationFailed(TopologyViolation::FaceCountMismatch { faces: 2, tiles: 3 }))
    );
}

#[test]
fn geometric_fault_is_passed_through() {
    let (map, topology) = two_hex();
    let mut geometry = vec![None; topology.faces.len()];
    geometry[1] = Some(HexFaceTopologyError::NonConvexFace(FaceId::new(1)));
    assert_eq!(
        validate_complete_topology(&topology, &map, &geometry),
        Err(HexFaceTopologyError::NonConvexFace(FaceId::new(1)))
    );
}

fn isolated_pair() -> (MapLayout, HexFaceTopology) {
    let map = layout_of(&[HexCoord::new(0, 0), HexCoord::new(5, 0)]);
    let topology = assembled(&map);
    (map, topology)
}

fn violation(result: Result<(), HexFaceTopologyError>) -> TopologyViolation {
    match result {
        Err(HexFaceTopologyError::ValidationFailed(violation)) => violation,
        other => panic!("corrupted topology unexpectedly gave {other:?}"),
    }
}

#[test]
fn rejects_one_missing_internal_twin() {
    let (map, mut topology) = two_hex();
    let (edge_a, _) = internal_pair(&topology);
    topology.half_edges[edge_a].twin = None;
    assert!(matches!(violation(validate(&topology, &map)), TopologyViolation::NeighborEdgesMissOneTwin { .. }));
}

#[test]
fn rejects_asymmetric_twin_links() {
    let (map, mut topology) = two_hex();
    let (_, edge_b) = internal_pair(&topology);
    topology.half_edges[edge_b].twin = Some(HalfEdgeId::new(edge_b));
    assert!(matches!(violation(validate(&topology, &map)), TopologyViolation::NeighborEdgesAsymmetricTwins { .. }));
}

#[test]
fn rejects_same_direction_twin_endpoints() {
    let (map, mut topology) = two_hex();
    let (edge_a, edge_b) = internal_pair(&topology);
    let origin = topology.half_edges[edge_a].origin;
    let destination = topology.half_edges[edge_a].destination;
    topology.half_edges[edge_b].origin = origin;
    topology.half_edges[edge_b].destination = destination;
    assert!(matches!(violation(validate(&topology, &map)), TopologyViolation::NeighborEdgesNotReversed { .. }));
}

#[test]
fn rejects_logical_neighbors_with_extra_shared_vertex() {
    let (map, mut topology) = two_hex();
    let face_a = topology.faces[0].vertices;
    let Some(third_vertex) = face_a.into_iter().find(|vertex| !topology.faces[1].vertices.contains(vertex)) else {
        panic!("two faces must have a non-shared vertex");
    };
    let face_b = &mut topology.faces[1];
    let Some(replace_index) = face_b.vertices.iter().position(|vertex| !face_a.contains(vertex)) else {
        panic!("two faces must have a non-shared vertex");
    };
    face_b.vertices[replace_index] = third_vertex;
    assert_eq!(
        violation(validate(&topology, &map)),
        TopologyViolation::NeighborSharedVertices { face_a: FaceId::new(0), face_b: FaceId::new(1), shared: 3 }
    );
}

#[test]
fn rejects_logical_neighbors_with_two_shared_half_edges() {
    let (map, mut topology) = two_hex();
    let (_, edge_b) = internal_pair(&topology);
    let shared_origin = topology.half_edges[edge_b].origin;
    let shared_destination = topology.half_edges[edge_b].destination;
    let face_b = topology.half_edges[edge_b].incident_face;
    let Some(extra_edge_index) = topology
        .half_edges
        .iter()
        .enumerate()
        .find(|(index, edge)| edge.incident_face == face_b && *index != edge_b)
        .map(|(index, _)| index)
    else {
        panic!("two-hex face must have another edge");
    };
    topology.half_edges[extra_edge_index].origin = shared_origin;
    topology.half_edges[extra_edge_index].destination = shared_destination;
    assert!(matches!(violation(validate(&topology, &map)), TopologyViolation::NeighborSharedHalfEdges { .. }));
}

#[test]
fn rejects_non_neighboring_faces_sharing_an_edge() {
    let (map, mut topology) = isolated_pair();
    let first_face = topology.faces[0].vertices;
    let second_face = &mut topology.faces[1];
    second_face.vertices[0] = first_face[0];
    second_face.vertices[1] = first_face[1];
    assert_eq!(
        violation(validate(&topology, &map)),
        TopologyViolation::NonNeighborFacesShareEdge { first_face: FaceId::new(0), second_face: FaceId::new(1) }
    );
}

#[test]
fn rejects_internal_edge_marked_as_boundary() {
    let (map, mut topology) = two_hex();
    let (edge_a, edge_b) = internal_pair(&topology);
    topology.half_edges[edge_a].twin = None;
    topology.half_edges[edge_b].twin = None;
    assert!(matches!(violation(validate(&topology, &map)), TopologyViolation::InternalEdgePairIsBoundary { .. }));
    assert_eq!(
        validate_border_edges(&topology, &map),
        Err(HexFaceTopologyError::ValidationFailed(TopologyViolation::InternalEdgeMissingTwin(edge_a.min(edge_b))))
    );
}

#[test]
fn rejects_border_edge_linked_to_unrelated_face() {
    let (map, mut topology) = isolated_pair();
    let Some(edge_a) = topology.half_edges.iter().position(|edge| edge.incident_face == FaceId::new(0) && edge.twin.is_none())
    else {
        panic!("first isolated face must have a border edge");
    };
    let Some(edge_b) = topology.half_edges.iter().position(|edge| edge.incident_face == FaceId::new(1) && edge.twin.is_none())
    else {
        panic!("second isolated face must have a border edge");
    };
    topology.half_edges[edge_a].twin = Some(HalfEdgeId::new(edge_b));
    assert_eq!(
        violation(validate(&topology, &map)),
        TopologyViolation::TwinConnectsNonNeighbors { edge_id: HalfEdgeId::new(edge_a), twin_id: HalfEdgeId::new(edge_b) }
    );
}

#[test]
fn neighbor_twins_report_a_missing_pair_link() {
    let (map, mut topology) = two_hex();
    let (edge_a, edge_b) = internal_pair(&topology);
    topology.half_edges[edge_a].twin = None;
    topology.half_edges[edge_b].twin = None;
    assert!(matches!(
        validate_neighbor_twins(&topology, &map),
        Err(HexFaceTopologyError::ValidationFailed(TopologyViolation::NoSymmetricTwin { .. }))
    ));
}

#[test]
fn out_of_range_vertex_reference_is_reported() {
    let (map, mut topology) = two_hex();
    let count = topology.vertices.len();
    topology.half_edges[3].origin = VertexId::new(count);
    assert_eq!(
        validate(&topology, &map),
        Err(HexFaceTopologyError::ValidationFailed(TopologyViolation::EdgeReferencesInvalidVertices(3)))
    );
}

#[test]
fn inconsistent_statistics_are_reported() {
    let (map, mut topology) = two_hex();
    topology.stats.border_edge_count = 9;
    assert_eq!(
        validate(&topology, &map),
        Err(HexFaceTopologyError::ValidationFailed(TopologyViolation::EdgeStatisticsInconsistent {
            paired: 1,
            border: 9,
            half_edges: 12,
        }))
    );
}

#[test]
fn broken_next_cycle_is_reported() {
    let (map, mut topology) = two_hex();
    let boundary = topology.faces[0].boundary.index();
    topology.half_edges[boundary].next = HalfEdgeId::new(boundary);
    assert!(validate(&topology, &map).is_err());
}

#[test]
fn unmapped_face_breaks_the_bijection() {
    let (map, mut topology) = two_hex();
    topology.hex_to_face.clear();
    assert_eq!(
        validate(&topology, &map),
        Err(HexFaceTopologyError::ValidationFailed(TopologyViolation::MappingCountMismatch { mappings: 0, tiles: 2 }))
    );
}
