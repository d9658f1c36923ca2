//! Canonical stable fingerprints for the diagnostic face topology.
//!
//! Fingerprints are computed with an explicit, fixed FNV-1a 64-bit hash over
//! big-endian serialized fields. No `usize`-width dependence, no hash-map
//! iteration order, and no diagnostic floating-point metrics are hashed.
use vstd::prelude::*;

use crate::map_layout::MapLayout;
use crate::topology::HexFaceTopology;
use crate::types::{HalfEdge, HexFace, MapVertex};

verus! {

/// FNV-1a 64-bit offset basis.
pub const FNV1A64_OFFSET: u64 = 0xcbf2_9ce4_8422_2325;

/// FNV-1a 64-bit prime.
pub const FNV1A64_PRIME: u64 = 0x0000_0100_0000_01b3;

/// One FNV-1a step: xor the byte in, then multiply by the prime modulo 2^64.
pub open spec fn fnv_step(hash: u64, byte: u8) -> u64 {
    (hash ^ (byte as u64)).wrapping_mul(FNV1A64_PRIME)
}

/// FNV-1a 64-bit hash of a byte sequence.
pub open spec fn fnv1a64_spec(bytes: Seq<u8>) -> u64
    decreases bytes.len(),
{
    if bytes.len() == 0 {
        FNV1A64_OFFSET
    } else {
        fnv_step(fnv1a64_spec(bytes.drop_last()), bytes.last())
    }
}

/// Computes the FNV-1a 64-bit hash of a byte slice (stable across platforms).
pub fn fnv1a64(bytes: &[u8]) -> (hash: u64)
    ensures
        hash == fnv1a64_spec(bytes@),
{
    let mut hash = FNV1A64_OFFSET;
    let mut index: usize = 0;
    while index < bytes.len()
        invariant
            index <= bytes@.len(),
            hash == fnv1a64_spec(bytes@.take(index as int)),
        decreases bytes@.len() - index,
    {
        assert(bytes@.take(index as int + 1).drop_last() =~= bytes@.take(index as int));
        hash = (hash ^ (bytes[index] as u64)).wrapping_mul(FNV1A64_PRIME);
        index += 1;
    }
    assert(bytes@.take(index as int) =~= bytes@);
    hash
}

/// The eight big-endian bytes of a `u64`.
pub open spec fn be_bytes(value: u64) -> Seq<u8> {
    seq![
        (value >> 56u64) as u8,
        (value >> 48u64) as u8,
        (value >> 40u64) as u8,
        (value >> 32u64) as u8,
        (value >> 24u64) as u8,
        (value >> 16u64) as u8,
        (value >> 8u64) as u8,
        value as u8,
    ]
}

/// Byte buffer that serializes numeric fields big-endian.
struct FingerprintWriter {
    bytes: Vec<u8>,
}

impl FingerprintWriter {
    spec fn written(&self) -> Seq<u8> {
        self.bytes@
    }

    fn new(capacity: usize) -> (writer: Self)
        ensures
            writer.written() == Seq::<u8>::empty(),
    {
        Self { bytes: Vec::with_capacity(capacity) }
    }

    fn push_u64(&mut self, value: u64)
        ensures
            final(self).written() == old(self).written() + be_bytes(value),
    {
        self.bytes.push((value >> 56u64) as u8);
        self.bytes.push((value >> 48u64) as u8);
        self.bytes.push((value >> 40u64) as u8);
        self.bytes.push((value >> 32u64) as u8);
        self.bytes.push((value >> 24u64) as u8);
        self.bytes.push((value >> 16u64) as u8);
        self.bytes.push((value >> 8u64) as u8);
        self.bytes.push(value as u8);
        assert(self.written() =~= old(self).written() + be_bytes(value));
    }

    fn push_u32(&mut self, value: u32)
        ensures
            final(self).written() == old(self).written() + be_bytes(value as u64),
    {
        self.push_u64(value as u64);
    }

    fn push_usize(&mut self, value: usize)
        ensures
            final(self).written() == old(self).written() + be_bytes(value as u64),
    {
        self.push_u64(value as u64);
    }

    fn push_i64(&mut self, value: i64)
        ensures
            final(self).written() == old(self).written() + be_bytes(value as u64),
    {
        self.push_u64(value as u64);
    }

    fn finish(self) -> (hash: u64)
        ensures
            hash == fnv1a64_spec(self.written()),
    {
        fnv1a64(self.bytes.as_slice())
    }
}

/// Geometry and connectivity fingerprints for one canonical fixture.
#[derive(Debug, Clone, Copy, PartialEq, Eq, Structural)]
pub struct TopologyFingerprints {
    /// `VertexId` plus X/Y position bits, in ascending `VertexId` order.
    pub geometry: u64,
    /// `FaceId` cycles, `HalfEdge` endpoints, twins, and ownership.
    pub connectivity: u64,
}

/// Map width, map height and world seed, each as one big-endian word.
pub open spec fn header_bytes(width: u32, height: u32, seed: u32) -> Seq<u8> {
    be_bytes(width as u64) + be_bytes(height as u64) + be_bytes(seed as u64)
}

/// One vertex record: its id and the bits of both position components.
pub open spec fn vertex_record(id: int, vertex: MapVertex) -> Seq<u8> {
    be_bytes(id as u64) + be_bytes(vertex.position.x as u64) + be_bytes(vertex.position.y as u64)
}

/// The vertex records of a sequence of vertices, in ascending id order.
pub open spec fn vertex_records(vertices: Seq<MapVertex>) -> Seq<u8>
    decreases vertices.len(),
{
    if vertices.len() == 0 {
        Seq::empty()
    } else {
        vertex_records(vertices.drop_last()) + vertex_record(
            vertices.len() - 1,
            vertices.last(),
        )
    }
}

/// The six boundary vertex ids of a face, in boundary order.
pub open spec fn face_vertex_bytes(face: HexFace) -> Seq<u8> {
    be_bytes(face.vertices[0].0 as u64) + be_bytes(face.vertices[1].0 as u64) + be_bytes(
        face.vertices[2].0 as u64,
    ) + be_bytes(face.vertices[3].0 as u64) + be_bytes(face.vertices[4].0 as u64) + be_bytes(
        face.vertices[5].0 as u64,
    )
}

/// One face record: its id, its cell as two signed words and its vertices.
pub open spec fn face_record(id: int, face: HexFace) -> Seq<u8> {
    be_bytes(id as u64) + be_bytes((face.hex.q as i64) as u64) + be_bytes(
        (face.hex.r as i64) as u64,
    ) + face_vertex_bytes(face)
}

/// The face records of a sequence of faces, in ascending id order.
pub open spec fn face_records(faces: Seq<HexFace>) -> Seq<u8>
    decreases faces.len(),
{
    if faces.len() == 0 {
        Seq::empty()
    } else {
        face_records(faces.drop_last()) + face_record(faces.len() - 1, faces.last())
    }
}

/// One half-edge record: origin, destination, owning face, then `1` and the
/// twin id, or `0` for a border edge.
pub open spec fn edge_record(edge: HalfEdge) -> Seq<u8> {
    be_bytes(edge.origin.0 as u64) + be_bytes(edge.destination.0 as u64) + be_bytes(
        edge.incident_face.0 as u64,
    ) + match edge.twin {
        Some(twin) => be_bytes(1) + be_bytes(twin.0 as u64),
        None => be_bytes(0),
    }
}

/// The half-edge records of a sequence of half-edges, in ascending id order.
pub open spec fn edge_records(edges: Seq<HalfEdge>) -> Seq<u8>
    decreases edges.len(),
{
    if edges.len() == 0 {
        Seq::empty()
    } else {
        edge_records(edges.drop_last()) + edge_record(edges.last())
    }
}

/// The bytes hashed into the geometry fingerprint.
pub open spec fn geometry_bytes(
    width: u32,
    height: u32,
    seed: u32,
    vertices: Seq<MapVertex>,
) -> Seq<u8> {
    header_bytes(width, height, seed) + vertex_records(vertices)
}

/// The bytes hashed into the connectivity fingerprint.
pub open spec fn connectivity_bytes(
    width: u32,
    height: u32,
    seed: u32,
    faces: Seq<HexFace>,
    edges: Seq<HalfEdge>,
) -> Seq<u8> {
    header_bytes(width, height, seed) + face_records(faces) + edge_records(edges)
}

fn push_header(writer: &mut FingerprintWriter, width: u32, height: u32, seed: u32)
    ensures
        final(writer).written() == old(writer).written() + header_bytes(width, height, seed),
{
    writer.push_u32(width);
    writer.push_u32(height);
    writer.push_u32(seed);
    assert(writer.written() =~= old(writer).written() + header_bytes(width, height, seed));
}

/// The geometry fingerprint of a vertex list.
pub fn geometry_fingerprint(width: u32, height: u32, seed: u32, vertices: &Vec<MapVertex>) -> (hash:
    u64)
    ensures
        hash == fnv1a64_spec(geometry_bytes(width, height, seed, vertices@)),
{
    let mut writer = FingerprintWriter::new(4096);
    push_header(&mut writer, width, height, seed);
    let ghost header = header_bytes(width, height, seed);
    let mut vertex_id: usize = 0;
    while vertex_id < vertices.len()
        invariant
            vertex_id <= vertices@.len(),
            writer.written() == header + vertex_records(vertices@.take(vertex_id as int)),
        decreases vertices@.len() - vertex_id,
    {
        let ghost before = writer.written();
        let position = vertices[vertex_id].position;
        writer.push_usize(vertex_id);
        writer.push_u32(position.x);
        writer.push_u32(position.y);
        proof {
            let prefix = vertices@.take(vertex_id as int + 1);
            assert(prefix.drop_last() =~= vertices@.take(vertex_id as int));
            assert(writer.written() =~= before + vertex_record(
                vertex_id as int,
                vertices@[vertex_id as int],
            ));
            assert(vertex_records(prefix) == vertex_records(vertices@.take(vertex_id as int))
                + vertex_record(vertex_id as int, vertices@[vertex_id as int]));
            assert(writer.written() =~= header + vertex_records(prefix));
        }
        vertex_id += 1;
    }
    assert(vertices@.take(vertex_id as int) =~= vertices@);
    writer.finish()
}

/// Appends the six boundary vertex ids of a face.
fn push_face_vertices(writer: &mut FingerprintWriter, face: &HexFace)
    ensures
        final(writer).written() == old(writer).written() + face_vertex_bytes(*face),
{
    let mut corner: usize = 0;
    while corner < 6
        invariant
            corner <= 6,
            writer.written() == old(writer).written() + partial_face_vertex_bytes(
                *face,
                corner as int,
            ),
        decreases 6 - corner,
    {
        writer.push_usize(face.vertices[corner].index());
        corner += 1;
    }
    assert(partial_face_vertex_bytes(*face, 6) =~= face_vertex_bytes(*face)) by {
        reveal_with_fuel(partial_face_vertex_bytes, 7);
    }
}

/// Appends one face record.
fn push_face_record(writer: &mut FingerprintWriter, face_id: usize, face: &HexFace)
    ensures
        final(writer).written() == old(writer).written() + face_record(face_id as int, *face),
{
    writer.push_usize(face_id);
    writer.push_i64(face.hex.q as i64);
    writer.push_i64(face.hex.r as i64);
    push_face_vertices(writer, face);
    assert(writer.written() =~= old(writer).written() + face_record(face_id as int, *face));
}

/// Appends one half-edge record.
fn push_edge_record(writer: &mut FingerprintWriter, edge: &HalfEdge)
    ensures
        final(writer).written() == old(writer).written() + edge_record(*edge),
{
    writer.push_usize(edge.origin.index());
    writer.push_usize(edge.destination.index());
    writer.push_usize(edge.incident_face.index());
    match edge.twin {
        Some(twin_id) => {
            writer.push_u64(1);
            writer.push_usize(twin_id.index());
        },
        None => writer.push_u64(0),
    }
    assert(writer.written() =~= old(writer).written() + edge_record(*edge));
}

/// The first `count` boundary vertex ids of a face.
spec fn partial_face_vertex_bytes(face: HexFace, count: int) -> Seq<u8>
    decreases count,
{
    if count <= 0 {
        Seq::empty()
    } else {
        partial_face_vertex_bytes(face, count - 1) + be_bytes(face.vertices[count - 1].0 as u64)
    }
}

/// The connectivity fingerprint of a face list and a half-edge list.
pub fn connectivity_fingerprint(
    width: u32,
    height: u32,
    seed: u32,
    faces: &Vec<HexFace>,
    edges: &Vec<HalfEdge>,
) -> (hash: u64)
    ensures
        hash == fnv1a64_spec(connectivity_bytes(width, height, seed, faces@, edges@)),
{
    let mut writer = FingerprintWriter::new(16_384);
    push_header(&mut writer, width, height, seed);
    let ghost header = header_bytes(width, height, seed);
    let mut face_id: usize = 0;
    while face_id < faces.len()
        invariant
            face_id <= faces@.len(),
            writer.written() == header + face_records(faces@.take(face_id as int)),
        decreases faces@.len() - face_id,
    {
        let ghost before = writer.written();
        push_face_record(&mut writer, face_id, &faces[face_id]);
        proof {
            let prefix = faces@.take(face_id as int + 1);
            assert(prefix.drop_last() =~= faces@.take(face_id as int));
            assert(writer.written() =~= header + face_records(prefix));
        }
        face_id += 1;
    }
    assert(faces@.take(face_id as int) =~= faces@);
    let ghost with_faces = writer.written();
    let mut edge_id: usize = 0;
    while edge_id < edges.len()
        invariant
            edge_id <= edges@.len(),
            writer.written() == with_faces + edge_records(edges@.take(edge_id as int)),
        decreases edges@.len() - edge_id,
    {
        let ghost before = writer.written();
        push_edge_record(&mut writer, &edges[edge_id]);
        proof {
            let prefix = edges@.take(edge_id as int + 1);
            assert(prefix.drop_last() =~= edges@.take(edge_id as int));
            assert(writer.written() =~= with_faces + edge_records(prefix));
        }
        edge_id += 1;
    }
    assert(edges@.take(edge_id as int) =~= edges@);
    assert(writer.written() =~= connectivity_bytes(width, height, seed, faces@, edges@));
    writer.finish()
}

/// Computes canonical fingerprints from canonical sorted data.
///
/// The geometry fingerprint covers map dimensions, the world seed, ascending
/// `VertexId`s and the bits of every position component. The connectivity
/// fingerprint covers faces in id order (cell and ordered boundary
/// `VertexId`s) and half-edges in id order (origin, destination, face owner,
/// and twin identity or absence).
pub fn topology_fingerprints(layout: &MapLayout, seed: u32, topology: &HexFaceTopology) -> (fingerprints:
    TopologyFingerprints)
    ensures
        fingerprints.geometry == fnv1a64_spec(
            geometry_bytes(layout.width_spec(), layout.height_spec(), seed, topology.vertices@),
        ),
        fingerprints.connectivity == fnv1a64_spec(
            connectivity_bytes(
                layout.width_spec(),
                layout.height_spec(),
                seed,
                topology.faces@,
                topology.half_edges@,
            ),
        ),
{
    let width = layout.width();
    let height = layout.height();
    TopologyFingerprints {
        geometry: geometry_fingerprint(width, height, seed, &topology.vertices),
        connectivity: connectivity_fingerprint(
            width,
            height,
            seed,
            &topology.faces,
            &topology.half_edges,
        ),
    }
}

/// Equal big-endian words come from equal values.
proof fn lemma_be_bytes_injective(a: u64, b: u64)
    requires
        be_bytes(a) == be_bytes(b),
    ensures
        a == b,
{
    assert(be_bytes(a)[0] == be_bytes(b)[0]);
    assert(be_bytes(a)[1] == be_bytes(b)[1]);
    assert(be_bytes(a)[2] == be_bytes(b)[2]);
    assert(be_bytes(a)[3] == be_bytes(b)[3]);
    assert(be_bytes(a)[4] == be_bytes(b)[4]);
    assert(be_bytes(a)[5] == be_bytes(b)[5]);
    assert(be_bytes(a)[6] == be_bytes(b)[6]);
    assert(be_bytes(a)[7] == be_bytes(b)[7]);
    assert(a == b) by (bit_vector)
        requires
            (a >> 56u64) as u8 == (b >> 56u64) as u8,
            (a >> 48u64) as u8 == (b >> 48u64) as u8,
            (a >> 40u64) as u8 == (b >> 40u64) as u8,
            (a >> 32u64) as u8 == (b >> 32u64) as u8,
            (a >> 24u64) as u8 == (b >> 24u64) as u8,
            (a >> 16u64) as u8 == (b >> 16u64) as u8,
            (a >> 8u64) as u8 == (b >> 8u64) as u8,
            a as u8 == b as u8,
    ;
}

/// The vertex records take 24 bytes per vertex, and the `i`-th 24 bytes
/// are the record of the `i`-th vertex.
proof fn lemma_vertex_records_layout(vertices: Seq<MapVertex>)
    ensures
        vertex_records(vertices).len() == 24 * vertices.len(),
        forall|i: int|
            0 <= i < vertices.len() ==> vertex_records(vertices).subrange(24 * i, 24 * i + 24) == vertex_record(
                i,
                #[trigger] vertices[i],
            ),
    decreases vertices.len(),
{
    if vertices.len() > 0 {
        let rest = vertices.drop_last();
        lemma_vertex_records_layout(rest);
        let n = vertices.len() - 1;
        let all = vertex_records(vertices);
        assert(all == vertex_records(rest) + vertex_record(n, vertices.last()));
        assert forall|i: int| 0 <= i < vertices.len() implies all.subrange(24 * i, 24 * i + 24) == vertex_record(
            i,
            #[trigger] vertices[i],
        ) by {
            if i < n {
                assert(rest[i] == vertices[i]);
                assert(all.subrange(24 * i, 24 * i + 24) =~= vertex_records(rest).subrange(24 * i, 24 * i + 24));
            } else {
                assert(all.subrange(24 * i, 24 * i + 24) =~= vertex_record(n, vertices.last()));
            }
        }
    }
}

/// The bytes hashed into the geometry fingerprint determine the map header
/// and, vertex by vertex in id order, both coordinates of every position:
/// two vertex lists that differ in the `x` or the `y` of any vertex are
/// hashed from different bytes.
pub proof fn law_geometry_bytes_determine_positions(
    width_a: u32,
    height_a: u32,
    seed_a: u32,
    vertices_a: Seq<MapVertex>,
    width_b: u32,
    height_b: u32,
    seed_b: u32,
    vertices_b: Seq<MapVertex>,
)
    requires
        geometry_bytes(width_a, height_a, seed_a, vertices_a) == geometry_bytes(width_b, height_b, seed_b, vertices_b),
    ensures
        width_a == width_b,
        height_a == height_b,
        seed_a == seed_b,
        vertices_a.len() == vertices_b.len(),
        forall|i: int|
            0 <= i < vertices_a.len() ==> (#[trigger] vertices_a[i]).position.x == vertices_b[i].position.x
                && vertices_a[i].position.y == vertices_b[i].position.y,
{
    let bytes = geometry_bytes(width_a, height_a, seed_a, vertices_a);
    let other = geometry_bytes(width_b, height_b, seed_b, vertices_b);
    lemma_vertex_records_layout(vertices_a);
    lemma_vertex_records_layout(vertices_b);
    let ha = header_bytes(width_a, height_a, seed_a);
    let hb = header_bytes(width_b, height_b, seed_b);
    assert(ha.len() == 24 && hb.len() == 24);
    assert(bytes.len() == 24 + 24 * vertices_a.len());
    assert(other.len() == 24 + 24 * vertices_b.len());
    assert(bytes.subrange(0, 8) =~= be_bytes(width_a as u64));
    assert(other.subrange(0, 8) =~= be_bytes(width_b as u64));
    lemma_be_bytes_injective(width_a as u64, width_b as u64);
    assert(bytes.subrange(8, 16) =~= be_bytes(height_a as u64));
    assert(other.subrange(8, 16) =~= be_bytes(height_b as u64));
    lemma_be_bytes_injective(height_a as u64, height_b as u64);
    assert(bytes.subrange(16, 24) =~= be_bytes(seed_a as u64));
    assert(other.subrange(16, 24) =~= be_bytes(seed_b as u64));
    lemma_be_bytes_injective(seed_a as u64, seed_b as u64);
    assert forall|i: int| 0 <= i < vertices_a.len() implies (#[trigger] vertices_a[i]).position.x
        == vertices_b[i].position.x && vertices_a[i].position.y == vertices_b[i].position.y by {
        let ra = vertex_record(i, vertices_a[i]);
        let rb = vertex_record(i, vertices_b[i]);
        assert(bytes.subrange(24 + 24 * i, 48 + 24 * i) =~= vertex_records(vertices_a).subrange(24 * i, 24 * i + 24));
        assert(other.subrange(24 + 24 * i, 48 + 24 * i) =~= vertex_records(vertices_b).subrange(24 * i, 24 * i + 24));
        assert(ra == rb);
        assert(ra.subrange(8, 16) =~= be_bytes(vertices_a[i].position.x as u64));
        assert(rb.subrange(8, 16) =~= be_bytes(vertices_b[i].position.x as u64));
        lemma_be_bytes_injective(vertices_a[i].position.x as u64, vertices_b[i].position.x as u64);
        assert(ra.subrange(16, 24) =~= be_bytes(vertices_a[i].position.y as u64));
        assert(rb.subrange(16, 24) =~= be_bytes(vertices_b[i].position.y as u64));
        lemma_be_bytes_injective(vertices_a[i].position.y as u64, vertices_b[i].position.y as u64);
    }
}

} // verus!
