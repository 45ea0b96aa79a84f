use anura::batch::{dedup_uniforms, DrawRequest, MeshBatcher};
use anura::mesh::{LayoutInfo, Mesh, StepMode, VertexType};
use anura::pipeline::ShaderKey;
use anura::uniform::{IndigoShaderStage, UniformBlob, UniformSlotAllocator};

fn quad_mesh(first_byte: u8) -> Mesh {
    let layout = LayoutInfo::from_vertex_types(&vec![VertexType::Float32], 4, StepMode::Vertex);
    let mut vertices = Vec::new();
    for i in 0..16u8 {
        vertices.push(first_byte.wrapping_add(i));
    }
    Mesh {
        vertices,
        indices: vec![0, 1, 2, 2, 3, 0],
        layout,
        could_be_transparent: false,
        highest_z: 0,
    }
}

fn blob(bytes: &[u8]) -> UniformBlob {
    UniformBlob { data: bytes.to_vec(), stages: IndigoShaderStage::Vertex }
}

#[test]
fn three_quads_one_key_merge_into_one_batch() {
    // three requests with identical batch keys but distinct quads
    let shader = ShaderKey { id: 0 };
    let requests = vec![
        DrawRequest::new(quad_mesh(0), shader),
        DrawRequest::new(quad_mesh(50), shader),
        DrawRequest::new(quad_mesh(100), shader),
    ];
    let (batches, table) = MeshBatcher::batch(requests);
    assert_eq!(batches.len(), 1);
    assert!(table.is_empty());
    // 4 + 4 + 4 vertices, 6 + 2 + 6 + 2 + 6 indices
    assert_eq!(batches[0].mesh.vertex_count(), 12);
    assert_eq!(batches[0].mesh.indices.len(), 22);
}

#[test]
fn identical_uniform_blobs_share_an_id_regardless_of_order() {
    let payload = [1u8, 2, 3, 4];
    let mut a = DrawRequest::new(quad_mesh(0), ShaderKey { id: 0 });
    a.add_uniform(blob(&payload));
    let mut b = DrawRequest::new(quad_mesh(8), ShaderKey { id: 1 });
    b.add_uniform(blob(&payload));

    let (batches, table) = MeshBatcher::batch(vec![a, b]);
    assert_eq!(table.len(), 1);
    assert_eq!(batches.len(), 2);
    assert_eq!(batches[0].key.uniform_ids, vec![0]);
    assert_eq!(batches[1].key.uniform_ids, vec![0]);

    // the same pass with the submission order swapped
    let mut a = DrawRequest::new(quad_mesh(0), ShaderKey { id: 0 });
    a.add_uniform(blob(&payload));
    let mut b = DrawRequest::new(quad_mesh(8), ShaderKey { id: 1 });
    b.add_uniform(blob(&payload));
    let (batches, table) = MeshBatcher::batch(vec![b, a]);
    assert_eq!(table.len(), 1);
    assert_eq!(batches[0].key.uniform_ids, vec![0]);
    assert_eq!(batches[1].key.uniform_ids, vec![0]);
}

#[test]
fn differing_uniforms_split_batches() {
    let mut a = DrawRequest::new(quad_mesh(0), ShaderKey { id: 0 });
    a.add_uniform(blob(&[1, 2]));
    let mut b = DrawRequest::new(quad_mesh(8), ShaderKey { id: 0 });
    b.add_uniform(blob(&[3, 4]));
    let (batches, table) = MeshBatcher::batch(vec![a, b]);
    assert_eq!(table.len(), 2);
    assert_eq!(batches.len(), 2);
    assert_eq!(batches[0].key.uniform_ids, vec![0]);
    assert_eq!(batches[1].key.uniform_ids, vec![1]);
}

#[test]
fn empty_meshes_are_dropped_before_grouping() {
    let layout = LayoutInfo::from_vertex_types(&vec![VertexType::Float32], 4, StepMode::Vertex);
    let hollow = Mesh {
        vertices: vec![0; 16],
        indices: Vec::new(),
        layout,
        could_be_transparent: false,
        highest_z: 0,
    };
    let requests = vec![
        DrawRequest::new(hollow, ShaderKey { id: 0 }),
        DrawRequest::new(quad_mesh(0), ShaderKey { id: 0 }),
    ];
    let (batches, _) = MeshBatcher::batch(requests);
    assert_eq!(batches.len(), 1);
    assert_eq!(batches[0].mesh.vertex_count(), 4);
}

#[test]
fn duplicate_payloads_make_two_bindings_not_three() {
    // payloads of sizes 128, 32, 128, the first and third byte-identical:
    // deduplication finds two distinct payloads, so the allocator creates
    // exactly two bindings, and the ids map back as [0, 1, 0]
    let payloads = vec![blob(&[7u8; 128]), blob(&[9u8; 32]), blob(&[7u8; 128])];
    let mut table = Vec::new();
    let ids = dedup_uniforms(&mut table, &payloads);
    assert_eq!(ids, vec![0, 1, 0]);
    assert_eq!(table.len(), 2);

    let mut alloc = UniformSlotAllocator::new();
    let binding_of = alloc.assign(&table);
    assert_eq!(alloc.bindings.len(), 2);
    assert_eq!(binding_of, vec![0, 1]);
    // per submitted payload: binding 0, binding 1, binding 0 again
    let per_payload: Vec<usize> = ids.iter().map(|&id| binding_of[id]).collect();
    assert_eq!(per_payload, vec![0, 1, 0]);
    assert_eq!(alloc.bindings[0].min_size, 128);
    assert_eq!(alloc.bindings[1].min_size, 32);
}
