use anura::batch::{Batch, BatchKey};
use anura::mesh::{LayoutInfo, Mesh, StepMode, VertexType};
use anura::order::TransparencySorter;
use anura::pipeline::ShaderKey;

fn batch(z: i32, transparent: bool, tag: usize) -> Batch {
    let layout = LayoutInfo::from_vertex_types(&vec![VertexType::Float32], 4, StepMode::Vertex);
    let key_layout = LayoutInfo::from_vertex_types(&vec![VertexType::Float32], 4, StepMode::Vertex);
    Batch {
        key: BatchKey {
            vertex_layout: key_layout,
            shader: ShaderKey { id: tag },
            textures: Vec::new(),
            uniform_ids: Vec::new(),
        },
        mesh: Mesh {
            vertices: vec![0; 4],
            indices: vec![0],
            layout,
            could_be_transparent: transparent,
            highest_z: z,
        },
    }
}

#[test]
fn opaque_before_transparent_whatever_the_depths() {
    let input = vec![
        batch(9, true, 0),
        batch(1, false, 1),
        batch(-5, true, 2),
        batch(100, false, 3),
        batch(0, true, 4),
    ];
    let out = TransparencySorter::order(input);
    assert_eq!(out.len(), 5);
    let flags: Vec<bool> = out.iter().map(|b| b.mesh.could_be_transparent).collect();
    assert_eq!(flags, vec![false, false, true, true, true]);
    // opaque ones keep their given order
    assert_eq!(out[0].key.shader.id, 1);
    assert_eq!(out[1].key.shader.id, 3);
}

#[test]
fn transparent_tail_is_back_to_front() {
    let input = vec![
        batch(9, true, 0),
        batch(-5, true, 1),
        batch(0, true, 2),
    ];
    let out = TransparencySorter::order(input);
    let depths: Vec<i32> = out.iter().map(|b| b.mesh.highest_z).collect();
    assert_eq!(depths, vec![-5, 0, 9]);
}

#[test]
fn all_opaque_passes_through() {
    let input = vec![batch(3, false, 0), batch(1, false, 1)];
    let out = TransparencySorter::order(input);
    assert_eq!(out[0].key.shader.id, 0);
    assert_eq!(out[1].key.shader.id, 1);
}
