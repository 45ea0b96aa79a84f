use anura::mesh::{LayoutInfo, Mesh, StepMode, VertexType};

fn quad_mesh(first_byte: u8, z: i32, transparent: bool) -> Mesh {
    let layout = LayoutInfo::from_vertex_types(&vec![VertexType::Float32], 4, StepMode::Vertex);
    let mut vertices = Vec::new();
    for i in 0..16u8 {
        vertices.push(first_byte.wrapping_add(i));
    }
    Mesh {
        vertices,
        indices: vec![0, 1, 2, 2, 3, 0],
        layout,
        could_be_transparent: transparent,
        highest_z: z,
    }
}

#[test]
fn merge_counts_and_renumbering() {
    let mut a = quad_mesh(0, 1, false);
    let b = quad_mesh(100, 5, true);
    a.merge(b);
    // 4 + 4 vertices
    assert_eq!(a.vertices.len(), 32);
    assert_eq!(a.vertex_count(), 8);
    // 6 + 2 stitch + 6, the second run renumbered by 4
    assert_eq!(a.indices, vec![0, 1, 2, 2, 3, 0, 0, 0, 4, 5, 6, 6, 7, 4]);
    assert_eq!(a.indices.len(), 6 + 2 + 6);
    // every index addresses the combined buffer
    for &i in &a.indices {
        assert!((i as usize) < 8);
    }
    // depth is the maximum, transparency the disjunction
    assert_eq!(a.highest_z, 5);
    assert!(a.could_be_transparent);
}

#[test]
fn merge_with_empty_operand_keeps_indices() {
    let layout = LayoutInfo::from_vertex_types(&vec![VertexType::Float32], 4, StepMode::Vertex);
    let empty = Mesh {
        vertices: Vec::new(),
        indices: Vec::new(),
        layout,
        could_be_transparent: false,
        highest_z: 0,
    };
    let mut a = quad_mesh(0, 3, false);
    a.merge(empty);
    assert_eq!(a.indices, vec![0, 1, 2, 2, 3, 0]);
    assert_eq!(a.vertices.len(), 16);

    let layout = LayoutInfo::from_vertex_types(&vec![VertexType::Float32], 4, StepMode::Vertex);
    let mut empty = Mesh {
        vertices: Vec::new(),
        indices: Vec::new(),
        layout,
        could_be_transparent: false,
        highest_z: 0,
    };
    let b = quad_mesh(7, 3, false);
    empty.merge(b);
    assert_eq!(empty.indices, vec![0, 1, 2, 2, 3, 0]);
    assert_eq!(empty.vertices.len(), 16);
}

#[test]
fn vertex_layout_offsets_are_prefix_sums() {
    let types = vec![VertexType::Float32x3, VertexType::Float32x4, VertexType::Float32x2];
    let layout = LayoutInfo::from_vertex_types(&types, 36, StepMode::Vertex);
    assert_eq!(layout.array_stride, 36);
    assert_eq!(layout.attributes.len(), 3);
    assert_eq!(layout.attributes[0].offset, 0);
    assert_eq!(layout.attributes[0].shader_location, 0);
    assert_eq!(layout.attributes[1].offset, 12);
    assert_eq!(layout.attributes[1].shader_location, 1);
    assert_eq!(layout.attributes[2].offset, 28);
    assert_eq!(layout.attributes[2].shader_location, 2);
    assert_eq!(layout.attributes[2].format, VertexType::Float32x2);
}

#[test]
fn layout_matches_is_structural() {
    let a = LayoutInfo::from_vertex_types(&vec![VertexType::Uint32, VertexType::Float32], 8, StepMode::Vertex);
    let b = LayoutInfo::from_vertex_types(&vec![VertexType::Uint32, VertexType::Float32], 8, StepMode::Vertex);
    let c = LayoutInfo::from_vertex_types(&vec![VertexType::Uint32], 8, StepMode::Vertex);
    assert!(a.matches(&b));
    assert!(!a.matches(&c));
}
