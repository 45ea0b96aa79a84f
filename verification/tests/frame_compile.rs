use anura::batch::DrawRequest;
use anura::frame::FrameCompiler;
use anura::mesh::{LayoutInfo, Mesh, StepMode, VertexType};
use anura::uniform::{IndigoShaderStage, UniformBlob};

fn quad_mesh(first_byte: u8, z: i32, transparent: bool) -> Mesh {
    let layout = LayoutInfo::from_vertex_types(&vec![VertexType::Float32], 4, StepMode::Vertex);
    let mut vertices = Vec::new();
    for i in 0..16u8 {
        vertices.push(first_byte.wrapping_add(i));
    }
    Mesh {
        vertices,
        indices: vec![0, 1, 2, 2, 3, 0],
        layout,
        could_be_transparent: transparent,
        highest_z: z,
    }
}

fn blob(bytes: &[u8]) -> UniformBlob {
    UniformBlob { data: bytes.to_vec(), stages: IndigoShaderStage::Vertex }
}

#[test]
fn frame_plan_orders_batches_and_routes_bindings() {
    let mut compiler = FrameCompiler::new();
    let shader = compiler.shaders.register(anura::pipeline::ShaderSource {
        vertex_src: b"plain".to_vec(),
        vertex_entry: b"vs_main".to_vec(),
        fragment_src: b"image".to_vec(),
        fragment_entry: b"fs_main".to_vec(),
    });
    let solid_shader = compiler.shaders.register(anura::pipeline::ShaderSource {
        vertex_src: b"solid".to_vec(),
        vertex_entry: b"vs_main".to_vec(),
        fragment_src: b"solid".to_vec(),
        fragment_entry: b"fs_main".to_vec(),
    });

    let camera = [0xC0u8; 64];
    let tint = [0x0Fu8; 16];
    let mut opaque_a = DrawRequest::new(quad_mesh(0, 0, false), solid_shader);
    opaque_a.add_uniform(blob(&camera));
    let mut transparent_far = DrawRequest::new(quad_mesh(40, 9, true), shader);
    transparent_far.add_uniform(blob(&camera));
    transparent_far.add_uniform(blob(&tint));
    let mut transparent_near = DrawRequest::new(quad_mesh(80, 2, true), shader);
    transparent_near.add_uniform(blob(&camera));

    let plan = compiler.compile(vec![transparent_far, opaque_a, transparent_near]);

    // the shared camera payload got one id, the tint another
    assert_eq!(plan.uniform_table.len(), 2);
    assert_eq!(plan.binding_of.len(), 2);
    assert_ne!(plan.binding_of[0], plan.binding_of[1]);

    // opaque first, then transparent back to front
    let flags: Vec<bool> = plan.batches.iter().map(|b| b.batch.mesh.could_be_transparent).collect();
    assert_eq!(flags, vec![false, true, true]);
    assert_eq!(plan.batches[1].batch.mesh.highest_z, 2);
    assert_eq!(plan.batches[2].batch.mesh.highest_z, 9);

    // each batch's binding list routes its key ids through the assignment
    for b in &plan.batches {
        assert_eq!(b.binding_ids.len(), b.batch.key.uniform_ids.len());
        for (u, &id) in b.batch.key.uniform_ids.iter().enumerate() {
            assert_eq!(b.binding_ids[u], plan.binding_of[id]);
        }
    }

    // a second frame with the same signatures compiles no new pipeline
    let infos_after_first = compiler.pipelines.infos.len();
    let mut again = DrawRequest::new(quad_mesh(0, 0, false), shader);
    again.add_uniform(blob(&camera));
    let plan2 = compiler.compile(vec![again]);
    assert_eq!(compiler.pipelines.infos.len(), infos_after_first);
    assert!(!plan2.batches[0].pipeline_created);
    // and the binding pool was reused, not regrown
    assert_eq!(compiler.uniforms.bindings.len(), 2);
}
