use anura::mesh::{LayoutInfo, StepMode, VertexType};
use anura::pipeline::{bind_group_order, BindGroupSlot, BlendFactor, CullMode, FixedPipelineState, FrontFace, PipelineCache, RenderPipelineInfo, ShaderRegistry, ShaderSource, Topology};

fn source(vs: &str, fs: &str) -> ShaderSource {
    ShaderSource {
        vertex_src: vs.as_bytes().to_vec(),
        vertex_entry: b"vs_main".to_vec(),
        fragment_src: fs.as_bytes().to_vec(),
        fragment_entry: b"fs_main".to_vec(),
    }
}

#[test]
fn shader_keys_follow_content_not_addresses() {
    let mut registry = ShaderRegistry::new();
    let a = registry.register(source("plain", "image"));
    // a byte-identical pair built from fresh allocations gets the same key
    let b = registry.register(source("plain", "image"));
    assert_eq!(a.id, b.id);
    assert_eq!(registry.sources.len(), 1);
    let c = registry.register(source("plain", "other"));
    assert_ne!(a.id, c.id);
    assert_eq!(registry.sources.len(), 2);
}

fn info(shader_id: usize, textures: Vec<usize>) -> RenderPipelineInfo {
    RenderPipelineInfo {
        vertex_layout: LayoutInfo::from_vertex_types(&vec![VertexType::Float32x3], 12, StepMode::Vertex),
        shader: anura::pipeline::ShaderKey { id: shader_id },
        textures,
        uniform_binding_ids: vec![0, 1],
    }
}

#[test]
fn pipeline_cache_hits_on_equal_signatures() {
    let mut cache = PipelineCache::new();
    let (h1, created1) = cache.get_or_create(info(0, vec![5]));
    assert!(created1);
    let (h2, created2) = cache.get_or_create(info(0, vec![5]));
    assert!(!created2);
    assert_eq!(h1, h2);
    let (h3, created3) = cache.get_or_create(info(1, vec![5]));
    assert!(created3);
    assert_ne!(h1, h3);
    // never evicted
    assert_eq!(cache.infos.len(), 2);
}

#[test]
fn bind_groups_list_uniforms_then_textures() {
    let slots = bind_group_order(&info(0, vec![7, 9]));
    assert_eq!(slots, vec![
        BindGroupSlot::Uniform(0),
        BindGroupSlot::Uniform(1),
        BindGroupSlot::Texture(7),
        BindGroupSlot::Texture(9),
    ]);
}

#[test]
fn fixed_function_state_is_the_painters_algorithm_setup() {
    let s = FixedPipelineState::render_default();
    assert_eq!(s.topology, Topology::TriangleList);
    assert_eq!(s.front_face, FrontFace::CounterClockwise);
    assert_eq!(s.cull_mode, CullMode::Back);
    assert_eq!(s.color_src_factor, BlendFactor::SrcAlpha);
    assert_eq!(s.color_dst_factor, BlendFactor::OneMinusSrcAlpha);
    assert!(s.alpha_replace);
    assert!(!s.depth_stencil);
    assert_eq!(s.sample_count, 1);
}
