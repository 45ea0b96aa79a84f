use anura::command::DefaultRenderCommand;
use anura::error::AnuraError;
use anura::event::{AppEvent, ViewEvent, WidgetEvent};
use anura::handle::{erase_handle, AsUntypedHandle, NodeType, TypedHandle, UntypedHandle};
use anura::mesh::{LayoutInfo, Mesh, StepMode, VertexType};

#[test]
fn typed_handles_erase_to_their_slot_and_generation() {
    let typed: TypedHandle<String> = TypedHandle::new(4, 7);
    let erased = erase_handle(&typed);
    assert_eq!(erased, UntypedHandle { index: 4, generation: 7 });
    assert_eq!(typed.handle(), erased);
    assert_eq!(erased.handle(), erased);
    let cloned = typed.clone();
    assert_eq!(cloned.index, 4);
    assert_eq!(cloned.generation, 7);
}

#[test]
fn node_types_compare_structurally() {
    let h = UntypedHandle { index: 1, generation: 0 };
    assert_eq!(NodeType::Handle(h), NodeType::Handle(h));
    assert_ne!(NodeType::Handle(h), NodeType::Root);
}

#[test]
fn fatal_errors_carry_their_message() {
    let err: AnuraError<String> = AnuraError::fatal("surface outdated".to_string());
    assert_eq!(err.into_message(), "surface outdated");
}

#[test]
fn events_are_plain_values() {
    assert_eq!(AppEvent::Init, AppEvent::Init);
    assert_ne!(AppEvent::Init, AppEvent::Exit);
    assert_eq!(ViewEvent::Update, ViewEvent::Update);
    assert_eq!(WidgetEvent::Init, WidgetEvent::Init);
}

#[test]
fn render_commands_accumulate_bindings_in_order() {
    let layout = LayoutInfo::from_vertex_types(&vec![VertexType::Float32], 4, StepMode::Vertex);
    let mesh = Mesh {
        vertices: vec![0; 4],
        indices: vec![0],
        layout,
        could_be_transparent: false,
        highest_z: 0,
    };
    let mut cmd: DefaultRenderCommand<Mesh, usize, usize, Vec<u8>> =
        DefaultRenderCommand::new(mesh, 3);
    cmd.add_texture(10);
    cmd.add_texture(11);
    cmd.add_uniform(vec![1, 2]);
    assert_eq!(cmd.shader, 3);
    assert_eq!(cmd.textures, vec![10, 11]);
    assert_eq!(cmd.uniforms, vec![vec![1, 2]]);
}

#[test]
fn possibly_transparent_flips_the_flag_only() {
    let layout = LayoutInfo::from_vertex_types(&vec![VertexType::Float32], 4, StepMode::Vertex);
    let mut mesh = Mesh {
        vertices: vec![0; 8],
        indices: vec![0, 1],
        layout,
        could_be_transparent: false,
        highest_z: 5,
    };
    mesh.possibly_transparent();
    assert!(mesh.could_be_transparent);
    assert_eq!(mesh.highest_z, 5);
    assert_eq!(mesh.indices, vec![0, 1]);
}
