use anura::arena::Arena;
use anura::batch::DrawRequest;
use anura::cache::RenderCommandCache;
use anura::handle::UntypedHandle;
use anura::mesh::{LayoutInfo, Mesh, StepMode, VertexType};
use anura::pipeline::ShaderKey;

fn handle(index: usize, generation: u64) -> UntypedHandle {
    UntypedHandle { index, generation }
}

fn commands(tag: usize) -> Vec<DrawRequest> {
    let layout = LayoutInfo::from_vertex_types(&vec![VertexType::Float32], 4, StepMode::Vertex);
    vec![DrawRequest::new(
        Mesh {
            vertices: vec![0; 4],
            indices: vec![0],
            layout,
            could_be_transparent: false,
            highest_z: 0,
        },
        ShaderKey { id: tag },
    )]
}

#[test]
fn get_or_compute_computes_exactly_once() {
    let mut cache = RenderCommandCache::new();
    let h = handle(0, 0);
    let mut calls = 0;
    {
        let r = cache.get_or_compute(h, || {
            calls += 1;
            commands(7)
        });
        assert_eq!(r.len(), 1);
    }
    assert_eq!(calls, 1);
    let mut calls2 = 0;
    {
        let r = cache.get_or_compute(h, || {
            calls2 += 1;
            commands(8)
        });
        // the cached list is served; the second closure never runs
        assert_eq!(r[0].shader.id, 7);
    }
    assert_eq!(calls2, 0);
}

#[test]
fn invalidate_forces_recomputation() {
    let mut cache = RenderCommandCache::new();
    let h = handle(3, 1);
    cache.insert(h, commands(1));
    cache.invalidate(&h);
    assert!(cache.get(&h).is_none());
    let mut calls = 0;
    {
        let _ = cache.get_or_compute(h, || {
            calls += 1;
            commands(2)
        });
    }
    assert_eq!(calls, 1);
}

#[test]
fn invalidate_subtree_removes_every_descendant() {
    // slot 0 has children 1 and 2; slot 1 has child 3; slot 4 is unrelated
    let mut children: Arena<Vec<UntypedHandle>> = Arena::new();
    children.insert(vec![handle(1, 0), handle(2, 0)]);
    children.insert(vec![handle(3, 0)]);
    children.insert(Vec::new());
    children.insert(Vec::new());
    children.insert(Vec::new());

    let mut cache = RenderCommandCache::new();
    for i in 0..5 {
        cache.insert(handle(i, 0), commands(i));
    }
    cache.invalidate_subtree(handle(0, 0), &children);
    assert!(cache.get(&handle(0, 0)).is_none());
    assert!(cache.get(&handle(1, 0)).is_none());
    assert!(cache.get(&handle(2, 0)).is_none());
    assert!(cache.get(&handle(3, 0)).is_none());
    // the unrelated widget keeps its entry
    assert!(cache.get(&handle(4, 0)).is_some());
}

#[test]
fn reused_slot_with_new_generation_misses() {
    let mut cache = RenderCommandCache::new();
    cache.insert(handle(5, 0), commands(1));
    // the arena slot is reused by a new widget: same index, new generation
    assert!(cache.get(&handle(5, 1)).is_none());
    assert!(cache.get(&handle(5, 0)).is_some());
}

#[test]
fn clear_empties_the_cache() {
    let mut cache = RenderCommandCache::new();
    cache.insert(handle(0, 0), commands(1));
    cache.insert(handle(1, 0), commands(2));
    cache.clear();
    assert!(cache.get(&handle(0, 0)).is_none());
    assert!(cache.get(&handle(1, 0)).is_none());
}
