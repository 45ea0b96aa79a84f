use anura::uniform::{IndigoShaderStage, UniformBlob, UniformSlotAllocator};

fn blob(size: usize) -> UniformBlob {
    UniformBlob { data: vec![0xAB; size], stages: IndigoShaderStage::Vertex }
}

#[test]
fn empty_blob_list_allocates_nothing() {
    let mut alloc = UniformSlotAllocator::new();
    let r = alloc.assign(&Vec::new());
    assert!(r.is_empty());
    assert!(alloc.bindings.is_empty());
}

#[test]
fn new_bindings_sized_exactly_and_in_input_order() {
    let mut alloc = UniformSlotAllocator::new();
    let r = alloc.assign(&vec![blob(128), blob(32)]);
    assert_eq!(r, vec![0, 1]);
    assert_eq!(alloc.bindings.len(), 2);
    assert_eq!(alloc.bindings[0].min_size, 128);
    assert_eq!(alloc.bindings[1].min_size, 32);
}

#[test]
fn no_binding_serves_two_blobs_in_one_call() {
    let mut alloc = UniformSlotAllocator::new();
    let r = alloc.assign(&vec![blob(16), blob(16), blob(16)]);
    assert_ne!(r[0], r[1]);
    assert_ne!(r[0], r[2]);
    assert_ne!(r[1], r[2]);
    assert_eq!(alloc.bindings.len(), 3);
}

#[test]
fn large_blob_keeps_small_blob_out_of_the_big_binding() {
    // bindings of capacity 256 and 64 exist from an earlier frame
    let mut alloc = UniformSlotAllocator::new();
    let first = alloc.assign(&vec![blob(256), blob(64)]);
    assert_eq!(first, vec![0, 1]);
    // largest-first packing sends the 200-byte payload to the 256-byte
    // binding; the 40-byte payload then reuses the 64-byte one, not the big
    // binding it would have taken by itself
    let r = alloc.assign(&vec![blob(40), blob(200)]);
    assert_eq!(r, vec![1, 0]);
    assert_eq!(alloc.bindings.len(), 2);
}

#[test]
fn first_fit_scans_pool_order() {
    // a lone 40-byte payload takes the first binding in pool order that
    // fits, which is the 256-byte one
    let mut alloc = UniformSlotAllocator::new();
    alloc.assign(&vec![blob(256), blob(64)]);
    let r = alloc.assign(&vec![blob(40)]);
    assert_eq!(r, vec![0]);
    assert_eq!(alloc.bindings.len(), 2);
}

#[test]
fn pool_persists_and_never_shrinks() {
    let mut alloc = UniformSlotAllocator::new();
    alloc.assign(&vec![blob(100)]);
    alloc.assign(&vec![blob(50)]);
    assert_eq!(alloc.bindings.len(), 1);
    assert_eq!(alloc.bindings[0].min_size, 100);
    alloc.assign(&vec![blob(150)]);
    assert_eq!(alloc.bindings.len(), 2);
    assert_eq!(alloc.bindings[0].min_size, 100);
    assert_eq!(alloc.bindings[1].min_size, 150);
}
