use anura::arena::Arena;

#[test]
fn insert_get_remove_roundtrip() {
    let mut arena: Arena<&str> = Arena::new();
    let a = arena.insert("first");
    let b = arena.insert("second");
    assert_eq!(arena.get(a), Some(&"first"));
    assert_eq!(arena.get(b), Some(&"second"));
    assert_eq!(arena.remove(a), Some("first"));
    assert_eq!(arena.get(a), None);
    assert_eq!(arena.get(b), Some(&"second"));
}

#[test]
fn freed_slot_is_reused_most_recent_first() {
    let mut arena: Arena<u32> = Arena::new();
    let a = arena.insert(1);
    let b = arena.insert(2);
    arena.remove(a);
    arena.remove(b);
    // the most recently freed slot comes back first
    let c = arena.insert(3);
    assert_eq!(c, b);
    let d = arena.insert(4);
    assert_eq!(d, a);
    assert_eq!(arena.len(), 2);
}

#[test]
fn out_of_range_get_is_none() {
    let arena: Arena<u32> = Arena::new();
    assert_eq!(arena.get(42), None);
}

#[test]
fn overwrite_replaces_in_place() {
    let mut arena: Arena<u32> = Arena::new();
    let a = arena.insert(1);
    arena.overwrite(a, 9);
    assert_eq!(arena.get(a), Some(&9));
    assert_eq!(arena.len(), 1);
}

#[test]
fn take_out_and_put_back_restore_the_slot() {
    let mut arena: Arena<String> = Arena::new();
    let a = arena.insert("widget".to_string());
    let taken = arena.take_out(a).unwrap();
    assert_eq!(arena.get(a), None);
    arena.put_back(a, taken);
    assert_eq!(arena.get(a).map(|s| s.as_str()), Some("widget"));
}
