use ns_compiler::arena::IndexedArena;

#[test]
fn round_trip_many_values() {
    for n in [0usize, 1, 3, 4, 5, 17, 100] {
        let mut arena: IndexedArena<String> = IndexedArena::new();
        let idxs: Vec<_> = (0..n).map(|k| arena.insert(format!("value {}", k))).collect();
        assert_eq!(arena.len(), n);
        for (k, i) in idxs.iter().enumerate() {
            assert_eq!(arena.get(*i), Some(&format!("value {}", k)));
        }
        assert_eq!(arena.indices(), idxs);
    }
}

#[test]
fn removed_index_is_never_found_again() {
    let mut arena: IndexedArena<u32> = IndexedArena::new();
    let a = arena.insert(1);
    let b = arena.insert(2);
    assert_eq!(arena.remove(a), Some(1));
    assert_eq!(arena.get(a), None);
    // the freed slot is reused, under a new generation
    let c = arena.insert(3);
    assert_eq!(c.slot, a.slot);
    assert_ne!(c, a);
    assert_eq!(arena.get(a), None);
    assert_eq!(arena.get(c), Some(&3));
    assert_eq!(arena.get(b), Some(&2));
    assert_eq!(arena.remove(a), None);
    assert_eq!(arena.len(), 2);
}

#[test]
fn get_mut_writes_through() {
    let mut arena: IndexedArena<Vec<u8>> = IndexedArena::new();
    let i = arena.insert(vec![1]);
    arena.get_mut(i).push(2);
    assert_eq!(arena.get(i), Some(&vec![1, 2]));
}
