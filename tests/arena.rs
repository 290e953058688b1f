use arena::{Arena, Idx, RawIdx};

#[derive(Debug)]
struct Node;

#[derive(Debug)]
struct Edge;

fn raw<T>(idx: Idx<T>) -> u32 {
    u32::from(idx.into_raw())
}

#[test]
fn allocations_get_sequential_handles() {
    let mut arena: Arena<u64> = Arena::new();
    let values = [10u64, 20, 30, 40, 50];
    let mut handles = Vec::new();
    for v in values {
        handles.push(arena.allocate(v));
    }
    for (k, h) in handles.iter().enumerate() {
        assert_eq!(u32::from(h.into_raw()), k as u32);
        assert_eq!(*arena.get(*h), values[k]);
        assert_eq!(arena[*h], values[k]);
    }
}

#[test]
fn next_idx_is_the_next_allocation() {
    let mut arena: Arena<&str> = Arena::new();
    for word in ["a", "b", "c"] {
        let peeked = arena.next_idx();
        let got = arena.allocate(word);
        assert_eq!(peeked, got);
    }
    assert_eq!(u32::from(arena.next_idx().into_raw()), 3);
}

#[test]
fn len_counts_allocations() {
    let mut arena: Arena<Node> = Arena::new();
    assert!(arena.is_empty());
    assert_eq!(arena.len(), 0);
    for n in 1..=4usize {
        arena.allocate(Node);
        assert_eq!(arena.len(), n);
        assert!(!arena.is_empty());
    }
}

#[test]
fn default_arena_is_empty() {
    let arena: Arena<u8> = Arena::default();
    assert!(arena.is_empty());
    assert!(arena.iter().is_empty());
}

#[test]
fn bulk_build_assigns_handles_in_order() {
    let arena: Arena<&str> = Arena::from_vec(vec!["a", "b", "c"]);
    let pairs: Vec<(u32, &str)> = arena
        .iter()
        .into_iter()
        .map(|(h, v)| (u32::from(h.into_raw()), *v))
        .collect();
    assert_eq!(pairs, vec![(0, "a"), (1, "b"), (2, "c")]);
}

#[test]
fn bulk_build_matches_allocation() {
    let built: Arena<u32> = Arena::from_vec(vec![7, 8, 9]);
    let mut allocated: Arena<u32> = Arena::new();
    allocated.allocate(7);
    allocated.allocate(8);
    allocated.allocate(9);
    assert!(built == allocated);
}

#[test]
fn arena_iteration_is_ascending() {
    let mut arena: Arena<char> = Arena::new();
    for c in "verus".chars() {
        arena.allocate(c);
    }
    let handles: Vec<u32> = arena.iter().into_iter().map(|(h, _)| u32::from(h.into_raw())).collect();
    assert_eq!(handles, vec![0, 1, 2, 3, 4]);
    for w in handles.windows(2) {
        assert!(w[0] < w[1]);
    }
}

#[test]
fn iter_mut_writes_back() {
    let mut arena: Arena<i32> = Arena::from_vec(vec![1, 2, 3]);
    for (h, v) in arena.iter_mut() {
        *v += 10 * u32::from(h.into_raw()) as i32;
    }
    let values: Vec<i32> = arena.iter().into_iter().map(|(_, v)| *v).collect();
    assert_eq!(values, vec![1, 12, 23]);
}

#[test]
fn get_mut_changes_one_slot() {
    let mut arena: Arena<String> = Arena::new();
    let a = arena.allocate("a".to_string());
    let b = arena.allocate("b".to_string());
    arena.get_mut(b).push('!');
    assert_eq!(arena[a], "a");
    assert_eq!(arena[b], "b!");
}

#[test]
fn handle_is_stable_under_growth() {
    let mut arena: Arena<String> = Arena::new();
    let first = arena.allocate("first".to_string());
    for i in 0..100 {
        arena.allocate(format!("filler {}", i));
    }
    assert_eq!(raw(first), 0);
    assert_eq!(arena[first], "first");
    assert_eq!(arena.len(), 101);
}

#[test]
fn handles_of_other_kinds_need_explicit_conversion() {
    let mut nodes: Arena<Node> = Arena::new();
    let n = nodes.allocate(Node);
    let e: Idx<Edge> = Idx::from_raw(n.into_raw());
    assert_eq!(e.into_raw(), n.into_raw());
    assert_eq!(u32::from(e.into_raw()), 0);
}

#[test]
fn raw_idx_converts_both_ways() {
    let r = RawIdx::from(41u32);
    assert_eq!(u32::from(r), 41);
    assert!(RawIdx::from(3u32) < RawIdx::from(4u32));
    assert_eq!(RawIdx::from(9u32), RawIdx::from(9u32));
}

#[test]
fn dummy_handle_is_raw_zero() {
    let d: Idx<Node> = Idx::dummy();
    assert_eq!(raw(d), 0);
    let mut arena: Arena<Node> = Arena::new();
    assert_eq!(arena.allocate(Node), d);
}

#[test]
fn handles_compare_by_raw_value() {
    let a: Idx<Node> = Idx::from_raw(RawIdx::from(5u32));
    let b: Idx<Node> = Idx::from_raw(RawIdx::from(5u32));
    let c: Idx<Node> = Idx::from_raw(RawIdx::from(6u32));
    let copied = a;
    assert_eq!(a, b);
    assert_ne!(a, c);
    assert_eq!(copied.clone(), a);
}
