use arena::{ArenaMap, Idx, RawIdx};

#[derive(Debug)]
struct Node;

fn h(n: u32) -> Idx<Node> {
    Idx::from_raw(RawIdx::from(n))
}

fn pairs<V: Copy>(map: &ArenaMap<Idx<Node>, V>) -> Vec<(u32, V)> {
    map.iter().into_iter().map(|(i, v)| (u32::from(i.into_raw()), *v)).collect()
}

#[test]
fn insert_leaves_lower_slots_unset() {
    let mut map: ArenaMap<Idx<Node>, &str> = ArenaMap::new();
    map.insert(h(5), "x");
    assert_eq!(map.get(h(5)), Some(&"x"));
    for i in 0..5 {
        assert_eq!(map.get(h(i)), None);
    }
    assert_eq!(map.get(h(6)), None);
    assert_eq!(map.get(h(1000)), None);
}

#[test]
fn last_insert_wins() {
    let mut map: ArenaMap<Idx<Node>, &str> = ArenaMap::default();
    map.insert(h(2), "a");
    map.insert(h(2), "b");
    assert_eq!(map.get(h(2)), Some(&"b"));
    assert_eq!(pairs(&map), vec![(2, "b")]);
}

#[test]
fn bulk_build_keeps_last_pair_per_handle() {
    let map: ArenaMap<Idx<Node>, &str> = ArenaMap::from_pairs(vec![(h(3), "a"), (h(1), "b"), (h(3), "c")]);
    assert_eq!(pairs(&map), vec![(1, "b"), (3, "c")]);
    assert_eq!(map.get(h(0)), None);
    assert_eq!(map.get(h(2)), None);
}

#[test]
fn bulk_build_of_nothing_is_empty() {
    let map: ArenaMap<Idx<Node>, u8> = ArenaMap::from_pairs(Vec::new());
    assert!(map.iter().is_empty());
    assert!(map.values().is_empty());
}

#[test]
fn map_iteration_is_ascending() {
    let mut map: ArenaMap<Idx<Node>, u32> = ArenaMap::new();
    for n in [9u32, 2, 7, 0, 4] {
        map.insert(h(n), n * 100);
    }
    assert_eq!(pairs(&map), vec![(0, 0), (2, 200), (4, 400), (7, 700), (9, 900)]);
}

#[test]
fn values_skip_unset_and_count_distinct_handles() {
    let mut map: ArenaMap<Idx<Node>, char> = ArenaMap::new();
    map.insert(h(4), 'd');
    map.insert(h(1), 'a');
    map.insert(h(4), 'e');
    map.insert(h(8), 'z');
    let values: Vec<char> = map.values().into_iter().copied().collect();
    assert_eq!(values, vec!['a', 'e', 'z']);
    assert_eq!(map.iter().len(), 3);
}

#[test]
fn get_mut_changes_only_set_slots() {
    let mut map: ArenaMap<Idx<Node>, i64> = ArenaMap::new();
    map.insert(h(1), 5);
    if let Some(v) = map.get_mut(h(1)) {
        *v = -5;
    }
    assert!(map.get_mut(h(0)).is_none());
    assert!(map.get_mut(h(3)).is_none());
    assert_eq!(map[h(1)], -5);
}

#[test]
fn iter_mut_and_values_mut_write_back() {
    let mut map: ArenaMap<Idx<Node>, u32> = ArenaMap::new();
    map.insert(h(0), 1);
    map.insert(h(3), 2);
    for (i, v) in map.iter_mut() {
        *v += u32::from(i.into_raw());
    }
    assert_eq!(pairs(&map), vec![(0, 1), (3, 5)]);
    for v in map.values_mut() {
        *v *= 2;
    }
    assert_eq!(pairs(&map), vec![(0, 2), (3, 10)]);
    assert_eq!(map.get(h(1)), None);
}

#[test]
fn into_iter_hands_out_set_slots_in_order() {
    let mut map: ArenaMap<Idx<Node>, String> = ArenaMap::new();
    map.insert(h(6), "six".to_string());
    map.insert(h(2), "two".to_string());
    let mut it = map.into_iter();
    let (a, va) = it.next().unwrap();
    assert_eq!(u32::from(a.into_raw()), 2);
    assert_eq!(va, "two");
    let (b, vb) = it.next().unwrap();
    assert_eq!(u32::from(b.into_raw()), 6);
    assert_eq!(vb, "six");
    assert!(it.next().is_none());
    assert!(it.next().is_none());
}

#[test]
fn cloned_map_is_equal() {
    let mut map: ArenaMap<Idx<Node>, u8> = ArenaMap::new();
    map.insert(h(2), 1);
    let copy = map.clone();
    assert!(copy == map);
    assert_eq!(pairs(&copy), vec![(2, 1)]);
}
