use node_graph::allocated_vec::AllocatedVec;

#[test]
fn push_returns_consecutive_indices() {
    let mut arena: AllocatedVec<u32> = AllocatedVec::new();
    assert_eq!(arena.push(10), 0);
    assert_eq!(arena.push(20), 1);
    assert_eq!(arena.push(30), 2);
    assert_eq!(arena.len(), 3);
    assert_eq!(arena.raw_len(), 3);
    assert_eq!(arena.get(0), Some(&10));
    assert_eq!(arena.get(1), Some(&20));
    assert_eq!(arena.get(2), Some(&30));
}

#[test]
fn remove_then_push_reuses_smallest_freed_index() {
    let mut arena: AllocatedVec<u32> = AllocatedVec::new();
    arena.push(10);
    arena.push(20);
    arena.push(30);
    assert_eq!(arena.remove(2), Some(30));
    assert_eq!(arena.remove(0), Some(10));
    assert_eq!(arena.len(), 1);
    assert_eq!(arena.raw_len(), 3);
    // the smallest freed index is handed out first
    assert_eq!(arena.push(40), 0);
    assert_eq!(arena.get(0), Some(&40));
    assert_eq!(arena.push(50), 2);
    assert_eq!(arena.get(2), Some(&50));
    // no free slot left: the backing sequence grows
    assert_eq!(arena.push(60), 3);
    assert_eq!(arena.raw_len(), 4);
}

#[test]
fn returned_indices_are_unique_among_occupied() {
    let mut arena: AllocatedVec<u32> = AllocatedVec::new();
    let mut held = Vec::new();
    for v in 0..8u32 {
        held.push(arena.push(v));
    }
    arena.remove(3);
    arena.remove(5);
    held.retain(|&i| i != 3 && i != 5);
    held.push(arena.push(100));
    held.push(arena.push(101));
    held.push(arena.push(102));
    let mut sorted = held.clone();
    sorted.sort_unstable();
    sorted.dedup();
    assert_eq!(sorted.len(), held.len());
}

#[test]
fn get_out_of_range_is_none() {
    let arena: AllocatedVec<u32> = AllocatedVec::new();
    assert_eq!(arena.get(0), None);
    assert_eq!(arena.get(17), None);
}

#[test]
fn remove_is_defensive() {
    let mut arena: AllocatedVec<u32> = AllocatedVec::new();
    arena.push(10);
    assert_eq!(arena.remove(5), None);
    assert_eq!(arena.remove(0), Some(10));
    // removing the same slot twice does not corrupt the free stack
    assert_eq!(arena.remove(0), None);
    assert_eq!(arena.len(), 0);
    assert_eq!(arena.push(11), 0);
    assert_eq!(arena.push(12), 1);
    assert_eq!(arena.len(), 2);
}

#[test]
fn set_overwrites_only_occupied_slots() {
    let mut arena: AllocatedVec<u32> = AllocatedVec::new();
    arena.push(10);
    arena.push(20);
    arena.set(0, 99);
    assert_eq!(arena.get(0), Some(&99));
    // out of range: no effect
    arena.set(9, 5);
    assert_eq!(arena.raw_len(), 2);
    // a freed slot is not resurrected behind the free stack's back
    arena.remove(1);
    arena.set(1, 77);
    assert_eq!(arena.get(1), None);
}

#[test]
fn get_mut_changes_the_value_in_place() {
    let mut arena: AllocatedVec<u32> = AllocatedVec::new();
    arena.push(10);
    *arena.get_mut(0) = 55;
    assert_eq!(arena.get(0), Some(&55));
    assert_eq!(arena.len(), 1);
}

#[test]
fn len_counts_only_occupied_slots() {
    let mut arena: AllocatedVec<u32> = AllocatedVec::new();
    assert_eq!(arena.len(), 0);
    arena.push(1);
    arena.push(2);
    arena.push(3);
    arena.remove(1);
    assert_eq!(arena.len(), 2);
    assert_eq!(arena.raw_len(), 3);
}
