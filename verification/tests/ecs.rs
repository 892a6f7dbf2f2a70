use crayon::ecs::bitset::{BitSet, DynamicBitSet};
use crayon::ecs::component::{Arena, HashMapArena, VecArena};
use crayon::ecs::dispatcher::SystemDispatcher;

#[test]
fn bitset_basic() {
    let mut bits = BitSet::new();

    assert!(!bits.contains(5));

    bits.insert(5);
    assert!(bits.contains(5));

    bits.insert(9);
    assert!(bits.contains(9));
    assert!(!bits.contains(12));

    bits.insert(12);
    assert!(bits.contains(12));

    bits.insert(5);
    assert!(bits.contains(5));

    bits.insert(5);
    assert!(bits.contains(5));
    assert!(bits.contains(9));
    assert!(bits.contains(12));

    bits.remove(5);
    assert!(!bits.contains(5));
    assert!(bits.contains(9));
    assert!(bits.contains(12));

    bits.remove(12);
    assert!(!bits.contains(5));
    assert!(bits.contains(9));
    assert!(!bits.contains(12));

    bits.clear();
    assert!(bits == BitSet::new());
}

#[test]
fn intersect() {
    let mut lhs = BitSet::new();
    lhs.insert(1);
    lhs.insert(3);
    lhs.insert(9);

    let mut rhs = BitSet::new();
    rhs.insert(2);
    rhs.insert(3);
    rhs.insert(10);

    let v = lhs.intersect_with(&rhs);
    assert!(!v.contains(1));
    assert!(!v.contains(2));
    assert!(v.contains(3));
    assert!(!v.contains(9));
    assert!(!v.contains(10));
}

#[test]
fn bitset_union_and_iter() {
    let mut lhs = BitSet::new();
    lhs.insert(0);
    lhs.insert(63);
    let mut rhs = BitSet::new();
    rhs.insert(7);
    rhs.insert(63);
    let v = lhs.union_with(&rhs);
    assert!(v.contains(0) && v.contains(7) && v.contains(63));
    assert!(!v.contains(8));
    assert!(!v.is_empty());
    assert!(BitSet::new().is_empty());

    let mut it = v.iter();
    let mut seen = Vec::new();
    while let Some(i) = it.next() {
        seen.push(i);
    }
    assert_eq!(seen, vec![0, 7, 63]);
}

#[test]
fn dynamic_bitset_grows() {
    let mut bits = DynamicBitSet::new();
    assert!(!bits.contains(1000));
    bits.insert(1000);
    bits.insert(3);
    assert!(bits.contains(1000));
    assert!(bits.contains(3));
    assert!(!bits.contains(999));

    let mut it = bits.iter();
    let mut seen = Vec::new();
    while let Some(i) = it.next() {
        seen.push(i);
    }
    assert_eq!(seen, vec![3, 1000]);

    bits.remove(1000);
    assert!(!bits.contains(1000));
    bits.clear();
    assert!(!bits.contains(3));
}

fn set_of(indices: &[usize]) -> BitSet {
    let mut b = BitSet::new();
    for &i in indices {
        b.insert(i);
    }
    b
}

#[test]
fn batch() {
    // Components: 0 = Value, 1 = OtherValue, 2 = OtherValue2.
    let mut batch: SystemDispatcher<&'static str> = SystemDispatcher::new();
    {
        let handle_a = batch.add(&[], "read value", set_of(&[0]), BitSet::new());
        batch.add(&[], "write value", BitSet::new(), set_of(&[0]));
        batch.add(&[], "write other", BitSet::new(), set_of(&[1]));
        batch.add(&[handle_a], "read other2", set_of(&[2]), BitSet::new());

        let batches = batch.build();
        assert!(batches.len() == 2);
        assert!(batches[0].len() == 2);
        assert!(batches[1].len() == 2);
        assert_eq!(batches[0], vec!["read value", "write other"]);
        assert_eq!(batches[1], vec!["write value", "read other2"]);
    }
    {
        let handle_a = batch.add(&[], "value system", BitSet::new(), set_of(&[0]));
        batch.add(&[], "other system", set_of(&[0]), BitSet::new());
        batch.add(&[], "other system 2", BitSet::new(), set_of(&[1]));
        batch.add(&[handle_a], "other system 3", set_of(&[2]), BitSet::new());

        let batches = batch.build();
        assert!(batches.len() == 2);
        assert!(batches[0].len() == 2);
        assert!(batches[1].len() == 2);
        assert_eq!(batches[0], vec!["value system", "other system 2"]);
        assert_eq!(batches[1], vec!["other system", "other system 3"]);
    }
}

#[test]
fn dispatcher_handles_expire_after_build() {
    let mut batch: SystemDispatcher<u32> = SystemDispatcher::new();
    let h = batch.add(&[], 1, BitSet::new(), BitSet::new());
    assert!(batch.is_alive(h));
    let batches = batch.build();
    assert_eq!(batches, vec![vec![1]]);
    assert!(!batch.is_alive(h));

    let h2 = batch.add(&[h], 2, BitSet::new(), BitSet::new());
    assert_eq!(h2.index(), 0);
    assert_eq!(h2.version(), h.version() + 1);
    assert_eq!(batch.build(), vec![vec![2]]);
}

#[test]
fn dispatcher_dependency_orders_batches() {
    let mut batch: SystemDispatcher<char> = SystemDispatcher::new();
    let a = batch.add(&[], 'a', BitSet::new(), BitSet::new());
    let b = batch.add(&[a], 'b', BitSet::new(), BitSet::new());
    batch.add(&[b], 'c', BitSet::new(), BitSet::new());
    let s = batch.schedule();
    assert_eq!(s, vec![vec![0], vec![1], vec![2]]);
    assert_eq!(batch.build(), vec![vec!['a'], vec!['b'], vec!['c']]);
}

#[test]
fn hash_map_arena_reads_back() {
    let mut arena: HashMapArena<String> = HashMapArena::new();
    assert_eq!(arena.get(3), None);
    assert_eq!(arena.insert(3, "a".to_string()), None);
    assert_eq!(arena.get(3), Some(&"a".to_string()));
    assert_eq!(arena.insert(3, "b".to_string()), Some("a".to_string()));
    if let Some(v) = arena.get_mut(3) {
        v.push('c');
    }
    assert_eq!(arena.get_unchecked(3), "bc");
    arena.get_unchecked_mut(3).push('d');
    assert_eq!(arena.remove(3), Some("bcd".to_string()));
    assert_eq!(arena.remove(3), None);
    assert!(arena.get_mut(3).is_none());
}

#[test]
fn vec_arena_reads_back() {
    let mut arena: VecArena<u64> = VecArena::new();
    assert_eq!(arena.get(10), None);
    assert_eq!(arena.insert(10, 7), None);
    assert_eq!(arena.get(10), Some(&7));
    assert_eq!(arena.get(9), None);
    assert_eq!(arena.insert(10, 8), Some(7));
    assert_eq!(arena.insert(2, 1), None);
    *arena.get_mut(2).unwrap() += 5;
    assert_eq!(*arena.get_unchecked(2), 6);
    *arena.get_unchecked_mut(10) = 100;
    assert_eq!(arena.remove(10), Some(100));
    assert_eq!(arena.get(10), None);
    assert_eq!(arena.remove(10), None);
    assert_eq!(arena.get(2), Some(&6));
}

#[test]
fn dispatcher_runs_a_deferred_system_in_a_later_round() {
    // The writer conflicts with the reader and nothing else waits: it still
    // gets a round of its own.
    let mut batch: SystemDispatcher<&'static str> = SystemDispatcher::new();
    batch.add(&[], "reader", set_of(&[0]), BitSet::new());
    batch.add(&[], "writer", BitSet::new(), set_of(&[0]));
    assert_eq!(batch.schedule(), vec![vec![0], vec![1]]);
    assert_eq!(batch.build(), vec![vec!["reader"], vec!["writer"]]);
}

#[test]
fn dispatcher_lets_two_writers_share_a_batch() {
    // Only a read against a write is a conflict.
    let mut batch: SystemDispatcher<&'static str> = SystemDispatcher::new();
    batch.add(&[], "first writer", BitSet::new(), set_of(&[0]));
    batch.add(&[], "second writer", BitSet::new(), set_of(&[0]));
    assert_eq!(batch.build(), vec![vec!["first writer", "second writer"]]);
}

#[test]
fn dispatcher_defers_a_conflicting_system_while_rounds_go_on() {
    // `b` conflicts with `a`; `c` depends on `a`, so a second round follows in
    // which the deferred `b` runs beside `c`.
    let mut batch: SystemDispatcher<char> = SystemDispatcher::new();
    let a = batch.add(&[], 'a', set_of(&[0]), BitSet::new());
    batch.add(&[], 'b', BitSet::new(), set_of(&[0]));
    batch.add(&[a], 'c', BitSet::new(), BitSet::new());
    assert_eq!(batch.build(), vec![vec!['a'], vec!['b', 'c']]);
}

#[test]
fn dispatcher_orders_a_batch_by_dependents() {
    let mut batch: SystemDispatcher<char> = SystemDispatcher::new();
    batch.add(&[], 'x', BitSet::new(), BitSet::new());
    let y = batch.add(&[], 'y', BitSet::new(), BitSet::new());
    batch.add(&[y], 'z', BitSet::new(), BitSet::new());
    assert_eq!(batch.build(), vec![vec!['y', 'x'], vec!['z']]);
}

#[test]
fn bit_set_default_is_empty() {
    let d = BitSet::default();
    assert!(d.is_empty());
    assert_eq!(d, BitSet::new());
    assert_eq!(d.iter().next(), None);
}

#[test]
fn dispatcher_defers_a_conflicting_system_to_the_next_round() {
    // Two writers of one component never share a batch with a reader of it;
    // the deferred reader comes first in the next round.
    let mut d: SystemDispatcher<u32> = SystemDispatcher::new();
    d.add(&[], 0, BitSet::new(), set_of(&[0]));
    d.add(&[], 1, set_of(&[0]), BitSet::new());
    d.add(&[], 2, set_of(&[1]), BitSet::new());
    assert_eq!(d.schedule(), vec![vec![0, 2], vec![1]]);
    assert_eq!(d.build(), vec![vec![0, 2], vec![1]]);
}
