use chunk_arena::{Arena, ArenaError, Index};

const TEST_ARENA_CHUNK_SIZE: usize = 64;

#[derive(Debug, PartialEq)]
struct MyStruct {
    x: usize,
    y: String,
}

impl MyStruct {
    fn new(x: usize, y: &str) -> Self {
        MyStruct { x, y: y.to_string() }
    }
}

// Allocates `n` values, the `i`-th being MyStruct::new(i, "All is fine").
fn arena_alloc_n(n: usize) -> (Arena<MyStruct>, Vec<Index>) {
    let mut arena = Arena::<MyStruct>::new(TEST_ARENA_CHUNK_SIZE);
    let mut indexs = Vec::new();
    for i in 0..n {
        indexs.push(arena.allocate(MyStruct::new(i, "All is fine")));
    }
    (arena, indexs)
}

#[test]
fn arena_new() {
    let arena = Arena::<MyStruct>::new(TEST_ARENA_CHUNK_SIZE);

    assert_eq!(arena.chunk_count(), 1);
    assert_eq!(arena.free_count(), 0);
    assert_eq!(arena.current_age(), 0);
    assert_eq!(arena.next_index(), 0);
}

#[test]
fn arena_alloc() {
    let mut arena = Arena::<MyStruct>::new(TEST_ARENA_CHUNK_SIZE);
    let index = arena.allocate(MyStruct::new(16838, "All is fine"));

    assert_eq!(arena.chunk_count(), 1);
    assert_eq!(arena.chunk_len(0), 1);
    assert_eq!(arena.free_count(), 0);
    assert_eq!(arena.current_age(), 0);
    assert_eq!(arena.next_index(), 1);
    assert_eq!(index.age, 0);
    assert_eq!(index.index, 0);
}

#[test]
fn arena_alloc5() {
    let mut arena = Arena::<MyStruct>::new(TEST_ARENA_CHUNK_SIZE);
    let index0 = arena.allocate(MyStruct::new(0, "All is fine 0"));
    let index1 = arena.allocate(MyStruct::new(1, "All is fine 1"));
    let index2 = arena.allocate(MyStruct::new(2, "All is fine 2"));
    let index3 = arena.allocate(MyStruct::new(3, "All is fine 3"));
    let index4 = arena.allocate(MyStruct::new(4, "All is fine 4"));

    assert_eq!(arena.chunk_count(), 1);
    assert_eq!(arena.chunk_len(0), 5);
    assert_eq!(arena.free_count(), 0);
    assert_eq!(arena.current_age(), 0);
    assert_eq!(arena.next_index(), 5);

    assert_eq!(arena.get(index0), Some(&MyStruct::new(0, "All is fine 0")));
    assert_eq!(index0.age, 0);
    assert_eq!(index0.index, 0);

    assert_eq!(arena.get(index1), Some(&MyStruct::new(1, "All is fine 1")));
    assert_eq!(index1.age, 0);
    assert_eq!(index1.index, 1);

    assert_eq!(arena.get(index2), Some(&MyStruct::new(2, "All is fine 2")));
    assert_eq!(index2.age, 0);
    assert_eq!(index2.index, 2);

    assert_eq!(arena.get(index3), Some(&MyStruct::new(3, "All is fine 3")));
    assert_eq!(index3.age, 0);
    assert_eq!(index3.index, 3);

    assert_eq!(arena.get(index4), Some(&MyStruct::new(4, "All is fine 4")));
    assert_eq!(index4.age, 0);
    assert_eq!(index4.index, 4);
}

#[test]
fn arena_alloc_chunk_size() {
    // One value more than a chunk holds forces a second chunk.
    let (arena, indexs) = arena_alloc_n(TEST_ARENA_CHUNK_SIZE + 1);

    assert_eq!(arena.chunk_count(), 2);
    assert_eq!(arena.chunk_len(0), TEST_ARENA_CHUNK_SIZE);
    assert_eq!(arena.chunk_len(1), 1);
    assert_eq!(arena.free_count(), 0);
    assert_eq!(arena.current_age(), 1);
    assert_eq!(arena.next_index(), 1);
    assert_eq!(indexs.len(), TEST_ARENA_CHUNK_SIZE + 1);
    assert_eq!(indexs[TEST_ARENA_CHUNK_SIZE - 1].age, 0);
    assert_eq!(indexs[TEST_ARENA_CHUNK_SIZE - 1].index, TEST_ARENA_CHUNK_SIZE - 1);
    assert_eq!(indexs[TEST_ARENA_CHUNK_SIZE].age, 1);
    assert_eq!(indexs[TEST_ARENA_CHUNK_SIZE].index, 0);
}

#[test]
fn arena_alloc_check_index() {
    let (arena, indexs) = arena_alloc_n(TEST_ARENA_CHUNK_SIZE + 1);

    assert_eq!(arena.chunk_count(), 2);
    assert_eq!(arena.chunk_len(0), TEST_ARENA_CHUNK_SIZE);
    assert_eq!(arena.chunk_len(1), 1);
    assert_eq!(arena.free_count(), 0);
    assert_eq!(arena.current_age(), 1);
    assert_eq!(arena.next_index(), 1);

    let first0 = Index { arena_id: arena.id(), age: 0, index: 0 };
    let last0 = Index { arena_id: arena.id(), age: 0, index: TEST_ARENA_CHUNK_SIZE - 1 };
    let after_last0 = Index { arena_id: arena.id(), age: 0, index: TEST_ARENA_CHUNK_SIZE };

    let first1 = Index { arena_id: arena.id(), age: 1, index: 0 };
    let last1 = Index { arena_id: arena.id(), age: 1, index: 0 };
    let after_last1 = Index { arena_id: arena.id(), age: 1, index: 1 };

    let fake_index = Index { arena_id: 33, age: 0, index: 0 };

    assert_eq!(arena.check_index(first0), true);
    assert_eq!(arena.check_index(last0), true);
    assert_eq!(arena.check_index(after_last0), false);

    assert_eq!(arena.check_index(first1), true);
    assert_eq!(arena.check_index(last1), true);
    assert_eq!(arena.check_index(after_last1), false);

    assert_eq!(arena.check_index(fake_index), false);

    let mut age = 0;
    let mut index = 0;
    for i in 0..TEST_ARENA_CHUNK_SIZE + 1 {
        assert_eq!(indexs[i].age, age);
        assert_eq!(indexs[i].index, index);

        index += 1;
        if index == TEST_ARENA_CHUNK_SIZE {
            age += 1;
            index = 0;
        }
    }
}

#[test]
fn arena_free_and_alloc_after_free() {
    let (mut arena, indexs) = arena_alloc_n(100 * TEST_ARENA_CHUNK_SIZE + 1);

    assert_eq!(arena.chunk_count(), 101);
    assert_eq!(arena.chunk_len(0), TEST_ARENA_CHUNK_SIZE);
    assert_eq!(arena.free_count(), 0);
    assert_eq!(arena.current_age(), 100);
    assert_eq!(arena.next_index(), 1);

    let index1 = Index { arena_id: arena.id(), age: 13, index: 13 };
    assert_eq!(arena.free(index1), Ok(()));
    assert_eq!(arena.free_count(), 1);
    assert_eq!(arena.freed_handle(0), index1);

    assert_eq!(
        arena.get(Index::new(arena.id(), 13, 12)),
        Some(&MyStruct::new(13 * TEST_ARENA_CHUNK_SIZE + 12, "All is fine"))
    );
    assert_eq!(arena.get(index1), None);
    assert_eq!(
        arena.get(Index::new(arena.id(), 13, 14)),
        Some(&MyStruct::new(13 * TEST_ARENA_CHUNK_SIZE + 14, "All is fine"))
    );

    let index2 = Index { arena_id: arena.id(), age: 100, index: 0 };
    assert_eq!(arena.free(index2), Ok(()));
    assert_eq!(arena.free_count(), 2);
    assert_eq!(arena.freed_handle(1), index2);

    assert_eq!(
        arena.get(Index::new(arena.id(), 99, TEST_ARENA_CHUNK_SIZE - 1)),
        Some(&MyStruct::new(99 * TEST_ARENA_CHUNK_SIZE + 63, "All is fine"))
    );
    assert_eq!(arena.get(index2), None);

    // Allocation after free reuses the most recently freed slot first.
    let new_index1 = arena.allocate(MyStruct::new(777, "All is fine"));
    assert_eq!(index2, new_index1);
    assert_eq!(arena.get(index2), Some(&MyStruct::new(777, "All is fine")));
    assert_eq!(arena.free_count(), 1);

    let new_index2 = arena.allocate(MyStruct::new(888, "All is fine"));
    assert_eq!(index1, new_index2);
    assert_eq!(arena.get(index1), Some(&MyStruct::new(888, "All is fine")));
    assert_eq!(arena.free_count(), 0);

    let mut age = 0;
    let mut index = 0;
    for i in 0..TEST_ARENA_CHUNK_SIZE + 1 {
        assert_eq!(indexs[i].age, age);
        assert_eq!(indexs[i].index, index);

        index += 1;
        if index == TEST_ARENA_CHUNK_SIZE {
            age += 1;
            index = 0;
        }
    }
}

#[test]
fn successive_handles_differ_and_keep_values() {
    let mut arena = Arena::<u32>::with_id(2, 5);
    let a = arena.allocate(10);
    let b = arena.allocate(20);
    assert_ne!(a, b);
    let c = arena.allocate(30);
    let d = arena.allocate(40);
    assert_eq!(arena.free(c), Ok(()));
    let e = arena.allocate(50);
    assert_eq!(e, c);
    assert_eq!(arena.free(d), Ok(()));
    assert_eq!(arena.get(a), Some(&10));
    assert_eq!(arena.get(b), Some(&20));
    assert_eq!(arena.get(e), Some(&50));
}

#[test]
fn growth_with_small_chunks() {
    let mut arena = Arena::<u8>::new(3);
    for i in 0..4u8 {
        arena.allocate(i);
    }
    assert_eq!(arena.chunk_count(), 2);
    assert_eq!(arena.chunk_len(0), 3);
    assert_eq!(arena.chunk_len(1), 1);
}

#[test]
fn chunk_of_one_slot() {
    let mut arena = Arena::<u8>::with_id(1, 1);
    let a = arena.allocate(1);
    let b = arena.allocate(2);
    assert_eq!(a, Index::new(1, 0, 0));
    assert_eq!(b, Index::new(1, 1, 0));
    assert_eq!(arena.chunk_count(), 2);
    assert_eq!(arena.next_index(), 1);
}

#[test]
fn freed_slots_reused_last_in_first_out() {
    let mut arena = Arena::<u8>::with_id(8, 2);
    let a = arena.allocate(1);
    let b = arena.allocate(2);
    let _c = arena.allocate(3);
    assert_eq!(arena.free(a), Ok(()));
    assert_eq!(arena.free(b), Ok(()));
    assert_eq!(arena.allocate(4), b);
    assert_eq!(arena.allocate(5), a);
    assert_eq!(arena.allocate(6), Index::new(2, 0, 3));
}

#[test]
fn foreign_handle_rejected() {
    let mut first = Arena::<u8>::with_id(4, 10);
    let mut second = Arena::<u8>::with_id(4, 11);
    let h = first.allocate(1);
    second.allocate(2);
    assert!(second.check_index(Index::new(11, 0, 0)));
    assert!(!second.check_index(h));
    assert_eq!(second.free(h), Err(ArenaError::InvalidHandle));
    assert_eq!(second.free_count(), 0);
    assert_eq!(second.len(), 1);
    assert!(!second.is_live(h));
    assert!(!second.is_freed(h));
    let past_end = Index::new(11, 0, 1);
    assert_eq!(second.free(past_end), Err(ArenaError::InvalidHandle));
    assert_eq!(second.free(Index::new(11, 5, 0)), Err(ArenaError::InvalidHandle));
}

#[test]
fn double_free_detected() {
    let mut arena = Arena::<u8>::with_id(4, 3);
    let h = arena.allocate(9);
    assert_eq!(arena.free(h), Ok(()));
    assert_eq!(arena.free(h), Err(ArenaError::DoubleFree));
    assert_eq!(arena.free_count(), 1);
    assert_eq!(arena.freed_handle(0), h);
    assert!(arena.is_freed(h));
}

#[test]
fn round_trip_store_free_reuse() {
    let mut arena = Arena::<String>::new(4);
    let h = arena.allocate("first".to_string());
    assert_eq!(arena.get(h), Some(&"first".to_string()));
    assert_eq!(arena.free(h), Ok(()));
    assert_eq!(arena.get(h), None);
    let h2 = arena.allocate("second".to_string());
    assert_eq!(h2, h);
    assert_eq!(arena.get(h), Some(&"second".to_string()));
}

#[test]
fn get_mut_writes_into_the_slot() {
    let mut arena = Arena::<u32>::with_id(4, 6);
    let a = arena.allocate(1);
    let b = arena.allocate(2);
    if let Some(v) = arena.get_mut(a) {
        *v = 100;
    }
    assert_eq!(arena.get(a), Some(&100));
    assert_eq!(arena.get(b), Some(&2));
    assert_eq!(arena.free(b), Ok(()));
    assert_eq!(arena.get_mut(b), None);
}

#[test]
fn live_count_and_queries() {
    let mut arena = Arena::<u32>::with_id(2, 4);
    assert_eq!(arena.len(), 0);
    let a = arena.allocate(1);
    let b = arena.allocate(2);
    let c = arena.allocate(3);
    assert_eq!(arena.len(), 3);
    assert_eq!(arena.free(b), Ok(()));
    assert_eq!(arena.len(), 2);
    assert!(arena.is_live(a));
    assert!(arena.is_live(c));
    assert!(!arena.is_live(b));
    assert!(arena.is_freed(b));
    assert!(!arena.is_freed(a));
    assert!(!arena.is_freed(Index::new(4, 9, 0)));
    assert_eq!(arena.id(), 4);
}

#[test]
fn fresh_arenas_get_distinct_ids() {
    let a = Arena::<u8>::new(4);
    let b = Arena::<u8>::new(4);
    assert_ne!(a.id(), b.id());
}
