use serverx::game::chunk::generators::flat::{Block, FlatGeneratorBuilder};
use serverx::game::chunk::ChunkLoadStatus;
use serverx::game::Game;
use serverx::game::chunk::store::{ChunkPosition, ChunkStore, ChunkStoreEntry, ChunkStoreGroup};

#[test]
fn test_chunk_store_group_empty() {
    let mut group = ChunkStoreGroup::<4, 16>::new();
    assert_eq!(group.occupied_count(), 0);
    for i in 0..16usize {
        assert!(group.get((i / 4, i % 4)).is_none());
        assert!(group.get_mut((i / 4, i % 4)).is_none());
    }
}

#[test]
fn group_offsets_out_of_range() {
    let mut group = ChunkStoreGroup::<4, 16>::new();
    assert!(group.get((0, 4)).is_none());
    assert!(group.remove((0, 4)).is_none());
    assert!(group.insert((4, 3), ChunkStoreEntry::new()).is_none());
    assert_eq!(group.occupied_count(), 0);
    assert!(group.get((4, 3)).is_none());
}

#[test]
fn store_without_groups() {
    let mut store = ChunkStore::new();
    assert!(store.get(ChunkPosition { x: -5, z: 7 }).is_none());
    assert!(store.get_mut(ChunkPosition { x: 3, z: 3 }).is_none());
    assert!(store.remove(ChunkPosition { x: -1, z: 0 }).is_none());
    let e = ChunkStoreEntry::new();
    assert_eq!((e.view_count, e.last_ticked), (0, 0));
}

#[test]
fn flat_generator_layers_are_cut_at_world_height() {
    let generator = FlatGeneratorBuilder::new(4)
        .layer(Block(7), 1)
        .layer(Block(3), 2)
        .layer(Block(2), 3)
        .build();
    assert_eq!(generator.layers(), &[Block(7), Block(3), Block(3), Block(2)]);
    let low = FlatGeneratorBuilder::new(10).layer(Block(1), 2).build();
    assert_eq!(low.layers(), &[Block(1), Block(1)]);
    let none = FlatGeneratorBuilder::new(0).layer(Block(1), 5).build();
    assert!(none.layers().is_empty());
}

#[test]
fn game_starts_empty_and_ticks() {
    let mut game: Game<u8> = Game::new();
    game.tick();
    assert_ne!(ChunkLoadStatus::Loading, ChunkLoadStatus::Unloading);
}

#[test]
fn empty_group_iterates_nothing() {
    let group = ChunkStoreGroup::<4, 16>::new();
    let mut it = group.iter();
    assert!(it.next().is_none());
    assert!(it.next().is_none());
}

#[test]
fn test_chunk_store_group() {
    let mut group = ChunkStoreGroup::<4, 16>::new();
    for i in 0..4 {
        for j in 0..4 {
            assert!(group.insert((i, j), ChunkStoreEntry::new()).is_none());
        }
    }
    for i in 0..4 {
        for j in 0..4 {
            assert!(group.get((i, j)).is_some());
        }
    }

    for i in 0..4 {
        for j in 0..4 {
            assert!(group.get_mut((i, j)).is_some());
        }
    }

    for i in 0..4 {
        assert!(group.remove((i, i)).is_some());
    }

    for i in 0..4 {
        assert!(group.remove((i, i)).is_none());
    }

    for i in 0..4 {
        for j in 0..4 {
            assert_eq!(group.get((i, j)).is_some(), i != j);
            assert_eq!(group.get_mut((i, j)).is_some(), i != j);
        }
    }

    for i in 0..4 {
        for j in 0..4 {
            if i != j {
                assert!(group.insert((i, j), ChunkStoreEntry::new()).is_some());
            }
        }
    }
}

#[test]
fn group_counts_occupied_entries() {
    let mut group = ChunkStoreGroup::<4, 16>::new();
    for i in 0..4 {
        for j in 0..4 {
            group.insert((i, j), ChunkStoreEntry::new());
        }
    }
    assert_eq!(group.occupied_count(), 16);
    for i in 0..4 {
        group.remove((i, i));
        group.remove((i, i));
    }
    assert_eq!(group.occupied_count(), 12);
    group.insert((0, 1), ChunkStoreEntry::new());
    assert_eq!(group.occupied_count(), 12);
    let mut it = group.iter();
    let mut n = 0;
    while it.next().is_some() {
        n += 1;
    }
    assert_eq!(n, 12);
}

#[test]
fn store_insert_get_remove() {
    let mut store = ChunkStore::new();
    let p = ChunkPosition { x: -5, z: 7 };
    let entry = ChunkStoreEntry { view_count: 3, last_ticked: 9 };
    assert!(store.insert(p, entry).is_none());
    assert_eq!(store.get(p), Some(&entry));
    assert!(store.get(ChunkPosition { x: -6, z: 7 }).is_none());
    let q = ChunkPosition { x: -8, z: 4 };
    assert!(store.insert(q, ChunkStoreEntry::new()).is_none());
    assert_eq!(store.insert(p, ChunkStoreEntry::new()), Some(entry));
    store.get_mut(p).unwrap().view_count = 7;
    assert_eq!(store.get(p).unwrap().view_count, 7);
    assert!(store.remove(p).is_some());
    assert!(store.get(p).is_none());
    assert!(store.get(q).is_some());
    assert!(store.remove(q).is_some());
    assert!(store.remove(q).is_none());
}
