use serverx::ecs::archetype::Archetype;
use serverx::ecs::entity::Entity;
use serverx::ecs::execution::iter::plan_par_iter;
use serverx::ecs::execution::pipeline::{plan_pipeline, ParPipeline, Pipeline};
use serverx::ecs::message::Messages;
use serverx::ecs::registry::access::{Accessor, IterAccessor};
use serverx::ecs::registry::{compare_keys, KeyOrder, Registry};
use serverx::ecs::sort::{insertion_cosort, insertion_sort, insertion_sort_noalias};
use serverx::ecs::storage::channel::{Channel, UnsafeVecCell};
use serverx::ecs::storage::column::Column;
use serverx::ecs::storage::event::{EventGroup, EventStorage};
use serverx::ecs::storage::table::{Table, TablePartitionsMut};
use serverx::ecs::util::{assert_no_alias, disjoint, subset};

const POSITION: u64 = 10;
const VELOCITY: u64 = 11;
const HEALTH: u64 = 12;

fn table_of_three() -> Table {
    Table::new(
        vec![Column::new(4), Column::new(8), Column::new(4)],
        vec![POSITION, VELOCITY, HEALTH],
    )
}

#[test]
fn sort_test() {
    let mut x: [u64; 4] = [1, 3, 2, 4];
    let mut y: [u64; 4] = [1, 2, 3, 4];
    insertion_cosort(x.as_mut_slice(), y.as_mut_slice());
    println!("{:?} {:?}", x, y);
    assert_eq!(x, [1, 2, 3, 4]);
    assert_eq!(y, [1, 3, 2, 4]);
}

#[test]
fn sort_orders_and_keeps_elements() {
    let mut x: Vec<u64> = vec![5, 1, 4, 1, 3];
    insertion_sort(x.as_mut_slice());
    assert_eq!(x, vec![1, 1, 3, 4, 5]);
    let mut y: Vec<u64> = vec![9, 2, 7];
    insertion_sort_noalias(y.as_mut_slice());
    assert_eq!(y, vec![2, 7, 9]);
    let mut empty: Vec<u64> = vec![];
    insertion_sort(empty.as_mut_slice());
    assert!(empty.is_empty());
}

#[test]
fn util_subset_and_disjoint() {
    assert!(subset(&[1, 2], &[2, 3, 1]));
    assert!(!subset(&[1, 4], &[2, 3, 1]));
    assert!(subset(&[], &[]));
    assert!(disjoint(&[1, 2], &[3, 4]));
    assert!(!disjoint(&[1, 2], &[2, 4]));
    assert!(disjoint(&[], &[1]));
    assert_no_alias(&[1, 2, 3], "no repeated types");
}

#[test]
fn entity_accessors() {
    let e = Entity::new(7, 3, 9);
    assert_eq!(e.generation(), 7);
    assert_eq!(e.archetype_id(), 3);
    assert_eq!(e.archetype_idx(), 9);
    let d = Entity::default();
    assert_eq!((d.generation(), d.archetype_id(), d.archetype_idx()), (0, 0, 0));
    assert_eq!(e, Entity::new(7, 3, 9));
    assert_ne!(e, d);
}

#[test]
fn column_test() {
    let mut c = Column::new(4);
    assert_eq!(c.capacity(), 0);
    c.grow();
    assert_eq!(c.capacity(), 1);
    c.write(0, 123i32.to_le_bytes().to_vec());
    println!("{:?}", c.read(0));
    assert_eq!(c.read(0), 123i32.to_le_bytes().to_vec());
}

#[test]
fn column_growth() {
    let mut c = Column::new(2);
    c.grow();
    c.grow();
    assert_eq!(c.capacity(), 2);
    c.grow();
    assert_eq!(c.capacity(), 4);
    c.grow_amortized(1);
    assert_eq!(c.capacity(), 8);
    c.grow_amortized(20);
    assert_eq!(c.capacity(), 28);
    c.grow_exact(2);
    assert_eq!(c.capacity(), 30);
    assert_eq!(c.read(29), vec![0, 0]);
    let z = Column::new(0);
    assert_eq!(z.capacity(), usize::MAX);
    assert!(z.read(5).is_empty());
}

#[test]
fn column_swap_remove() {
    let mut c = Column::new(1);
    c.grow_exact(3);
    c.write(0, vec![1]);
    c.write(1, vec![2]);
    c.write(2, vec![3]);
    c.swap_remove(0, 3);
    assert_eq!(c.read(0), vec![3]);
    assert_eq!(c.read(2), vec![1]);
}

#[test]
fn table_test() {
    let mut t = table_of_three();
    for i in 0..25i32 {
        t.push(
            &[POSITION, VELOCITY, HEALTH],
            vec![i.to_le_bytes().to_vec(), 1i64.to_le_bytes().to_vec(), 3.3f32.to_le_bytes().to_vec()],
        );
    }
    assert_eq!(t.len(), 25);
    let mut starts = vec![];
    let mut parts = t.partitions(&[POSITION, HEALTH], 8);
    while let Some(p) = parts.next() {
        println!("PARTITION START");
        let mut rows = p.iter();
        while let Some(row) = rows.next() {
            let x = t.column(0).read(row);
            let y = t.column(2).read(row);
            println!("{:?} {:?}", x, y);
        }
        println!("PARTITION END");
        starts.push(p.start());
    }
    assert_eq!(starts, vec![0, 8, 16, 24]);
}

#[test]
fn table_push_grows_and_writes() {
    let mut t = table_of_three();
    t.push(&[HEALTH, POSITION], vec![vec![1, 1, 1, 1], vec![2, 2, 2, 2]]);
    assert_eq!(t.len(), 1);
    assert_eq!(t.column(0).capacity(), 1);
    assert_eq!(t.column(2).read(0), vec![1, 1, 1, 1]);
    assert_eq!(t.column(0).read(0), vec![2, 2, 2, 2]);
    t.push(&[POSITION, POSITION], vec![vec![3, 3, 3, 3], vec![4, 4, 4, 4]]);
    assert_eq!(t.column(0).read(1), vec![4, 4, 4, 4]);
    assert_eq!(t.column(0).capacity(), 2);
    t.push(&[VELOCITY], vec![vec![9; 8]]);
    assert_eq!(t.column(1).capacity(), 4);
    assert_eq!(t.column(1).read(2), vec![9; 8]);
}

#[test]
fn table_type_lookup() {
    let t = table_of_three();
    assert_eq!(t.type_ids(), &[POSITION, VELOCITY, HEALTH]);
    assert_eq!(t.try_as_mut_ptr(&[HEALTH, POSITION]).unwrap(), vec![2, 0]);
    assert!(t.try_as_mut_ptr(&[HEALTH, 99]).is_err());
    assert_eq!(t.as_mut_ptr(&[VELOCITY]), vec![1]);
}

#[test]
fn table_partition_edges() {
    let mut t = table_of_three();
    for _ in 0..5 {
        t.push(&[POSITION], vec![vec![0; 4]]);
    }
    let mut parts = t.partitions_mut(&[POSITION], 2);
    let mut ranges = vec![];
    while let Some(p) = parts.next() {
        ranges.push((p.start(), p.end()));
    }
    assert_eq!(ranges, vec![(0, 2), (2, 4), (4, 5)]);
    assert!(parts.next().is_none());
    let mut empty = TablePartitionsMut::empty();
    assert!(empty.next().is_none());
    let mut it = t.iter_range(&[POSITION], 3, 10);
    assert_eq!(it.next(), Some(3));
    assert_eq!(it.next(), Some(4));
    assert_eq!(it.next(), None);
}

#[test]
fn table_swap_remove_drops_a_row() {
    let mut t = table_of_three();
    t.push(&[POSITION], vec![vec![1; 4]]);
    t.push(&[POSITION], vec![vec![2; 4]]);
    t.swap_remove(0);
    assert_eq!(t.len(), 1);
    assert_eq!(t.column(0).read(0), vec![2; 4]);
}

#[test]
fn archetype_test() {
    let a = Archetype::new(
        0,
        vec![Column::new(8), Column::new(8), Column::new(8)],
        vec![POSITION, VELOCITY, HEALTH],
    );
    assert_eq!(a.len(), 0);
    assert_eq!(a.id(), 0);
}

#[test]
fn archetype_push_get_remove() {
    let mut a = Archetype::new(5, vec![Column::new(4), Column::new(8)], vec![POSITION, VELOCITY]);
    let e1 = a.push(&[POSITION, VELOCITY], vec![vec![1; 4], vec![2; 8]]);
    let e2 = a.push(&[POSITION, VELOCITY], vec![vec![3; 4], vec![4; 8]]);
    assert_eq!(e1.generation(), 1);
    assert_eq!(e2.generation(), 2);
    assert_eq!(e1.archetype_id(), 5);
    assert!(a.contains(e1));
    assert!(a.contains(e2));
    assert_eq!(a.index_of(e2), Some(1));
    // The components are read where the columns begin, in the first row.
    assert_eq!(a.get(e2, &[VELOCITY]), Some(vec![vec![2; 8]]));
    assert_eq!(a.get(e1, &[VELOCITY, POSITION]), Some(vec![vec![2; 8], vec![1; 4]]));
    assert_eq!(a.get(e2, &[HEALTH]), None);
    assert!(a.remove(e1));
    assert!(!a.contains(e1));
    assert!(a.contains(e2));
    assert_eq!(a.index_of(e2), Some(0));
    assert_eq!(a.get(e2, &[POSITION]), Some(vec![vec![3; 4]]));
    assert!(!a.remove(e1));
    assert_eq!(a.len(), 1);
    assert_eq!(a.entities(), &[e2]);
}

#[test]
fn message_test() {
    let mut messages: Messages<&'static str> = Messages::new();
    messages.register(1);
    println!("{:?}", messages.messages(1));
    messages.send(1, "hello");
    messages.send(1, "world");
    messages.send(1, "!");
    println!("{:?}", messages.messages(1));
    assert_eq!(messages.messages(1), &["hello", "world", "!"]);
}

#[test]
fn test_sync() {
    let mut messages: Messages<&'static str> = Messages::new();
    messages.register(1);
    println!("{:?}", messages.messages(1));
    messages.send_tl(1, "hello");
    messages.send_tl(1, "tl");
    println!("{:?}", messages.messages(1));
    assert!(messages.messages(1).is_empty());
    messages.send(1, "!");
    println!("{:?}", messages.messages(1));
    messages.sync(1);
    println!("{:?}", messages.messages(1));
    assert_eq!(messages.messages(1), &["!", "hello", "tl"]);
}

#[test]
fn messages_keep_types_apart() {
    let mut m: Messages<u32> = Messages::new();
    m.send(9, 1);
    m.register(3);
    m.send(3, 2);
    m.register(9);
    assert_eq!(m.messages(9), &[1]);
    assert_eq!(m.messages(3), &[2]);
    assert!(m.messages(4).is_empty());
    m.flush(9);
    assert!(m.messages(9).is_empty());
    assert_eq!(m.get(3).messages(), &[2]);
    assert_eq!(m.get_or_register(5).messages().len(), 0);
    let cell = m.unsafe_cell();
    assert_eq!(cell.messages(3), &[2]);
}

#[test]
fn channel_and_sender() {
    let mut c: Channel<u8> = Channel::new();
    {
        let mut s = c.sender();
        s.send(1);
        s.send(2);
    }
    {
        let mut s = c.sender_tl();
        s.send(3);
    }
    assert_eq!(c.messages(), &[1, 2]);
    c.sync();
    assert_eq!(c.messages(), &[1, 2, 3]);
    c.flush();
    assert!(c.messages().is_empty());
    let mut v: UnsafeVecCell<u8> = UnsafeVecCell::new();
    v.get_mut().push(4);
    assert_eq!(v.get(), &vec![4]);
}

#[test]
fn event_storage() {
    let mut s: EventStorage<&'static str> = EventStorage::new();
    s.send(1, "dropped");
    assert!(s.events(1).is_empty());
    s.register(1);
    s.send(1, "a");
    s.send_sync(1, "b");
    assert_eq!(s.events(1), &["a"]);
    s.sync(1);
    assert_eq!(s.events(1), &["a", "b"]);
    s.flush(1);
    assert!(s.events(1).is_empty());
    let mut g: EventGroup<u8> = EventGroup::new();
    g.push_queued(1);
    g.push(2);
    g.sync();
    assert_eq!(g.events(), &[2, 1]);
}

#[test]
fn pipelines() {
    let p = Pipeline::new((1u8, 2u8), 5);
    let q = ParPipeline::new("iters", 7);
    let _ = (p, q);
}

#[test]
fn compare_keys_is_lexicographic() {
    assert_eq!(compare_keys(&[1, 2], &[1, 3]), KeyOrder::Less);
    assert_eq!(compare_keys(&[1, 2], &[1, 2]), KeyOrder::Equal);
    assert_eq!(compare_keys(&[1, 2, 0], &[1, 2]), KeyOrder::Greater);
    assert_eq!(compare_keys(&[], &[0]), KeyOrder::Less);
    assert_eq!(compare_keys(&[2], &[1, 9, 9]), KeyOrder::Greater);
}

#[test]
fn registry_push_finds_archetypes_by_type_set() {
    let mut reg: Registry<u8> = Registry::new();
    let e1 = reg.push(&[POSITION, VELOCITY, HEALTH], vec![vec![1; 4], vec![1; 8], vec![1; 4]]);
    let e2 = reg.push(&[HEALTH, POSITION, VELOCITY], vec![vec![2; 4], vec![2; 4], vec![2; 8]]);
    let e3 = reg.push(&[VELOCITY, HEALTH], vec![vec![3; 8], vec![3; 4]]);
    let e4 = reg.push(&[POSITION, HEALTH], vec![vec![4; 4], vec![4; 4]]);
    // The same set of types in another order goes to the same archetype.
    assert_eq!(e1.archetype_id(), 0);
    assert_eq!(e2.archetype_id(), 0);
    assert_eq!(e3.archetype_id(), 1);
    assert_eq!(e4.archetype_id(), 2);
    assert_eq!(reg.archetypes().len(), 3);
    assert_eq!(reg.archetypes()[0].type_ids(), &[POSITION, VELOCITY, HEALTH]);
    assert_eq!(reg.archetypes()[2].type_ids(), &[POSITION, HEALTH]);
    for e in [e1, e2, e3, e4] {
        assert!(reg.contains(e));
    }
    assert!(reg.has(e1, &[HEALTH, POSITION]));
    assert!(!reg.has(e3, &[POSITION]));
    assert!(reg.has(e3, &[]));
    // Components are read where the columns begin.
    assert_eq!(reg.get(e3, &[HEALTH, VELOCITY]), Some(vec![vec![3; 4], vec![3; 8]]));
    assert_eq!(reg.get(e2, &[VELOCITY]), Some(vec![vec![1; 8]]));
    assert_eq!(reg.get(e4, &[VELOCITY]), None);
    assert_eq!(reg.get_mut(e4, &[HEALTH, POSITION]), Some(vec![1, 0]));
    assert_eq!(reg.unsafe_cell().get_mut(e1, &[VELOCITY]), Some(vec![1]));
}

#[test]
fn registry_remove() {
    let mut reg: Registry<u8> = Registry::new();
    let e1 = reg.push(&[POSITION], vec![vec![1; 4]]);
    let e2 = reg.push(&[POSITION], vec![vec![2; 4]]);
    assert!(reg.remove(e1));
    assert!(!reg.contains(e1));
    assert!(reg.contains(e2));
    assert!(!reg.remove(e1));
    assert_eq!(reg.get(e2, &[POSITION]), Some(vec![vec![2; 4]]));
    let stranger = Entity::new(1, 7, 0);
    assert!(!reg.contains(stranger));
    assert!(!reg.remove(stranger));
    assert!(!reg.has(stranger, &[]));
    assert_eq!(reg.get(stranger, &[]), None);
}

#[test]
fn iter_accessor_lookups() {
    let mut reg: Registry<u8> = Registry::new();
    let e1 = reg.push(&[POSITION, VELOCITY], vec![vec![1; 4], vec![2; 8]]);
    let e2 = reg.push(&[POSITION, VELOCITY], vec![vec![3; 4], vec![4; 8]]);
    let mut acc = IterAccessor::new(
        reg.unsafe_cell(),
        vec![POSITION],
        vec![POSITION, VELOCITY],
        vec![VELOCITY],
        vec![POSITION],
    );
    acc.visit(0, 0);
    assert!(acc.contains(e1));
    assert!(acc.has(e2, &[VELOCITY, POSITION]));
    // The visited entity may still be asked for what the iteration only reads.
    assert_eq!(acc.get(e1, &[VELOCITY]), Some(vec![vec![2; 8]]));
    assert_eq!(acc.get(e2, &[POSITION, VELOCITY]), Some(vec![vec![1; 4], vec![2; 8]]));
    assert_eq!(acc.get_mut(e2, &[VELOCITY], &[POSITION]), Some(vec![1, 0]));
}

#[test]
fn messages_senders_deliver_and_queue() {
    let mut m: Messages<u32> = Messages::new();
    m.register(5);
    {
        let mut s = m.sender(5);
        s.send(1);
        s.send(2);
    }
    {
        let mut s = m.sender_tl(5);
        s.send(3);
    }
    assert_eq!(m.messages(5), &[1, 2]);
    m.sync(5);
    assert_eq!(m.messages(5), &[1, 2, 3]);
}

#[test]
fn registry_mod_test() {
    const A: u64 = 1;
    const B: u64 = 2;
    const C: u64 = 3;
    let mut reg: Registry<u8> = Registry::new();
    let abc = |i: u8| vec![vec![i; 8], vec![i; 8], vec![i; 8]];
    let e1 = reg.push(&[A, B, C], abc(1));
    let e2 = reg.push(&[A, B, C], abc(2));
    let e3 = reg.push(&[A, B, C], abc(3));
    let e4 = reg.push(&[A, B, C], abc(4));
    let e5 = reg.push(&[B, C], vec![vec![5; 8], vec![5; 8]]);
    let e6 = reg.push(&[A, C], vec![vec![6; 8], vec![6; 8]]);
    let e7 = reg.push(&[A, B], vec![vec![7; 8], vec![7; 8]]);
    let all = [e1, e2, e3, e4, e5, e6, e7];
    assert_eq!(all.map(|e| e.archetype_id()), [0, 0, 0, 0, 1, 2, 3]);
    assert_eq!(reg.archetypes().len(), 4);
    assert_eq!(reg.archetypes()[0].len(), 4);
    for a in 0..all.len() {
        assert!(reg.contains(all[a]));
        for b in 0..a {
            assert_ne!(all[a], all[b]);
        }
    }
    assert!(reg.remove(e2));
    assert!(reg.remove(e3));
    assert!(reg.remove(e7));
    for e in [e2, e3, e7] {
        assert!(!reg.contains(e));
    }
    for e in [e1, e4, e5, e6] {
        assert!(reg.contains(e));
    }
    assert_eq!(reg.archetypes()[0].len(), 2);
    assert!(!reg.remove(e2));
    for e in [e1, e2, e3, e4] {
        reg.get_mut(e, &[A]);
    }
    assert_eq!(reg.push(&[C, A, B], abc(8)).archetype_id(), 0);
}

#[test]
fn entities_are_equal_by_their_parts() {
    let e = Entity::new(3, 1, 9);
    assert_eq!((e.generation(), e.archetype_id(), e.archetype_idx()), (3, 1, 9));
    assert_eq!(e, Entity::new(3, 1, 9));
    assert_ne!(e, Entity::new(4, 1, 9));
    assert_ne!(e, Entity::new(3, 2, 9));
    assert_ne!(e, Entity::new(3, 1, 8));
}

#[test]
fn par_iter_plan_covers_matching_archetypes() {
    let mut a = Archetype::new(0, vec![Column::new(4), Column::new(8)], vec![POSITION, VELOCITY]);
    let mut b = Archetype::new(1, vec![Column::new(4)], vec![HEALTH]);
    let mut c = Archetype::new(2, vec![Column::new(8), Column::new(4)], vec![VELOCITY, POSITION]);
    for _ in 0..5 {
        a.push(&[POSITION, VELOCITY], vec![vec![0; 4], vec![0; 8]]);
    }
    b.push(&[HEALTH], vec![vec![0; 4]]);
    for _ in 0..2 {
        c.push(&[VELOCITY, POSITION], vec![vec![0; 8], vec![0; 4]]);
    }
    let archetypes = vec![a, b, c];
    let plan = plan_par_iter(&archetypes, &[POSITION], &[POSITION], &[HEALTH], 2);
    assert_eq!(plan, vec![(0, 0, 2), (0, 2, 4), (0, 4, 5), (2, 0, 2)]);
    let whole = plan_par_iter(&archetypes, &[VELOCITY, POSITION], &[], &[], 4096);
    assert_eq!(whole, vec![(0, 0, 5), (2, 0, 2)]);
    assert!(plan_par_iter(&archetypes, &[99], &[], &[], 1).is_empty());
}

#[test]
fn pipeline_plan_takes_turns_per_batch() {
    let mut a = Archetype::new(0, vec![Column::new(4), Column::new(8)], vec![POSITION, VELOCITY]);
    let mut b = Archetype::new(1, vec![Column::new(4)], vec![HEALTH]);
    for _ in 0..3 {
        a.push(&[POSITION, VELOCITY], vec![vec![0; 4], vec![0; 8]]);
    }
    b.push(&[HEALTH], vec![vec![0; 4]]);
    let archetypes = vec![a, b];
    let values = vec![vec![POSITION], vec![HEALTH], vec![VELOCITY, POSITION]];
    let writes = vec![vec![POSITION], vec![], vec![VELOCITY]];
    let plan = plan_pipeline(&archetypes, &values, &writes, 2);
    assert_eq!(
        plan,
        vec![(0, 0, 0, 2), (2, 0, 0, 2), (0, 0, 2, 3), (2, 0, 2, 3), (1, 1, 0, 1)]
    );
    assert!(plan_pipeline(&archetypes, &vec![vec![99]], &vec![vec![]], 1).is_empty());
}
