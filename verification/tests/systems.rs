use ecs_core::components::Access;
use ecs_core::components::AccessValue;
use ecs_core::entity::EntityId;
use ecs_core::entity::EntityStore;
use ecs_core::heterogenous_set::Component;
use ecs_core::system::run_simple_system;
use ecs_core::system::SimpleSystem;
use ecs_core::system::System;
use ecs_core::system::SystemSet;
use ecs_core::system::SystemStore;

const KIND_TEST: u64 = 0;
const KIND_U32: u64 = 1;

#[derive(Clone, Copy, PartialEq, Debug)]
enum Comp {
    Test,
    Num(u32),
}

/// The demo system: requires `(u32, Test)` and writes back `u32 + 1`.
struct DoSomethingSystem;

impl SimpleSystem<(), u32, Comp> for DoSomethingSystem {
    fn input_shape(&self) -> Access {
        Access::Both(Box::new(Access::Kind(KIND_U32)), Box::new(Access::Kind(KIND_TEST)))
    }

    fn update_simple(
        &mut self,
        entities: &Vec<(EntityId, AccessValue<Comp>)>,
        _ud: &(),
    ) -> (Vec<(EntityId, Component<Comp>)>, Vec<u32>) {
        let mut writes = Vec::new();
        for (e, v) in entities.iter() {
            let n = match v {
                AccessValue::Both(num, _test) => match **num {
                    AccessValue::One(Comp::Num(n)) => n,
                    _ => panic!("first member must be the u32 component"),
                },
                _ => panic!("conjunction must yield a pair"),
            };
            writes.push((*e, Component { kind: KIND_U32, value: Comp::Num(n + 1) }));
        }
        (writes, Vec::new())
    }
}

fn populated_store() -> EntityStore<Comp> {
    let mut es: EntityStore<Comp> = EntityStore::new();
    for i in 0..3u32 {
        let ent = es.create_entity();
        es.set_component(ent, KIND_TEST, Comp::Test);
        es.set_component(ent, KIND_U32, Comp::Num(i));
    }
    es
}

#[test]
fn _main_test_do_something_system() {
    let mut es: EntityStore<Comp> = EntityStore::new();
    let mut sys = DoSomethingSystem;
    let mut msgs: Vec<u32> = Vec::new();
    let r: Option<()> = sys.update(&mut msgs, &mut es, &());
    assert!(r.is_none());
}

#[test]
fn main_test_do_something_system() {
    let mut es: EntityStore<Comp> = EntityStore::new();
    let mut sys = DoSomethingSystem;
    let mut msgs: Vec<u32> = Vec::new();
    let r: Option<()> = sys.update(&mut msgs, &mut es, &());
    assert!(r.is_none());
}

#[test]
fn tick_over_empty_store_changes_nothing() {
    let mut es: EntityStore<Comp> = EntityStore::new();
    let mut sys = DoSomethingSystem;
    let mut msgs: Vec<u32> = vec![7, 8];
    run_simple_system(&mut sys, &mut msgs, &mut es, &());
    // No messages were produced, and the drain-and-refill kept the queue.
    assert_eq!(msgs, vec![7, 8]);
    // No entity was touched or created.
    let everything = Access::Opt(Box::new(Access::Kind(KIND_TEST)));
    assert_eq!(es.entity_component_pairs(&everything).len(), 0);
}

#[test]
fn one_tick_increments_every_matched_entity() {
    let mut es = populated_store();
    let mut sys = DoSomethingSystem;
    let mut msgs: Vec<u32> = Vec::new();
    run_simple_system(&mut sys, &mut msgs, &mut es, &());
    // Each entity's u32 equals its original value plus one.
    assert_eq!(es.get_component(0, KIND_U32), Some(&Comp::Num(1)));
    assert_eq!(es.get_component(1, KIND_U32), Some(&Comp::Num(2)));
    assert_eq!(es.get_component(2, KIND_U32), Some(&Comp::Num(3)));
    // The same three entities are live: none created, none removed.
    let everything = Access::Opt(Box::new(Access::Kind(KIND_TEST)));
    let snap = es.entity_component_pairs(&everything);
    let ids: Vec<EntityId> = snap.iter().map(|p| p.0).collect();
    assert_eq!(ids, vec![0, 1, 2]);
    assert_eq!(msgs, Vec::<u32>::new());
}

#[test]
fn writes_to_vanished_entities_are_dropped() {
    // The system writes to an id that is removed between snapshot use and
    // write time never happens in one tick; instead check the write path
    // directly: a tick whose system targets a stale id drops that write.
    struct StaleWriter;
    impl SimpleSystem<(), u32, Comp> for StaleWriter {
        fn input_shape(&self) -> Access {
            Access::Kind(KIND_U32)
        }

        fn update_simple(
            &mut self,
            entities: &Vec<(EntityId, AccessValue<Comp>)>,
            _ud: &(),
        ) -> (Vec<(EntityId, Component<Comp>)>, Vec<u32>) {
            let mut writes = Vec::new();
            for (e, _v) in entities.iter() {
                // A write to the matched entity, and one to a stale id.
                writes.push((*e, Component { kind: KIND_U32, value: Comp::Num(99) }));
                writes.push((1000, Component { kind: KIND_U32, value: Comp::Num(1) }));
            }
            (writes, Vec::new())
        }
    }
    let mut es: EntityStore<Comp> = EntityStore::new();
    let a = es.create_entity();
    es.set_component(a, KIND_U32, Comp::Num(0));
    let mut msgs: Vec<u32> = Vec::new();
    run_simple_system(&mut StaleWriter, &mut msgs, &mut es, &());
    assert_eq!(es.get_component(a, KIND_U32), Some(&Comp::Num(99)));
    assert_eq!(es.get_component(1000, KIND_U32), None);
}

#[test]
fn message_handler_filters_incoming_queue_before_compute() {
    struct EvenKeeper;
    impl SimpleSystem<(), u32, Comp> for EvenKeeper {
        fn input_shape(&self) -> Access {
            Access::Kind(KIND_U32)
        }

        fn update_simple(
            &mut self,
            entities: &Vec<(EntityId, AccessValue<Comp>)>,
            _ud: &(),
        ) -> (Vec<(EntityId, Component<Comp>)>, Vec<u32>) {
            let mut produced = Vec::new();
            if !entities.is_empty() {
                produced.push(99);
            }
            (Vec::new(), produced)
        }

        fn handle_message(&mut self, msg: u32) -> Option<u32> {
            if msg % 2 == 0 {
                Some(msg * 10)
            } else {
                None
            }
        }
    }
    let mut es: EntityStore<Comp> = EntityStore::new();
    let a = es.create_entity();
    es.set_component(a, KIND_U32, Comp::Num(0));
    let mut msgs: Vec<u32> = vec![1, 2, 3, 4];
    run_simple_system(&mut EvenKeeper, &mut msgs, &mut es, &());
    // Odd messages dropped, even ones transformed in order, then the
    // produced message appended.
    assert_eq!(msgs, vec![20, 40, 99]);
}

/// A system that signals and marks its execution with a message.
struct Signaller {
    mark: u32,
    signal: Option<u32>,
}

impl System<(), u32, Comp, u32> for Signaller {
    fn update(
        &mut self,
        msgs: &mut Vec<u32>,
        _es: &mut EntityStore<Comp>,
        _ud: &(),
    ) -> Option<u32> {
        msgs.push(self.mark);
        self.signal
    }
}

#[test]
fn signal_does_not_short_circuit_the_tick() {
    let mut es: EntityStore<Comp> = EntityStore::new();
    let mut msgs: Vec<u32> = Vec::new();
    let mut pair = (
        Signaller { mark: 100, signal: Some(41) },
        Signaller { mark: 200, signal: None },
    );
    let r = pair.update_all(&mut msgs, &mut es, &());
    // The first signal is returned, and the second system still executed.
    assert_eq!(r, Some(41));
    assert_eq!(msgs, vec![100, 200]);
}

#[test]
fn container_returns_first_signal_in_declared_order() {
    let mut es: EntityStore<Comp> = EntityStore::new();
    let mut msgs: Vec<u32> = Vec::new();
    let mut list: Vec<Signaller> = vec![
        Signaller { mark: 1, signal: None },
        Signaller { mark: 2, signal: Some(7) },
        Signaller { mark: 3, signal: Some(8) },
    ];
    let r = list.update_all(&mut msgs, &mut es, &());
    assert_eq!(r, Some(7));
    assert_eq!(msgs, vec![1, 2, 3]);
}

#[test]
fn empty_container_tick_has_no_effect() {
    let mut es: EntityStore<Comp> = EntityStore::new();
    let a = es.create_entity();
    es.set_component(a, KIND_U32, Comp::Num(1));
    let mut msgs: Vec<u32> = vec![5];
    let mut list: Vec<Signaller> = Vec::new();
    let r = list.update_all(&mut msgs, &mut es, &());
    assert_eq!(r, None);
    assert_eq!(msgs, vec![5]);
    assert_eq!(es.get_component(a, KIND_U32), Some(&Comp::Num(1)));
}

#[test]
fn wider_groups_run_every_member_in_order() {
    let mut es: EntityStore<Comp> = EntityStore::new();
    let mut msgs: Vec<u32> = Vec::new();
    let mut one = (Signaller { mark: 1, signal: Some(9) },);
    assert_eq!(one.update_all(&mut msgs, &mut es, &()), Some(9));
    assert_eq!(msgs, vec![1]);

    msgs.clear();
    let mut triple = (
        Signaller { mark: 1, signal: None },
        Signaller { mark: 2, signal: None },
        Signaller { mark: 3, signal: Some(5) },
    );
    assert_eq!(triple.update_all(&mut msgs, &mut es, &()), Some(5));
    assert_eq!(msgs, vec![1, 2, 3]);

    msgs.clear();
    let mut quad = (
        Signaller { mark: 1, signal: None },
        Signaller { mark: 2, signal: Some(6) },
        Signaller { mark: 3, signal: Some(7) },
        Signaller { mark: 4, signal: None },
    );
    assert_eq!(quad.update_all(&mut msgs, &mut es, &()), Some(6));
    assert_eq!(msgs, vec![1, 2, 3, 4]);
}

#[test]
fn simple_systems_are_not_read_only_by_default() {
    assert!(!DoSomethingSystem.read_only());
}

#[test]
fn system_store_runs_a_tick_over_its_own_store() {
    let systems: Vec<DoSomethingSystem> = vec![DoSomethingSystem];
    let mut st: SystemStore<(), u32, Comp, (), Vec<DoSomethingSystem>> =
        SystemStore::with_systems(systems);
    // The driver owns an empty store: the tick yields no signal.
    assert!(st.update(()).is_none());
    assert!(st.update(()).is_none());
}
