use ecs_core::components::Access;
use ecs_core::components::AccessValue;
use ecs_core::components::get_component;
use ecs_core::either::Either;
use ecs_core::either::LeftRight;
use ecs_core::entity::EntityId;
use ecs_core::entity::EntityStore;

const KIND_A: u64 = 1;
const KIND_B: u64 = 2;

#[derive(Clone, Copy, PartialEq, Debug)]
enum Comp {
    A(u32),
    B(u32),
}

/// A store with entity 0 holding A, 1 holding B, 2 holding both, 3 empty.
fn store() -> EntityStore<Comp> {
    let mut es: EntityStore<Comp> = EntityStore::new();
    let e0 = es.create_entity();
    let e1 = es.create_entity();
    let e2 = es.create_entity();
    let _e3 = es.create_entity();
    es.set_component(e0, KIND_A, Comp::A(10));
    es.set_component(e1, KIND_B, Comp::B(20));
    es.set_component(e2, KIND_A, Comp::A(30));
    es.set_component(e2, KIND_B, Comp::B(40));
    es
}

fn ids(snap: &Vec<(EntityId, AccessValue<Comp>)>) -> Vec<EntityId> {
    snap.iter().map(|p| p.0).collect()
}

#[test]
fn single_kind_snapshot_matches_holders_in_ascending_order() {
    let es = store();
    let snap_a = es.entity_component_pairs(&Access::Kind(KIND_A));
    assert_eq!(ids(&snap_a), vec![0, 2]);
    let snap_b = es.entity_component_pairs(&Access::Kind(KIND_B));
    assert_eq!(ids(&snap_b), vec![1, 2]);
    match &snap_a[0].1 {
        AccessValue::One(v) => assert_eq!(*v, Comp::A(10)),
        _ => panic!("single kind must yield its value"),
    }
}

#[test]
fn conjunction_snapshot_is_intersection_in_ascending_order() {
    let es = store();
    let both = Access::Both(Box::new(Access::Kind(KIND_A)), Box::new(Access::Kind(KIND_B)));
    let snap = es.entity_component_pairs(&both);
    // Exactly the intersection of A's holders {0, 2} and B's holders {1, 2}.
    assert_eq!(ids(&snap), vec![2]);
    match &snap[0].1 {
        AccessValue::Both(x, y) => {
            assert!(matches!(**x, AccessValue::One(Comp::A(30))));
            assert!(matches!(**y, AccessValue::One(Comp::B(40))));
        },
        _ => panic!("conjunction must yield the ordered pair of results"),
    }
}

#[test]
fn alternation_is_left_biased_when_both_match() {
    let es = store();
    let alt = Access::Alt(Box::new(Access::Kind(KIND_A)), Box::new(Access::Kind(KIND_B)));
    // Entity 2 matches both branches: the outcome is always the left one.
    let v = get_component(&es, 2, &alt).expect("entity 2 matches both branches");
    match v {
        AccessValue::Branch(Either::Left(inner)) => {
            assert!(matches!(*inner, AccessValue::One(Comp::A(30))));
        },
        _ => panic!("alternation on an entity matching both must report the left outcome"),
    }
}

#[test]
fn alternation_falls_back_to_right_branch() {
    let es = store();
    let alt = Access::Alt(Box::new(Access::Kind(KIND_A)), Box::new(Access::Kind(KIND_B)));
    let v = get_component(&es, 1, &alt).expect("entity 1 matches the right branch");
    match v {
        AccessValue::Branch(Either::Right(inner)) => {
            assert!(matches!(*inner, AccessValue::One(Comp::B(20))));
        },
        _ => panic!("alternation on an entity matching only the right branch"),
    }
    assert!(get_component(&es, 3, &alt).is_none());
    let snap = es.entity_component_pairs(&alt);
    assert_eq!(ids(&snap), vec![0, 1, 2]);
}

#[test]
fn optional_shape_always_succeeds() {
    let es = store();
    let opt = Access::Opt(Box::new(Access::Kind(KIND_A)));
    let snap = es.entity_component_pairs(&opt);
    assert_eq!(ids(&snap), vec![0, 1, 2, 3]);
    assert!(matches!(&snap[0].1, AccessValue::Maybe(Some(_))));
    assert!(matches!(&snap[1].1, AccessValue::Maybe(None)));
    assert!(matches!(&snap[3].1, AccessValue::Maybe(None)));
}

#[test]
fn conjunction_short_circuits_to_no_match() {
    let es = store();
    let both = Access::Both(Box::new(Access::Kind(KIND_A)), Box::new(Access::Kind(KIND_B)));
    assert!(get_component(&es, 0, &both).is_none());
    assert!(get_component(&es, 1, &both).is_none());
    assert!(get_component(&es, 3, &both).is_none());
    assert!(get_component(&es, 2, &both).is_some());
}

#[test]
fn wider_conjunctions_nest() {
    const KIND_C: u64 = 3;
    let mut es = store();
    es.set_component(2, KIND_C, Comp::A(50));
    let triple = Access::Both(
        Box::new(Access::Kind(KIND_A)),
        Box::new(Access::Both(Box::new(Access::Kind(KIND_B)), Box::new(Access::Kind(KIND_C)))),
    );
    let snap = es.entity_component_pairs(&triple);
    assert_eq!(ids(&snap), vec![2]);
    match &snap[0].1 {
        AccessValue::Both(first, rest) => {
            assert!(matches!(**first, AccessValue::One(Comp::A(30))));
            match &**rest {
                AccessValue::Both(second, third) => {
                    assert!(matches!(**second, AccessValue::One(Comp::B(40))));
                    assert!(matches!(**third, AccessValue::One(Comp::A(50))));
                },
                _ => panic!("nested conjunction must yield a nested pair"),
            }
        },
        _ => panic!("conjunction must yield the ordered pair of results"),
    }
}

#[test]
fn either_projections() {
    let l: Either<u32, u8> = Either::Left(5);
    assert_eq!(l.left(), Some(5));
    let l2: Either<u32, u8> = Either::Left(5);
    assert_eq!(l2.right(), None);
    let r: Either<u32, u8> = Either::Right(7);
    assert_eq!(r.right(), Some(7));
    let r2: Either<u32, u8> = Either::Right(7);
    assert_eq!(r2.left(), None);
}
