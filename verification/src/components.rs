//! The access-composition layer: runtime-composed descriptions of which
//! component kinds a query reads, and the shaped values such a query yields.

use vstd::prelude::*;
use crate::either::Either;
use crate::entity::EntityId;
use crate::entity::EntityStore;
use crate::entity::store_get;
use crate::heterogenous_set::KindId;

verus! {

/// A composable description of a read pattern over one entity's bag.
///
/// - `Kind(k)` succeeds iff the bag holds kind `k` and yields its value;
/// - `Opt(a)` always succeeds and yields the result of `a` or an absent
///   marker;
/// - `Alt(a, b)` tries `a` first and falls back to `b`; it fails only if
///   both fail (left-biased, deterministic);
/// - `Both(a, b)` succeeds iff both members succeed, evaluated left to
///   right, short-circuiting on the first failure. Wider combinations are
///   written as nested `Both` shapes.
pub enum Access {
    Kind(KindId),
    Opt(Box<Access>),
    Alt(Box<Access>, Box<Access>),
    Both(Box<Access>, Box<Access>),
}

/// The value a successful query of a given shape yields for one entity.
pub enum AccessValue<V> {
    /// The value of a single kind.
    One(V),
    /// The result of an optional shape: the inner result, or absent.
    Maybe(Option<Box<AccessValue<V>>>),
    /// The result of an alternation: which branch matched, and its result.
    Branch(Either<Box<AccessValue<V>>, Box<AccessValue<V>>>),
    /// The ordered pair of results of a combination.
    Both(Box<AccessValue<V>>, Box<AccessValue<V>>),
}

/// Whether a bag with contents `bag` matches the shape `a`.
pub open spec fn shape_matches<V>(bag: Map<KindId, V>, a: Access) -> bool
    decreases a,
{
    match a {
        Access::Kind(k) => bag.contains_key(k),
        Access::Opt(_) => true,
        Access::Alt(x, y) => shape_matches(bag, *x) || shape_matches(bag, *y),
        Access::Both(x, y) => shape_matches(bag, *x) && shape_matches(bag, *y),
    }
}

/// Whether `v` is the value that a query of shape `a` yields on a bag with
/// contents `bag`. For a fixed bag and shape at most one value satisfies
/// this predicate, and one does iff the bag matches the shape.
pub open spec fn shape_value<V>(bag: Map<KindId, V>, a: Access, v: AccessValue<V>) -> bool
    decreases a,
{
    match a {
        Access::Kind(k) => bag.contains_key(k) && v == AccessValue::One(bag[k]),
        Access::Opt(x) => match v {
            AccessValue::Maybe(Some(inner)) => shape_value(bag, *x, *inner),
            AccessValue::Maybe(None) => !shape_matches(bag, *x),
            _ => false,
        },
        Access::Alt(x, y) => match v {
            AccessValue::Branch(Either::Left(inner)) => shape_value(bag, *x, *inner),
            AccessValue::Branch(Either::Right(inner)) => !shape_matches(bag, *x) && shape_value(
                bag,
                *y,
                *inner,
            ),
            _ => false,
        },
        Access::Both(x, y) => match v {
            AccessValue::Both(vx, vy) => shape_value(bag, *x, *vx) && shape_value(bag, *y, *vy),
            _ => false,
        },
    }
}

/// The contents the queries see for entity `id` on a store with contents
/// `m`: its bag when the entity is live, and an empty bag otherwise.
pub open spec fn entity_bag<V>(m: Map<EntityId, Map<KindId, V>>, id: EntityId) -> Map<KindId, V> {
    if m.contains_key(id) {
        m[id]
    } else {
        Map::empty()
    }
}

/// The set of entity ids of `m` whose bag matches the shape `a`.
pub open spec fn match_set<V>(m: Map<EntityId, Map<KindId, V>>, a: Access) -> Set<EntityId> {
    m.dom().filter(|id: EntityId| shape_matches(m[id], a))
}

/// Queries one entity of the store with the shape `a`: the result is the
/// shaped view when the entity's bag matches, and absent otherwise. An
/// entity that is not live matches only shapes an empty bag matches.
pub fn get_component<V: Copy>(es: &EntityStore<V>, entity: EntityId, a: &Access) -> (r: Option<
    AccessValue<V>,
>)
    requires
        es.wf(),
    ensures
        r is Some <==> shape_matches(entity_bag(es@, entity), *a),
        r matches Some(v) ==> shape_value(entity_bag(es@, entity), *a, v),
    decreases *a,
{
    match a {
        Access::Kind(k) => match es.get_component(entity, *k) {
            Some(v) => {
                proof {
                    assert(store_get(es@, entity, *k) == Some(*v));
                }
                Some(AccessValue::One(*v))
            },
            None => {
                proof {
                    assert(store_get(es@, entity, *k) is None);
                }
                None
            },
        },
        Access::Opt(x) => match get_component(es, entity, x) {
            Some(v) => Some(AccessValue::Maybe(Some(Box::new(v)))),
            None => Some(AccessValue::Maybe(None)),
        },
        Access::Alt(x, y) => match get_component(es, entity, x) {
            Some(v) => Some(AccessValue::Branch(Either::Left(Box::new(v)))),
            None => match get_component(es, entity, y) {
                Some(v) => Some(AccessValue::Branch(Either::Right(Box::new(v)))),
                None => None,
            },
        },
        Access::Both(x, y) => match get_component(es, entity, x) {
            Some(vx) => match get_component(es, entity, y) {
                Some(vy) => Some(AccessValue::Both(Box::new(vx), Box::new(vy))),
                None => None,
            },
            None => None,
        },
    }
}

/// Law: a shaped view only witnesses shapes the bag matches.
pub proof fn lemma_shape_value_matches<V>(bag: Map<KindId, V>, a: Access, v: AccessValue<V>)
    requires
        shape_value(bag, a, v),
    ensures
        shape_matches(bag, a),
    decreases a,
{
    match a {
        Access::Kind(k) => {},
        Access::Opt(x) => {},
        Access::Alt(x, y) => match v {
            AccessValue::Branch(Either::Left(inner)) => {
                lemma_shape_value_matches(bag, *x, *inner);
            },
            AccessValue::Branch(Either::Right(inner)) => {
                lemma_shape_value_matches(bag, *y, *inner);
            },
            _ => {},
        },
        Access::Both(x, y) => match v {
            AccessValue::Both(vx, vy) => {
                lemma_shape_value_matches(bag, *x, *vx);
                lemma_shape_value_matches(bag, *y, *vy);
            },
            _ => {},
        },
    }
}

/// Law: for a fixed bag and shape the shaped view is unique, so a contract
/// stated with `shape_value` pins the query's result.
pub proof fn lemma_shape_value_unique<V>(
    bag: Map<KindId, V>,
    a: Access,
    v1: AccessValue<V>,
    v2: AccessValue<V>,
)
    requires
        shape_value(bag, a, v1),
        shape_value(bag, a, v2),
    ensures
        v1 == v2,
    decreases a,
{
    match a {
        Access::Kind(k) => {
            assert(v1 == AccessValue::One(bag[k]));
            assert(v2 == AccessValue::One(bag[k]));
        },
        Access::Opt(x) => match (v1, v2) {
            (AccessValue::Maybe(Some(i1)), AccessValue::Maybe(Some(i2))) => {
                lemma_shape_value_unique(bag, *x, *i1, *i2);
            },
            (AccessValue::Maybe(Some(i1)), AccessValue::Maybe(None)) => {
                lemma_shape_value_matches(bag, *x, *i1);
            },
            (AccessValue::Maybe(None), AccessValue::Maybe(Some(i2))) => {
                lemma_shape_value_matches(bag, *x, *i2);
            },
            _ => {},
        },
        Access::Alt(x, y) => match (v1, v2) {
            (
                AccessValue::Branch(Either::Left(i1)),
                AccessValue::Branch(Either::Left(i2)),
            ) => {
                lemma_shape_value_unique(bag, *x, *i1, *i2);
            },
            (
                AccessValue::Branch(Either::Right(i1)),
                AccessValue::Branch(Either::Right(i2)),
            ) => {
                lemma_shape_value_unique(bag, *y, *i1, *i2);
            },
            (
                AccessValue::Branch(Either::Left(i1)),
                AccessValue::Branch(Either::Right(i2)),
            ) => {
                lemma_shape_value_matches(bag, *x, *i1);
            },
            (
                AccessValue::Branch(Either::Right(i1)),
                AccessValue::Branch(Either::Left(i2)),
            ) => {
                lemma_shape_value_matches(bag, *x, *i2);
            },
            _ => {},
        },
        Access::Both(x, y) => match (v1, v2) {
            (AccessValue::Both(x1, y1), AccessValue::Both(x2, y2)) => {
                lemma_shape_value_unique(bag, *x, *x1, *x2);
                lemma_shape_value_unique(bag, *y, *y1, *y2);
            },
            _ => {},
        },
    }
}

/// Law: a conjunction matches a bag exactly when both of its members do, so
/// over a whole store its match set is the intersection of the members'
/// match sets.
pub proof fn lemma_conjunction_match_set<V>(m: Map<EntityId, Map<KindId, V>>, a: Access, b: Access)
    ensures
        forall|bag: Map<KindId, V>|
            shape_matches(bag, Access::Both(Box::new(a), Box::new(b))) <==> #[trigger] shape_matches(
                bag,
                a,
            ) && shape_matches(bag, b),
        match_set(m, Access::Both(Box::new(a), Box::new(b))) == match_set(m, a).intersect(
            match_set(m, b),
        ),
{
    assert(match_set(m, Access::Both(Box::new(a), Box::new(b))) =~= match_set(m, a).intersect(
        match_set(m, b),
    ));
}

/// Law: an optional shape always succeeds, so over a whole store its match
/// set is every live entity.
pub proof fn lemma_optional_matches_all<V>(m: Map<EntityId, Map<KindId, V>>, a: Access)
    ensures
        forall|bag: Map<KindId, V>| #[trigger] shape_matches(bag, Access::Opt(Box::new(a))),
        match_set(m, Access::Opt(Box::new(a))) == m.dom(),
{
    assert(match_set(m, Access::Opt(Box::new(a))) =~= m.dom());
}

/// Law: an alternation is left-biased: on a bag matching its first member
/// the shaped view always reports the first member's outcome, whether or
/// not the second also matches.
pub proof fn lemma_alternation_left_biased<V>(
    bag: Map<KindId, V>,
    a: Access,
    b: Access,
    v: AccessValue<V>,
)
    requires
        shape_matches(bag, a),
        shape_value(bag, Access::Alt(Box::new(a), Box::new(b)), v),
    ensures
        v matches AccessValue::Branch(branch) && branch matches Either::Left(inner) && shape_value(
            bag,
            a,
            *inner,
        ),
{
}

} // verus!
