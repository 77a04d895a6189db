//! The entity store: ownership of every live entity's component bag, and
//! allocation of entity ids.

use vstd::prelude::*;
use crate::components::Access;
use crate::components::AccessValue;
use crate::components::entity_bag;
use crate::components::match_set;
use crate::components::shape_matches;
use crate::components::shape_value;
use crate::heterogenous_set::Component;
use crate::heterogenous_set::HeterogenousSet;
use crate::heterogenous_set::KindId;

verus! {

/// A non-negative entity identity, unique among currently-live entities.
pub type EntityId = usize;

/// Owns the mapping from entity id to component bag and the id-allocation
/// cursor.
///
/// The representation keeps the live entities as a vector of `(id, bag)`
/// pairs in strictly ascending id order; its abstract view is the map from
/// id to bag contents.
pub struct EntityStore<V> {
    next_id: EntityId,
    entities: Vec<(EntityId, HeterogenousSet<V>)>,
}

/// The map described by a sequence of `(id, bag)` pairs; later pairs win.
pub open spec fn entities_map<V>(s: Seq<(EntityId, HeterogenousSet<V>)>) -> Map<
    EntityId,
    Map<KindId, V>,
>
    decreases s.len(),
{
    if s.len() == 0 {
        Map::empty()
    } else {
        entities_map(s.drop_last()).insert(s.last().0, s.last().1@)
    }
}

/// What a read of component `kind` on entity `id` yields on a store with
/// contents `m`: the stored value, or absent when the entity or the kind is
/// missing (the two absent cases are indistinguishable).
pub open spec fn store_get<V>(m: Map<EntityId, Map<KindId, V>>, id: EntityId, kind: KindId) -> Option<
    V,
> {
    if m.contains_key(id) && m[id].contains_key(kind) {
        Some(m[id][kind])
    } else {
        None
    }
}

/// What a write of `value` under `kind` to entity `id` leaves of a store
/// with contents `m`: an insert-or-overwrite on a live entity, and exactly
/// `m` when the entity is unknown (the write is silently dropped).
pub open spec fn store_set<V>(
    m: Map<EntityId, Map<KindId, V>>,
    id: EntityId,
    kind: KindId,
    value: V,
) -> Map<EntityId, Map<KindId, V>> {
    if m.contains_key(id) {
        m.insert(id, m[id].insert(kind, value))
    } else {
        m
    }
}

/// Whether some entry of the representation carries the id `k`.
pub open spec fn has_id<V>(s: Seq<(EntityId, HeterogenousSet<V>)>, k: EntityId) -> bool {
    exists|t: int| 0 <= t < s.len() && (#[trigger] s[t]).0 == k
}

/// Entity ids strictly ascending along the representation.
pub open spec fn sorted_ids<V>(s: Seq<(EntityId, HeterogenousSet<V>)>) -> bool {
    forall|i: int, j: int| 0 <= i < j < s.len() ==> (#[trigger] s[i]).0 < (#[trigger] s[j]).0
}

/// Every bag of the representation well-formed.
pub open spec fn bags_wf<V>(s: Seq<(EntityId, HeterogenousSet<V>)>) -> bool {
    forall|i: int| 0 <= i < s.len() ==> (#[trigger] s[i]).1.wf()
}

impl<V> View for EntityStore<V> {
    type V = Map<EntityId, Map<KindId, V>>;

    closed spec fn view(&self) -> Map<EntityId, Map<KindId, V>> {
        entities_map(self.entities@)
    }
}

impl<V> EntityStore<V> {
    /// The live ids in ascending order.
    pub closed spec fn ids(&self) -> Seq<EntityId> {
        self.entities@.map_values(|p: (EntityId, HeterogenousSet<V>)| p.0)
    }

    /// The id the next allocation will try first.
    pub closed spec fn cursor(&self) -> EntityId {
        self.next_id
    }

    /// Ids strictly ascending, every bag well-formed, and the cursor not
    /// occupied by a live entity.
    pub closed spec fn wf(&self) -> bool {
        &&& sorted_ids(self.entities@)
        &&& bags_wf(self.entities@)
        &&& forall|i: int|
            0 <= i < self.entities@.len() ==> (#[trigger] self.entities@[i]).0 != self.next_id
    }

    pub fn new() -> (r: Self)
        ensures
            r.wf(),
            r@ == Map::<EntityId, Map<KindId, V>>::empty(),
            r.cursor() == 0,
            r.ids() == Seq::<EntityId>::empty(),
    {
        let r = EntityStore { next_id: 0, entities: Vec::new() };
        proof {
            assert(r.ids() =~= Seq::<EntityId>::empty());
        }
        r
    }

    /// The position of the entity `id` in the representation, if it is live.
    #[verifier::loop_isolation(false)]
    fn find_index(&self, id: EntityId) -> (r: Option<usize>)
        ensures
            r matches Some(i) ==> 0 <= i < self.entities@.len() && self.entities@[i as int].0 == id,
            r is None ==> forall|j: int|
                0 <= j < self.entities@.len() ==> (#[trigger] self.entities@[j]).0 != id,
    {
        let n = self.entities.len();
        let mut i: usize = 0;
        while i < n
            invariant
                forall|j: int| 0 <= j < i ==> (#[trigger] self.entities@[j]).0 != id,
            decreases n - i,
        {
            if self.entities[i].0 == id {
                return Some(i);
            }
            i += 1;
        }
        None
    }

    /// Returns the stored view of component `kind` on entity `id`, or absent
    /// when the entity or the kind is missing; the two absent cases are not
    /// distinguished.
    pub fn get_component(&self, id: EntityId, kind: KindId) -> (r: Option<&V>)
        requires
            self.wf(),
        ensures
            r matches Some(v) ==> store_get(self@, id, kind) == Some(*v),
            r is None ==> store_get(self@, id, kind) is None,
    {
        proof {
            lemma_entities_map_index(self.entities@);
        }
        match self.find_index(id) {
            Some(i) => self.entities[i].1.get(kind),
            None => None,
        }
    }

    /// Insert-or-overwrite of a component on a live entity; a silent no-op
    /// when the entity id is unknown (never signals failure).
    pub fn set_component(&mut self, id: EntityId, kind: KindId, component: V)
        requires
            old(self).wf(),
        ensures
            final(self).wf(),
            final(self)@ == store_set(old(self)@, id, kind, component),
            final(self).cursor() == old(self).cursor(),
            final(self).ids() == old(self).ids(),
    {
        proof {
            lemma_entities_map_index(self.entities@);
        }
        let ghost s0 = self.entities@;
        match self.find_index(id) {
            Some(i) => {
                let pair = &mut self.entities[i];
                pair.1.insert(kind, component);
                proof {
                    let bag = self.entities@[i as int].1;
                    assert(self.entities@ =~= s0.update(i as int, (id, bag)));
                    lemma_entities_map_update(s0, i as int, bag);
                    assert(final(self).ids() =~= old(self).ids());
                }
            },
            None => {
                proof {
                    assert(!old(self)@.contains_key(id));
                }
            },
        }
    }

    /// Insert-or-overwrite of a component that carries its own kind
    /// descriptor; a silent no-op when the entity id is unknown.
    pub fn set_raw_component(&mut self, id: EntityId, component: Component<V>)
        requires
            old(self).wf(),
        ensures
            final(self).wf(),
            final(self)@ == store_set(old(self)@, id, component.kind, component.value),
            final(self).cursor() == old(self).cursor(),
            final(self).ids() == old(self).ids(),
    {
        self.set_component(id, component.kind, component.value);
    }

    /// Inserts an entry with a fresh id and an empty bag at its sorted
    /// position, and reports that position.
    #[verifier::loop_isolation(false)]
    fn insert_fresh(&mut self, id: EntityId) -> (p: usize)
        requires
            sorted_ids(old(self).entities@),
            bags_wf(old(self).entities@),
            forall|j: int|
                0 <= j < old(self).entities@.len() ==> (#[trigger] old(self).entities@[j]).0 != id,
        ensures
            sorted_ids(final(self).entities@),
            bags_wf(final(self).entities@),
            final(self).entities@.len() == old(self).entities@.len() + 1,
            p < final(self).entities@.len(),
            final(self).entities@[p as int].0 == id,
            final(self)@ == old(self)@.insert(id, Map::<KindId, V>::empty()),
            final(self).next_id == old(self).next_id,
    {
        let ghost s0 = self.entities@;
        let n = self.entities.len();
        let mut p: usize = 0;
        while p < n && self.entities[p].0 < id
            invariant
                p <= n,
                forall|j: int| 0 <= j < p ==> (#[trigger] self.entities@[j]).0 < id,
            decreases n - p,
        {
            p += 1;
        }
        self.entities.insert(p, (id, HeterogenousSet::new()));
        proof {
            let s1 = self.entities@;
            lemma_entities_map_insert(s0, p as int, id, s1[p as int].1);
            assert forall|a: int, b: int| 0 <= a < b < s1.len() implies (#[trigger] s1[a]).0 < (
            #[trigger] s1[b]).0 by {
                if a < p && b > p {
                    assert(s1[a] == s0[a]);
                    assert(s1[b] == s0[b - 1]);
                }
            }
        }
        p
    }

    /// Finds the least id greater than the one at position `p` that is not
    /// occupied, by walking the consecutive run of ids that starts there.
    #[verifier::loop_isolation(false)]
    fn probe_free(&self, p: usize, id: EntityId) -> (next: EntityId)
        requires
            sorted_ids(self.entities@),
            p < self.entities@.len(),
            self.entities@[p as int].0 == id,
            id + self.entities@.len() - p <= usize::MAX,
        ensures
            id < next,
            forall|t: int| 0 <= t < self.entities@.len() ==> (#[trigger] self.entities@[t]).0 != next,
            forall|k: EntityId| id < k < next ==> #[trigger] has_id(self.entities@, k),
    {
        let ghost s = self.entities@;
        let n = self.entities.len();
        let mut next = id + 1;
        let mut j = p + 1;
        while j < n && self.entities[j].0 == next
            invariant
                p + 1 <= j <= n,
                next == id + j - p,
                forall|t: int| p <= t < j ==> (#[trigger] s[t]).0 == id + t - p,
            decreases n - j,
        {
            j += 1;
            next += 1;
        }
        proof {
            assert forall|t: int| 0 <= t < s.len() implies (#[trigger] s[t]).0 != next by {
                if t < p {
                    assert(s[t].0 < s[p as int].0);
                } else if j <= t {
                    assert(s[j - 1].0 == next - 1);
                    if t > j {
                        assert(s[j as int].0 < s[t].0);
                    }
                }
            }
            assert forall|k: EntityId| id < k < next implies #[trigger] has_id(s, k) by {
                let t = p + (k - id);
                assert((#[trigger] s[t]).0 == k);
            }
        }
        next
    }

    /// Allocates a fresh id, inserts an empty bag under it, and advances the
    /// cursor past the allocated id and any ids still occupied beyond it.
    ///
    /// The returned id is the cursor's value and is not live at the moment
    /// of the call, so it is unique among currently-live entities.
    pub fn create_entity(&mut self) -> (r: EntityId)
        requires
            old(self).wf(),
            old(self).cursor() + old(self).ids().len() + 1 <= usize::MAX,
        ensures
            final(self).wf(),
            r == old(self).cursor(),
            !old(self)@.contains_key(r),
            final(self)@ == old(self)@.insert(r, Map::<KindId, V>::empty()),
            final(self).ids().len() == old(self).ids().len() + 1,
            r < final(self).cursor(),
            !final(self)@.contains_key(final(self).cursor()),
            forall|k: EntityId| r < k < final(self).cursor() ==> final(self)@.contains_key(k),
    {
        proof {
            lemma_entities_map_index(self.entities@);
        }
        let id = self.next_id;
        let p = self.insert_fresh(id);
        proof {
            lemma_entities_map_index(self.entities@);
        }
        let next = self.probe_free(p, id);
        self.next_id = next;
        proof {
            if final(self)@.contains_key(next) {
                let t = choose|t: int|
                    0 <= t < self.entities@.len() && (#[trigger] self.entities@[t]).0 == next;
            }
            assert forall|k: EntityId| id < k < next implies final(self)@.contains_key(k) by {
                assert(has_id(self.entities@, k));
                let t = choose|t: int|
                    0 <= t < self.entities@.len() && (#[trigger] self.entities@[t]).0 == k;
            }
        }
        id
    }

    /// Deletes the entity's bag if it is live, and resets the allocation
    /// cursor to the removed id, so that the id is the next one tried.
    pub fn remove_entity(&mut self, ent: EntityId)
        requires
            old(self).wf(),
        ensures
            final(self).wf(),
            final(self)@ == old(self)@.remove(ent),
            final(self).ids().len() == if old(self)@.contains_key(ent) {
                old(self).ids().len() - 1
            } else {
                old(self).ids().len() as int
            },
            final(self).cursor() == ent,
    {
        proof {
            lemma_entities_map_index(self.entities@);
        }
        let ghost s0 = self.entities@;
        match self.find_index(ent) {
            Some(i) => {
                let _ = self.entities.remove(i);
                proof {
                    lemma_entities_map_remove(s0, i as int);
                }
            },
            None => {
                proof {
                    assert(!old(self)@.contains_key(ent));
                    assert(old(self)@.remove(ent) =~= old(self)@);
                }
            },
        }
        self.next_id = ent;
    }
}

impl<V: Copy> EntityStore<V> {
    /// The snapshot a system reads: in ascending id order, `(id, view)` for
    /// every entity currently matching the shape `a`. The read is fully
    /// materialized at the moment of the call.
    #[verifier::loop_isolation(false)]
    pub fn entity_component_pairs(&self, a: &Access) -> (r: Vec<(EntityId, AccessValue<V>)>)
        requires
            self.wf(),
        ensures
            forall|m: int|
                0 <= m < r@.len() ==> self@.contains_key((#[trigger] r@[m]).0) && shape_matches(
                    self@[r@[m].0],
                    *a,
                ) && shape_value(self@[r@[m].0], *a, r@[m].1),
            forall|id: EntityId|
                #[trigger] match_set(self@, *a).contains(id) ==> exists|m: int|
                    0 <= m < r@.len() && (#[trigger] r@[m]).0 == id,
            forall|m1: int, m2: int|
                0 <= m1 < m2 < r@.len() ==> (#[trigger] r@[m1]).0 < (#[trigger] r@[m2]).0,
    {
        proof {
            lemma_entities_map_index(self.entities@);
        }
        let mut r: Vec<(EntityId, AccessValue<V>)> = Vec::new();
        let n = self.entities.len();
        let mut i: usize = 0;
        while i < n
            invariant
                forall|m: int|
                    0 <= m < r@.len() ==> self@.contains_key((#[trigger] r@[m]).0)
                        && shape_matches(self@[r@[m].0], *a) && shape_value(
                        self@[r@[m].0],
                        *a,
                        r@[m].1,
                    ),
                forall|m: int|
                    0 <= m < r@.len() ==> exists|j: int|
                        0 <= j < i && (#[trigger] self.entities@[j]).0 == (#[trigger] r@[m]).0,
                forall|j: int|
                    0 <= j < i && shape_matches((#[trigger] self.entities@[j]).1@, *a)
                        ==> exists|m: int| 0 <= m < r@.len() && (#[trigger] r@[m]).0
                        == self.entities@[j].0,
                forall|m1: int, m2: int|
                    0 <= m1 < m2 < r@.len() ==> (#[trigger] r@[m1]).0 < (#[trigger] r@[m2]).0,
            decreases n - i,
        {
            let ghost r0 = r@;
            let id = self.entities[i].0;
            proof {
                assert(entity_bag(self@, id) == self.entities@[i as int].1@);
            }
            match crate::components::get_component(self, id, a) {
                Some(v) => {
                    proof {
                        assert forall|m: int| 0 <= m < r@.len() implies (#[trigger] r@[m]).0
                            < id by {
                            let j = choose|j: int|
                                0 <= j < i && (#[trigger] self.entities@[j]).0 == r@[m].0;
                        }
                    }
                    r.push((id, v));
                    proof {
                        assert forall|j: int|
                            0 <= j <= i && shape_matches(
                                (#[trigger] self.entities@[j]).1@,
                                *a,
                            ) implies exists|m: int|
                            0 <= m < r@.len() && (#[trigger] r@[m]).0 == self.entities@[j].0 by {
                            if j < i {
                                let m = choose|m: int|
                                    0 <= m < r0.len() && (#[trigger] r0[m]).0
                                        == self.entities@[j].0;
                                assert((#[trigger] r@[m]).0 == self.entities@[j].0);
                            } else {
                                assert((#[trigger] r@[r@.len() - 1]).0 == self.entities@[j].0);
                            }
                        }
                    }
                },
                None => {
                    proof {
                        assert(!shape_matches(self.entities@[i as int].1@, *a));
                    }
                },
            }
            i += 1;
        }
        proof {
            assert forall|id: EntityId| #[trigger] match_set(self@, *a).contains(id) implies exists|
                m: int,
            | 0 <= m < r@.len() && (#[trigger] r@[m]).0 == id by {
                assert(self@.contains_key(id) && shape_matches(self@[id], *a));
                let j = choose|j: int|
                    0 <= j < self.entities@.len() && (#[trigger] self.entities@[j]).0 == id;
                assert(self.entities@[j].1@ == self@[id]);
                assert(shape_matches((#[trigger] self.entities@[j]).1@, *a));
            }
        }
        r
    }
}

/// Law: a read returns the most recent write of the same entity and kind:
/// on a live entity a write is immediately visible, and on an unknown
/// entity it changes nothing.
pub proof fn lemma_get_after_set<V>(
    m: Map<EntityId, Map<KindId, V>>,
    id: EntityId,
    kind: KindId,
    value: V,
)
    ensures
        m.contains_key(id) ==> store_get(store_set(m, id, kind, value), id, kind) == Some(value),
        !m.contains_key(id) ==> store_get(store_set(m, id, kind, value), id, kind) == store_get(
            m,
            id,
            kind,
        ),
{
}

/// Law: a write affects no other slot: a read of any other entity or any
/// other kind sees exactly what it saw before the write.
pub proof fn lemma_set_frame<V>(
    m: Map<EntityId, Map<KindId, V>>,
    id: EntityId,
    kind: KindId,
    value: V,
    id2: EntityId,
    kind2: KindId,
)
    requires
        id2 != id || kind2 != kind,
    ensures
        store_get(store_set(m, id, kind, value), id2, kind2) == store_get(m, id2, kind2),
{
}

/// Law: a write to a removed or never-created id is a pure no-op: no bag
/// is created and no later read of any slot is affected.
pub proof fn lemma_set_unknown_noop<V>(
    m: Map<EntityId, Map<KindId, V>>,
    id: EntityId,
    kind: KindId,
    value: V,
)
    requires
        !m.contains_key(id),
    ensures
        store_set(m, id, kind, value) == m,
{
}

/// Law: after an entity is removed every read of it is absent, whatever
/// was written before.
pub proof fn lemma_get_after_remove<V>(m: Map<EntityId, Map<KindId, V>>, id: EntityId, kind: KindId)
    ensures
        store_get(m.remove(id), id, kind) is None,
{
}

/// Every entry of a sequence with pairwise distinct ids is visible in
/// `entities_map`, and every key of `entities_map` comes from some entry.
pub proof fn lemma_entities_map_index<V>(s: Seq<(EntityId, HeterogenousSet<V>)>)
    requires
        forall|i: int, j: int| 0 <= i < j < s.len() ==> (#[trigger] s[i]).0 != (#[trigger] s[j]).0,
    ensures
        forall|j: int|
            0 <= j < s.len() ==> entities_map(s).contains_key((#[trigger] s[j]).0)
                && entities_map(s)[s[j].0] == s[j].1@,
        forall|id: EntityId|
            entities_map(s).contains_key(id) ==> exists|j: int|
                0 <= j < s.len() && (#[trigger] s[j]).0 == id,
    decreases s.len(),
{
    if s.len() > 0 {
        lemma_entities_map_index(s.drop_last());
        assert forall|j: int|
            0 <= j < s.len() implies entities_map(s).contains_key((#[trigger] s[j]).0)
            && entities_map(s)[s[j].0] == s[j].1@ by {
            if j < s.len() - 1 {
                assert(s.drop_last()[j] == s[j]);
                assert(s[j].0 != s.last().0);
            }
        }
        assert forall|id: EntityId| entities_map(s).contains_key(id) implies exists|j: int|
            0 <= j < s.len() && (#[trigger] s[j]).0 == id by {
            assert(entities_map(s) == entities_map(s.drop_last()).insert(s.last().0, s.last().1@));
            if id == s.last().0 {
                assert((#[trigger] s[s.len() - 1]).0 == id);
            } else {
                assert(entities_map(s.drop_last()).contains_key(id));
                let j = choose|j: int|
                    0 <= j < s.drop_last().len() && (#[trigger] s.drop_last()[j]).0 == id;
                assert(s.drop_last()[j] == s[j]);
                assert((#[trigger] s[j]).0 == id);
            }
        }
    }
}

/// Replacing the bag at position `i` of a sequence with pairwise distinct
/// ids updates exactly that id's contents in `entities_map`.
proof fn lemma_entities_map_update<V>(
    s: Seq<(EntityId, HeterogenousSet<V>)>,
    i: int,
    bag: HeterogenousSet<V>,
)
    requires
        forall|a: int, b: int| 0 <= a < b < s.len() ==> (#[trigger] s[a]).0 != (#[trigger] s[b]).0,
        0 <= i < s.len(),
    ensures
        entities_map(s.update(i, (s[i].0, bag))) == entities_map(s).insert(s[i].0, bag@),
    decreases s.len(),
{
    let t = s.update(i, (s[i].0, bag));
    if i == s.len() - 1 {
        assert(t.drop_last() =~= s.drop_last());
    } else {
        lemma_entities_map_update(s.drop_last(), i, bag);
        assert(t.drop_last() =~= s.drop_last().update(i, (s[i].0, bag)));
        assert(t.last() == s.last());
        assert(s[i].0 != s.last().0);
        assert(entities_map(s.drop_last()).insert(s[i].0, bag@).insert(s.last().0, s.last().1@)
            =~= entities_map(s.drop_last()).insert(s.last().0, s.last().1@).insert(s[i].0, bag@));
    }
}

/// Inserting an entry with a fresh id at position `i` adds exactly that id
/// to `entities_map`.
proof fn lemma_entities_map_insert<V>(
    s: Seq<(EntityId, HeterogenousSet<V>)>,
    i: int,
    id: EntityId,
    bag: HeterogenousSet<V>,
)
    requires
        forall|a: int, b: int| 0 <= a < b < s.len() ==> (#[trigger] s[a]).0 != (#[trigger] s[b]).0,
        forall|a: int| 0 <= a < s.len() ==> (#[trigger] s[a]).0 != id,
        0 <= i <= s.len(),
    ensures
        entities_map(s.insert(i, (id, bag))) == entities_map(s).insert(id, bag@),
    decreases s.len(),
{
    let t = s.insert(i, (id, bag));
    if i == s.len() {
        assert(t.drop_last() =~= s);
        assert(t.last() == (id, bag));
    } else {
        lemma_entities_map_insert(s.drop_last(), i, id, bag);
        assert(t.drop_last() =~= s.drop_last().insert(i, (id, bag)));
        assert(t.last() == s.last());
        assert((#[trigger] s[s.len() - 1]).0 != id);
        assert(entities_map(s.drop_last()).insert(id, bag@).insert(s.last().0, s.last().1@)
            =~= entities_map(s.drop_last()).insert(s.last().0, s.last().1@).insert(id, bag@));
    }
}

/// Removing the entry at position `i` of a sequence with pairwise distinct
/// ids removes exactly that id from `entities_map`.
proof fn lemma_entities_map_remove<V>(s: Seq<(EntityId, HeterogenousSet<V>)>, i: int)
    requires
        forall|a: int, b: int| 0 <= a < b < s.len() ==> (#[trigger] s[a]).0 != (#[trigger] s[b]).0,
        0 <= i < s.len(),
    ensures
        entities_map(s.remove(i)) == entities_map(s).remove(s[i].0),
    decreases s.len(),
{
    let t = s.remove(i);
    lemma_entities_map_index(s.drop_last());
    if i == s.len() - 1 {
        assert(t =~= s.drop_last());
        assert(!entities_map(s.drop_last()).contains_key(s[i].0));
        assert(entities_map(s).remove(s[i].0) =~= entities_map(s.drop_last()));
    } else {
        lemma_entities_map_remove(s.drop_last(), i);
        assert(t.drop_last() =~= s.drop_last().remove(i));
        assert(t.last() == s.last());
        assert(s[i].0 != s.last().0);
        assert(entities_map(s.drop_last()).remove(s[i].0).insert(s.last().0, s.last().1@)
            =~= entities_map(s.drop_last()).insert(s.last().0, s.last().1@).remove(s[i].0));
    }
}

} // verus!
