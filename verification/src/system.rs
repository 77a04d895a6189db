//! The system abstraction and scheduling layer: per-tick units of
//! computation over the entity store, containers that run them in order,
//! and the driver that owns store, container and message queue.

use vstd::prelude::*;
use core::marker::PhantomData;
use crate::components::Access;
use crate::components::AccessValue;
use crate::entity::EntityId;
use crate::entity::EntityStore;
use crate::entity::store_set;
use crate::heterogenous_set::Component;
use crate::heterogenous_set::KindId;

verus! {

/// The store contents after a list of writes is applied in order: each
/// write is an insert-or-overwrite on a live entity and is silently
/// dropped when its entity id is unknown.
pub open spec fn apply_writes_map<V>(
    m: Map<EntityId, Map<KindId, V>>,
    ws: Seq<(EntityId, Component<V>)>,
) -> Map<EntityId, Map<KindId, V>>
    decreases ws.len(),
{
    if ws.len() == 0 {
        m
    } else {
        store_set(
            apply_writes_map(m, ws.drop_last()),
            ws.last().0,
            ws.last().1.kind,
            ws.last().1.value,
        )
    }
}

/// Law: writes never create or remove entities, whatever their targets.
pub proof fn lemma_apply_writes_dom<V>(
    m: Map<EntityId, Map<KindId, V>>,
    ws: Seq<(EntityId, Component<V>)>,
)
    ensures
        apply_writes_map(m, ws).dom() == m.dom(),
    decreases ws.len(),
{
    if ws.len() > 0 {
        lemma_apply_writes_dom(m, ws.drop_last());
        let prev = apply_writes_map(m, ws.drop_last());
        if prev.contains_key(ws.last().0) {
            assert(apply_writes_map(m, ws).dom() =~= prev.dom());
        }
    }
}

/// WRITE: applies the outputs of one system back to the store, in order.
/// A write whose entity has vanished by write time is silently dropped;
/// this is never propagated as an error.
#[verifier::loop_isolation(false)]
pub fn apply_writes<V: Copy>(es: &mut EntityStore<V>, writes: &Vec<(EntityId, Component<V>)>)
    requires
        old(es).wf(),
    ensures
        final(es).wf(),
        final(es)@ == apply_writes_map(old(es)@, writes@),
        final(es).cursor() == old(es).cursor(),
        final(es).ids() == old(es).ids(),
{
    let n = writes.len();
    let mut i: usize = 0;
    while i < n
        invariant
            i <= n,
            es.wf(),
            es@ == apply_writes_map(old(es)@, writes@.take(i as int)),
            es.cursor() == old(es).cursor(),
            es.ids() == old(es).ids(),
        decreases n - i,
    {
        let w = &writes[i];
        es.set_component(w.0, w.1.kind, w.1.value);
        proof {
            assert(writes@.take(i + 1).drop_last() =~= writes@.take(i as int));
            assert(writes@.take(i + 1).last() == writes@[i as int]);
        }
        i += 1;
    }
    proof {
        assert(writes@.take(n as int) =~= writes@);
    }
}

/// A per-tick unit of computation in its most general form: it may read
/// and mutate the whole store, filter or produce messages, and yield a
/// terminal signal.
pub trait System<U, M, V, S> {
    /// Runs the system for one tick, with the tick's context `ud` and the
    /// shared message queue handed over by drain-and-refill.
    fn update(&mut self, msgs: &mut Vec<M>, es: &mut EntityStore<V>, ud: &U) -> (r: Option<S>)
        requires
            old(es).wf(),
        ensures
            final(es).wf(),
    ;
}

/// A per-tick unit of computation in snapshot form: it declares the access
/// shape it reads, and maps each matched `(entity, view)` pair to outputs
/// and messages. The READ, WRITE and MESSAGE-MERGE phases around it are
/// supplied by [`run_simple_system`].
pub trait SimpleSystem<U, M, V> {
    /// The access shape declaring which components the system reads.
    fn input_shape(&self) -> Access;

    /// COMPUTE: maps the snapshot of matched entities to a list of
    /// component writes and a list of produced messages. A system maps
    /// each matched pair to zero or more outputs, so an empty snapshot
    /// yields no writes and no messages.
    fn update_simple(&mut self, entities: &Vec<(EntityId, AccessValue<V>)>, ud: &U) -> (r: (
        Vec<(EntityId, Component<V>)>,
        Vec<M>,
    ))
        ensures
            entities@.len() == 0 ==> r.0@.len() == 0 && r.1@.len() == 0,
    ;

    /// Filters or transforms one incoming message before the tick's
    /// compute; the default keeps every message unchanged.
    fn handle_message(&mut self, msg: M) -> Option<M> {
        Some(msg)
    }

    /// Extension point: a system whose output is empty may declare itself
    /// read-only. Read-only systems cannot conflict on writes, so a future
    /// scheduler may run them concurrently; the present scheduler runs
    /// every system strictly in declared order and does not consult this.
    fn read_only(&self) -> bool {
        false
    }
}

/// One tick of a snapshot-form system: READ (snapshot of matching
/// entities), COMPUTE, WRITE (apply outputs back), MESSAGE-MERGE (filter
/// the incoming queue through the system's handler, then append the
/// produced messages).
///
/// The store's entities are never created or removed by a tick of such a
/// system, and on an empty store the tick leaves the store unchanged and
/// appends no messages.
pub fn run_simple_system<U, M, V: Copy, T: SimpleSystem<U, M, V>>(
    sys: &mut T,
    msgs: &mut Vec<M>,
    es: &mut EntityStore<V>,
    ud: &U,
)
    requires
        old(es).wf(),
    ensures
        final(es).wf(),
        final(es).cursor() == old(es).cursor(),
        final(es).ids() == old(es).ids(),
        final(es)@.dom() == old(es)@.dom(),
        exists|ws: Seq<(EntityId, Component<V>)>|
            final(es)@ == apply_writes_map(old(es)@, ws),
        old(es)@.dom() == Set::<EntityId>::empty() ==> final(es)@ == old(es)@ && final(msgs)@.len() <= old(msgs)@.len(),
{
    let ghost n0 = msgs@.len();
    let mut rev: Vec<M> = Vec::new();
    while msgs.len() > 0
        invariant
            msgs@.len() + rev@.len() == n0,
        decreases msgs@.len(),
    {
        let m = msgs.pop().unwrap();
        rev.push(m);
    }
    let mut kept: Vec<M> = Vec::new();
    while rev.len() > 0
        invariant
            kept@.len() + rev@.len() <= n0,
        decreases rev@.len(),
    {
        let m = rev.pop().unwrap();
        match sys.handle_message(m) {
            Some(m2) => kept.push(m2),
            None => {},
        }
    }

    let shape = sys.input_shape();
    let pairs = es.entity_component_pairs(&shape);
    proof {
        if es@.dom() == Set::<EntityId>::empty() && pairs@.len() > 0 {
            assert(es@.contains_key(pairs@[0].0));
        }
    }
    let wm = sys.update_simple(&pairs, ud);
    let writes = wm.0;
    let mut produced = wm.1;

    apply_writes(es, &writes);
    proof {
        lemma_apply_writes_dom(old(es)@, writes@);
        if old(es)@.dom() == Set::<EntityId>::empty() {
            assert(writes@ =~= Seq::<(EntityId, Component<V>)>::empty());
        }
    }

    kept.append(&mut produced);
    *msgs = kept;
}

/// Every snapshot-form system is a system: one tick snapshots, computes,
/// writes back, merges messages, and yields no terminal signal.
impl<U, M, V: Copy, S, T: SimpleSystem<U, M, V>> System<U, M, V, S> for T {
    fn update(&mut self, msgs: &mut Vec<M>, es: &mut EntityStore<V>, ud: &U) -> (r: Option<S>)
    {
        run_simple_system(self, msgs, es, ud);
        let r: Option<S> = None;
        r
    }
}

/// An ordered collection of systems, executed strictly in declared order,
/// once per tick.
pub trait SystemSet<U, M, V, S> {
    /// Runs every member once, in order, and returns the first non-absent
    /// signal. A signal does not short-circuit the tick: later members
    /// still execute.
    fn update_all(&mut self, msgs: &mut Vec<M>, es: &mut EntityStore<V>, ud: &U) -> (r: Option<S>)
        requires
            old(es).wf(),
        ensures
            final(es).wf(),
    ;
}

/// The dynamically sized homogeneous container. A tick of an empty list
/// calls no member: it yields no signal and leaves store and queue alone.
impl<U, M, V, S, T: System<U, M, V, S>> SystemSet<U, M, V, S> for Vec<T> {
    #[verifier::loop_isolation(false)]
    fn update_all(&mut self, msgs: &mut Vec<M>, es: &mut EntityStore<V>, ud: &U) -> (r: Option<S>)
        ensures
            old(self)@.len() == 0 ==> r is None && final(es)@ == old(es)@ && final(msgs)@ == old(
                msgs,
            )@,
    {
        let mut out: Option<S> = None;
        let n = self.len();
        let mut i: usize = 0;
        while i < n
            invariant
                es.wf(),
                n == self@.len(),
                n == 0 ==> out is None && es@ == old(es)@ && msgs@ == old(msgs)@,
            decreases n - i,
        {
            let sys = &mut self[i];
            let res = sys.update(msgs, es, ud);
            if out.is_none() && res.is_some() {
                out = res;
            }
            i += 1;
        }
        out
    }
}

/// The fixed heterogeneous group of one system.
impl<U, M, V, S, A: System<U, M, V, S>> SystemSet<U, M, V, S> for (A,) {
    fn update_all(&mut self, msgs: &mut Vec<M>, es: &mut EntityStore<V>, ud: &U) -> (r: Option<S>)
    {
        self.0.update(msgs, es, ud)
    }
}

/// The fixed heterogeneous group of two systems.
impl<U, M, V, S, A: System<U, M, V, S>, B: System<U, M, V, S>> SystemSet<U, M, V, S> for (A, B) {
    fn update_all(&mut self, msgs: &mut Vec<M>, es: &mut EntityStore<V>, ud: &U) -> (r: Option<S>)
    {
        let ra = self.0.update(msgs, es, ud);
        let rb = self.1.update(msgs, es, ud);
        if ra.is_some() {
            ra
        } else {
            rb
        }
    }
}

/// The fixed heterogeneous group of three systems.
impl<
    U,
    M,
    V,
    S,
    A: System<U, M, V, S>,
    B: System<U, M, V, S>,
    C: System<U, M, V, S>,
> SystemSet<U, M, V, S> for (A, B, C) {
    fn update_all(&mut self, msgs: &mut Vec<M>, es: &mut EntityStore<V>, ud: &U) -> (r: Option<S>)
    {
        let ra = self.0.update(msgs, es, ud);
        let rb = self.1.update(msgs, es, ud);
        let rc = self.2.update(msgs, es, ud);
        if ra.is_some() {
            ra
        } else if rb.is_some() {
            rb
        } else {
            rc
        }
    }
}

/// The fixed heterogeneous group of four systems. A wider ordered set is
/// built as a dynamic list, or by wrapping a group in a small adapter that
/// implements [`System`] by delegating to the group's tick, so that the
/// wrapped group can stand as one member of another.
impl<
    U,
    M,
    V,
    S,
    A: System<U, M, V, S>,
    B: System<U, M, V, S>,
    C: System<U, M, V, S>,
    D: System<U, M, V, S>,
> SystemSet<U, M, V, S> for (A, B, C, D) {
    fn update_all(&mut self, msgs: &mut Vec<M>, es: &mut EntityStore<V>, ud: &U) -> (r: Option<S>)
    {
        let ra = self.0.update(msgs, es, ud);
        let rb = self.1.update(msgs, es, ud);
        let rc = self.2.update(msgs, es, ud);
        let rd = self.3.update(msgs, es, ud);
        if ra.is_some() {
            ra
        } else if rb.is_some() {
            rb
        } else if rc.is_some() {
            rc
        } else {
            rd
        }
    }
}

/// The driver: owns one entity store, one container of systems, and the
/// shared message queue, and exposes one per-tick advance operation.
pub struct SystemStore<U, M, V, S, T: SystemSet<U, M, V, S>> {
    entity_store: EntityStore<V>,
    systems: T,
    message_buffer: Vec<M>,
    _p: PhantomData<(U, S)>,
}

impl<U, M, V, S, T: SystemSet<U, M, V, S>> SystemStore<U, M, V, S, T> {
    /// The contents of the owned entity store.
    pub closed spec fn entities(&self) -> Map<EntityId, Map<KindId, V>> {
        self.entity_store@
    }

    /// The messages currently queued between ticks.
    pub closed spec fn messages(&self) -> Seq<M> {
        self.message_buffer@
    }

    pub closed spec fn wf(&self) -> bool {
        self.entity_store.wf()
    }

    /// Builds a driver around the given container, with an empty entity
    /// store and an empty message queue.
    pub fn with_systems(s: T) -> (r: Self)
        ensures
            r.wf(),
            r.entities() == Map::<EntityId, Map<KindId, V>>::empty(),
            r.messages() == Seq::<M>::empty(),
    {
        SystemStore {
            entity_store: EntityStore::new(),
            systems: s,
            message_buffer: Vec::new(),
            _p: PhantomData,
        }
    }

    /// One tick: feeds the context to every system in order through the
    /// container, and returns the first terminal signal, if any.
    pub fn update(&mut self, ud: U) -> (r: Option<S>)
        requires
            old(self).wf(),
        ensures
            final(self).wf(),
    {
        self.systems.update_all(&mut self.message_buffer, &mut self.entity_store, &ud)
    }
}

} // verus!
