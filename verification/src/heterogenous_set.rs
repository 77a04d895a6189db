//! Per-entity component storage: a dynamic set of values of distinct kinds.

use vstd::prelude::*;

verus! {

/// A process-wide stable descriptor for a component kind.
///
/// Each distinct component kind of an application is assigned one number; a
/// bag holds at most one value per kind.
pub type KindId = u64;

/// A component value tagged with its own kind descriptor.
pub struct Component<V> {
    pub kind: KindId,
    pub value: V,
}

/// A dynamic set of component values, at most one per kind.
///
/// The representation is a vector of `(kind, value)` pairs with pairwise
/// distinct kinds; its abstract view is the map from kind to value.
pub struct HeterogenousSet<V> {
    content: Vec<(KindId, V)>,
}

/// The map described by a sequence of `(kind, value)` pairs; later pairs win.
pub open spec fn pairs_map<V>(s: Seq<(KindId, V)>) -> Map<KindId, V>
    decreases s.len(),
{
    if s.len() == 0 {
        Map::empty()
    } else {
        pairs_map(s.drop_last()).insert(s.last().0, s.last().1)
    }
}

impl<V> View for HeterogenousSet<V> {
    type V = Map<KindId, V>;

    closed spec fn view(&self) -> Map<KindId, V> {
        pairs_map(self.content@)
    }
}

impl<V> HeterogenousSet<V> {
    /// The kinds stored are pairwise distinct.
    pub closed spec fn wf(&self) -> bool {
        forall|i: int, j: int|
            0 <= i < j < self.content@.len() ==> (#[trigger] self.content@[i]).0 != (
            #[trigger] self.content@[j]).0
    }

    pub fn new() -> (r: Self)
        ensures
            r.wf(),
            r@ == Map::<KindId, V>::empty(),
    {
        HeterogenousSet { content: Vec::new() }
    }

    /// Looks up the value of the given kind, if one is stored.
    #[verifier::loop_isolation(false)]
    pub fn get(&self, kind: KindId) -> (r: Option<&V>)
        requires
            self.wf(),
        ensures
            r matches Some(v) ==> self@.contains_key(kind) && *v == self@[kind],
            r is None ==> !self@.contains_key(kind),
    {
        proof {
            lemma_pairs_map_index(self.content@);
        }
        let n = self.content.len();
        let mut i: usize = 0;
        while i < n
            invariant
                forall|j: int| 0 <= j < i ==> (#[trigger] self.content@[j]).0 != kind,
            decreases n - i,
        {
            if self.content[i].0 == kind {
                return Some(&self.content[i].1);
            }
            i += 1;
        }
        proof {
            if self@.contains_key(kind) {
                let j = choose|j: int|
                    0 <= j < self.content@.len() && (#[trigger] self.content@[j]).0 == kind;
                assert(self.content@[j].0 != kind);
            }
        }
        None
    }

    /// Inserts a value under the given kind, overwriting any value of that
    /// kind already stored.
    #[verifier::loop_isolation(false)]
    pub fn insert(&mut self, kind: KindId, element: V)
        requires
            old(self).wf(),
        ensures
            final(self).wf(),
            final(self)@ == old(self)@.insert(kind, element),
    {
        let ghost old_content = self.content@;
        let n = self.content.len();
        let mut i: usize = 0;
        while i < n
            invariant
                self.content@ == old_content,
                forall|j: int| 0 <= j < i ==> (#[trigger] old_content[j]).0 != kind,
            decreases n - i,
        {
            if self.content[i].0 == kind {
                self.content.set(i, (kind, element));
                proof {
                    lemma_pairs_map_update(old_content, i as int, element);
                }
                return ;
            }
            i += 1;
        }
        self.content.push((kind, element));
        proof {
            assert(self.content@.drop_last() =~= old_content);
        }
    }

    /// Inserts a component that carries its own kind descriptor.
    pub fn insert_raw(&mut self, element: Component<V>)
        requires
            old(self).wf(),
        ensures
            final(self).wf(),
            final(self)@ == old(self)@.insert(element.kind, element.value),
    {
        self.insert(element.kind, element.value);
    }
}

/// Every pair of a duplicate-free sequence is visible in `pairs_map`, and
/// every key of `pairs_map` comes from some pair.
pub proof fn lemma_pairs_map_index<V>(s: Seq<(KindId, V)>)
    requires
        forall|i: int, j: int| 0 <= i < j < s.len() ==> (#[trigger] s[i]).0 != (#[trigger] s[j]).0,
    ensures
        forall|j: int|
            0 <= j < s.len() ==> pairs_map(s).contains_key((#[trigger] s[j]).0) && pairs_map(s)[
                s[j].0
            ] == s[j].1,
        forall|k: KindId|
            pairs_map(s).contains_key(k) ==> exists|j: int| 0 <= j < s.len() && (#[trigger] s[j]).0
                == k,
    decreases s.len(),
{
    if s.len() > 0 {
        lemma_pairs_map_index(s.drop_last());
        assert forall|j: int|
            0 <= j < s.len() implies pairs_map(s).contains_key((#[trigger] s[j]).0) && pairs_map(s)[
            s[j].0] == s[j].1 by {
            if j < s.len() - 1 {
                assert(s.drop_last()[j] == s[j]);
                assert(s[j].0 != s.last().0);
            }
        }
        assert forall|k: KindId| pairs_map(s).contains_key(k) implies exists|j: int|
            0 <= j < s.len() && (#[trigger] s[j]).0 == k by {
            assert(pairs_map(s) == pairs_map(s.drop_last()).insert(s.last().0, s.last().1));
            if k == s.last().0 {
                assert((#[trigger] s[s.len() - 1]).0 == k);
            } else {
                assert(pairs_map(s.drop_last()).contains_key(k));
                let j = choose|j: int|
                    0 <= j < s.drop_last().len() && (#[trigger] s.drop_last()[j]).0 == k;
                assert(s.drop_last()[j] == s[j]);
                assert((#[trigger] s[j]).0 == k);
            }
        }
    }
}

/// Overwriting the pair at position `i` of a duplicate-free sequence updates
/// exactly that key of the described map.
proof fn lemma_pairs_map_update<V>(s: Seq<(KindId, V)>, i: int, value: V)
    requires
        forall|a: int, b: int| 0 <= a < b < s.len() ==> (#[trigger] s[a]).0 != (#[trigger] s[b]).0,
        0 <= i < s.len(),
    ensures
        pairs_map(s.update(i, (s[i].0, value))) == pairs_map(s).insert(s[i].0, value),
    decreases s.len(),
{
    let t = s.update(i, (s[i].0, value));
    if i == s.len() - 1 {
        assert(t.drop_last() =~= s.drop_last());
    } else {
        lemma_pairs_map_update(s.drop_last(), i, value);
        assert(t.drop_last() =~= s.drop_last().update(i, (s[i].0, value)));
        assert(t.last() == s.last());
        lemma_pairs_map_index(s);
        assert(s[i].0 != s.last().0);
        assert(pairs_map(s.drop_last()).insert(s[i].0, value).insert(s.last().0, s.last().1)
            =~= pairs_map(s.drop_last()).insert(s.last().0, s.last().1).insert(s[i].0, value));
    }
}

} // verus!
