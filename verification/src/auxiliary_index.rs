//! Auxiliary index for entities.
//!
//! Maps entities to ids, used for fast lookup of an entity by its id and of
//! an id by its entity. An entity is held as the 64 bits that identify it.

use bimap::BiHashMap;
use vstd::prelude::*;

verus! {

#[verifier::external_type_specification]
#[verifier::external_body]
#[verifier::reject_recursive_types(L)]
#[verifier::reject_recursive_types(R)]
#[verifier::reject_recursive_types(LS)]
#[verifier::reject_recursive_types(RS)]
pub struct ExBiHashMap<L, R, LS, RS>(BiHashMap<L, R, LS, RS>);

/// The pairs that a bimap holds, as a map from each left value to its
/// right value.
pub uninterp spec fn pairs(map: BiHashMap<u64, u64>) -> Map<u64, u64>;

/// The pairs `held` after `left` was paired with `right`: the pair that
/// had `left` and the pair that had `right` are gone, and the new pair is
/// there.
pub open spec fn paired(held: Map<u64, u64>, left: u64, right: u64) -> Map<u64, u64> {
    Map::new(
        |l: u64| l == left || (held.contains_key(l) && held[l] != right),
        |l: u64|
            if l == left {
                right
            } else {
                held[l]
            },
    )
}

/// No pairs at all.
pub open spec fn no_pairs() -> Map<u64, u64> {
    Map::empty()
}

/// Whether no two left values of `held` have the same right value.
pub open spec fn one_to_one(held: Map<u64, u64>) -> bool {
    forall|a: u64, b: u64|
        held.contains_key(a) && held.contains_key(b) && #[trigger] held[a] == #[trigger] held[b]
            ==> a == b
}

/// `bimap::BiHashMap::new`: the new bimap holds no pair.
#[verifier::external_body]
fn bimap_new() -> (created: BiHashMap<u64, u64>)
    ensures
        pairs(created) == no_pairs(),
{
    BiHashMap::new()
}

/// `bimap::BiHashMap::insert`: it removes the pair with this left value
/// and the pair with this right value, if there are such, and then holds
/// the pair given. What it returns, the pairs removed, is dropped.
#[verifier::external_body]
fn bimap_insert(map: &mut BiHashMap<u64, u64>, left: u64, right: u64)
    ensures
        pairs(*final(map)) == paired(pairs(*old(map)), left, right),
{
    map.insert(left, right);
}

/// `bimap::BiHashMap::remove_by_left`: it removes the pair with this left
/// value, if there is one, and no other. What it returns, the pair
/// removed, is dropped.
#[verifier::external_body]
fn bimap_remove_by_left(map: &mut BiHashMap<u64, u64>, left: u64)
    ensures
        pairs(*final(map)) == pairs(*old(map)).remove(left),
{
    map.remove_by_left(&left);
}

/// `bimap::BiHashMap::get_by_left`: the right value paired with this left
/// value, if the bimap holds such a pair.
#[verifier::external_body]
fn bimap_get_by_left(map: &BiHashMap<u64, u64>, left: u64) -> (right: Option<u64>)
    ensures
        right == (if pairs(*map).contains_key(left) {
            Some(pairs(*map)[left])
        } else {
            None
        }),
{
    map.get_by_left(&left).copied()
}

/// `bimap::BiHashMap::get_by_right`: a left value paired with this right
/// value, if the bimap holds such a pair.
#[verifier::external_body]
fn bimap_get_by_right(map: &BiHashMap<u64, u64>, right: u64) -> (left: Option<u64>)
    ensures
        match left {
            Some(l) => pairs(*map).contains_key(l) && pairs(*map)[l] == right,
            None => forall|l: u64| pairs(*map).contains_key(l) ==> #[trigger] pairs(*map)[l] != right,
        },
{
    map.get_by_right(&right).copied()
}

/// The pairs `held` after each pair of `added`, an id and an entity, was
/// put in, in the order of the list.
pub open spec fn after_adding(held: Map<u64, u64>, added: Seq<(u64, u64)>) -> Map<u64, u64>
    decreases added.len(),
{
    if added.len() == 0 {
        held
    } else {
        paired(after_adding(held, added.drop_last()), added.last().0, added.last().1)
    }
}

/// The pairs `held` after the pair of each id of `removed` was taken out.
pub open spec fn after_removing(held: Map<u64, u64>, removed: Seq<u64>) -> Map<u64, u64>
    decreases removed.len(),
{
    if removed.len() == 0 {
        held
    } else {
        after_removing(held, removed.drop_last()).remove(removed.last())
    }
}

/// Pairing keeps a one-to-one map one-to-one.
pub proof fn lemma_paired_one_to_one(held: Map<u64, u64>, left: u64, right: u64)
    requires
        one_to_one(held),
    ensures
        one_to_one(paired(held, left, right)),
{
    let after = paired(held, left, right);
    assert forall|a: u64, b: u64|
        after.contains_key(a) && after.contains_key(b) && #[trigger] after[a] == #[trigger] after[b]
        implies a == b by {
        if a != left && b != left {
            assert(held[a] == held[b]);
        }
    }
}

/// A bimap from ids to entities: each id belongs to one entity and each
/// entity has one id.
pub struct AuxIndex {
    map: BiHashMap<u64, u64>,
}

impl View for AuxIndex {
    type V = Map<u64, u64>;

    /// The entity of each id.
    closed spec fn view(&self) -> Map<u64, u64> {
        pairs(self.map)
    }
}

impl AuxIndex {
    /// Whether the index is in order: no two ids have the same entity.
    pub open spec fn wf(&self) -> bool {
        one_to_one(self@)
    }

    /// Creates a new instance of the [`AuxIndex`].
    pub fn new() -> (index: Self)
        ensures
            index.wf(),
            index@ == no_pairs(),
    {
        AuxIndex { map: bimap_new() }
    }

    /// Updates the map on add: puts in each pair of `added`, an id and
    /// its entity. An id or an entity that was paired before loses that
    /// pair.
    pub fn on_add(&mut self, added: &Vec<(u64, u64)>)
        requires
            old(self).wf(),
        ensures
            final(self).wf(),
            final(self)@ == after_adding(old(self)@, added@),
    {
        let mut i: usize = 0;
        while i < added.len()
            invariant
                i <= added.len(),
                self.wf(),
                self@ == after_adding(old(self)@, added@.take(i as int)),
            decreases added.len() - i,
        {
            proof {
                assert(added@.take(i + 1).drop_last() =~= added@.take(i as int));
                lemma_paired_one_to_one(self@, added@[i as int].0, added@[i as int].1);
            }
            bimap_insert(&mut self.map, added[i].0, added[i].1);
            i = i + 1;
        }
        proof {
            assert(added@.take(i as int) =~= added@);
        }
    }

    /// Updates the map on delete: takes out the pair of each id of
    /// `removed`.
    pub fn on_remove(&mut self, removed: &Vec<u64>)
        requires
            old(self).wf(),
        ensures
            final(self).wf(),
            final(self)@ == after_removing(old(self)@, removed@),
    {
        let mut i: usize = 0;
        while i < removed.len()
            invariant
                i <= removed.len(),
                self.wf(),
                self@ == after_removing(old(self)@, removed@.take(i as int)),
            decreases removed.len() - i,
        {
            proof {
                assert(removed@.take(i + 1).drop_last() =~= removed@.take(i as int));
            }
            bimap_remove_by_left(&mut self.map, removed[i]);
            i = i + 1;
        }
        proof {
            assert(removed@.take(i as int) =~= removed@);
        }
    }

    /// Returns the entity of the id `k`.
    pub fn get_by_left(&self, k: &u64) -> (entity: Option<u64>)
        ensures
            entity == (if self@.contains_key(*k) {
                Some(self@[*k])
            } else {
                None
            }),
    {
        bimap_get_by_left(&self.map, *k)
    }

    /// Returns the id of the entity `k`.
    pub fn get_by_right(&self, k: &u64) -> (id: Option<u64>)
        requires
            self.wf(),
        ensures
            match id {
                Some(id) => self@.contains_key(id) && self@[id] == *k,
                None => forall|id: u64| self@.contains_key(id) ==> #[trigger] self@[id] != *k,
            },
    {
        bimap_get_by_right(&self.map, *k)
    }
}

} // verus!
