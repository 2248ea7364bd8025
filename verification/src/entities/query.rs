use vstd::prelude::*;

use crate::entities::{has_bit, Entities, MASK_WIDTH};
use crate::errors::EcsError;

verus! {

/// The target bitmask accumulated from the required type positions: the OR
/// of one bit per required position, in any order.
pub open spec fn target_of(required: Seq<usize>) -> u32
    decreases required.len(),
{
    if required.len() == 0 {
        0u32
    } else {
        target_of(required.drop_last()) | (1u32 << (required.last() as u32))
    }
}

/// True when the membership mask `m` carries every bit of `target`.
pub open spec fn matches_target(m: u32, target: u32) -> bool {
    m & target == target
}

/// The indices, in creation order, of the entities among the first `n` whose
/// membership mask matches `target`.
pub open spec fn matching_upto(map: Seq<u32>, target: u32, n: int) -> Seq<int>
    decreases n,
{
    if n <= 0 {
        Seq::empty()
    } else if matches_target(map[n - 1], target) {
        matching_upto(map, target, n - 1).push(n - 1)
    } else {
        matching_upto(map, target, n - 1)
    }
}

/// Every required position's bit is set in the accumulated target mask.
pub proof fn lemma_target_has_required_bit(required: Seq<usize>, g: int)
    requires
        0 <= g < required.len(),
        forall|k: int| 0 <= k < required.len() ==> #[trigger] required[k] < MASK_WIDTH,
    ensures
        has_bit(target_of(required), required[g] as u32),
    decreases required.len(),
{
    let prev = target_of(required.drop_last());
    let lb = required.last() as u32;
    if g == required.len() - 1 {
        assert(has_bit(prev | (1u32 << lb), lb)) by (bit_vector)
            requires
                lb < 32,
        ;
    } else {
        lemma_target_has_required_bit(required.drop_last(), g);
        let jj = required[g] as u32;
        assert(has_bit(prev, jj) ==> has_bit(prev | (1u32 << lb), jj)) by (bit_vector);
    }
}

/// A membership mask satisfies the accumulated target mask exactly when it
/// carries the bit of every required position: the filter is a conjunction,
/// never an any-of.
pub proof fn lemma_query_conjunction(m: u32, required: Seq<usize>)
    requires
        forall|k: int| 0 <= k < required.len() ==> #[trigger] required[k] < MASK_WIDTH,
    ensures
        matches_target(m, target_of(required)) <==> (forall|g: int|
            0 <= g < required.len() ==> has_bit(m, #[trigger] required[g] as u32)),
    decreases required.len(),
{
    if required.len() == 0 {
        assert(m & 0u32 == 0u32) by (bit_vector);
    } else {
        let front = required.drop_last();
        lemma_query_conjunction(m, front);
        let prev = target_of(front);
        let lb = required.last() as u32;
        assert((m & (prev | (1u32 << lb)) == (prev | (1u32 << lb))) <==> ((m & prev == prev) && (m
            & (1u32 << lb) != 0u32))) by (bit_vector)
            requires
                lb < 32,
        ;
        assert forall|g: int| 0 <= g < required.len() && matches_target(m, target_of(required))
            implies has_bit(m, #[trigger] required[g] as u32) by {
            if g < required.len() - 1 {
                assert(front[g] == required[g]);
            }
        }
        if forall|g: int| 0 <= g < required.len() ==> has_bit(m, #[trigger] required[g] as u32) {
            assert forall|g: int| 0 <= g < front.len() implies has_bit(
                m,
                #[trigger] front[g] as u32,
            ) by {
                assert(front[g] == required[g]);
            }
            assert(has_bit(m, required[required.len() - 1] as u32));
        }
    }
}

/// An entity index is among the matching indices exactly when it is in
/// range and its membership mask carries the whole target mask.
pub proof fn lemma_matching_characterization(map: Seq<u32>, target: u32, n: int, i: int)
    requires
        0 <= n <= map.len(),
    ensures
        matching_upto(map, target, n).contains(i) <==> (0 <= i < n && matches_target(
            map[i],
            target,
        )),
    decreases n,
{
    if n > 0 {
        lemma_matching_characterization(map, target, n - 1, i);
        let prev = matching_upto(map, target, n - 1);
        if matches_target(map[n - 1], target) {
            if prev.push(n - 1).contains(i) {
                let w = choose|w: int|
                    0 <= w < prev.push(n - 1).len() && #[trigger] prev.push(n - 1)[w] == i;
                if w < prev.len() {
                    assert(prev[w] == i);
                    assert(prev.contains(i));
                }
            }
            if prev.contains(i) {
                let w = choose|w: int| 0 <= w < prev.len() && prev[w] == i;
                assert(prev.push(n - 1)[w] == i);
            }
            if i == n - 1 {
                assert(prev.push(n - 1)[prev.len() as int] == i);
            }
        }
    }
}

/// A query under construction against a borrowed store: the set of required
/// component types, kept both as the accumulated target bitmask and as the
/// list of their registration positions in the order the caller named them
/// (that order decides the order of the result groups).
pub struct Query<'a, V> {
    /// The accumulated target bitmask: one bit per required type.
    pub map: u32,
    /// The registration positions of the required types, in call order.
    pub required: Vec<usize>,
    /// The store the query runs against.
    pub entities: &'a Entities<V>,
}

impl<'a, V> Query<'a, V> {
    /// Well-formedness: every required position names a registered column,
    /// and the bitmask is exactly the OR of the required positions' bits.
    pub open spec fn wf(self) -> bool {
        &&& self.entities.wf()
        &&& forall|g: int|
            0 <= g < self.required@.len() ==> (#[trigger] self.required@[g])
                < self.entities.type_ids@.len()
        &&& self.map == target_of(self.required@)
    }

    /// The indices of the entities this query matches, in creation order.
    pub open spec fn matching(self) -> Seq<int> {
        matching_upto(self.entities.map@, self.map, self.entities.map@.len() as int)
    }

    /// A fresh query against `entities`, requiring nothing yet.
    pub fn new(entities: &'a Entities<V>) -> (r: Query<'a, V>)
        requires
            entities.wf(),
        ensures
            r.wf(),
            r.entities == entities,
            r.map == 0u32,
            r.required@ == Seq::<usize>::empty(),
    {
        Query { map: 0, required: Vec::new(), entities }
    }

    /// Requires the component type `type_id`: ORs its bit into the target
    /// mask and appends its registration position to the group order. Fails
    /// with `TypeNotRegistered` — leaving the query unchanged — when
    /// `type_id` was never registered.
    pub fn with_component(&mut self, type_id: u64) -> (r: Result<(), EcsError>)
        requires
            old(self).wf(),
        ensures
            final(self).wf(),
            final(self).entities == old(self).entities,
            !old(self).entities.registered(type_id) ==> r == Err::<(), EcsError>(
                EcsError::TypeNotRegistered,
            ) && *final(self) == *old(self),
            old(self).entities.registered(type_id) ==> {
                &&& r is Ok
                &&& final(self).required@ == old(self).required@.push(
                    old(self).entities.reg_index(type_id) as usize,
                )
                &&& final(self).map == (old(self).map | old(self).entities.mask_of(type_id))
            },
    {
        let found = self.entities.find_type(type_id);
        match found {
            None => Err(EcsError::TypeNotRegistered),
            Some(j) => {
                self.map = self.map | (1u32 << (j as u32));
                self.required.push(j);
                proof {
                    assert(self.required@.drop_last() =~= old(self).required@);
                    assert(self.required@.last() == j);
                }
                Ok(())
            },
        }
    }

    /// Runs the query: scans the membership sequence in creation order and
    /// collects, for each required type in call order, the column values of
    /// the entities that carry every required type. The groups are aligned:
    /// for every `g`, the `k`-th value of group `g` is the slot of the
    /// `k`-th matching entity in the column of the `g`-th required type, so
    /// position `k` refers to the same entity across all groups. With zero
    /// required types the result holds zero groups.
    pub fn run(&self) -> (r: Vec<Vec<V>>) where V: Copy
        requires
            self.wf(),
        ensures
            r@.len() == self.required@.len(),
            forall|g: int| 0 <= g < r@.len() ==> (#[trigger] r@[g])@.len() == self.matching().len(),
            forall|g: int, k: int|
                0 <= g < r@.len() && 0 <= k < self.matching().len()
                    ==> self.entities.components@[self.required@[g] as int]@[self.matching()[k]]
                    == Some(#[trigger] r@[g]@[k]),
    {
        let mut result: Vec<Vec<V>> = Vec::new();
        let target = self.map;
        let ng = self.required.len();
        let mut g: usize = 0;
        while g < ng
            invariant
                self.wf(),
                g <= ng,
                ng == self.required@.len(),
                target == self.map,
                result@.len() == g,
                forall|g0: int|
                    0 <= g0 < g ==> (#[trigger] result@[g0])@.len() == self.matching().len(),
                forall|g0: int, k: int|
                    0 <= g0 < g && 0 <= k < self.matching().len() ==> self.entities.components@[
                        self.required@[g0] as int
                    ]@[self.matching()[k]] == Some(#[trigger] result@[g0]@[k]),
            decreases ng - g,
        {
            let j = self.required[g];
            let mut group: Vec<V> = Vec::new();
            let n = self.entities.map.len();
            let mut i: usize = 0;
            while i < n
                invariant
                    self.wf(),
                    g < self.required@.len(),
                    j == self.required@[g as int],
                    target == self.map,
                    i <= n,
                    n == self.entities.map@.len(),
                    group@.len() == matching_upto(self.entities.map@, target, i as int).len(),
                    forall|k: int|
                        0 <= k < group@.len() ==> self.entities.components@[j as int]@[matching_upto(
                            self.entities.map@,
                            target,
                            i as int,
                        )[k]] == Some(#[trigger] group@[k]),
                decreases n - i,
            {
                let m = self.entities.map[i];
                if m & target == target {
                    proof {
                        lemma_target_has_required_bit(self.required@, g as int);
                        let jj = j as u32;
                        assert(has_bit(m, jj)) by (bit_vector)
                            requires
                                m & target == target,
                                has_bit(target, jj),
                        ;
                        assert(self.entities.components@[j as int]@[i as int] is Some);
                        assert(matching_upto(self.entities.map@, target, i + 1)
                            == matching_upto(self.entities.map@, target, i as int).push(i as int));
                    }
                    let column = &self.entities.components[j];
                    let v = column[i];
                    group.push(v.unwrap());
                } else {
                    proof {
                        assert(matching_upto(self.entities.map@, target, i + 1)
                            == matching_upto(self.entities.map@, target, i as int));
                    }
                }
                i += 1;
            }
            result.push(group);
            g += 1;
        }
        result
    }
}

/// An entity is matched by a query exactly when its membership mask carries
/// the bit of every required type, so an entity missing any one required
/// type never appears in the results, and one carrying all of them always
/// does.
pub proof fn lemma_query_matches_conjunction<'a, V>(q: Query<'a, V>, i: int)
    requires
        q.wf(),
        0 <= i < q.entities.map@.len(),
    ensures
        q.matching().contains(i) <==> (forall|g: int|
            0 <= g < q.required@.len() ==> has_bit(
                q.entities.map@[i],
                #[trigger] q.required@[g] as u32,
            )),
{
    lemma_matching_characterization(q.entities.map@, q.map, q.entities.map@.len() as int, i);
    lemma_query_conjunction(q.entities.map@[i], q.required@);
}

impl<V> Entities<V> {
    /// Starts building a query against this store.
    pub fn query<'a>(&'a self) -> (r: Query<'a, V>)
        requires
            self.wf(),
        ensures
            r.wf(),
            r.entities == self,
            r.map == 0u32,
            r.required@ == Seq::<usize>::empty(),
    {
        Query::new(self)
    }
}

} // verus!
