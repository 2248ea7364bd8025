use vstd::prelude::*;

use crate::errors::EcsError;

pub mod query;

verus! {

/// Width of the membership bitmask: the most component types the store can
/// register.
pub const MASK_WIDTH: u32 = 32;

/// True when bit `j` of the mask `m` is set.
pub open spec fn has_bit(m: u32, j: u32) -> bool {
    m & (1u32 << j) != 0u32
}

/// A columnar entity-component store.
///
/// Component types are identified by caller-chosen `u64` identifiers. Each
/// registered type owns one column of optional component values — one slot
/// per entity, aligned by index across all columns — and one bit of every
/// entity's membership bitmask, assigned in registration order.
pub struct Entities<V> {
    /// Identifiers of the registered component types, in registration order:
    /// the type at position `j` owns bit `j` of every membership mask.
    pub type_ids: Vec<u64>,
    /// One column per registered type, aligned with `type_ids`; each column
    /// holds one optional component value per entity slot.
    pub components: Vec<Vec<Option<V>>>,
    /// One membership bitmask per entity, in creation order: bit `j` is set
    /// exactly when the entity's slot in column `j` holds a value.
    pub map: Vec<u32>,
}

impl<V> Entities<V> {
    /// True when `type_id` has been registered.
    pub open spec fn registered(self, type_id: u64) -> bool {
        self.type_ids@.contains(type_id)
    }

    /// The registration position of `type_id` (meaningful only when
    /// `registered(type_id)` holds; positions are unique because registered
    /// identifiers are distinct).
    pub open spec fn reg_index(self, type_id: u64) -> int {
        choose|j: int| 0 <= j < self.type_ids@.len() && self.type_ids@[j] == type_id
    }

    /// The bit mask owned by `type_id`: one bit, at its registration position.
    pub open spec fn mask_of(self, type_id: u64) -> u32 {
        1u32 << (self.reg_index(type_id) as u32)
    }

    /// The number of entity slots.
    pub open spec fn entity_count(self) -> nat {
        self.map@.len()
    }

    /// Well-formedness: one column per registered type, all identifiers
    /// distinct, every column as long as the membership sequence, and every
    /// membership bit aligned with its column slot (a bit is set exactly when
    /// the slot holds a value; bits without a column are clear).
    pub open spec fn wf(self) -> bool {
        &&& self.components@.len() == self.type_ids@.len()
        &&& self.type_ids@.len() <= MASK_WIDTH
        &&& forall|a: int, b: int|
            0 <= a < b < self.type_ids@.len() ==> self.type_ids@[a] != self.type_ids@[b]
        &&& forall|j: int|
            0 <= j < self.components@.len() ==> (#[trigger] self.components@[j])@.len()
                == self.map@.len()
        &&& forall|i: int, j: u32|
            0 <= i < self.map@.len() && j < MASK_WIDTH ==> (#[trigger] has_bit(self.map@[i], j)
                <==> (j < self.components@.len() && self.components@[j as int]@[i] is Some))
    }

    /// An empty store: no registered types, no entities.
    pub fn new() -> (r: Entities<V>)
        ensures
            r.wf(),
            r.type_ids@ =~= Seq::<u64>::empty(),
            r.components@ =~= Seq::<Vec<Option<V>>>::empty(),
            r.map@ =~= Seq::<u32>::empty(),
    {
        Entities { type_ids: Vec::new(), components: Vec::new(), map: Vec::new() }
    }

    /// The registration position of `type_id`, or `None` when it was never
    /// registered.
    pub(crate) fn find_type(&self, type_id: u64) -> (r: Option<usize>)
        requires
            self.wf(),
        ensures
            match r {
                Some(j) => self.registered(type_id) && self.reg_index(type_id) == j
                    && j < self.type_ids@.len() && self.type_ids@[j as int] == type_id,
                None => !self.registered(type_id),
            },
    {
        let n = self.type_ids.len();
        let mut j: usize = 0;
        while j < n
            invariant
                self.wf(),
                j <= n,
                n == self.type_ids@.len(),
                forall|k: int| 0 <= k < j ==> self.type_ids@[k] != type_id,
            decreases n - j,
        {
            if self.type_ids[j] == type_id {
                proof {
                    assert(self.type_ids@[j as int] == type_id);
                    let w = self.reg_index(type_id);
                    assert(0 <= w < self.type_ids@.len() && self.type_ids@[w] == type_id);
                    if w != j as int {
                        assert(false);
                    }
                }
                return Some(j);
            }
            j += 1;
        }
        proof {
            assert(forall|k: int|
                0 <= k < self.type_ids@.len() ==> self.type_ids@[k] != type_id);
        }
        None
    }

    /// Registers the component type `type_id`, assigning it the next bit of
    /// the membership bitmask and a fresh column. The column is backfilled
    /// with an empty slot for every entity that already exists, so late
    /// registration keeps every column aligned with the membership sequence.
    /// Fails with `TooManyComponentTypes` once all bits are taken.
    /// Re-registering an identifier is not supported and is excluded by
    /// precondition.
    pub fn register_component(&mut self, type_id: u64) -> (r: Result<(), EcsError>)
        requires
            old(self).wf(),
            !old(self).registered(type_id),
        ensures
            final(self).wf(),
            old(self).type_ids@.len() < MASK_WIDTH ==> {
                &&& r is Ok
                &&& final(self).type_ids@ == old(self).type_ids@.push(type_id)
                &&& final(self).map@ == old(self).map@
                &&& final(self).components@.len() == old(self).components@.len() + 1
                &&& forall|j: int|
                    0 <= j < old(self).components@.len() ==> final(self).components@[j] == old(
                        self,
                    ).components@[j]
                &&& final(self).components@.last()@.len() == final(self).map@.len()
                &&& forall|i: int|
                    0 <= i < final(self).map@.len() ==> final(self).components@.last()@[i] is None
                &&& final(self).registered(type_id)
                &&& final(self).reg_index(type_id) == old(self).type_ids@.len()
                &&& final(self).mask_of(type_id) == 1u32 << (old(self).type_ids@.len() as u32)
                &&& forall|t: u64|
                    #[trigger] old(self).registered(t) ==> final(self).registered(t)
                        && final(self).reg_index(t) == old(self).reg_index(t)
                        && final(self).mask_of(t) == old(self).mask_of(t)
            },
            old(self).type_ids@.len() >= MASK_WIDTH ==> r == Err::<(), EcsError>(
                EcsError::TooManyComponentTypes,
            ) && *final(self) == *old(self),
    {
        if self.type_ids.len() >= MASK_WIDTH as usize {
            return Err(EcsError::TooManyComponentTypes);
        }
        let ghost pre = *self;
        let n = self.map.len();
        let mut column: Vec<Option<V>> = Vec::new();
        let mut i: usize = 0;
        while i < n
            invariant
                i <= n,
                column@.len() == i,
                forall|k: int| 0 <= k < i ==> column@[k] is None,
            decreases n - i,
        {
            column.push(None);
            i += 1;
        }
        self.type_ids.push(type_id);
        self.components.push(column);
        proof {
            let jn = pre.type_ids@.len() as int;
            assert(self.type_ids@[jn] == type_id);
            assert(self.registered(type_id));
            let w = self.reg_index(type_id);
            assert(0 <= w < self.type_ids@.len() && self.type_ids@[w] == type_id);
            if w != jn {
                assert(pre.type_ids@[w] == type_id);
                assert(pre.registered(type_id));
                assert(false);
            }
            assert forall|t: u64| #[trigger] pre.registered(t) implies self.registered(t)
                && self.reg_index(t) == pre.reg_index(t) && self.mask_of(t) == pre.mask_of(t) by {
                let w0 = pre.reg_index(t);
                assert(0 <= w0 < pre.type_ids@.len() && pre.type_ids@[w0] == t);
                assert(self.type_ids@[w0] == t);
                assert(self.registered(t));
                let w1 = self.reg_index(t);
                assert(0 <= w1 < self.type_ids@.len() && self.type_ids@[w1] == t);
                if w1 != w0 {
                    if w1 == jn {
                        assert(pre.registered(type_id));
                        assert(false);
                    } else {
                        assert(pre.type_ids@[w1] == t);
                        assert(false);
                    }
                }
            }
            assert forall|i0: int, j0: u32|
                0 <= i0 < self.map@.len() && j0 < MASK_WIDTH implies (#[trigger] has_bit(
                self.map@[i0],
                j0,
            ) <==> (j0 < self.components@.len() && self.components@[j0 as int]@[i0] is Some)) by {
                assert(self.map@[i0] == pre.map@[i0]);
                if j0 < pre.components@.len() {
                    assert(self.components@[j0 as int] == pre.components@[j0 as int]);
                } else if j0 == pre.components@.len() {
                    assert(self.components@[j0 as int]@[i0] is None);
                    assert(!has_bit(pre.map@[i0], j0));
                }
            }
        }
        Ok(())
    }
    /// Creates one entity: appends an empty slot to every column and a zero
    /// membership bitmask. The new slot becomes the most recently created
    /// entity, the one `with_component` attaches to.
    pub fn create_entity(&mut self)
        requires
            old(self).wf(),
        ensures
            final(self).wf(),
            final(self).type_ids@ == old(self).type_ids@,
            final(self).map@ == old(self).map@.push(0u32),
            final(self).entity_count() == old(self).entity_count() + 1,
            final(self).components@.len() == old(self).components@.len(),
            forall|j: int|
                0 <= j < old(self).components@.len() ==> (#[trigger] final(self).components@[j])@
                    == old(self).components@[j]@.push(None::<V>),
    {
        let ghost pre = *self;
        let n = self.components.len();
        let mut j: usize = 0;
        while j < n
            invariant
                j <= n,
                n == self.components@.len(),
                self.type_ids@ == pre.type_ids@,
                self.map@ == pre.map@,
                self.components@.len() == pre.components@.len(),
                forall|k: int|
                    0 <= k < j ==> (#[trigger] self.components@[k])@ == pre.components@[k]@.push(
                        None::<V>,
                    ),
                forall|k: int| j <= k < n ==> self.components@[k] == pre.components@[k],
            decreases n - j,
        {
            self.components[j].push(None);
            j += 1;
        }
        self.map.push(0);
        proof {
            assert(forall|b: u32| #[trigger] (0u32 & (1u32 << b)) == 0u32) by (bit_vector);
            assert forall|i0: int, j0: u32|
                0 <= i0 < self.map@.len() && j0 < MASK_WIDTH implies (#[trigger] has_bit(
                self.map@[i0],
                j0,
            ) <==> (j0 < self.components@.len() && self.components@[j0 as int]@[i0] is Some)) by {
                if i0 < pre.map@.len() {
                    assert(self.map@[i0] == pre.map@[i0]);
                    assert(has_bit(pre.map@[i0], j0) <==> (j0 < pre.components@.len()
                        && pre.components@[j0 as int]@[i0] is Some));
                    if j0 < pre.components@.len() {
                        assert(self.components@[j0 as int]@ == pre.components@[j0 as int]@.push(
                            None::<V>,
                        ));
                    }
                } else {
                    assert(self.map@[i0] == 0u32);
                    assert(0u32 & (1u32 << j0) == 0u32);
                    if j0 < self.components@.len() {
                        assert(self.components@[j0 as int]@ == pre.components@[j0 as int]@.push(
                            None::<V>,
                        ));
                        assert(self.components@[j0 as int]@[i0] is None);
                    }
                }
            }
        }
    }

    /// Attaches `data` as the component of type `type_id` on the most
    /// recently created entity: writes the value into that entity's slot of
    /// the type's column — overwriting any earlier value — and sets the
    /// type's bit in the entity's membership bitmask. Everything else is
    /// untouched. Fails with `TypeNotRegistered` when `type_id` was never
    /// registered and with `NoEntityCreated` when no entity exists yet; a
    /// failed call leaves the store unchanged.
    pub fn with_component(&mut self, type_id: u64, data: V) -> (r: Result<(), EcsError>)
        requires
            old(self).wf(),
        ensures
            final(self).wf(),
            !old(self).registered(type_id) ==> r == Err::<(), EcsError>(EcsError::TypeNotRegistered)
                && *final(self) == *old(self),
            old(self).registered(type_id) && old(self).entity_count() == 0 ==> r == Err::<
                (),
                EcsError,
            >(EcsError::NoEntityCreated) && *final(self) == *old(self),
            old(self).registered(type_id) && old(self).entity_count() > 0 ==> {
                let j = old(self).reg_index(type_id);
                let last = old(self).map@.len() - 1;
                &&& r is Ok
                &&& final(self).type_ids@ == old(self).type_ids@
                &&& final(self).map@ == old(self).map@.update(
                    last,
                    old(self).map@[last] | old(self).mask_of(type_id),
                )
                &&& final(self).components@.len() == old(self).components@.len()
                &&& final(self).components@[j]@ == old(self).components@[j]@.update(
                    last,
                    Some(data),
                )
                &&& forall|k: int|
                    0 <= k < old(self).components@.len() && k != j ==> final(self).components@[k]
                        == old(self).components@[k]
            },
    {
        let found = self.find_type(type_id);
        match found {
            None => Err(EcsError::TypeNotRegistered),
            Some(j) => {
                if self.map.len() == 0 {
                    return Err(EcsError::NoEntityCreated);
                }
                let ghost pre = *self;
                let last = self.map.len() - 1;
                self.components[j][last] = Some(data);
                let m = self.map[last];
                let b = 1u32 << (j as u32);
                self.map[last] = m | b;
                proof {
                    let jj = j as u32;
                    assert(jj < 32);
                    assert(has_bit(m | (1u32 << jj), jj)) by (bit_vector)
                        requires
                            jj < 32,
                    ;
                    assert(forall|j0: u32|
                        j0 != jj ==> (#[trigger] has_bit(m | (1u32 << jj), j0) <==> has_bit(
                            m,
                            j0,
                        ))) by (bit_vector);
                    assert forall|i0: int, j0: u32|
                        0 <= i0 < self.map@.len() && j0 < MASK_WIDTH implies (#[trigger] has_bit(
                        self.map@[i0],
                        j0,
                    ) <==> (j0 < self.components@.len()
                        && self.components@[j0 as int]@[i0] is Some)) by {
                        if i0 != last as int {
                            assert(self.map@[i0] == pre.map@[i0]);
                            if j0 < pre.components@.len() && j0 != j as u32 {
                                assert(self.components@[j0 as int] == pre.components@[j0 as int]);
                            }
                            if j0 == j as u32 {
                                assert(self.components@[j0 as int]@[i0] == pre.components@[
                                    j0 as int]@[i0]);
                            }
                        } else {
                            assert(self.map@[i0] == (m | b));
                            assert(has_bit(pre.map@[i0], j0) <==> (j0 < pre.components@.len()
                                && pre.components@[j0 as int]@[i0] is Some));
                            if j0 == j as u32 {
                                assert(self.components@[j0 as int]@[i0] == Some(data));
                            } else if j0 < pre.components@.len() {
                                assert(self.components@[j0 as int] == pre.components@[j0 as int]);
                            }
                        }
                    }
                }
                Ok(())
            },
        }
    }

    /// The bit mask assigned to `type_id`, or `None` when it was never
    /// registered.
    pub fn get_bit_mask(&self, type_id: u64) -> (r: Option<u32>)
        requires
            self.wf(),
        ensures
            self.registered(type_id) ==> r == Some(self.mask_of(type_id)),
            !self.registered(type_id) ==> r is None,
    {
        let found = self.find_type(type_id);
        match found {
            Some(j) => Some(1u32 << (j as u32)),
            None => None,
        }
    }

    /// The membership bitmask of the entity at `entity_index`, or `None`
    /// when no such entity exists.
    pub fn membership_of(&self, entity_index: usize) -> (r: Option<u32>)
        ensures
            entity_index < self.map@.len() ==> r == Some(self.map@[entity_index as int]),
            entity_index >= self.map@.len() ==> r is None,
    {
        if entity_index < self.map.len() {
            Some(self.map[entity_index])
        } else {
            None
        }
    }
}

impl<V> Default for Entities<V> {
    /// An empty store, the same as `Entities::new()`.
    fn default() -> (r: Entities<V>)
        ensures
            r.wf(),
            r.type_ids@ =~= Seq::<u64>::empty(),
            r.components@ =~= Seq::<Vec<Option<V>>>::empty(),
            r.map@ =~= Seq::<u32>::empty(),
    {
        Entities::new()
    }
}

/// The type registered at position `j` owns the bit mask `2^j`: the `n`-th
/// registered type always gets the `n`-th bit of the membership masks.
pub proof fn lemma_bit_assignment<V>(e: Entities<V>, j: int)
    requires
        e.wf(),
        0 <= j < e.type_ids@.len(),
    ensures
        e.mask_of(e.type_ids@[j]) == 1u32 << (j as u32),
        e.mask_of(e.type_ids@[j]) == vstd::arithmetic::power2::pow2(j as nat),
{
    assert(e.type_ids@[j] == e.type_ids@[j]);
    assert(e.registered(e.type_ids@[j]));
    let w = e.reg_index(e.type_ids@[j]);
    assert(0 <= w < e.type_ids@.len() && e.type_ids@[w] == e.type_ids@[j]);
    if w != j {
        assert(false);
    }
    vstd::arithmetic::power2::lemma_pow2_strictly_increases(j as nat, 32);
    vstd::arithmetic::power2::lemma2_to64();
    vstd::bits::lemma_u32_shl_is_mul(1u32, j as u32);
}

/// For every entity and every registered type, the type's membership bit is
/// set exactly when the entity's slot in the type's column holds a value:
/// the bitmask never drifts from the columns.
pub proof fn lemma_column_membership_alignment<V>(e: Entities<V>, type_id: u64, i: int)
    requires
        e.wf(),
        e.registered(type_id),
        0 <= i < e.map@.len(),
    ensures
        has_bit(e.map@[i], e.reg_index(type_id) as u32) <==> e.components@[e.reg_index(
            type_id,
        )]@[i] is Some,
{
    let j = e.reg_index(type_id);
    assert(0 <= j < e.type_ids@.len() && e.type_ids@[j] == type_id);
    assert(has_bit(e.map@[i], j as u32) <==> (j < e.components@.len()
        && e.components@[j as int]@[i] is Some));
}

/// Attaching a component of the same type twice to the same slot leaves
/// exactly one value in the column — the second one — and the second
/// attachment leaves the membership mask unchanged, with the type's bit
/// still set. The column update and the mask OR here are exactly the state
/// changes `with_component` states in its postcondition.
pub proof fn lemma_attach_idempotent<V>(
    col: Seq<Option<V>>,
    m: u32,
    slot: int,
    j: u32,
    d1: V,
    d2: V,
)
    requires
        0 <= slot < col.len(),
        j < MASK_WIDTH,
    ensures
        col.update(slot, Some(d1)).update(slot, Some(d2)) == col.update(slot, Some(d2)),
        (m | (1u32 << j)) | (1u32 << j) == m | (1u32 << j),
        has_bit(m | (1u32 << j), j),
{
    assert(col.update(slot, Some(d1)).update(slot, Some(d2)) =~= col.update(slot, Some(d2)));
    assert(((m | (1u32 << j)) | (1u32 << j)) == (m | (1u32 << j))) by (bit_vector);
    assert(has_bit(m | (1u32 << j), j)) by (bit_vector)
        requires
            j < 32,
    ;
}

} // verus!
