use vstd::prelude::*;

verus! {

/// A column lent out by a [`crate::World`]: the slots of one component kind,
/// one per entity, indexed by entity id. While it is out, the registry refuses
/// every other access to that kind; handing it back makes its changes visible.
pub struct ColumnHandle<C> {
    pub(crate) kind: u64,
    pub(crate) slots: Vec<Option<C>>,
}

impl<C> ColumnHandle<C> {
    /// The component kind this column stores.
    pub open(crate) spec fn spec_kind(&self) -> u64 {
        self.kind
    }

    /// The slots, in increasing entity-id order.
    pub open(crate) spec fn spec_slots(&self) -> Seq<Option<C>> {
        self.slots@
    }

    pub fn kind(&self) -> (r: u64)
        ensures
            r == self.spec_kind(),
    {
        self.kind
    }

    /// The number of slots: the entity count when the column was lent out.
    pub fn len(&self) -> (r: usize)
        ensures
            r == self.spec_slots().len(),
    {
        self.slots.len()
    }

    /// All slots, in increasing entity-id order.
    pub fn slots(&self) -> (r: &Vec<Option<C>>)
        ensures
            r@ == self.spec_slots(),
    {
        &self.slots
    }

    /// The slot of `entity`.
    pub fn get(&self, entity: usize) -> (r: &Option<C>)
        requires
            entity < self.spec_slots().len(),
        ensures
            *r == self.spec_slots()[entity as int],
    {
        &self.slots[entity]
    }

    /// Writes `value` into the slot of `entity`.
    pub fn set(&mut self, entity: usize, value: Option<C>)
        requires
            entity < old(self).spec_slots().len(),
        ensures
            final(self).spec_kind() == old(self).spec_kind(),
            final(self).spec_slots() == old(self).spec_slots().update(entity as int, value),
    {
        self.slots.set(entity, value);
    }
}

} // verus!
