//! Entities handed out for engine objects before discovery reaches them.
use std::collections::BTreeMap;
use vstd::prelude::*;

verus! {

broadcast use vstd::std_specs::btree::group_btree_axioms;

/// Maps an engine instance identity to the ECS entity (as its bits) that was
/// allocated for it ahead of discovery. Discovery takes each entry once.
pub struct EntityPreregister {
    instance_id_to_entity: BTreeMap<u64, u64>,
}

impl View for EntityPreregister {
    type V = Map<u64, u64>;

    closed spec fn view(&self) -> Map<u64, u64> {
        self.instance_id_to_entity@
    }
}

impl EntityPreregister {
    pub fn new() -> (r: Self)
        ensures
            r@ == Map::<u64, u64>::empty(),
    {
        EntityPreregister { instance_id_to_entity: BTreeMap::new() }
    }

    /// The entity of `instance_id`: the one recorded earlier, or else one that
    /// `spawn` allocates, which is then recorded.
    pub fn get_entity_for_node<S: FnOnce() -> u64>(&mut self, instance_id: u64, spawn: S) -> (r: u64)
        requires
            spawn.requires(()),
        ensures
            old(self)@.contains_key(instance_id) ==> r == old(self)@[instance_id] && final(self)@
                == old(self)@,
            !old(self)@.contains_key(instance_id) ==> spawn.ensures((), r) && final(self)@ == old(
                self,
            )@.insert(instance_id, r),
    {
        match self.instance_id_to_entity.get(&instance_id) {
            Some(e) => *e,
            None => {
                let entity = spawn();
                self.instance_id_to_entity.insert(instance_id, entity);
                entity
            },
        }
    }

    /// Takes out the entity recorded for `instance_id`, if there is one.
    pub fn take_entity_if_exists(&mut self, instance_id: u64) -> (r: Option<u64>)
        ensures
            r == (if old(self)@.contains_key(instance_id) {
                Some(old(self)@[instance_id])
            } else {
                None::<u64>
            }),
            final(self)@ == old(self)@.remove(instance_id),
    {
        self.instance_id_to_entity.remove(&instance_id)
    }
}

} // verus!
