//! Entities in their bit form.

use bevy::prelude::Entity;
use std::collections::HashMap;
use vstd::prelude::*;

verus! {

broadcast use vstd::std_specs::hash::group_hash_axioms;

/// Whether `bits` is the bit form of some entity: its low half, which holds
/// the index, is not zero.
pub open spec fn valid_entity_bits(bits: u64) -> bool {
    bits % 0x1_0000_0000 != 0
}

/// Calls `bevy::prelude::Entity::try_from_bits` and reports whether it found
/// an entity. Trusted: it finds one exactly when the low 32 bits of `bits`
/// are not all zero, whatever the high 32 bits hold.
#[verifier::external_body]
fn try_entity_bits(bits: u64) -> (found: bool)
    ensures
        found == valid_entity_bits(bits),
{
    Entity::try_from_bits(bits).is_some()
}

/// Calls `bevy::prelude::Entity::from_bits`, which panics on bits that are no
/// entity's, and gives the entity back in its bit form. Trusted: the bits
/// that an entity was made from are the bits that it is turned back into.
#[verifier::external_body]
fn entity_from_bits(bits: u64) -> (entity: u64)
    requires
        valid_entity_bits(bits),
    ensures
        entity == bits,
{
    Entity::from_bits(bits).to_bits()
}

/// Whether `bits` can be turned back into an entity.
pub fn entity_bits_valid(bits: u64) -> (valid: bool)
    ensures
        valid == valid_entity_bits(bits),
{
    try_entity_bits(bits)
}

/// The entity that has these bits.
pub fn read_entity(bits: u64) -> (entity: u64)
    requires
        valid_entity_bits(bits),
    ensures
        entity == bits,
{
    entity_from_bits(bits)
}

/// Which entity took the place of which.
pub struct EntityMap {
    map: HashMap<u64, u64>,
}

impl View for EntityMap {
    type V = Map<u64, u64>;

    closed spec fn view(&self) -> Map<u64, u64> {
        self.map@
    }
}

/// The entity that took the place of `entity`; `entity` itself where none did.
pub open spec fn mapped(map: Map<u64, u64>, entity: u64) -> u64 {
    if map.contains_key(entity) {
        map[entity]
    } else {
        entity
    }
}

impl EntityMap {
    /// A map in which every entity stands for itself.
    pub fn new() -> (map: Self)
        ensures
            map@ == Map::<u64, u64>::empty(),
    {
        EntityMap { map: HashMap::new() }
    }

    /// Puts `new` in the place of `old_entity`.
    pub fn insert(&mut self, old_entity: u64, new: u64)
        ensures
            final(self)@ == old(self)@.insert(old_entity, new),
    {
        self.map.insert(old_entity, new);
    }

    /// The entity that took the place of `entity`; `entity` itself where none did.
    pub fn get_mapped(&self, entity: u64) -> (target: u64)
        ensures
            target == mapped(self@, entity),
    {
        match self.map.get(&entity) {
            Some(target) => *target,
            None => entity,
        }
    }
}

/// What contracts say of a map of entities, they say of what is in it.
proof fn law_entity_map_is_its_entries(map: EntityMap)
    ensures
        map@ == map.map@,
{
}

} // verus!
