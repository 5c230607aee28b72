//! Which types take part in world snapshots.

use vstd::prelude::*;

verus! {

/// Registry of component and resource types that participate in world sync
/// snapshots. A type is known by a number that tells it apart from the others.
pub struct WorldSyncRegistry {
    components: Vec<u64>,
    resources: Vec<u64>,
    remaps: Vec<u64>,
}

/// The registered types, in the order of their registration.
#[verifier::ext_equal]
pub struct RegistryView {
    /// Component types that are captured and restored.
    pub components: Seq<u64>,
    /// Resource types that are captured and restored.
    pub resources: Seq<u64>,
    /// Component types whose entity references are remapped after a restore.
    pub remaps: Seq<u64>,
}

impl View for WorldSyncRegistry {
    type V = RegistryView;

    closed spec fn view(&self) -> RegistryView {
        RegistryView {
            components: self.components@,
            resources: self.resources@,
            remaps: self.remaps@,
        }
    }
}

/// The registry in which nothing is registered.
pub open spec fn empty_registry() -> RegistryView {
    RegistryView { components: Seq::empty(), resources: Seq::empty(), remaps: Seq::empty() }
}

impl Default for WorldSyncRegistry {
    fn default() -> (registry: Self)
        ensures
            registry@ == empty_registry(),
    {
        WorldSyncRegistry { components: Vec::new(), resources: Vec::new(), remaps: Vec::new() }
    }
}

impl WorldSyncRegistry {
    /// Register a component type for world sync capture/restore.
    pub fn register_component(&mut self, kind: u64)
        ensures
            final(self)@ == (RegistryView {
                components: old(self)@.components.push(kind),
                ..old(self)@
            }),
    {
        self.components.push(kind);
    }

    /// Register a resource type for world sync capture/restore.
    pub fn register_resource(&mut self, kind: u64)
        ensures
            final(self)@ == (RegistryView {
                resources: old(self)@.resources.push(kind),
                ..old(self)@
            }),
    {
        self.resources.push(kind);
    }

    /// Register a component type that contains entity references needing
    /// remapping after restore.
    pub fn register_component_with_remap(&mut self, kind: u64)
        ensures
            final(self)@ == (RegistryView {
                components: old(self)@.components.push(kind),
                remaps: old(self)@.remaps.push(kind),
                ..old(self)@
            }),
    {
        self.components.push(kind);
        self.remaps.push(kind);
    }

    /// The component types to capture and restore.
    pub fn components(&self) -> (kinds: &Vec<u64>)
        ensures
            kinds@ == self@.components,
    {
        &self.components
    }

    /// The resource types to capture and restore.
    pub fn resources(&self) -> (kinds: &Vec<u64>)
        ensures
            kinds@ == self@.resources,
    {
        &self.resources
    }

    /// The component types to remap after a restore.
    pub fn remaps(&self) -> (kinds: &Vec<u64>)
        ensures
            kinds@ == self@.remaps,
    {
        &self.remaps
    }
}

/// What contracts say of a registry, they say of what is in its fields.
proof fn law_registry_is_its_fields(registry: WorldSyncRegistry)
    ensures
        registry@.components == registry.components@,
        registry@.resources == registry.resources@,
        registry@.remaps == registry.remaps@,
{
}

} // verus!
