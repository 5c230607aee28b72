//! Capturing a world.

use crate::sections::{write_components, write_entities, write_ordered, write_resource};
use crate::snapshot::{SnapshotView, WorldSyncSnapshot};
use crate::world::{Component, RollbackId, World, WorldView};
use vstd::prelude::*;

verus! {

broadcast use vstd::std_specs::hash::group_hash_axioms;

/// `encode` can be asked for the bytes of every value.
pub open spec fn encodes_all<V, E: Fn(u64, &V) -> Option<Vec<u8>>>(encode: E) -> bool {
    forall|kind: u64, value: &V| #[trigger] encode.requires((kind, value))
}

/// The bytes of an encoding, where there is one.
pub open spec fn viewed(out: Option<Vec<u8>>) -> Option<Seq<u8>> {
    match out {
        Some(bytes) => Some(bytes@),
        None => None,
    }
}

/// An encoding that failed is taken for no bytes.
pub open spec fn or_no_bytes(made: Option<Seq<u8>>) -> Seq<u8> {
    match made {
        Some(bytes) => bytes,
        None => Seq::empty(),
    }
}

/// `made` is what `encode` made of a value of a type; nothing where it failed.
pub open spec fn encoded<V, E: Fn(u64, &V) -> Option<Vec<u8>>>(
    encode: E,
    kind: u64,
    value: V,
    made: Option<Seq<u8>>,
) -> bool {
    exists|out: Option<Vec<u8>>| #[trigger]
        encode.ensures((kind, &value), out) && made == viewed(out)
}

/// `bytes` are what is written for a component: what `encode` made of it, or
/// no bytes at all where it failed.
pub open spec fn written<V, E: Fn(u64, &V) -> Option<Vec<u8>>>(
    encode: E,
    kind: u64,
    value: V,
    bytes: Seq<u8>,
) -> bool {
    exists|made: Option<Seq<u8>>| #[trigger]
        encoded(encode, kind, value, made) && bytes == or_no_bytes(made)
}

/// `parts` are the identifiers of `records` with what is written for their values.
pub open spec fn parts_written<V, E: Fn(u64, &V) -> Option<Vec<u8>>>(
    encode: E,
    kind: u64,
    records: Seq<(RollbackId, V)>,
    parts: Seq<(RollbackId, Seq<u8>)>,
) -> bool {
    &&& parts.len() == records.len()
    &&& forall|i: int|
        #![trigger parts[i]]
        #![trigger records[i]]
        0 <= i < records.len() ==> parts[i].0 == records[i].0 && written(
            encode,
            kind,
            records[i].1,
            parts[i].1,
        )
}

/// `section` holds the components of a type on the world's identified entities.
pub open spec fn component_captured<V, E: Fn(u64, &V) -> Option<Vec<u8>>>(
    encode: E,
    world: WorldView<V>,
    kind: u64,
    section: Seq<u8>,
) -> bool {
    exists|parts: Seq<(RollbackId, Seq<u8>)>|
        parts_written(
            encode,
            kind,
            crate::world::identified_components(world.entities, world.components, kind),
            parts,
        ) && section == #[trigger] crate::sections::component_section(parts)
}

/// `section` holds the resource of a type, or says that there is none. One that
/// could not be encoded is taken for absent.
pub open spec fn resource_captured<V, E: Fn(u64, &V) -> Option<Vec<u8>>>(
    encode: E,
    world: WorldView<V>,
    kind: u64,
    section: Seq<u8>,
) -> bool {
    if world.resources.contains_key(kind) {
        exists|made: Option<Seq<u8>>| #[trigger]
            encoded(encode, kind, world.resources[kind], made) && section
                == crate::sections::resource_section(made)
    } else {
        section == crate::sections::resource_section(None)
    }
}

/// The types registered in a world; none where there is no registry.
pub open spec fn registered<V>(world: WorldView<V>) -> crate::registry::RegistryView {
    match world.registry {
        Some(registry) => registry,
        None => crate::registry::empty_registry(),
    }
}

/// The frame that a world has reached; zero where it counts none.
pub open spec fn frame_of<V>(world: WorldView<V>) -> i32 {
    match world.frame {
        Some(frame) => frame.0,
        None => 0,
    }
}

/// The rollback order of a world; empty where it has none.
pub open spec fn order_of<V>(world: WorldView<V>) -> Seq<RollbackId> {
    match world.ordered {
        Some(ids) => ids,
        None => Seq::empty(),
    }
}

/// `snapshot` is a snapshot of `world`.
pub open spec fn captured<V, E: Fn(u64, &V) -> Option<Vec<u8>>>(
    encode: E,
    world: WorldView<V>,
    snapshot: SnapshotView,
) -> bool {
    let kinds = registered(world);
    &&& snapshot.frame == frame_of(world)
    &&& snapshot.entity_data == crate::sections::entity_section(
        crate::world::identified(world.entities),
    )
    &&& snapshot.ordered_data == crate::sections::ordered_section(order_of(world))
    &&& snapshot.component_sections.len() == kinds.components.len()
    &&& forall|i: int|
        0 <= i < kinds.components.len() ==> component_captured(
            encode,
            world,
            #[trigger] kinds.components[i],
            snapshot.component_sections[i],
        )
    &&& snapshot.resource_sections.len() == kinds.resources.len()
    &&& forall|i: int|
        0 <= i < kinds.resources.len() ==> resource_captured(
            encode,
            world,
            #[trigger] kinds.resources[i],
            snapshot.resource_sections[i],
        )
}

/// Appends the section of a component type: what each component encodes to,
/// or nothing where that failed.
fn capture_component<V, E: Fn(u64, &V) -> Option<Vec<u8>>>(
    world: &World<V>,
    kind: u64,
    encode: &E,
    buf: &mut Vec<u8>,
)
    requires
        encodes_all(*encode),
    ensures
        exists|section: Seq<u8>| #[trigger]
            component_captured(*encode, world@, kind, section) && final(buf)@ == old(buf)@
                + section,
{
    let ghost rows = world@.entities;
    let ghost keep = |component: Component<V>|
        component.kind == kind && crate::world::id_of(rows, component.entity) is Some;
    let ghost pair = |component: Component<V>|
        (crate::world::id_of(rows, component.entity)->0, component.value);
    let mut records: Vec<(RollbackId, Vec<u8>)> = Vec::new();
    let mut i: usize = 0;
    assert(world.components@.take(0).filter(keep).map_values(pair) =~= Seq::empty()) by {
        reveal(Seq::filter);
    }
    while i < world.components.len()
        invariant
            i <= world.components.len(),
            encodes_all(*encode),
            rows == world@.entities,
            keep == (|component: Component<V>|
                component.kind == kind && crate::world::id_of(rows, component.entity) is Some),
            pair == (|component: Component<V>|
                (crate::world::id_of(rows, component.entity)->0, component.value)),
            parts_written(
                *encode,
                kind,
                world.components@.take(i as int).filter(keep).map_values(pair),
                crate::sections::record_views(records@),
            ),
        decreases world.components.len() - i,
    {
        let component = &world.components[i];
        let ghost done = world.components@.take(i as int).filter(keep);
        let ghost parts = crate::sections::record_views(records@);
        proof {
            crate::seqs::lemma_filter_step(world.components@, i as int, keep);
            assert(done.push(*component).map_values(pair) =~= done.map_values(pair).push(
                pair(*component),
            ));
        }
        if component.kind == kind {
            if let Some(id) = world.id_of(component.entity) {
                let out: Option<Vec<u8>> = encode(kind, &component.value);
                let ghost made = viewed(out);
                assert(encoded(*encode, kind, component.value, made));
                let bytes: Vec<u8> = match out {
                    Some(bytes) => bytes,
                    None => Vec::new(),
                };
                assert(written(*encode, kind, component.value, bytes@));
                records.push((id, bytes));
                assert(crate::sections::record_views(records@) =~= parts.push((id, bytes@)));
            }
        }
        i = i + 1;
    }
    assert(world.components@.take(i as int) =~= world.components@);
    write_components(&records, buf);
    proof {
        let parts = crate::sections::record_views(records@);
        let section = crate::sections::component_section(parts);
        assert(component_captured(*encode, world@, kind, section));
    }
}

/// Appends the section of a resource type: what the resource encodes to, or a
/// zero where there is no such resource or it could not be encoded.
fn capture_resource<V, E: Fn(u64, &V) -> Option<Vec<u8>>>(
    world: &World<V>,
    kind: u64,
    encode: &E,
    buf: &mut Vec<u8>,
)
    requires
        encodes_all(*encode),
    ensures
        exists|section: Seq<u8>| #[trigger]
            resource_captured(*encode, world@, kind, section) && final(buf)@ == old(buf)@ + section,
{
    match world.resource(kind) {
        None => {
            write_resource(&None, buf);
            assert(resource_captured(
                *encode,
                world@,
                kind,
                crate::sections::resource_section(None),
            ));
        },
        Some(value) => {
            let out: Option<Vec<u8>> = encode(kind, value);
            let ghost made = viewed(out);
            assert(encoded(*encode, kind, *value, made));
            write_resource(&out, buf);
            assert(resource_captured(
                *encode,
                world@,
                kind,
                crate::sections::resource_section(made),
            ));
        },
    }
}

/// The section of the entities with an identifier.
fn capture_entities<V>(world: &World<V>) -> (data: Vec<u8>)
    ensures
        data@ == crate::sections::entity_section(crate::world::identified(world@.entities)),
{
    let records: Vec<(RollbackId, u64)> = world.identified();
    write_entities(&records)
}

/// The section of the rollback order.
fn capture_ordered<V>(world: &World<V>) -> (data: Vec<u8>)
    ensures
        data@ == crate::sections::ordered_section(order_of(world@)),
{
    match &world.ordered {
        Some(ordered) => write_ordered(ordered.iter_sorted()),
        None => {
            let none: Vec<RollbackId> = Vec::new();
            write_ordered(&none)
        },
    }
}

impl WorldSyncSnapshot {
    /// Captures a full snapshot of all rollback state from the given world.
    ///
    /// `encode` turns a value of a registered type into bytes. Where it fails, a
    /// component is written as no bytes, and a resource as absent.
    pub fn capture<V, E: Fn(u64, &V) -> Option<Vec<u8>>>(world: &World<V>, encode: &E) -> (snapshot:
        Self)
        requires
            encodes_all(*encode),
        ensures
            captured(*encode, world@, snapshot@),
    {
        let frame: i32 = match world.frame {
            Some(frame) => frame.0,
            None => 0,
        };
        let entity_data: Vec<u8> = capture_entities(world);
        let ordered_data: Vec<u8> = capture_ordered(world);
        let mut component_sections: Vec<Vec<u8>> = Vec::new();
        let mut resource_sections: Vec<Vec<u8>> = Vec::new();
        let ghost kinds = registered(world@);
        if let Some(registry) = &world.registry {
            let components: &Vec<u64> = registry.components();
            let mut i: usize = 0;
            while i < components.len()
                invariant
                    i <= components.len(),
                    encodes_all(*encode),
                    components@ == kinds.components,
                    component_sections.len() == i,
                    forall|j: int|
                        0 <= j < i ==> component_captured(
                            *encode,
                            world@,
                            #[trigger] kinds.components[j],
                            component_sections@[j]@,
                        ),
                decreases components.len() - i,
            {
                let mut buf: Vec<u8> = Vec::new();
                capture_component(world, components[i], encode, &mut buf);
                proof {
                    let section = choose|section: Seq<u8>| #[trigger]
                        component_captured(*encode, world@, components@[i as int], section) && buf@
                            == Seq::<u8>::empty() + section;
                    assert(buf@ =~= section);
                }
                component_sections.push(buf);
                i = i + 1;
            }
            let resources: &Vec<u64> = registry.resources();
            let mut i: usize = 0;
            while i < resources.len()
                invariant
                    i <= resources.len(),
                    encodes_all(*encode),
                    resources@ == kinds.resources,
                    resource_sections.len() == i,
                    forall|j: int|
                        0 <= j < i ==> resource_captured(
                            *encode,
                            world@,
                            #[trigger] kinds.resources[j],
                            resource_sections@[j]@,
                        ),
                decreases resources.len() - i,
            {
                let mut buf: Vec<u8> = Vec::new();
                capture_resource(world, resources[i], encode, &mut buf);
                proof {
                    let section = choose|section: Seq<u8>| #[trigger]
                        resource_captured(*encode, world@, resources@[i as int], section) && buf@
                            == Seq::<u8>::empty() + section;
                    assert(buf@ =~= section);
                }
                resource_sections.push(buf);
                i = i + 1;
            }
        }
        WorldSyncSnapshot {
            frame,
            entity_data,
            ordered_data,
            component_sections,
            resource_sections,
        }
    }
}

} // verus!
