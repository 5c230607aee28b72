//! Restoring a world.

use crate::entity::{entity_bits_valid, read_entity, EntityMap};
use crate::registry::RegistryView;
use crate::sections::{
    read_components, read_entities, read_ordered, read_resource, ResourceChange, ResourceOrder,
};
use crate::snapshot::{SnapshotView, WorldSyncSnapshot};
use crate::world::{
    Component, EntityRow, RollbackFrameCount, RollbackId, RollbackOrdered, World, WorldView,
};
use vstd::prelude::*;

verus! {

broadcast use vstd::std_specs::hash::group_hash_axioms;

/// `decode` can be asked for the value of any bytes.
pub open spec fn decodes_all<V, D: Fn(u64, &Vec<u8>) -> Option<V>>(decode: D) -> bool {
    forall|kind: u64, bytes: &Vec<u8>| #[trigger] decode.requires((kind, bytes))
}

/// `value` is what `decode` makes of `bytes`.
pub open spec fn decoded<V, D: Fn(u64, &Vec<u8>) -> Option<V>>(
    decode: D,
    kind: u64,
    bytes: Seq<u8>,
    value: Option<V>,
) -> bool {
    exists|held: Vec<u8>| held@ == bytes && #[trigger] decode.ensures((kind, &held), value)
}

/// The components after one was restored: on the first entity that carries
/// the identifier. Where the bytes had no value, or no entity carries the
/// identifier, nothing changes.
pub open spec fn placed<V>(
    rows: Seq<EntityRow>,
    components: Seq<Component<V>>,
    kind: u64,
    id: RollbackId,
    value: Option<V>,
) -> Seq<Component<V>> {
    match (value, crate::world::entity_with(rows, id)) {
        (Some(v), Some(entity)) => crate::world::with_component(components, kind, entity, v),
        _ => components,
    }
}

/// `after` are the components once `records` of a type were restored in turn.
pub open spec fn component_restored<V, D: Fn(u64, &Vec<u8>) -> Option<V>>(
    decode: D,
    rows: Seq<EntityRow>,
    kind: u64,
    records: Seq<(RollbackId, Seq<u8>)>,
    before: Seq<Component<V>>,
    after: Seq<Component<V>>,
) -> bool
    decreases records.len(),
{
    if records.len() == 0 {
        after == before
    } else {
        exists|mid: Seq<Component<V>>, value: Option<V>|
            {
                &&& component_restored(decode, rows, kind, records.drop_last(), before, mid)
                &&& decoded(decode, kind, records.last().1, value)
                &&& after == #[trigger] placed(rows, mid, kind, records.last().0, value)
            }
    }
}

/// `after` are the components once the first `n` sections were restored, each
/// for the type that is registered in its place.
pub open spec fn components_restored<V, D: Fn(u64, &Vec<u8>) -> Option<V>>(
    decode: D,
    rows: Seq<EntityRow>,
    kinds: Seq<u64>,
    sections: Seq<Seq<u8>>,
    n: nat,
    before: Seq<Component<V>>,
    after: Seq<Component<V>>,
) -> bool
    decreases n,
{
    if n == 0 {
        after == before
    } else {
        exists|mid: Seq<Component<V>>|
            {
                &&& components_restored(
                    decode,
                    rows,
                    kinds,
                    sections,
                    (n - 1) as nat,
                    before,
                    mid,
                )
                &&& #[trigger] component_restored(
                    decode,
                    rows,
                    kinds[n - 1],
                    crate::sections::component_records(sections[n - 1]),
                    mid,
                    after,
                )
            }
    }
}

/// Some record bears the identifier by which the entity is found.
pub open spec fn names(
    rows: Seq<EntityRow>,
    records: Seq<(RollbackId, Seq<u8>)>,
    entity: u64,
) -> bool {
    exists|p: int|
        0 <= p < records.len() && crate::world::entity_with(rows, (#[trigger] records[p]).0)
            == Some(entity)
}

/// Some of the first `n` sections is for a component type and speaks of the
/// entity.
pub open spec fn speaks_in(
    rows: Seq<EntityRow>,
    kinds: Seq<u64>,
    sections: Seq<Seq<u8>>,
    n: nat,
    kind: u64,
    entity: u64,
) -> bool {
    exists|j: int|
        0 <= j < n && #[trigger] kinds[j] == kind && names(
            rows,
            crate::sections::component_records(sections[j]),
            entity,
        )
}

/// Some section that is restored is for a component type and speaks of the
/// entity.
pub open spec fn speaks_of(
    rows: Seq<EntityRow>,
    kinds: Seq<u64>,
    sections: Seq<Seq<u8>>,
    kind: u64,
    entity: u64,
) -> bool {
    speaks_in(rows, kinds, sections, paired(kinds, sections), kind, entity)
}

/// `after` are the components once those of a type were remapped.
pub open spec fn component_remapped<V, M: Fn(u64, &V, &EntityMap) -> V>(
    remap: M,
    map: EntityMap,
    kind: u64,
    before: Seq<Component<V>>,
    after: Seq<Component<V>>,
) -> bool {
    &&& after.len() == before.len()
    &&& forall|i: int|
        #![trigger before[i]]
        #![trigger after[i]]
        0 <= i < before.len() ==> {
            &&& after[i].kind == before[i].kind
            &&& after[i].entity == before[i].entity
            &&& if before[i].kind == kind {
                remap.ensures((kind, &before[i].value, &map), after[i].value)
            } else {
                after[i].value == before[i].value
            }
        }
}

/// `after` are the components once the first `n` types were remapped in turn.
pub open spec fn components_remapped<V, M: Fn(u64, &V, &EntityMap) -> V>(
    remap: M,
    map: EntityMap,
    kinds: Seq<u64>,
    n: nat,
    before: Seq<Component<V>>,
    after: Seq<Component<V>>,
) -> bool
    decreases n,
{
    if n == 0 {
        after == before
    } else {
        exists|mid: Seq<Component<V>>|
            {
                &&& components_remapped(remap, map, kinds, (n - 1) as nat, before, mid)
                &&& #[trigger] component_remapped(remap, map, kinds[n - 1], mid, after)
            }
    }
}

/// A value of a type can be put through `remap` once for each time that the
/// type stands in `kinds`.
pub open spec fn remappable<V, M: Fn(u64, &V, &EntityMap) -> V>(
    remap: M,
    kinds: Seq<u64>,
    kind: u64,
    value: V,
) -> bool
    decreases kinds.len(),
{
    if kinds.len() == 0 {
        true
    } else if kinds[0] == kind {
        &&& forall|map: &EntityMap| #[trigger] remap.requires((kind, &value, map))
        &&& forall|map: &EntityMap, next: V| #[trigger]
            remap.ensures((kind, &value, map), next) ==> remappable(
                remap,
                kinds.drop_first(),
                kind,
                next,
            )
    } else {
        remappable(remap, kinds.drop_first(), kind, value)
    }
}

/// Every component can be put through `remap` as often as its type asks for it.
pub open spec fn components_remappable<V, M: Fn(u64, &V, &EntityMap) -> V>(
    remap: M,
    kinds: Seq<u64>,
    components: Seq<Component<V>>,
) -> bool {
    forall|i: int|
        0 <= i < components.len() ==> remappable(
            remap,
            kinds,
            (#[trigger] components[i]).kind,
            components[i].value,
        )
}

/// What `decode` makes of bytes can be put through `remap`.
pub open spec fn decoded_remappable<
    V,
    D: Fn(u64, &Vec<u8>) -> Option<V>,
    M: Fn(u64, &V, &EntityMap) -> V,
>(decode: D, remap: M, kinds: Seq<u64>) -> bool {
    forall|kind: u64, bytes: Seq<u8>, value: V| #[trigger]
        decoded(decode, kind, bytes, Some(value)) ==> remappable(remap, kinds, kind, value)
}

/// `remap` can be asked to remap the components of the types that are
/// registered for it: those that the world holds, and those that `decode`
/// makes. Nothing is asked of it for other types.
pub open spec fn can_remap<
    V,
    D: Fn(u64, &Vec<u8>) -> Option<V>,
    M: Fn(u64, &V, &EntityMap) -> V,
>(decode: D, remap: M, world: WorldView<V>) -> bool {
    let kinds = crate::capture::registered(world).remaps;
    &&& components_remappable(remap, kinds, world.components)
    &&& decoded_remappable(decode, remap, kinds)
}

/// Restored components can be remapped where those from before can, and what
/// `decode` makes can.
proof fn lemma_restored_remappable<
    V,
    D: Fn(u64, &Vec<u8>) -> Option<V>,
    M: Fn(u64, &V, &EntityMap) -> V,
>(
    decode: D,
    remap: M,
    kinds: Seq<u64>,
    rows: Seq<EntityRow>,
    kind: u64,
    records: Seq<(RollbackId, Seq<u8>)>,
    before: Seq<Component<V>>,
    after: Seq<Component<V>>,
)
    requires
        decoded_remappable(decode, remap, kinds),
        components_remappable(remap, kinds, before),
        component_restored(decode, rows, kind, records, before, after),
    ensures
        components_remappable(remap, kinds, after),
    decreases records.len(),
{
    if records.len() > 0 {
        let (mid, value) = choose|mid: Seq<Component<V>>, value: Option<V>|
            {
                &&& component_restored(decode, rows, kind, records.drop_last(), before, mid)
                &&& decoded(decode, kind, records.last().1, value)
                &&& after == #[trigger] placed(rows, mid, kind, records.last().0, value)
            };
        lemma_restored_remappable(
            decode,
            remap,
            kinds,
            rows,
            kind,
            records.drop_last(),
            before,
            mid,
        );
        if let (Some(v), Some(entity)) = (
            value,
            crate::world::entity_with(rows, records.last().0),
        ) {
            let ask = crate::world::is_component::<V>(kind, entity);
            let at = crate::seqs::first_index(mid, ask);
            crate::seqs::lemma_first_index(mid, ask);
            assert(decoded(decode, kind, records.last().1, Some(v)));
            assert forall|i: int| 0 <= i < after.len() implies remappable(
                remap,
                kinds,
                (#[trigger] after[i]).kind,
                after[i].value,
            ) by {
                if i != at && i < mid.len() {
                    assert(after[i] == mid[i]);
                }
            }
        }
    }
}

/// Once the components of the first type in `kinds` were remapped, they can be
/// remapped for the others.
proof fn lemma_remapped_remappable<V, M: Fn(u64, &V, &EntityMap) -> V>(
    remap: M,
    map: EntityMap,
    kinds: Seq<u64>,
    before: Seq<Component<V>>,
    after: Seq<Component<V>>,
)
    requires
        kinds.len() > 0,
        components_remappable(remap, kinds, before),
        component_remapped(remap, map, kinds[0], before, after),
    ensures
        components_remappable(remap, kinds.drop_first(), after),
{
    assert forall|i: int| 0 <= i < after.len() implies remappable(
        remap,
        kinds.drop_first(),
        (#[trigger] after[i]).kind,
        after[i].value,
    ) by {
        assert(remappable(remap, kinds, before[i].kind, before[i].value));
        if before[i].kind == kinds[0] {
            assert(remap.ensures((kinds[0], &before[i].value, &map), after[i].value));
        }
    }
}

/// The resources after one was replaced; the same where there is no value.
pub open spec fn replaced<V>(resources: Map<u64, V>, kind: u64, value: Option<V>) -> Map<u64, V> {
    match value {
        Some(v) => resources.insert(kind, v),
        None => resources,
    }
}

/// `after` are the resources with the value of `bytes` in place.
pub open spec fn replacement<V, D: Fn(u64, &Vec<u8>) -> Option<V>>(
    decode: D,
    kind: u64,
    bytes: Seq<u8>,
    before: Map<u64, V>,
    after: Map<u64, V>,
) -> bool {
    exists|value: Option<V>|
        #[trigger] decoded(decode, kind, bytes, value) && after == replaced(before, kind, value)
}

/// `after` are the resources once the section of a type was restored. Bytes
/// without a value change nothing.
pub open spec fn resource_restored<V, D: Fn(u64, &Vec<u8>) -> Option<V>>(
    decode: D,
    kind: u64,
    section: Seq<u8>,
    before: Map<u64, V>,
    after: Map<u64, V>,
) -> bool {
    match crate::sections::resource_order(section) {
        ResourceOrder::Keep => after == before,
        ResourceOrder::Remove => after == before.remove(kind),
        ResourceOrder::Replace(bytes) => replacement(decode, kind, bytes, before, after),
    }
}

/// `after` are the resources once the first `n` sections were restored, each
/// for the type that is registered in its place.
pub open spec fn resources_restored<V, D: Fn(u64, &Vec<u8>) -> Option<V>>(
    decode: D,
    kinds: Seq<u64>,
    sections: Seq<Seq<u8>>,
    n: nat,
    before: Map<u64, V>,
    after: Map<u64, V>,
) -> bool
    decreases n,
{
    if n == 0 {
        after == before
    } else {
        exists|mid: Map<u64, V>|
            {
                &&& resources_restored(
                    decode,
                    kinds,
                    sections,
                    (n - 1) as nat,
                    before,
                    mid,
                )
                &&& #[trigger] resource_restored(decode, kinds[n - 1], sections[n - 1], mid, after)
            }
    }
}

/// The rows once the entities of a snapshot were spawned, each with the
/// rollback marker and the identifier that it had.
pub open spec fn spawned(
    rows: Seq<EntityRow>,
    records: Seq<(RollbackId, u64)>,
    fresh: Seq<u64>,
) -> Seq<EntityRow> {
    rows + Seq::new(
        records.len(),
        |i: int| EntityRow { entity: fresh[i], rollback: true, id: Some(records[i].0) },
    )
}

/// Which spawned entity took the place of which captured one.
pub open spec fn entity_mapping(records: Seq<(RollbackId, u64)>, fresh: Seq<u64>) -> Map<u64, u64>
    decreases records.len(),
{
    if records.len() == 0 {
        Map::empty()
    } else {
        entity_mapping(records.drop_last(), fresh).insert(
            records.last().1,
            fresh[records.len() - 1],
        )
    }
}

/// The captured entities are entities.
pub open spec fn entities_valid(records: Seq<(RollbackId, u64)>) -> bool {
    forall|i: int|
        0 <= i < records.len() ==> crate::entity::valid_entity_bits((#[trigger] records[i]).1)
}

/// There is a fresh entity for each record: one that differs from the others
/// and from those that stay.
pub open spec fn fresh_for(rows: Seq<EntityRow>, count: nat, fresh: Seq<u64>) -> bool {
    &&& count <= fresh.len()
    &&& forall|i: int, j: int|
        0 <= i < j < count ==> #[trigger] fresh[i] != #[trigger] fresh[j]
    &&& forall|i: int|
        0 <= i < count ==> !crate::world::contains_entity(rows, #[trigger] fresh[i])
}

/// How many sections have a type registered in their place.
pub open spec fn paired(kinds: Seq<u64>, sections: Seq<Seq<u8>>) -> nat {
    if kinds.len() <= sections.len() {
        kinds.len()
    } else {
        sections.len()
    }
}

/// `after` are the components once the sections were restored and then the
/// entity references replaced according to `mapping`.
pub open spec fn components_after<
    V,
    D: Fn(u64, &Vec<u8>) -> Option<V>,
    M: Fn(u64, &V, &EntityMap) -> V,
>(
    decode: D,
    remap: M,
    rows: Seq<EntityRow>,
    kinds: RegistryView,
    sections: Seq<Seq<u8>>,
    mapping: Map<u64, u64>,
    before: Seq<Component<V>>,
    after: Seq<Component<V>>,
) -> bool {
    exists|laid: Seq<Component<V>>, map: EntityMap|
        {
            &&& map@ == mapping
            &&& components_restored(
                decode,
                rows,
                kinds.components,
                sections,
                paired(kinds.components, sections),
                before,
                laid,
            )
            &&& #[trigger] components_remapped(
                remap,
                map,
                kinds.remaps,
                kinds.remaps.len(),
                laid,
                after,
            )
        }
}

/// `after` is `before` with `snapshot` restored into it, `fresh` being the
/// entities that are spawned.
pub open spec fn restored<
    V,
    D: Fn(u64, &Vec<u8>) -> Option<V>,
    M: Fn(u64, &V, &EntityMap) -> V,
>(
    snapshot: SnapshotView,
    decode: D,
    remap: M,
    fresh: Seq<u64>,
    before: WorldView<V>,
    after: WorldView<V>,
) -> bool {
    let kinds = crate::capture::registered(before);
    let stay = crate::world::unmarked(before.entities);
    let records = crate::sections::entity_records(snapshot.entity_data);
    let rows = spawned(stay, records, fresh);
    &&& after.frame == Some(RollbackFrameCount(snapshot.frame))
    &&& after.ordered == Some(crate::sections::ordered_ids(snapshot.ordered_data))
    &&& after.paused == before.paused
    &&& after.registry == before.registry
    &&& after.entities == rows
    &&& components_after(
        decode,
        remap,
        rows,
        kinds,
        snapshot.component_sections,
        entity_mapping(records, fresh),
        crate::world::components_on(stay, before.components),
        after.components,
    )
    &&& resources_restored(
        decode,
        kinds.resources,
        snapshot.resource_sections,
        paired(kinds.resources, snapshot.resource_sections),
        before.resources,
        after.resources,
    )
}

/// One section more.
proof fn lemma_components_step<V, D: Fn(u64, &Vec<u8>) -> Option<V>>(
    decode: D,
    rows: Seq<EntityRow>,
    kinds: Seq<u64>,
    sections: Seq<Seq<u8>>,
    n: nat,
    before: Seq<Component<V>>,
    mid: Seq<Component<V>>,
    after: Seq<Component<V>>,
)
    requires
        components_restored(decode, rows, kinds, sections, n, before, mid),
        component_restored(
            decode,
            rows,
            kinds[n as int],
            crate::sections::component_records(sections[n as int]),
            mid,
            after,
        ),
    ensures
        components_restored(decode, rows, kinds, sections, n + 1, before, after),
{
    let m = n + 1;
    assert(component_restored(
        decode,
        rows,
        kinds[m - 1],
        crate::sections::component_records(sections[m - 1]),
        mid,
        after,
    ));
}

/// One type more.
proof fn lemma_remaps_step<V, M: Fn(u64, &V, &EntityMap) -> V>(
    remap: M,
    map: EntityMap,
    kinds: Seq<u64>,
    n: nat,
    before: Seq<Component<V>>,
    mid: Seq<Component<V>>,
    after: Seq<Component<V>>,
)
    requires
        components_remapped(remap, map, kinds, n, before, mid),
        component_remapped(remap, map, kinds[n as int], mid, after),
    ensures
        components_remapped(remap, map, kinds, n + 1, before, after),
{
    let m = n + 1;
    assert(component_remapped(remap, map, kinds[m - 1], mid, after));
}

/// One section more.
proof fn lemma_resources_step<V, D: Fn(u64, &Vec<u8>) -> Option<V>>(
    decode: D,
    kinds: Seq<u64>,
    sections: Seq<Seq<u8>>,
    n: nat,
    before: Map<u64, V>,
    mid: Map<u64, V>,
    after: Map<u64, V>,
)
    requires
        resources_restored(decode, kinds, sections, n, before, mid),
        resource_restored(decode, kinds[n as int], sections[n as int], mid, after),
    ensures
        resources_restored(decode, kinds, sections, n + 1, before, after),
{
    let m = n + 1;
    assert(resource_restored(decode, kinds[m - 1], sections[m - 1], mid, after));
}

/// Restores the rollback order from its section.
fn restore_ordered<V>(world: &mut World<V>, data: &Vec<u8>)
    ensures
        final(world)@ == (WorldView {
            ordered: Some(crate::sections::ordered_ids(data@)),
            ..old(world)@
        }),
{
    let ids: Vec<RollbackId> = read_ordered(data);
    world.ordered = Some(RollbackOrdered::from_sorted_ids(ids));
}

/// Spawns an entity for each record of a section, and says which took the
/// place of which.
fn restore_entities<V>(world: &mut World<V>, data: &Vec<u8>, fresh: &Vec<u64>) -> (map: EntityMap)
    requires
        old(world)@.wf(),
        entities_valid(crate::sections::entity_records(data@)),
        fresh_for(
            old(world)@.entities,
            crate::sections::entity_records(data@).len(),
            fresh@,
        ),
    ensures
        final(world)@ == (WorldView {
            entities: spawned(
                old(world)@.entities,
                crate::sections::entity_records(data@),
                fresh@,
            ),
            ..old(world)@
        }),
        final(world)@.wf(),
        map@ == entity_mapping(crate::sections::entity_records(data@), fresh@),
{
    let records: Vec<(RollbackId, u64)> = read_entities(data);
    let mut map = EntityMap::new();
    let ghost stay = world@.entities;
    let mut i: usize = 0;
    assert(spawned(stay, records@.take(0), fresh@) =~= stay);
    while i < records.len()
        invariant
            i <= records.len(),
            entities_valid(records@),
            fresh_for(stay, records@.len(), fresh@),
            stay == old(world)@.entities,
            world@.wf(),
            world@ == (WorldView {
                entities: spawned(stay, records@.take(i as int), fresh@),
                ..old(world)@
            }),
            map@ == entity_mapping(records@.take(i as int), fresh@),
        decreases records.len() - i,
    {
        let id: RollbackId = records[i].0;
        let old_entity: u64 = read_entity(records[i].1);
        let new_entity: u64 = fresh[i];
        let row = EntityRow { entity: new_entity, rollback: true, id: Some(id) };
        proof {
            let rows = world@.entities;
            crate::world::lemma_contains_entity(rows, new_entity);
            crate::world::lemma_contains_entity(stay, new_entity);
            assert forall|j: int| 0 <= j < rows.len() implies (#[trigger] rows[j]).entity
                != new_entity by {
                if j < stay.len() {
                    assert(rows[j] == stay[j]);
                } else {
                    assert(fresh@[j - stay.len()] != fresh@[i as int]);
                }
            }
            assert(records@.take(i + 1).drop_last() =~= records@.take(i as int));
        }
        world.spawn(row);
        map.insert(old_entity, new_entity);
        i = i + 1;
        assert(world@.entities =~= spawned(stay, records@.take(i as int), fresh@));
    }
    assert(records@.take(i as int) =~= records@);
    map
}

/// Restores the components of a type from their section.
fn restore_component<V, D: Fn(u64, &Vec<u8>) -> Option<V>>(
    world: &mut World<V>,
    kind: u64,
    data: &Vec<u8>,
    decode: &D,
)
    requires
        old(world)@.wf(),
        decodes_all(*decode),
    ensures
        final(world)@.wf(),
        final(world)@ == (WorldView { components: final(world)@.components, ..old(world)@ }),
        component_restored(
            *decode,
            old(world)@.entities,
            kind,
            crate::sections::component_records(data@),
            old(world)@.components,
            final(world)@.components,
        ),
{
    let records: Vec<(RollbackId, Vec<u8>)> = read_components(data);
    let ghost views = crate::sections::record_views(records@);
    let ghost rows = world@.entities;
    let mut i: usize = 0;
    while i < records.len()
        invariant
            i <= records.len(),
            decodes_all(*decode),
            views == crate::sections::record_views(records@),
            rows == old(world)@.entities,
            world@.wf(),
            world@ == (WorldView { components: world@.components, ..old(world)@ }),
            component_restored(
                *decode,
                rows,
                kind,
                views.take(i as int),
                old(world)@.components,
                world@.components,
            ),
        decreases records.len() - i,
    {
        let ghost before = world@.components;
        let id: RollbackId = records[i].0;
        let value: Option<V> = decode(kind, &records[i].1);
        let ghost result = value;
        assert(decoded(*decode, kind, views[i as int].1, result));
        if let Some(v) = value {
            if let Some(entity) = world.entity_with(id) {
                proof {
                    let at = crate::seqs::first_index(rows, crate::world::has_id(id));
                    crate::seqs::lemma_first_index(rows, crate::world::has_id(id));
                    crate::world::lemma_contains_entity(rows, entity);
                    assert(rows[at].entity == entity);
                }
                world.insert_component(kind, entity, v);
            }
        }
        i = i + 1;
        proof {
            let done = views.take(i as int);
            assert(done.drop_last() =~= views.take(i - 1));
            assert(world@.components == placed(rows, before, kind, done.last().0, result));
        }
    }
    assert(views.take(i as int) =~= views);
}

/// Restores the resource of a type from its section.
fn restore_resource<V, D: Fn(u64, &Vec<u8>) -> Option<V>>(
    world: &mut World<V>,
    kind: u64,
    data: &Vec<u8>,
    decode: &D,
)
    requires
        decodes_all(*decode),
    ensures
        final(world)@ == (WorldView { resources: final(world)@.resources, ..old(world)@ }),
        resource_restored(
            *decode,
            kind,
            data@,
            old(world)@.resources,
            final(world)@.resources,
        ),
{
    let ghost before = world@.resources;
    let change: ResourceChange = read_resource(data);
    match change {
        ResourceChange::Keep => {},
        ResourceChange::Remove => world.remove_resource(kind),
        ResourceChange::Replace(bytes) => {
            let value: Option<V> = decode(kind, &bytes);
            assert(decoded(*decode, kind, bytes@, value));
            match value {
                Some(v) => world.insert_resource(kind, v),
                None => {},
            }
            assert(world@.resources == replaced(before, kind, value));
        },
    }
}

/// Remaps the entity references in the components of a type.
fn remap_component_entities<V, M: Fn(u64, &V, &EntityMap) -> V>(
    world: &mut World<V>,
    kind: u64,
    map: &EntityMap,
    remap: &M,
)
    requires
        old(world)@.wf(),
        forall|i: int|
            0 <= i < old(world)@.components.len() && (#[trigger] old(world)@.components[i]).kind
                == kind ==> remap.requires((kind, &old(world)@.components[i].value, map)),
    ensures
        final(world)@.wf(),
        final(world)@ == (WorldView { components: final(world)@.components, ..old(world)@ }),
        component_remapped(
            *remap,
            *map,
            kind,
            old(world)@.components,
            final(world)@.components,
        ),
{
    let ghost before = world@.components;
    let mut i: usize = 0;
    while i < world.components.len()
        invariant
            i <= world.components.len(),
            forall|j: int|
                0 <= j < before.len() && (#[trigger] before[j]).kind == kind ==> remap.requires(
                    (kind, &before[j].value, map),
                ),
            before == old(world)@.components,
            world@ == (WorldView { components: world@.components, ..old(world)@ }),
            component_remapped(
                *remap,
                *map,
                kind,
                before.take(i as int),
                world@.components.take(i as int),
            ),
            world@.components.len() == before.len(),
            forall|j: int| i <= j < before.len() ==> world@.components[j] == #[trigger] before[j],
        decreases world.components.len() - i,
    {
        let ghost done = world@.components;
        assert(done[i as int] == before[i as int]);
        if world.components[i].kind == kind {
            let entity: u64 = world.components[i].entity;
            let value: V = remap(kind, &world.components[i].value, map);
            world.components[i] = Component { kind, entity, value };
        }
        i = i + 1;
        proof {
            let was = before.take(i as int);
            let is = world@.components.take(i as int);
            assert forall|j: int|
                #![trigger was[j]]
                #![trigger is[j]]
                0 <= j < was.len() implies {
                &&& is[j].kind == was[j].kind
                &&& is[j].entity == was[j].entity
                &&& if was[j].kind == kind {
                    remap.ensures((kind, &was[j].value, map), is[j].value)
                } else {
                    is[j].value == was[j].value
                }
            } by {
                if j < i - 1 {
                    assert(before.take(i - 1)[j] == was[j]);
                    assert(done.take(i - 1)[j] == is[j]);
                } else {
                    assert(before[j] == done[j]);
                }
            }
        }
    }
    proof {
        assert(before.take(i as int) =~= before);
        assert(world@.components.take(i as int) =~= world@.components);
        let after = world@.components;
        assert forall|a: int, b: int| 0 <= a < b < after.len() implies (#[trigger] after[a]).kind
            != (#[trigger] after[b]).kind || after[a].entity != after[b].entity by {
            assert(before[a].kind != before[b].kind || before[a].entity != before[b].entity);
        }
    }
}

impl WorldSyncSnapshot {
    /// Whether every captured entity is one. Bytes from elsewhere can name
    /// entities that none could have been captured from.
    pub fn entities_valid(&self) -> (valid: bool)
        ensures
            valid == entities_valid(crate::sections::entity_records(self@.entity_data)),
    {
        let records: Vec<(RollbackId, u64)> = read_entities(&self.entity_data);
        let mut i: usize = 0;
        while i < records.len()
            invariant
                i <= records.len(),
                forall|j: int|
                    0 <= j < i ==> crate::entity::valid_entity_bits((#[trigger] records@[j]).1),
                records@ == crate::sections::entity_records(self@.entity_data),
            decreases records.len() - i,
        {
            if !entity_bits_valid(records[i].1) {
                return false;
            }
            i = i + 1;
        }
        true
    }

    /// The identifiers of the entities to spawn, in order.
    pub fn spawn_ids(&self) -> (ids: Vec<RollbackId>)
        ensures
            ids@ == crate::sections::entity_records(self@.entity_data).map_values(
                |record: (RollbackId, u64)| record.0,
            ),
    {
        let records: Vec<(RollbackId, u64)> = read_entities(&self.entity_data);
        let ghost first = |record: (RollbackId, u64)| record.0;
        let mut ids: Vec<RollbackId> = Vec::new();
        let mut i: usize = 0;
        while i < records.len()
            invariant
                i <= records.len(),
                first == (|record: (RollbackId, u64)| record.0),
                ids@ =~= records@.take(i as int).map_values(first),
            decreases records.len() - i,
        {
            ids.push(records[i].0);
            i = i + 1;
        }
        assert(records@.take(i as int) =~= records@);
        ids
    }

    /// The components that restoring this snapshot can put in place or replace,
    /// by type and entity, when `world` has the entities as they are after it.
    /// Components of other places stay what they are, but for remapping.
    pub fn restored_components<V>(&self, world: &World<V>) -> (places: Vec<(u64, u64)>)
        ensures
            forall|kind: u64, entity: u64| #[trigger]
                places@.contains((kind, entity)) <==> speaks_of(
                    world@.entities,
                    crate::capture::registered(world@).components,
                    self@.component_sections,
                    kind,
                    entity,
                ),
    {
        let mut places: Vec<(u64, u64)> = Vec::new();
        let ghost rows = world@.entities;
        let ghost kinds = crate::capture::registered(world@).components;
        let ghost sections = self@.component_sections;
        if let Some(registry) = &world.registry {
            let components: &Vec<u64> = registry.components();
            let mut i: usize = 0;
            while i < components.len() && i < self.component_sections.len()
                invariant
                    i <= paired(kinds, sections),
                    components@ == kinds,
                    rows == world@.entities,
                    sections == self@.component_sections,
                    forall|kind: u64, entity: u64| #[trigger]
                        places@.contains((kind, entity)) <==> speaks_in(
                            rows,
                            kinds,
                            sections,
                            i as nat,
                            kind,
                            entity,
                        ),
                decreases components.len() - i,
            {
                let ghost before = places@;
                push_places(world, components[i], &self.component_sections[i], &mut places);
                proof {
                    assert(sections[i as int] == self.component_sections@[i as int]@);
                    assert forall|kind: u64, entity: u64| #[trigger]
                        places@.contains((kind, entity)) <==> speaks_in(
                            rows,
                            kinds,
                            sections,
                            (i + 1) as nat,
                            kind,
                            entity,
                        ) by {
                        let mark = before.contains((kind, entity));
                        if places@.contains((kind, entity)) && !mark {
                            assert(kinds[i as int] == kind);
                        }
                        if mark {
                            let j = choose|j: int|
                                0 <= j < i && #[trigger] kinds[j] == kind && names(
                                    rows,
                                    crate::sections::component_records(sections[j]),
                                    entity,
                                );
                            assert(kinds[j] == kind);
                        }
                    }
                }
                i = i + 1;
            }
        }
        places
    }

    /// Restores this snapshot into the given world.
    ///
    /// 1. Despawns all existing rollback entities
    /// 2. Restores the rollback order
    /// 3. Spawns new entities with the exact identifiers from the snapshot
    /// 4. Restores component data for all registered types
    /// 5. Remaps entity references inside components
    /// 6. Restores resource data for all registered types
    /// 7. Sets the frame count
    ///
    /// `fresh` are the entities that the world hands out for the new ones.
    /// `decode` turns bytes into a value of a registered type, and `remap`
    /// replaces the entity references inside one.
    pub fn restore<V, D: Fn(u64, &Vec<u8>) -> Option<V>, M: Fn(u64, &V, &EntityMap) -> V>(
        &self,
        world: &mut World<V>,
        fresh: &Vec<u64>,
        decode: &D,
        remap: &M,
    )
        requires
            old(world)@.wf(),
            decodes_all(*decode),
            can_remap(*decode, *remap, old(world)@),
            entities_valid(crate::sections::entity_records(self@.entity_data)),
            fresh_for(
                crate::world::unmarked(old(world)@.entities),
                crate::sections::entity_records(self@.entity_data).len(),
                fresh@,
            ),
        ensures
            final(world)@.wf(),
            restored(self@, *decode, *remap, fresh@, old(world)@, final(world)@),
    {
        world.despawn_all_rollback();
        restore_ordered(world, &self.ordered_data);
        let map = restore_entities(world, &self.entity_data, fresh);
        let ghost rows = world@.entities;
        let ghost start = world@.components;
        let ghost kinds = crate::capture::registered(world@);
        let (components, resources, remaps) = match &world.registry {
            Some(registry) => (
                copy_kinds(registry.components()),
                copy_kinds(registry.resources()),
                copy_kinds(registry.remaps()),
            ),
            None => (Vec::new(), Vec::new(), Vec::new()),
        };
        let ghost based = world@;
        let ghost sections = self@.component_sections;
        proof {
            let all = old(world)@.components;
            let stay = crate::world::unmarked(old(world)@.entities);
            let keep = |component: Component<V>|
                crate::world::contains_entity(stay, component.entity);
            assert(start == all.filter(keep));
            crate::seqs::lemma_filter_members(all, keep);
            assert forall|j: int| 0 <= j < start.len() implies remappable(
                *remap,
                kinds.remaps,
                (#[trigger] start[j]).kind,
                start[j].value,
            ) by {
                let from = choose|from: int| 0 <= from < all.len() && all[from] == start[j];
                assert(all[from] == start[j]);
            }
        }
        let mut i: usize = 0;
        while i < components.len() && i < self.component_sections.len()
            invariant
                i <= paired(kinds.components, sections),
                components@ == kinds.components,
                sections == self@.component_sections,
                rows == based.entities,
                decodes_all(*decode),
                decoded_remappable(*decode, *remap, kinds.remaps),
                components_remappable(*remap, kinds.remaps, world@.components),
                world@.wf(),
                world@ == (WorldView { components: world@.components, ..based }),
                components_restored(
                    *decode,
                    rows,
                    kinds.components,
                    sections,
                    i as nat,
                    start,
                    world@.components,
                ),
            decreases components.len() - i,
        {
            let ghost mid = world@.components;
            restore_component(world, components[i], &self.component_sections[i], decode);
            proof {
                assert(sections[i as int] == self.component_sections@[i as int]@);
                lemma_restored_remappable(
                    *decode,
                    *remap,
                    kinds.remaps,
                    rows,
                    kinds.components[i as int],
                    crate::sections::component_records(sections[i as int]),
                    mid,
                    world@.components,
                );
                lemma_components_step(
                    *decode,
                    rows,
                    kinds.components,
                    sections,
                    i as nat,
                    start,
                    mid,
                    world@.components,
                );
            }
            i = i + 1;
        }
        let ghost laid = world@.components;
        assert(kinds.remaps.skip(0) =~= kinds.remaps);
        let mut i: usize = 0;
        while i < remaps.len()
            invariant
                i <= remaps.len(),
                remaps@ == kinds.remaps,
                components_remappable(*remap, kinds.remaps.skip(i as int), world@.components),
                world@.wf(),
                world@ == (WorldView { components: world@.components, ..based }),
                components_remapped(
                    *remap,
                    map,
                    kinds.remaps,
                    i as nat,
                    laid,
                    world@.components,
                ),
            decreases remaps.len() - i,
        {
            let ghost mid = world@.components;
            let ghost left = kinds.remaps.skip(i as int);
            assert forall|j: int| 0 <= j < mid.len() && (#[trigger] mid[j]).kind
                == kinds.remaps[i as int] implies remap.requires(
                (kinds.remaps[i as int], &mid[j].value, &map),
            ) by {
                assert(remappable(*remap, left, mid[j].kind, mid[j].value));
                assert(left[0] == kinds.remaps[i as int]);
            }
            remap_component_entities(world, remaps[i], &map, remap);
            proof {
                lemma_remapped_remappable(*remap, map, left, mid, world@.components);
                assert(left.drop_first() =~= kinds.remaps.skip(i + 1));
                lemma_remaps_step(
                    *remap,
                    map,
                    kinds.remaps,
                    i as nat,
                    laid,
                    mid,
                    world@.components,
                );
            }
            i = i + 1;
        }
        let ghost mapped = world@;
        let ghost resource_sections = self@.resource_sections;
        let mut i: usize = 0;
        while i < resources.len() && i < self.resource_sections.len()
            invariant
                i <= paired(kinds.resources, resource_sections),
                resources@ == kinds.resources,
                resource_sections == self@.resource_sections,
                decodes_all(*decode),
                mapped.wf(),
                world@ == (WorldView { resources: world@.resources, ..mapped }),
                resources_restored(
                    *decode,
                    kinds.resources,
                    resource_sections,
                    i as nat,
                    mapped.resources,
                    world@.resources,
                ),
            decreases resources.len() - i,
        {
            let ghost mid = world@.resources;
            restore_resource(world, resources[i], &self.resource_sections[i], decode);
            proof {
                assert(resource_sections[i as int] == self.resource_sections@[i as int]@);
                lemma_resources_step(
                    *decode,
                    kinds.resources,
                    resource_sections,
                    i as nat,
                    mapped.resources,
                    mid,
                    world@.resources,
                );
            }
            i = i + 1;
        }
        world.frame = Some(RollbackFrameCount(self.frame));
    }
}

/// Adds the entities that the section of a component type speaks of to `places`.
fn push_places<V>(world: &World<V>, kind: u64, data: &Vec<u8>, places: &mut Vec<(u64, u64)>)
    ensures
        forall|k: u64, e: u64| #[trigger]
            final(places)@.contains((k, e)) <==> old(places)@.contains((k, e)) || (k == kind
                && names(world@.entities, crate::sections::component_records(data@), e)),
{
    let records: Vec<(RollbackId, Vec<u8>)> = read_components(data);
    let ghost views = crate::sections::record_views(records@);
    let ghost rows = world@.entities;
    let mut i: usize = 0;
    while i < records.len()
        invariant
            i <= records.len(),
            rows == world@.entities,
            views == crate::sections::record_views(records@),
            forall|k: u64, e: u64| #[trigger]
                places@.contains((k, e)) <==> old(places)@.contains((k, e)) || (k == kind
                    && names(rows, views.take(i as int), e)),
        decreases records.len() - i,
    {
        let ghost before = places@;
        let ghost done = views.take(i as int);
        let found: Option<u64> = world.entity_with(records[i].0);
        if let Some(entity) = found {
            places.push((kind, entity));
        }
        proof {
            let more = views.take(i + 1);
            assert(more =~= done.push(views[i as int]));
            assert forall|k: u64, e: u64| #[trigger]
                places@.contains((k, e)) <==> old(places)@.contains((k, e)) || (k == kind && names(
                    rows,
                    more,
                    e,
                )) by {
                let mark = before.contains((k, e));
                lemma_names_push(rows, done, views[i as int], e);
                if found is Some {
                    assert(before.push((kind, found->0)).contains((k, e)) <==> mark || (k, e) == (
                        kind,
                        found->0,
                    )) by {
                        if mark {
                            let at = choose|at: int|
                                0 <= at < before.len() && before[at] == (k, e);
                            assert(before.push((kind, found->0))[at] == (k, e));
                        }
                        assert(before.push((kind, found->0))[before.len() as int] == (
                            kind,
                            found->0,
                        ));
                    }
                }
            }
        }
        i = i + 1;
    }
    assert(views.take(i as int) =~= views);
}

/// One record more speaks of the entity that carries its identifier.
proof fn lemma_names_push(
    rows: Seq<EntityRow>,
    records: Seq<(RollbackId, Seq<u8>)>,
    record: (RollbackId, Seq<u8>),
    entity: u64,
)
    ensures
        names(rows, records.push(record), entity) <==> names(rows, records, entity)
            || crate::world::entity_with(rows, record.0) == Some(entity),
{
    let more = records.push(record);
    if names(rows, records, entity) {
        let p = choose|p: int|
            0 <= p < records.len() && crate::world::entity_with(rows, (#[trigger] records[p]).0)
                == Some(entity);
        assert(more[p] == records[p]);
    }
    if names(rows, more, entity) {
        let p = choose|p: int|
            0 <= p < more.len() && crate::world::entity_with(rows, (#[trigger] more[p]).0) == Some(
                entity,
            );
        if p < records.len() {
            assert(more[p] == records[p]);
        }
    }
    assert(more[records.len() as int] == record);
}

/// The same type numbers once more.
fn copy_kinds(kinds: &Vec<u64>) -> (copy: Vec<u64>)
    ensures
        copy@ == kinds@,
{
    let copy: Vec<u64> = kinds.clone();
    assert(copy@ =~= kinds@);
    copy
}

} // verus!
