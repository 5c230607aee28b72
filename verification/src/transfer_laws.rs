//! What is in a snapshot of a world, and what a restore makes of a snapshot,
//! told by what is in the worlds.

use crate::entity::EntityMap;
use crate::registry::RegistryView;
use crate::snapshot::SnapshotView;
use crate::world::{Component, EntityRow, RollbackFrameCount, RollbackId, WorldView};
use vstd::prelude::*;

verus! {

/// A snapshot has the frame that the world has reached, and frame zero where the
/// world counts none.
pub proof fn law_captured_frame<V, E: Fn(u64, &V) -> Option<Vec<u8>>>(
    encode: E,
    world: WorldView<V>,
    snapshot: SnapshotView,
)
    requires
        crate::capture::captured(encode, world, snapshot),
    ensures
        world.frame matches Some(frame) ==> snapshot.frame == frame.0,
        world.frame is None ==> snapshot.frame == 0,
{
}

/// A snapshot has the whole rollback order of the world: behind the count, each
/// identifier in turn, so that it reads back as it is. A world without an order
/// is captured with an empty one.
pub proof fn law_captured_order<V, E: Fn(u64, &V) -> Option<Vec<u8>>>(
    encode: E,
    world: WorldView<V>,
    snapshot: SnapshotView,
)
    requires
        crate::capture::captured(encode, world, snapshot),
    ensures
        world.ordered matches Some(ids) ==> snapshot.ordered_data == crate::layout_laws::four(
            ids.len() as int,
        ) + ids.map_values(|id: RollbackId| crate::layout_laws::eight(id.0)).flatten(),
        world.ordered matches Some(ids) ==> (ids.len() < 0x1_0000_0000
            ==> crate::sections::ordered_ids(snapshot.ordered_data) == ids),
        world.ordered is None ==> crate::sections::ordered_ids(snapshot.ordered_data).len() == 0,
{
    match world.ordered {
        Some(ids) => {
            crate::layout_laws::law_order_section_layout(ids);
            if ids.len() < 0x1_0000_0000 {
                crate::sections::law_ordered_section(ids);
            }
        },
        None => {
            crate::sections::law_ordered_section(Seq::empty());
        },
    }
}

/// A snapshot has every entity of the world that carries an identifier: behind
/// the count, the identifier and the entity of each.
pub proof fn law_captured_entities<V, E: Fn(u64, &V) -> Option<Vec<u8>>>(
    encode: E,
    world: WorldView<V>,
    snapshot: SnapshotView,
)
    requires
        crate::capture::captured(encode, world, snapshot),
    ensures
        exists|from: Seq<int>| #[trigger]
            crate::world_laws::identified_at(world.entities, from) && snapshot.entity_data
                == crate::layout_laws::four(from.len() as int) + Seq::new(
                from.len(),
                |i: int|
                    crate::layout_laws::eight((world.entities[from[i]].id->0).0)
                        + crate::layout_laws::eight(world.entities[from[i]].entity),
            ).flatten(),
{
    let rows = world.entities;
    crate::world_laws::law_identified_entities(rows);
    let from = choose|from: Seq<int>| #[trigger]
        crate::world_laws::identified_at(rows, from) && crate::world::identified(rows)
            == Seq::new(from.len(), |i: int| (rows[from[i]].id->0, rows[from[i]].entity));
    let records = crate::world::identified(rows);
    crate::layout_laws::law_entity_section_layout(records);
    assert(records.map_values(
        |record: (RollbackId, u64)|
            crate::layout_laws::eight(record.0.0) + crate::layout_laws::eight(record.1),
    ) =~= Seq::new(
        from.len(),
        |i: int|
            crate::layout_laws::eight((rows[from[i]].id->0).0) + crate::layout_laws::eight(
                rows[from[i]].entity,
            ),
    ));
}

/// `bytes` are what `encode` makes of a value of a type, or none where it fails.
pub open spec fn bytes_of<V, E: Fn(u64, &V) -> Option<Vec<u8>>>(
    encode: E,
    kind: u64,
    value: V,
    bytes: Seq<u8>,
) -> bool {
    exists|out: Option<Vec<u8>>| #[trigger]
        encode.ensures((kind, &value), out) && (out matches Some(made) ==> bytes == made@) && (
        out is None ==> bytes.len() == 0)
}

/// `parts` are the components at the places `from`, each with the identifier of
/// its entity and its bytes, and `section` lays them out.
pub open spec fn parts_at<V, E: Fn(u64, &V) -> Option<Vec<u8>>>(
    encode: E,
    world: WorldView<V>,
    kind: u64,
    section: Seq<u8>,
    from: Seq<int>,
    parts: Seq<(RollbackId, Seq<u8>)>,
) -> bool {
    &&& parts.len() == from.len()
    &&& forall|i: int|
        0 <= i < from.len() ==> crate::world_laws::carries(
            world.entities,
            world.components[from[i]].entity,
            (#[trigger] parts[i]).0,
        ) && bytes_of(encode, kind, world.components[from[i]].value, parts[i].1)
    &&& section == crate::layout_laws::four(parts.len() as int) + parts.map_values(
        |part: (RollbackId, Seq<u8>)|
            crate::layout_laws::eight(part.0.0) + (crate::layout_laws::four(part.1.len() as int)
                + part.1),
    ).flatten()
}

/// `section` lays out every component of a type on an entity with an identifier.
pub open spec fn lays_out_components<V, E: Fn(u64, &V) -> Option<Vec<u8>>>(
    encode: E,
    world: WorldView<V>,
    kind: u64,
    section: Seq<u8>,
) -> bool {
    exists|from: Seq<int>, parts: Seq<(RollbackId, Seq<u8>)>|
        crate::world_laws::captured_at(world.entities, world.components, kind, from)
            && #[trigger] parts_at(encode, world, kind, section, from, parts)
}

/// A snapshot has a section for each component type of the registry, in the
/// order of registration, and in it every component of the type whose entity
/// carries an identifier.
pub proof fn law_captured_components<V, E: Fn(u64, &V) -> Option<Vec<u8>>>(
    encode: E,
    world: WorldView<V>,
    snapshot: SnapshotView,
    registry: RegistryView,
)
    requires
        crate::capture::captured(encode, world, snapshot),
        world.registry == Some(registry),
        forall|i: int, j: int|
            0 <= i < j < world.entities.len() ==> (#[trigger] world.entities[i]).entity != (
            #[trigger] world.entities[j]).entity,
    ensures
        snapshot.component_sections.len() == registry.components.len(),
        forall|i: int|
            0 <= i < registry.components.len() ==> lays_out_components(
                encode,
                world,
                #[trigger] registry.components[i],
                snapshot.component_sections[i],
            ),
{
    assert forall|i: int| 0 <= i < registry.components.len() implies lays_out_components(
        encode,
        world,
        #[trigger] registry.components[i],
        snapshot.component_sections[i],
    ) by {
        let kind = registry.components[i];
        let section = snapshot.component_sections[i];
        let found = crate::world::identified_components(world.entities, world.components, kind);
        assert(crate::capture::registered(world).components[i] == kind);
        assert(crate::capture::component_captured(encode, world, kind, section));
        let parts = choose|parts: Seq<(RollbackId, Seq<u8>)>|
            crate::capture::parts_written(encode, kind, found, parts) && section
                == #[trigger] crate::sections::component_section(parts);
        crate::world_laws::law_identified_components(world.entities, world.components, kind);
        let from = choose|from: Seq<int>| #[trigger]
            crate::world_laws::captured_at(world.entities, world.components, kind, from) && ({
                &&& found.len() == from.len()
                &&& forall|i: int|
                    0 <= i < from.len() ==> (#[trigger] found[i]).1
                        == world.components[from[i]].value && crate::world_laws::carries(
                        world.entities,
                        world.components[from[i]].entity,
                        found[i].0,
                    )
            });
        crate::layout_laws::law_component_section_layout(parts);
        assert forall|j: int| 0 <= j < from.len() implies crate::world_laws::carries(
            world.entities,
            world.components[from[j]].entity,
            (#[trigger] parts[j]).0,
        ) && bytes_of(encode, kind, world.components[from[j]].value, parts[j].1) by {
            let value = found[j].1;
            assert(crate::capture::written(encode, kind, value, parts[j].1));
            let made = choose|made: Option<Seq<u8>>| #[trigger]
                crate::capture::encoded(encode, kind, value, made) && parts[j].1
                    == crate::capture::or_no_bytes(made);
            let out = choose|out: Option<Vec<u8>>| #[trigger]
                encode.ensures((kind, &value), out) && made == crate::capture::viewed(out);
            assert(encode.ensures((kind, &value), out));
        }
        assert(parts_at(encode, world, kind, section, from, parts));
    }
}

/// `section` lays out the resource of a type: nothing but a zero where the world
/// has none or it cannot be encoded, else its bytes behind their length, with a
/// mark where there are none.
pub open spec fn lays_out_resource<V, E: Fn(u64, &V) -> Option<Vec<u8>>>(
    encode: E,
    world: WorldView<V>,
    kind: u64,
    section: Seq<u8>,
) -> bool {
    if world.resources.contains_key(kind) {
        exists|out: Option<Vec<u8>>| #[trigger]
            encode.ensures((kind, &world.resources[kind]), out) && (match out {
                None => section == seq![0u8, 0u8, 0u8, 0u8],
                Some(made) => if made@.len() == 0 {
                    section == seq![0u8, 0u8, 0u8, 0u8, 1u8]
                } else {
                    section == crate::layout_laws::four(made@.len() as int) + made@
                },
            })
    } else {
        section == seq![0u8, 0u8, 0u8, 0u8]
    }
}

/// A snapshot has a section for each resource type of the registry, in the order
/// of registration, and in it the resource.
pub proof fn law_captured_resources<V, E: Fn(u64, &V) -> Option<Vec<u8>>>(
    encode: E,
    world: WorldView<V>,
    snapshot: SnapshotView,
    registry: RegistryView,
)
    requires
        crate::capture::captured(encode, world, snapshot),
        world.registry == Some(registry),
    ensures
        snapshot.resource_sections.len() == registry.resources.len(),
        forall|i: int|
            0 <= i < registry.resources.len() ==> lays_out_resource(
                encode,
                world,
                #[trigger] registry.resources[i],
                snapshot.resource_sections[i],
            ),
{
    assert forall|i: int| 0 <= i < registry.resources.len() implies lays_out_resource(
        encode,
        world,
        #[trigger] registry.resources[i],
        snapshot.resource_sections[i],
    ) by {
        let kind = registry.resources[i];
        let section = snapshot.resource_sections[i];
        assert(crate::capture::registered(world).resources[i] == kind);
        assert(crate::capture::resource_captured(encode, world, kind, section));
        crate::layout_laws::law_resource_section_layout(Seq::empty());
        if world.resources.contains_key(kind) {
            let value = world.resources[kind];
            let made = choose|made: Option<Seq<u8>>| #[trigger]
                crate::capture::encoded(encode, kind, value, made) && section
                    == crate::sections::resource_section(made);
            let out = choose|out: Option<Vec<u8>>| #[trigger]
                encode.ensures((kind, &value), out) && made == crate::capture::viewed(out);
            if let Some(bytes) = made {
                crate::layout_laws::law_resource_section_layout(bytes);
            }
            assert(encode.ensures((kind, &value), out));
        }
    }
}

/// A world without a registry is captured without components and resources.
pub proof fn law_nothing_registered_nothing_captured<V, E: Fn(u64, &V) -> Option<Vec<u8>>>(
    encode: E,
    world: WorldView<V>,
    snapshot: SnapshotView,
)
    requires
        crate::capture::captured(encode, world, snapshot),
        world.registry is None,
    ensures
        snapshot.component_sections.len() == 0,
        snapshot.resource_sections.len() == 0,
{
}

/// Order and frame of a captured world are those of the world that it is
/// restored into, whatever that had before.
pub proof fn law_order_and_frame_come_back<
    V,
    E: Fn(u64, &V) -> Option<Vec<u8>>,
    D: Fn(u64, &Vec<u8>) -> Option<V>,
    M: Fn(u64, &V, &EntityMap) -> V,
>(
    encode: E,
    decode: D,
    remap: M,
    source: WorldView<V>,
    snapshot: SnapshotView,
    fresh: Seq<u64>,
    before: WorldView<V>,
    after: WorldView<V>,
)
    requires
        crate::capture::captured(encode, source, snapshot),
        crate::restore::restored(snapshot, decode, remap, fresh, before, after),
    ensures
        source.ordered matches Some(ids) ==> (ids.len() < 0x1_0000_0000 ==> after.ordered == Some(
            ids,
        )),
        source.ordered is None ==> after.ordered == Some(Seq::<RollbackId>::empty()),
        source.frame is Some ==> after.frame == source.frame,
        source.frame is None ==> after.frame == Some(RollbackFrameCount(0)),
{
    law_captured_order(encode, source, snapshot);
    law_captured_frame(encode, source, snapshot);
    if source.ordered is None {
        assert(crate::sections::ordered_ids(snapshot.ordered_data) =~= Seq::empty());
    }
}

/// What a restore leaves alone, and what it takes from the snapshot as it is.
pub proof fn law_restored_frame<
    V,
    D: Fn(u64, &Vec<u8>) -> Option<V>,
    M: Fn(u64, &V, &EntityMap) -> V,
>(
    snapshot: SnapshotView,
    decode: D,
    remap: M,
    fresh: Seq<u64>,
    before: WorldView<V>,
    after: WorldView<V>,
)
    requires
        crate::restore::restored(snapshot, decode, remap, fresh, before, after),
    ensures
        after.frame == Some(RollbackFrameCount(snapshot.frame)),
        after.ordered == Some(crate::sections::ordered_ids(snapshot.ordered_data)),
        after.paused == before.paused,
        after.registry == before.registry,
{
}

/// A restore keeps the entities without the rollback marker, in their order, and
/// puts behind them an entity for each record of the snapshot, with the marker
/// and the record's identifier.
pub proof fn law_restored_entities<
    V,
    D: Fn(u64, &Vec<u8>) -> Option<V>,
    M: Fn(u64, &V, &EntityMap) -> V,
>(
    snapshot: SnapshotView,
    decode: D,
    remap: M,
    fresh: Seq<u64>,
    before: WorldView<V>,
    after: WorldView<V>,
)
    requires
        crate::restore::restored(snapshot, decode, remap, fresh, before, after),
    ensures
        exists|from: Seq<int>| #[trigger]
            crate::world_laws::unmarked_at(before.entities, from) && ({
                let records = crate::sections::entity_records(snapshot.entity_data);
                &&& after.entities.len() == from.len() + records.len()
                &&& forall|i: int|
                    0 <= i < from.len() ==> #[trigger] after.entities[i]
                        == before.entities[from[i]]
                &&& forall|i: int|
                    from.len() <= i < after.entities.len() ==> #[trigger] after.entities[i] == (
                    EntityRow {
                        entity: fresh[i - from.len()],
                        rollback: true,
                        id: Some(records[i - from.len()].0),
                    })
            }),
{
    crate::world_laws::law_unmarked_entities_stay(before.entities);
    let from = choose|from: Seq<int>| #[trigger]
        crate::world_laws::unmarked_at(before.entities, from) && crate::world::unmarked(
            before.entities,
        ) == Seq::new(from.len(), |i: int| before.entities[from[i]]);
    let stay = crate::world::unmarked(before.entities);
    assert forall|i: int| 0 <= i < from.len() implies #[trigger] after.entities[i]
        == before.entities[from[i]] by {
        assert(after.entities[i] == stay[i]);
    }
}

/// The map leads each captured entity to the one that was spawned for its last
/// record, and speaks of no other entity.
pub open spec fn leads_to_spawned(
    map: Map<u64, u64>,
    records: Seq<(RollbackId, u64)>,
    fresh: Seq<u64>,
) -> bool {
    &&& forall|j: int|
        0 <= j < records.len() && (forall|k: int|
            j < k < records.len() ==> (#[trigger] records[k]).1 != records[j].1)
            ==> map.contains_key((#[trigger] records[j]).1) && map[records[j].1] == fresh[j]
    &&& forall|e: u64| #[trigger]
        map.contains_key(e) ==> exists|j: int|
            0 <= j < records.len() && (#[trigger] records[j]).1 == e
}

/// The map of a restore.
proof fn lemma_leads_to_spawned(records: Seq<(RollbackId, u64)>, fresh: Seq<u64>)
    ensures
        leads_to_spawned(crate::restore::entity_mapping(records, fresh), records, fresh),
    decreases records.len(),
{
    if records.len() > 0 {
        let front = records.drop_last();
        let last = records.len() - 1;
        lemma_leads_to_spawned(front, fresh);
        let map = crate::restore::entity_mapping(records, fresh);
        let some = crate::restore::entity_mapping(front, fresh);
        assert forall|j: int|
            0 <= j < records.len() && (forall|k: int|
                j < k < records.len() ==> (#[trigger] records[k]).1 != records[j].1) implies
            map.contains_key((#[trigger] records[j]).1) && map[records[j].1] == fresh[j] by {
            if j < last {
                assert(records[last].1 != records[j].1);
                assert(front[j] == records[j]);
                assert forall|k: int| j < k < front.len() implies (#[trigger] front[k]).1
                    != front[j].1 by {
                    assert(records[k].1 != records[j].1);
                }
                assert(some.contains_key(front[j].1));
            }
        }
        assert forall|e: u64| #[trigger] map.contains_key(e) implies exists|j: int|
            0 <= j < records.len() && (#[trigger] records[j]).1 == e by {
            if e == records[last].1 {
                assert(records[last].1 == e);
            } else {
                assert(some.contains_key(e));
                let j = choose|j: int| 0 <= j < front.len() && (#[trigger] front[j]).1 == e;
                assert(records[j].1 == e);
            }
        }
    }
}

/// `value` is what `decode` makes of `bytes`.
pub open spec fn reads_as<V, D: Fn(u64, &Vec<u8>) -> Option<V>>(
    decode: D,
    kind: u64,
    bytes: Seq<u8>,
    value: Option<V>,
) -> bool {
    exists|held: Vec<u8>| held@ == bytes && #[trigger] decode.ensures((kind, &held), value)
}

/// The record at `p` has a value, and its identifier leads to the entity.
pub open spec fn lands<V>(
    rows: Seq<EntityRow>,
    records: Seq<(RollbackId, Seq<u8>)>,
    values: Seq<Option<V>>,
    p: int,
    entity: u64,
) -> bool {
    0 <= p < records.len() && values[p] is Some && crate::world::entity_with(rows, records[p].0)
        == Some(entity)
}

/// No record behind the one at `p` lands on the entity.
pub open spec fn lands_last<V>(
    rows: Seq<EntityRow>,
    records: Seq<(RollbackId, Seq<u8>)>,
    values: Seq<Option<V>>,
    p: int,
    entity: u64,
) -> bool {
    lands(rows, records, values, p, entity) && forall|q: int|
        p < q < records.len() ==> !#[trigger] lands(rows, records, values, q, entity)
}

/// `values` are what the records of a section decode to, and `after` are the
/// components with them in place: each on the entity that its identifier leads
/// to, the last one counting. Everything else is as before, and in its place.
pub open spec fn puts<V, D: Fn(u64, &Vec<u8>) -> Option<V>>(
    decode: D,
    rows: Seq<EntityRow>,
    kind: u64,
    records: Seq<(RollbackId, Seq<u8>)>,
    values: Seq<Option<V>>,
    before: Seq<Component<V>>,
    after: Seq<Component<V>>,
) -> bool {
    &&& values.len() == records.len()
    &&& forall|p: int|
        0 <= p < records.len() ==> reads_as(decode, kind, records[p].1, #[trigger] values[p])
    &&& before.len() <= after.len()
    &&& forall|i: int|
        0 <= i < before.len() ==> (#[trigger] after[i]).kind == before[i].kind && after[i].entity
            == before[i].entity
    &&& forall|p: int, e: u64| #[trigger]
        lands_last(rows, records, values, p, e) ==> crate::world::component_of(after, kind, e)
            == values[p]
    &&& forall|k: u64, e: u64|
        k != kind || (forall|p: int| !#[trigger] lands(rows, records, values, p, e)) ==> (
        #[trigger] crate::world::component_of(after, k, e)) == crate::world::component_of(
            before,
            k,
            e,
        )
}

/// What the sections before put in place stays there.
proof fn lemma_puts<V, D: Fn(u64, &Vec<u8>) -> Option<V>>(
    decode: D,
    rows: Seq<EntityRow>,
    kind: u64,
    records: Seq<(RollbackId, Seq<u8>)>,
    before: Seq<Component<V>>,
    after: Seq<Component<V>>,
) -> (values: Seq<Option<V>>)
    requires
        crate::restore::component_restored(decode, rows, kind, records, before, after),
    ensures
        puts(decode, rows, kind, records, values, before, after),
    decreases records.len(),
{
    if records.len() == 0 {
        Seq::empty()
    } else {
        let front = records.drop_last();
        let last = records.len() - 1;
        let (mid, value) = choose|mid: Seq<Component<V>>, value: Option<V>|
            {
                &&& crate::restore::component_restored(
                    decode,
                    rows,
                    kind,
                    records.drop_last(),
                    before,
                    mid,
                )
                &&& crate::restore::decoded(decode, kind, records.last().1, value)
                &&& after == #[trigger] crate::restore::placed(
                    rows,
                    mid,
                    kind,
                    records.last().0,
                    value,
                )
            };
        let some = lemma_puts(decode, rows, kind, front, before, mid);
        let values = some.push(value);
        let held = choose|held: Vec<u8>|
            held@ == records.last().1 && #[trigger] decode.ensures((kind, &held), value);
        assert(reads_as(decode, kind, records[last].1, values[last]));
        assert forall|p: int| 0 <= p < records.len() implies reads_as(
            decode,
            kind,
            records[p].1,
            #[trigger] values[p],
        ) by {
            if p < last {
                assert(front[p] == records[p]);
                assert(some[p] == values[p]);
            }
        }
        let target = crate::world::entity_with(rows, records[last].0);
        assert forall|p: int, e: u64| 0 <= p < last implies (#[trigger] lands(
            rows,
            records,
            values,
            p,
            e,
        ) <==> lands(rows, front, some, p, e)) by {
            assert(front[p] == records[p] && some[p] == values[p]);
        }
        assert forall|k: u64, e: u64| #[trigger]
            crate::world::component_of(after, k, e) == (if k == kind && lands(
                rows,
                records,
                values,
                last,
                e,
            ) {
                value
            } else {
                crate::world::component_of(mid, k, e)
            }) by {
            if let (Some(v), Some(entity)) = (value, target) {
                crate::restore_lemmas::lemma_with_component(mid, kind, entity, v, k, e);
            }
        }
        assert(mid.len() <= after.len() && forall|i: int|
            0 <= i < mid.len() ==> (#[trigger] after[i]).kind == mid[i].kind && after[i].entity
                == mid[i].entity) by {
            if let (Some(v), Some(entity)) = (value, target) {
                let ask = crate::world::is_component::<V>(kind, entity);
                crate::seqs::lemma_first_index(mid, ask);
            }
        }
        assert forall|p: int, e: u64| #[trigger]
            lands_last(rows, records, values, p, e) implies crate::world::component_of(
            after,
            kind,
            e,
        ) == values[p] by {
            if p < last {
                assert(!lands(rows, records, values, last, e));
                assert(lands(rows, front, some, p, e));
                assert forall|q: int| p < q < front.len() implies !#[trigger] lands(
                    rows,
                    front,
                    some,
                    q,
                    e,
                ) by {
                    assert(!lands(rows, records, values, q, e));
                }
                assert(lands_last(rows, front, some, p, e));
            }
        }
        assert forall|k: u64, e: u64|
            k != kind || (forall|p: int| !#[trigger] lands(rows, records, values, p, e)) implies (
        #[trigger] crate::world::component_of(after, k, e)) == crate::world::component_of(
            before,
            k,
            e,
        ) by {
            if k == kind {
                assert(!lands(rows, records, values, last, e));
                assert forall|p: int| !#[trigger] lands(rows, front, some, p, e) by {
                    if 0 <= p < last {
                        assert(!lands(rows, records, values, p, e));
                    }
                }
            }
            assert(crate::world::component_of(mid, k, e) == crate::world::component_of(
                before,
                k,
                e,
            ));
        }
        values
    }
}

/// Restoring the section of a component type puts the value of each record on
/// the entity that the record's identifier leads to. Records without a value, or
/// whose identifier nobody carries, change nothing, and of several for one
/// entity the last one counts.
pub proof fn law_section_is_put_in_place<V, D: Fn(u64, &Vec<u8>) -> Option<V>>(
    decode: D,
    rows: Seq<EntityRow>,
    kind: u64,
    records: Seq<(RollbackId, Seq<u8>)>,
    before: Seq<Component<V>>,
    after: Seq<Component<V>>,
)
    requires
        crate::restore::component_restored(decode, rows, kind, records, before, after),
    ensures
        exists|values: Seq<Option<V>>| #[trigger]
            puts(decode, rows, kind, records, values, before, after),
{
    let values = lemma_puts(decode, rows, kind, records, before, after);
}

/// Some values are put in place.
pub open spec fn put_in_place<V, D: Fn(u64, &Vec<u8>) -> Option<V>>(
    decode: D,
    rows: Seq<EntityRow>,
    kind: u64,
    section: Seq<u8>,
    before: Seq<Component<V>>,
    after: Seq<Component<V>>,
) -> bool {
    exists|values: Seq<Option<V>>| #[trigger]
        puts(
            decode,
            rows,
            kind,
            crate::sections::component_records(section),
            values,
            before,
            after,
        )
}

/// The sections are restored in turn, each for the type at its place: `stages`
/// are the components from one to the next.
pub open spec fn restored_in_turn<V, D: Fn(u64, &Vec<u8>) -> Option<V>>(
    decode: D,
    rows: Seq<EntityRow>,
    kinds: Seq<u64>,
    sections: Seq<Seq<u8>>,
    stages: Seq<Seq<Component<V>>>,
) -> bool {
    &&& stages.len() > 0
    &&& forall|j: int|
        0 <= j < stages.len() - 1 ==> put_in_place(
            decode,
            rows,
            #[trigger] kinds[j],
            sections[j],
            stages[j],
            stages[j + 1],
        )
}

/// Section by section.
proof fn lemma_in_turn<V, D: Fn(u64, &Vec<u8>) -> Option<V>>(
    decode: D,
    rows: Seq<EntityRow>,
    kinds: Seq<u64>,
    sections: Seq<Seq<u8>>,
    n: nat,
    before: Seq<Component<V>>,
    after: Seq<Component<V>>,
) -> (stages: Seq<Seq<Component<V>>>)
    requires
        crate::restore::components_restored(decode, rows, kinds, sections, n, before, after),
    ensures
        restored_in_turn(decode, rows, kinds, sections, stages),
        stages.len() == n + 1,
        stages[0] == before,
        stages[n as int] == after,
    decreases n,
{
    if n == 0 {
        let stages = seq![before];
        assert(stages[0] == after);
        stages
    } else {
        let mid = choose|mid: Seq<Component<V>>|
            {
                &&& crate::restore::components_restored(
                    decode,
                    rows,
                    kinds,
                    sections,
                    (n - 1) as nat,
                    before,
                    mid,
                )
                &&& #[trigger] crate::restore::component_restored(
                    decode,
                    rows,
                    kinds[n - 1],
                    crate::sections::component_records(sections[n - 1]),
                    mid,
                    after,
                )
            };
        let some = lemma_in_turn(decode, rows, kinds, sections, (n - 1) as nat, before, mid);
        let stages = some.push(after);
        let last = n - 1;
        let values = lemma_puts(
            decode,
            rows,
            kinds[last],
            crate::sections::component_records(sections[last]),
            mid,
            after,
        );
        assert(put_in_place(decode, rows, kinds[last], sections[last], mid, after));
        assert forall|j: int| 0 <= j < stages.len() - 1 implies put_in_place(
            decode,
            rows,
            #[trigger] kinds[j],
            sections[j],
            stages[j],
            stages[j + 1],
        ) by {
            assert(stages[j] == some[j]);
            if j < last {
                assert(stages[j + 1] == some[j + 1]);
            }
        }
        stages
    }
}

/// One value of a chain is made of the one before it by `remap`.
pub open spec fn remap_link<V, M: Fn(u64, &V, &EntityMap) -> V>(
    remap: M,
    map: EntityMap,
    kind: u64,
    chain: Seq<V>,
    c: int,
) -> bool {
    remap.ensures((kind, &chain[c], &map), chain[c + 1])
}

/// `now` is what `remap` makes of `was`, put through it `n` times.
pub open spec fn remapped_times<V, M: Fn(u64, &V, &EntityMap) -> V>(
    remap: M,
    map: EntityMap,
    kind: u64,
    n: nat,
    was: V,
    now: V,
) -> bool {
    exists|chain: Seq<V>|
        {
            &&& #[trigger] chain.len() == n + 1
            &&& chain[0] == was
            &&& chain[n as int] == now
            &&& forall|c: int| 0 <= c < n ==> #[trigger] remap_link(remap, map, kind, chain, c)
        }
}

/// How often a type stands in a list.
pub open spec fn times(kinds: Seq<u64>, kind: u64) -> nat {
    kinds.to_multiset().count(kind)
}

/// Every component went through `remap` as often as its type stands in the
/// list, and kept its type, its entity and its place.
pub open spec fn all_remapped<V, M: Fn(u64, &V, &EntityMap) -> V>(
    remap: M,
    map: EntityMap,
    kinds: Seq<u64>,
    before: Seq<Component<V>>,
    after: Seq<Component<V>>,
) -> bool {
    &&& after.len() == before.len()
    &&& forall|i: int|
        0 <= i < before.len() ==> {
            &&& (#[trigger] after[i]).kind == before[i].kind
            &&& after[i].entity == before[i].entity
            &&& remapped_times(
                remap,
                map,
                before[i].kind,
                times(kinds, before[i].kind),
                before[i].value,
                after[i].value,
            )
        }
}

/// Once more through `remap`.
proof fn lemma_remapped_once_more<V, M: Fn(u64, &V, &EntityMap) -> V>(
    remap: M,
    map: EntityMap,
    kind: u64,
    n: nat,
    was: V,
    mid: V,
    now: V,
)
    requires
        remapped_times(remap, map, kind, n, was, mid),
        remap.ensures((kind, &mid, &map), now),
    ensures
        remapped_times(remap, map, kind, n + 1, was, now),
{
    let chain = choose|chain: Seq<V>|
        {
            &&& #[trigger] chain.len() == n + 1
            &&& chain[0] == was
            &&& chain[n as int] == mid
            &&& forall|c: int| 0 <= c < n ==> #[trigger] remap_link(remap, map, kind, chain, c)
        };
    let more = chain.push(now);
    assert(more.len() == n + 2);
    assert forall|c: int| 0 <= c < n + 1 implies #[trigger] remap_link(
        remap,
        map,
        kind,
        more,
        c,
    ) by {
        if c < n {
            assert(remap_link(remap, map, kind, chain, c));
        }
    }
}

/// Type by type.
proof fn lemma_all_remapped<V, M: Fn(u64, &V, &EntityMap) -> V>(
    remap: M,
    map: EntityMap,
    kinds: Seq<u64>,
    n: nat,
    before: Seq<Component<V>>,
    after: Seq<Component<V>>,
)
    requires
        n <= kinds.len(),
        crate::restore::components_remapped(remap, map, kinds, n, before, after),
    ensures
        all_remapped(remap, map, kinds.take(n as int), before, after),
    decreases n,
{
    broadcast use vstd::seq_lib::group_to_multiset_ensures;

    if n == 0 {
        assert(kinds.take(0) =~= Seq::empty());
        assert forall|i: int| 0 <= i < before.len() implies remapped_times(
            remap,
            map,
            before[i].kind,
            times(kinds.take(0), before[i].kind),
            before[i].value,
            (#[trigger] after[i]).value,
        ) by {
            let chain = seq![before[i].value];
            assert(chain.len() == 1);
            assert(kinds.take(0).to_multiset().count(before[i].kind) == 0) by {
                if kinds.take(0).to_multiset().count(before[i].kind) > 0 {
                    assert(kinds.take(0).contains(before[i].kind));
                }
            }
        }
    } else {
        let mid = choose|mid: Seq<Component<V>>|
            {
                &&& crate::restore::components_remapped(
                    remap,
                    map,
                    kinds,
                    (n - 1) as nat,
                    before,
                    mid,
                )
                &&& #[trigger] crate::restore::component_remapped(
                    remap,
                    map,
                    kinds[n - 1],
                    mid,
                    after,
                )
            };
        lemma_all_remapped(remap, map, kinds, (n - 1) as nat, before, mid);
        let front = kinds.take(n - 1);
        let done = kinds.take(n as int);
        assert(done =~= front.push(kinds[n - 1]));
        assert(done.to_multiset() =~= front.to_multiset().insert(kinds[n - 1]));
        assert forall|i: int| 0 <= i < before.len() implies {
            &&& (#[trigger] after[i]).kind == before[i].kind
            &&& after[i].entity == before[i].entity
            &&& remapped_times(
                remap,
                map,
                before[i].kind,
                times(done, before[i].kind),
                before[i].value,
                after[i].value,
            )
        } by {
            let kind = before[i].kind;
            assert(mid[i].kind == kind);
            if kind == kinds[n - 1] {
                lemma_remapped_once_more(
                    remap,
                    map,
                    kind,
                    times(front, kind),
                    before[i].value,
                    mid[i].value,
                    after[i].value,
                );
            }
        }
    }
}

/// The components of `after` come from those of `before` and from the snapshot as
/// the registry says: the components on the entities that stay are those from
/// before, the sections are restored in turn, each for the component type at its
/// place in the registry, as many as there are of both, and at last every
/// component goes through `remap` once for each time that its type stands among
/// the types that the registry has for remapping, with a map that leads captured
/// entities to those that were spawned for them.
pub open spec fn comes_by_registry<
    V,
    D: Fn(u64, &Vec<u8>) -> Option<V>,
    M: Fn(u64, &V, &EntityMap) -> V,
>(
    registry: RegistryView,
    snapshot: SnapshotView,
    decode: D,
    remap: M,
    fresh: Seq<u64>,
    before: WorldView<V>,
    after: WorldView<V>,
) -> bool {
    exists|stages: Seq<Seq<Component<V>>>, map: EntityMap|
        {
            let n = crate::layout_laws::lesser(
                registry.components.len() as int,
                snapshot.component_sections.len() as int,
            );
            &&& stages.len() == n + 1
            &&& stages[0] == crate::world::components_on(
                crate::world::unmarked(before.entities),
                before.components,
            )
            &&& #[trigger] restored_in_turn(
                decode,
                after.entities,
                registry.components,
                snapshot.component_sections,
                stages,
            )
            &&& leads_to_spawned(
                map@,
                crate::sections::entity_records(snapshot.entity_data),
                fresh,
            )
            &&& #[trigger] all_remapped(
                remap,
                map,
                registry.remaps,
                stages.last(),
                after.components,
            )
        }
}

/// A restore in a world with a registry goes by that registry, component by
/// component.
pub proof fn law_restored_components<
    V,
    D: Fn(u64, &Vec<u8>) -> Option<V>,
    M: Fn(u64, &V, &EntityMap) -> V,
>(
    snapshot: SnapshotView,
    decode: D,
    remap: M,
    fresh: Seq<u64>,
    before: WorldView<V>,
    after: WorldView<V>,
    registry: RegistryView,
)
    requires
        crate::restore::restored(snapshot, decode, remap, fresh, before, after),
        before.registry == Some(registry),
    ensures
        comes_by_registry(registry, snapshot, decode, remap, fresh, before, after),
{
    let records = crate::sections::entity_records(snapshot.entity_data);
    let mapping = crate::restore::entity_mapping(records, fresh);
    let start = crate::world::components_on(
        crate::world::unmarked(before.entities),
        before.components,
    );
    let sections = snapshot.component_sections;
    assert(crate::capture::registered(before) == registry);
    let (laid, map) = choose|laid: Seq<Component<V>>, map: EntityMap|
        {
            &&& map@ == mapping
            &&& crate::restore::components_restored(
                decode,
                after.entities,
                registry.components,
                sections,
                crate::restore::paired(registry.components, sections),
                start,
                laid,
            )
            &&& #[trigger] crate::restore::components_remapped(
                remap,
                map,
                registry.remaps,
                registry.remaps.len(),
                laid,
                after.components,
            )
        };
    let stages = lemma_in_turn(
        decode,
        after.entities,
        registry.components,
        sections,
        crate::restore::paired(registry.components, sections),
        start,
        laid,
    );
    lemma_leads_to_spawned(records, fresh);
    lemma_all_remapped(
        remap,
        map,
        registry.remaps,
        registry.remaps.len(),
        laid,
        after.components,
    );
    assert(registry.remaps.take(registry.remaps.len() as int) =~= registry.remaps);
    assert(stages.last() == laid);
}

/// `after` are the resources once a section was restored: the value of the bytes
/// behind the length is put in place if they are all there and have one, a zero
/// length removes the resource unless the mark and nothing else is behind it,
/// and a section that is cut short changes nothing.
pub open spec fn resource_put<V, D: Fn(u64, &Vec<u8>) -> Option<V>>(
    decode: D,
    kind: u64,
    data: Seq<u8>,
    before: Map<u64, V>,
    after: Map<u64, V>,
) -> bool {
    if data.len() < 4 || (crate::layout_laws::four_at(data, 0) > 0 && data.len() < 4
        + crate::layout_laws::four_at(data, 0)) {
        after == before
    } else if crate::layout_laws::four_at(data, 0) == 0 && data.skip(4) != seq![1u8] {
        after == before.remove(kind)
    } else {
        exists|value: Option<V>| #[trigger]
            reads_as(
                decode,
                kind,
                data.subrange(4, 4 + crate::layout_laws::four_at(data, 0)),
                value,
            ) && (value matches Some(v) ==> after == before.insert(kind, v)) && (value is None
                ==> after == before)
    }
}

/// Restoring the section of a resource type, byte by byte.
pub proof fn law_resource_is_put_in_place<V, D: Fn(u64, &Vec<u8>) -> Option<V>>(
    decode: D,
    kind: u64,
    section: Seq<u8>,
    before: Map<u64, V>,
    after: Map<u64, V>,
)
    requires
        crate::restore::resource_restored(decode, kind, section, before, after),
    ensures
        resource_put(decode, kind, section, before, after),
{
    crate::layout_laws::law_reading_resources(section);
    crate::layout_laws::law_reading_four_bytes(section);
    if let crate::sections::ResourceOrder::Replace(bytes) = crate::sections::resource_order(
        section,
    ) {
        assert(bytes =~= section.subrange(4, 4 + crate::layout_laws::four_at(section, 0)));
        let value = choose|value: Option<V>| #[trigger]
            crate::restore::decoded(decode, kind, bytes, value) && after
                == crate::restore::replaced(before, kind, value);
        let held = choose|held: Vec<u8>|
            held@ == bytes && #[trigger] decode.ensures((kind, &held), value);
        assert(reads_as(decode, kind, bytes, value));
    }
}

/// The sections of the resource types are restored in turn.
pub open spec fn resources_in_turn<V, D: Fn(u64, &Vec<u8>) -> Option<V>>(
    decode: D,
    kinds: Seq<u64>,
    sections: Seq<Seq<u8>>,
    stages: Seq<Map<u64, V>>,
) -> bool {
    &&& stages.len() > 0
    &&& forall|j: int|
        0 <= j < stages.len() - 1 ==> resource_put(
            decode,
            #[trigger] kinds[j],
            sections[j],
            stages[j],
            stages[j + 1],
        )
}

/// Section by section.
proof fn lemma_resources_in_turn<V, D: Fn(u64, &Vec<u8>) -> Option<V>>(
    decode: D,
    kinds: Seq<u64>,
    sections: Seq<Seq<u8>>,
    n: nat,
    before: Map<u64, V>,
    after: Map<u64, V>,
) -> (stages: Seq<Map<u64, V>>)
    requires
        crate::restore::resources_restored(decode, kinds, sections, n, before, after),
    ensures
        resources_in_turn(decode, kinds, sections, stages),
        stages.len() == n + 1,
        stages[0] == before,
        stages[n as int] == after,
    decreases n,
{
    if n == 0 {
        let stages = seq![before];
        assert(stages[0] == after);
        stages
    } else {
        let mid = choose|mid: Map<u64, V>|
            {
                &&& crate::restore::resources_restored(
                    decode,
                    kinds,
                    sections,
                    (n - 1) as nat,
                    before,
                    mid,
                )
                &&& #[trigger] crate::restore::resource_restored(
                    decode,
                    kinds[n - 1],
                    sections[n - 1],
                    mid,
                    after,
                )
            };
        let some = lemma_resources_in_turn(
            decode,
            kinds,
            sections,
            (n - 1) as nat,
            before,
            mid,
        );
        let stages = some.push(after);
        let last = n - 1;
        law_resource_is_put_in_place(decode, kinds[last], sections[last], mid, after);
        assert forall|j: int| 0 <= j < stages.len() - 1 implies resource_put(
            decode,
            #[trigger] kinds[j],
            sections[j],
            stages[j],
            stages[j + 1],
        ) by {
            assert(stages[j] == some[j]);
            if j < last {
                assert(stages[j + 1] == some[j + 1]);
            }
        }
        stages
    }
}

/// The resources of `after` come from those of `before` and from the snapshot as
/// the registry says: the sections are restored in turn, each for the resource
/// type at its place in the registry, as many as there are of both.
pub open spec fn resources_come_by_registry<V, D: Fn(u64, &Vec<u8>) -> Option<V>>(
    registry: RegistryView,
    snapshot: SnapshotView,
    decode: D,
    before: WorldView<V>,
    after: WorldView<V>,
) -> bool {
    exists|stages: Seq<Map<u64, V>>|
        {
            &&& stages.len() == crate::layout_laws::lesser(
                registry.resources.len() as int,
                snapshot.resource_sections.len() as int,
            ) + 1
            &&& stages[0] == before.resources
            &&& stages.last() == after.resources
            &&& #[trigger] resources_in_turn(
                decode,
                registry.resources,
                snapshot.resource_sections,
                stages,
            )
        }
}

/// A restore in a world with a registry goes by that registry, resource by
/// resource.
pub proof fn law_restored_resources<
    V,
    D: Fn(u64, &Vec<u8>) -> Option<V>,
    M: Fn(u64, &V, &EntityMap) -> V,
>(
    snapshot: SnapshotView,
    decode: D,
    remap: M,
    fresh: Seq<u64>,
    before: WorldView<V>,
    after: WorldView<V>,
    registry: RegistryView,
)
    requires
        crate::restore::restored(snapshot, decode, remap, fresh, before, after),
        before.registry == Some(registry),
    ensures
        resources_come_by_registry(registry, snapshot, decode, before, after),
{
    assert(crate::capture::registered(before) == registry);
    let stages = lemma_resources_in_turn(
        decode,
        registry.resources,
        snapshot.resource_sections,
        crate::restore::paired(registry.resources, snapshot.resource_sections),
        before.resources,
        after.resources,
    );
    assert(stages.last() == after.resources);
}

/// A restore in a world without a registry restores no component and no
/// resource: the components on the entities that stay, and all resources, are
/// what they were.
pub proof fn law_nothing_registered_nothing_restored<
    V,
    D: Fn(u64, &Vec<u8>) -> Option<V>,
    M: Fn(u64, &V, &EntityMap) -> V,
>(
    snapshot: SnapshotView,
    decode: D,
    remap: M,
    fresh: Seq<u64>,
    before: WorldView<V>,
    after: WorldView<V>,
)
    requires
        crate::restore::restored(snapshot, decode, remap, fresh, before, after),
        before.registry is None,
    ensures
        after.components == crate::world::components_on(
            crate::world::unmarked(before.entities),
            before.components,
        ),
        after.resources == before.resources,
{
}

/// A value of a type is listed for an entity.
pub open spec fn has<V>(
    components: Seq<Component<V>>,
    kind: u64,
    entity: u64,
    value: V,
) -> bool {
    exists|c: int|
        0 <= c < components.len() && #[trigger] components[c] == (Component {
            kind,
            entity,
            value,
        })
}

/// Nothing of a type is listed for an entity.
pub open spec fn has_none<V>(components: Seq<Component<V>>, kind: u64, entity: u64) -> bool {
    forall|c: int|
        0 <= c < components.len() ==> (#[trigger] components[c]).kind != kind
            || components[c].entity != entity
}

/// What is listed is what is found.
proof fn lemma_listed<V>(components: Seq<Component<V>>, kind: u64, entity: u64)
    ensures
        crate::world::component_of(components, kind, entity) matches Some(value) ==> has(
            components,
            kind,
            entity,
            value,
        ),
        crate::world::component_of(components, kind, entity) is None <==> has_none(
            components,
            kind,
            entity,
        ),
{
    let ask = crate::world::is_component::<V>(kind, entity);
    let at = crate::seqs::first_index(components, ask);
    crate::seqs::lemma_first_index(components, ask);
    if at < components.len() {
        assert(ask(components[at]));
        assert(components[at] == (Component { kind, entity, value: components[at].value }));
    } else {
        assert forall|c: int| 0 <= c < components.len() implies (#[trigger] components[c]).kind
            != kind || components[c].entity != entity by {
            assert(!ask(components[c]));
        }
    }
}

/// The map leads the captured entities to the fresh ones, and speaks of no
/// other.
pub open spec fn leads_home(
    map: Map<u64, u64>,
    rows: Seq<EntityRow>,
    from: Seq<int>,
    fresh: Seq<u64>,
) -> bool {
    &&& forall|i: int|
        0 <= i < from.len() ==> map.contains_key(rows[#[trigger] from[i]].entity)
            && map[rows[from[i]].entity] == fresh[i]
    &&& forall|e: u64| #[trigger]
        map.contains_key(e) ==> exists|i: int|
            0 <= i < from.len() && rows[#[trigger] from[i]].entity == e
}

/// `now` is `was` put through `remap` as often as its type stands in the
/// registry for remapping, with references led to the fresh entities.
pub open spec fn brought_over<V, M: Fn(u64, &V, &EntityMap) -> V>(
    remap: M,
    remaps: Seq<u64>,
    rows: Seq<EntityRow>,
    from: Seq<int>,
    fresh: Seq<u64>,
    kind: u64,
    was: V,
    now: V,
) -> bool {
    exists|map: EntityMap| #[trigger]
        leads_home(map@, rows, from, fresh) && remapped_times(
            remap,
            map,
            kind,
            times(remaps, kind),
            was,
            now,
        )
}

/// Putting a value through `remap` type by type.
proof fn lemma_remapped_times<V, M: Fn(u64, &V, &EntityMap) -> V>(
    remap: M,
    map: EntityMap,
    kinds: Seq<u64>,
    kind: u64,
    was: V,
    now: V,
)
    requires
        crate::restore_lemmas::remapped(remap, map, kinds, kind, was, now),
    ensures
        remapped_times(remap, map, kind, times(kinds, kind), was, now),
    decreases kinds.len(),
{
    broadcast use vstd::seq_lib::group_to_multiset_ensures;

    if kinds.len() == 0 {
        let chain = seq![was];
        assert(chain.len() == 1);
        assert(kinds.to_multiset().count(kind) == 0) by {
            if kinds.to_multiset().count(kind) > 0 {
                assert(kinds.contains(kind));
            }
        }
    } else {
        let front = kinds.drop_last();
        assert(kinds =~= front.push(kinds.last()));
        assert(kinds.to_multiset() =~= front.to_multiset().insert(kinds.last()));
        if kinds.last() == kind {
            let mid = choose|mid: V|
                crate::restore_lemmas::remapped(remap, map, front, kind, was, mid)
                    && #[trigger] remap.ensures((kind, &mid, &map), now);
            lemma_remapped_times(remap, map, front, kind, was, mid);
            lemma_remapped_once_more(remap, map, kind, times(front, kind), was, mid, now);
        } else {
            lemma_remapped_times(remap, map, front, kind, was, now);
        }
    }
}

/// A captured world comes back, entity by entity. There is a new entity for each
/// that carried an identifier, with the rollback marker and that identifier. On
/// it is each component of a type that the registry has for capturing, and none
/// of another type. Its value is what it was, put through `remap` as often as
/// the registry has its type for remapping: so its references to captured
/// entities lead to the new ones, whichever and however many types are
/// registered for that.
pub proof fn law_captured_world_comes_back<
    V,
    E: Fn(u64, &V) -> Option<Vec<u8>>,
    D: Fn(u64, &Vec<u8>) -> Option<V>,
    M: Fn(u64, &V, &EntityMap) -> V,
>(
    encode: E,
    decode: D,
    remap: M,
    source: WorldView<V>,
    snapshot: SnapshotView,
    fresh: Seq<u64>,
    before: WorldView<V>,
    after: WorldView<V>,
    registry: RegistryView,
)
    requires
        crate::capture_laws::captured_in_full(encode, source, snapshot),
        crate::capture_laws::faithful(encode, decode, source),
        crate::restore_lemmas::can_take(source, before, fresh),
        crate::restore::restored(snapshot, decode, remap, fresh, before, after),
        source.registry == Some(registry),
        before.registry == Some(registry),
    ensures
        exists|from: Seq<int>| #[trigger]
            crate::world_laws::identified_at(source.entities, from) && ({
                let rows = source.entities;
                &&& forall|i: int|
                    0 <= i < from.len() ==> after.entities.contains(
                        EntityRow {
                            entity: fresh[i],
                            rollback: true,
                            id: rows[#[trigger] from[i]].id,
                        },
                    )
                &&& forall|i: int, kind: u64, was: V|
                    0 <= i < from.len() && #[trigger] registry.components.contains(kind)
                        && #[trigger] has(source.components, kind, rows[from[i]].entity, was)
                        ==> exists|now: V| #[trigger]
                        has(after.components, kind, fresh[i], now) && brought_over(
                            remap,
                            registry.remaps,
                            rows,
                            from,
                            fresh,
                            kind,
                            was,
                            now,
                        )
                &&& forall|i: int, kind: u64|
                    0 <= i < from.len() && (!registry.components.contains(kind) || has_none(
                        source.components,
                        kind,
                        rows[from[i]].entity,
                    )) ==> #[trigger] has_none(after.components, kind, fresh[i])
            }),
{
    let rows = source.entities;
    let records = crate::world::identified(rows);
    assert(crate::capture::registered(source) == registry);
    crate::restore_laws::law_restore_undoes_capture(
        encode,
        decode,
        remap,
        source,
        snapshot,
        fresh,
        before,
        after,
    );
    crate::world_laws::law_identified_entities(rows);
    let from = choose|from: Seq<int>| #[trigger]
        crate::world_laws::identified_at(rows, from) && records == Seq::new(
            from.len(),
            |i: int| (rows[from[i]].id->0, rows[from[i]].entity),
        );
    let stay = crate::world::unmarked(before.entities);
    assert forall|i: int| 0 <= i < from.len() implies after.entities.contains(
        EntityRow { entity: fresh[i], rollback: true, id: rows[#[trigger] from[i]].id },
    ) by {
        assert(after.entities[stay.len() + i] == (EntityRow {
            entity: fresh[i],
            rollback: true,
            id: rows[from[i]].id,
        }));
    }
    let mapping = crate::restore::entity_mapping(records, fresh);
    assert(leads_home(mapping, rows, from, fresh)) by {
        lemma_leads_to_spawned(records, fresh);
        assert forall|i: int| 0 <= i < from.len() implies mapping.contains_key(
            rows[#[trigger] from[i]].entity,
        ) && mapping[rows[from[i]].entity] == fresh[i] by {
            assert forall|k: int| i < k < records.len() implies (#[trigger] records[k]).1
                != records[i].1 by {
                assert(from[i] < from[k]);
                assert(rows[from[i]].entity != rows[from[k]].entity);
            }
            assert(records[i].1 == rows[from[i]].entity);
        }
        assert forall|e: u64| #[trigger] mapping.contains_key(e) implies exists|i: int|
            0 <= i < from.len() && rows[#[trigger] from[i]].entity == e by {
            let j = choose|j: int| 0 <= j < records.len() && (#[trigger] records[j]).1 == e;
            assert(rows[from[j]].entity == e);
        }
    }
    assert forall|i: int, kind: u64, was: V|
        0 <= i < from.len() && #[trigger] registry.components.contains(kind) && #[trigger] has(
            source.components,
            kind,
            rows[from[i]].entity,
            was,
        ) implies exists|now: V| #[trigger]
        has(after.components, kind, fresh[i], now) && brought_over(
            remap,
            registry.remaps,
            rows,
            from,
            fresh,
            kind,
            was,
            now,
        ) by {
        let entity = rows[from[i]].entity;
        let c = choose|c: int|
            0 <= c < source.components.len() && #[trigger] source.components[c] == (Component {
                kind,
                entity,
                value: was,
            });
        assert forall|d: int| 0 <= d < c implies (#[trigger] source.components[d]).kind
            != source.components[c].kind || source.components[d].entity
            != source.components[c].entity by {}
        crate::world_laws::law_components_are_found(source.components, c);
        let is = crate::world::component_of(after.components, kind, fresh[i]);
        assert(records[i].1 == entity);
        assert(crate::restore_lemmas::carried_over(
            remap,
            mapping,
            registry.remaps,
            kind,
            Some(was),
            is,
        ));
        let now = is->0;
        let map = choose|map: EntityMap| #[trigger]
            crate::restore_lemmas::remapped_by(
                remap,
                map,
                mapping,
                registry.remaps,
                kind,
                was,
                now,
            );
        lemma_remapped_times(remap, map, registry.remaps, kind, was, now);
        lemma_listed(after.components, kind, fresh[i]);
        assert(leads_home(map@, rows, from, fresh));
        assert(has(after.components, kind, fresh[i], now));
    }
    assert forall|i: int, kind: u64|
        0 <= i < from.len() && (!registry.components.contains(kind) || has_none(
            source.components,
            kind,
            rows[from[i]].entity,
        )) implies #[trigger] has_none(after.components, kind, fresh[i]) by {
        lemma_listed(source.components, kind, rows[from[i]].entity);
        lemma_listed(after.components, kind, fresh[i]);
        assert(records[i].1 == rows[from[i]].entity);
        let is = crate::world::component_of(after.components, kind, fresh[i]);
        assert(crate::restore_lemmas::carried_over(
            remap,
            mapping,
            registry.remaps,
            kind,
            None,
            is,
        ));
    }
}

/// The resources of a captured world come back: of each type that the registry
/// has for capturing, the resource is there exactly when it was, with the value
/// that it had. The others are what they were before the restore.
pub proof fn law_captured_resources_come_back<
    V,
    E: Fn(u64, &V) -> Option<Vec<u8>>,
    D: Fn(u64, &Vec<u8>) -> Option<V>,
    M: Fn(u64, &V, &EntityMap) -> V,
>(
    encode: E,
    decode: D,
    remap: M,
    source: WorldView<V>,
    snapshot: SnapshotView,
    fresh: Seq<u64>,
    before: WorldView<V>,
    after: WorldView<V>,
    registry: RegistryView,
    kind: u64,
)
    requires
        crate::capture_laws::captured_in_full(encode, source, snapshot),
        crate::capture_laws::faithful(encode, decode, source),
        crate::restore_lemmas::can_take(source, before, fresh),
        crate::restore::restored(snapshot, decode, remap, fresh, before, after),
        source.registry == Some(registry),
        before.registry == Some(registry),
    ensures
        registry.resources.contains(kind) ==> (after.resources.contains_key(kind)
            <==> source.resources.contains_key(kind)) && (source.resources.contains_key(kind)
            ==> after.resources[kind] == source.resources[kind]),
        !registry.resources.contains(kind) ==> (after.resources.contains_key(kind)
            <==> before.resources.contains_key(kind)) && (before.resources.contains_key(kind)
            ==> after.resources[kind] == before.resources[kind]),
{
    crate::restore_laws::law_restore_undoes_capture(
        encode,
        decode,
        remap,
        source,
        snapshot,
        fresh,
        before,
        after,
    );
    assert(crate::capture::registered(source) == registry);
    let there = after.resources.contains_key(kind);
}

/// A section speaks of an entity when one of its records has the identifier that
/// leads to it. The components that are said to be restored are those of which a
/// section speaks that stands at the place of their type in the registry.
pub proof fn law_what_sections_speak_of(
    rows: Seq<EntityRow>,
    kinds: Seq<u64>,
    sections: Seq<Seq<u8>>,
    kind: u64,
    entity: u64,
)
    ensures
        crate::restore::speaks_of(rows, kinds, sections, kind, entity) <==> exists|j: int, p: int|
            {
                &&& 0 <= j < kinds.len()
                &&& j < sections.len()
                &&& #[trigger] kinds[j] == kind
                &&& 0 <= p < crate::sections::component_records(sections[j]).len()
                &&& crate::world::entity_with(
                    rows,
                    (#[trigger] crate::sections::component_records(sections[j])[p]).0,
                ) == Some(entity)
            },
{
    if crate::restore::speaks_of(rows, kinds, sections, kind, entity) {
        let j = choose|j: int|
            0 <= j < crate::restore::paired(kinds, sections) && #[trigger] kinds[j] == kind
                && crate::restore::names(
                rows,
                crate::sections::component_records(sections[j]),
                entity,
            );
        let records = crate::sections::component_records(sections[j]);
        let p = choose|p: int|
            0 <= p < records.len() && crate::world::entity_with(rows, (#[trigger] records[p]).0)
                == Some(entity);
        assert(kinds[j] == kind && crate::world::entity_with(
            rows,
            crate::sections::component_records(sections[j])[p].0,
        ) == Some(entity));
    }
    if exists|j: int, p: int|
        {
            &&& 0 <= j < kinds.len()
            &&& j < sections.len()
            &&& #[trigger] kinds[j] == kind
            &&& 0 <= p < crate::sections::component_records(sections[j]).len()
            &&& crate::world::entity_with(
                rows,
                (#[trigger] crate::sections::component_records(sections[j])[p]).0,
            ) == Some(entity)
        } {
        let (j, p) = choose|j: int, p: int|
            {
                &&& 0 <= j < kinds.len()
                &&& j < sections.len()
                &&& #[trigger] kinds[j] == kind
                &&& 0 <= p < crate::sections::component_records(sections[j]).len()
                &&& crate::world::entity_with(
                    rows,
                    (#[trigger] crate::sections::component_records(sections[j])[p]).0,
                ) == Some(entity)
            };
        assert(crate::restore::names(
            rows,
            crate::sections::component_records(sections[j]),
            entity,
        ));
        assert(kinds[j] == kind);
    }
}

/// Entities that differ from one another and from those that stay are all that
/// a restore asks of the fresh ones, and there have to be enough.
pub proof fn law_fresh_entities_are_enough(rows: Seq<EntityRow>, count: nat, fresh: Seq<u64>)
    requires
        count <= fresh.len(),
        forall|i: int, j: int|
            0 <= i < j < fresh.len() ==> #[trigger] fresh[i] != #[trigger] fresh[j],
        forall|i: int, j: int|
            0 <= i < fresh.len() && 0 <= j < rows.len() ==> #[trigger] fresh[i] != (
            #[trigger] rows[j]).entity,
    ensures
        crate::restore::fresh_for(rows, count, fresh),
{
    assert forall|i: int| 0 <= i < count implies !crate::world::contains_entity(
        rows,
        #[trigger] fresh[i],
    ) by {
        crate::world::lemma_contains_entity(rows, fresh[i]);
    }
}

/// A codec that can be asked for every value and all bytes is all that capturing
/// and restoring ask for.
pub proof fn law_total_codecs_are_enough<
    V,
    E: Fn(u64, &V) -> Option<Vec<u8>>,
    D: Fn(u64, &Vec<u8>) -> Option<V>,
>(encode: E, decode: D)
    requires
        forall|kind: u64, value: &V| #[trigger] encode.requires((kind, value)),
        forall|kind: u64, bytes: &Vec<u8>| #[trigger] decode.requires((kind, bytes)),
    ensures
        crate::capture::encodes_all(encode),
        crate::restore::decodes_all::<V, D>(decode),
{
}

/// To remap the values of the types that the registry has for remapping is all
/// that a restore asks of `remap`, where the world holds values of their types
/// and `decode` makes such.
pub proof fn law_typed_remaps_are_enough<
    V,
    D: Fn(u64, &Vec<u8>) -> Option<V>,
    M: Fn(u64, &V, &EntityMap) -> V,
>(
    decode: D,
    remap: M,
    world: WorldView<V>,
    registry: RegistryView,
    of_type: spec_fn(u64, V) -> bool,
)
    requires
        world.registry == Some(registry),
        forall|kind: u64, value: V, map: &EntityMap|
            registry.remaps.contains(kind) && of_type(kind, value) ==> #[trigger] remap.requires(
                (kind, &value, map),
            ),
        forall|kind: u64, value: V, map: &EntityMap, next: V|
            registry.remaps.contains(kind) && of_type(kind, value) && #[trigger] remap.ensures(
                (kind, &value, map),
                next,
            ) ==> of_type(kind, next),
        forall|c: int|
            0 <= c < world.components.len() ==> of_type(
                (#[trigger] world.components[c]).kind,
                world.components[c].value,
            ),
        forall|kind: u64, held: Vec<u8>, value: V| #[trigger]
            decode.ensures((kind, &held), Some(value)) ==> of_type(kind, value),
    ensures
        crate::restore::can_remap(decode, remap, world),
{
    let kinds = registry.remaps;
    assert(crate::capture::registered(world) == registry);
    assert forall|c: int| 0 <= c < world.components.len() implies crate::restore::remappable(
        remap,
        kinds,
        (#[trigger] world.components[c]).kind,
        world.components[c].value,
    ) by {
        crate::restore_laws::law_values_of_their_type_are_remappable(
            remap,
            kinds,
            of_type,
            world.components[c].kind,
            world.components[c].value,
        );
    }
    assert forall|kind: u64, bytes: Seq<u8>, value: V| #[trigger]
        crate::restore::decoded(
            decode,
            kind,
            bytes,
            Some(value),
        ) implies crate::restore::remappable(remap, kinds, kind, value) by {
        let held = choose|held: Vec<u8>|
            held@ == bytes && #[trigger] decode.ensures((kind, &held), Some(value));
        crate::restore_laws::law_values_of_their_type_are_remappable(
            remap,
            kinds,
            of_type,
            kind,
            value,
        );
    }
}

} // verus!
