//! What holds of restoring what was captured.

use crate::entity::EntityMap;
use crate::snapshot::SnapshotView;
use crate::world::{Component, EntityRow, RollbackFrameCount, RollbackId, WorldView};
use vstd::prelude::*;

verus! {

/// A type stands in `kinds` once at most.
pub open spec fn at_most_once(kinds: Seq<u64>, kind: u64) -> bool {
    forall|i: int, j: int|
        0 <= i < j < kinds.len() && #[trigger] kinds[i] == kind ==> #[trigger] kinds[j] != kind
}

/// Remapping leaves a component alone whose type is not registered for it,
/// and puts one through `remap` once whose type is registered once.
pub proof fn law_remapping_follows_registration<V, M: Fn(u64, &V, &EntityMap) -> V>(
    remap: M,
    map: EntityMap,
    kinds: Seq<u64>,
    kind: u64,
    before: V,
    after: V,
)
    requires
        crate::restore_lemmas::remapped(remap, map, kinds, kind, before, after),
    ensures
        !kinds.contains(kind) ==> after == before,
        kinds.contains(kind) && at_most_once(kinds, kind) ==> remap.ensures(
            (kind, &before, &map),
            after,
        ),
    decreases kinds.len(),
{
    if kinds.len() > 0 {
        let front = kinds.drop_last();
        let last = kinds.len() - 1;
        assert(kinds[last] == kinds.last());
        assert(front.contains(kind) ==> kinds.contains(kind));
        if at_most_once(kinds, kind) {
            assert forall|i: int, j: int|
                0 <= i < j < front.len() && #[trigger] front[i] == kind implies
                #[trigger] front[j] != kind by {
                assert(kinds[i] == front[i] && kinds[j] == front[j]);
            }
        }
        if kinds.contains(kind) && kinds.last() != kind {
            let i = choose|i: int| 0 <= i < kinds.len() && kinds[i] == kind;
            assert(front[i] == kind);
        }
        if kinds.last() == kind {
            let mid = choose|mid: V|
                crate::restore_lemmas::remapped(remap, map, front, kind, before, mid)
                    && #[trigger] remap.ensures((kind, &mid, &map), after);
            law_remapping_follows_registration(remap, map, front, kind, before, mid);
            if front.contains(kind) {
                let i = choose|i: int| 0 <= i < front.len() && front[i] == kind;
                assert(kinds[i] == kinds[last]);
            }
        } else {
            law_remapping_follows_registration(remap, map, front, kind, before, after);
        }
    }
}

/// A value can be remapped where its type is not registered for it, and where
/// it is of its type: `remap` takes values of a type that is registered for
/// remapping, and makes values of the type of them.
pub proof fn law_values_of_their_type_are_remappable<V, M: Fn(u64, &V, &EntityMap) -> V>(
    remap: M,
    kinds: Seq<u64>,
    of_type: spec_fn(u64, V) -> bool,
    kind: u64,
    value: V,
)
    requires
        forall|v: V, map: &EntityMap|
            kinds.contains(kind) && of_type(kind, v) ==> #[trigger] remap.requires((kind, &v, map)),
        forall|v: V, map: &EntityMap, w: V|
            kinds.contains(kind) && of_type(kind, v) && #[trigger] remap.ensures(
                (kind, &v, map),
                w,
            ) ==> of_type(kind, w),
        kinds.contains(kind) ==> of_type(kind, value),
    ensures
        crate::restore::remappable(remap, kinds, kind, value),
    decreases kinds.len(),
{
    if kinds.len() > 0 {
        let rest = kinds.drop_first();
        assert(rest.contains(kind) ==> kinds.contains(kind)) by {
            if rest.contains(kind) {
                let i = choose|i: int| 0 <= i < rest.len() && rest[i] == kind;
                assert(kinds[i + 1] == kind);
            }
        }
        if kinds[0] == kind {
            assert(kinds.contains(kind));
            assert forall|map: &EntityMap, next: V| #[trigger]
                remap.ensures((kind, &value, map), next) implies crate::restore::remappable(
                remap,
                rest,
                kind,
                next,
            ) by {
                law_values_of_their_type_are_remappable(remap, rest, of_type, kind, next);
            }
        } else {
            law_values_of_their_type_are_remappable(remap, rest, of_type, kind, value);
        }
    }
}

/// `after` is `before` with a captured world in it: its frame, its rollback
/// order, an entity for each captured one with the identifier that it had,
/// and on it the components of the registered types and no others, with
/// entity references remapped where the type asks for it.
pub open spec fn entities_back<V, M: Fn(u64, &V, &EntityMap) -> V>(
    remap: M,
    source: WorldView<V>,
    before: WorldView<V>,
    fresh: Seq<u64>,
    after: WorldView<V>,
) -> bool {
    let kinds = crate::capture::registered(source);
    let records = crate::world::identified(source.entities);
    &&& after.frame == Some(RollbackFrameCount(crate::capture::frame_of(source)))
    &&& after.ordered == Some(crate::capture::order_of(source))
    &&& after.entities == crate::restore::spawned(
        crate::world::unmarked(before.entities),
        records,
        fresh,
    )
    &&& forall|kind: u64, i: int|
        0 <= i < records.len() ==> crate::restore_lemmas::carried_over(
            remap,
            crate::restore::entity_mapping(records, fresh),
            kinds.remaps,
            kind,
            if kinds.components.contains(kind) {
                crate::world::component_of(source.components, kind, records[i].1)
            } else {
                None
            },
            #[trigger] crate::world::component_of(after.components, kind, fresh[i]),
        )
}

/// `after` are the resources of `before` with those of a captured world in
/// their place, as far as their types are registered.
pub open spec fn resources_back<V>(
    source: WorldView<V>,
    before: Map<u64, V>,
    after: Map<u64, V>,
) -> bool {
    forall|kind: u64|
        #![trigger after.contains_key(kind)]
        if crate::capture::registered(source).resources.contains(kind) {
            crate::restore_lemmas::same_resource(source.resources, kind, after)
        } else {
            crate::restore_lemmas::same_resource(before, kind, after)
        }
}

/// Restoring a captured world brings it back, where what it was captured with
/// is encoded losslessly.
pub proof fn law_restore_undoes_capture<
    V,
    E: Fn(u64, &V) -> Option<Vec<u8>>,
    D: Fn(u64, &Vec<u8>) -> Option<V>,
    M: Fn(u64, &V, &EntityMap) -> V,
>(
    encode: E,
    decode: D,
    remap: M,
    source: WorldView<V>,
    snapshot: SnapshotView,
    fresh: Seq<u64>,
    before: WorldView<V>,
    after: WorldView<V>,
)
    requires
        crate::capture_laws::captured_in_full(encode, source, snapshot),
        crate::capture_laws::faithful(encode, decode, source),
        crate::restore_lemmas::can_take(source, before, fresh),
        crate::restore::restored(snapshot, decode, remap, fresh, before, after),
    ensures
        entities_back(remap, source, before, fresh, after),
        resources_back(source, before.resources, after.resources),
{
    let kinds = crate::capture::registered(source);
    let records = crate::world::identified(source.entities);
    crate::sections::law_entity_section(records);
    crate::sections::law_ordered_section(crate::capture::order_of(source));
    crate::restore_lemmas::lemma_components_after(
        encode,
        decode,
        remap,
        source,
        snapshot,
        fresh,
        before,
        after,
    );
    crate::restore_lemmas::lemma_resources_restored(
        encode,
        decode,
        source,
        kinds.resources,
        snapshot.resource_sections,
        kinds.resources.len(),
        before.resources,
        after.resources,
    );
    assert(kinds.resources.take(kinds.resources.len() as int) =~= kinds.resources);
    assert forall|kind: u64|
        #![trigger after.resources.contains_key(kind)]
        if kinds.resources.contains(kind) {
            crate::restore_lemmas::same_resource(source.resources, kind, after.resources)
        } else {
            crate::restore_lemmas::same_resource(before.resources, kind, after.resources)
        } by {
        if kinds.resources.contains(kind) {
            let j = choose|j: int|
                0 <= j < kinds.resources.len() && kinds.resources[j] == kind;
            assert(crate::restore_lemmas::same_resource(
                source.resources,
                kinds.resources[j],
                after.resources,
            ));
        } else {
            assert(crate::restore_lemmas::same_resource(
                before.resources,
                kind,
                after.resources,
            ));
        }
    }
}

/// A late joiner who restores what was sent as bytes has the world of the
/// peer who sent them.
pub proof fn law_late_joiner_gets_the_world<
    V,
    E: Fn(u64, &V) -> Option<Vec<u8>>,
    D: Fn(u64, &Vec<u8>) -> Option<V>,
    M: Fn(u64, &V, &EntityMap) -> V,
>(
    encode: E,
    decode: D,
    remap: M,
    host: WorldView<V>,
    sent: SnapshotView,
    received: SnapshotView,
    fresh: Seq<u64>,
    before: WorldView<V>,
    after: WorldView<V>,
)
    requires
        crate::capture::captured(encode, host, sent),
        crate::snapshot_laws::fits(sent),
        crate::snapshot::take_snapshot(crate::snapshot::snapshot_bytes(sent)) matches Some(read)
            && read.0 == received,
        crate::capture_laws::faithful(encode, decode, host),
        crate::restore_lemmas::can_take(host, before, fresh),
        crate::restore::restored(received, decode, remap, fresh, before, after),
    ensures
        entities_back(remap, host, before, fresh, after),
        resources_back(host, before.resources, after.resources),
{
    crate::snapshot_laws::law_bytes_roundtrip(sent, Seq::empty());
    crate::capture_laws::law_fitting_snapshot_is_captured_in_full(encode, host, sent);
    law_restore_undoes_capture(encode, decode, remap, host, sent, fresh, before, after);
}

/// Restoring leaves alone what the snapshot does not speak of: entities without
/// the rollback marker stay, and so does each of their components for which no
/// section has the identifier of its entity. Remapping is the one thing that
/// reaches them, where their type asks for it. This is so of every snapshot,
/// wherever it comes from.
pub proof fn law_restore_leaves_others_alone<
    V,
    D: Fn(u64, &Vec<u8>) -> Option<V>,
    M: Fn(u64, &V, &EntityMap) -> V,
>(
    snapshot: SnapshotView,
    decode: D,
    remap: M,
    fresh: Seq<u64>,
    before: WorldView<V>,
    after: WorldView<V>,
    kind: u64,
    entity: u64,
)
    requires
        before.wf(),
        crate::restore::restored(snapshot, decode, remap, fresh, before, after),
        crate::world::contains_entity(crate::world::unmarked(before.entities), entity),
        !crate::restore::speaks_of(
            after.entities,
            crate::capture::registered(before).components,
            snapshot.component_sections,
            kind,
            entity,
        ),
    ensures
        crate::world::contains_entity(after.entities, entity),
        crate::restore_lemmas::carried_over(
            remap,
            crate::restore::entity_mapping(
                crate::sections::entity_records(snapshot.entity_data),
                fresh,
            ),
            crate::capture::registered(before).remaps,
            kind,
            crate::world::component_of(before.components, kind, entity),
            crate::world::component_of(after.components, kind, entity),
        ),
        !crate::capture::registered(before).remaps.contains(kind) ==> crate::world::component_of(
            after.components,
            kind,
            entity,
        ) == crate::world::component_of(before.components, kind, entity),
{
    let kinds = crate::capture::registered(before);
    let stay = crate::world::unmarked(before.entities);
    let records = crate::sections::entity_records(snapshot.entity_data);
    let mapping = crate::restore::entity_mapping(records, fresh);
    let was = crate::world::component_of(before.components, kind, entity);
    let is = crate::world::component_of(after.components, kind, entity);
    let laid = crate::restore_lemmas::lemma_components_carried(
        snapshot,
        decode,
        remap,
        fresh,
        before,
        after,
    );
    crate::restore_lemmas::lemma_components_on(before, kind, entity);
    crate::restore_lemmas::lemma_sections_untouched(
        decode,
        after.entities,
        kinds.components,
        snapshot.component_sections,
        crate::restore::paired(kinds.components, snapshot.component_sections),
        crate::world::components_on(stay, before.components),
        laid,
        kind,
        entity,
    );
    assert(crate::restore_lemmas::carried_over(remap, mapping, kinds.remaps, kind, was, is));
    if let (Some(v), Some(w)) = (was, is) {
        let map = choose|map: EntityMap| #[trigger]
            crate::restore_lemmas::remapped_by(remap, map, mapping, kinds.remaps, kind, v, w);
        law_remapping_follows_registration(remap, map, kinds.remaps, kind, v, w);
    }
    crate::world::lemma_contains_entity(stay, entity);
    crate::world::lemma_contains_entity(after.entities, entity);
    let at = choose|at: int| 0 <= at < stay.len() && (#[trigger] stay[at]).entity == entity;
    assert(after.entities[at] == stay[at]);
}

/// A section speaks only of entities that carry an identifier, and by it.
pub proof fn law_sections_speak_of_identified_entities(
    rows: Seq<EntityRow>,
    records: Seq<(RollbackId, Seq<u8>)>,
    entity: u64,
)
    requires
        crate::world::entities_distinct(rows),
        crate::restore::names(rows, records, entity),
    ensures
        crate::world::id_of(rows, entity) matches Some(id) && crate::restore_lemmas::has_part(
            records,
            id,
        ),
{
    let p = choose|p: int|
        0 <= p < records.len() && crate::world::entity_with(rows, (#[trigger] records[p]).0)
            == Some(entity);
    let ask = crate::world::has_id(records[p].0);
    crate::seqs::lemma_first_index(rows, ask);
    crate::restore_lemmas::lemma_id_found(rows, crate::seqs::first_index(rows, ask));
}

/// Which entities a mapping speaks of, and what it says of each.
proof fn lemma_entity_mapping(records: Seq<(RollbackId, u64)>, fresh: Seq<u64>)
    requires
        forall|i: int, j: int|
            0 <= i < j < records.len() ==> (#[trigger] records[i]).1 != (#[trigger] records[j]).1,
    ensures
        forall|i: int|
            0 <= i < records.len() ==> crate::entity::mapped(
                crate::restore::entity_mapping(records, fresh),
                (#[trigger] records[i]).1,
            ) == fresh[i],
        forall|i: int|
            0 <= i < records.len() ==> crate::restore::entity_mapping(
                records,
                fresh,
            ).contains_key((#[trigger] records[i]).1),
        crate::restore::entity_mapping(records, fresh).dom().finite(),
        crate::restore::entity_mapping(records, fresh).len() == records.len(),
        forall|e: u64| #[trigger]
            crate::restore::entity_mapping(records, fresh).contains_key(e) ==> exists|i: int|
                0 <= i < records.len() && (#[trigger] records[i]).1 == e,
    decreases records.len(),
{
    if records.len() > 0 {
        let front = records.drop_last();
        let last = records.len() - 1;
        lemma_entity_mapping(front, fresh);
        let map = crate::restore::entity_mapping(records, fresh);
        assert forall|i: int| 0 <= i < records.len() implies crate::entity::mapped(
            map,
            (#[trigger] records[i]).1,
        ) == fresh[i] by {
            if i < last {
                assert(front[i] == records[i]);
                assert(records[i].1 != records[last].1);
            }
        }
        assert forall|i: int| 0 <= i < records.len() implies map.contains_key(
            (#[trigger] records[i]).1,
        ) by {
            if i < last {
                assert(front[i] == records[i]);
            }
        }
        assert(!crate::restore::entity_mapping(front, fresh).contains_key(records[last].1)) by {
            if crate::restore::entity_mapping(front, fresh).contains_key(records[last].1) {
                let i = choose|i: int|
                    0 <= i < front.len() && (#[trigger] front[i]).1 == records[last].1;
                assert(records[i] == front[i]);
            }
        }
        assert forall|e: u64| #[trigger] map.contains_key(e) implies exists|i: int|
            0 <= i < records.len() && (#[trigger] records[i]).1 == e by {
            if e == records[last].1 {
                assert(records[last].1 == e);
            } else {
                assert(crate::restore::entity_mapping(front, fresh).contains_key(e));
                let i = choose|i: int| 0 <= i < front.len() && (#[trigger] front[i]).1 == e;
                assert(records[i].1 == e);
            }
        }
    }
}

/// No entity is captured twice.
proof fn lemma_entities_apart(rows: Seq<EntityRow>)
    requires
        crate::world::entities_distinct(rows),
    ensures
        forall|i: int, j: int|
            0 <= i < j < crate::world::identified(rows).len() ==> (
            #[trigger] crate::world::identified(rows)[i]).1 != (
            #[trigger] crate::world::identified(rows)[j]).1,
{
    let keep = |row: EntityRow| row.id is Some;
    let pair = |row: EntityRow| (row.id->0, row.entity);
    let apart = |a: EntityRow, b: EntityRow| a.entity != b.entity;
    let kept = rows.filter(keep);
    let records = crate::world::identified(rows);
    assert(records == kept.map_values(pair));
    crate::seqs::lemma_filter_pairs(rows, keep, apart);
    assert forall|i: int, j: int| 0 <= i < j < records.len() implies (#[trigger] records[i]).1 != (
    #[trigger] records[j]).1 by {
        assert(apart(kept[i], kept[j]));
        assert(records[i] == pair(kept[i]) && records[j] == pair(kept[j]));
    }
}

/// The entity at `i` in a list of fresh ones is spawned for a captured entity.
spec fn spawned_for(source: Seq<EntityRow>, fresh: Seq<u64>, entity: u64, i: int) -> bool {
    let records = crate::world::identified(source);
    &&& 0 <= i < records.len()
    &&& records[i].1 == entity
    &&& crate::world::id_of(source, entity) == Some(records[i].0)
    &&& crate::restore::entity_mapping(records, fresh)[entity] == fresh[i]
}

/// A reference to a captured entity leads to the entity that was spawned for
/// it; a reference to any other is left as it is.
pub proof fn law_references_follow_entities(rows: Seq<EntityRow>, fresh: Seq<u64>)
    requires
        crate::world::entities_distinct(rows),
    ensures
        forall|i: int|
            0 <= i < crate::world::identified(rows).len() ==> crate::entity::mapped(
                crate::restore::entity_mapping(crate::world::identified(rows), fresh),
                (#[trigger] crate::world::identified(rows)[i]).1,
            ) == fresh[i],
        forall|e: u64|
            crate::world::id_of(rows, e) is None ==> #[trigger] crate::entity::mapped(
                crate::restore::entity_mapping(crate::world::identified(rows), fresh),
                e,
            ) == e,
{
    let records = crate::world::identified(rows);
    lemma_entities_apart(rows);
    lemma_entity_mapping(records, fresh);
    crate::restore_lemmas::lemma_identified(rows);
    assert forall|e: u64| crate::world::id_of(rows, e) is None implies
        #[trigger] crate::entity::mapped(
        crate::restore::entity_mapping(records, fresh),
        e,
    ) == e by {
        if crate::restore::entity_mapping(records, fresh).contains_key(e) {
            let i = choose|i: int| 0 <= i < records.len() && (#[trigger] records[i]).1 == e;
            assert(crate::restore_lemmas::has_row(rows, records[i]));
            let at = choose|at: int|
                0 <= at < rows.len() && (#[trigger] rows[at]).id == Some(records[i].0)
                    && rows[at].entity == records[i].1;
            crate::restore_lemmas::lemma_id_found(rows, at);
        }
    }
}

/// The entities that are spawned for a captured world: the map from captured
/// entities to spawned ones has just the captured entities as its keys, and
/// leads each to one of its own. That one was not in the world, is now, and
/// carries the rollback marker and the identifier that the captured one has.
/// Nothing else is spawned, and the entities from before stay in their places.
pub proof fn law_captured_entities_are_spawned(
    source: Seq<EntityRow>,
    data: Seq<u8>,
    fresh: Seq<u64>,
    rows: Seq<EntityRow>,
)
    requires
        crate::world::entities_distinct(source),
        crate::world::identified(source).len() < crate::wire::U32_RANGE,
        data == crate::sections::entity_section(crate::world::identified(source)),
        crate::world::entities_distinct(rows),
        crate::restore::fresh_for(rows, crate::sections::entity_records(data).len(), fresh),
    ensures
        ({
            let records = crate::sections::entity_records(data);
            let map = crate::restore::entity_mapping(records, fresh);
            let after = crate::restore::spawned(rows, records, fresh);
            &&& forall|e: u64| #[trigger]
                map.contains_key(e) <==> crate::world::id_of(source, e) is Some
            &&& map.is_injective()
            &&& forall|e: u64| #[trigger]
                map.contains_key(e) ==> {
                    &&& !crate::world::contains_entity(rows, map[e])
                    &&& after.contains(
                        EntityRow {
                            entity: map[e],
                            rollback: true,
                            id: crate::world::id_of(source, e),
                        },
                    )
                }
            &&& map.len() == records.len()
            &&& after.len() == rows.len() + records.len()
            &&& after.take(rows.len() as int) == rows
        }),
{
    let records = crate::world::identified(source);
    crate::sections::law_entity_section(records);
    let map = crate::restore::entity_mapping(records, fresh);
    let after = crate::restore::spawned(rows, records, fresh);
    law_references_follow_entities(source, fresh);
    lemma_entities_apart(source);
    lemma_entity_mapping(records, fresh);
    crate::restore_lemmas::lemma_identified(source);
    assert forall|e: u64| #[trigger] map.contains_key(e) implies crate::world::id_of(source, e)
        is Some && exists|i: int| spawned_for(source, fresh, e, i) by {
        let i = choose|i: int| 0 <= i < records.len() && (#[trigger] records[i]).1 == e;
        assert(crate::restore_lemmas::has_row(source, records[i]));
        let at = choose|at: int|
            0 <= at < source.len() && (#[trigger] source[at]).id == Some(records[i].0)
                && source[at].entity == records[i].1;
        crate::restore_lemmas::lemma_id_found(source, at);
        assert(spawned_for(source, fresh, e, i));
    }
    assert forall|e: u64| crate::world::id_of(source, e) is Some implies
        #[trigger] map.contains_key(e) by {
        let ask = crate::world::is_entity(e);
        let at = crate::seqs::first_index(source, ask);
        crate::seqs::lemma_first_index(source, ask);
        assert(ask(source[at]));
        assert(records.contains((source[at].id->0, source[at].entity)));
        let i = choose|i: int|
            0 <= i < records.len() && records[i] == (source[at].id->0, source[at].entity);
        assert(map.contains_key(records[i].1));
    }
    assert forall|a: u64, b: u64|
        a != b && map.contains_key(a) && map.contains_key(b) implies #[trigger] map[a]
        != #[trigger] map[b] by {
        let i = choose|i: int| spawned_for(source, fresh, a, i);
        let j = choose|j: int| spawned_for(source, fresh, b, j);
        assert(i != j);
        assert(i < j ==> fresh[i] != fresh[j]);
        assert(j < i ==> fresh[j] != fresh[i]);
    }
    assert forall|e: u64| #[trigger] map.contains_key(e) implies !crate::world::contains_entity(
        rows,
        map[e],
    ) && after.contains(
        EntityRow { entity: map[e], rollback: true, id: crate::world::id_of(source, e) },
    ) by {
        let i = choose|i: int| spawned_for(source, fresh, e, i);
        assert(!crate::world::contains_entity(rows, fresh[i]));
        assert(after[rows.len() + i] == (EntityRow {
            entity: map[e],
            rollback: true,
            id: crate::world::id_of(source, e),
        }));
    }
    assert(after.take(rows.len() as int) =~= rows);
}

/// An entity section that is cut off in its count has no entities: nothing is
/// spawned, and the map is empty.
pub proof fn law_cut_entity_section_spawns_nothing(
    data: Seq<u8>,
    fresh: Seq<u64>,
    rows: Seq<EntityRow>,
)
    requires
        data.len() < 4,
    ensures
        crate::restore::entity_mapping(crate::sections::entity_records(data), fresh) == Map::<
            u64,
            u64,
        >::empty(),
        crate::restore::spawned(rows, crate::sections::entity_records(data), fresh) == rows,
{
    assert(crate::restore::spawned(rows, crate::sections::entity_records(data), fresh) =~= rows);
}

/// A restore puts the snapshot's order in the place of whatever order there
/// was: the captured one, none where the section is cut off in its count, and
/// the complete identifiers where it is cut off behind that.
pub proof fn law_restore_replaces_the_order<
    V,
    D: Fn(u64, &Vec<u8>) -> Option<V>,
    M: Fn(u64, &V, &EntityMap) -> V,
>(
    snapshot: SnapshotView,
    decode: D,
    remap: M,
    fresh: Seq<u64>,
    before: WorldView<V>,
    after: WorldView<V>,
    count: u32,
    ids: Seq<RollbackId>,
    rest: Seq<u8>,
)
    requires
        crate::restore::restored(snapshot, decode, remap, fresh, before, after),
    ensures
        ids.len() < crate::wire::U32_RANGE && snapshot.ordered_data
            == crate::sections::ordered_section(ids) ==> after.ordered == Some(ids),
        snapshot.ordered_data.len() < 4 ==> after.ordered == Some(Seq::<RollbackId>::empty()),
        ids.len() <= count && rest.len() < 8 && snapshot.ordered_data == crate::wire::u32_bytes(
            count as int,
        ) + crate::wire::join(ids, crate::sections::id_encoder()) + rest ==> after.ordered == Some(
            ids,
        ),
{
    if ids.len() < crate::wire::U32_RANGE {
        crate::sections::law_ordered_section(ids);
    }
    crate::sections::law_cut_order_is_read_as_far_as_it_goes(
        snapshot.ordered_data,
        count,
        ids,
        rest,
    );
}

/// After a restore the entities that carry the rollback marker are those that
/// were spawned, one for each record of the snapshot.
pub proof fn law_restore_replaces_marked_entities<
    V,
    D: Fn(u64, &Vec<u8>) -> Option<V>,
    M: Fn(u64, &V, &EntityMap) -> V,
>(
    snapshot: SnapshotView,
    decode: D,
    remap: M,
    fresh: Seq<u64>,
    before: WorldView<V>,
    after: WorldView<V>,
)
    requires
        crate::restore::restored(snapshot, decode, remap, fresh, before, after),
    ensures
        after.entities.filter(|row: EntityRow| row.rollback) == crate::restore::spawned(
            Seq::empty(),
            crate::sections::entity_records(snapshot.entity_data),
            fresh,
        ),
        crate::world::unmarked(after.entities) == crate::world::unmarked(before.entities),
{
    let marked = |row: EntityRow| row.rollback;
    let plain = |row: EntityRow| !row.rollback;
    let stay = crate::world::unmarked(before.entities);
    let records = crate::sections::entity_records(snapshot.entity_data);
    let new = crate::restore::spawned(Seq::empty(), records, fresh);
    assert(after.entities =~= stay + new);
    crate::seqs::lemma_filter_members(before.entities, plain);
    crate::seqs::lemma_filter_none(stay, marked);
    crate::seqs::lemma_filter_all(stay, plain);
    crate::seqs::lemma_filter_all(new, marked);
    crate::seqs::lemma_filter_none(new, plain);
    Seq::filter_distributes_over_add(stay, new, marked);
    Seq::filter_distributes_over_add(stay, new, plain);
}

/// After a restore the identifiers in a world are those of the captured one,
/// on the spawned entities and on no others, where only entities with the
/// rollback marker carried any.
pub proof fn law_restore_gives_exact_ids<
    V,
    E: Fn(u64, &V) -> Option<Vec<u8>>,
    D: Fn(u64, &Vec<u8>) -> Option<V>,
    M: Fn(u64, &V, &EntityMap) -> V,
>(
    encode: E,
    decode: D,
    remap: M,
    source: WorldView<V>,
    snapshot: SnapshotView,
    fresh: Seq<u64>,
    before: WorldView<V>,
    after: WorldView<V>,
)
    requires
        crate::capture::captured(encode, source, snapshot),
        crate::world::identified(source.entities).len() < crate::wire::U32_RANGE,
        crate::restore_lemmas::ids_marked(before.entities),
        crate::restore::restored(snapshot, decode, remap, fresh, before, after),
    ensures
        crate::restore_lemmas::ids_marked(after.entities),
        crate::world::identified(after.entities) == Seq::new(
            crate::world::identified(source.entities).len(),
            |i: int| (crate::world::identified(source.entities)[i].0, fresh[i]),
        ),
        crate::world::identified(after.entities).map_values(
            |record: (RollbackId, u64)| record.0,
        ).to_multiset() == crate::world::identified(source.entities).map_values(
            |record: (RollbackId, u64)| record.0,
        ).to_multiset(),
{
    let keep = |row: EntityRow| row.id is Some;
    let plain = |row: EntityRow| !row.rollback;
    let pair = |row: EntityRow| (row.id->0, row.entity);
    let id = |record: (RollbackId, u64)| record.0;
    let records = crate::world::identified(source.entities);
    crate::sections::law_entity_section(records);
    let stay = crate::world::unmarked(before.entities);
    let new = crate::restore::spawned(Seq::empty(), records, fresh);
    assert(after.entities =~= stay + new);
    crate::seqs::lemma_filter_members(before.entities, plain);
    assert forall|i: int| 0 <= i < stay.len() implies !keep(#[trigger] stay[i]) by {
        assert(before.entities.contains(stay[i]));
        let at = choose|at: int|
            0 <= at < before.entities.len() && before.entities[at] == stay[i];
        assert(before.entities[at].id is Some ==> before.entities[at].rollback);
    }
    crate::seqs::lemma_filter_none(stay, keep);
    crate::seqs::lemma_filter_all(new, keep);
    Seq::filter_distributes_over_add(stay, new, keep);
    assert(after.entities.filter(keep) =~= new);
    let renamed = Seq::new(records.len(), |i: int| (records[i].0, fresh[i]));
    assert(crate::world::identified(after.entities) =~= renamed);
    assert(renamed.map_values(id) =~= records.map_values(id));
    assert forall|i: int| 0 <= i < after.entities.len() && (#[trigger] after.entities[i]).id is Some
        implies after.entities[i].rollback by {
        if i < stay.len() {
            assert(!keep(stay[i]));
        }
    }
}

/// Two captures that are of the same value are the same bytes.
proof fn lemma_same_resource_section<V, E: Fn(u64, &V) -> Option<Vec<u8>>>(
    encode: E,
    a: WorldView<V>,
    b: WorldView<V>,
    kind: u64,
    section_a: Seq<u8>,
    section_b: Seq<u8>,
)
    requires
        crate::capture_laws::resource_repeatable(encode, a, kind),
        crate::restore_lemmas::same_resource(a.resources, kind, b.resources),
        crate::capture::resource_captured(encode, a, kind, section_a),
        crate::capture::resource_captured(encode, b, kind, section_b),
    ensures
        section_a == section_b,
{
    if a.resources.contains_key(kind) {
        let value = a.resources[kind];
        let made_a = choose|made: Option<Seq<u8>>| #[trigger]
            crate::capture::encoded(encode, kind, value, made) && section_a
                == crate::sections::resource_section(made);
        let made_b = choose|made: Option<Seq<u8>>| #[trigger]
            crate::capture::encoded(encode, kind, value, made) && section_b
                == crate::sections::resource_section(made);
        assert(made_a == made_b);
    }
}

/// Of a type that is not remapped, a restored world has on each identifier the
/// component that the captured world has on it.
proof fn lemma_components_by_id<V, M: Fn(u64, &V, &EntityMap) -> V>(
    remap: M,
    source: WorldView<V>,
    before: WorldView<V>,
    fresh: Seq<u64>,
    after: WorldView<V>,
    kind: u64,
    id: RollbackId,
)
    requires
        crate::restore_lemmas::can_take(source, before, fresh),
        crate::restore_lemmas::ids_marked(before.entities),
        entities_back(remap, source, before, fresh, after),
        crate::capture::registered(source).components.contains(kind),
        !crate::capture::registered(source).remaps.contains(kind),
    ensures
        crate::restore_lemmas::component_with_id(after, kind, id)
            == crate::restore_lemmas::component_with_id(source, kind, id),
{
    let records = crate::world::identified(source.entities);
    let kinds = crate::capture::registered(source);
    let stay = crate::world::unmarked(before.entities);
    crate::restore_lemmas::lemma_found_by_id(source.entities);
    if crate::restore_lemmas::has_record(records, id) {
        let i = choose|i: int| 0 <= i < records.len() && (#[trigger] records[i]).0 == id;
        crate::restore_lemmas::lemma_spawned_found(stay, source.entities, fresh, i);
        let was = crate::world::component_of(source.components, kind, records[i].1);
        let is = crate::world::component_of(after.components, kind, fresh[i]);
        let mapping = crate::restore::entity_mapping(records, fresh);
        assert(crate::restore_lemmas::carried_over(remap, mapping, kinds.remaps, kind, was, is));
        if let (Some(v), Some(w)) = (was, is) {
            let map = choose|map: EntityMap| #[trigger]
                crate::restore_lemmas::remapped_by(remap, map, mapping, kinds.remaps, kind, v, w);
            law_remapping_follows_registration(remap, map, kinds.remaps, kind, v, w);
        }
    } else {
        let ask = crate::world::has_id(id);
        let rows = after.entities;
        crate::seqs::lemma_filter_members(before.entities, |row: EntityRow| !row.rollback);
        assert forall|j: int| 0 <= j < rows.len() implies !ask(#[trigger] rows[j]) by {
            if j < stay.len() {
                assert(rows[j] == stay[j]);
                assert(before.entities.contains(stay[j]));
                let at = choose|at: int|
                    0 <= at < before.entities.len() && before.entities[at] == stay[j];
                assert(before.entities[at].id is Some ==> before.entities[at].rollback);
            } else {
                assert(records[j - stay.len()].0 != id);
            }
        }
        crate::seqs::lemma_is_first_index(rows, ask, rows.len() as int);
    }
}

/// Capturing a restored world again gives the same frame, the same order, as
/// many entities, the same resources, and on each identifier the same
/// components of the registered types that are not remapped. This is so where
/// only entities with the rollback marker carry identifiers.
pub proof fn law_capture_after_restore_is_the_same<
    V,
    E: Fn(u64, &V) -> Option<Vec<u8>>,
    D: Fn(u64, &Vec<u8>) -> Option<V>,
    M: Fn(u64, &V, &EntityMap) -> V,
>(
    encode: E,
    decode: D,
    remap: M,
    source: WorldView<V>,
    snapshot: SnapshotView,
    fresh: Seq<u64>,
    before: WorldView<V>,
    after: WorldView<V>,
    again: SnapshotView,
)
    requires
        crate::capture_laws::captured_in_full(encode, source, snapshot),
        crate::capture_laws::faithful(encode, decode, source),
        forall|i: int|
            0 <= i < crate::capture::registered(source).resources.len()
                ==> crate::capture_laws::resource_repeatable(
                encode,
                source,
                #[trigger] crate::capture::registered(source).resources[i],
            ),
        crate::restore_lemmas::can_take(source, before, fresh),
        crate::restore_lemmas::ids_marked(before.entities),
        crate::restore::restored(snapshot, decode, remap, fresh, before, after),
        crate::capture::captured(encode, after, again),
    ensures
        again.frame == snapshot.frame,
        again.ordered_data == snapshot.ordered_data,
        crate::wire::take_u32(again.entity_data) matches Some((n, _)) && (crate::wire::take_u32(
            snapshot.entity_data,
        ) matches Some((m, _)) && n == m),
        again.resource_sections == snapshot.resource_sections,
        forall|kind: u64, id: RollbackId|
            crate::capture::registered(source).components.contains(kind)
                && !crate::capture::registered(source).remaps.contains(kind)
                ==> #[trigger] crate::restore_lemmas::component_with_id(after, kind, id)
                == crate::restore_lemmas::component_with_id(source, kind, id),
{
    let kinds = crate::capture::registered(source);
    let records = crate::world::identified(source.entities);
    law_restore_undoes_capture(encode, decode, remap, source, snapshot, fresh, before, after);
    law_restore_gives_exact_ids(encode, decode, remap, source, snapshot, fresh, before, after);
    crate::sections::law_entity_section(records);
    crate::capture_laws::law_entity_count(encode, source, snapshot);
    crate::capture_laws::law_entity_count(encode, after, again);
    assert forall|i: int| 0 <= i < kinds.resources.len() implies again.resource_sections[i]
        == snapshot.resource_sections[i] by {
        let kind = kinds.resources[i];
        assert(kinds.resources.contains(kind));
        let held = after.resources.contains_key(kind);
        lemma_same_resource_section(
            encode,
            source,
            after,
            kind,
            snapshot.resource_sections[i],
            again.resource_sections[i],
        );
    }
    assert(again.resource_sections =~= snapshot.resource_sections);
    assert forall|kind: u64, id: RollbackId|
        kinds.components.contains(kind) && !kinds.remaps.contains(kind) implies
        #[trigger] crate::restore_lemmas::component_with_id(after, kind, id)
        == crate::restore_lemmas::component_with_id(source, kind, id) by {
        lemma_components_by_id(remap, source, before, fresh, after, kind, id);
    }
}

/// What a world comes back into matters only by the entities that stay in it.
proof fn lemma_entities_back_to<V, M: Fn(u64, &V, &EntityMap) -> V>(
    remap: M,
    source: WorldView<V>,
    before: WorldView<V>,
    other: WorldView<V>,
    fresh: Seq<u64>,
    after: WorldView<V>,
)
    requires
        crate::world::unmarked(before.entities) == crate::world::unmarked(other.entities),
        entities_back(remap, source, before, fresh, after),
    ensures
        entities_back(remap, source, other, fresh, after),
{
}

/// Resources that are back are the same when they are brought back again.
proof fn lemma_same_resources<V>(
    source: WorldView<V>,
    before: Map<u64, V>,
    once: Map<u64, V>,
    twice: Map<u64, V>,
    kind: u64,
)
    requires
        resources_back(source, before, once),
        resources_back(source, once, twice),
    ensures
        crate::restore_lemmas::same_resource(once, kind, twice),
{
    let seen = once.contains_key(kind);
    let still = twice.contains_key(kind);
}

/// Restoring a snapshot once more changes nothing but which entities are
/// spawned for it.
pub proof fn law_restoring_again_changes_nothing<
    V,
    E: Fn(u64, &V) -> Option<Vec<u8>>,
    D: Fn(u64, &Vec<u8>) -> Option<V>,
    M: Fn(u64, &V, &EntityMap) -> V,
>(
    encode: E,
    decode: D,
    remap: M,
    source: WorldView<V>,
    snapshot: SnapshotView,
    fresh: Seq<u64>,
    before: WorldView<V>,
    once: WorldView<V>,
    fresher: Seq<u64>,
    twice: WorldView<V>,
)
    requires
        crate::capture_laws::captured_in_full(encode, source, snapshot),
        crate::capture_laws::faithful(encode, decode, source),
        crate::restore_lemmas::can_take(source, before, fresh),
        crate::restore::restored(snapshot, decode, remap, fresh, before, once),
        once.wf(),
        crate::restore::fresh_for(
            crate::world::unmarked(once.entities),
            crate::world::identified(source.entities).len(),
            fresher,
        ),
        crate::restore::restored(snapshot, decode, remap, fresher, once, twice),
    ensures
        entities_back(remap, source, before, fresh, once),
        entities_back(remap, source, before, fresher, twice),
        forall|kind: u64| #[trigger]
            crate::restore_lemmas::same_resource(once.resources, kind, twice.resources),
{
    assert(crate::world::unmarked(once.entities) == crate::world::unmarked(before.entities)) by {
        law_restore_replaces_marked_entities(snapshot, decode, remap, fresh, before, once);
    }
    assert(once.registry == before.registry);
    assert(entities_back(remap, source, before, fresh, once) && resources_back(
        source,
        before.resources,
        once.resources,
    )) by {
        law_restore_undoes_capture(encode, decode, remap, source, snapshot, fresh, before, once);
    }
    assert(entities_back(remap, source, once, fresher, twice) && resources_back(
        source,
        once.resources,
        twice.resources,
    )) by {
        law_restore_undoes_capture(encode, decode, remap, source, snapshot, fresher, once, twice);
    }
    lemma_entities_back_to(remap, source, once, before, fresher, twice);
    assert forall|kind: u64| #[trigger]
        crate::restore_lemmas::same_resource(once.resources, kind, twice.resources) by {
        lemma_same_resources(source, before.resources, once.resources, twice.resources, kind);
    }
}

/// Some map leads references in a component of a type from captured entities
/// to those that carry their identifiers now, leaves other references as they
/// are, and makes `now` of `was`.
pub open spec fn follows_references<V, M: Fn(u64, &V, &EntityMap) -> V>(
    remap: M,
    map: EntityMap,
    source: WorldView<V>,
    after: WorldView<V>,
    kind: u64,
    was: V,
    now: V,
) -> bool {
    &&& remap.ensures((kind, &was, &map), now)
    &&& forall|i: int|
        0 <= i < crate::world::identified(source.entities).len() ==> Some(
            crate::entity::mapped(
                map@,
                (#[trigger] crate::world::identified(source.entities)[i]).1,
            ),
        ) == crate::world::entity_with(
            after.entities,
            crate::world::identified(source.entities)[i].0,
        )
    &&& forall|e: u64|
        crate::world::id_of(source.entities, e) is None ==> #[trigger] crate::entity::mapped(
            map@,
            e,
        ) == e
}

/// Of a type that is registered for remapping, a restored component refers to
/// the entities that carry the identifiers of those it referred to, and to any
/// other entity as before.
pub proof fn law_restored_references_lead_to_restored_entities<
    V,
    E: Fn(u64, &V) -> Option<Vec<u8>>,
    D: Fn(u64, &Vec<u8>) -> Option<V>,
    M: Fn(u64, &V, &EntityMap) -> V,
>(
    encode: E,
    decode: D,
    remap: M,
    source: WorldView<V>,
    snapshot: SnapshotView,
    fresh: Seq<u64>,
    before: WorldView<V>,
    after: WorldView<V>,
    kind: u64,
    i: int,
    was: V,
)
    requires
        crate::capture_laws::captured_in_full(encode, source, snapshot),
        crate::capture_laws::faithful(encode, decode, source),
        crate::restore_lemmas::can_take(source, before, fresh),
        crate::restore::restored(snapshot, decode, remap, fresh, before, after),
        crate::capture::registered(source).components.contains(kind),
        crate::capture::registered(source).remaps.contains(kind),
        at_most_once(crate::capture::registered(source).remaps, kind),
        0 <= i < crate::world::identified(source.entities).len(),
        crate::world::component_of(
            source.components,
            kind,
            crate::world::identified(source.entities)[i].1,
        ) == Some(was),
    ensures
        exists|map: EntityMap, now: V| #[trigger]
            follows_references(remap, map, source, after, kind, was, now)
                && crate::restore_lemmas::component_with_id(
                after,
                kind,
                crate::world::identified(source.entities)[i].0,
            ) == Some(now),
{
    let kinds = crate::capture::registered(source);
    let records = crate::world::identified(source.entities);
    let stay = crate::world::unmarked(before.entities);
    let mapping = crate::restore::entity_mapping(records, fresh);
    law_restore_undoes_capture(encode, decode, remap, source, snapshot, fresh, before, after);
    law_references_follow_entities(source.entities, fresh);
    assert forall|j: int| 0 <= j < records.len() implies crate::world::entity_with(
        after.entities,
        (#[trigger] records[j]).0,
    ) == Some(fresh[j]) by {
        crate::restore_lemmas::lemma_spawned_found(stay, source.entities, fresh, j);
    }
    let is = crate::world::component_of(after.components, kind, fresh[i]);
    assert(crate::restore_lemmas::carried_over(
        remap,
        mapping,
        kinds.remaps,
        kind,
        Some(was),
        is,
    ));
    let now = is->0;
    let map = choose|map: EntityMap| #[trigger]
        crate::restore_lemmas::remapped_by(remap, map, mapping, kinds.remaps, kind, was, now);
    law_remapping_follows_registration(remap, map, kinds.remaps, kind, was, now);
    assert(crate::world::entity_with(after.entities, records[i].0) == Some(fresh[i]));
    assert(follows_references(remap, map, source, after, kind, was, now));
}

/// The components of one type, captured in one world and restored in another:
/// the entity that carries an identifier ends with the component that the
/// identifier's entity had when it was captured, and keeps what it has where
/// there was none. Nothing else changes.
pub proof fn law_component_section_is_restored<
    V,
    E: Fn(u64, &V) -> Option<Vec<u8>>,
    D: Fn(u64, &Vec<u8>) -> Option<V>,
>(
    encode: E,
    decode: D,
    source: WorldView<V>,
    kind: u64,
    section: Seq<u8>,
    target: WorldView<V>,
    after: Seq<Component<V>>,
)
    requires
        crate::capture_laws::components_lossless(encode, decode, source, kind),
        source.wf(),
        target.wf(),
        crate::restore_lemmas::ids_distinct(source.entities),
        crate::restore_lemmas::ids_distinct(target.entities),
        crate::capture_laws::component_in_full(encode, source, kind, section),
        crate::restore::component_restored(
            decode,
            target.entities,
            kind,
            crate::sections::component_records(section),
            target.components,
            after,
        ),
    ensures
        forall|i: int|
            0 <= i < crate::world::identified(target.entities).len()
                ==> #[trigger] crate::world::component_of(
                after,
                kind,
                crate::world::identified(target.entities)[i].1,
            ) == (match crate::restore_lemmas::component_with_id(
                source,
                kind,
                crate::world::identified(target.entities)[i].0,
            ) {
                Some(value) => Some(value),
                None => crate::world::component_of(
                    target.components,
                    kind,
                    crate::world::identified(target.entities)[i].1,
                ),
            }),
        forall|k: u64, e: u64|
            k != kind || crate::world::id_of(target.entities, e) is None ==> (
            #[trigger] crate::world::component_of(after, k, e)) == crate::world::component_of(
                target.components,
                k,
                e,
            ),
{
    let rows = target.entities;
    let found = crate::world::identified_components(source.entities, source.components, kind);
    let records = crate::world::identified(source.entities);
    let carriers = crate::world::identified(rows);
    let parts = crate::capture_laws::lemma_parts_of(encode, source, kind, section);
    assert(parts.take(parts.len() as int) =~= parts);
    crate::restore_lemmas::lemma_section_restored(
        encode,
        decode,
        source,
        rows,
        kind,
        parts,
        parts.len(),
        target.components,
        after,
    );
    crate::restore_lemmas::lemma_identified_components(source, kind);
    crate::restore_lemmas::lemma_found_by_id(source.entities);
    crate::restore_lemmas::lemma_found_by_id(rows);
    assert forall|i: int| 0 <= i < carriers.len() implies
        #[trigger] crate::world::component_of(after, kind, carriers[i].1) == (
    match crate::restore_lemmas::component_with_id(source, kind, carriers[i].0) {
        Some(value) => Some(value),
        None => crate::world::component_of(target.components, kind, carriers[i].1),
    }) by {
        let (id, e) = carriers[i];
        assert(crate::world::entity_with(rows, id) == Some(e));
        let held = crate::restore_lemmas::component_with_id(source, kind, id);
        if held is Some {
            assert(crate::restore_lemmas::has_record(records, id));
            let j = choose|j: int| 0 <= j < records.len() && (#[trigger] records[j]).0 == id;
            assert(crate::restore_lemmas::has_part(found, records[j].0));
            let p = choose|p: int| 0 <= p < found.len() && (#[trigger] found[p]).0 == id;
            assert(parts[p].0 == id);
            assert(crate::world::component_of(after, kind, e) == Some(found[p].1));
        } else {
            if crate::restore::names(rows, parts, e) {
                let p = choose|p: int|
                    0 <= p < parts.len() && crate::world::entity_with(
                        rows,
                        (#[trigger] parts[p]).0,
                    ) == Some(e);
                crate::restore_lemmas::lemma_one_id(rows, parts[p].0, id);
                assert(found[p].0 == id);
                assert(crate::restore_lemmas::has_record(records, found[p].0));
                let j = choose|j: int| 0 <= j < records.len() && (#[trigger] records[j]).0 == id;
            }
            crate::restore_lemmas::lemma_section_untouched(
                decode,
                rows,
                kind,
                parts,
                target.components,
                after,
                kind,
                e,
            );
        }
    }
    assert forall|k: u64, e: u64|
        k != kind || crate::world::id_of(rows, e) is None implies (
    #[trigger] crate::world::component_of(after, k, e)) == crate::world::component_of(
        target.components,
        k,
        e,
    ) by {
        if k == kind && crate::restore::names(rows, parts, e) {
            law_sections_speak_of_identified_entities(rows, parts, e);
        }
        crate::restore_lemmas::lemma_section_untouched(
            decode,
            rows,
            kind,
            parts,
            target.components,
            after,
            k,
            e,
        );
    }
}

/// The resource of one type, captured in one world and restored in another: it
/// is there exactly when it was captured, with the value that it had, also
/// where that encodes to no bytes. No other resource changes.
pub proof fn law_resource_section_is_restored<
    V,
    E: Fn(u64, &V) -> Option<Vec<u8>>,
    D: Fn(u64, &Vec<u8>) -> Option<V>,
>(
    encode: E,
    decode: D,
    source: WorldView<V>,
    kind: u64,
    section: Seq<u8>,
    before: Map<u64, V>,
    after: Map<u64, V>,
)
    requires
        crate::capture_laws::resource_lossless(encode, decode, source, kind),
        crate::capture_laws::resource_in_full(encode, source, kind, section),
        crate::restore::resource_restored(decode, kind, section, before, after),
    ensures
        crate::restore_lemmas::same_resource(source.resources, kind, after),
        forall|other: u64|
            other != kind ==> #[trigger] crate::restore_lemmas::same_resource(
                before,
                other,
                after,
            ),
{
    crate::restore_lemmas::lemma_resource_restored(
        encode,
        decode,
        source,
        kind,
        section,
        before,
        after,
    );
}

} // verus!
