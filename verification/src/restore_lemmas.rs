//! Step by step, what restoring makes of what was captured.

use crate::entity::EntityMap;
use crate::snapshot::SnapshotView;
use crate::world::{Component, EntityRow, RollbackId, WorldView};
use vstd::prelude::*;

verus! {

/// Putting a component on an entity is seen there and nowhere else.
pub proof fn lemma_with_component<V>(
    components: Seq<Component<V>>,
    kind: u64,
    entity: u64,
    value: V,
    k: u64,
    e: u64,
)
    ensures
        crate::world::component_of(
            crate::world::with_component(components, kind, entity, value),
            k,
            e,
        ) == (if k == kind && e == entity {
            Some(value)
        } else {
            crate::world::component_of(components, k, e)
        }),
{
    let put = crate::world::is_component::<V>(kind, entity);
    let ask = crate::world::is_component::<V>(k, e);
    let after = crate::world::with_component(components, kind, entity, value);
    let at = crate::seqs::first_index(components, put);
    let found = crate::seqs::first_index(components, ask);
    crate::seqs::lemma_first_index(components, put);
    crate::seqs::lemma_first_index(components, ask);
    assert(after[at] == (Component { kind, entity, value }));
    if k == kind && e == entity {
        assert forall|i: int| 0 <= i < at implies !ask(#[trigger] after[i]) by {
            assert(!put(components[i]));
        }
        crate::seqs::lemma_is_first_index(after, ask, at);
    } else {
        if at < components.len() {
            assert(put(components[at]));
        }
        let end = if found < components.len() { found } else { after.len() as int };
        assert forall|i: int| 0 <= i < end implies !ask(#[trigger] after[i]) by {
            if i != at {
                assert(!ask(components[i]));
            }
        }
        if found < components.len() {
            assert(found != at);
            assert(after[found] == components[found]);
        }
        crate::seqs::lemma_is_first_index(after, ask, end);
    }
}

/// A component that stands somewhere is the one that is found.
proof fn lemma_component_found<V>(components: Seq<Component<V>>, rows: Seq<EntityRow>, at: int)
    requires
        crate::world::components_placed(rows, components),
        0 <= at < components.len(),
    ensures
        crate::world::component_of(components, components[at].kind, components[at].entity) == Some(
            components[at].value,
        ),
{
    let kind = components[at].kind;
    let entity = components[at].entity;
    let ask = crate::world::is_component::<V>(kind, entity);
    assert forall|i: int| 0 <= i < at implies !ask(#[trigger] components[i]) by {
        assert(components[i].kind != components[at].kind || components[i].entity
            != components[at].entity);
    }
    crate::seqs::lemma_is_first_index(components, ask, at);
}

/// The row of an entity says which identifier it carries.
pub proof fn lemma_id_found(rows: Seq<EntityRow>, at: int)
    requires
        crate::world::entities_distinct(rows),
        0 <= at < rows.len(),
    ensures
        crate::world::id_of(rows, rows[at].entity) == rows[at].id,
{
    let ask = crate::world::is_entity(rows[at].entity);
    assert forall|i: int| 0 <= i < at implies !ask(#[trigger] rows[i]) by {
        assert(rows[i].entity != rows[at].entity);
    }
    crate::seqs::lemma_is_first_index(rows, ask, at);
}

/// No two entities carry one identifier.
pub open spec fn ids_distinct(rows: Seq<EntityRow>) -> bool {
    forall|i: int, j: int|
        0 <= i < j < rows.len() && (#[trigger] rows[i]).id is Some ==> rows[i].id != (
        #[trigger] rows[j]).id
}

/// No entity of `rows` carries an identifier of `others`.
pub open spec fn ids_apart(rows: Seq<EntityRow>, others: Seq<EntityRow>) -> bool {
    forall|i: int, j: int|
        0 <= i < rows.len() && 0 <= j < others.len() && (#[trigger] rows[i]).id is Some
            ==> rows[i].id != (#[trigger] others[j]).id
}

/// Only entities with the rollback marker carry identifiers.
pub open spec fn ids_marked(rows: Seq<EntityRow>) -> bool {
    forall|i: int| 0 <= i < rows.len() && (#[trigger] rows[i]).id is Some ==> rows[i].rollback
}

/// Some row holds the entity of a record with its identifier.
pub open spec fn has_row(rows: Seq<EntityRow>, record: (RollbackId, u64)) -> bool {
    exists|at: int|
        0 <= at < rows.len() && (#[trigger] rows[at]).id == Some(record.0) && rows[at].entity
            == record.1
}

/// The identified entities are those with a row that has an identifier.
pub proof fn lemma_identified(rows: Seq<EntityRow>)
    ensures
        forall|i: int|
            0 <= i < crate::world::identified(rows).len() ==> has_row(
                rows,
                #[trigger] crate::world::identified(rows)[i],
            ),
        forall|at: int|
            0 <= at < rows.len() && (#[trigger] rows[at]).id is Some
                ==> crate::world::identified(rows).contains((rows[at].id->0, rows[at].entity)),
{
    let keep = |row: EntityRow| row.id is Some;
    let pair = |row: EntityRow| (row.id->0, row.entity);
    let kept = rows.filter(keep);
    let records = crate::world::identified(rows);
    assert(records == kept.map_values(pair));
    crate::seqs::lemma_filter_members(rows, keep);
    assert forall|i: int| 0 <= i < records.len() implies has_row(rows, #[trigger] records[i]) by {
        assert(keep(kept[i]) && rows.contains(kept[i]));
        let at = choose|at: int| 0 <= at < rows.len() && rows[at] == kept[i];
        assert(records[i] == pair(kept[i]));
        assert(rows[at].id == Some(records[i].0));
    }
    assert forall|at: int| 0 <= at < rows.len() && (#[trigger] rows[at]).id is Some implies
        records.contains((rows[at].id->0, rows[at].entity)) by {
        assert(keep(rows[at]));
        let i = choose|i: int| 0 <= i < kept.len() && kept[i] == rows[at];
        assert(records[i] == pair(kept[i]));
    }
}

/// Where no two entities carry one identifier, no two records do.
pub proof fn lemma_identified_distinct(rows: Seq<EntityRow>)
    requires
        ids_distinct(rows),
    ensures
        forall|i: int, j: int|
            0 <= i < j < crate::world::identified(rows).len() ==> (
            #[trigger] crate::world::identified(rows)[i]).0 != (
            #[trigger] crate::world::identified(rows)[j]).0,
{
    let keep = |row: EntityRow| row.id is Some;
    let pair = |row: EntityRow| (row.id->0, row.entity);
    let apart = |a: EntityRow, b: EntityRow| a.id is Some ==> a.id != b.id;
    let kept = rows.filter(keep);
    let records = crate::world::identified(rows);
    assert(records == kept.map_values(pair));
    crate::seqs::lemma_filter_members(rows, keep);
    crate::seqs::lemma_filter_pairs(rows, keep, apart);
    assert forall|i: int, j: int| 0 <= i < j < records.len() implies (#[trigger] records[i]).0 != (
    #[trigger] records[j]).0 by {
        assert(apart(kept[i], kept[j]));
        assert(keep(kept[i]) && keep(kept[j]));
        assert(records[i] == pair(kept[i]) && records[j] == pair(kept[j]));
    }
}

/// A spawned entity is found by its identifier.
pub proof fn lemma_spawned_found(
    stay: Seq<EntityRow>,
    rows: Seq<EntityRow>,
    fresh: Seq<u64>,
    i: int,
)
    requires
        ids_distinct(rows),
        ids_apart(stay, rows),
        0 <= i < crate::world::identified(rows).len(),
    ensures
        crate::world::entity_with(
            crate::restore::spawned(stay, crate::world::identified(rows), fresh),
            crate::world::identified(rows)[i].0,
        ) == Some(fresh[i]),
{
    let records = crate::world::identified(rows);
    let all = crate::restore::spawned(stay, records, fresh);
    let ask = crate::world::has_id(records[i].0);
    let at = stay.len() + i;
    lemma_identified(rows);
    lemma_identified_distinct(rows);
    assert(has_row(rows, records[i]));
    let from = choose|from: int|
        0 <= from < rows.len() && (#[trigger] rows[from]).id == Some(records[i].0)
            && rows[from].entity == records[i].1;
    assert forall|j: int| 0 <= j < at implies !ask(#[trigger] all[j]) by {
        if j < stay.len() {
            assert(all[j] == stay[j]);
            assert(stay[j].id is Some ==> stay[j].id != rows[from].id);
        } else {
            assert(records[j - stay.len()].0 != records[i].0);
        }
    }
    assert(ask(all[at]));
    crate::seqs::lemma_is_first_index(all, ask, at);
}

/// The captured components of a type are those that are found on the
/// identified entities.
pub proof fn lemma_identified_components<V>(source: WorldView<V>, kind: u64)
    requires
        source.wf(),
        ids_distinct(source.entities),
    ensures
        ({
            let records = crate::world::identified(source.entities);
            let found = crate::world::identified_components(
                source.entities,
                source.components,
                kind,
            );
            &&& forall|p: int| 0 <= p < found.len() ==> has_record(records, (#[trigger] found[p]).0)
            &&& forall|p: int, i: int|
                0 <= p < found.len() && 0 <= i < records.len() && (#[trigger] found[p]).0 == (
                #[trigger] records[i]).0 ==> crate::world::component_of(
                    source.components,
                    kind,
                    records[i].1,
                ) == Some(found[p].1)
            &&& forall|i: int|
                0 <= i < records.len() && crate::world::component_of(
                    source.components,
                    kind,
                    (#[trigger] records[i]).1,
                ) is Some ==> has_part(found, records[i].0)
        }),
{
    let rows = source.entities;
    let components = source.components;
    let records = crate::world::identified(rows);
    let keep = |component: Component<V>|
        component.kind == kind && crate::world::id_of(rows, component.entity) is Some;
    let pair = |component: Component<V>|
        (crate::world::id_of(rows, component.entity)->0, component.value);
    let kept = components.filter(keep);
    let found = crate::world::identified_components(rows, components, kind);
    assert(found == kept.map_values(pair));
    crate::seqs::lemma_filter_members(components, keep);
    lemma_identified(rows);
    lemma_identified_distinct(rows);
    assert forall|p: int| 0 <= p < found.len() implies has_record(
        records,
        (#[trigger] found[p]).0,
    ) by {
        assert(keep(kept[p]));
        let entity = kept[p].entity;
        crate::seqs::lemma_first_index(rows, crate::world::is_entity(entity));
        let at = crate::seqs::first_index(rows, crate::world::is_entity(entity));
        assert(found[p] == pair(kept[p]));
        assert(rows[at].id == Some(found[p].0));
        let i = choose|i: int|
            0 <= i < records.len() && records[i] == (rows[at].id->0, rows[at].entity);
        assert(records[i].0 == found[p].0);
    }
    assert forall|p: int, i: int|
        0 <= p < found.len() && 0 <= i < records.len() && (#[trigger] found[p]).0 == (
        #[trigger] records[i]).0 implies crate::world::component_of(
        components,
        kind,
        records[i].1,
    ) == Some(found[p].1) by {
        assert(keep(kept[p]) && components.contains(kept[p]));
        assert(found[p] == pair(kept[p]));
        let entity = kept[p].entity;
        crate::seqs::lemma_first_index(rows, crate::world::is_entity(entity));
        let own = crate::seqs::first_index(rows, crate::world::is_entity(entity));
        assert(rows[own].id == Some(found[p].0));
        assert(has_row(rows, records[i]));
        let at = choose|at: int|
            0 <= at < rows.len() && (#[trigger] rows[at]).id == Some(records[i].0)
                && rows[at].entity == records[i].1;
        assert(own == at) by {
            assert(own < at ==> rows[own].id != rows[at].id);
            assert(at < own ==> rows[at].id != rows[own].id);
        }
        let c = choose|c: int| 0 <= c < components.len() && components[c] == kept[p];
        lemma_component_found(components, rows, c);
    }
    assert forall|i: int|
        0 <= i < records.len() && crate::world::component_of(
            components,
            kind,
            (#[trigger] records[i]).1,
        ) is Some implies has_part(found, records[i].0) by {
        let entity = records[i].1;
        let ask = crate::world::is_component::<V>(kind, entity);
        let c = crate::seqs::first_index(components, ask);
        crate::seqs::lemma_first_index(components, ask);
        assert(ask(components[c]));
        assert(has_row(rows, records[i]));
        let at = choose|at: int|
            0 <= at < rows.len() && (#[trigger] rows[at]).id == Some(records[i].0)
                && rows[at].entity == records[i].1;
        lemma_id_found(rows, at);
        assert(keep(components[c]));
        let p = choose|p: int| 0 <= p < kept.len() && kept[p] == components[c];
        assert(found[p] == pair(kept[p]));
        assert(found[p].0 == records[i].0);
    }
}

/// Some record holds the identifier.
pub open spec fn has_record(records: Seq<(RollbackId, u64)>, id: RollbackId) -> bool {
    exists|i: int| 0 <= i < records.len() && (#[trigger] records[i]).0 == id
}

/// Some component was captured for the identifier.
pub open spec fn has_part<V>(parts: Seq<(RollbackId, V)>, id: RollbackId) -> bool {
    exists|p: int| 0 <= p < parts.len() && (#[trigger] parts[p]).0 == id
}

/// An entity that is found by two identifiers carries both, so they are one.
pub proof fn lemma_one_id(rows: Seq<EntityRow>, a: RollbackId, b: RollbackId)
    requires
        crate::world::entities_distinct(rows),
        crate::world::entity_with(rows, a) is Some,
        crate::world::entity_with(rows, a) == crate::world::entity_with(rows, b),
    ensures
        a == b,
{
    let at = crate::seqs::first_index(rows, crate::world::has_id(a));
    let bt = crate::seqs::first_index(rows, crate::world::has_id(b));
    crate::seqs::lemma_first_index(rows, crate::world::has_id(a));
    crate::seqs::lemma_first_index(rows, crate::world::has_id(b));
    assert(at == bt) by {
        assert(at < bt ==> rows[at].entity != rows[bt].entity);
        assert(bt < at ==> rows[bt].entity != rows[at].entity);
    }
}

/// A section leaves a component alone that it does not speak of.
pub proof fn lemma_section_untouched<V, D: Fn(u64, &Vec<u8>) -> Option<V>>(
    decode: D,
    rows: Seq<EntityRow>,
    kind: u64,
    records: Seq<(RollbackId, Seq<u8>)>,
    before: Seq<Component<V>>,
    after: Seq<Component<V>>,
    k: u64,
    e: u64,
)
    requires
        crate::restore::component_restored(decode, rows, kind, records, before, after),
        k != kind || !crate::restore::names(rows, records, e),
    ensures
        crate::world::component_of(after, k, e) == crate::world::component_of(before, k, e),
    decreases records.len(),
{
    if records.len() > 0 {
        let front = records.drop_last();
        let last = records.len() - 1;
        let (mid, value) = choose|mid: Seq<Component<V>>, value: Option<V>|
            {
                &&& crate::restore::component_restored(decode, rows, kind, front, before, mid)
                &&& crate::restore::decoded(decode, kind, records.last().1, value)
                &&& after == #[trigger] crate::restore::placed(
                    rows,
                    mid,
                    kind,
                    records.last().0,
                    value,
                )
            };
        if k == kind && crate::restore::names(rows, front, e) {
            let p = choose|p: int|
                0 <= p < front.len() && crate::world::entity_with(
                    rows,
                    (#[trigger] front[p]).0,
                ) == Some(e);
            assert(records[p] == front[p]);
        }
        lemma_section_untouched(decode, rows, kind, front, before, mid, k, e);
        assert(records[last] == records.last());
        if let (Some(v), Some(entity)) = (
            value,
            crate::world::entity_with(rows, records.last().0),
        ) {
            lemma_with_component(mid, kind, entity, v, k, e);
        }
    }
}

/// The first sections leave a component alone that they do not speak of.
pub proof fn lemma_sections_untouched<V, D: Fn(u64, &Vec<u8>) -> Option<V>>(
    decode: D,
    rows: Seq<EntityRow>,
    kinds: Seq<u64>,
    sections: Seq<Seq<u8>>,
    n: nat,
    before: Seq<Component<V>>,
    after: Seq<Component<V>>,
    k: u64,
    e: u64,
)
    requires
        crate::restore::components_restored(decode, rows, kinds, sections, n, before, after),
        forall|j: int|
            0 <= j < n && #[trigger] kinds[j] == k ==> !crate::restore::names(
                rows,
                crate::sections::component_records(sections[j]),
                e,
            ),
    ensures
        crate::world::component_of(after, k, e) == crate::world::component_of(before, k, e),
    decreases n,
{
    if n > 0 {
        let mid = choose|mid: Seq<Component<V>>|
            {
                &&& crate::restore::components_restored(
                    decode,
                    rows,
                    kinds,
                    sections,
                    (n - 1) as nat,
                    before,
                    mid,
                )
                &&& #[trigger] crate::restore::component_restored(
                    decode,
                    rows,
                    kinds[n - 1],
                    crate::sections::component_records(sections[n - 1]),
                    mid,
                    after,
                )
            };
        lemma_sections_untouched(
            decode,
            rows,
            kinds,
            sections,
            (n - 1) as nat,
            before,
            mid,
            k,
            e,
        );
        lemma_section_untouched(
            decode,
            rows,
            kinds[n - 1],
            crate::sections::component_records(sections[n - 1]),
            mid,
            after,
            k,
            e,
        );
    }
}

/// Restoring the first components of a section puts each on the entity that
/// carries its identifier.
pub proof fn lemma_section_restored<
    V,
    E: Fn(u64, &V) -> Option<Vec<u8>>,
    D: Fn(u64, &Vec<u8>) -> Option<V>,
>(
    encode: E,
    decode: D,
    source: WorldView<V>,
    rows: Seq<EntityRow>,
    kind: u64,
    parts: Seq<(RollbackId, Seq<u8>)>,
    n: nat,
    before: Seq<Component<V>>,
    after: Seq<Component<V>>,
)
    requires
        crate::capture_laws::components_lossless(encode, decode, source, kind),
        source.wf(),
        ids_distinct(source.entities),
        crate::world::entities_distinct(rows),
        n <= parts.len(),
        crate::capture::parts_written(
            encode,
            kind,
            crate::world::identified_components(source.entities, source.components, kind),
            parts,
        ),
        crate::restore::component_restored(
            decode,
            rows,
            kind,
            parts.take(n as int),
            before,
            after,
        ),
    ensures
        forall|p: int, e: u64|
            0 <= p < n && crate::world::entity_with(rows, (#[trigger] parts[p]).0) == Some(e)
                ==> #[trigger] crate::world::component_of(after, kind, e) == Some(
                crate::world::identified_components(
                    source.entities,
                    source.components,
                    kind,
                )[p].1,
            ),
    decreases n,
{
    let found = crate::world::identified_components(source.entities, source.components, kind);
    let records = crate::world::identified(source.entities);
    let done = parts.take(n as int);
    if n > 0 {
        assert(done.drop_last() =~= parts.take(n - 1));
        let (mid, value) = choose|mid: Seq<Component<V>>, value: Option<V>|
            {
                &&& crate::restore::component_restored(
                    decode,
                    rows,
                    kind,
                    done.drop_last(),
                    before,
                    mid,
                )
                &&& crate::restore::decoded(decode, kind, done.last().1, value)
                &&& after == #[trigger] crate::restore::placed(
                    rows,
                    mid,
                    kind,
                    done.last().0,
                    value,
                )
            };
        lemma_section_restored(
            encode,
            decode,
            source,
            rows,
            kind,
            parts,
            (n - 1) as nat,
            before,
            mid,
        );
        lemma_identified_components(source, kind);
        let last = n - 1;
        let id = parts[last].0;
        let target = crate::world::entity_with(rows, id);
        assert(parts[last] == done.last());
        assert(id == found[last].0);
        assert(crate::capture_laws::lossless(encode, decode, kind, found[last].1));
        crate::capture_laws::lemma_written_decodes(
            encode,
            decode,
            kind,
            found[last].1,
            parts[last].1,
            value,
        );
        assert forall|p: int, e: u64|
            0 <= p < n && crate::world::entity_with(rows, (#[trigger] parts[p]).0) == Some(
                e,
            ) implies #[trigger] crate::world::component_of(after, kind, e) == Some(
            found[p].1,
        ) by {
            if let Some(entity) = target {
                lemma_with_component(mid, kind, entity, value->0, kind, e);
            }
            if target == Some(e) {
                lemma_one_id(rows, parts[p].0, id);
                assert(parts[p].0 == found[p].0);
                assert(has_record(records, id));
                let i = choose|i: int| 0 <= i < records.len() && (#[trigger] records[i]).0 == id;
                assert(found[p].0 == records[i].0 && found[last].0 == records[i].0);
            } else {
                assert(p != last);
                assert(crate::world::component_of(mid, kind, e) == Some(found[p].1));
            }
        }
    }
}

/// Restoring the section of a type leaves the captured component of the type
/// on each entity that was spawned for one with such a component, and leaves
/// the others as they are.
proof fn lemma_component_restored<
    V,
    E: Fn(u64, &V) -> Option<Vec<u8>>,
    D: Fn(u64, &Vec<u8>) -> Option<V>,
>(
    encode: E,
    decode: D,
    source: WorldView<V>,
    stay: Seq<EntityRow>,
    fresh: Seq<u64>,
    kind: u64,
    parts: Seq<(RollbackId, Seq<u8>)>,
    before: Seq<Component<V>>,
    after: Seq<Component<V>>,
)
    requires
        crate::capture_laws::components_lossless(encode, decode, source, kind),
        source.wf(),
        ids_distinct(source.entities),
        ids_apart(stay, source.entities),
        crate::world::entities_distinct(
            crate::restore::spawned(stay, crate::world::identified(source.entities), fresh),
        ),
        crate::capture::parts_written(
            encode,
            kind,
            crate::world::identified_components(source.entities, source.components, kind),
            parts,
        ),
        crate::restore::component_restored(
            decode,
            crate::restore::spawned(stay, crate::world::identified(source.entities), fresh),
            kind,
            parts,
            before,
            after,
        ),
    ensures
        forall|i: int|
            0 <= i < crate::world::identified(source.entities).len()
                ==> #[trigger] crate::world::component_of(after, kind, fresh[i]) == (
            match crate::world::component_of(
                source.components,
                kind,
                crate::world::identified(source.entities)[i].1,
            ) {
                Some(value) => Some(value),
                None => crate::world::component_of(before, kind, fresh[i]),
            }),
{
    let records = crate::world::identified(source.entities);
    let rows = crate::restore::spawned(stay, records, fresh);
    let found = crate::world::identified_components(source.entities, source.components, kind);
    assert(parts.take(parts.len() as int) =~= parts);
    lemma_section_restored(
        encode,
        decode,
        source,
        rows,
        kind,
        parts,
        parts.len(),
        before,
        after,
    );
    lemma_identified_components(source, kind);
    assert forall|i: int| 0 <= i < records.len() implies
        #[trigger] crate::world::component_of(after, kind, fresh[i]) == (
    match crate::world::component_of(source.components, kind, records[i].1) {
        Some(value) => Some(value),
        None => crate::world::component_of(before, kind, fresh[i]),
    }) by {
        lemma_spawned_found(stay, source.entities, fresh, i);
        if crate::world::component_of(source.components, kind, records[i].1) is Some {
            assert(has_part(found, records[i].0));
            let p = choose|p: int|
                0 <= p < found.len() && (#[trigger] found[p]).0 == records[i].0;
            assert(parts[p].0 == records[i].0);
        } else {
            if crate::restore::names(rows, parts, fresh[i]) {
                let p = choose|p: int|
                    0 <= p < parts.len() && crate::world::entity_with(
                        rows,
                        (#[trigger] parts[p]).0,
                    ) == Some(fresh[i]);
                lemma_one_id(rows, parts[p].0, records[i].0);
                assert(found[p].0 == records[i].0);
            }
            lemma_section_untouched(decode, rows, kind, parts, before, after, kind, fresh[i]);
        }
    }
}

/// Restoring the first sections leaves the captured components of their types
/// on the entities that were spawned for them.
proof fn lemma_components_restored<
    V,
    E: Fn(u64, &V) -> Option<Vec<u8>>,
    D: Fn(u64, &Vec<u8>) -> Option<V>,
>(
    encode: E,
    decode: D,
    source: WorldView<V>,
    stay: Seq<EntityRow>,
    fresh: Seq<u64>,
    kinds: Seq<u64>,
    sections: Seq<Seq<u8>>,
    n: nat,
    before: Seq<Component<V>>,
    after: Seq<Component<V>>,
)
    requires
        source.wf(),
        ids_distinct(source.entities),
        ids_apart(stay, source.entities),
        crate::world::entities_distinct(
            crate::restore::spawned(stay, crate::world::identified(source.entities), fresh),
        ),
        n <= kinds.len(),
        kinds.len() == sections.len(),
        forall|j: int|
            0 <= j < kinds.len() ==> crate::capture_laws::components_lossless(
                encode,
                decode,
                source,
                #[trigger] kinds[j],
            ),
        forall|j: int|
            0 <= j < kinds.len() ==> crate::capture_laws::component_in_full(
                encode,
                source,
                #[trigger] kinds[j],
                sections[j],
            ),
        crate::restore::components_restored(
            decode,
            crate::restore::spawned(stay, crate::world::identified(source.entities), fresh),
            kinds,
            sections,
            n,
            before,
            after,
        ),
        forall|i: int, k: u64|
            0 <= i < crate::world::identified(source.entities).len()
                ==> #[trigger] crate::world::component_of(before, k, fresh[i]) is None,
    ensures
        forall|k: u64, i: int|
            0 <= i < crate::world::identified(source.entities).len()
                ==> #[trigger] crate::world::component_of(after, k, fresh[i]) == (
            if kinds.take(n as int).contains(k) {
                crate::world::component_of(
                    source.components,
                    k,
                    crate::world::identified(source.entities)[i].1,
                )
            } else {
                None
            }),
    decreases n,
{
    let records = crate::world::identified(source.entities);
    let rows = crate::restore::spawned(stay, records, fresh);
    if n > 0 {
        let last = n - 1;
        let kind = kinds[last];
        let mid = choose|mid: Seq<Component<V>>|
            {
                &&& crate::restore::components_restored(
                    decode,
                    rows,
                    kinds,
                    sections,
                    (n - 1) as nat,
                    before,
                    mid,
                )
                &&& #[trigger] crate::restore::component_restored(
                    decode,
                    rows,
                    kinds[n - 1],
                    crate::sections::component_records(sections[n - 1]),
                    mid,
                    after,
                )
            };
        lemma_components_restored(
            encode,
            decode,
            source,
            stay,
            fresh,
            kinds,
            sections,
            (n - 1) as nat,
            before,
            mid,
        );
        assert(crate::capture_laws::component_in_full(encode, source, kind, sections[last]));
        let parts = crate::capture_laws::lemma_parts_of(encode, source, kind, sections[last]);
        lemma_component_restored(
            encode,
            decode,
            source,
            stay,
            fresh,
            kind,
            parts,
            mid,
            after,
        );
        let done = kinds.take(n as int);
        let front = kinds.take(n - 1);
        assert(done =~= front.push(kind));
        assert forall|k: u64, i: int| 0 <= i < records.len() implies
            #[trigger] crate::world::component_of(after, k, fresh[i]) == (if done.contains(k) {
            crate::world::component_of(source.components, k, records[i].1)
        } else {
            None
        }) by {
            assert(done[last] == kind);
            assert(front.contains(k) ==> done.contains(k)) by {
                if front.contains(k) {
                    let j = choose|j: int| 0 <= j < front.len() && front[j] == k;
                    assert(done[j] == k);
                }
            }
            assert(crate::world::component_of(mid, k, fresh[i]) == (if front.contains(k) {
                crate::world::component_of(source.components, k, records[i].1)
            } else {
                None
            }));
            if k != kind {
                lemma_section_untouched(decode, rows, kind, parts, mid, after, k, fresh[i]);
                if done.contains(k) {
                    let j = choose|j: int| 0 <= j < done.len() && done[j] == k;
                    assert(front[j] == k);
                }
            }
        }
    }
}

/// Remapping one type changes the values of that type and no other.
proof fn lemma_component_remapped<V, M: Fn(u64, &V, &EntityMap) -> V>(
    remap: M,
    map: EntityMap,
    kind: u64,
    before: Seq<Component<V>>,
    after: Seq<Component<V>>,
    k: u64,
    e: u64,
)
    requires
        crate::restore::component_remapped(remap, map, kind, before, after),
    ensures
        match (
            crate::world::component_of(before, k, e),
            crate::world::component_of(after, k, e),
        ) {
            (None, None) => true,
            (Some(v), Some(w)) => if k == kind {
                remap.ensures((kind, &v, &map), w)
            } else {
                w == v
            },
            _ => false,
        },
{
    let ask = crate::world::is_component::<V>(k, e);
    let at = crate::seqs::first_index(before, ask);
    crate::seqs::lemma_first_index(before, ask);
    assert forall|i: int| 0 <= i < at implies !ask(#[trigger] after[i]) by {
        assert(!ask(before[i]));
    }
    if at < before.len() {
        assert(ask(before[at]));
        assert(ask(after[at]));
    }
    crate::seqs::lemma_is_first_index(after, ask, at);
}

/// `after` is what remapping makes of a value: the value itself, put through
/// `remap` once for each time that its type is registered for it.
pub open spec fn remapped<V, M: Fn(u64, &V, &EntityMap) -> V>(
    remap: M,
    map: EntityMap,
    kinds: Seq<u64>,
    kind: u64,
    before: V,
    after: V,
) -> bool
    decreases kinds.len(),
{
    if kinds.len() == 0 {
        after == before
    } else if kinds.last() == kind {
        exists|mid: V|
            remapped(remap, map, kinds.drop_last(), kind, before, mid) && #[trigger] remap.ensures(
                (kind, &mid, &map),
                after,
            )
    } else {
        remapped(remap, map, kinds.drop_last(), kind, before, after)
    }
}

/// `map` stands for `mapping` and makes `after` of a value.
pub open spec fn remapped_by<V, M: Fn(u64, &V, &EntityMap) -> V>(
    remap: M,
    map: EntityMap,
    mapping: Map<u64, u64>,
    kinds: Seq<u64>,
    kind: u64,
    before: V,
    after: V,
) -> bool {
    map@ == mapping && remapped(remap, map, kinds, kind, before, after)
}

/// A component is there exactly when it was, and is what remapping by
/// `mapping` makes of it.
pub open spec fn carried_over<V, M: Fn(u64, &V, &EntityMap) -> V>(
    remap: M,
    mapping: Map<u64, u64>,
    kinds: Seq<u64>,
    kind: u64,
    before: Option<V>,
    after: Option<V>,
) -> bool {
    match (before, after) {
        (None, None) => true,
        (Some(v), Some(w)) => exists|map: EntityMap| #[trigger]
            remapped_by(remap, map, mapping, kinds, kind, v, w),
        _ => false,
    }
}

/// Remapping the first types does to each component what its type asks for.
proof fn lemma_components_remapped<V, M: Fn(u64, &V, &EntityMap) -> V>(
    remap: M,
    map: EntityMap,
    kinds: Seq<u64>,
    n: nat,
    before: Seq<Component<V>>,
    after: Seq<Component<V>>,
    k: u64,
    e: u64,
)
    requires
        n <= kinds.len(),
        crate::restore::components_remapped(remap, map, kinds, n, before, after),
    ensures
        match (
            crate::world::component_of(before, k, e),
            crate::world::component_of(after, k, e),
        ) {
            (None, None) => true,
            (Some(v), Some(w)) => remapped(remap, map, kinds.take(n as int), k, v, w),
            _ => false,
        },
    decreases n,
{
    if n > 0 {
        let mid = choose|mid: Seq<Component<V>>|
            {
                &&& crate::restore::components_remapped(
                    remap,
                    map,
                    kinds,
                    (n - 1) as nat,
                    before,
                    mid,
                )
                &&& #[trigger] crate::restore::component_remapped(
                    remap,
                    map,
                    kinds[n - 1],
                    mid,
                    after,
                )
            };
        lemma_components_remapped(remap, map, kinds, (n - 1) as nat, before, mid, k, e);
        lemma_component_remapped(remap, map, kinds[n - 1], mid, after, k, e);
        assert(kinds.take(n as int).drop_last() =~= kinds.take(n - 1));
        assert(kinds.take(n as int).last() == kinds[n - 1]);
    }
}

/// A resource is there exactly when it was, with the value that it had.
pub open spec fn same_resource<V>(
    before: Map<u64, V>,
    kind: u64,
    after: Map<u64, V>,
) -> bool {
    &&& after.contains_key(kind) <==> before.contains_key(kind)
    &&& before.contains_key(kind) ==> after[kind] == before[kind]
}

/// Restoring the section of a resource type brings the resource back, or takes
/// it out where there was none, and changes no other.
pub proof fn lemma_resource_restored<
    V,
    E: Fn(u64, &V) -> Option<Vec<u8>>,
    D: Fn(u64, &Vec<u8>) -> Option<V>,
>(
    encode: E,
    decode: D,
    source: WorldView<V>,
    kind: u64,
    section: Seq<u8>,
    before: Map<u64, V>,
    after: Map<u64, V>,
)
    requires
        crate::capture_laws::resource_lossless(encode, decode, source, kind),
        crate::capture_laws::resource_in_full(encode, source, kind, section),
        crate::restore::resource_restored(decode, kind, section, before, after),
    ensures
        same_resource(source.resources, kind, after),
        forall|other: u64| other != kind ==> #[trigger] same_resource(before, other, after),
{
    if source.resources.contains_key(kind) {
        let value = source.resources[kind];
        let made = choose|made: Option<Seq<u8>>| #[trigger]
            crate::capture::encoded(encode, kind, value, made) && crate::capture_laws::made_fits(
                made,
            ) && section == crate::sections::resource_section(made);
        let bytes = made->0;
        assert(made == Some(bytes));
        crate::sections::law_resource_section(Some(bytes));
        let got = choose|got: Option<V>| #[trigger]
            crate::restore::decoded(decode, kind, bytes, got) && after
                == crate::restore::replaced(before, kind, got);
        assert(got == Some(value));
    } else {
        crate::sections::law_resource_section(None);
    }
}

/// Restoring the first sections brings the resources of their types back.
pub proof fn lemma_resources_restored<
    V,
    E: Fn(u64, &V) -> Option<Vec<u8>>,
    D: Fn(u64, &Vec<u8>) -> Option<V>,
>(
    encode: E,
    decode: D,
    source: WorldView<V>,
    kinds: Seq<u64>,
    sections: Seq<Seq<u8>>,
    n: nat,
    before: Map<u64, V>,
    after: Map<u64, V>,
)
    requires
        n <= kinds.len(),
        kinds.len() == sections.len(),
        forall|j: int|
            0 <= j < kinds.len() ==> crate::capture_laws::resource_lossless(
                encode,
                decode,
                source,
                #[trigger] kinds[j],
            ),
        forall|j: int|
            0 <= j < kinds.len() ==> crate::capture_laws::resource_in_full(
                encode,
                source,
                #[trigger] kinds[j],
                sections[j],
            ),
        crate::restore::resources_restored(decode, kinds, sections, n, before, after),
    ensures
        forall|j: int|
            0 <= j < n ==> same_resource(source.resources, #[trigger] kinds[j], after),
        forall|kind: u64|
            !kinds.take(n as int).contains(kind) ==> #[trigger] same_resource(
                before,
                kind,
                after,
            ),
    decreases n,
{
    if n > 0 {
        let last = n - 1;
        let kind = kinds[last];
        let mid = choose|mid: Map<u64, V>|
            {
                &&& crate::restore::resources_restored(
                    decode,
                    kinds,
                    sections,
                    (n - 1) as nat,
                    before,
                    mid,
                )
                &&& #[trigger] crate::restore::resource_restored(
                    decode,
                    kinds[n - 1],
                    sections[n - 1],
                    mid,
                    after,
                )
            };
        lemma_resources_restored(
            encode,
            decode,
            source,
            kinds,
            sections,
            (n - 1) as nat,
            before,
            mid,
        );
        lemma_resource_restored(encode, decode, source, kind, sections[last], mid, after);
        assert forall|j: int| 0 <= j < n implies same_resource(
            source.resources,
            #[trigger] kinds[j],
            after,
        ) by {
            if j < last {
                assert(same_resource(source.resources, kinds[j], mid));
                assert(kinds[j] != kind ==> same_resource(mid, kinds[j], after));
            }
        }
        assert forall|other: u64| !kinds.take(n as int).contains(other) implies
            #[trigger] same_resource(before, other, after) by {
            assert(kinds.take(n as int)[last] == kind);
            assert forall|j: int| 0 <= j < last implies #[trigger] kinds.take(n - 1)[j]
                != other by {
                assert(kinds.take(n as int)[j] == kinds[j]);
            }
            assert(same_resource(before, other, mid));
            assert(same_resource(mid, other, after));
        }
    }
}

/// Despawning leaves the components on the entities that stay, and no others.
pub proof fn lemma_components_on<V>(world: WorldView<V>, kind: u64, entity: u64)
    requires
        world.wf(),
    ensures
        crate::world::component_of(
            crate::world::components_on(
                crate::world::unmarked(world.entities),
                world.components,
            ),
            kind,
            entity,
        ) == (if crate::world::contains_entity(crate::world::unmarked(world.entities), entity) {
            crate::world::component_of(world.components, kind, entity)
        } else {
            None
        }),
{
    let stay = crate::world::unmarked(world.entities);
    let all = world.components;
    let keep = |component: Component<V>| crate::world::contains_entity(stay, component.entity);
    let kept = crate::world::components_on(stay, all);
    let ask = crate::world::is_component::<V>(kind, entity);
    assert(kept == all.filter(keep));
    crate::seqs::lemma_filter_members(all, keep);
    crate::world::lemma_despawn_keeps_order(world);
    crate::seqs::lemma_first_index(all, ask);
    crate::seqs::lemma_first_index(kept, ask);
    let at = crate::seqs::first_index(all, ask);
    let found = crate::seqs::first_index(kept, ask);
    if found < kept.len() {
        assert(ask(kept[found]) && keep(kept[found]));
        assert(all.contains(kept[found]));
        let from = choose|from: int| 0 <= from < all.len() && all[from] == kept[found];
        lemma_component_found(all, world.entities, from);
    } else if at < all.len() && crate::world::contains_entity(stay, entity) {
        assert(ask(all[at]));
        assert(keep(all[at]));
        let p = choose|p: int| 0 <= p < kept.len() && kept[p] == all[at];
        assert(!ask(kept[p]));
    }
}

/// What makes it possible to bring a captured world back: the same types are
/// registered, identifiers tell its entities apart, none of them is carried by
/// an entity that stays, and there are fresh entities to spawn.
pub open spec fn can_take<V>(
    source: WorldView<V>,
    before: WorldView<V>,
    fresh: Seq<u64>,
) -> bool {
    let stay = crate::world::unmarked(before.entities);
    &&& source.wf()
    &&& before.wf()
    &&& crate::capture::registered(before) == crate::capture::registered(source)
    &&& ids_distinct(source.entities)
    &&& ids_apart(stay, source.entities)
    &&& crate::restore::fresh_for(stay, crate::world::identified(source.entities).len(), fresh)
}

/// Spawning fresh entities keeps entities apart.
proof fn lemma_spawned_distinct(
    stay: Seq<EntityRow>,
    records: Seq<(RollbackId, u64)>,
    fresh: Seq<u64>,
)
    requires
        crate::world::entities_distinct(stay),
        crate::restore::fresh_for(stay, records.len(), fresh),
    ensures
        crate::world::entities_distinct(crate::restore::spawned(stay, records, fresh)),
{
    let rows = crate::restore::spawned(stay, records, fresh);
    assert forall|i: int, j: int| 0 <= i < j < rows.len() implies (#[trigger] rows[i]).entity != (
    #[trigger] rows[j]).entity by {
        if j < stay.len() {
            assert(rows[i] == stay[i] && rows[j] == stay[j]);
        } else if i < stay.len() {
            assert(rows[i] == stay[i]);
            crate::world::lemma_contains_entity(stay, fresh[j - stay.len()]);
        } else {
            assert(fresh[i - stay.len()] != fresh[j - stay.len()]);
        }
    }
}

/// What restoring makes of the components that the sections leave alone or put
/// in place: remapping is all that is done to them.
pub proof fn lemma_components_carried<
    V,
    D: Fn(u64, &Vec<u8>) -> Option<V>,
    M: Fn(u64, &V, &EntityMap) -> V,
>(
    snapshot: SnapshotView,
    decode: D,
    remap: M,
    fresh: Seq<u64>,
    before: WorldView<V>,
    after: WorldView<V>,
) -> (laid: Seq<Component<V>>)
    requires
        crate::restore::restored(snapshot, decode, remap, fresh, before, after),
    ensures
        ({
            let kinds = crate::capture::registered(before);
            let stay = crate::world::unmarked(before.entities);
            let records = crate::sections::entity_records(snapshot.entity_data);
            &&& crate::restore::components_restored(
                decode,
                after.entities,
                kinds.components,
                snapshot.component_sections,
                crate::restore::paired(kinds.components, snapshot.component_sections),
                crate::world::components_on(stay, before.components),
                laid,
            )
            &&& forall|k: u64, e: u64|
                carried_over(
                    remap,
                    crate::restore::entity_mapping(records, fresh),
                    kinds.remaps,
                    k,
                    crate::world::component_of(laid, k, e),
                    #[trigger] crate::world::component_of(after.components, k, e),
                )
        }),
{
    let kinds = crate::capture::registered(before);
    let stay = crate::world::unmarked(before.entities);
    let records = crate::sections::entity_records(snapshot.entity_data);
    let mapping = crate::restore::entity_mapping(records, fresh);
    let (laid, map) = choose|laid: Seq<Component<V>>, map: EntityMap|
        {
            &&& map@ == mapping
            &&& crate::restore::components_restored(
                decode,
                after.entities,
                kinds.components,
                snapshot.component_sections,
                crate::restore::paired(kinds.components, snapshot.component_sections),
                crate::world::components_on(stay, before.components),
                laid,
            )
            &&& #[trigger] crate::restore::components_remapped(
                remap,
                map,
                kinds.remaps,
                kinds.remaps.len(),
                laid,
                after.components,
            )
        };
    assert(kinds.remaps.take(kinds.remaps.len() as int) =~= kinds.remaps);
    assert forall|k: u64, e: u64|
        carried_over(
            remap,
            mapping,
            kinds.remaps,
            k,
            crate::world::component_of(laid, k, e),
            #[trigger] crate::world::component_of(after.components, k, e),
        ) by {
        lemma_components_remapped(
            remap,
            map,
            kinds.remaps,
            kinds.remaps.len(),
            laid,
            after.components,
            k,
            e,
        );
        if let (Some(v), Some(w)) = (
            crate::world::component_of(laid, k, e),
            crate::world::component_of(after.components, k, e),
        ) {
            assert(remapped_by(remap, map, mapping, kinds.remaps, k, v, w));
        }
    }
    laid
}

/// The components on the spawned entities after restoring a captured world.
pub proof fn lemma_components_after<
    V,
    E: Fn(u64, &V) -> Option<Vec<u8>>,
    D: Fn(u64, &Vec<u8>) -> Option<V>,
    M: Fn(u64, &V, &EntityMap) -> V,
>(
    encode: E,
    decode: D,
    remap: M,
    source: WorldView<V>,
    snapshot: SnapshotView,
    fresh: Seq<u64>,
    before: WorldView<V>,
    after: WorldView<V>,
)
    requires
        crate::capture_laws::captured_in_full(encode, source, snapshot),
        crate::capture_laws::faithful(encode, decode, source),
        can_take(source, before, fresh),
        crate::restore::restored(snapshot, decode, remap, fresh, before, after),
    ensures
        ({
            let kinds = crate::capture::registered(source);
            let records = crate::world::identified(source.entities);
            forall|kind: u64, i: int|
                0 <= i < records.len() ==> carried_over(
                    remap,
                    crate::restore::entity_mapping(records, fresh),
                    kinds.remaps,
                    kind,
                    if kinds.components.contains(kind) {
                        crate::world::component_of(source.components, kind, records[i].1)
                    } else {
                        None
                    },
                    #[trigger] crate::world::component_of(after.components, kind, fresh[i]),
                )
        }),
{
    let kinds = crate::capture::registered(source);
    let records = crate::world::identified(source.entities);
    crate::sections::law_entity_section(records);
    let stay = crate::world::unmarked(before.entities);
    let start = crate::world::components_on(stay, before.components);
    let laid = lemma_components_carried(snapshot, decode, remap, fresh, before, after);
    assert forall|i: int, k: u64| 0 <= i < records.len() implies
        #[trigger] crate::world::component_of(start, k, fresh[i]) is None by {
        lemma_components_on(before, k, fresh[i]);
    }
    crate::world::lemma_despawn_keeps_order(before);
    lemma_spawned_distinct(stay, records, fresh);
    lemma_components_restored(
        encode,
        decode,
        source,
        stay,
        fresh,
        kinds.components,
        snapshot.component_sections,
        kinds.components.len(),
        start,
        laid,
    );
    assert(kinds.components.take(kinds.components.len() as int) =~= kinds.components);
    assert forall|kind: u64, i: int| 0 <= i < records.len() implies carried_over(
        remap,
        crate::restore::entity_mapping(records, fresh),
        kinds.remaps,
        kind,
        if kinds.components.contains(kind) {
            crate::world::component_of(source.components, kind, records[i].1)
        } else {
            None
        },
        #[trigger] crate::world::component_of(after.components, kind, fresh[i]),
    ) by {
        let now = crate::world::component_of(laid, kind, fresh[i]);
    }
}

/// The component of a type on the entity that carries an identifier.
pub open spec fn component_with_id<V>(world: WorldView<V>, kind: u64, id: RollbackId) -> Option<V> {
    match crate::world::entity_with(world.entities, id) {
        Some(entity) => crate::world::component_of(world.components, kind, entity),
        None => None,
    }
}

/// Where identifiers tell entities apart, the entity of a record is the one
/// that its identifier finds, and no other identifier finds any.
pub proof fn lemma_found_by_id(rows: Seq<EntityRow>)
    requires
        ids_distinct(rows),
    ensures
        forall|i: int|
            0 <= i < crate::world::identified(rows).len() ==> crate::world::entity_with(
                rows,
                (#[trigger] crate::world::identified(rows)[i]).0,
            ) == Some(crate::world::identified(rows)[i].1),
        forall|id: RollbackId| #[trigger]
            crate::world::entity_with(rows, id) is Some ==> has_record(
                crate::world::identified(rows),
                id,
            ),
{
    let records = crate::world::identified(rows);
    lemma_identified(rows);
    assert forall|i: int| 0 <= i < records.len() implies crate::world::entity_with(
        rows,
        (#[trigger] records[i]).0,
    ) == Some(records[i].1) by {
        assert(has_row(rows, records[i]));
        let at = choose|at: int|
            0 <= at < rows.len() && (#[trigger] rows[at]).id == Some(records[i].0)
                && rows[at].entity == records[i].1;
        let ask = crate::world::has_id(records[i].0);
        assert forall|j: int| 0 <= j < at implies !ask(#[trigger] rows[j]) by {
            if rows[j].id is Some {
                assert(rows[j].id != rows[at].id);
            }
        }
        crate::seqs::lemma_is_first_index(rows, ask, at);
    }
    assert forall|id: RollbackId| #[trigger]
        crate::world::entity_with(rows, id) is Some implies has_record(records, id) by {
        let ask = crate::world::has_id(id);
        let at = crate::seqs::first_index(rows, ask);
        crate::seqs::lemma_first_index(rows, ask);
        assert(rows[at].id == Some(id));
        let i = choose|i: int|
            0 <= i < records.len() && records[i] == (rows[at].id->0, rows[at].entity);
        assert(records[i].0 == id);
    }
}

} // verus!
