//! What the parts of a world are, and where things are found in it.

use crate::registry::RegistryView;
use crate::world::{Component, EntityRow, RollbackId, World, WorldView};
use vstd::prelude::*;

verus! {

/// What contracts say of a world, they say of what is in its fields.
pub proof fn law_world_is_its_fields<V>(world: World<V>)
    ensures
        world@.frame == world.frame,
        world@.paused == world.paused,
        world@.entities == world.entities@,
        world@.components == world.components@,
        world@.resources == world.resources@,
        world.ordered matches Some(ordered) ==> world@.ordered == Some(ordered@),
        world.ordered is None ==> world@.ordered is None,
        world.registry matches Some(registry) ==> world@.registry == Some(registry@),
        world.registry is None ==> world@.registry is None,
{
}

/// A world is in order when no entity is there twice, every component is on an
/// entity that is there, and no entity has two components of one type. Nothing
/// else is asked of it.
pub proof fn law_order_of_a_world<V>(world: WorldView<V>)
    ensures
        world.wf() <==> {
            &&& forall|i: int, j: int|
                0 <= i < j < world.entities.len() ==> (#[trigger] world.entities[i]).entity != (
                #[trigger] world.entities[j]).entity
            &&& forall|c: int|
                0 <= c < world.components.len() ==> is_there(
                    world.entities,
                    (#[trigger] world.components[c]).entity,
                )
            &&& forall|c: int, d: int|
                0 <= c < d < world.components.len() ==> (#[trigger] world.components[c]).kind != (
                #[trigger] world.components[d]).kind || world.components[c].entity
                    != world.components[d].entity
        },
{
    assert forall|c: int| 0 <= c < world.components.len() implies (is_there(
        world.entities,
        (#[trigger] world.components[c]).entity,
    ) <==> crate::world::contains_entity(world.entities, world.components[c].entity)) by {
        crate::world::lemma_contains_entity(world.entities, world.components[c].entity);
    }
}

/// Some row is the entity's.
pub open spec fn is_there(rows: Seq<EntityRow>, entity: u64) -> bool {
    exists|i: int| 0 <= i < rows.len() && (#[trigger] rows[i]).entity == entity
}

/// An entity is found by its first row, and has the identifier of that row.
pub proof fn law_entities_are_found(rows: Seq<EntityRow>, at: int)
    requires
        0 <= at < rows.len(),
        forall|i: int| 0 <= i < at ==> (#[trigger] rows[i]).entity != rows[at].entity,
    ensures
        crate::world::contains_entity(rows, rows[at].entity),
        crate::world::id_of(rows, rows[at].entity) == rows[at].id,
{
    crate::seqs::lemma_is_first_index(rows, crate::world::is_entity(rows[at].entity), at);
}

/// An entity without a row is not found.
pub proof fn law_missing_entities_are_not_found(rows: Seq<EntityRow>, entity: u64)
    requires
        forall|i: int| 0 <= i < rows.len() ==> (#[trigger] rows[i]).entity != entity,
    ensures
        !crate::world::contains_entity(rows, entity),
        crate::world::id_of(rows, entity) is None,
{
    let none = rows.len() as int;
    crate::seqs::lemma_is_first_index(rows, crate::world::is_entity(entity), none);
}

/// An identifier leads to the first entity that carries it.
pub proof fn law_identifiers_are_found(rows: Seq<EntityRow>, id: RollbackId, at: int)
    requires
        0 <= at < rows.len(),
        rows[at].id == Some(id),
        forall|i: int| 0 <= i < at ==> (#[trigger] rows[i]).id != Some(id),
    ensures
        crate::world::entity_with(rows, id) == Some(rows[at].entity),
{
    crate::seqs::lemma_is_first_index(rows, crate::world::has_id(id), at);
}

/// An identifier that nobody carries leads nowhere.
pub proof fn law_missing_identifiers_are_not_found(rows: Seq<EntityRow>, id: RollbackId)
    requires
        forall|i: int| 0 <= i < rows.len() ==> (#[trigger] rows[i]).id != Some(id),
    ensures
        crate::world::entity_with(rows, id) is None,
{
    crate::seqs::lemma_is_first_index(rows, crate::world::has_id(id), rows.len() as int);
}

/// The component of a type on an entity is the first that is listed for them.
pub proof fn law_components_are_found<V>(components: Seq<Component<V>>, at: int)
    requires
        0 <= at < components.len(),
        forall|i: int|
            0 <= i < at ==> (#[trigger] components[i]).kind != components[at].kind
                || components[i].entity != components[at].entity,
    ensures
        crate::world::component_of(components, components[at].kind, components[at].entity) == Some(
            components[at].value,
        ),
{
    let ask = crate::world::is_component::<V>(components[at].kind, components[at].entity);
    crate::seqs::lemma_is_first_index(components, ask, at);
}

/// A component that is not listed is not found.
pub proof fn law_missing_components_are_not_found<V>(
    components: Seq<Component<V>>,
    kind: u64,
    entity: u64,
)
    requires
        forall|i: int|
            0 <= i < components.len() ==> (#[trigger] components[i]).kind != kind
                || components[i].entity != entity,
    ensures
        crate::world::component_of(components, kind, entity) is None,
{
    let ask = crate::world::is_component::<V>(kind, entity);
    crate::seqs::lemma_is_first_index(components, ask, components.len() as int);
}

/// Putting a component on an entity puts it in the place of the one of its type
/// that is there.
pub proof fn law_component_is_replaced<V>(components: Seq<Component<V>>, at: int, value: V)
    requires
        0 <= at < components.len(),
        forall|i: int|
            0 <= i < at ==> (#[trigger] components[i]).kind != components[at].kind
                || components[i].entity != components[at].entity,
    ensures
        ({
            let (kind, entity) = (components[at].kind, components[at].entity);
            let after = crate::world::with_component(components, kind, entity, value);
            &&& after.len() == components.len()
            &&& after[at] == (Component { kind, entity, value })
            &&& forall|i: int|
                0 <= i < components.len() && i != at ==> #[trigger] after[i] == components[i]
        }),
{
    let ask = crate::world::is_component::<V>(components[at].kind, components[at].entity);
    crate::seqs::lemma_is_first_index(components, ask, at);
}

/// Where there is none of its type, it is put behind all others.
pub proof fn law_component_is_added<V>(
    components: Seq<Component<V>>,
    kind: u64,
    entity: u64,
    value: V,
)
    requires
        forall|i: int|
            0 <= i < components.len() ==> (#[trigger] components[i]).kind != kind
                || components[i].entity != entity,
    ensures
        ({
            let after = crate::world::with_component(components, kind, entity, value);
            &&& after.len() == components.len() + 1
            &&& after.last() == (Component { kind, entity, value })
            &&& after.drop_last() == components
        }),
{
    let ask = crate::world::is_component::<V>(kind, entity);
    crate::seqs::lemma_is_first_index(components, ask, components.len() as int);
    let after = crate::world::with_component(components, kind, entity, value);
    assert(after.drop_last() =~= components);
}

/// Entity rows at the places `from` are those that carry an identifier, in
/// order.
pub open spec fn identified_at(rows: Seq<EntityRow>, from: Seq<int>) -> bool {
    &&& forall|i: int|
        0 <= i < from.len() ==> 0 <= #[trigger] from[i] < rows.len() && rows[from[i]].id is Some
    &&& forall|i: int, j: int|
        0 <= i < j < from.len() ==> #[trigger] from[i] < #[trigger] from[j]
    &&& forall|at: int|
        0 <= at < rows.len() && (#[trigger] rows[at]).id is Some ==> from.contains(at)
}

/// The identified entities are those whose rows carry an identifier, all of
/// them, in the order of the rows.
pub proof fn law_identified_entities(rows: Seq<EntityRow>)
    ensures
        exists|from: Seq<int>| #[trigger]
            identified_at(rows, from) && crate::world::identified(rows) == Seq::new(
                from.len(),
                |i: int| (rows[from[i]].id->0, rows[from[i]].entity),
            ),
{
    let keep = |row: EntityRow| row.id is Some;
    let from = crate::seqs::lemma_filter_picks(rows, keep);
    assert forall|at: int| 0 <= at < rows.len() && (#[trigger] rows[at]).id is Some implies
        from.contains(at) by {
        assert(keep(rows[at]));
    }
    assert(identified_at(rows, from));
    assert(crate::world::identified(rows) =~= Seq::new(
        from.len(),
        |i: int| (rows[from[i]].id->0, rows[from[i]].entity),
    ));
}

/// The places `from` are those of the rows without the rollback marker, in
/// order.
pub open spec fn unmarked_at(rows: Seq<EntityRow>, from: Seq<int>) -> bool {
    &&& forall|i: int|
        0 <= i < from.len() ==> 0 <= #[trigger] from[i] < rows.len() && !rows[from[i]].rollback
    &&& forall|i: int, j: int|
        0 <= i < j < from.len() ==> #[trigger] from[i] < #[trigger] from[j]
    &&& forall|at: int|
        0 <= at < rows.len() && !(#[trigger] rows[at]).rollback ==> from.contains(at)
}

/// The entities that stay when the rollback entities are despawned are those
/// without the marker, all of them, in their order.
pub proof fn law_unmarked_entities_stay(rows: Seq<EntityRow>)
    ensures
        exists|from: Seq<int>| #[trigger]
            unmarked_at(rows, from) && crate::world::unmarked(rows) == Seq::new(
                from.len(),
                |i: int| rows[from[i]],
            ),
{
    let keep = |row: EntityRow| !row.rollback;
    let from = crate::seqs::lemma_filter_picks(rows, keep);
    assert forall|at: int| 0 <= at < rows.len() && !(#[trigger] rows[at]).rollback implies
        from.contains(at) by {
        assert(keep(rows[at]));
    }
    assert(unmarked_at(rows, from));
    assert(crate::world::unmarked(rows) =~= Seq::new(from.len(), |i: int| rows[from[i]]));
}

/// The places `from` are those of the components on entities that are there, in
/// order.
pub open spec fn placed_at<V>(
    rows: Seq<EntityRow>,
    components: Seq<Component<V>>,
    from: Seq<int>,
) -> bool {
    &&& forall|i: int|
        0 <= i < from.len() ==> 0 <= #[trigger] from[i] < components.len() && is_there(
            rows,
            components[from[i]].entity,
        )
    &&& forall|i: int, j: int|
        0 <= i < j < from.len() ==> #[trigger] from[i] < #[trigger] from[j]
    &&& forall|at: int|
        0 <= at < components.len() && is_there(rows, (#[trigger] components[at]).entity)
            ==> from.contains(at)
}

/// The components that stay are those on entities that are there, all of them,
/// in their order.
pub proof fn law_components_on_entities_stay<V>(
    rows: Seq<EntityRow>,
    components: Seq<Component<V>>,
)
    ensures
        exists|from: Seq<int>| #[trigger]
            placed_at(rows, components, from) && crate::world::components_on(rows, components)
                == Seq::new(from.len(), |i: int| components[from[i]]),
{
    let keep = |component: Component<V>| crate::world::contains_entity(rows, component.entity);
    let from = crate::seqs::lemma_filter_picks(components, keep);
    assert forall|i: int| 0 <= i < from.len() implies 0 <= #[trigger] from[i] < components.len()
        && is_there(rows, components[from[i]].entity) by {
        crate::world::lemma_contains_entity(rows, components[from[i]].entity);
    }
    assert forall|at: int|
        0 <= at < components.len() && is_there(rows, (#[trigger] components[at]).entity) implies
        from.contains(at) by {
        crate::world::lemma_contains_entity(rows, components[at].entity);
        assert(keep(components[at]));
    }
    assert(placed_at(rows, components, from));
    assert(crate::world::components_on(rows, components) =~= Seq::new(
        from.len(),
        |i: int| components[from[i]],
    ));
}

/// Some row gives the entity an identifier.
pub open spec fn carries(rows: Seq<EntityRow>, entity: u64, id: RollbackId) -> bool {
    exists|at: int|
        0 <= at < rows.len() && (#[trigger] rows[at]).entity == entity && rows[at].id == Some(id)
}

/// Some row gives the entity some identifier.
pub open spec fn carries_any(rows: Seq<EntityRow>, entity: u64) -> bool {
    exists|at: int|
        0 <= at < rows.len() && (#[trigger] rows[at]).entity == entity && rows[at].id is Some
}

/// What an entity carries is what is found for it.
pub proof fn lemma_carried(rows: Seq<EntityRow>, entity: u64)
    requires
        crate::world::entities_distinct(rows),
    ensures
        carries_any(rows, entity) <==> crate::world::id_of(rows, entity) is Some,
        forall|id: RollbackId| #[trigger]
            carries(rows, entity, id) <==> crate::world::id_of(rows, entity) == Some(id),
{
    let ask = crate::world::is_entity(entity);
    let first = crate::seqs::first_index(rows, ask);
    crate::seqs::lemma_first_index(rows, ask);
    if first < rows.len() {
        assert(rows[first].entity == entity);
    }
    assert forall|at: int| 0 <= at < rows.len() && (#[trigger] rows[at]).entity == entity implies at
        == first by {
        assert(ask(rows[at]));
        assert(first < at ==> rows[first].entity != rows[at].entity);
    }
}

/// The places `from` are those of the components of a type on entities that
/// carry an identifier, in order.
pub open spec fn captured_at<V>(
    rows: Seq<EntityRow>,
    components: Seq<Component<V>>,
    kind: u64,
    from: Seq<int>,
) -> bool {
    &&& forall|i: int|
        0 <= i < from.len() ==> 0 <= #[trigger] from[i] < components.len()
            && components[from[i]].kind == kind && carries_any(rows, components[from[i]].entity)
    &&& forall|i: int, j: int|
        0 <= i < j < from.len() ==> #[trigger] from[i] < #[trigger] from[j]
    &&& forall|at: int|
        0 <= at < components.len() && (#[trigger] components[at]).kind == kind && carries_any(
            rows,
            components[at].entity,
        ) ==> from.contains(at)
}

/// The components of a type that are captured are those on entities with an
/// identifier, all of them, in their order, each with that identifier.
pub proof fn law_identified_components<V>(
    rows: Seq<EntityRow>,
    components: Seq<Component<V>>,
    kind: u64,
)
    requires
        forall|i: int, j: int|
            0 <= i < j < rows.len() ==> (#[trigger] rows[i]).entity != (#[trigger] rows[j]).entity,
    ensures
        exists|from: Seq<int>| #[trigger]
            captured_at(rows, components, kind, from) && ({
                let found = crate::world::identified_components(rows, components, kind);
                &&& found.len() == from.len()
                &&& forall|i: int|
                    0 <= i < from.len() ==> (#[trigger] found[i]).1 == components[from[i]].value
                        && carries(rows, components[from[i]].entity, found[i].0)
            }),
{
    let keep = |component: Component<V>|
        component.kind == kind && crate::world::id_of(rows, component.entity) is Some;
    let pair = |component: Component<V>|
        (crate::world::id_of(rows, component.entity)->0, component.value);
    let kept = components.filter(keep);
    let found = crate::world::identified_components(rows, components, kind);
    assert(found == kept.map_values(pair));
    let from = crate::seqs::lemma_filter_picks(components, keep);
    assert forall|i: int| 0 <= i < from.len() implies 0 <= #[trigger] from[i] < components.len()
        && components[from[i]].kind == kind && carries_any(rows, components[from[i]].entity) by {
        lemma_carried(rows, components[from[i]].entity);
    }
    assert forall|at: int|
        0 <= at < components.len() && (#[trigger] components[at]).kind == kind && carries_any(
            rows,
            components[at].entity,
        ) implies from.contains(at) by {
        lemma_carried(rows, components[at].entity);
        assert(keep(components[at]));
    }
    assert(captured_at(rows, components, kind, from));
    assert forall|i: int| 0 <= i < from.len() implies (#[trigger] found[i]).1
        == components[from[i]].value && carries(
        rows,
        components[from[i]].entity,
        found[i].0,
    ) by {
        assert(kept[i] == components[from[i]]);
        assert(found[i] == pair(kept[i]));
        assert(keep(components[from[i]]));
        lemma_carried(rows, components[from[i]].entity);
    }
}

/// References follow the map, and stay where it says nothing of them.
pub proof fn law_references_follow_the_map(map: Map<u64, u64>, entity: u64)
    ensures
        map.contains_key(entity) ==> crate::entity::mapped(map, entity) == map[entity],
        !map.contains_key(entity) ==> crate::entity::mapped(map, entity) == entity,
{
}

/// Bits are those of an entity exactly when their low half is not zero.
pub proof fn law_bits_of_entities(bits: u64)
    ensures
        crate::entity::valid_entity_bits(bits) <==> bits & 0xffff_ffff != 0,
{
    assert(bits % 0x1_0000_0000 == bits & 0xffff_ffff) by (bit_vector);
}

/// Captured entities can be told from other bits one by one.
pub proof fn law_valid_records(records: Seq<(RollbackId, u64)>)
    ensures
        crate::restore::entities_valid(records) <==> forall|i: int|
            0 <= i < records.len() ==> (#[trigger] records[i]).1 % 0x1_0000_0000 != 0,
{
    if crate::restore::entities_valid(records) {
        assert forall|i: int| 0 <= i < records.len() implies (#[trigger] records[i]).1
            % 0x1_0000_0000 != 0 by {
            assert(crate::entity::valid_entity_bits(records[i].1));
        }
    }
}

/// A registry begins with nothing in it.
pub proof fn law_registry_begins_empty()
    ensures
        crate::registry::empty_registry() == (RegistryView {
            components: Seq::empty(),
            resources: Seq::empty(),
            remaps: Seq::empty(),
        }),
{
}

} // verus!
