//! The part of a game world that snapshots read and write, as plain values.

use crate::registry::WorldSyncRegistry;
use crate::seqs::position_where;
use std::collections::HashMap;
use vstd::prelude::*;

verus! {

broadcast use vstd::std_specs::hash::group_hash_axioms;

/// Identifies an entity that takes part in rollback, on every peer alike.
#[derive(Clone, Copy, PartialEq, Eq, Structural, Debug)]
pub struct RollbackId(pub u64);

impl RollbackId {
    /// The identifier with these bits.
    pub fn from_bits(bits: u64) -> (id: Self)
        ensures
            id == RollbackId(bits),
    {
        RollbackId(bits)
    }

    /// The identifier's bits.
    pub fn to_bits(self) -> (bits: u64)
        ensures
            bits == self.0,
    {
        self.0
    }
}

/// The frame that the simulation has reached.
#[derive(Clone, Copy, PartialEq, Eq, Structural, Debug)]
pub struct RollbackFrameCount(pub i32);

/// Whether the session has stopped advancing frames.
#[derive(Clone, Copy, PartialEq, Eq, Structural, Debug)]
pub struct GgrsPaused(pub bool);

/// The order in which rollback entities are walked.
#[derive(Clone, Debug)]
pub struct RollbackOrdered {
    sorted: Vec<RollbackId>,
}

impl View for RollbackOrdered {
    type V = Seq<RollbackId>;

    closed spec fn view(&self) -> Seq<RollbackId> {
        self.sorted@
    }
}

impl Default for RollbackOrdered {
    fn default() -> (ordered: Self)
        ensures
            ordered@ == Seq::<RollbackId>::empty(),
    {
        RollbackOrdered { sorted: Vec::new() }
    }
}

impl RollbackOrdered {
    /// The order that `ids` stand in.
    pub fn from_sorted_ids(ids: Vec<RollbackId>) -> (ordered: Self)
        ensures
            ordered@ == ids@,
    {
        RollbackOrdered { sorted: ids }
    }

    /// The identifiers in order.
    pub fn iter_sorted(&self) -> (ids: &Vec<RollbackId>)
        ensures
            ids@ == self@,
    {
        &self.sorted
    }
}

/// An entity, in its bit form, with what marks it for rollback.
#[derive(Clone, Copy, PartialEq, Eq, Structural, Debug)]
pub struct EntityRow {
    /// The entity's bits.
    pub entity: u64,
    /// Whether the entity carries the rollback marker.
    pub rollback: bool,
    /// The entity's identifier, if it has been given one.
    pub id: Option<RollbackId>,
}

/// A component on an entity. `kind` tells component types apart.
pub struct Component<V> {
    pub kind: u64,
    pub entity: u64,
    pub value: V,
}

/// The part of a world that snapshots read and write. Entities stand in the
/// order in which a query walks them, and so do components.
pub struct World<V> {
    /// The frame that the simulation has reached, if it counts frames.
    pub frame: Option<RollbackFrameCount>,
    /// The rollback order, if there is one.
    pub ordered: Option<RollbackOrdered>,
    /// Whether the session is paused, if the world can pause.
    pub paused: Option<GgrsPaused>,
    /// The types that take part in snapshots.
    pub registry: Option<WorldSyncRegistry>,
    /// The entities.
    pub entities: Vec<EntityRow>,
    /// The components on them.
    pub components: Vec<Component<V>>,
    /// The resources, by type.
    pub resources: HashMap<u64, V>,
}

/// What a world holds.
#[verifier::ext_equal]
#[verifier::reject_recursive_types(V)]
pub struct WorldView<V> {
    pub frame: Option<RollbackFrameCount>,
    pub ordered: Option<Seq<RollbackId>>,
    pub paused: Option<GgrsPaused>,
    pub registry: Option<crate::registry::RegistryView>,
    pub entities: Seq<EntityRow>,
    pub components: Seq<Component<V>>,
    pub resources: Map<u64, V>,
}

impl<V> View for World<V> {
    type V = WorldView<V>;

    open spec fn view(&self) -> WorldView<V> {
        WorldView {
            frame: self.frame,
            ordered: match self.ordered {
                Some(ordered) => Some(ordered@),
                None => None,
            },
            paused: self.paused,
            registry: match self.registry {
                Some(registry) => Some(registry@),
                None => None,
            },
            entities: self.entities@,
            components: self.components@,
            resources: self.resources@,
        }
    }
}

/// The test for the row of an entity.
pub open spec fn is_entity(entity: u64) -> spec_fn(EntityRow) -> bool {
    |row: EntityRow| row.entity == entity
}

/// The test for the row that carries an identifier.
pub open spec fn has_id(id: RollbackId) -> spec_fn(EntityRow) -> bool {
    |row: EntityRow| row.id == Some(id)
}

/// The test for the component of a type on an entity.
pub open spec fn is_component<V>(kind: u64, entity: u64) -> spec_fn(Component<V>) -> bool {
    |component: Component<V>| component.kind == kind && component.entity == entity
}

/// Whether the world has the entity.
pub open spec fn contains_entity(rows: Seq<EntityRow>, entity: u64) -> bool {
    crate::seqs::first_index(rows, is_entity(entity)) < rows.len()
}

/// The identifier that an entity carries, if any.
pub open spec fn id_of(rows: Seq<EntityRow>, entity: u64) -> Option<RollbackId> {
    let at = crate::seqs::first_index(rows, is_entity(entity));
    if at < rows.len() {
        rows[at].id
    } else {
        None
    }
}

/// The first entity that carries an identifier.
pub open spec fn entity_with(rows: Seq<EntityRow>, id: RollbackId) -> Option<u64> {
    let at = crate::seqs::first_index(rows, has_id(id));
    if at < rows.len() {
        Some(rows[at].entity)
    } else {
        None
    }
}

/// The component of a type on an entity, if there is one.
pub open spec fn component_of<V>(components: Seq<Component<V>>, kind: u64, entity: u64) -> Option<
    V,
> {
    let at = crate::seqs::first_index(components, is_component(kind, entity));
    if at < components.len() {
        Some(components[at].value)
    } else {
        None
    }
}

/// The components after one was put on an entity: in the place of the one that
/// it replaces, or behind all others.
pub open spec fn with_component<V>(
    components: Seq<Component<V>>,
    kind: u64,
    entity: u64,
    value: V,
) -> Seq<Component<V>> {
    let at = crate::seqs::first_index(components, is_component(kind, entity));
    let component = Component { kind, entity, value };
    if at < components.len() {
        components.update(at, component)
    } else {
        components.push(component)
    }
}

/// The entities with an identifier, as pairs.
pub open spec fn identified(rows: Seq<EntityRow>) -> Seq<(RollbackId, u64)> {
    rows.filter(|row: EntityRow| row.id is Some).map_values(
        |row: EntityRow| (row.id->0, row.entity),
    )
}

/// The components of a type on entities with an identifier.
pub open spec fn identified_components<V>(
    rows: Seq<EntityRow>,
    components: Seq<Component<V>>,
    kind: u64,
) -> Seq<(RollbackId, V)> {
    components.filter(
        |component: Component<V>| component.kind == kind && id_of(rows, component.entity) is Some,
    ).map_values(|component: Component<V>| (id_of(rows, component.entity)->0, component.value))
}

/// The entities that stay when everything marked for rollback is despawned.
pub open spec fn unmarked(rows: Seq<EntityRow>) -> Seq<EntityRow> {
    rows.filter(|row: EntityRow| !row.rollback)
}

/// The components on entities that the world has.
pub open spec fn components_on<V>(rows: Seq<EntityRow>, components: Seq<Component<V>>) -> Seq<
    Component<V>,
> {
    components.filter(|component: Component<V>| contains_entity(rows, component.entity))
}

/// No entity has two rows.
pub open spec fn entities_distinct(rows: Seq<EntityRow>) -> bool {
    forall|i: int, j: int|
        0 <= i < j < rows.len() ==> (#[trigger] rows[i]).entity != (#[trigger] rows[j]).entity
}

/// Every component is on an entity of the world, and no entity has two
/// components of one type.
pub open spec fn components_placed<V>(rows: Seq<EntityRow>, components: Seq<Component<V>>) -> bool {
    &&& forall|i: int|
        0 <= i < components.len() ==> contains_entity(rows, (#[trigger] components[i]).entity)
    &&& forall|i: int, j: int|
        0 <= i < j < components.len() ==> (#[trigger] components[i]).kind != (
        #[trigger] components[j]).kind || components[i].entity != components[j].entity
}

impl<V> WorldView<V> {
    /// The world is in order: entities are told apart, and components have
    /// their places.
    pub open spec fn wf(self) -> bool {
        &&& entities_distinct(self.entities)
        &&& components_placed(self.entities, self.components)
    }
}

impl<V> World<V> {
    /// A world with nothing in it.
    pub fn new() -> (world: Self)
        ensures
            world@ == (WorldView::<V> {
                frame: None,
                ordered: None,
                paused: None,
                registry: None,
                entities: Seq::empty(),
                components: Seq::empty(),
                resources: Map::empty(),
            }),
            world@.wf(),
    {
        World {
            frame: None,
            ordered: None,
            paused: None,
            registry: None,
            entities: Vec::new(),
            components: Vec::new(),
            resources: HashMap::new(),
        }
    }

    /// Adds an entity that the world does not have.
    pub fn spawn(&mut self, row: EntityRow)
        requires
            old(self)@.wf(),
            !contains_entity(old(self)@.entities, row.entity),
        ensures
            final(self)@ == (WorldView {
                entities: old(self)@.entities.push(row),
                ..old(self)@
            }),
            final(self)@.wf(),
    {
        proof {
            lemma_spawn_keeps_order(self@, row);
        }
        self.entities.push(row);
    }

    /// Where the row of an entity stands.
    fn row_index(&self, entity: u64) -> (at: usize)
        ensures
            at == crate::seqs::first_index(self@.entities, is_entity(entity)),
            at <= self@.entities.len(),
    {
        let test = |row: &EntityRow| -> (met: bool)
            ensures
                met == (row.entity == entity),
            { row.entity == entity };
        position_where(&self.entities, &test, Ghost(is_entity(entity)))
    }

    /// The identifier that an entity carries, if any.
    pub fn id_of(&self, entity: u64) -> (id: Option<RollbackId>)
        ensures
            id == id_of(self@.entities, entity),
    {
        let at: usize = self.row_index(entity);
        if at < self.entities.len() {
            self.entities[at].id
        } else {
            None
        }
    }

    /// The first entity that carries an identifier.
    pub fn entity_with(&self, id: RollbackId) -> (entity: Option<u64>)
        ensures
            entity == entity_with(self@.entities, id),
    {
        let test = |row: &EntityRow| -> (met: bool)
            ensures
                met == (row.id == Some(id)),
            {
                match row.id {
                    Some(found) => found == id,
                    None => false,
                }
            };
        let at: usize = position_where(&self.entities, &test, Ghost(has_id(id)));
        if at < self.entities.len() {
            Some(self.entities[at].entity)
        } else {
            None
        }
    }

    /// Where the component of a type on an entity stands.
    fn component_index(&self, kind: u64, entity: u64) -> (at: usize)
        ensures
            at == crate::seqs::first_index(self@.components, is_component(kind, entity)),
            at <= self@.components.len(),
    {
        let test = |component: &Component<V>| -> (met: bool)
            ensures
                met == (component.kind == kind && component.entity == entity),
            { component.kind == kind && component.entity == entity };
        position_where(&self.components, &test, Ghost(is_component(kind, entity)))
    }

    /// The component of a type on an entity, if there is one.
    pub fn component(&self, kind: u64, entity: u64) -> (value: Option<&V>)
        ensures
            match component_of(self@.components, kind, entity) {
                Some(found) => value matches Some(v) && *v == found,
                None => value is None,
            },
    {
        let at: usize = self.component_index(kind, entity);
        if at < self.components.len() {
            Some(&self.components[at].value)
        } else {
            None
        }
    }

    /// Puts a component on an entity that the world has, in the place of the
    /// one of the same type.
    pub fn insert_component(&mut self, kind: u64, entity: u64, value: V)
        requires
            old(self)@.wf(),
            contains_entity(old(self)@.entities, entity),
        ensures
            final(self)@ == (WorldView {
                components: with_component(old(self)@.components, kind, entity, value),
                ..old(self)@
            }),
            final(self)@.wf(),
    {
        let at: usize = self.component_index(kind, entity);
        proof {
            lemma_component_keeps_order(self@, kind, entity, value);
        }
        let component = Component { kind, entity, value };
        if at < self.components.len() {
            self.components[at] = component;
        } else {
            self.components.push(component);
        }
    }

    /// Despawns every entity that carries the rollback marker.
    pub fn despawn_all_rollback(&mut self)
        requires
            old(self)@.wf(),
        ensures
            final(self)@ == (WorldView {
                entities: unmarked(old(self)@.entities),
                components: components_on(unmarked(old(self)@.entities), old(self)@.components),
                ..old(self)@
            }),
            final(self)@.wf(),
    {
        let ghost keep_row = |row: EntityRow| !row.rollback;
        let mut rows: Vec<EntityRow> = Vec::new();
        let mut i: usize = 0;
        assert(rows@ =~= self.entities@.take(0).filter(keep_row)) by {
            reveal(Seq::filter);
        }
        while i < self.entities.len()
            invariant
                i <= self.entities.len(),
                keep_row == (|row: EntityRow| !row.rollback),
                rows@ == self.entities@.take(i as int).filter(keep_row),
            decreases self.entities.len() - i,
        {
            let row: EntityRow = self.entities[i];
            proof {
                crate::seqs::lemma_filter_step(self.entities@, i as int, keep_row);
            }
            if !row.rollback {
                rows.push(row);
            }
            i = i + 1;
        }
        assert(self.entities@.take(i as int) =~= self.entities@);
        proof {
            lemma_despawn_keeps_order(self@);
        }
        self.entities = rows;
        let ghost stay = self.entities@;
        let ghost keep = |component: Component<V>| contains_entity(stay, component.entity);
        let mut components: Vec<Component<V>> = Vec::new();
        std::mem::swap(&mut components, &mut self.components);
        let ghost all = components@;
        assert(self.components@ =~= all.take(0).filter(keep)) by {
            reveal(Seq::filter);
        }
        for component in iter: components
            invariant
                iter.seq() == all,
                self.entities@ == stay,
                keep == (|component: Component<V>| contains_entity(stay, component.entity)),
                self.components@ == all.take(iter.index()).filter(keep),
                self.frame == old(self).frame,
                self.ordered == old(self).ordered,
                self.paused == old(self).paused,
                self.registry == old(self).registry,
                self.resources == old(self).resources,
        {
            proof {
                crate::seqs::lemma_filter_step(all, iter.index(), keep);
            }
            if self.has_entity(component.entity) {
                self.components.push(component);
            }
        }
        assert(all.take(all.len() as int) =~= all);
    }

    /// Whether the world has the entity.
    pub fn has_entity(&self, entity: u64) -> (found: bool)
        ensures
            found == contains_entity(self@.entities, entity),
    {
        self.row_index(entity) < self.entities.len()
    }

    /// The entities with an identifier, in the order in which they stand.
    pub fn identified(&self) -> (records: Vec<(RollbackId, u64)>)
        ensures
            records@ == identified(self@.entities),
    {
        let ghost keep = |row: EntityRow| row.id is Some;
        let ghost pair = |row: EntityRow| (row.id->0, row.entity);
        let mut records: Vec<(RollbackId, u64)> = Vec::new();
        let mut i: usize = 0;
        assert(records@ =~= self.entities@.take(0).filter(keep).map_values(pair)) by {
            reveal(Seq::filter);
        }
        while i < self.entities.len()
            invariant
                i <= self.entities.len(),
                keep == (|row: EntityRow| row.id is Some),
                pair == (|row: EntityRow| (row.id->0, row.entity)),
                records@ == self.entities@.take(i as int).filter(keep).map_values(pair),
            decreases self.entities.len() - i,
        {
            let ghost done = self.entities@.take(i as int).filter(keep);
            proof {
                crate::seqs::lemma_filter_step(self.entities@, i as int, keep);
                assert(done.push(self.entities@[i as int]).map_values(pair)
                    =~= done.map_values(pair).push(pair(self.entities@[i as int])));
            }
            if let Some(id) = self.entities[i].id {
                records.push((id, self.entities[i].entity));
            }
            i = i + 1;
        }
        assert(self.entities@.take(i as int) =~= self.entities@);
        records
    }

    /// The resource of a type, if there is one.
    pub fn resource(&self, kind: u64) -> (value: Option<&V>)
        ensures
            match value {
                Some(v) => self@.resources.contains_key(kind) && *v == self@.resources[kind],
                None => !self@.resources.contains_key(kind),
            },
    {
        self.resources.get(&kind)
    }

    /// Puts a resource in place.
    pub fn insert_resource(&mut self, kind: u64, value: V)
        ensures
            final(self)@ == (WorldView {
                resources: old(self)@.resources.insert(kind, value),
                ..old(self)@
            }),
    {
        self.resources.insert(kind, value);
    }

    /// Takes a resource out, if it is there.
    pub fn remove_resource(&mut self, kind: u64)
        ensures
            final(self)@ == (WorldView {
                resources: old(self)@.resources.remove(kind),
                ..old(self)@
            }),
    {
        self.resources.remove(&kind);
    }
}

/// An entity is in a world exactly when it has a row.
pub proof fn lemma_contains_entity(rows: Seq<EntityRow>, entity: u64)
    ensures
        contains_entity(rows, entity) <==> exists|i: int|
            0 <= i < rows.len() && (#[trigger] rows[i]).entity == entity,
{
    let at = crate::seqs::first_index(rows, is_entity(entity));
    crate::seqs::lemma_first_index(rows, is_entity(entity));
    if exists|i: int| 0 <= i < rows.len() && (#[trigger] rows[i]).entity == entity {
        let i = choose|i: int| 0 <= i < rows.len() && (#[trigger] rows[i]).entity == entity;
        assert(is_entity(entity)(rows[i]));
    }
    if at < rows.len() {
        assert(rows[at].entity == entity);
    }
}

/// An entity more keeps a world in order.
proof fn lemma_spawn_keeps_order<V>(world: WorldView<V>, row: EntityRow)
    requires
        world.wf(),
        !contains_entity(world.entities, row.entity),
    ensures
        (WorldView { entities: world.entities.push(row), ..world }).wf(),
{
    let rows = world.entities.push(row);
    lemma_contains_entity(world.entities, row.entity);
    assert forall|i: int| 0 <= i < world.components.len() implies contains_entity(
        rows,
        (#[trigger] world.components[i]).entity,
    ) by {
        let entity = world.components[i].entity;
        lemma_contains_entity(world.entities, entity);
        lemma_contains_entity(rows, entity);
        let at = choose|at: int|
            0 <= at < world.entities.len() && (#[trigger] world.entities[at]).entity == entity;
        assert(rows[at].entity == entity);
    }
}

/// A component more, or another in its place, keeps a world in order.
proof fn lemma_component_keeps_order<V>(world: WorldView<V>, kind: u64, entity: u64, value: V)
    requires
        world.wf(),
        contains_entity(world.entities, entity),
    ensures
        (WorldView {
            components: with_component(world.components, kind, entity, value),
            ..world
        }).wf(),
{
    let test = is_component::<V>(kind, entity);
    let at = crate::seqs::first_index(world.components, test);
    crate::seqs::lemma_first_index(world.components, test);
    let after = with_component(world.components, kind, entity, value);
    assert forall|i: int, j: int| 0 <= i < j < after.len() implies (#[trigger] after[i]).kind != (
    #[trigger] after[j]).kind || after[i].entity != after[j].entity by {
        if at < world.components.len() {
            assert(test(world.components[at]));
            assert(world.components[i].kind != world.components[j].kind
                || world.components[i].entity != world.components[j].entity);
        } else if j < world.components.len() {
            assert(world.components[i].kind != world.components[j].kind
                || world.components[i].entity != world.components[j].entity);
        } else {
            assert(!test(world.components[i]));
        }
    }
    assert forall|i: int| 0 <= i < after.len() implies contains_entity(
        world.entities,
        (#[trigger] after[i]).entity,
    ) by {
        if i != at && i < world.components.len() {
            assert(contains_entity(world.entities, world.components[i].entity));
        }
    }
}

/// Despawning keeps a world in order.
pub proof fn lemma_despawn_keeps_order<V>(world: WorldView<V>)
    requires
        world.wf(),
    ensures
        (WorldView {
            entities: unmarked(world.entities),
            components: components_on(unmarked(world.entities), world.components),
            ..world
        }).wf(),
{
    let keep_row = |row: EntityRow| !row.rollback;
    let rows = unmarked(world.entities);
    crate::seqs::lemma_filter_pairs(
        world.entities,
        keep_row,
        |a: EntityRow, b: EntityRow| a.entity != b.entity,
    );
    let keep = |component: Component<V>| contains_entity(rows, component.entity);
    crate::seqs::lemma_filter_members(world.components, keep);
    crate::seqs::lemma_filter_pairs(
        world.components,
        keep,
        |a: Component<V>, b: Component<V>| a.kind != b.kind || a.entity != b.entity,
    );
    assert(components_on(rows, world.components) == world.components.filter(keep));
}

/// What contracts say of an order, they say of the identifiers in it.
proof fn law_order_is_its_identifiers(ordered: RollbackOrdered)
    ensures
        ordered@ == ordered.sorted@,
{
}

} // verus!
