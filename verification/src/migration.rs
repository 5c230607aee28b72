//! Session migration (pause, snapshot, destroy, create, restore, resume).

use crate::entity::EntityMap;
use crate::snapshot::{SnapshotView, WorldSyncSnapshot};
use crate::world::{EntityRow, GgrsPaused, World, WorldView};
use vstd::prelude::*;

verus! {

/// Manages a session migration.
///
/// This is a two-phase process coordinated by the game:
///
/// 1. The host calls [`GgrsMigration::prepare`], which pauses the session and
///    captures a full snapshot.
/// 2. The game destroys the old session and creates a new one with the
///    updated player list.
/// 3. The host calls [`GgrsMigration::finish`], which restores the snapshot
///    into the world and resumes the session.
///
/// For late-join, the snapshot bytes are sent to the client between steps 1
/// and 3, and the client restores independently.
pub struct GgrsMigration {
    snapshot: WorldSyncSnapshot,
}

impl View for GgrsMigration {
    type V = SnapshotView;

    closed spec fn view(&self) -> SnapshotView {
        self.snapshot@
    }
}

/// The pause switch of a world set to `on`; a world without one keeps none.
pub open spec fn switched(paused: Option<GgrsPaused>, on: bool) -> Option<GgrsPaused> {
    match paused {
        Some(_) => Some(GgrsPaused(on)),
        None => None,
    }
}

impl GgrsMigration {
    /// Prepares for session migration: pauses the session and captures a
    /// snapshot.
    pub fn prepare<V, E: Fn(u64, &V) -> Option<Vec<u8>>>(
        world: &mut World<V>,
        encode: &E,
    ) -> (migration: Self)
        requires
            crate::capture::encodes_all(*encode),
        ensures
            final(world)@ == (WorldView {
                paused: switched(old(world)@.paused, true),
                ..old(world)@
            }),
            crate::capture::captured(*encode, old(world)@, migration@),
    {
        if world.paused.is_some() {
            world.paused = Some(GgrsPaused(true));
        }
        let snapshot = WorldSyncSnapshot::capture(world, encode);
        GgrsMigration { snapshot }
    }

    /// Returns a reference to the captured snapshot.
    pub fn snapshot(&self) -> (snapshot: &WorldSyncSnapshot)
        ensures
            snapshot@ == self@,
    {
        &self.snapshot
    }

    /// Consumes the migration and returns the snapshot.
    pub fn into_snapshot(self) -> (snapshot: WorldSyncSnapshot)
        ensures
            snapshot@ == self@,
    {
        self.snapshot
    }

    /// Finishes session migration: restores the snapshot and resumes the
    /// session. What `fresh`, `decode` and `remap` are for, see
    /// [`WorldSyncSnapshot::restore`].
    pub fn finish<V, D: Fn(u64, &Vec<u8>) -> Option<V>, M: Fn(u64, &V, &EntityMap) -> V>(
        world: &mut World<V>,
        snapshot: WorldSyncSnapshot,
        fresh: &Vec<u64>,
        decode: &D,
        remap: &M,
    )
        requires
            old(world)@.wf(),
            crate::restore::decodes_all(*decode),
            crate::restore::can_remap(*decode, *remap, old(world)@),
            crate::restore::entities_valid(
                crate::sections::entity_records(snapshot@.entity_data),
            ),
            crate::restore::fresh_for(
                crate::world::unmarked(old(world)@.entities),
                crate::sections::entity_records(snapshot@.entity_data).len(),
                fresh@,
            ),
        ensures
            final(world)@.wf(),
            final(world)@.paused == switched(old(world)@.paused, false),
            crate::restore::restored(
                snapshot@,
                *decode,
                *remap,
                fresh@,
                old(world)@,
                (WorldView { paused: old(world)@.paused, ..final(world)@ }),
            ),
    {
        snapshot.restore(world, fresh, decode, remap);
        let ghost restored = world@;
        if world.paused.is_some() {
            world.paused = Some(GgrsPaused(false));
        }
        assert(restored == (WorldView { paused: old(world)@.paused, ..world@ }));
    }
}

/// A migration preserves the world. Between preparing and finishing the session
/// is paused, and it runs afterwards, if the world can pause at all. Frame and
/// order are what they were, every identified entity has its identifier and the
/// components of the registered types, and every resource of a registered type
/// its value.
pub proof fn law_migration_preserves_world<
    V,
    E: Fn(u64, &V) -> Option<Vec<u8>>,
    D: Fn(u64, &Vec<u8>) -> Option<V>,
    M: Fn(u64, &V, &EntityMap) -> V,
>(
    encode: E,
    decode: D,
    remap: M,
    start: WorldView<V>,
    snapshot: SnapshotView,
    held: WorldView<V>,
    fresh: Seq<u64>,
    end: WorldView<V>,
)
    requires
        start.wf(),
        crate::restore_lemmas::ids_marked(start.entities),
        crate::restore_lemmas::ids_distinct(start.entities),
        crate::capture_laws::faithful(encode, decode, start),
        crate::restore::fresh_for(
            crate::world::unmarked(start.entities),
            crate::world::identified(start.entities).len(),
            fresh,
        ),
        // What `prepare` leaves.
        held == (WorldView { paused: switched(start.paused, true), ..start }),
        crate::capture_laws::captured_in_full(encode, start, snapshot),
        // What `finish` leaves.
        end.paused == switched(held.paused, false),
        crate::restore::restored(
            snapshot,
            decode,
            remap,
            fresh,
            held,
            (WorldView { paused: held.paused, ..end }),
        ),
    ensures
        held.paused == switched(start.paused, true),
        end.paused == switched(start.paused, false),
        start.paused is Some ==> held.paused == Some(GgrsPaused(true)) && end.paused == Some(
            GgrsPaused(false),
        ),
        start.paused is None ==> held.paused is None && end.paused is None,
        end.registry == start.registry,
        crate::restore_laws::entities_back(remap, start, start, fresh, end),
        crate::restore_laws::resources_back(start, start.resources, end.resources),
{
    let rows = start.entities;
    let stay = crate::world::unmarked(rows);
    let plain = |row: EntityRow| !row.rollback;
    let restored = WorldView { paused: held.paused, ..end };
    crate::seqs::lemma_filter_members(rows, plain);
    assert forall|i: int, j: int|
        0 <= i < stay.len() && 0 <= j < rows.len() && (#[trigger] stay[i]).id is Some implies
        stay[i].id != (#[trigger] rows[j]).id by {
        assert(rows.contains(stay[i]));
        let at = choose|at: int| 0 <= at < rows.len() && rows[at] == stay[i];
        assert(rows[at].rollback);
    }
    crate::restore_laws::law_restore_undoes_capture(
        encode,
        decode,
        remap,
        start,
        snapshot,
        fresh,
        held,
        restored,
    );
}

/// What contracts say of a migration, they say of the snapshot in it.
proof fn law_migration_is_its_snapshot(migration: GgrsMigration)
    ensures
        migration@ == migration.snapshot@,
{
}

} // verus!
