//! Snapshot and restore of component data on rollback entities.
//!
//! [`ComponentSnapshotPlugin`] saves all instances of a component type each
//! frame and restores them during rollback using a configurable [`Strategy`].
//! [`ImmutableComponentSnapshotPlugin`] provides the same behaviour for
//! immutable components, which must be re-inserted rather than mutated in
//! place.

use crate::component_history::{GgrsComponentSnapshot, GgrsComponentSnapshots};
use crate::strategy::Strategy;
use crate::world::{RollbackFrameCount, RollbackId};
use std::marker::PhantomData;
use vstd::prelude::*;

verus! {

/// Manages snapshots for a component using a provided [`Strategy`].
pub struct ComponentSnapshotPlugin<S: Strategy> {
    _phantom: PhantomData<S>,
}

/// Manages snapshots for a component using a provided [`Strategy`] that works
/// with immutable components.
pub struct ImmutableComponentSnapshotPlugin<S: Strategy> {
    _phantom: PhantomData<S>,
}

/// `entries` are what the strategy keeps of `rows`.
pub open spec fn kept<S: Strategy>(
    rows: Seq<(RollbackId, &S::Target)>,
    entries: Seq<(RollbackId, S::Stored)>,
) -> bool {
    &&& entries.len() == rows.len()
    &&& forall|i: int|
        #![trigger rows[i]]
        #![trigger entries[i]]
        0 <= i < rows.len() ==> entries[i].0 == rows[i].0 && S::stores(*rows[i].1, entries[i].1)
}

/// `map` is a snapshot made anew of `rows`.
pub open spec fn rebuilt<S: Strategy>(
    rows: Seq<(RollbackId, &S::Target)>,
    map: Map<RollbackId, S::Stored>,
) -> bool {
    exists|entries: Seq<(RollbackId, S::Stored)>| #[trigger]
        kept::<S>(rows, entries) && map == crate::component_history::overlaid(
            Map::empty(),
            entries,
        )
}

/// `map` is a snapshot made anew of all rows.
pub open spec fn rebuilt_from<'a, S: Strategy, F: FnOnce() -> Vec<(RollbackId, &'a S::Target)>>(
    full: F,
    map: Map<RollbackId, S::Stored>,
) -> bool where S::Target: 'a {
    exists|rows: Vec<(RollbackId, &S::Target)>| #[trigger]
        full.ensures((), rows) && rebuilt::<S>(rows@, map)
}

/// `map` is the snapshot `before` with what the strategy keeps of `changed`
/// put in place.
pub open spec fn patched_with<S: Strategy>(
    before: Map<RollbackId, S::Stored>,
    changed: Seq<(RollbackId, &S::Target)>,
    map: Map<RollbackId, S::Stored>,
) -> bool where S::Stored: Clone {
    exists|changes: Seq<(RollbackId, S::Stored)>| #[trigger]
        kept::<S>(changed, changes) && crate::component_history::patched(before, changes, map)
}

/// `map` is what is saved after the snapshot `latest`. Where components were
/// taken away, and where at least half of them changed, it is made anew; where
/// nothing changed it is the same again; and otherwise the changes are put in
/// place.
pub open spec fn saved<'a, S: Strategy, F: FnOnce() -> Vec<(RollbackId, &'a S::Target)>>(
    latest: Option<Map<RollbackId, S::Stored>>,
    changed: Seq<(RollbackId, &S::Target)>,
    removed: bool,
    full: F,
    map: Map<RollbackId, S::Stored>,
) -> bool where S::Stored: Clone, S::Target: 'a {
    match latest {
        None => rebuilt_from::<S, F>(full, map),
        Some(before) => if removed {
            rebuilt_from::<S, F>(full, map)
        } else if changed.len() == 0 {
            map == before
        } else if changed.len() * 2 >= before.len() {
            rebuilt_from::<S, F>(full, map)
        } else {
            patched_with::<S>(before, changed, map)
        },
    }
}

/// Keeps all rows.
fn keep_all<S: Strategy>(rows: &Vec<(RollbackId, &S::Target)>) -> (entries: Vec<
    (RollbackId, S::Stored),
>)
    ensures
        kept::<S>(rows@, entries@),
{
    let mut entries: Vec<(RollbackId, S::Stored)> = Vec::new();
    let mut i: usize = 0;
    while i < rows.len()
        invariant
            i <= rows.len(),
            kept::<S>(rows@.take(i as int), entries@),
        decreases rows.len() - i,
    {
        let ghost before = entries@;
        let stored: S::Stored = S::store(rows[i].1);
        entries.push((rows[i].0, stored));
        i = i + 1;
        proof {
            let done = rows@.take(i as int);
            assert forall|j: int|
                #![trigger done[j]]
                #![trigger entries@[j]]
                0 <= j < done.len() implies entries@[j].0 == done[j].0 && S::stores(
                *done[j].1,
                entries@[j].1,
            ) by {
                if j < i - 1 {
                    assert(rows@.take(i - 1)[j] == done[j]);
                    assert(before[j] == entries@[j]);
                }
            }
        }
    }
    assert(rows@.take(i as int) =~= rows@);
    entries
}

impl<S: Strategy> Default for ComponentSnapshotPlugin<S> {
    fn default() -> (plugin: Self) {
        ComponentSnapshotPlugin { _phantom: PhantomData }
    }
}

impl<S: Strategy> Default for ImmutableComponentSnapshotPlugin<S> {
    fn default() -> (plugin: Self) {
        ImmutableComponentSnapshotPlugin { _phantom: PhantomData }
    }
}

impl<S: Strategy> ComponentSnapshotPlugin<S> {
    /// Saves a frame, for stored types that can be cloned. `changed` are the
    /// components that changed since the last save or are new, `removed` says
    /// whether any were taken away since then, and `full` lists all of them; it
    /// is only asked where they are needed.
    ///
    /// Three paths:
    /// - nothing changed: the latest snapshot again, with its entries shared
    /// - few changed (less than half): the latest snapshot with the changes
    ///   put in place
    /// - many changed, or some taken away: a snapshot made anew
    ///
    /// Whichever is taken, the snapshot reflects the components as they are.
    pub fn save_cloneable<'a, F: FnOnce() -> Vec<(RollbackId, &'a S::Target)>>(
        snapshots: &mut GgrsComponentSnapshots<S::Target, S::Stored>,
        frame: &RollbackFrameCount,
        changed: &Vec<(RollbackId, &S::Target)>,
        removed: bool,
        full: F,
    ) where S::Stored: Clone, S::Target: 'a
        requires
            full.requires(()),
        ensures
            final(snapshots)@.len() == old(snapshots)@.len() + 1,
            final(snapshots)@.drop_last() == old(snapshots)@,
            final(snapshots)@.last().0 == frame.0,
            saved::<S, F>(
                crate::component_history::latest(old(snapshots)@),
                changed@,
                removed,
                full,
                final(snapshots)@.last().1,
            ),
            forall|rows: Seq<(RollbackId, &S::Target)>| #[trigger]
                crate::component_laws::save_is_told::<S, F>(
                    crate::component_history::latest(old(snapshots)@),
                    changed@,
                    removed,
                    full,
                    rows,
                ) ==> crate::component_laws::reflects::<S>(rows, final(snapshots)@.last().1),
    {
        let ghost history = snapshots@;
        let ghost latest = crate::component_history::latest(history);
        let snapshot = Self::next_snapshot(snapshots, changed, removed, full);
        proof {
            assert forall|rows: Seq<(RollbackId, &S::Target)>| #[trigger]
                crate::component_laws::save_is_told::<S, F>(
                    latest,
                    changed@,
                    removed,
                    full,
                    rows,
                ) implies crate::component_laws::reflects::<S>(rows, snapshot@) by {
                crate::component_laws::law_save_reflects_rows::<S, F>(
                    latest,
                    changed@,
                    removed,
                    full,
                    rows,
                    snapshot@,
                );
            }
        }
        snapshots.push(frame.0, snapshot);
        assert(snapshots@.drop_last() =~= history);
    }

    /// The snapshot to save next.
    fn next_snapshot<'a, F: FnOnce() -> Vec<(RollbackId, &'a S::Target)>>(
        snapshots: &GgrsComponentSnapshots<S::Target, S::Stored>,
        changed: &Vec<(RollbackId, &S::Target)>,
        removed: bool,
        full: F,
    ) -> (snapshot: GgrsComponentSnapshot<S::Target, S::Stored>) where
        S::Stored: Clone,
        S::Target: 'a,

        requires
            full.requires(()),
        ensures
            saved::<S, F>(
                crate::component_history::latest(snapshots@),
                changed@,
                removed,
                full,
                snapshot@,
            ),
    {
        if let (Some(prev), false) = (snapshots.peek_latest(), removed) {
            let prev_len: usize = prev.len();
            let changes: Vec<(RollbackId, S::Stored)> = keep_all::<S>(changed);
            if changes.is_empty() {
                return GgrsComponentSnapshot::share_arc_from(prev);
            }
            let mostly: bool = changes.len() >= prev_len || changes.len() >= prev_len
                - changes.len();
            if !mostly {
                let mut snapshot = GgrsComponentSnapshot::share_arc_from(prev);
                let ghost before = snapshot@;
                snapshot.patch(changes);
                assert(crate::component_history::patched(before, changes@, snapshot@));
                assert(patched_with::<S>(before, changed@, snapshot@));
                return snapshot;
            }
        }
        let rows: Vec<(RollbackId, &S::Target)> = full();
        let snapshot = GgrsComponentSnapshot::new(keep_all::<S>(&rows));
        assert(rebuilt::<S>(rows@, snapshot@));
        snapshot
    }

    /// Saves a frame, for stored types that cannot be cloned: always a
    /// snapshot made anew.
    pub fn save_reflect(
        snapshots: &mut GgrsComponentSnapshots<S::Target, S::Stored>,
        frame: &RollbackFrameCount,
        rows: &Vec<(RollbackId, &S::Target)>,
    )
        ensures
            final(snapshots)@.len() == old(snapshots)@.len() + 1,
            final(snapshots)@.drop_last() == old(snapshots)@,
            final(snapshots)@.last().0 == frame.0,
            rebuilt::<S>(rows@, final(snapshots)@.last().1),
            crate::component_laws::rows_distinct(rows@) ==> crate::component_laws::reflects::<S>(
                rows@,
                final(snapshots)@.last().1,
            ),
    {
        let ghost history = snapshots@;
        let snapshot = GgrsComponentSnapshot::new(keep_all::<S>(rows));
        proof {
            if crate::component_laws::rows_distinct(rows@) {
                crate::component_laws::law_rebuilt_snapshot_reflects_rows::<S>(rows@, snapshot@);
            }
        }
        snapshots.push(frame.0, snapshot);
        assert(snapshots@.drop_last() =~= history);
    }
}

/// A rollback entity, with its component of the type in question, if it has
/// one.
pub struct LoadRow<'a, T> {
    /// The entity's bits.
    pub entity: u64,
    /// The entity's identifier.
    pub rollback: RollbackId,
    /// The component, to be changed in place.
    pub component: Option<&'a mut T>,
}

/// What is left to do to an entity after a rollback.
pub enum LoadCommand<T> {
    /// Take the component from the entity.
    Remove(u64),
    /// Put a component on the entity.
    Insert(u64, T),
}

/// The component that a row has before anything is done to it.
pub open spec fn component_in<T>(row: LoadRow<'_, T>) -> Option<T> {
    match row.component {
        Some(component) => Some(*component),
        None => None,
    }
}

/// The component that the snapshot holds for an identifier.
pub open spec fn stored_for<As>(map: Map<RollbackId, As>, id: RollbackId) -> Option<As> {
    if map.contains_key(id) {
        Some(map[id])
    } else {
        None
    }
}

/// `after` is the component that an entity ends with: the stored one, or none
/// where none was stored.
pub open spec fn brought_back<S: Strategy>(
    before: Option<S::Target>,
    stored: Option<S::Stored>,
    after: Option<S::Target>,
) -> bool {
    match (before, stored) {
        (Some(component), Some(kept)) => after matches Some(now) && S::updates(
            component,
            kept,
            now,
        ),
        (None, Some(kept)) => after matches Some(now) && S::loads(kept, now),
        (_, None) => after is None,
    }
}

/// `after` are the components that the entities of `rows` end with.
pub open spec fn rows_brought_back<S: Strategy>(
    rows: Seq<LoadRow<'_, S::Target>>,
    map: Map<RollbackId, S::Stored>,
    after: Seq<Option<S::Target>>,
) -> bool {
    &&& after.len() == rows.len()
    &&& forall|i: int|
        #![trigger rows[i]]
        #![trigger after[i]]
        0 <= i < rows.len() ==> brought_back::<S>(
            component_in(rows[i]),
            stored_for(map, rows[i].rollback),
            after[i],
        )
}

/// What is left to do so that the entities of `rows` end with the components
/// `after`: to remove those that are not to be there, and to insert those that
/// are missing.
pub open spec fn load_commands<T>(
    rows: Seq<LoadRow<'_, T>>,
    after: Seq<Option<T>>,
) -> Seq<LoadCommand<T>>
    decreases rows.len(),
{
    if rows.len() == 0 {
        Seq::empty()
    } else {
        let row = rows.last();
        let front = load_commands(rows.drop_last(), after);
        match (row.component, after[rows.len() - 1]) {
            (Some(_), None) => front.push(LoadCommand::Remove(row.entity)),
            (None, Some(value)) => front.push(LoadCommand::Insert(row.entity, value)),
            _ => front,
        }
    }
}

/// What lies behind the rows does not matter to their commands.
proof fn lemma_load_commands<T>(
    rows: Seq<LoadRow<'_, T>>,
    after: Seq<Option<T>>,
    more: Option<T>,
)
    requires
        rows.len() <= after.len(),
    ensures
        load_commands(rows, after.push(more)) == load_commands(rows, after),
    decreases rows.len(),
{
    if rows.len() > 0 {
        lemma_load_commands(rows.drop_last(), after, more);
    }
}

impl<S: Strategy> ComponentSnapshotPlugin<S> {
    /// Restores the component to its snapshotted state for the target frame.
    /// Components that were there and are to be there are changed in place;
    /// what is left to insert or remove is handed back.
    pub fn load<'a>(
        snapshots: &mut GgrsComponentSnapshots<S::Target, S::Stored>,
        frame: &RollbackFrameCount,
        rows: Vec<LoadRow<'a, S::Target>>,
    ) -> (commands: Vec<LoadCommand<S::Target>>) where S::Target: 'a
        requires
            crate::component_history::latest_index(old(snapshots)@, frame.0) >= 0,
        ensures
            final(snapshots)@ == old(snapshots)@.take(
                crate::component_history::latest_index(old(snapshots)@, frame.0) + 1,
            ),
            exists|after: Seq<Option<S::Target>>|
                {
                    &&& #[trigger] rows_brought_back::<S>(
                        rows@,
                        final(snapshots)@.last().1,
                        after,
                    )
                    &&& commands@ == load_commands(rows@, after)
                    &&& forall|i: int|
                        0 <= i < rows@.len() ==> ((#[trigger] rows@[i]).component matches Some(
                            component,
                        ) ==> *final(component) == (match after[i] {
                            Some(value) => value,
                            None => *component,
                        }))
                },
    {
        snapshots.rollback(frame.0);
        let snapshot = snapshots.get();
        let mut commands: Vec<LoadCommand<S::Target>> = Vec::new();
        let ghost all = rows@;
        let ghost map = snapshot@;
        let ghost mut after: Seq<Option<S::Target>> = Seq::empty();
        for row in iter: rows
            invariant
                iter.seq() == all,
                map == snapshot@,
                rows_brought_back::<S>(all.take(iter.index()), map, after),
                commands@ == load_commands(all.take(iter.index()), after),
                forall|i: int|
                    0 <= i < iter.index() ==> ((#[trigger] all[i]).component matches Some(
                        component,
                    ) ==> *final(component) == (match after[i] {
                        Some(value) => value,
                        None => *component,
                    })),
        {
            let ghost before = component_in(row);
            let ghost done = all.take(iter.index());
            let ghost next = all.take(iter.index() + 1);
            let ghost so_far = after;
            let entity: u64 = row.entity;
            let stored: Option<&S::Stored> = snapshot.get(&row.rollback);
            match (row.component, stored) {
                (Some(component), Some(kept)) => {
                    S::update(component, kept);
                    proof {
                        after = after.push(Some(*component));
                    }
                },
                (Some(_), None) => {
                    commands.push(LoadCommand::Remove(entity));
                    proof {
                        after = after.push(None);
                    }
                },
                (None, Some(kept)) => {
                    let value: S::Target = S::load(kept);
                    proof {
                        after = after.push(Some(value));
                    }
                    commands.push(LoadCommand::Insert(entity, value));
                },
                (None, None) => {
                    proof {
                        after = after.push(None);
                    }
                },
            }
            proof {
                assert(next.drop_last() =~= done);
                assert(next.last() == row);
                lemma_load_commands(done, so_far, after.last());
                assert(after =~= so_far.push(after.last()));
                assert forall|i: int|
                    #![trigger next[i]]
                    #![trigger after[i]]
                    0 <= i < next.len() implies brought_back::<S>(
                    component_in(next[i]),
                    stored_for(map, next[i].rollback),
                    after[i],
                ) by {
                    if i < done.len() {
                        assert(done[i] == next[i]);
                        assert(so_far[i] == after[i]);
                    }
                }
            }
        }
        assert(all.take(all.len() as int) =~= all);
        commands
    }
}

/// `after` are the components to put on the entities of `rows`: the stored
/// ones.
pub open spec fn all_reloaded<S: Strategy>(
    rows: Seq<(u64, RollbackId, bool)>,
    map: Map<RollbackId, S::Stored>,
    after: Seq<Option<S::Target>>,
) -> bool {
    &&& after.len() == rows.len()
    &&& forall|i: int|
        #![trigger rows[i]]
        #![trigger after[i]]
        0 <= i < rows.len() ==> match stored_for(map, rows[i].1) {
            Some(kept) => after[i] matches Some(now) && S::loads(kept, now),
            None => after[i] is None,
        }
}

/// What is to be done so that the entities of `rows` end with the components
/// `after`, each put there anew.
pub open spec fn reload_commands<T>(
    rows: Seq<(u64, RollbackId, bool)>,
    after: Seq<Option<T>>,
) -> Seq<LoadCommand<T>>
    decreases rows.len(),
{
    if rows.len() == 0 {
        Seq::empty()
    } else {
        let row = rows.last();
        let front = reload_commands(rows.drop_last(), after);
        match after[rows.len() - 1] {
            Some(value) => front.push(LoadCommand::Insert(row.0, value)),
            None => if row.2 {
                front.push(LoadCommand::Remove(row.0))
            } else {
                front
            },
        }
    }
}

/// What lies behind the rows does not matter to their commands.
proof fn lemma_reload_commands<T>(
    rows: Seq<(u64, RollbackId, bool)>,
    after: Seq<Option<T>>,
    more: Option<T>,
)
    requires
        rows.len() <= after.len(),
    ensures
        reload_commands(rows, after.push(more)) == reload_commands(rows, after),
    decreases rows.len(),
{
    if rows.len() > 0 {
        lemma_reload_commands(rows.drop_last(), after, more);
    }
}

impl<S: Strategy> ImmutableComponentSnapshotPlugin<S> {
    /// Restores this immutable component to its snapshotted state for the
    /// target frame: what is to be re-inserted or removed is handed back. A
    /// row is an entity, its identifier, and whether it has the component.
    pub fn load(
        snapshots: &mut GgrsComponentSnapshots<S::Target, S::Stored>,
        frame: &RollbackFrameCount,
        rows: &Vec<(u64, RollbackId, bool)>,
    ) -> (commands: Vec<LoadCommand<S::Target>>)
        requires
            crate::component_history::latest_index(old(snapshots)@, frame.0) >= 0,
        ensures
            final(snapshots)@ == old(snapshots)@.take(
                crate::component_history::latest_index(old(snapshots)@, frame.0) + 1,
            ),
            exists|after: Seq<Option<S::Target>>|
                {
                    &&& #[trigger] all_reloaded::<S>(rows@, final(snapshots)@.last().1, after)
                    &&& commands@ == reload_commands(rows@, after)
                },
    {
        snapshots.rollback(frame.0);
        let snapshot = snapshots.get();
        let mut commands: Vec<LoadCommand<S::Target>> = Vec::new();
        let ghost all = rows@;
        let ghost map = snapshot@;
        let ghost mut after: Seq<Option<S::Target>> = Seq::empty();
        let mut n: usize = 0;
        while n < rows.len()
            invariant
                n <= rows.len(),
                all == rows@,
                map == snapshot@,
                all_reloaded::<S>(all.take(n as int), map, after),
                commands@ == reload_commands(all.take(n as int), after),
            decreases rows.len() - n,
        {
            let ghost done = all.take(n as int);
            let ghost next = all.take(n + 1);
            let ghost so_far = after;
            let entity: u64 = rows[n].0;
            let has_component: bool = rows[n].2;
            match (has_component, snapshot.get(&rows[n].1)) {
                (true, None) => {
                    commands.push(LoadCommand::Remove(entity));
                    proof {
                        after = after.push(None);
                    }
                },
                (_, Some(kept)) => {
                    let value: S::Target = S::load(kept);
                    proof {
                        after = after.push(Some(value));
                    }
                    commands.push(LoadCommand::Insert(entity, value));
                },
                (false, None) => {
                    proof {
                        after = after.push(None);
                    }
                },
            }
            proof {
                assert(next.drop_last() =~= done);
                lemma_reload_commands(done, so_far, after.last());
                assert(after =~= so_far.push(after.last()));
                assert forall|i: int|
                    #![trigger next[i]]
                    #![trigger after[i]]
                    0 <= i < next.len() implies match stored_for(map, next[i].1) {
                    Some(kept) => after[i] matches Some(now) && S::loads(kept, now),
                    None => after[i] is None,
                } by {
                    if i < done.len() {
                        assert(done[i] == next[i]);
                        assert(so_far[i] == after[i]);
                    }
                }
            }
            n = n + 1;
        }
        assert(all.take(all.len() as int) =~= all);
        commands
    }
}

} // verus!
