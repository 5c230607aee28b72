//! What saving a frame keeps and going back to it does, row by row.

use crate::component_snapshot::{LoadCommand, LoadRow};
use crate::strategy::{CloneStrategy, Strategy};
use crate::world::RollbackId;
use vstd::prelude::*;

verus! {

/// Of several entries for one identifier the last one counts.
pub proof fn law_last_entry_counts<As>(
    base: Map<RollbackId, As>,
    entries: Seq<(RollbackId, As)>,
    i: int,
)
    requires
        0 <= i < entries.len(),
        forall|j: int| i < j < entries.len() ==> (#[trigger] entries[j]).0 != entries[i].0,
    ensures
        crate::component_history::overlaid(base, entries).contains_key(entries[i].0),
        crate::component_history::overlaid(base, entries)[entries[i].0] == entries[i].1,
    decreases entries.len(),
{
    if i < entries.len() - 1 {
        let front = entries.drop_last();
        assert forall|j: int| i < j < front.len() implies (#[trigger] front[j]).0 != front[i].0 by {
            assert(entries[j].0 != entries[i].0);
        }
        law_last_entry_counts(base, front, i);
        assert(entries[entries.len() - 1].0 != entries[i].0);
    }
}

/// Where no entry is for an identifier, nothing changes for it.
pub proof fn law_other_identifiers_stay<As>(
    base: Map<RollbackId, As>,
    entries: Seq<(RollbackId, As)>,
    id: RollbackId,
)
    requires
        forall|i: int| 0 <= i < entries.len() ==> (#[trigger] entries[i]).0 != id,
    ensures
        crate::component_history::overlaid(base, entries).contains_key(id) <==> base.contains_key(
            id,
        ),
        base.contains_key(id) ==> crate::component_history::overlaid(base, entries)[id] == base[id],
    decreases entries.len(),
{
    if entries.len() > 0 {
        let front = entries.drop_last();
        assert forall|i: int| 0 <= i < front.len() implies (#[trigger] front[i]).0 != id by {
            assert(entries[i].0 != id);
        }
        law_other_identifiers_stay(base, front, id);
        assert(entries[entries.len() - 1].0 != id);
    }
}

/// The snapshot that a frame goes back to is the last one that was saved of it.
pub proof fn law_latest_of_a_frame<As>(
    history: Seq<(i32, Map<RollbackId, As>)>,
    frame: i32,
    at: int,
)
    requires
        0 <= at < history.len(),
        history[at].0 == frame,
        forall|i: int| at < i < history.len() ==> (#[trigger] history[i]).0 != frame,
    ensures
        crate::component_history::latest_index(history, frame) == at,
    decreases history.len(),
{
    if at < history.len() - 1 {
        assert(history[history.len() - 1].0 != frame);
        law_latest_of_a_frame(history.drop_last(), frame, at);
    }
}

/// A frame that was not saved is not found.
pub proof fn law_unsaved_frame_is_not_found<As>(
    history: Seq<(i32, Map<RollbackId, As>)>,
    frame: i32,
)
    requires
        forall|i: int| 0 <= i < history.len() ==> (#[trigger] history[i]).0 != frame,
    ensures
        crate::component_history::latest_index(history, frame) < 0,
    decreases history.len(),
{
    if history.len() > 0 {
        assert(history[history.len() - 1].0 != frame);
        assert forall|i: int| 0 <= i < history.drop_last().len() implies (
        #[trigger] history.drop_last()[i]).0 != frame by {
            assert(history[i].0 != frame);
        }
        law_unsaved_frame_is_not_found(history.drop_last(), frame);
    }
}

/// The latest snapshot is the last one, whatever its frame.
pub proof fn law_latest_is_the_last<As>(history: Seq<(i32, Map<RollbackId, As>)>)
    ensures
        history.len() == 0 ==> crate::component_history::latest(history) is None,
        history.len() > 0 ==> crate::component_history::latest(history) == Some(
            history[history.len() - 1].1,
        ),
{
}

/// Discarding drops snapshots from the front as long as they are of frames from
/// before the confirmed one, and no others.
pub proof fn law_discarding_drops_what_is_too_old<As>(
    history: Seq<(i32, Map<RollbackId, As>)>,
    confirmed: i32,
    n: int,
)
    requires
        0 <= n <= history.len(),
        forall|i: int| 0 <= i < n ==> (#[trigger] history[i]).0 < confirmed,
        n < history.len() ==> history[n].0 >= confirmed,
    ensures
        crate::seqs::first_index(history, crate::component_history::not_before(confirmed)) == n,
{
    crate::seqs::lemma_is_first_index(history, crate::component_history::not_before(confirmed), n);
}

/// Some row is for the identifier.
pub open spec fn is_row<T>(rows: Seq<(RollbackId, &T)>, id: RollbackId) -> bool {
    exists|i: int| 0 <= i < rows.len() && (#[trigger] rows[i]).0 == id
}

/// No row behind this one is for its identifier.
pub open spec fn last_for_its_id<T>(rows: Seq<(RollbackId, &T)>, i: int) -> bool {
    0 <= i < rows.len() && forall|j: int| i < j < rows.len() ==> (#[trigger] rows[j]).0 != rows[i].0
}

/// A snapshot holds what is kept of the last row for each identifier, and for
/// no other identifier anything.
pub open spec fn holds_rows<S: Strategy>(
    rows: Seq<(RollbackId, &S::Target)>,
    map: Map<RollbackId, S::Stored>,
) -> bool {
    &&& forall|id: RollbackId| #[trigger] map.contains_key(id) <==> is_row(rows, id)
    &&& forall|i: int|
        last_for_its_id(rows, i) ==> S::stores(*(#[trigger] rows[i]).1, map[rows[i].0])
}

/// The last row for an identifier, where there is one.
proof fn lemma_last_row<T>(rows: Seq<(RollbackId, &T)>, id: RollbackId) -> (at: int)
    requires
        is_row(rows, id),
    ensures
        last_for_its_id(rows, at),
        rows[at].0 == id,
    decreases rows.len(),
{
    let last = rows.len() - 1;
    if rows[last].0 == id {
        last
    } else {
        let front = rows.drop_last();
        let i = choose|i: int| 0 <= i < rows.len() && (#[trigger] rows[i]).0 == id;
        assert(front[i].0 == id);
        let at = lemma_last_row(front, id);
        assert forall|j: int| at < j < rows.len() implies (#[trigger] rows[j]).0 != rows[at].0 by {
            if j < last {
                assert(front[j].0 != front[at].0);
            }
        }
        at
    }
}

/// A snapshot that is made anew holds all rows.
pub proof fn law_new_snapshot_holds_all_rows<S: Strategy>(
    rows: Seq<(RollbackId, &S::Target)>,
    map: Map<RollbackId, S::Stored>,
)
    requires
        crate::component_snapshot::rebuilt::<S>(rows, map),
    ensures
        holds_rows::<S>(rows, map),
{
    let entries = choose|entries: Seq<(RollbackId, S::Stored)>| #[trigger]
        crate::component_snapshot::kept::<S>(rows, entries) && map
            == crate::component_history::overlaid(Map::empty(), entries);
    assert forall|i: int| last_for_its_id(rows, i) implies map.contains_key(
        (#[trigger] rows[i]).0,
    ) && S::stores(*rows[i].1, map[rows[i].0]) by {
        assert(entries[i].0 == rows[i].0);
        assert forall|j: int| i < j < entries.len() implies (#[trigger] entries[j]).0
            != entries[i].0 by {
            assert(rows[j].0 != rows[i].0);
        }
        law_last_entry_counts(Map::empty(), entries, i);
    }
    assert forall|id: RollbackId| #[trigger] map.contains_key(id) <==> is_row(rows, id) by {
        if is_row(rows, id) {
            let at = lemma_last_row(rows, id);
            assert(map.contains_key(rows[at].0));
        } else {
            assert forall|i: int| 0 <= i < entries.len() implies (#[trigger] entries[i]).0
                != id by {
                assert(rows[i].0 != id);
            }
            law_other_identifiers_stay(Map::<RollbackId, S::Stored>::empty(), entries, id);
        }
    }
}

/// A save makes the snapshot anew of all rows where there was none, where
/// components were taken away, and where at least half of them changed.
pub proof fn law_save_makes_a_new_snapshot<
    'a,
    S: Strategy,
    F: FnOnce() -> Vec<(RollbackId, &'a S::Target)>,
>(
    history: Seq<(i32, Map<RollbackId, S::Stored>)>,
    changed: Seq<(RollbackId, &S::Target)>,
    removed: bool,
    full: F,
    map: Map<RollbackId, S::Stored>,
) where S::Stored: Clone, S::Target: 'a
    requires
        crate::component_snapshot::saved::<S, F>(
            crate::component_history::latest(history),
            changed,
            removed,
            full,
            map,
        ),
        history.len() == 0 || removed || (changed.len() > 0 && 2 * changed.len()
            >= history[history.len() - 1].1.len()),
    ensures
        exists|rows: Vec<(RollbackId, &S::Target)>| #[trigger]
            full.ensures((), rows) && holds_rows::<S>(rows@, map),
{
    let rows = choose|rows: Vec<(RollbackId, &S::Target)>| #[trigger]
        full.ensures((), rows) && crate::component_snapshot::rebuilt::<S>(rows@, map);
    law_new_snapshot_holds_all_rows::<S>(rows@, map);
    assert(full.ensures((), rows) && holds_rows::<S>(rows@, map));
}

/// Where nothing changed and nothing was taken away, a save leaves the latest
/// snapshot again.
pub proof fn law_unchanged_save_is_the_same<
    'a,
    S: Strategy,
    F: FnOnce() -> Vec<(RollbackId, &'a S::Target)>,
>(
    history: Seq<(i32, Map<RollbackId, S::Stored>)>,
    changed: Seq<(RollbackId, &S::Target)>,
    full: F,
    map: Map<RollbackId, S::Stored>,
) where S::Stored: Clone, S::Target: 'a
    requires
        history.len() > 0,
        changed.len() == 0,
        crate::component_snapshot::saved::<S, F>(
            crate::component_history::latest(history),
            changed,
            false,
            full,
            map,
        ),
    ensures
        map == history[history.len() - 1].1,
{
}

/// Where less than half changed, a save leaves the changed rows and a clone of
/// everything else that the latest snapshot holds.
pub proof fn law_small_save_keeps_the_rest<
    'a,
    S: Strategy,
    F: FnOnce() -> Vec<(RollbackId, &'a S::Target)>,
>(
    history: Seq<(i32, Map<RollbackId, S::Stored>)>,
    changed: Seq<(RollbackId, &S::Target)>,
    full: F,
    map: Map<RollbackId, S::Stored>,
) where S::Stored: Clone, S::Target: 'a
    requires
        history.len() > 0,
        0 < changed.len(),
        2 * changed.len() < history[history.len() - 1].1.len(),
        crate::component_snapshot::saved::<S, F>(
            crate::component_history::latest(history),
            changed,
            false,
            full,
            map,
        ),
    ensures
        ({
            let before = history[history.len() - 1].1;
            &&& forall|id: RollbackId| #[trigger]
                map.contains_key(id) <==> is_row(changed, id) || before.contains_key(id)
            &&& forall|c: int|
                last_for_its_id(changed, c) ==> S::stores(
                    *(#[trigger] changed[c]).1,
                    map[changed[c].0],
                )
            &&& forall|id: RollbackId|
                !is_row(changed, id) && #[trigger] before.contains_key(id) ==> cloned(
                    before[id],
                    map[id],
                )
        }),
{
    let before = history[history.len() - 1].1;
    let changes = choose|changes: Seq<(RollbackId, S::Stored)>| #[trigger]
        crate::component_snapshot::kept::<S>(changed, changes)
            && crate::component_history::patched(before, changes, map);
    let copy = choose|copy: Map<RollbackId, S::Stored>| #[trigger]
        crate::component_history::copied(before, copy) && map
            == crate::component_history::overlaid(copy, changes);
    assert forall|c: int| last_for_its_id(changed, c) implies map.contains_key(
        (#[trigger] changed[c]).0,
    ) && S::stores(*changed[c].1, map[changed[c].0]) by {
        assert(changes[c].0 == changed[c].0);
        assert forall|j: int| c < j < changes.len() implies (#[trigger] changes[j]).0
            != changes[c].0 by {
            assert(changed[j].0 != changed[c].0);
        }
        law_last_entry_counts(copy, changes, c);
    }
    assert forall|id: RollbackId| !is_row(changed, id) implies (map.contains_key(id)
        <==> before.contains_key(id)) && (#[trigger] before.contains_key(id) ==> cloned(
        before[id],
        map[id],
    )) by {
        assert forall|i: int| 0 <= i < changes.len() implies (#[trigger] changes[i]).0 != id by {
            assert(changed[i].0 != id);
        }
        law_other_identifiers_stay(copy, changes, id);
        assert(copy.dom().contains(id) <==> before.dom().contains(id));
    }
    assert forall|id: RollbackId| #[trigger] map.contains_key(id) <==> is_row(changed, id)
        || before.contains_key(id) by {
        if is_row(changed, id) {
            let at = lemma_last_row(changed, id);
            assert(map.contains_key(changed[at].0));
        } else {
            assert(before.contains_key(id) || !before.contains_key(id));
        }
    }
}

/// Whichever way a frame is saved, the snapshot holds every row as it is now and
/// nothing else, as long as the save is told what happened: `changed` lists rows
/// as they are now, rows that it does not list are as they were, and `removed`
/// is said where one of the latest snapshot is gone.
pub proof fn law_save_holds_every_row<
    'a,
    S: Strategy,
    F: FnOnce() -> Vec<(RollbackId, &'a S::Target)>,
>(
    history: Seq<(i32, Map<RollbackId, S::Stored>)>,
    changed: Seq<(RollbackId, &S::Target)>,
    removed: bool,
    full: F,
    rows: Seq<(RollbackId, &S::Target)>,
    map: Map<RollbackId, S::Stored>,
) where S::Stored: Clone, S::Target: 'a
    requires
        forall|a: S::Stored, b: S::Stored| #[trigger] cloned(a, b) ==> a == b,
        forall|i: int, j: int|
            0 <= i < j < rows.len() ==> (#[trigger] rows[i]).0 != (#[trigger] rows[j]).0,
        forall|i: int, j: int|
            0 <= i < j < changed.len() ==> (#[trigger] changed[i]).0 != (#[trigger] changed[j]).0,
        forall|given: Vec<(RollbackId, &S::Target)>| #[trigger]
            full.ensures((), given) ==> given@ == rows,
        forall|c: int| 0 <= c < changed.len() ==> rows.contains(#[trigger] changed[c]),
        history.len() > 0 ==> forall|id: RollbackId| #[trigger]
            history[history.len() - 1].1.contains_key(id) ==> is_row(rows, id) || removed,
        history.len() > 0 ==> forall|i: int|
            0 <= i < rows.len() && !is_row(changed, (#[trigger] rows[i]).0) ==> history[
                history.len() - 1
            ].1.contains_key(rows[i].0) && S::stores(
                *rows[i].1,
                history[history.len() - 1].1[rows[i].0],
            ),
        crate::component_snapshot::saved::<S, F>(
            crate::component_history::latest(history),
            changed,
            removed,
            full,
            map,
        ),
    ensures
        forall|id: RollbackId| #[trigger] map.contains_key(id) <==> is_row(rows, id),
        forall|i: int|
            0 <= i < rows.len() ==> S::stores(*(#[trigger] rows[i]).1, map[rows[i].0]),
{
    if history.len() > 0 {
        let before = history[history.len() - 1].1;
        assert forall|id: RollbackId| #[trigger] before.contains_key(id) implies
            crate::component_laws::has_row(rows, id) || removed by {
            assert(is_row(rows, id) || removed);
        }
        assert forall|i: int|
            0 <= i < rows.len() && !crate::component_laws::has_row(
                changed,
                (#[trigger] rows[i]).0,
            ) implies before.contains_key(rows[i].0) && S::stores(
            *rows[i].1,
            before[rows[i].0],
        ) by {
            assert(!is_row(changed, rows[i].0));
        }
        assert(crate::component_laws::changes_told::<S>(before, changed, removed, rows));
    }
    crate::component_laws::law_save_reflects_rows::<S, F>(
        crate::component_history::latest(history),
        changed,
        removed,
        full,
        rows,
        map,
    );
    assert forall|id: RollbackId| #[trigger] map.contains_key(id) <==> is_row(rows, id) by {
        if is_row(rows, id) {
            let i = choose|i: int| 0 <= i < rows.len() && (#[trigger] rows[i]).0 == id;
            assert(map.contains_key(rows[i].0));
        }
    }
}

/// Something is left to do to a row: its entity lacks a component that the
/// snapshot holds, or has one that the snapshot does not hold.
pub open spec fn is_due<T, As>(row: LoadRow<'_, T>, map: Map<RollbackId, As>) -> bool {
    row.component is None <==> map.contains_key(row.rollback)
}

/// A command does what is due to a row: it puts the loaded component on the
/// entity, or takes the component from it.
pub open spec fn does_what_is_due<S: Strategy>(
    row: LoadRow<'_, S::Target>,
    map: Map<RollbackId, S::Stored>,
    after: Option<S::Target>,
    command: LoadCommand<S::Target>,
) -> bool {
    match command {
        LoadCommand::Insert(entity, value) => {
            &&& entity == row.entity
            &&& row.component is None
            &&& map.contains_key(row.rollback)
            &&& S::loads(map[row.rollback], value)
            &&& after == Some(value)
        },
        LoadCommand::Remove(entity) => {
            &&& entity == row.entity
            &&& row.component is Some
            &&& !map.contains_key(row.rollback)
            &&& after is None
        },
    }
}

/// The commands are for the rows at `from`, in their order: for each row to
/// which something is due, and for no other.
pub open spec fn commands_for<S: Strategy>(
    rows: Seq<LoadRow<'_, S::Target>>,
    map: Map<RollbackId, S::Stored>,
    after: Seq<Option<S::Target>>,
    commands: Seq<LoadCommand<S::Target>>,
    from: Seq<int>,
) -> bool {
    &&& from.len() == commands.len()
    &&& forall|c: int|
        0 <= c < commands.len() ==> 0 <= #[trigger] from[c] < rows.len() && does_what_is_due::<S>(
            rows[from[c]],
            map,
            after[from[c]],
            commands[c],
        )
    &&& forall|c: int, d: int|
        0 <= c < d < from.len() ==> #[trigger] from[c] < #[trigger] from[d]
    &&& forall|i: int|
        0 <= i < rows.len() && is_due(#[trigger] rows[i], map) ==> from.contains(i)
}

/// The first rows, and their commands.
proof fn lemma_commands_for<S: Strategy>(
    rows: Seq<LoadRow<'_, S::Target>>,
    map: Map<RollbackId, S::Stored>,
    after: Seq<Option<S::Target>>,
) -> (from: Seq<int>)
    requires
        rows.len() <= after.len(),
        forall|i: int|
            #![trigger rows[i]]
            0 <= i < rows.len() ==> crate::component_snapshot::brought_back::<S>(
                crate::component_snapshot::component_in(rows[i]),
                crate::component_snapshot::stored_for(map, rows[i].rollback),
                after[i],
            ),
    ensures
        commands_for::<S>(
            rows,
            map,
            after,
            crate::component_snapshot::load_commands(rows, after),
            from,
        ),
    decreases rows.len(),
{
    let commands = crate::component_snapshot::load_commands(rows, after);
    if rows.len() == 0 {
        Seq::empty()
    } else {
        let front = rows.drop_last();
        let last = rows.len() - 1;
        assert forall|i: int|
            #![trigger front[i]]
            0 <= i < front.len() implies crate::component_snapshot::brought_back::<S>(
            crate::component_snapshot::component_in(front[i]),
            crate::component_snapshot::stored_for(map, front[i].rollback),
            after[i],
        ) by {
            assert(rows[i] == front[i]);
        }
        let done = lemma_commands_for::<S>(front, map, after);
        let some = crate::component_snapshot::load_commands(front, after);
        assert(crate::component_snapshot::brought_back::<S>(
            crate::component_snapshot::component_in(rows[last]),
            crate::component_snapshot::stored_for(map, rows[last].rollback),
            after[last],
        ));
        let from = if is_due(rows[last], map) {
            done.push(last)
        } else {
            done
        };
        assert(commands.len() == from.len());
        assert forall|c: int| 0 <= c < commands.len() implies 0 <= #[trigger] from[c] < rows.len()
            && does_what_is_due::<S>(rows[from[c]], map, after[from[c]], commands[c]) by {
            if c < some.len() {
                assert(commands[c] == some[c]);
                assert(from[c] == done[c]);
                assert(front[done[c]] == rows[done[c]]);
            }
        }
        assert forall|c: int, d: int| 0 <= c < d < from.len() implies #[trigger] from[c]
            < #[trigger] from[d] by {
            assert(from[c] == done[c]);
            if d < done.len() {
                assert(done[c] < done[d]);
            }
        }
        assert forall|i: int| 0 <= i < rows.len() && is_due(#[trigger] rows[i], map) implies
            from.contains(i) by {
            if i < last {
                assert(is_due(front[i], map));
                let c = choose|c: int| 0 <= c < done.len() && done[c] == i;
                assert(from[c] == i);
            } else {
                assert(from[done.len() as int] == i);
            }
        }
        from
    }
}

/// Going back leaves something to do exactly to those rows whose component is
/// missing or should not be there, each its own: the commands are just these,
/// in the order of the rows. A component that is there and was saved is updated
/// in place.
pub proof fn law_load_leaves_nothing_out<S: Strategy>(
    rows: Seq<LoadRow<'_, S::Target>>,
    map: Map<RollbackId, S::Stored>,
    after: Seq<Option<S::Target>>,
)
    requires
        crate::component_snapshot::rows_brought_back::<S>(rows, map, after),
    ensures
        after.len() == rows.len(),
        exists|from: Seq<int>| #[trigger]
            commands_for::<S>(
                rows,
                map,
                after,
                crate::component_snapshot::load_commands(rows, after),
                from,
            ),
        forall|i: int|
            0 <= i < rows.len() && map.contains_key((#[trigger] rows[i]).rollback) ==> (
            rows[i].component matches Some(component) ==> (after[i] matches Some(now)
                && S::updates(*component, map[rows[i].rollback], now))),
{
    let from = lemma_commands_for::<S>(rows, map, after);
    assert forall|i: int|
        0 <= i < rows.len() && map.contains_key((#[trigger] rows[i]).rollback) implies (
    rows[i].component matches Some(component) ==> (after[i] matches Some(now) && S::updates(
        *component,
        map[rows[i].rollback],
        now,
    ))) by {
        assert(crate::component_snapshot::brought_back::<S>(
            crate::component_snapshot::component_in(rows[i]),
            crate::component_snapshot::stored_for(map, rows[i].rollback),
            after[i],
        ));
    }
}

/// Every entity ends with the component that it was saved with. One that lost
/// it gets it back by a command, one that still has it has it set to what it
/// was, and one that was saved without it loses it by a command.
pub proof fn law_every_entity_is_as_it_was_saved<S: Strategy>(
    saved: Seq<(RollbackId, &S::Target)>,
    map: Map<RollbackId, S::Stored>,
    rows: Seq<LoadRow<'_, S::Target>>,
    after: Seq<Option<S::Target>>,
    i: int,
)
    requires
        forall|target: S::Target, stored: S::Stored, now: S::Target| #[trigger]
            S::stores(target, stored) && #[trigger] S::loads(stored, now) ==> now == target,
        forall|target: S::Target, stored: S::Stored, was: S::Target, now: S::Target| #[trigger]
            S::stores(target, stored) && #[trigger] S::updates(was, stored, now) ==> now == target,
        forall|id: RollbackId| #[trigger] map.contains_key(id) <==> is_row(saved, id),
        forall|j: int|
            0 <= j < saved.len() ==> S::stores(*(#[trigger] saved[j]).1, map[saved[j].0]),
        crate::component_snapshot::rows_brought_back::<S>(rows, map, after),
        0 <= i < rows.len(),
    ensures
        ({
            let row = rows[i];
            let commands = crate::component_snapshot::load_commands(rows, after);
            &&& forall|j: int|
                0 <= j < saved.len() && (#[trigger] saved[j]).0 == row.rollback ==> {
                    &&& after[i] == Some(*saved[j].1)
                    &&& row.component is None ==> commands.contains(
                        LoadCommand::Insert(row.entity, *saved[j].1),
                    )
                }
            &&& !is_row(saved, row.rollback) ==> {
                &&& after[i] is None
                &&& row.component is Some ==> commands.contains(LoadCommand::Remove(row.entity))
            }
        }),
{
    let row = rows[i];
    let commands = crate::component_snapshot::load_commands(rows, after);
    law_load_leaves_nothing_out::<S>(rows, map, after);
    let from = choose|from: Seq<int>| #[trigger]
        commands_for::<S>(rows, map, after, commands, from);
    assert(crate::component_snapshot::brought_back::<S>(
        crate::component_snapshot::component_in(rows[i]),
        crate::component_snapshot::stored_for(map, rows[i].rollback),
        after[i],
    ));
    if is_due(row, map) {
        let c = choose|c: int| 0 <= c < from.len() && from[c] == i;
        assert(does_what_is_due::<S>(rows[from[c]], map, after[from[c]], commands[c]));
        assert(commands.contains(commands[c]));
    }
}

/// What is due to a row of an immutable component type: to put the loaded
/// component on the entity, or to take the component from it.
pub open spec fn does_what_is_due_anew<S: Strategy>(
    row: (u64, RollbackId, bool),
    map: Map<RollbackId, S::Stored>,
    after: Option<S::Target>,
    command: LoadCommand<S::Target>,
) -> bool {
    match command {
        LoadCommand::Insert(entity, value) => {
            &&& entity == row.0
            &&& map.contains_key(row.1)
            &&& S::loads(map[row.1], value)
            &&& after == Some(value)
        },
        LoadCommand::Remove(entity) => {
            &&& entity == row.0
            &&& row.2
            &&& !map.contains_key(row.1)
            &&& after is None
        },
    }
}

/// The commands are for the rows at `from`, in their order: for each row whose
/// component was saved or is there, and for no other.
pub open spec fn commands_anew_for<S: Strategy>(
    rows: Seq<(u64, RollbackId, bool)>,
    map: Map<RollbackId, S::Stored>,
    after: Seq<Option<S::Target>>,
    commands: Seq<LoadCommand<S::Target>>,
    from: Seq<int>,
) -> bool {
    &&& from.len() == commands.len()
    &&& forall|c: int|
        0 <= c < commands.len() ==> 0 <= #[trigger] from[c] < rows.len()
            && does_what_is_due_anew::<S>(rows[from[c]], map, after[from[c]], commands[c])
    &&& forall|c: int, d: int|
        0 <= c < d < from.len() ==> #[trigger] from[c] < #[trigger] from[d]
    &&& forall|i: int|
        0 <= i < rows.len() && (map.contains_key((#[trigger] rows[i]).1) || rows[i].2)
            ==> from.contains(i)
}

/// The first rows, and their commands.
proof fn lemma_commands_anew_for<S: Strategy>(
    rows: Seq<(u64, RollbackId, bool)>,
    map: Map<RollbackId, S::Stored>,
    after: Seq<Option<S::Target>>,
) -> (from: Seq<int>)
    requires
        rows.len() <= after.len(),
        forall|i: int|
            #![trigger rows[i]]
            0 <= i < rows.len() ==> match crate::component_snapshot::stored_for(map, rows[i].1) {
                Some(kept) => after[i] matches Some(now) && S::loads(kept, now),
                None => after[i] is None,
            },
    ensures
        commands_anew_for::<S>(
            rows,
            map,
            after,
            crate::component_snapshot::reload_commands(rows, after),
            from,
        ),
    decreases rows.len(),
{
    let commands = crate::component_snapshot::reload_commands(rows, after);
    if rows.len() == 0 {
        Seq::empty()
    } else {
        let front = rows.drop_last();
        let last = rows.len() - 1;
        assert forall|i: int|
            #![trigger front[i]]
            0 <= i < front.len() implies match crate::component_snapshot::stored_for(
            map,
            front[i].1,
        ) {
            Some(kept) => after[i] matches Some(now) && S::loads(kept, now),
            None => after[i] is None,
        } by {
            assert(rows[i] == front[i]);
        }
        let done = lemma_commands_anew_for::<S>(front, map, after);
        let some = crate::component_snapshot::reload_commands(front, after);
        assert(rows[last] == rows.last());
        let from = if map.contains_key(rows[last].1) || rows[last].2 {
            done.push(last)
        } else {
            done
        };
        assert(commands.len() == from.len());
        assert forall|c: int| 0 <= c < commands.len() implies 0 <= #[trigger] from[c] < rows.len()
            && does_what_is_due_anew::<S>(rows[from[c]], map, after[from[c]], commands[c]) by {
            if c < some.len() {
                assert(commands[c] == some[c]);
                assert(from[c] == done[c]);
                assert(front[done[c]] == rows[done[c]]);
            }
        }
        assert forall|c: int, d: int| 0 <= c < d < from.len() implies #[trigger] from[c]
            < #[trigger] from[d] by {
            assert(from[c] == done[c]);
            if d < done.len() {
                assert(done[c] < done[d]);
            }
        }
        assert forall|i: int|
            0 <= i < rows.len() && (map.contains_key((#[trigger] rows[i]).1) || rows[i].2) implies
            from.contains(i) by {
            if i < last {
                assert(front[i] == rows[i]);
                let c = choose|c: int| 0 <= c < done.len() && done[c] == i;
                assert(from[c] == i);
            } else {
                assert(from[done.len() as int] == i);
            }
        }
        from
    }
}

/// The same of immutable components, which are put on their entities anew.
pub proof fn law_reload_leaves_nothing_out<S: Strategy>(
    rows: Seq<(u64, RollbackId, bool)>,
    map: Map<RollbackId, S::Stored>,
    after: Seq<Option<S::Target>>,
)
    requires
        crate::component_snapshot::all_reloaded::<S>(rows, map, after),
    ensures
        after.len() == rows.len(),
        exists|from: Seq<int>| #[trigger]
            commands_anew_for::<S>(
                rows,
                map,
                after,
                crate::component_snapshot::reload_commands(rows, after),
                from,
            ),
{
    let from = lemma_commands_anew_for::<S>(rows, map, after);
}

/// What is kept, loaded and updated by cloning are clones.
pub proof fn law_clone_strategy_clones<T: Clone>(a: T, b: T, c: T)
    ensures
        CloneStrategy::<T>::stores(a, b) <==> cloned(a, b),
        CloneStrategy::<T>::loads(a, b) <==> cloned(a, b),
        CloneStrategy::<T>::updates(a, b, c) <==> cloned(b, c),
{
}

} // verus!
