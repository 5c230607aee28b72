//! What holds of saving components and going back to a saved frame.

use crate::component_snapshot::LoadRow;
use crate::strategy::{CloneStrategy, Strategy};
use crate::world::RollbackId;
use vstd::prelude::*;

verus! {

/// Clones of stored values are equal to what they were cloned from.
pub open spec fn clones_exactly<As: Clone>() -> bool {
    forall|a: As, b: As| #[trigger] cloned(a, b) ==> a == b
}

/// No two rows carry one identifier.
pub open spec fn rows_distinct<T>(rows: Seq<(RollbackId, &T)>) -> bool {
    forall|i: int, j: int|
        0 <= i < j < rows.len() ==> (#[trigger] rows[i]).0 != (#[trigger] rows[j]).0
}

/// Some row carries the identifier.
pub open spec fn has_row<T>(rows: Seq<(RollbackId, &T)>, id: RollbackId) -> bool {
    exists|i: int| 0 <= i < rows.len() && (#[trigger] rows[i]).0 == id
}

/// A snapshot holds what the strategy keeps of each row, and nothing else.
pub open spec fn reflects<S: Strategy>(
    rows: Seq<(RollbackId, &S::Target)>,
    map: Map<RollbackId, S::Stored>,
) -> bool {
    &&& forall|id: RollbackId| #[trigger] map.contains_key(id) ==> has_row(rows, id)
    &&& forall|i: int|
        0 <= i < rows.len() ==> map.contains_key((#[trigger] rows[i]).0) && S::stores(
            *rows[i].1,
            map[rows[i].0],
        )
}

/// `changed` and `removed` say all that happened since `before` was saved:
/// `changed` lists rows as they are now, the row of everything in `before` is
/// still there unless some were removed, and a row that is not listed is as it
/// was.
pub open spec fn changes_told<S: Strategy>(
    before: Map<RollbackId, S::Stored>,
    changed: Seq<(RollbackId, &S::Target)>,
    removed: bool,
    rows: Seq<(RollbackId, &S::Target)>,
) -> bool {
    &&& rows_distinct(changed)
    &&& forall|c: int| 0 <= c < changed.len() ==> rows.contains(#[trigger] changed[c])
    &&& forall|id: RollbackId| #[trigger] before.contains_key(id) ==> has_row(rows, id) || removed
    &&& forall|i: int|
        0 <= i < rows.len() && !has_row(changed, (#[trigger] rows[i]).0) ==> before.contains_key(
            rows[i].0,
        ) && S::stores(*rows[i].1, before[rows[i].0])
}

/// A save is told how things are: `full` lists `rows`, which carry an
/// identifier each of their own, and what happened since the latest snapshot is
/// said. Clones are equal to what they are cloned from.
pub open spec fn save_is_told<'a, S: Strategy, F: FnOnce() -> Vec<(RollbackId, &'a S::Target)>>(
    latest: Option<Map<RollbackId, S::Stored>>,
    changed: Seq<(RollbackId, &S::Target)>,
    removed: bool,
    full: F,
    rows: Seq<(RollbackId, &S::Target)>,
) -> bool where S::Stored: Clone, S::Target: 'a {
    &&& clones_exactly::<S::Stored>()
    &&& rows_distinct(rows)
    &&& forall|listed: Vec<(RollbackId, &S::Target)>| #[trigger]
        full.ensures((), listed) ==> listed@ == rows
    &&& latest matches Some(before) ==> changes_told::<S>(before, changed, removed, rows)
}

/// What a map holds after entries were put into it.
proof fn lemma_overlaid<As>(base: Map<RollbackId, As>, entries: Seq<(RollbackId, As)>)
    requires
        forall|i: int, j: int|
            0 <= i < j < entries.len() ==> (#[trigger] entries[i]).0 != (#[trigger] entries[j]).0,
    ensures
        ({
            let map = crate::component_history::overlaid(base, entries);
            &&& forall|i: int|
                0 <= i < entries.len() ==> map.contains_key((#[trigger] entries[i]).0)
                    && map[entries[i].0] == entries[i].1
            &&& forall|id: RollbackId| #[trigger]
                map.contains_key(id) ==> has_entry(entries, id) || base.contains_key(id)
            &&& forall|id: RollbackId|
                !has_entry(entries, id) && base.contains_key(id) ==> #[trigger] map.contains_key(id)
                    && map[id] == base[id]
        }),
    decreases entries.len(),
{
    if entries.len() > 0 {
        let front = entries.drop_last();
        let last = entries.len() - 1;
        let map = crate::component_history::overlaid(base, entries);
        let some = crate::component_history::overlaid(base, front);
        assert forall|i: int, j: int| 0 <= i < j < front.len() implies (#[trigger] front[i]).0 != (
        #[trigger] front[j]).0 by {
            assert(entries[i].0 != entries[j].0);
        }
        lemma_overlaid(base, front);
        assert(entries[last].0 == entries.last().0);
        assert forall|i: int| 0 <= i < entries.len() implies map.contains_key(
            (#[trigger] entries[i]).0,
        ) && map[entries[i].0] == entries[i].1 by {
            if i < last {
                assert(front[i] == entries[i]);
                assert(entries[i].0 != entries[last].0);
            }
        }
        assert forall|id: RollbackId| #[trigger] map.contains_key(id) implies has_entry(entries, id)
            || base.contains_key(id) by {
            if id != entries[last].0 {
                assert(some.contains_key(id));
                if has_entry(front, id) {
                    let i = choose|i: int| 0 <= i < front.len() && (#[trigger] front[i]).0 == id;
                    assert(entries[i].0 == id);
                }
            }
        }
        assert forall|id: RollbackId|
            !has_entry(entries, id) && base.contains_key(id) implies #[trigger] map.contains_key(id)
            && map[id] == base[id] by {
            assert(entries[last].0 != id);
            if has_entry(front, id) {
                let i = choose|i: int| 0 <= i < front.len() && (#[trigger] front[i]).0 == id;
                assert(entries[i].0 == id);
            }
            assert(some.contains_key(id));
        }
    }
}

/// Some entry is for the identifier.
spec fn has_entry<As>(entries: Seq<(RollbackId, As)>, id: RollbackId) -> bool {
    exists|i: int| 0 <= i < entries.len() && (#[trigger] entries[i]).0 == id
}

/// A snapshot made anew reflects the rows that it was made of.
pub proof fn law_rebuilt_snapshot_reflects_rows<S: Strategy>(
    rows: Seq<(RollbackId, &S::Target)>,
    map: Map<RollbackId, S::Stored>,
)
    requires
        rows_distinct(rows),
        crate::component_snapshot::rebuilt::<S>(rows, map),
    ensures
        reflects::<S>(rows, map),
{
    let entries = choose|entries: Seq<(RollbackId, S::Stored)>| #[trigger]
        crate::component_snapshot::kept::<S>(rows, entries) && map
            == crate::component_history::overlaid(Map::empty(), entries);
    assert forall|i: int, j: int| 0 <= i < j < entries.len() implies (#[trigger] entries[i]).0 != (
    #[trigger] entries[j]).0 by {
        assert(rows[i].0 != rows[j].0);
    }
    lemma_overlaid(Map::empty(), entries);
    assert forall|id: RollbackId| #[trigger] map.contains_key(id) implies has_row(rows, id) by {
        assert(has_entry(entries, id));
        let i = choose|i: int| 0 <= i < entries.len() && (#[trigger] entries[i]).0 == id;
        assert(rows[i].0 == id);
    }
    assert forall|i: int| 0 <= i < rows.len() implies map.contains_key((#[trigger] rows[i]).0)
        && S::stores(*rows[i].1, map[rows[i].0]) by {
        assert(entries[i].0 == rows[i].0);
    }
}

/// Whichever path a save takes, the snapshot reflects the rows as they are.
pub proof fn law_save_reflects_rows<
    'a,
    S: Strategy,
    F: FnOnce() -> Vec<(RollbackId, &'a S::Target)>,
>(
    latest: Option<Map<RollbackId, S::Stored>>,
    changed: Seq<(RollbackId, &S::Target)>,
    removed: bool,
    full: F,
    rows: Seq<(RollbackId, &S::Target)>,
    map: Map<RollbackId, S::Stored>,
) where S::Stored: Clone, S::Target: 'a
    requires
        save_is_told::<S, F>(latest, changed, removed, full, rows),
        crate::component_snapshot::saved::<S, F>(latest, changed, removed, full, map),
    ensures
        reflects::<S>(rows, map),
{
    match latest {
        None => {
            law_rebuilt_snapshot_reflects_rows::<S>(rows, map);
        },
        Some(before) => {
            if removed {
                law_rebuilt_snapshot_reflects_rows::<S>(rows, map);
            } else if changed.len() == 0 {
                assert forall|i: int| 0 <= i < rows.len() implies map.contains_key(
                    (#[trigger] rows[i]).0,
                ) && S::stores(*rows[i].1, map[rows[i].0]) by {
                    assert(!has_row(changed, rows[i].0));
                }
            } else if changed.len() * 2 >= before.len() {
                law_rebuilt_snapshot_reflects_rows::<S>(rows, map);
            } else {
                lemma_patch_reflects_rows::<S>(before, changed, rows, map);
            }
        },
    }
}

/// A patched snapshot reflects the rows as they are.
proof fn lemma_patch_reflects_rows<S: Strategy>(
    before: Map<RollbackId, S::Stored>,
    changed: Seq<(RollbackId, &S::Target)>,
    rows: Seq<(RollbackId, &S::Target)>,
    map: Map<RollbackId, S::Stored>,
) where S::Stored: Clone
    requires
        clones_exactly::<S::Stored>(),
        rows_distinct(rows),
        changes_told::<S>(before, changed, false, rows),
        crate::component_snapshot::patched_with::<S>(before, changed, map),
    ensures
        reflects::<S>(rows, map),
{
    let changes = choose|changes: Seq<(RollbackId, S::Stored)>| #[trigger]
        crate::component_snapshot::kept::<S>(changed, changes)
            && crate::component_history::patched(before, changes, map);
    let copy = choose|copy: Map<RollbackId, S::Stored>| #[trigger]
        crate::component_history::copied(before, copy) && map
            == crate::component_history::overlaid(copy, changes);
    assert forall|id: RollbackId| #[trigger] before.contains_key(id) implies copy[id]
        == before[id] by {
        assert(cloned(before[id], copy[id]));
    }
    assert(copy =~= before);
    assert forall|i: int, j: int| 0 <= i < j < changes.len() implies (#[trigger] changes[i]).0 != (
    #[trigger] changes[j]).0 by {
        assert(changed[i].0 != changed[j].0);
    }
    lemma_overlaid(before, changes);
    assert forall|id: RollbackId| #[trigger] map.contains_key(id) implies has_row(rows, id) by {
        if has_entry(changes, id) {
            let c = choose|c: int| 0 <= c < changes.len() && (#[trigger] changes[c]).0 == id;
            assert(rows.contains(changed[c]));
            let i = choose|i: int| 0 <= i < rows.len() && rows[i] == changed[c];
            assert(rows[i].0 == id);
        } else {
            assert(before.contains_key(id));
        }
    }
    assert forall|i: int| 0 <= i < rows.len() implies map.contains_key((#[trigger] rows[i]).0)
        && S::stores(*rows[i].1, map[rows[i].0]) by {
        if has_row(changed, rows[i].0) {
            let c = choose|c: int|
                0 <= c < changed.len() && (#[trigger] changed[c]).0 == rows[i].0;
            assert(rows.contains(changed[c]));
            let j = choose|j: int| 0 <= j < rows.len() && rows[j] == changed[c];
            assert(i == j);
            assert(changes[c].0 == rows[i].0);
        } else {
            if has_entry(changes, rows[i].0) {
                let c = choose|c: int|
                    0 <= c < changes.len() && (#[trigger] changes[c]).0 == rows[i].0;
                assert(changed[c].0 == rows[i].0);
            }
            assert(before.contains_key(rows[i].0));
        }
    }
}

/// The strategy keeps the same of the same component every time.
pub open spec fn keeps_repeatably<S: Strategy>() -> bool {
    forall|target: S::Target, a: S::Stored, b: S::Stored| #[trigger]
        S::stores(target, a) && #[trigger] S::stores(target, b) ==> a == b
}

/// Sharing and patching the latest snapshot are shortcuts: what a save leaves
/// is the snapshot that making it anew would leave, under the conditions under
/// which a save reflects the rows.
pub proof fn law_save_equals_rebuild<
    'a,
    S: Strategy,
    F: FnOnce() -> Vec<(RollbackId, &'a S::Target)>,
>(
    latest: Option<Map<RollbackId, S::Stored>>,
    changed: Seq<(RollbackId, &S::Target)>,
    removed: bool,
    full: F,
    rows: Seq<(RollbackId, &S::Target)>,
    map: Map<RollbackId, S::Stored>,
    anew: Map<RollbackId, S::Stored>,
) where S::Stored: Clone, S::Target: 'a
    requires
        keeps_repeatably::<S>(),
        save_is_told::<S, F>(latest, changed, removed, full, rows),
        crate::component_snapshot::saved::<S, F>(latest, changed, removed, full, map),
        crate::component_snapshot::rebuilt::<S>(rows, anew),
    ensures
        map == anew,
{
    law_save_reflects_rows::<S, F>(latest, changed, removed, full, rows, map);
    law_rebuilt_snapshot_reflects_rows::<S>(rows, anew);
    assert forall|id: RollbackId| map.contains_key(id) == #[trigger] anew.contains_key(id) by {
        if has_row(rows, id) {
            let i = choose|i: int| 0 <= i < rows.len() && (#[trigger] rows[i]).0 == id;
            assert(map.contains_key(rows[i].0) && anew.contains_key(rows[i].0));
        }
    }
    assert forall|id: RollbackId| #[trigger] map.contains_key(id) implies map[id] == anew[id] by {
        assert(has_row(rows, id));
        let i = choose|i: int| 0 <= i < rows.len() && (#[trigger] rows[i]).0 == id;
        assert(S::stores(*rows[i].1, map[rows[i].0]));
        assert(S::stores(*rows[i].1, anew[rows[i].0]));
    }
    assert(map =~= anew);
}

/// What a strategy makes of a stored component is the component that it was
/// stored from.
pub open spec fn keeps_faithfully<S: Strategy>() -> bool {
    &&& forall|target: S::Target, stored: S::Stored, now: S::Target| #[trigger]
        S::stores(target, stored) && #[trigger] S::loads(stored, now) ==> now == target
    &&& forall|target: S::Target, stored: S::Stored, was: S::Target, now: S::Target| #[trigger]
        S::stores(target, stored) && #[trigger] S::updates(was, stored, now) ==> now == target
}

/// Keeping clones is faithful where clones are equal to what they are cloned
/// from.
pub proof fn law_clone_strategy_keeps_faithfully<T: Clone>()
    requires
        clones_exactly::<T>(),
    ensures
        keeps_faithfully::<CloneStrategy<T>>(),
{
    assert forall|target: T, stored: T, now: T| #[trigger]
        CloneStrategy::<T>::stores(target, stored) && #[trigger] CloneStrategy::<T>::loads(
            stored,
            now,
        ) implies now == target by {
        assert(cloned(target, stored));
        assert(cloned(stored, now));
    }
    assert forall|target: T, stored: T, was: T, now: T| #[trigger]
        CloneStrategy::<T>::stores(target, stored) && #[trigger] CloneStrategy::<T>::updates(
            was,
            stored,
            now,
        ) implies now == target by {
        assert(cloned(target, stored));
        assert(cloned(stored, now));
    }
}

/// `after` is the component that was saved for an identifier; none where none
/// was.
pub open spec fn as_saved<T>(
    saved: Seq<(RollbackId, &T)>,
    id: RollbackId,
    after: Option<T>,
) -> bool {
    if has_row(saved, id) {
        exists|j: int|
            0 <= j < saved.len() && (#[trigger] saved[j]).0 == id && after == Some(*saved[j].1)
    } else {
        after is None
    }
}

/// Going back to a snapshot that reflects the saved rows leaves every entity
/// with the component that it was saved with, and without one where it had
/// none.
pub proof fn law_load_restores_saved_rows<S: Strategy>(
    saved: Seq<(RollbackId, &S::Target)>,
    map: Map<RollbackId, S::Stored>,
    rows: Seq<LoadRow<'_, S::Target>>,
    after: Seq<Option<S::Target>>,
)
    requires
        keeps_faithfully::<S>(),
        reflects::<S>(saved, map),
        crate::component_snapshot::rows_brought_back::<S>(rows, map, after),
    ensures
        forall|i: int|
            0 <= i < rows.len() ==> as_saved(saved, (#[trigger] rows[i]).rollback, after[i]),
{
    assert forall|i: int| 0 <= i < rows.len() implies as_saved(
        saved,
        (#[trigger] rows[i]).rollback,
        after[i],
    ) by {
        let id = rows[i].rollback;
        let was = crate::component_snapshot::component_in(rows[i]);
        let stored = crate::component_snapshot::stored_for(map, id);
        assert(crate::component_snapshot::brought_back::<S>(was, stored, after[i]));
        if has_row(saved, id) {
            let j = choose|j: int| 0 <= j < saved.len() && (#[trigger] saved[j]).0 == id;
            assert(S::stores(*saved[j].1, map[id]));
            assert(after[i] == Some(*saved[j].1));
        }
    }
}

/// The same of immutable components.
pub proof fn law_reload_restores_saved_rows<S: Strategy>(
    saved: Seq<(RollbackId, &S::Target)>,
    map: Map<RollbackId, S::Stored>,
    rows: Seq<(u64, RollbackId, bool)>,
    after: Seq<Option<S::Target>>,
)
    requires
        keeps_faithfully::<S>(),
        reflects::<S>(saved, map),
        crate::component_snapshot::all_reloaded::<S>(rows, map, after),
    ensures
        forall|i: int| 0 <= i < rows.len() ==> as_saved(saved, (#[trigger] rows[i]).1, after[i]),
{
    assert forall|i: int| 0 <= i < rows.len() implies as_saved(
        saved,
        (#[trigger] rows[i]).1,
        after[i],
    ) by {
        let id = rows[i].1;
        let stored = crate::component_snapshot::stored_for(map, id);
        if has_row(saved, id) {
            let j = choose|j: int| 0 <= j < saved.len() && (#[trigger] saved[j]).0 == id;
            assert(S::stores(*saved[j].1, map[id]));
            assert(after[i] == Some(*saved[j].1));
        }
    }
}

/// Going back to a frame finds the snapshot that was saved of it, whatever was
/// saved of other frames since, and drops the rest.
pub proof fn law_rollback_finds_saved_frame<As>(
    before: Seq<(i32, Map<RollbackId, As>)>,
    frame: i32,
    map: Map<RollbackId, As>,
    since: Seq<(i32, Map<RollbackId, As>)>,
)
    requires
        forall|i: int| 0 <= i < since.len() ==> (#[trigger] since[i]).0 != frame,
    ensures
        ({
            let history = before.push((frame, map)) + since;
            let at = crate::component_history::latest_index(history, frame);
            &&& at >= 0
            &&& history.take(at + 1) == before.push((frame, map))
        }),
    decreases since.len(),
{
    let history = before.push((frame, map)) + since;
    if since.len() == 0 {
        assert(history =~= before.push((frame, map)));
        assert(history.last() == (frame, map));
        assert(history.take(history.len() as int) =~= history);
    } else {
        let front = since.drop_last();
        assert forall|i: int| 0 <= i < front.len() implies (#[trigger] front[i]).0 != frame by {
            assert(since[i].0 != frame);
        }
        law_rollback_finds_saved_frame(before, frame, map, front);
        assert(history.drop_last() =~= before.push((frame, map)) + front);
        assert(history.last() == since[since.len() - 1]);
        let at = crate::component_history::latest_index(history, frame);
        assert(history.take(at + 1) =~= history.drop_last().take(at + 1)) by {
            crate::component_history::lemma_latest_index(history.drop_last(), frame);
        }
    }
}

/// Going back to a saved frame brings back what was saved of it: every entity
/// ends with the component that it was saved with, whatever was saved of other
/// frames since.
pub proof fn law_load_goes_back_to_saved_frame<S: Strategy>(
    before: Seq<(i32, Map<RollbackId, S::Stored>)>,
    frame: i32,
    saved: Seq<(RollbackId, &S::Target)>,
    map: Map<RollbackId, S::Stored>,
    since: Seq<(i32, Map<RollbackId, S::Stored>)>,
    rows: Seq<LoadRow<'_, S::Target>>,
    after: Seq<Option<S::Target>>,
)
    requires
        keeps_faithfully::<S>(),
        reflects::<S>(saved, map),
        forall|i: int| 0 <= i < since.len() ==> (#[trigger] since[i]).0 != frame,
        ({
            let history = before.push((frame, map)) + since;
            let at = crate::component_history::latest_index(history, frame);
            crate::component_snapshot::rows_brought_back::<S>(
                rows,
                history.take(at + 1).last().1,
                after,
            )
        }),
    ensures
        forall|i: int|
            0 <= i < rows.len() ==> as_saved(saved, (#[trigger] rows[i]).rollback, after[i]),
{
    law_rollback_finds_saved_frame(before, frame, map, since);
    law_load_restores_saved_rows::<S>(saved, map, rows, after);
}

/// A frame that was saved comes back as it was, however it was saved and
/// whatever was changed, inserted or taken away before it or since.
pub proof fn law_saved_frame_comes_back<
    'a,
    S: Strategy,
    F: FnOnce() -> Vec<(RollbackId, &'a S::Target)>,
>(
    before: Seq<(i32, Map<RollbackId, S::Stored>)>,
    changed: Seq<(RollbackId, &S::Target)>,
    removed: bool,
    full: F,
    saved: Seq<(RollbackId, &S::Target)>,
    frame: i32,
    map: Map<RollbackId, S::Stored>,
    since: Seq<(i32, Map<RollbackId, S::Stored>)>,
    rows: Seq<LoadRow<'_, S::Target>>,
    after: Seq<Option<S::Target>>,
) where S::Stored: Clone, S::Target: 'a
    requires
        keeps_faithfully::<S>(),
        save_is_told::<S, F>(
            crate::component_history::latest(before),
            changed,
            removed,
            full,
            saved,
        ),
        crate::component_snapshot::saved::<S, F>(
            crate::component_history::latest(before),
            changed,
            removed,
            full,
            map,
        ),
        forall|i: int| 0 <= i < since.len() ==> (#[trigger] since[i]).0 != frame,
        ({
            let history = before.push((frame, map)) + since;
            let at = crate::component_history::latest_index(history, frame);
            crate::component_snapshot::rows_brought_back::<S>(
                rows,
                history.take(at + 1).last().1,
                after,
            )
        }),
    ensures
        forall|i: int|
            0 <= i < rows.len() ==> as_saved(saved, (#[trigger] rows[i]).rollback, after[i]),
{
    law_save_reflects_rows::<S, F>(
        crate::component_history::latest(before),
        changed,
        removed,
        full,
        saved,
        map,
    );
    law_load_goes_back_to_saved_frame::<S>(before, frame, saved, map, since, rows, after);
}

/// Dropping the oldest snapshots does not move the others.
proof fn lemma_latest_index_behind<As>(
    history: Seq<(i32, Map<RollbackId, As>)>,
    frame: i32,
    n: int,
)
    requires
        0 <= n <= crate::component_history::latest_index(history, frame),
    ensures
        crate::component_history::latest_index(history.skip(n), frame)
            == crate::component_history::latest_index(history, frame) - n,
    decreases history.len(),
{
    crate::component_history::lemma_latest_index(history, frame);
    let rest = history.skip(n);
    assert(rest.last() == history.last());
    if history.last().0 != frame {
        crate::component_history::lemma_latest_index(history.drop_last(), frame);
        lemma_latest_index_behind(history.drop_last(), frame, n);
        assert(rest.drop_last() =~= history.drop_last().skip(n));
    }
}

/// Discarding old snapshots leaves every saved frame within reach that is
/// confirmed or later, with the snapshot that it had.
pub proof fn law_discarding_keeps_confirmed_frames<As>(
    history: Seq<(i32, Map<RollbackId, As>)>,
    confirmed: i32,
    frame: i32,
)
    requires
        confirmed <= frame,
        crate::component_history::latest_index(history, frame) >= 0,
    ensures
        ({
            let kept = history.skip(
                crate::seqs::first_index(
                    history,
                    crate::component_history::not_before(confirmed),
                ),
            );
            let at = crate::component_history::latest_index(kept, frame);
            &&& at >= 0
            &&& kept.take(at + 1).last() == history.take(
                crate::component_history::latest_index(history, frame) + 1,
            ).last()
        }),
{
    let ask = crate::component_history::not_before::<As>(confirmed);
    let n = crate::seqs::first_index(history, ask);
    let at = crate::component_history::latest_index(history, frame);
    crate::seqs::lemma_first_index(history, ask);
    crate::component_history::lemma_latest_index(history, frame);
    if at < n {
        assert(!ask(history[at]));
    }
    lemma_latest_index_behind(history, frame, n);
}

} // verus!
