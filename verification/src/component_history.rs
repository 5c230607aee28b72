//! Snapshots of one component type, and the history of them.

use crate::seqs::position_where;
use crate::world::RollbackId;
use std::marker::PhantomData;
use std::sync::Arc;
use vstd::prelude::*;

verus! {

/// `base` with `entries` put into it one after the other, so that the last
/// entry for an identifier counts.
pub open spec fn overlaid<As>(
    base: Map<RollbackId, As>,
    entries: Seq<(RollbackId, As)>,
) -> Map<RollbackId, As>
    decreases entries.len(),
{
    if entries.len() == 0 {
        base
    } else {
        overlaid(base, entries.drop_last()).insert(entries.last().0, entries.last().1)
    }
}

/// `copy` holds a clone of every value of `base`.
pub open spec fn copied<As: Clone>(base: Map<RollbackId, As>, copy: Map<RollbackId, As>) -> bool {
    &&& copy.dom() == base.dom()
    &&& forall|id: RollbackId| #[trigger]
        base.contains_key(id) ==> cloned(base[id], copy[id])
}

/// `after` are the values of `before`, cloned, with `changes` put in their place.
pub open spec fn patched<As: Clone>(
    before: Map<RollbackId, As>,
    changes: Seq<(RollbackId, As)>,
    after: Map<RollbackId, As>,
) -> bool {
    exists|copy: Map<RollbackId, As>| #[trigger]
        copied(before, copy) && after == overlaid(copy, changes)
}

/// The identifiers stand in rising order.
spec fn rising<As>(entries: Seq<(RollbackId, As)>) -> bool {
    forall|i: int, j: int|
        0 <= i < j < entries.len() ==> (#[trigger] entries[i]).0.0 < (#[trigger] entries[j]).0.0
}

/// What entries in rising order hold.
proof fn lemma_rising<As>(entries: Seq<(RollbackId, As)>)
    requires
        rising(entries),
    ensures
        overlaid(Map::empty(), entries).dom().finite(),
        overlaid(Map::empty(), entries).len() == entries.len(),
        forall|i: int|
            0 <= i < entries.len() ==> overlaid(Map::empty(), entries).contains_key(
                (#[trigger] entries[i]).0,
            ) && overlaid(Map::empty(), entries)[entries[i].0] == entries[i].1,
        forall|id: RollbackId| #[trigger]
            overlaid(Map::empty(), entries).contains_key(id) ==> exists|i: int|
                0 <= i < entries.len() && (#[trigger] entries[i]).0 == id,
    decreases entries.len(),
{
    let none = Map::<RollbackId, As>::empty();
    if entries.len() > 0 {
        let front = entries.drop_last();
        let last = entries.len() - 1;
        let map = overlaid(none, entries);
        assert forall|i: int, j: int| 0 <= i < j < front.len() implies (#[trigger] front[i]).0.0 < (
        #[trigger] front[j]).0.0 by {
            assert(entries[i].0.0 < entries[j].0.0);
        }
        lemma_rising(front);
        assert(!overlaid(none, front).contains_key(entries[last].0)) by {
            if overlaid(none, front).contains_key(entries[last].0) {
                let i = choose|i: int|
                    0 <= i < front.len() && (#[trigger] front[i]).0 == entries[last].0;
                assert(entries[i].0.0 < entries[last].0.0);
            }
        }
        assert forall|i: int| 0 <= i < entries.len() implies map.contains_key(
            (#[trigger] entries[i]).0,
        ) && map[entries[i].0] == entries[i].1 by {
            if i < last {
                assert(front[i] == entries[i]);
                assert(entries[i].0.0 < entries[last].0.0);
            }
        }
        assert forall|id: RollbackId| #[trigger] map.contains_key(id) implies exists|i: int|
            0 <= i < entries.len() && (#[trigger] entries[i]).0 == id by {
            if id == entries[last].0 {
                assert(entries[last].0 == id);
            } else {
                assert(overlaid(none, front).contains_key(id));
                let i = choose|i: int| 0 <= i < front.len() && (#[trigger] front[i]).0 == id;
                assert(entries[i].0 == id);
            }
        }
    }
}

/// Where an identifier stands, or would stand, in entries in rising order.
fn position<As>(entries: &Vec<(RollbackId, As)>, id: RollbackId) -> (at: usize)
    requires
        rising(entries@),
    ensures
        at <= entries.len(),
        forall|i: int| 0 <= i < at ==> (#[trigger] entries@[i]).0.0 < id.0,
        forall|i: int| at <= i < entries.len() ==> id.0 <= (#[trigger] entries@[i]).0.0,
{
    let mut low: usize = 0;
    let mut high: usize = entries.len();
    while low < high
        invariant
            low <= high <= entries.len(),
            rising(entries@),
            forall|i: int| 0 <= i < low ==> (#[trigger] entries@[i]).0.0 < id.0,
            forall|i: int| high <= i < entries.len() ==> id.0 <= (#[trigger] entries@[i]).0.0,
        decreases high - low,
    {
        let middle: usize = low + (high - low) / 2;
        if entries[middle].0.to_bits() < id.to_bits() {
            low = middle + 1;
        } else {
            high = middle;
        }
    }
    low
}

/// Puts a value in its place.
fn put<As>(entries: &mut Vec<(RollbackId, As)>, id: RollbackId, value: As)
    requires
        rising(old(entries)@),
    ensures
        rising(final(entries)@),
        overlaid(Map::empty(), final(entries)@) == overlaid(Map::empty(), old(entries)@).insert(
            id,
            value,
        ),
{
    let at: usize = position(entries, id);
    let ghost before = entries@;
    if at < entries.len() && entries[at].0 == id {
        entries[at] = (id, value);
        assert(entries@ =~= before.update(at as int, (id, value)));
    } else {
        entries.insert(at, (id, value));
        assert(entries@ =~= before.insert(at as int, (id, value)));
    }
    proof {
        let after = entries@;
        let none = Map::<RollbackId, As>::empty();
        let replaced = at < before.len() && before[at as int].0 == id;
        assert forall|i: int, j: int| 0 <= i < j < after.len() implies (#[trigger] after[i]).0.0 < (
        #[trigger] after[j]).0.0 by {
            if replaced {
                assert(before[i].0.0 < before[j].0.0);
            } else {
                if i < at && j < at {
                    assert(before[i].0.0 < before[j].0.0);
                } else if i < at && j > at {
                    assert(before[i].0.0 < before[j - 1].0.0);
                } else if i > at {
                    assert(before[i - 1].0.0 < before[j - 1].0.0);
                }
            }
        }
        lemma_rising(before);
        lemma_rising(after);
        let was = overlaid(none, before);
        let is = overlaid(none, after);
        assert(after[at as int] == (id, value));
        assert forall|other: RollbackId| #[trigger]
            is.contains_key(other) == was.insert(id, value).contains_key(other) by {
            if is.contains_key(other) && other != id {
                let i = choose|i: int| 0 <= i < after.len() && (#[trigger] after[i]).0 == other;
                if replaced || i < at {
                    assert(before[i].0 == other);
                } else {
                    assert(before[i - 1].0 == other);
                }
            }
            if was.contains_key(other) && other != id {
                let i = choose|i: int| 0 <= i < before.len() && (#[trigger] before[i]).0 == other;
                if replaced || i < at {
                    assert(after[i].0 == other);
                } else {
                    assert(after[i + 1].0 == other);
                }
            }
        }
        assert forall|other: RollbackId| #[trigger] is.contains_key(other) implies is[other]
            == was.insert(id, value)[other] by {
            let i = choose|i: int| 0 <= i < after.len() && (#[trigger] after[i]).0 == other;
            assert(is[after[i].0] == after[i].1);
            if other != id {
                if replaced || i < at {
                    assert(before[i].0 == other);
                } else {
                    assert(before[i - 1].0 == other);
                }
            } else {
                assert(i == at) by {
                    assert(i < at ==> after[i].0.0 < after[at as int].0.0);
                    assert(i > at ==> after[at as int].0.0 < after[i].0.0);
                }
            }
        }
        assert(is =~= was.insert(id, value));
    }
}

/// The components of one type on all rollback entities, as they were stored in
/// one frame. Entries stand in rising order of their identifiers, and copies
/// share them.
pub struct GgrsComponentSnapshot<C, As> {
    entries: Arc<Vec<(RollbackId, As)>>,
    _phantom: PhantomData<C>,
}

impl<C, As> View for GgrsComponentSnapshot<C, As> {
    type V = Map<RollbackId, As>;

    closed spec fn view(&self) -> Map<RollbackId, As> {
        overlaid(Map::empty(), self.entries@)
    }
}

impl<C, As> GgrsComponentSnapshot<C, As> {
    #[verifier::type_invariant]
    spec fn in_order(self) -> bool {
        rising(self.entries@)
    }

    /// A snapshot of these components. Where an identifier comes twice, the
    /// last one counts.
    pub fn new(components: Vec<(RollbackId, As)>) -> (snapshot: Self)
        ensures
            snapshot@ == overlaid(Map::empty(), components@),
    {
        let mut entries: Vec<(RollbackId, As)> = Vec::new();
        let ghost all = components@;
        assert(all.take(0) =~= Seq::empty());
        for component in iter: components
            invariant
                iter.seq() == all,
                rising(entries@),
                overlaid(Map::empty(), entries@) == overlaid(Map::empty(), all.take(iter.index())),
        {
            proof {
                let done = all.take(iter.index() + 1);
                assert(done.drop_last() =~= all.take(iter.index()));
                assert(done.last() == component);
            }
            put(&mut entries, component.0, component.1);
        }
        assert(all.take(all.len() as int) =~= all);
        GgrsComponentSnapshot { entries: Arc::new(entries), _phantom: PhantomData }
    }

    /// A snapshot that shares the entries of another.
    pub fn share_arc_from(other: &Self) -> (snapshot: Self)
        ensures
            snapshot@ == other@,
    {
        proof {
            use_type_invariant(other);
        }
        GgrsComponentSnapshot { entries: Arc::clone(&other.entries), _phantom: PhantomData }
    }

    /// How many components the snapshot holds.
    pub fn len(&self) -> (n: usize)
        ensures
            n == self@.len(),
    {
        proof {
            use_type_invariant(self);
            lemma_rising(self.entries@);
        }
        self.entries.len()
    }

    /// The component stored for an identifier.
    pub fn get(&self, id: &RollbackId) -> (stored: Option<&As>)
        ensures
            match stored {
                Some(value) => self@.contains_key(*id) && *value == self@[*id],
                None => !self@.contains_key(*id),
            },
    {
        proof {
            use_type_invariant(self);
            lemma_rising(self.entries@);
        }
        let at: usize = position(&self.entries, *id);
        if at < self.entries.len() && self.entries[at].0 == *id {
            Some(&self.entries[at].1)
        } else {
            None
        }
    }
}

impl<C, As: Clone> GgrsComponentSnapshot<C, As> {
    /// Puts changed components in place. The entries are copied first, so
    /// that snapshots which share them keep what they had.
    pub fn patch(&mut self, changes: Vec<(RollbackId, As)>)
        ensures
            patched(old(self)@, changes@, final(self)@),
    {
        proof {
            use_type_invariant(&*self);
        }
        let ghost shared = self.entries@;
        let mut entries: Vec<(RollbackId, As)> = Vec::new();
        let mut i: usize = 0;
        while i < self.entries.len()
            invariant
                i <= self.entries.len(),
                shared == self.entries@,
                rising(shared),
                rising(entries@),
                entries.len() == i,
                forall|j: int|
                    0 <= j < i ==> (#[trigger] entries@[j]).0 == shared[j].0 && cloned(
                        shared[j].1,
                        entries@[j].1,
                    ),
            decreases self.entries.len() - i,
        {
            let value: As = self.entries[i].1.clone();
            entries.push((self.entries[i].0, value));
            i = i + 1;
        }
        let ghost copy = overlaid(Map::empty(), entries@);
        proof {
            lemma_copied(shared, entries@);
        }
        let ghost all = changes@;
        assert(all.take(0) =~= Seq::empty());
        for change in iter: changes
            invariant
                iter.seq() == all,
                rising(entries@),
                overlaid(Map::empty(), entries@) == overlaid(copy, all.take(iter.index())),
        {
            proof {
                let done = all.take(iter.index() + 1);
                assert(done.drop_last() =~= all.take(iter.index()));
                assert(done.last() == change);
            }
            put(&mut entries, change.0, change.1);
        }
        assert(all.take(all.len() as int) =~= all);
        self.entries = Arc::new(entries);
    }
}

/// Cloning the values of entries clones the values of the snapshot.
proof fn lemma_copied<As: Clone>(from: Seq<(RollbackId, As)>, to: Seq<(RollbackId, As)>)
    requires
        rising(from),
        rising(to),
        from.len() == to.len(),
        forall|i: int|
            0 <= i < from.len() ==> (#[trigger] to[i]).0 == from[i].0 && cloned(
                from[i].1,
                to[i].1,
            ),
    ensures
        copied(overlaid(Map::empty(), from), overlaid(Map::empty(), to)),
{
    lemma_rising(from);
    lemma_rising(to);
    let base = overlaid(Map::empty(), from);
    let copy = overlaid(Map::empty(), to);
    assert forall|id: RollbackId| base.contains_key(id) == #[trigger] copy.contains_key(id) by {
        if base.contains_key(id) {
            let i = choose|i: int| 0 <= i < from.len() && (#[trigger] from[i]).0 == id;
            assert(to[i].0 == id);
        }
        if copy.contains_key(id) {
            let i = choose|i: int| 0 <= i < to.len() && (#[trigger] to[i]).0 == id;
            assert(from[i].0 == id);
        }
    }
    assert(copy.dom() =~= base.dom());
    assert forall|id: RollbackId| #[trigger] base.contains_key(id) implies cloned(
        base[id],
        copy[id],
    ) by {
        let i = choose|i: int| 0 <= i < from.len() && (#[trigger] from[i]).0 == id;
        assert(to[i].0 == id);
    }
}

/// Where the latest snapshot of a frame stands in a history; below zero where
/// there is none.
pub open spec fn latest_index<As>(history: Seq<(i32, Map<RollbackId, As>)>, frame: i32) -> int
    decreases history.len(),
{
    if history.len() == 0 {
        -1
    } else if history.last().0 == frame {
        history.len() - 1
    } else {
        latest_index(history.drop_last(), frame)
    }
}

/// The latest index is one, and the latest.
pub proof fn lemma_latest_index<As>(history: Seq<(i32, Map<RollbackId, As>)>, frame: i32)
    ensures
        -1 <= latest_index(history, frame) < history.len(),
        latest_index(history, frame) >= 0 ==> history[latest_index(history, frame)].0 == frame,
    decreases history.len(),
{
    if history.len() > 0 && history.last().0 != frame {
        lemma_latest_index(history.drop_last(), frame);
    }
}

/// The test for snapshots of a frame or of later ones.
pub open spec fn not_before<As>(frame: i32) -> spec_fn((i32, Map<RollbackId, As>)) -> bool {
    |entry: (i32, Map<RollbackId, As>)| entry.0 >= frame
}

/// The latest snapshot of a history.
pub open spec fn latest<As>(history: Seq<(i32, Map<RollbackId, As>)>) -> Option<
    Map<RollbackId, As>,
> {
    if history.len() == 0 {
        None
    } else {
        Some(history.last().1)
    }
}

/// The snapshots of one component type, by frame, the latest one last.
pub struct GgrsComponentSnapshots<C, As> {
    snapshots: Vec<(i32, GgrsComponentSnapshot<C, As>)>,
}

impl<C, As> View for GgrsComponentSnapshots<C, As> {
    type V = Seq<(i32, Map<RollbackId, As>)>;

    closed spec fn view(&self) -> Seq<(i32, Map<RollbackId, As>)> {
        self.snapshots@.map_values(
            |entry: (i32, GgrsComponentSnapshot<C, As>)| (entry.0, entry.1@),
        )
    }
}

impl<C, As> Default for GgrsComponentSnapshots<C, As> {
    fn default() -> (snapshots: Self)
        ensures
            snapshots@ == Seq::<(i32, Map<RollbackId, As>)>::empty(),
    {
        let snapshots = GgrsComponentSnapshots { snapshots: Vec::new() };
        assert(snapshots@ =~= Seq::empty());
        snapshots
    }
}

impl<C, As> GgrsComponentSnapshots<C, As> {
    /// Adds the snapshot of a frame, as the latest.
    pub fn push(&mut self, frame: i32, snapshot: GgrsComponentSnapshot<C, As>)
        ensures
            final(self)@ == old(self)@.push((frame, snapshot@)),
    {
        self.snapshots.push((frame, snapshot));
        assert(self@ =~= old(self)@.push((frame, snapshot@)));
    }

    /// The latest snapshot, if there is one.
    pub fn peek_latest(&self) -> (snapshot: Option<&GgrsComponentSnapshot<C, As>>)
        ensures
            match snapshot {
                Some(found) => latest(self@) == Some(found@),
                None => latest(self@) is None,
            },
    {
        let n: usize = self.snapshots.len();
        if n == 0 {
            None
        } else {
            assert(self@[n - 1] == (self.snapshots@[n - 1].0, self.snapshots@[n - 1].1@));
            Some(&self.snapshots[n - 1].1)
        }
    }

    /// Whether there is a snapshot of a frame.
    pub fn has_frame(&self, frame: i32) -> (found: bool)
        ensures
            found == (latest_index(self@, frame) >= 0),
    {
        let mut n: usize = self.snapshots.len();
        assert(self@.take(n as int) =~= self@);
        while n > 0
            invariant
                n <= self.snapshots.len(),
                latest_index(self@, frame) == latest_index(self@.take(n as int), frame),
            decreases n,
        {
            assert(self@.take(n as int).last() == self@[n - 1]);
            assert(self@.take(n as int).drop_last() =~= self@.take(n - 1));
            if self.snapshots[n - 1].0 == frame {
                return true;
            }
            n = n - 1;
        }
        false
    }

    /// Goes back to a frame: drops every snapshot behind the latest one of it.
    pub fn rollback(&mut self, frame: i32)
        requires
            latest_index(old(self)@, frame) >= 0,
        ensures
            final(self)@ == old(self)@.take(latest_index(old(self)@, frame) + 1),
            final(self)@.len() > 0,
            final(self)@.last().0 == frame,
    {
        let ghost all = self@;
        let ghost target = latest_index(all, frame);
        proof {
            lemma_latest_index(all, frame);
            assert(all.take(all.len() as int) =~= all);
        }
        let mut n: usize = self.snapshots.len();
        while self.snapshots[n - 1].0 != frame
            invariant
                0 < n <= self.snapshots.len(),
                all == self@,
                target >= 0,
                target == latest_index(all.take(n as int), frame),
            decreases n,
        {
            assert(all.take(n as int).last() == all[n - 1]);
            assert(all.take(n as int).drop_last() =~= all.take(n - 1));
            n = n - 1;
            proof {
                lemma_latest_index(all.take(n as int), frame);
            }
        }
        assert(all.take(n as int).last() == all[n - 1]);
        self.snapshots.truncate(n);
        assert(self@ =~= all.take(target + 1));
        assert(self@.last() == all[target]);
    }

    /// Keeps the latest `depth` snapshots at most, so that the history does not
    /// reach back further than a rollback can.
    pub fn sync_depth(&mut self, depth: usize)
        ensures
            final(self)@ == (if old(self)@.len() <= depth {
                old(self)@
            } else {
                old(self)@.skip(old(self)@.len() - depth)
            }),
    {
        let n: usize = self.snapshots.len();
        if n > depth {
            self.snapshots = self.snapshots.split_off(n - depth);
            assert(self@ =~= old(self)@.skip(old(self)@.len() - depth));
        }
    }

    /// Drops the snapshots from before the first one of a frame that is
    /// confirmed or later. No rollback goes back to them.
    pub fn discard_old_snapshots(&mut self, confirmed: i32)
        ensures
            final(self)@ == old(self)@.skip(
                crate::seqs::first_index(old(self)@, not_before(confirmed)),
            ),
    {
        let ghost image = |entry: (i32, GgrsComponentSnapshot<C, As>)| (entry.0, entry.1@);
        let ghost ask = not_before::<As>(confirmed);
        let test = |entry: &(i32, GgrsComponentSnapshot<C, As>)| -> (met: bool)
            ensures
                met == (entry.0 >= confirmed),
            { entry.0 >= confirmed };
        let at: usize = position_where(
            &self.snapshots,
            &test,
            Ghost(|entry: (i32, GgrsComponentSnapshot<C, As>)| ask(image(entry))),
        );
        proof {
            crate::seqs::lemma_first_index_of_images(self.snapshots@, image, ask);
        }
        self.snapshots = self.snapshots.split_off(at);
        assert(self@ =~= old(self)@.skip(at as int));
    }

    /// The latest snapshot.
    pub fn get(&self) -> (snapshot: &GgrsComponentSnapshot<C, As>)
        requires
            self@.len() > 0,
        ensures
            snapshot@ == self@.last().1,
    {
        let n: usize = self.snapshots.len();
        assert(self@[n - 1] == (self.snapshots@[n - 1].0, self.snapshots@[n - 1].1@));
        &self.snapshots[n - 1].1
    }
}

/// A snapshot holds its entries, each under its identifier, and nothing else.
proof fn law_snapshot_holds_its_entries<C, As>(snapshot: GgrsComponentSnapshot<C, As>)
    requires
        rising(snapshot.entries@),
    ensures
        snapshot@.len() == snapshot.entries@.len(),
        forall|i: int|
            0 <= i < snapshot.entries@.len() ==> snapshot@.contains_key(
                (#[trigger] snapshot.entries@[i]).0,
            ) && snapshot@[snapshot.entries@[i].0] == snapshot.entries@[i].1,
{
    lemma_rising(snapshot.entries@);
}

/// A history is its snapshots with their frames, in their order.
proof fn law_history_is_its_snapshots<C, As>(snapshots: GgrsComponentSnapshots<C, As>)
    ensures
        snapshots@.len() == snapshots.snapshots@.len(),
        forall|i: int|
            0 <= i < snapshots.snapshots@.len() ==> (#[trigger] snapshots@[i]).0
                == snapshots.snapshots@[i].0 && snapshots@[i].1 == snapshots.snapshots@[i].1@,
{
}

} // verus!
