//! Searching sequences.

use vstd::prelude::*;

verus! {

/// Where the first element that meets `test` stands; the length where none does.
pub open spec fn first_index<T>(items: Seq<T>, test: spec_fn(T) -> bool) -> int
    decreases items.len(),
{
    if items.len() == 0 || test(items[0]) {
        0
    } else {
        1 + first_index(items.drop_first(), test)
    }
}

/// The first index is the first.
pub proof fn lemma_first_index<T>(items: Seq<T>, test: spec_fn(T) -> bool)
    ensures
        0 <= first_index(items, test) <= items.len(),
        forall|i: int| 0 <= i < first_index(items, test) ==> !test(#[trigger] items[i]),
        first_index(items, test) < items.len() ==> test(items[first_index(items, test)]),
    decreases items.len(),
{
    if items.len() > 0 && !test(items[0]) {
        let tail = items.drop_first();
        lemma_first_index(tail, test);
        assert forall|i: int| 0 <= i < first_index(items, test) implies !test(
            #[trigger] items[i],
        ) by {
            if i > 0 {
                assert(items[i] == tail[i - 1]);
            }
        }
        if first_index(items, test) < items.len() {
            assert(items[first_index(items, test)] == tail[first_index(tail, test)]);
        }
    }
}

/// An index with nothing before it that meets the test is the first.
pub proof fn lemma_is_first_index<T>(items: Seq<T>, test: spec_fn(T) -> bool, at: int)
    requires
        0 <= at <= items.len(),
        forall|i: int| 0 <= i < at ==> !test(#[trigger] items[i]),
        at < items.len() ==> test(items[at]),
    ensures
        first_index(items, test) == at,
{
    lemma_first_index(items, test);
    let found = first_index(items, test);
    if found < at {
        assert(!test(items[found]));
    }
    if at < found {
        assert(!test(items[at]));
    }
}

/// Where the first element that meets `test` stands; the length where none
/// does.
pub(crate) fn position_where<T, F: Fn(&T) -> bool>(
    items: &Vec<T>,
    test: &F,
    Ghost(ask): Ghost<spec_fn(T) -> bool>,
) -> (at: usize)
    requires
        forall|item: &T| #[trigger] test.requires((item,)),
        forall|item: &T, met: bool| #[trigger] test.ensures((item,), met) ==> met == ask(*item),
    ensures
        at == first_index(items@, ask),
        at <= items.len(),
{
    let mut i: usize = 0;
    while i < items.len() && !test(&items[i])
        invariant
            i <= items.len(),
            forall|item: &T| #[trigger] test.requires((item,)),
            forall|item: &T, met: bool| #[trigger]
                test.ensures((item,), met) ==> met == ask(*item),
            forall|j: int| 0 <= j < i ==> !ask(#[trigger] items@[j]),
        ensures
            i <= items.len(),
            forall|j: int| 0 <= j < i ==> !ask(#[trigger] items@[j]),
            i < items.len() ==> ask(items@[i as int]),
        decreases items.len() - i,
    {
        i = i + 1;
    }
    proof {
        lemma_is_first_index(items@, ask, i as int);
    }
    i
}

/// The first element whose image meets a test stands where the first image
/// that meets it stands.
pub proof fn lemma_first_index_of_images<T, U>(
    items: Seq<T>,
    image: spec_fn(T) -> U,
    ask: spec_fn(U) -> bool,
)
    ensures
        first_index(items, |item: T| ask(image(item))) == first_index(
            items.map_values(image),
            ask,
        ),
{
    let test = |item: T| ask(image(item));
    let images = items.map_values(image);
    let at = first_index(images, ask);
    lemma_first_index(images, ask);
    assert forall|i: int| 0 <= i < at implies !test(#[trigger] items[i]) by {
        assert(!ask(images[i]));
    }
    lemma_is_first_index(items, test, at);
}

/// Filtering one element more.
pub proof fn lemma_filter_step<T>(items: Seq<T>, i: int, keep: spec_fn(T) -> bool)
    requires
        0 <= i < items.len(),
    ensures
        items.take(i + 1).filter(keep) == (if keep(items[i]) {
            items.take(i).filter(keep).push(items[i])
        } else {
            items.take(i).filter(keep)
        }),
{
    reveal(Seq::filter);
    assert(items.take(i + 1).drop_last() =~= items.take(i));
    assert(items.take(i + 1).last() == items[i]);
}

/// What a filter keeps are the elements that meet its test.
pub proof fn lemma_filter_members<T>(items: Seq<T>, keep: spec_fn(T) -> bool)
    ensures
        forall|i: int|
            0 <= i < items.filter(keep).len() ==> keep(#[trigger] items.filter(keep)[i])
                && items.contains(items.filter(keep)[i]),
        forall|j: int|
            0 <= j < items.len() && keep(#[trigger] items[j]) ==> items.filter(keep).contains(
                items[j],
            ),
    decreases items.len(),
{
    reveal(Seq::filter);
    if items.len() > 0 {
        let front = items.drop_last();
        let some = front.filter(keep);
        let kept = items.filter(keep);
        lemma_filter_members(front, keep);
        assert forall|i: int| 0 <= i < kept.len() implies keep(#[trigger] kept[i])
            && items.contains(kept[i]) by {
            if i < some.len() {
                assert(keep(some[i]) && front.contains(some[i]));
                let at = choose|at: int| 0 <= at < front.len() && front[at] == some[i];
                assert(items[at] == kept[i]);
            } else {
                assert(items[items.len() - 1] == kept[i]);
            }
        }
        assert forall|j: int| 0 <= j < items.len() && keep(#[trigger] items[j]) implies
            kept.contains(items[j]) by {
            if j < front.len() {
                assert(keep(front[j]));
                let at = choose|at: int| 0 <= at < some.len() && some[at] == front[j];
                assert(kept[at] == items[j]);
            } else {
                assert(kept[kept.len() - 1] == items[j]);
            }
        }
    }
}

/// What holds of every two elements in their order still holds of what a
/// filter keeps.
pub proof fn lemma_filter_pairs<T>(
    items: Seq<T>,
    keep: spec_fn(T) -> bool,
    apart: spec_fn(T, T) -> bool,
)
    requires
        forall|i: int, j: int|
            0 <= i < j < items.len() ==> apart(#[trigger] items[i], #[trigger] items[j]),
    ensures
        forall|i: int, j: int|
            0 <= i < j < items.filter(keep).len() ==> apart(
                #[trigger] items.filter(keep)[i],
                #[trigger] items.filter(keep)[j],
            ),
    decreases items.len(),
{
    reveal(Seq::filter);
    if items.len() > 0 {
        let front = items.drop_last();
        let some = front.filter(keep);
        let kept = items.filter(keep);
        lemma_filter_pairs(front, keep, apart);
        lemma_filter_members(front, keep);
        assert forall|i: int, j: int| 0 <= i < j < kept.len() implies apart(
            #[trigger] kept[i],
            #[trigger] kept[j],
        ) by {
            assert(kept[i] == some[i]);
            if j < some.len() {
                assert(kept[j] == some[j]);
            } else {
                assert(front.contains(some[i]));
                let at = choose|at: int| 0 <= at < front.len() && front[at] == some[i];
                assert(apart(items[at], items[items.len() - 1]));
            }
        }
    }
}

/// A test that every element meets filters nothing out.
pub proof fn lemma_filter_all<T>(items: Seq<T>, keep: spec_fn(T) -> bool)
    requires
        forall|i: int| 0 <= i < items.len() ==> keep(#[trigger] items[i]),
    ensures
        items.filter(keep) == items,
    decreases items.len(),
{
    reveal(Seq::filter);
    if items.len() > 0 {
        lemma_filter_all(items.drop_last(), keep);
        assert(items.drop_last().push(items.last()) =~= items);
    }
}

/// A test that no element meets filters everything out.
pub proof fn lemma_filter_none<T>(items: Seq<T>, keep: spec_fn(T) -> bool)
    requires
        forall|i: int| 0 <= i < items.len() ==> !keep(#[trigger] items[i]),
    ensures
        items.filter(keep) == Seq::<T>::empty(),
    decreases items.len(),
{
    reveal(Seq::filter);
    if items.len() > 0 {
        lemma_filter_none(items.drop_last(), keep);
    }
}

/// `from` are the places of the elements that meet a test, in order and all of
/// them, and `kept` are those elements.
pub open spec fn picks<T>(
    items: Seq<T>,
    keep: spec_fn(T) -> bool,
    from: Seq<int>,
    kept: Seq<T>,
) -> bool {
    &&& kept.len() == from.len()
    &&& forall|i: int|
        0 <= i < from.len() ==> 0 <= #[trigger] from[i] < items.len() && keep(items[from[i]])
            && kept[i] == items[from[i]]
    &&& forall|i: int, j: int|
        0 <= i < j < from.len() ==> #[trigger] from[i] < #[trigger] from[j]
    &&& forall|at: int| 0 <= at < items.len() && keep(#[trigger] items[at]) ==> from.contains(at)
}

/// A filter picks the elements that meet its test, in their order.
pub proof fn lemma_filter_picks<T>(items: Seq<T>, keep: spec_fn(T) -> bool) -> (from: Seq<int>)
    ensures
        picks(items, keep, from, items.filter(keep)),
    decreases items.len(),
{
    reveal(Seq::filter);
    if items.len() == 0 {
        Seq::empty()
    } else {
        let front = items.drop_last();
        let last = items.len() - 1;
        let done = lemma_filter_picks(front, keep);
        let some = front.filter(keep);
        let kept = items.filter(keep);
        let from = if keep(items[last]) {
            done.push(last)
        } else {
            done
        };
        assert forall|i: int| 0 <= i < from.len() implies 0 <= #[trigger] from[i] < items.len()
            && keep(items[from[i]]) && kept[i] == items[from[i]] by {
            if i < done.len() {
                assert(from[i] == done[i]);
                assert(front[done[i]] == items[done[i]]);
                assert(kept[i] == some[i]);
            }
        }
        assert forall|i: int, j: int| 0 <= i < j < from.len() implies #[trigger] from[i]
            < #[trigger] from[j] by {
            assert(from[i] == done[i]);
            if j < done.len() {
                assert(done[i] < done[j]);
            }
        }
        assert forall|at: int| 0 <= at < items.len() && keep(#[trigger] items[at]) implies
            from.contains(at) by {
            if at < last {
                assert(keep(front[at]));
                let i = choose|i: int| 0 <= i < done.len() && done[i] == at;
                assert(from[i] == at);
            } else {
                assert(from[done.len() as int] == at);
            }
        }
        from
    }
}

} // verus!
