//! How a component is stored in a snapshot and brought back.

use std::marker::PhantomData;
use vstd::prelude::*;

verus! {

/// A way to store components of one type and to bring them back. What each
/// step may do is a relation, for the implementor to say; where it does not,
/// nothing is known of the step.
pub trait Strategy: Sized {
    /// The component type.
    type Target;

    /// What is kept of a component.
    type Stored;

    /// `stored` can be what is kept of `target`.
    open spec fn stores(target: Self::Target, stored: Self::Stored) -> bool {
        true
    }

    /// `target` can be what is made of `stored`.
    open spec fn loads(stored: Self::Stored, target: Self::Target) -> bool {
        true
    }

    /// `after` can be what updating `before` from `stored` leaves.
    open spec fn updates(
        before: Self::Target,
        stored: Self::Stored,
        after: Self::Target,
    ) -> bool {
        true
    }

    /// Keeps a component.
    fn store(target: &Self::Target) -> (stored: Self::Stored)
        ensures
            Self::stores(*target, stored),
    ;

    /// Makes a component of what was kept.
    fn load(stored: &Self::Stored) -> (target: Self::Target)
        ensures
            Self::loads(*stored, target),
    ;

    /// Brings a component to what was kept.
    fn update(target: &mut Self::Target, stored: &Self::Stored)
        ensures
            Self::updates(*old(target), *stored, *final(target)),
    ;
}

/// Keeps clones of components.
pub struct CloneStrategy<T> {
    _phantom: PhantomData<T>,
}

impl<T: Clone> Strategy for CloneStrategy<T> {
    type Target = T;

    type Stored = T;

    open spec fn stores(target: T, stored: T) -> bool {
        cloned(target, stored)
    }

    open spec fn loads(stored: T, target: T) -> bool {
        cloned(stored, target)
    }

    open spec fn updates(before: T, stored: T, after: T) -> bool {
        cloned(stored, after)
    }

    fn store(target: &T) -> (stored: T) {
        target.clone()
    }

    fn load(stored: &T) -> (target: T) {
        stored.clone()
    }

    fn update(target: &mut T, stored: &T) {
        *target = Self::load(stored);
    }
}

} // verus!
