//! The weak handle: names an allocation without keeping it alive.

use vstd::prelude::*;

use crate::collect::Collect;
use crate::context::Mutation;
use crate::gc::Gc;
use crate::reach::valid_live;

verus! {

/// A handle that does not keep its target alive.
///
/// Upgrading yields a [`Gc`] only while the target allocation is still live;
/// once the target has been collected the upgrade yields nothing, never a
/// recycled or stale allocation, because slot indices are not reused.
#[derive(Clone, Copy, PartialEq, Eq, Structural, Debug, Hash)]
pub struct Weak {
    /// Index of the named allocation, or `None` for an empty handle.
    pub target: Option<usize>,
}

impl Weak {
    /// An empty weak handle; upgrading it always fails.
    pub fn new() -> (w: Weak)
        ensures
            w.target is None,
    {
        Weak { target: None }
    }

    /// The weak counterpart of a shared handle.
    pub fn from_gc(gc: Gc) -> (w: Weak)
        ensures
            w.target == Some(gc.id),
    {
        Weak { target: Some(gc.id) }
    }

    /// Attempts to recover a shared handle to the target.
    ///
    /// Succeeds exactly when this handle names an allocation that is still
    /// live.  An empty handle, or one whose target has been collected —
    /// whether the record is retained as a dead placeholder or vacated
    /// entirely — yields `None`, never a stale or recycled allocation.
    pub fn upgrade<T: Collect>(&self, mt: &Mutation<T>) -> (r: Option<Gc>)
        ensures
            match r {
                Some(gc) => self.target == Some(gc.id) && valid_live(
                    mt.context.slots@,
                    gc.id as int,
                ),
                None => match self.target {
                    Some(t) => !valid_live(mt.context.slots@, t as int),
                    None => true,
                },
            },
    {
        match self.target {
            None => None,
            Some(t) => {
                if t < mt.context.slots.len() && mt.context.slots[t].present
                    && mt.context.slots[t].payload.is_some() {
                    Some(Gc { id: t })
                } else {
                    None
                }
            },
        }
    }
}

} // verus!
