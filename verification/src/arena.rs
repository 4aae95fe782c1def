//! The arena: a collected heap together with its single root value.

use vstd::prelude::*;

use crate::collect::Collect;
use crate::context::{CollectionPhase, Context, Mutation, Pacing};
use crate::marking::collected_slot;
use crate::reach::count_present;

verus! {

/// A garbage collected arena: one root value of type `R` and a heap of
/// allocations of type `T`.
///
/// The root is the single entry point the collector trusts as always
/// reachable; everything else survives a collection only if it is reachable
/// from the root through traced references (or is retained as a dead
/// placeholder for outstanding weak handles).
pub struct Arena<R, T> {
    /// The root value.
    pub root: R,
    /// The heap and collector state, accessed through the mutation token.
    pub mutation: Mutation<T>,
}

impl<R: Collect, T: Collect> Arena<R, T> {
    /// The arena's structural invariant: its collector state is well
    /// formed.  Established by the constructors and preserved by every
    /// method.
    pub open spec fn inv(&self) -> bool {
        self.mutation.context.wf()
    }

    /// An arena with the default pacing, rooted at `root`.
    pub fn new(root: R) -> (a: Arena<R, T>)
        ensures
            a.inv(),
            a.root == root,
            a.mutation.context.slots@.len() == 0,
            a.mutation.context.phase == CollectionPhase::Sleep,
    {
        Arena::new_paced(root, Pacing::default())
    }

    /// An arena with the given pacing, rooted at `root`.
    pub fn new_paced(root: R, pacing: Pacing) -> (a: Arena<R, T>)
        ensures
            a.inv(),
            a.root == root,
            a.mutation.context.slots@.len() == 0,
            a.mutation.context.phase == CollectionPhase::Sleep,
            a.mutation.context.pacing == pacing,
    {
        Arena { root, mutation: Mutation { context: Context::new_in(pacing) } }
    }

    /// Read-only access to the root.
    pub fn view(&self) -> (r: &R)
        ensures
            *r == self.root,
    {
        &self.root
    }

    /// Mutable access to the root.
    ///
    /// This is the root write barrier: the collector is flagged to retrace
    /// the root, so references stored through the returned borrow are
    /// rediscovered before the cycle in progress sweeps.
    pub fn view_mut(&mut self) -> (r: &mut R)
        requires
            old(self).inv(),
        ensures
            *r == old(self).root,
            final(self).root == *final(r),
            final(self).mutation.context == (Context {
                trace_root: true,
                ..old(self).mutation.context
            }),
            final(self).inv(),
    {
        self.mutation.context.set_root_untraced();
        &mut self.root
    }

    /// Advances the collection by one bounded step under the configured
    /// pacing: a sleeping collector wakes only when a trigger fires, a
    /// marking one performs up to `mark_stride` units of tracing, a
    /// sweeping one processes up to `sweep_stride` records.
    pub fn run_collection(&mut self)
        requires
            old(self).inv(),
        ensures
            final(self).inv(),
            final(self).root == old(self).root,
            Context::advanced(
                old(self).mutation.context,
                final(self).mutation.context,
                old(self).root.strong_refs(),
                old(self).root.weak_refs(),
                old(self).mutation.context.pacing,
            ),
    {
        self.mutation.context.advance_collection(&self.root);
    }

    /// Runs collection to quiescence, whatever state the collector was in.
    ///
    /// The outcome is exact: an allocation stays live if and only if it was
    /// live and strongly reachable from the root; a live allocation that
    /// was only weakly held is reduced to a dead placeholder; every other
    /// record is vacated.  See [`collected_slot`].
    pub fn complete_collection(&mut self)
        requires
            old(self).inv(),
        ensures
            final(self).inv(),
            final(self).root == old(self).root,
            final(self).mutation.context.phase == CollectionPhase::Sleep,
            !final(self).mutation.context.trace_root,
            final(self).mutation.context.slots@.len() == old(self).mutation.context.slots@.len(),
            forall|j: int|
                0 <= j < old(self).mutation.context.slots@.len()
                    ==> #[trigger] final(self).mutation.context.slots@[j] == collected_slot(
                    old(self).mutation.context.slots@,
                    old(self).root.strong_refs(),
                    old(self).root.weak_refs(),
                    j,
                ),
    {
        self.mutation.context.run_full_cycle(&self.root);
    }

    /// Incremental equivalence: drives the collector with bounded
    /// [`Arena::run_collection`]-sized steps until the phase returns to
    /// Sleep, and reaches exactly the heap that a single
    /// [`Arena::complete_collection`] call produces from the same starting
    /// state, whatever the strides.  Requires a sleeping collector whose
    /// triggers fire and strides of at least one unit.
    pub fn collect_incrementally(&mut self)
        requires
            old(self).inv(),
            old(self).mutation.context.phase == CollectionPhase::Sleep,
            old(self).mutation.context.pacing.wakes(
                old(self).mutation.context.cycle_allocations as int,
                old(self).mutation.context.cycle_bytes as int,
            ),
            old(self).mutation.context.pacing.mark_stride >= 1,
            old(self).mutation.context.pacing.sweep_stride >= 1,
        ensures
            final(self).inv(),
            final(self).root == old(self).root,
            final(self).mutation.context.phase == CollectionPhase::Sleep,
            final(self).mutation.context.slots@.len() == old(self).mutation.context.slots@.len(),
            forall|j: int|
                0 <= j < old(self).mutation.context.slots@.len()
                    ==> #[trigger] final(self).mutation.context.slots@[j] == collected_slot(
                    old(self).mutation.context.slots@,
                    old(self).root.strong_refs(),
                    old(self).root.weak_refs(),
                    j,
                ),
    {
        self.mutation.context.collect_incrementally(&self.root);
    }

    /// The number of allocation records still occupying their slot: live
    /// allocations plus dead placeholders retained for weak handles.
    pub fn allocations(&self) -> (n: usize)
        ensures
            n == count_present(self.mutation.context.slots@),
    {
        self.mutation.context.allocations()
    }
}

} // verus!
