//! The shared, copyable handle to a heap allocation.

use vstd::prelude::*;

use crate::collect::Collect;
use crate::context::Mutation;
use crate::gc_box::{Colour, GcBox};
use crate::gc_weak::Weak;
use crate::unique_gc::UniqueGc;

verus! {

/// A thin, copyable handle to a garbage collected allocation.
///
/// A `Gc` names a heap slot by index.  It keeps its target alive for as long
/// as it is itself reachable from the arena root through traced references;
/// a `Gc` held outside the object graph does not, by itself, retain anything
/// past the next collection.
#[derive(Clone, Copy, PartialEq, Eq, Structural, Debug, Hash)]
pub struct Gc {
    /// Index of the allocation record this handle names.
    pub id: usize,
}

impl Gc {
    /// Allocates `value` on the collected heap and returns a shared handle
    /// to it.
    pub fn new<T: Collect>(value: T, mt: &mut Mutation<T>) -> (gc: Gc)
        requires
            old(mt).context.wf(),
        ensures
            final(mt).context.wf(),
            gc.id == old(mt).context.slots@.len(),
            final(mt).context.slots@ == old(mt).context.slots@.push(
                GcBox { colour: Colour::Black, present: true, payload: Some(value) },
            ),
            final(mt).context.gray == old(mt).context.gray,
            final(mt).context.trace_root == old(mt).context.trace_root,
            final(mt).context.phase == old(mt).context.phase,
            final(mt).context.pacing == old(mt).context.pacing,
    {
        let this = UniqueGc::new(value, mt);
        UniqueGc::into_gc(this)
    }

    /// Allocates a garbage collected string, copied from the passed value,
    /// on a heap whose payload type is `String`.
    pub fn from_str(s: &str, mt: &mut Mutation<String>) -> (gc: Gc)
        requires
            old(mt).context.wf(),
        ensures
            final(mt).context.wf(),
            gc.id == old(mt).context.slots@.len(),
            final(mt).context.slots@.len() == old(mt).context.slots@.len() + 1,
            forall|j: int|
                0 <= j < old(mt).context.slots@.len() ==> #[trigger] final(mt).context.slots@[j]
                    == old(mt).context.slots@[j],
            final(mt).context.slots@.last().is_live(),
            final(mt).context.slots@.last().payload->Some_0@ == s@,
            final(mt).context.gray == old(mt).context.gray,
            final(mt).context.trace_root == old(mt).context.trace_root,
            final(mt).context.phase == old(mt).context.phase,
            final(mt).context.pacing == old(mt).context.pacing,
    {
        UniqueGc::into_gc(UniqueGc::from_str(s, mt))
    }

    /// Acquires write permission on the allocation this handle names: the
    /// write barrier re-grays the target if marking had already blackened
    /// it, so references stored by the upcoming mutation are retraced.
    pub fn unlock<T: Collect>(&self, mt: &mut Mutation<T>)
        requires
            old(mt).context.wf(),
            self.id < old(mt).context.slots@.len(),
            old(mt).context.slots@[self.id as int].is_live(),
        ensures
            final(mt).context.wf(),
            ({
                let regrayed = old(mt).context.phase is Mark
                    && old(mt).context.slots@[self.id as int].colour == Colour::Black;
                final(mt).context.slots@ == if regrayed {
                    old(mt).context.slots@.update(
                        self.id as int,
                        GcBox { colour: Colour::Gray, ..old(mt).context.slots@[self.id as int] },
                    )
                } else {
                    old(mt).context.slots@
                }
            }),
            final(mt).context.trace_root == old(mt).context.trace_root,
            final(mt).context.phase == old(mt).context.phase,
            final(mt).context.pacing == old(mt).context.pacing,
    {
        mt.context.write_barrier(self.id);
    }

    /// The weak counterpart of this handle; the allocation is no longer
    /// kept alive on its account.
    pub fn downgrade(this: Gc) -> (w: Weak)
        ensures
            w.target == Some(this.id),
    {
        Weak::from_gc(this)
    }

    /// The index of the allocation this handle names.
    pub fn as_ptr(&self) -> (r: usize)
        ensures
            r == self.id,
    {
        self.id
    }
}

} // verus!
