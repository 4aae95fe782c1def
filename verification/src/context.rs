//! The collector: heap state, phase machine, pacing and the write barrier.

use vstd::prelude::*;

use crate::collect::{Collect, Collector};
use crate::gc::Gc;
use crate::gc_box::{Colour, GcBox};
use crate::marking::{
    collected_slot, count_nonblack, lemma_count_nonblack_mono, lemma_count_nonblack_nonneg,
    lemma_count_nonblack_strict, lemma_mark_complete, lemma_root_step_inv, lemma_slot_step_inv,
    lemma_sweep_completes,
    mark_complete, mark_edges_slot, mark_inv, strong_markable, strong_marked_slot, swept_slot,
    weak_marked_slot, whitened_slot,
};
use crate::reach::{
    count_present, ids_of, lemma_ids_push, lemma_ids_take_step, strong_refs_of, valid_live,
    weak_refs_of,
};

verus! {

/// Tunable collection pacing: when a cycle wakes and how much work one
/// incremental step performs.
#[derive(Clone, Copy, PartialEq, Eq, Structural, Debug, Hash)]
pub struct Pacing {
    /// Wake when at least this many bytes were allocated since the last
    /// cycle began; `None` never wakes on bytes.
    pub trigger_bytes: Option<usize>,
    /// Wake when at least this many allocations were made since the last
    /// cycle began; `None` never wakes on allocations.
    pub trigger_allocations: Option<usize>,
    /// Units of marking work per incremental step.
    pub mark_stride: usize,
    /// Allocation records swept per incremental step.
    pub sweep_stride: usize,
}

impl Pacing {
    /// Whether the given allocation and byte counters meet a trigger.
    pub open spec fn wakes(&self, allocations: int, bytes: int) -> bool {
        ||| (self.trigger_allocations is Some && allocations >= self.trigger_allocations->0)
        ||| (self.trigger_bytes is Some && bytes >= self.trigger_bytes->0)
    }

    /// Decides whether a sleeping collector should begin a cycle.
    pub fn should_wake(&self, allocations: usize, bytes: usize) -> (r: bool)
        ensures
            r == self.wakes(allocations as int, bytes as int),
    {
        let on_allocations = match self.trigger_allocations {
            Some(n) => allocations >= n,
            None => false,
        };
        let on_bytes = match self.trigger_bytes {
            Some(n) => bytes >= n,
            None => false,
        };
        on_allocations || on_bytes
    }

    /// The maximum pace: always triggers, never pauses marking or sweeping.
    pub fn max_pace() -> (p: Pacing)
        ensures
            p.trigger_bytes == Some(0usize),
            p.trigger_allocations == Some(0usize),
            p.mark_stride == usize::MAX,
            p.sweep_stride == usize::MAX,
            forall|a: int, b: int| a >= 0 && b >= 0 ==> p.wakes(a, b),
    {
        Pacing {
            trigger_bytes: Some(0),
            trigger_allocations: Some(0),
            mark_stride: usize::MAX,
            sweep_stride: usize::MAX,
        }
    }
}

impl Default for Pacing {
    /// Wake every 4192 bytes or 64 allocations; 16 marks and 8 sweeps per
    /// incremental step.
    fn default() -> (p: Pacing)
        ensures
            p.trigger_bytes == Some(4192usize),
            p.trigger_allocations == Some(64usize),
            p.mark_stride == 16usize,
            p.sweep_stride == 8usize,
    {
        Pacing {
            trigger_bytes: Some(4192),
            trigger_allocations: Some(64),
            mark_stride: 16,
            sweep_stride: 8,
        }
    }
}

/// The collector's phase: a cyclic state machine.
#[derive(Clone, Copy, PartialEq, Eq, Structural, Debug)]
pub enum CollectionPhase {
    /// Between cycles; allocation counters accumulate towards a trigger.
    Sleep,
    /// Discovering reachable allocations from the root.
    Mark,
    /// Walking the records from the given index, reclaiming unmarked ones.
    Sweep(usize),
}

/// The collector state: all allocation records, the gray worklist, the
/// root-retrace flag, the phase, and pacing counters.
pub struct Context<T> {
    /// Every allocation record ever made, at a stable index.
    pub slots: Vec<GcBox<T>>,
    /// Worklist of records coloured Gray, awaiting tracing.
    pub gray: Vec<usize>,
    /// Whether the next marking step must (re)trace the root.
    pub trace_root: bool,
    /// Current phase of the collection cycle.
    pub phase: CollectionPhase,
    /// Allocations since the current cycle began.
    pub cycle_allocations: usize,
    /// Bytes allocated since the current cycle began.
    pub cycle_bytes: usize,
    /// The configured pacing.
    pub pacing: Pacing,
}

impl<T> Context<T> {
    /// Structural well-formedness of the collector state, preserved by
    /// every operation:
    /// a vacated record is White and empty; Gray records are live, Black
    /// and Weak ones still present; the worklist holds exactly the Gray
    /// records; and outside the Mark phase the worklist is empty, so no
    /// record is Gray when sweeping.
    pub open spec fn wf(&self) -> bool {
        &&& forall|j: int|
            0 <= j < self.slots@.len() ==> {
                let b = #[trigger] self.slots@[j];
                &&& (!b.present ==> b.colour == Colour::White && b.payload is None)
                &&& (b.colour == Colour::Gray ==> b.is_live())
                &&& (b.colour == Colour::Black ==> b.present)
                &&& (b.colour == Colour::Weak ==> b.present)
            }
        &&& forall|k: int|
            0 <= k < self.gray@.len() ==> {
                let g = (#[trigger] self.gray@[k]) as int;
                &&& 0 <= g < self.slots@.len()
                &&& self.slots@[g].colour == Colour::Gray
            }
        &&& forall|j: int|
            0 <= j < self.slots@.len() && (#[trigger] self.slots@[j]).colour == Colour::Gray
                ==> ids_of(self.gray@).contains(j)
        &&& forall|k1: int, k2: int|
            0 <= k1 < k2 < self.gray@.len() ==> #[trigger] self.gray@[k1] != #[trigger] self.gray@[k2]
        &&& !(self.phase is Mark) ==> self.gray@.len() == 0
        &&& (self.phase matches CollectionPhase::Sweep(c) ==> c <= self.slots@.len())
    }

    /// A fresh, empty collector with the given pacing.
    pub fn new_in(pacing: Pacing) -> (ctx: Context<T>)
        ensures
            ctx.wf(),
            ctx.slots@.len() == 0,
            ctx.gray@.len() == 0,
            !ctx.trace_root,
            ctx.phase == CollectionPhase::Sleep,
            ctx.cycle_allocations == 0,
            ctx.cycle_bytes == 0,
            ctx.pacing == pacing,
    {
        Context {
            slots: Vec::new(),
            gray: Vec::new(),
            trace_root: false,
            phase: CollectionPhase::Sleep,
            cycle_allocations: 0,
            cycle_bytes: 0,
            pacing,
        }
    }

    /// Flags the root as needing a (re)trace by the next marking step.
    pub fn set_root_untraced(&mut self)
        ensures
            *final(self) == (Context { trace_root: true, ..*old(self) }),
    {
        self.trace_root = true;
    }

    /// Clears the root-retrace flag.
    pub fn set_root_traced(&mut self)
        ensures
            *final(self) == (Context { trace_root: false, ..*old(self) }),
    {
        self.trace_root = false;
    }

    /// The number of allocation records still occupying their slot: live
    /// allocations plus retained dead placeholders.
    pub fn allocations(&self) -> (n: usize)
        ensures
            n == count_present(self.slots@),
    {
        let mut n: usize = 0;
        let mut i: usize = 0;
        let len = self.slots.len();
        while i < len
            invariant
                len == self.slots@.len(),
                i <= len,
                n <= i,
                n == crate::reach::count_present_upto(self.slots@, i as int),
            decreases len - i,
        {
            if self.slots[i].present {
                n = n + 1;
            }
            i = i + 1;
        }
        n
    }
}

impl<T: Collect> Context<T> {
    /// Creates a new allocation record holding `value` and returns its
    /// index.  The record is coloured Black: allocations made while a cycle
    /// is in progress are exempt from it and are only reconsidered once the
    /// next cycle begins.
    pub fn allocate(&mut self, value: T) -> (id: usize)
        requires
            old(self).wf(),
        ensures
            final(self).wf(),
            id == old(self).slots@.len(),
            final(self).slots@ == old(self).slots@.push(
                GcBox { colour: Colour::Black, present: true, payload: Some(value) },
            ),
            final(self).gray == old(self).gray,
            final(self).trace_root == old(self).trace_root,
            final(self).phase == old(self).phase,
            final(self).pacing == old(self).pacing,
            final(self).cycle_allocations >= old(self).cycle_allocations,
    {
        let id = self.slots.len();
        self.slots.push(GcBox::new(value));
        self.cycle_allocations = self.cycle_allocations.saturating_add(1);
        self.cycle_bytes = self.cycle_bytes.saturating_add(core::mem::size_of::<T>());
        proof {
            assert forall|j: int|
                0 <= j < self.slots@.len() && (#[trigger] self.slots@[j]).colour == Colour::Gray
                    implies ids_of(self.gray@).contains(j) by {
                assert(j < old(self).slots@.len());
            }
        }
        id
    }

    /// Creates a record whose payload is not yet written; see
    /// [`crate::UniqueGc::new_uninit`].
    pub fn allocate_uninit(&mut self) -> (id: usize)
        requires
            old(self).wf(),
        ensures
            final(self).wf(),
            id == old(self).slots@.len(),
            final(self).slots@ == old(self).slots@.push(
                GcBox { colour: Colour::Black, present: true, payload: None },
            ),
            final(self).gray == old(self).gray,
            final(self).trace_root == old(self).trace_root,
            final(self).phase == old(self).phase,
            final(self).pacing == old(self).pacing,
    {
        let id = self.slots.len();
        self.slots.push(GcBox::new_uninit());
        self.cycle_allocations = self.cycle_allocations.saturating_add(1);
        self.cycle_bytes = self.cycle_bytes.saturating_add(core::mem::size_of::<T>());
        proof {
            assert forall|j: int|
                0 <= j < self.slots@.len() && (#[trigger] self.slots@[j]).colour == Colour::Gray
                    implies ids_of(self.gray@).contains(j) by {
                assert(j < old(self).slots@.len());
            }
        }
        id
    }

    /// Recolours a live record Gray and queues it for tracing.  Only
    /// meaningful while marking; the caller must not queue a record twice.
    pub fn push_box(&mut self, id: usize)
        requires
            old(self).wf(),
            old(self).phase is Mark,
            id < old(self).slots@.len(),
            old(self).slots@[id as int].is_live(),
            old(self).slots@[id as int].colour != Colour::Gray,
        ensures
            final(self).wf(),
            final(self).slots@ == old(self).slots@.update(
                id as int,
                GcBox { colour: Colour::Gray, ..old(self).slots@[id as int] },
            ),
            final(self).gray@ == old(self).gray@.push(id),
            final(self).trace_root == old(self).trace_root,
            final(self).phase == old(self).phase,
            final(self).cycle_allocations == old(self).cycle_allocations,
            final(self).cycle_bytes == old(self).cycle_bytes,
            final(self).pacing == old(self).pacing,
    {
        let slot = &mut self.slots[id];
        slot.colour = Colour::Gray;
        self.gray.push(id);
        proof {
            assert forall|j: int|
                0 <= j < self.slots@.len() && (#[trigger] self.slots@[j]).colour == Colour::Gray
                    implies ids_of(self.gray@).contains(j) by {
                if j == id as int {
                    assert(ids_of(self.gray@)[self.gray@.len() - 1] == j);
                } else {
                    assert(ids_of(old(self).gray@).contains(j));
                    let k = choose|k: int|
                        0 <= k < old(self).gray@.len() && ids_of(old(self).gray@)[k] == j;
                    assert(ids_of(self.gray@)[k] == j);
                }
            }
            assert forall|k1: int, k2: int| 0 <= k1 < k2 < self.gray@.len() implies
                #[trigger] self.gray@[k1] != #[trigger] self.gray@[k2] by {
                if k2 == self.gray@.len() - 1 {
                    assert(old(self).slots@[old(self).gray@[k1] as int].colour == Colour::Gray);
                    assert(old(self).slots@[id as int].colour != Colour::Gray);
                } else {
                    assert(old(self).gray@[k1] != old(self).gray@[k2]);
                }
            }
        }
    }

    /// The strong half of one marking step: every target in `ids` that is a
    /// live record still coloured White (or only weakly shaded) is
    /// recoloured Gray and queued for tracing.
    fn mark_strong_list(&mut self, ids: &Vec<usize>)
        requires
            old(self).wf(),
            old(self).phase is Mark,
        ensures
            final(self).wf(),
            final(self).slots@.len() == old(self).slots@.len(),
            forall|j: int|
                0 <= j < old(self).slots@.len() ==> #[trigger] final(self).slots@[j]
                    == strong_marked_slot(old(self).slots@[j], j, ids_of(ids@)),
            forall|j: int|
                #[trigger] ids_of(final(self).gray@).contains(j) <==> ids_of(
                    old(self).gray@,
                ).contains(j) || strong_markable(old(self).slots@, ids_of(ids@), j),
            final(self).trace_root == old(self).trace_root,
            final(self).phase == old(self).phase,
            final(self).cycle_allocations == old(self).cycle_allocations,
            final(self).cycle_bytes == old(self).cycle_bytes,
            final(self).pacing == old(self).pacing,
    {
        let n = ids.len();
        let mut k: usize = 0;
        while k < n
            invariant
                self.wf(),
                self.phase is Mark,
                n == ids@.len(),
                k <= n,
                self.slots@.len() == old(self).slots@.len(),
                forall|j: int|
                    0 <= j < old(self).slots@.len() ==> #[trigger] self.slots@[j]
                        == strong_marked_slot(
                        old(self).slots@[j],
                        j,
                        ids_of(ids@.take(k as int)),
                    ),
                forall|j: int|
                    #[trigger] ids_of(self.gray@).contains(j) <==> ids_of(
                        old(self).gray@,
                    ).contains(j) || strong_markable(
                        old(self).slots@,
                        ids_of(ids@.take(k as int)),
                        j,
                    ),
                self.trace_root == old(self).trace_root,
                self.phase == old(self).phase,
                self.cycle_allocations == old(self).cycle_allocations,
                self.cycle_bytes == old(self).cycle_bytes,
                self.pacing == old(self).pacing,
            decreases n - k,
        {
            let ghost pre = *self;
            let ghost p_small = ids_of(ids@.take(k as int));
            let ghost p_big = ids_of(ids@.take(k + 1));
            let id = ids[k];
            proof {
                lemma_ids_take_step(ids@, k as int);
            }
            if id < self.slots.len() {
                let live = self.slots[id].present && self.slots[id].payload.is_some();
                let c = self.slots[id].colour;
                if live && (c == Colour::White || c == Colour::Weak) {
                    proof {
                        assert(pre.slots@[id as int] == strong_marked_slot(
                            old(self).slots@[id as int],
                            id as int,
                            p_small,
                        ));
                        assert(old(self).slots@[id as int].colour == c);
                        assert(old(self).slots@[id as int].is_live());
                    }
                    self.push_box(id);
                    proof {
                        lemma_ids_push(pre.gray@, id);
                    }
                }
            }
            proof {
                assert forall|j: int| 0 <= j < old(self).slots@.len() implies
                    #[trigger] self.slots@[j] == strong_marked_slot(
                    old(self).slots@[j],
                    j,
                    p_big,
                ) by {
                    assert(pre.slots@[j] == strong_marked_slot(old(self).slots@[j], j, p_small));
                    assert(p_big.contains(j) <==> p_small.contains(j) || j == id as int);
                }
                assert forall|j: int| #[trigger] ids_of(self.gray@).contains(j) <==> ids_of(
                    old(self).gray@,
                ).contains(j) || strong_markable(old(self).slots@, p_big, j) by {
                    assert(ids_of(pre.gray@).contains(j) <==> ids_of(old(self).gray@).contains(j)
                        || strong_markable(old(self).slots@, p_small, j));
                    assert(p_big.contains(j) <==> p_small.contains(j) || j == id as int);
                    if j == id as int && 0 <= j < old(self).slots@.len() {
                        assert(pre.slots@[j] == strong_marked_slot(
                            old(self).slots@[j],
                            j,
                            p_small,
                        ));
                    }
                }
            }
            k = k + 1;
        }
        proof {
            assert(ids@.take(n as int) =~= ids@);
        }
    }

    /// The weak half of one marking step: every live target in `ids` still
    /// coloured White is shaded Weak, retaining a dead placeholder for it
    /// through the coming sweep without keeping it alive.
    fn mark_weak_list(&mut self, ids: &Vec<usize>)
        requires
            old(self).wf(),
            old(self).phase is Mark,
        ensures
            final(self).wf(),
            final(self).slots@.len() == old(self).slots@.len(),
            forall|j: int|
                0 <= j < old(self).slots@.len() ==> #[trigger] final(self).slots@[j]
                    == weak_marked_slot(old(self).slots@[j], j, ids_of(ids@)),
            final(self).gray == old(self).gray,
            final(self).trace_root == old(self).trace_root,
            final(self).phase == old(self).phase,
            final(self).cycle_allocations == old(self).cycle_allocations,
            final(self).cycle_bytes == old(self).cycle_bytes,
            final(self).pacing == old(self).pacing,
    {
        let n = ids.len();
        let mut k: usize = 0;
        while k < n
            invariant
                self.wf(),
                self.phase is Mark,
                n == ids@.len(),
                k <= n,
                self.slots@.len() == old(self).slots@.len(),
                forall|j: int|
                    0 <= j < old(self).slots@.len() ==> #[trigger] self.slots@[j]
                        == weak_marked_slot(old(self).slots@[j], j, ids_of(ids@.take(k as int))),
                self.gray == old(self).gray,
                self.trace_root == old(self).trace_root,
                self.phase == old(self).phase,
                self.cycle_allocations == old(self).cycle_allocations,
                self.cycle_bytes == old(self).cycle_bytes,
                self.pacing == old(self).pacing,
            decreases n - k,
        {
            let ghost pre = *self;
            let ghost p_small = ids_of(ids@.take(k as int));
            let ghost p_big = ids_of(ids@.take(k + 1));
            let id = ids[k];
            proof {
                lemma_ids_take_step(ids@, k as int);
            }
            if id < self.slots.len() {
                let live = self.slots[id].present && self.slots[id].payload.is_some();
                let c = self.slots[id].colour;
                if live && c == Colour::White {
                    proof {
                        assert(pre.slots@[id as int] == weak_marked_slot(
                            old(self).slots@[id as int],
                            id as int,
                            p_small,
                        ));
                        assert(old(self).slots@[id as int].colour == Colour::White);
                    }
                    let slot = &mut self.slots[id];
                    slot.colour = Colour::Weak;
                    proof {
                        assert forall|j: int|
                            0 <= j < self.slots@.len() && (#[trigger] self.slots@[j]).colour
                                == Colour::Gray implies ids_of(self.gray@).contains(j) by {
                            assert(pre.slots@[j].colour == Colour::Gray);
                        }
                        assert forall|kk: int| 0 <= kk < self.gray@.len() implies {
                            let g = (#[trigger] self.gray@[kk]) as int;
                            0 <= g < self.slots@.len() && self.slots@[g].colour == Colour::Gray
                        } by {
                            let g = self.gray@[kk] as int;
                            assert(pre.slots@[g].colour == Colour::Gray);
                            assert(g != id as int);
                        }
                    }
                }
            }
            proof {
                assert forall|j: int| 0 <= j < old(self).slots@.len() implies
                    #[trigger] self.slots@[j] == weak_marked_slot(
                    old(self).slots@[j],
                    j,
                    p_big,
                ) by {
                    assert(pre.slots@[j] == weak_marked_slot(old(self).slots@[j], j, p_small));
                    assert(p_big.contains(j) <==> p_small.contains(j) || j == id as int);
                }
            }
            k = k + 1;
        }
        proof {
            assert(ids@.take(n as int) =~= ids@);
        }
    }

    /// Begins a collection cycle from any phase: merges all allocations
    /// into the cycle by recolouring every record White, empties the
    /// worklist, flags the root for tracing, resets the pacing counters and
    /// enters the Mark phase.
    fn begin_cycle(&mut self)
        requires
            old(self).wf(),
        ensures
            final(self).wf(),
            final(self).phase == CollectionPhase::Mark,
            final(self).trace_root,
            final(self).gray@.len() == 0,
            final(self).cycle_allocations == 0,
            final(self).cycle_bytes == 0,
            final(self).pacing == old(self).pacing,
            final(self).slots@.len() == old(self).slots@.len(),
            forall|j: int|
                0 <= j < old(self).slots@.len() ==> #[trigger] final(self).slots@[j]
                    == whitened_slot(old(self).slots@[j]),
    {
        self.gray.clear();
        self.phase = CollectionPhase::Mark;
        self.trace_root = true;
        self.cycle_allocations = 0;
        self.cycle_bytes = 0;
        let len = self.slots.len();
        let mut i: usize = 0;
        while i < len
            invariant
                len == self.slots@.len(),
                len == old(self).slots@.len(),
                i <= len,
                self.gray@.len() == 0,
                self.phase == CollectionPhase::Mark,
                self.trace_root,
                self.cycle_allocations == 0,
                self.cycle_bytes == 0,
                self.pacing == old(self).pacing,
                forall|j: int|
                    0 <= j < i ==> #[trigger] self.slots@[j] == whitened_slot(old(self).slots@[j]),
                forall|j: int|
                    i <= j < len ==> #[trigger] self.slots@[j] == old(self).slots@[j],
            decreases len - i,
        {
            let slot = &mut self.slots[i];
            slot.colour = Colour::White;
            i = i + 1;
        }
    }

    /// One unit of marking work.
    ///
    /// If the root is flagged for (re)tracing, traces it: its strong
    /// targets are grayed and queued, its weak targets shaded.  Otherwise
    /// pops one Gray record off the worklist, traces its payload the same
    /// way, and blackens it.  Returns false, changing nothing, once the
    /// worklist is empty and the root has been traced: marking is complete.
    pub fn mark_step<R: Collect>(&mut self, root: &R) -> (progress: bool)
        requires
            old(self).wf(),
            old(self).phase is Mark,
        ensures
            final(self).wf(),
            final(self).slots@.len() == old(self).slots@.len(),
            final(self).phase == old(self).phase,
            final(self).cycle_allocations == old(self).cycle_allocations,
            final(self).cycle_bytes == old(self).cycle_bytes,
            final(self).pacing == old(self).pacing,
            old(self).trace_root ==> {
                &&& progress
                &&& !final(self).trace_root
                &&& forall|j: int|
                    0 <= j < old(self).slots@.len() ==> #[trigger] final(self).slots@[j]
                        == mark_edges_slot(
                        old(self).slots@[j],
                        j,
                        root.strong_refs(),
                        root.weak_refs(),
                    )
                &&& forall|j: int|
                    #[trigger] ids_of(final(self).gray@).contains(j) <==> ids_of(
                        old(self).gray@,
                    ).contains(j) || strong_markable(old(self).slots@, root.strong_refs(), j)
            },
            !old(self).trace_root && old(self).gray@.len() == 0 ==> {
                &&& !progress
                &&& final(self).slots@ == old(self).slots@
                &&& final(self).gray@ == old(self).gray@
                &&& final(self).trace_root == old(self).trace_root
            },
            !old(self).trace_root && old(self).gray@.len() > 0 ==> {
                let h = old(self).gray@.last() as int;
                let es = strong_refs_of(old(self).slots@, h);
                let ew = weak_refs_of(old(self).slots@, h);
                &&& progress
                &&& final(self).trace_root == old(self).trace_root
                &&& old(self).slots@[h].colour == Colour::Gray
                &&& final(self).slots@[h] == (GcBox {
                    colour: Colour::Black,
                    ..old(self).slots@[h]
                })
                &&& forall|j: int|
                    0 <= j < old(self).slots@.len() && j != h ==> #[trigger] final(self).slots@[j]
                        == mark_edges_slot(old(self).slots@[j], j, es, ew)
                &&& forall|j: int|
                    #[trigger] ids_of(final(self).gray@).contains(j) <==> (ids_of(
                        old(self).gray@,
                    ).contains(j) && j != h) || strong_markable(old(self).slots@, es, j)
            },
    {
        if self.trace_root {
            let ghost s0 = *self;
            let mut c = Collector::new();
            root.trace(&mut c);
            proof {
                assert(c.strongs() =~= root.strong_refs());
                assert(c.weaks() =~= root.weak_refs());
            }
            self.mark_strong_list(&c.strong);
            let ghost s1 = *self;
            self.mark_weak_list(&c.weak);
            self.set_root_traced();
            proof {
                assert forall|j: int| 0 <= j < s0.slots@.len() implies #[trigger] self.slots@[j]
                    == mark_edges_slot(
                    s0.slots@[j],
                    j,
                    root.strong_refs(),
                    root.weak_refs(),
                ) by {
                    assert(s1.slots@[j] == strong_marked_slot(s0.slots@[j], j, c.strongs()));
                    assert(self.slots@[j] == weak_marked_slot(s1.slots@[j], j, c.weaks()));
                }
            }
            return true;
        }
        let popped = self.gray.pop();
        match popped {
            None => false,
            Some(h) => {
                let ghost s0 = *old(self);
                proof {
                    assert(s0.gray@[s0.gray@.len() - 1] == h);
                    assert(ids_of(s0.gray@)[s0.gray@.len() - 1] == h as int);
                    assert(ids_of(s0.gray@).contains(h as int));
                    assert(s0.slots@[h as int].colour == Colour::Gray);
                }
                let slot = &mut self.slots[h];
                slot.colour = Colour::Black;
                proof {
                    // Well-formedness after pop-and-blacken: remaining
                    // worklist entries are distinct from the popped one.
                    assert forall|kk: int| 0 <= kk < self.gray@.len() implies {
                        let g = (#[trigger] self.gray@[kk]) as int;
                        0 <= g < self.slots@.len() && self.slots@[g].colour == Colour::Gray
                    } by {
                        assert(self.gray@[kk] == s0.gray@[kk]);
                        assert(s0.gray@[kk] != s0.gray@[s0.gray@.len() - 1]);
                        assert(s0.slots@[s0.gray@[kk] as int].colour == Colour::Gray);
                    }
                    assert forall|j: int|
                        0 <= j < self.slots@.len() && (#[trigger] self.slots@[j]).colour
                            == Colour::Gray implies ids_of(self.gray@).contains(j) by {
                        assert(s0.slots@[j].colour == Colour::Gray);
                        assert(ids_of(s0.gray@).contains(j));
                        let kk = choose|kk: int|
                            0 <= kk < s0.gray@.len() && ids_of(s0.gray@)[kk] == j;
                        assert(j != h as int);
                        assert(kk != s0.gray@.len() - 1);
                        assert(ids_of(self.gray@)[kk] == j);
                    }
                    assert(self.wf());
                }
                let ghost s1 = *self;
                let mut c = Collector::new();
                let payload = self.slots[h].payload.as_ref().unwrap();
                payload.trace(&mut c);
                proof {
                    assert(valid_live(s0.slots@, h as int));
                    assert(c.strongs() =~= strong_refs_of(s0.slots@, h as int));
                    assert(c.weaks() =~= weak_refs_of(s0.slots@, h as int));
                }
                self.mark_strong_list(&c.strong);
                let ghost s2 = *self;
                self.mark_weak_list(&c.weak);
                proof {
                    let hh = h as int;
                    let es = strong_refs_of(s0.slots@, hh);
                    let ew = weak_refs_of(s0.slots@, hh);
                    assert forall|j: int|
                        0 <= j < s0.slots@.len() && j != hh implies #[trigger] self.slots@[j]
                            == mark_edges_slot(s0.slots@[j], j, es, ew) by {
                        assert(s1.slots@[j] == s0.slots@[j]);
                        assert(s2.slots@[j] == strong_marked_slot(s1.slots@[j], j, es));
                        assert(self.slots@[j] == weak_marked_slot(s2.slots@[j], j, ew));
                    }
                    assert(s2.slots@[hh] == strong_marked_slot(s1.slots@[hh], hh, es));
                    assert(self.slots@[hh] == weak_marked_slot(s2.slots@[hh], hh, ew));
                    assert(self.slots@[hh] == (GcBox { colour: Colour::Black, ..s0.slots@[hh] }));
                    // The worklist after the step: the popped entry is gone,
                    // newly grayed children are in.
                    assert forall|j: int| #[trigger] ids_of(self.gray@).contains(j) <==> (ids_of(
                        s0.gray@,
                    ).contains(j) && j != hh) || strong_markable(s0.slots@, es, j) by {
                        assert(ids_of(self.gray@).contains(j) <==> ids_of(s1.gray@).contains(j)
                            || strong_markable(s1.slots@, es, j));
                        assert(strong_markable(s1.slots@, es, j) <==> strong_markable(
                            s0.slots@,
                            es,
                            j,
                        ) && j != hh) by {
                            if j == hh {
                                assert(s1.slots@[hh].colour == Colour::Black);
                                assert(s0.slots@[hh].colour == Colour::Gray);
                            } else {
                                if 0 <= j < s0.slots@.len() {
                                    assert(s1.slots@[j] == s0.slots@[j]);
                                }
                            }
                        }
                        assert(ids_of(s1.gray@).contains(j) <==> (ids_of(s0.gray@).contains(j)
                            && j != hh)) by {
                            if ids_of(s1.gray@).contains(j) {
                                let kk = choose|kk: int|
                                    0 <= kk < s1.gray@.len() && ids_of(s1.gray@)[kk] == j;
                                assert(s0.gray@[kk] == s1.gray@[kk]);
                                assert(ids_of(s0.gray@)[kk] == j);
                                assert(s0.gray@[kk] != s0.gray@[s0.gray@.len() - 1]);
                            }
                            if ids_of(s0.gray@).contains(j) && j != hh {
                                let kk = choose|kk: int|
                                    0 <= kk < s0.gray@.len() && ids_of(s0.gray@)[kk] == j;
                                assert(kk != s0.gray@.len() - 1);
                                assert(ids_of(s1.gray@)[kk] == j);
                            }
                        }
                        if j == hh {
                            assert(s0.slots@[hh].colour == Colour::Gray);
                            assert(!strong_markable(s0.slots@, es, hh));
                        }
                    }
                }
                true
            },
        }
    }

    /// Moves the phase machine one state onward: Sleep begins a cycle
    /// (whitening every record), a completed Mark turns to Sweep, and a
    /// completed Sweep returns to Sleep.  Returns whether a cycle just
    /// finished.
    ///
    /// The caller is responsible for only leaving Mark once marking has
    /// quiesced: the worklist must be empty.
    pub fn advance_phase(&mut self) -> (done: bool)
        requires
            old(self).wf(),
            old(self).phase is Mark ==> old(self).gray@.len() == 0,
        ensures
            final(self).wf(),
            final(self).pacing == old(self).pacing,
            final(self).slots@.len() == old(self).slots@.len(),
            old(self).phase is Sleep ==> {
                &&& !done
                &&& final(self).phase == CollectionPhase::Mark
                &&& final(self).trace_root
                &&& final(self).gray@.len() == 0
                &&& final(self).cycle_allocations == 0
                &&& final(self).cycle_bytes == 0
                &&& forall|j: int|
                    0 <= j < old(self).slots@.len() ==> #[trigger] final(self).slots@[j]
                        == whitened_slot(old(self).slots@[j])
            },
            old(self).phase is Mark ==> {
                &&& !done
                &&& final(self).phase == CollectionPhase::Sweep(0)
                &&& final(self).slots@ == old(self).slots@
                &&& final(self).gray@ == old(self).gray@
                &&& final(self).trace_root == old(self).trace_root
                &&& final(self).cycle_allocations == old(self).cycle_allocations
                &&& final(self).cycle_bytes == old(self).cycle_bytes
            },
            old(self).phase is Sweep ==> {
                &&& done
                &&& final(self).phase == CollectionPhase::Sleep
                &&& final(self).slots@ == old(self).slots@
                &&& final(self).gray@ == old(self).gray@
                &&& final(self).trace_root == old(self).trace_root
                &&& final(self).cycle_allocations == old(self).cycle_allocations
                &&& final(self).cycle_bytes == old(self).cycle_bytes
            },
    {
        match self.phase {
            CollectionPhase::Sleep => {
                self.begin_cycle();
                false
            },
            CollectionPhase::Mark => {
                self.phase = CollectionPhase::Sweep(0);
                false
            },
            CollectionPhase::Sweep(_) => {
                self.phase = CollectionPhase::Sleep;
                true
            },
        }
    }

    /// Sweeps the records in `[start, start + stride)` (clipped to the heap
    /// size), returning the index after the last record processed.  White
    /// records are vacated — payload dropped, slot marked free — and
    /// Weak-shaded ones are reduced to dead placeholders; marked records
    /// are retained.
    fn sweep_range(&mut self, start: usize, stride: usize) -> (end: usize)
        requires
            old(self).wf(),
            !(old(self).phase is Mark),
            start <= old(self).slots@.len(),
        ensures
            final(self).wf(),
            end == if start + stride <= old(self).slots@.len() {
                start + stride
            } else {
                old(self).slots@.len() as int
            },
            final(self).slots@.len() == old(self).slots@.len(),
            forall|j: int|
                0 <= j < old(self).slots@.len() ==> #[trigger] final(self).slots@[j] == if start
                    <= j < end {
                    swept_slot(old(self).slots@[j])
                } else {
                    old(self).slots@[j]
                },
            final(self).gray@ == old(self).gray@,
            final(self).trace_root == old(self).trace_root,
            final(self).phase == old(self).phase,
            final(self).cycle_allocations == old(self).cycle_allocations,
            final(self).cycle_bytes == old(self).cycle_bytes,
            final(self).pacing == old(self).pacing,
    {
        let len = self.slots.len();
        let end = if stride >= len - start {
            len
        } else {
            start + stride
        };
        let mut i = start;
        while i < end
            invariant
                len == self.slots@.len(),
                len == old(self).slots@.len(),
                start <= i <= end <= len,
                self.wf(),
                !(self.phase is Mark),
                forall|j: int|
                    0 <= j < len && !(start <= j < i) ==> #[trigger] self.slots@[j] == old(
                        self,
                    ).slots@[j],
                forall|j: int|
                    start <= j < i ==> #[trigger] self.slots@[j] == swept_slot(
                        old(self).slots@[j],
                    ),
                self.gray@ == old(self).gray@,
                self.trace_root == old(self).trace_root,
                self.phase == old(self).phase,
                self.cycle_allocations == old(self).cycle_allocations,
                self.cycle_bytes == old(self).cycle_bytes,
                self.pacing == old(self).pacing,
            decreases end - i,
        {
            let c = self.slots[i].colour;
            match c {
                Colour::White => {
                    let slot = &mut self.slots[i];
                    slot.payload = None;
                    slot.present = false;
                },
                Colour::Weak => {
                    let slot = &mut self.slots[i];
                    slot.payload = None;
                },
                Colour::Gray => {
                    // Impossible: the worklist is empty outside Mark, and
                    // every Gray record is on it.
                    proof {
                        assert(ids_of(self.gray@).contains(i as int));
                        assert(false);
                    }
                },
                Colour::Black => {},
            }
            proof {
                assert forall|j: int|
                    0 <= j < self.slots@.len() && (#[trigger] self.slots@[j]).colour
                        == Colour::Gray implies ids_of(self.gray@).contains(j) by {
                    assert(j != i as int);
                }
            }
            i = i + 1;
        }
        end
    }

    /// Runs the collection cycle to quiescence: begins a fresh cycle
    /// (so every allocation currently outstanding is eligible), marks until
    /// the worklist is empty and the root has been traced, sweeps every
    /// record, and returns to Sleep.
    ///
    /// The outcome is exact, whatever state the collector was in: a record
    /// stays live if and only if it was live and strongly reachable from
    /// the root; a live record that was only weakly held becomes a dead
    /// placeholder; every other record is vacated.
    pub fn run_full_cycle<R: Collect>(&mut self, root: &R)
        requires
            old(self).wf(),
        ensures
            final(self).wf(),
            final(self).phase == CollectionPhase::Sleep,
            !final(self).trace_root,
            final(self).gray@.len() == 0,
            final(self).cycle_allocations == 0,
            final(self).cycle_bytes == 0,
            final(self).pacing == old(self).pacing,
            final(self).slots@.len() == old(self).slots@.len(),
            forall|j: int|
                0 <= j < old(self).slots@.len() ==> #[trigger] final(self).slots@[j]
                    == collected_slot(old(self).slots@, root.strong_refs(), root.weak_refs(), j),
    {
        let ghost s_pre = old(self).slots@;
        self.begin_cycle();
        proof {
            assert forall|j: int| 0 <= j < s_pre.len() implies (#[trigger] self.slots@[j]).present
                == s_pre[j].present && self.slots@[j].payload == s_pre[j].payload by {
                assert(self.slots@[j] == whitened_slot(s_pre[j]));
            }
            assert forall|j: int| 0 <= j < self.slots@.len() implies (
            #[trigger] self.slots@[j]).colour == Colour::White by {
                assert(self.slots@[j] == whitened_slot(s_pre[j]));
            }
            assert(mark_inv(self.slots@, true, root.strong_refs(), root.weak_refs()));
        }
        loop
            invariant
                self.wf(),
                self.phase is Mark,
                self.slots@.len() == s_pre.len(),
                forall|j: int|
                    0 <= j < s_pre.len() ==> (#[trigger] self.slots@[j]).present
                        == s_pre[j].present && self.slots@[j].payload == s_pre[j].payload,
                mark_inv(self.slots@, self.trace_root, root.strong_refs(), root.weak_refs()),
                self.cycle_allocations == 0,
                self.cycle_bytes == 0,
                self.pacing == old(self).pacing,
            ensures
                self.wf(),
                self.phase is Mark,
                self.slots@.len() == s_pre.len(),
                forall|j: int|
                    0 <= j < s_pre.len() ==> (#[trigger] self.slots@[j]).present
                        == s_pre[j].present && self.slots@[j].payload == s_pre[j].payload,
                mark_inv(self.slots@, false, root.strong_refs(), root.weak_refs()),
                !self.trace_root,
                self.gray@.len() == 0,
                self.cycle_allocations == 0,
                self.cycle_bytes == 0,
                self.pacing == old(self).pacing,
            decreases count_nonblack(self.slots@), (if self.trace_root {
                1int
            } else {
                0int
            }),
        {
            let ghost s_it = *self;
            let progress = self.mark_step(root);
            if !progress {
                break ;
            }
            proof {
                lemma_count_nonblack_nonneg(self.slots@);
                if s_it.trace_root {
                    assert forall|j: int| 0 <= j < s_it.slots@.len() implies
                        #[trigger] self.slots@[j] == mark_edges_slot(
                        s_it.slots@[j],
                        j,
                        root.strong_refs(),
                        root.weak_refs(),
                    ) by {
                    }
                    lemma_root_step_inv(s_it.slots@, self.slots@, root.strong_refs(), root.weak_refs());
                    lemma_count_nonblack_mono(s_it.slots@, self.slots@);
                    lemma_count_nonblack_mono(self.slots@, s_it.slots@);
                } else {
                    let h = s_it.gray@.last() as int;
                    lemma_slot_step_inv(s_it.slots@, self.slots@, root.strong_refs(), root.weak_refs(), h);
                    lemma_count_nonblack_strict(s_it.slots@, self.slots@, h);
                }
            }
        }
        proof {
            assert forall|j: int| 0 <= j < self.slots@.len() implies (
            #[trigger] self.slots@[j]).colour != Colour::Gray by {
                if self.slots@[j].colour == Colour::Gray {
                    assert(ids_of(self.gray@).contains(j));
                }
            }
            lemma_mark_complete(self.slots@, root.strong_refs(), root.weak_refs());
        }
        let ghost s_marked = self.slots@;
        self.advance_phase();
        let len = self.slots.len();
        let _swept_to = self.sweep_range(0, len);
        self.advance_phase();
        proof {
            crate::marking::lemma_sweep_completes(
                s_pre,
                s_marked,
                self.slots@,
                root.strong_refs(),
                root.weak_refs(),
            );
        }
    }

    /// What one bounded collection step under `pacing` does, by phase.
    ///
    /// Sleeping wakes (whitening everything) only when the pacing triggers
    /// fire.  Marking recolours only — statuses and payloads are untouched,
    /// and records already Black stay Black — and, whenever the marking
    /// invariant held beforehand, it still holds afterwards; if marking
    /// finishes, the colouring is the exact one ([`mark_complete`]).
    /// Sweeping processes one window of records and goes back to sleep once
    /// the window reaches the end of the heap.
    pub open spec fn advanced(
        pre: Context<T>,
        post: Context<T>,
        rs: Seq<int>,
        rw: Seq<int>,
        pacing: Pacing,
    ) -> bool {
        &&& post.pacing == pre.pacing
        &&& post.slots@.len() == pre.slots@.len()
        &&& (pre.phase is Sleep ==> if pacing.wakes(
            pre.cycle_allocations as int,
            pre.cycle_bytes as int,
        ) {
            &&& post.phase == CollectionPhase::Mark
            &&& post.trace_root
            &&& post.gray@.len() == 0
            &&& post.cycle_allocations == 0
            &&& post.cycle_bytes == 0
            &&& forall|j: int|
                0 <= j < pre.slots@.len() ==> #[trigger] post.slots@[j] == whitened_slot(
                    pre.slots@[j],
                )
        } else {
            &&& post.slots@ == pre.slots@
            &&& post.gray@ == pre.gray@
            &&& post.phase == pre.phase
            &&& post.trace_root == pre.trace_root
            &&& post.cycle_allocations == pre.cycle_allocations
            &&& post.cycle_bytes == pre.cycle_bytes
        })
        &&& (pre.phase is Mark ==> {
            &&& forall|j: int|
                0 <= j < pre.slots@.len() ==> (#[trigger] post.slots@[j]).present
                    == pre.slots@[j].present && post.slots@[j].payload == pre.slots@[j].payload
            &&& forall|j: int|
                0 <= j < pre.slots@.len() && (#[trigger] pre.slots@[j]).colour == Colour::Black
                    ==> post.slots@[j].colour == Colour::Black
            &&& (post.phase is Mark || post.phase == CollectionPhase::Sweep(0))
            &&& post.cycle_allocations == pre.cycle_allocations
            &&& post.cycle_bytes == pre.cycle_bytes
            &&& (mark_inv(pre.slots@, pre.trace_root, rs, rw) ==> {
                &&& (post.phase is Mark ==> mark_inv(post.slots@, post.trace_root, rs, rw))
                &&& (post.phase is Sweep ==> mark_complete(post.slots@, rs, rw)
                    && !post.trace_root)
            })
            &&& (pacing.mark_stride >= 1 && post.phase is Mark ==> count_nonblack(post.slots@)
                + (if post.trace_root {
                    1int
                } else {
                    0int
                }) < count_nonblack(pre.slots@) + (if pre.trace_root {
                    1int
                } else {
                    0int
                }))
        })
        &&& (pre.phase matches CollectionPhase::Sweep(c) ==> {
            let end = if c + pacing.sweep_stride <= pre.slots@.len() {
                c + pacing.sweep_stride
            } else {
                pre.slots@.len() as int
            };
            &&& forall|j: int|
                0 <= j < pre.slots@.len() ==> #[trigger] post.slots@[j] == if c <= j < end {
                    swept_slot(pre.slots@[j])
                } else {
                    pre.slots@[j]
                }
            &&& post.gray@ == pre.gray@
            &&& post.trace_root == pre.trace_root
            &&& post.cycle_allocations == pre.cycle_allocations
            &&& post.cycle_bytes == pre.cycle_bytes
            &&& post.phase == if end == pre.slots@.len() {
                CollectionPhase::Sleep
            } else {
                CollectionPhase::Sweep(end as usize)
            }
        })
    }

    /// Advances the collection cycle by one bounded step under the given
    /// pacing.  If the current phase ends, the function returns without
    /// beginning work on the next one.
    pub fn advance_cycle_by<R: Collect>(&mut self, root: &R, pacing: Pacing)
        requires
            old(self).wf(),
        ensures
            final(self).wf(),
            Context::advanced(
                *old(self),
                *final(self),
                root.strong_refs(),
                root.weak_refs(),
                pacing,
            ),
    {
        match self.phase {
            CollectionPhase::Sleep => {
                if pacing.should_wake(self.cycle_allocations, self.cycle_bytes) {
                    self.advance_phase();
                }
            },
            CollectionPhase::Mark => {
                let ghost pre = *old(self);
                let stride = pacing.mark_stride;
                let mut marked: usize = 0;
                let mut done = false;
                while !done && marked < stride
                    invariant
                        self.wf(),
                        self.phase is Mark,
                        marked <= stride,
                        self.slots@.len() == pre.slots@.len(),
                        forall|j: int|
                            0 <= j < pre.slots@.len() ==> (#[trigger] self.slots@[j]).present
                                == pre.slots@[j].present && self.slots@[j].payload
                                == pre.slots@[j].payload,
                        forall|j: int|
                            0 <= j < pre.slots@.len() && (#[trigger] pre.slots@[j]).colour
                                == Colour::Black ==> self.slots@[j].colour == Colour::Black,
                        self.cycle_allocations == pre.cycle_allocations,
                        self.cycle_bytes == pre.cycle_bytes,
                        self.pacing == pre.pacing,
                        mark_inv(pre.slots@, pre.trace_root, root.strong_refs(), root.weak_refs())
                            ==> mark_inv(
                            self.slots@,
                            self.trace_root,
                            root.strong_refs(),
                            root.weak_refs(),
                        ),
                        done ==> !self.trace_root && self.gray@.len() == 0,
                        count_nonblack(self.slots@) + (if self.trace_root {
                            1int
                        } else {
                            0int
                        }) <= count_nonblack(pre.slots@) + (if pre.trace_root {
                            1int
                        } else {
                            0int
                        }),
                        marked >= 1 ==> count_nonblack(self.slots@) + (if self.trace_root {
                            1int
                        } else {
                            0int
                        }) < count_nonblack(pre.slots@) + (if pre.trace_root {
                            1int
                        } else {
                            0int
                        }),
                    decreases stride - marked, (if done {
                        0int
                    } else {
                        1int
                    }),
                {
                    let ghost s_it = *self;
                    let progress = self.mark_step(root);
                    if progress {
                        marked = marked + 1;
                        proof {
                            if s_it.trace_root {
                                assert forall|j: int| 0 <= j < s_it.slots@.len() implies (
                                #[trigger] s_it.slots@[j]).colour == Colour::Black
                                    <==> self.slots@[j].colour == Colour::Black by {
                                    assert(self.slots@[j] == mark_edges_slot(
                                        s_it.slots@[j],
                                        j,
                                        root.strong_refs(),
                                        root.weak_refs(),
                                    ));
                                }
                                lemma_count_nonblack_mono(s_it.slots@, self.slots@);
                                lemma_count_nonblack_mono(self.slots@, s_it.slots@);
                            } else {
                                let h = s_it.gray@.last() as int;
                                assert forall|j: int|
                                    0 <= j < s_it.slots@.len() && (
                                #[trigger] s_it.slots@[j]).colour == Colour::Black
                                    implies self.slots@[j].colour == Colour::Black by {
                                    if j != h {
                                        assert(self.slots@[j] == mark_edges_slot(
                                            s_it.slots@[j],
                                            j,
                                            strong_refs_of(s_it.slots@, h),
                                            weak_refs_of(s_it.slots@, h),
                                        ));
                                    }
                                }
                                lemma_count_nonblack_strict(s_it.slots@, self.slots@, h);
                            }
                            if mark_inv(
                                s_it.slots@,
                                s_it.trace_root,
                                root.strong_refs(),
                                root.weak_refs(),
                            ) {
                                if s_it.trace_root {
                                    assert forall|j: int| 0 <= j < s_it.slots@.len() implies
                                        #[trigger] self.slots@[j] == mark_edges_slot(
                                        s_it.slots@[j],
                                        j,
                                        root.strong_refs(),
                                        root.weak_refs(),
                                    ) by {
                                    }
                                    lemma_root_step_inv(
                                        s_it.slots@,
                                        self.slots@,
                                        root.strong_refs(),
                                        root.weak_refs(),
                                    );
                                } else {
                                    let h = s_it.gray@.last() as int;
                                    lemma_slot_step_inv(
                                        s_it.slots@,
                                        self.slots@,
                                        root.strong_refs(),
                                        root.weak_refs(),
                                        h,
                                    );
                                }
                            }
                        }
                    } else {
                        done = true;
                    }
                }
                if done {
                    proof {
                        if mark_inv(
                            pre.slots@,
                            pre.trace_root,
                            root.strong_refs(),
                            root.weak_refs(),
                        ) {
                            assert forall|j: int| 0 <= j < self.slots@.len() implies (
                            #[trigger] self.slots@[j]).colour != Colour::Gray by {
                                if self.slots@[j].colour == Colour::Gray {
                                    assert(ids_of(self.gray@).contains(j));
                                }
                            }
                            lemma_mark_complete(
                                self.slots@,
                                root.strong_refs(),
                                root.weak_refs(),
                            );
                        }
                    }
                    self.advance_phase();
                }
            },
            CollectionPhase::Sweep(cursor) => {
                let end = self.sweep_range(cursor, pacing.sweep_stride);
                if end == self.slots.len() {
                    self.advance_phase();
                } else {
                    self.phase = CollectionPhase::Sweep(end);
                }
            },
        }
    }

    /// Advances the collection cycle by one bounded step under the
    /// configured pacing.
    pub fn advance_collection<R: Collect>(&mut self, root: &R)
        requires
            old(self).wf(),
        ensures
            final(self).wf(),
            Context::advanced(
                *old(self),
                *final(self),
                root.strong_refs(),
                root.weak_refs(),
                old(self).pacing,
            ),
    {
        let pacing = self.pacing;
        self.advance_cycle_by(root, pacing);
    }

    /// Incremental equivalence: drives the cycle with bounded
    /// [`Context::advance_collection`] steps until the phase returns to
    /// Sleep, and arrives at exactly the heap that [`Context::run_full_cycle`]
    /// produces from the same starting state — the same records live, the
    /// same dead placeholders, the same slots vacated — no matter how small
    /// the configured strides are.
    ///
    /// It needs a sleeping collector whose triggers fire (otherwise a step
    /// never wakes and nothing would be collected) and strides of at least
    /// one unit of work.
    pub fn collect_incrementally<R: Collect>(&mut self, root: &R)
        requires
            old(self).wf(),
            old(self).phase == CollectionPhase::Sleep,
            old(self).pacing.wakes(
                old(self).cycle_allocations as int,
                old(self).cycle_bytes as int,
            ),
            old(self).pacing.mark_stride >= 1,
            old(self).pacing.sweep_stride >= 1,
        ensures
            final(self).wf(),
            final(self).phase == CollectionPhase::Sleep,
            !final(self).trace_root,
            final(self).gray@.len() == 0,
            final(self).pacing == old(self).pacing,
            final(self).slots@.len() == old(self).slots@.len(),
            forall|j: int|
                0 <= j < old(self).slots@.len() ==> #[trigger] final(self).slots@[j]
                    == collected_slot(old(self).slots@, root.strong_refs(), root.weak_refs(), j),
    {
        let ghost s_pre = old(self).slots@;
        let ghost p0 = old(self).pacing;
        self.advance_collection(root);
        proof {
            assert forall|j: int| 0 <= j < s_pre.len() implies (#[trigger] self.slots@[j]).present
                == s_pre[j].present && self.slots@[j].payload == s_pre[j].payload by {
                assert(self.slots@[j] == whitened_slot(s_pre[j]));
            }
            assert forall|j: int| 0 <= j < self.slots@.len() implies (
            #[trigger] self.slots@[j]).colour == Colour::White by {
                assert(self.slots@[j] == whitened_slot(s_pre[j]));
            }
            assert(mark_inv(self.slots@, true, root.strong_refs(), root.weak_refs()));
        }
        loop
            invariant_except_break
                self.wf(),
                self.phase is Mark,
                self.pacing == p0,
                p0.mark_stride >= 1,
                self.slots@.len() == s_pre.len(),
                forall|j: int|
                    0 <= j < s_pre.len() ==> (#[trigger] self.slots@[j]).present
                        == s_pre[j].present && self.slots@[j].payload == s_pre[j].payload,
                mark_inv(self.slots@, self.trace_root, root.strong_refs(), root.weak_refs()),
            ensures
                self.wf(),
                self.phase == CollectionPhase::Sweep(0),
                !self.trace_root,
                self.pacing == p0,
                self.slots@.len() == s_pre.len(),
                forall|j: int|
                    0 <= j < s_pre.len() ==> (#[trigger] self.slots@[j]).present
                        == s_pre[j].present && self.slots@[j].payload == s_pre[j].payload,
                mark_complete(self.slots@, root.strong_refs(), root.weak_refs()),
            decreases count_nonblack(self.slots@) + (if self.trace_root {
                1int
            } else {
                0int
            }),
        {
            let ghost s_it = *self;
            self.advance_collection(root);
            proof {
                lemma_count_nonblack_nonneg(self.slots@);
            }
            match self.phase {
                CollectionPhase::Mark => {},
                _ => { break ; },
            }
        }
        let ghost s_marked = self.slots@;
        loop
            invariant_except_break
                self.wf(),
                self.phase is Sweep,
                self.pacing == p0,
                p0.sweep_stride >= 1,
                self.slots@.len() == s_pre.len(),
                s_marked.len() == s_pre.len(),
                !self.trace_root,
                self.phase->Sweep_0 <= s_pre.len(),
                forall|j: int|
                    0 <= j < s_pre.len() ==> #[trigger] self.slots@[j] == if j
                        < self.phase->Sweep_0 {
                        swept_slot(s_marked[j])
                    } else {
                        s_marked[j]
                    },
            ensures
                self.wf(),
                self.phase == CollectionPhase::Sleep,
                !self.trace_root,
                self.gray@.len() == 0,
                self.pacing == p0,
                self.slots@.len() == s_pre.len(),
                forall|j: int|
                    0 <= j < s_pre.len() ==> #[trigger] self.slots@[j] == swept_slot(s_marked[j]),
            decreases s_pre.len() - self.phase->Sweep_0,
        {
            let ghost c = self.phase->Sweep_0;
            let ghost s_it = *self;
            self.advance_collection(root);
            proof {
                let cc = c as int;
                let end = if cc + p0.sweep_stride <= s_pre.len() {
                    cc + p0.sweep_stride
                } else {
                    s_pre.len() as int
                };
                assert(s_it.phase == CollectionPhase::Sweep(c));
                assert forall|j: int| 0 <= j < s_pre.len() implies #[trigger] self.slots@[j]
                    == if cc <= j < end {
                    swept_slot(s_it.slots@[j])
                } else {
                    s_it.slots@[j]
                } by {
                }
                if self.phase is Sweep {
                    assert(end != s_pre.len() as int);
                    assert(self.phase == CollectionPhase::Sweep(end as usize));
                    assert(self.slots.len() == self.slots@.len());
                    assert(0 <= end <= usize::MAX);
                    assert(self.phase->Sweep_0 == end);
                    assert forall|j: int| 0 <= j < s_pre.len() implies #[trigger] self.slots@[j]
                        == if j < self.phase->Sweep_0 {
                        swept_slot(s_marked[j])
                    } else {
                        s_marked[j]
                    } by {
                        assert(s_it.slots@[j] == if j < cc {
                            swept_slot(s_marked[j])
                        } else {
                            s_marked[j]
                        });
                    }
                } else {
                    assert(self.phase == CollectionPhase::Sleep);
                    assert(end == s_pre.len() as int);
                    assert forall|j: int| 0 <= j < s_pre.len() implies #[trigger] self.slots@[j]
                        == swept_slot(s_marked[j]) by {
                        assert(s_it.slots@[j] == if j < cc {
                            swept_slot(s_marked[j])
                        } else {
                            s_marked[j]
                        });
                    }
                }
            }
            match self.phase {
                CollectionPhase::Sweep(_) => {},
                _ => { break ; },
            }
        }
        proof {
            lemma_sweep_completes(
                s_pre,
                s_marked,
                self.slots@,
                root.strong_refs(),
                root.weak_refs(),
            );
        }
    }

    /// The write barrier: called before mutating the payload behind `id`.
    ///
    /// While marking, a Black record is recoloured Gray and queued again, so
    /// references stored by the mutation are retraced this cycle.  In any
    /// other phase, or for a record that marking has not blackened, nothing
    /// needs to happen.
    pub fn write_barrier(&mut self, id: usize)
        requires
            old(self).wf(),
            id < old(self).slots@.len(),
            old(self).slots@[id as int].is_live(),
        ensures
            final(self).wf(),
            ({
                let regrayed = old(self).phase is Mark && old(self).slots@[id as int].colour
                    == Colour::Black;
                &&& final(self).slots@ == if regrayed {
                    old(self).slots@.update(
                        id as int,
                        GcBox { colour: Colour::Gray, ..old(self).slots@[id as int] },
                    )
                } else {
                    old(self).slots@
                }
                &&& final(self).gray@ == if regrayed {
                    old(self).gray@.push(id)
                } else {
                    old(self).gray@
                }
            }),
            final(self).trace_root == old(self).trace_root,
            final(self).phase == old(self).phase,
            final(self).cycle_allocations == old(self).cycle_allocations,
            final(self).cycle_bytes == old(self).cycle_bytes,
            final(self).pacing == old(self).pacing,
    {
        let in_mark = match self.phase {
            CollectionPhase::Mark => true,
            _ => false,
        };
        if in_mark {
            let c = self.slots[id].colour;
            if c == Colour::Black {
                self.push_box(id);
            }
        }
    }
}

/// The capability token for access to an arena's heap: every allocation and
/// every barriered mutation goes through a `Mutation`.
pub struct Mutation<T> {
    /// The collector state this token gives access to.
    pub context: Context<T>,
}

impl<T> Mutation<T> {
    /// The underlying collector state.
    pub fn context(&self) -> (ctx: &Context<T>)
        ensures
            *ctx == self.context,
    {
        &self.context
    }
}

impl<T: Collect> Mutation<T> {
    /// Allocates `value` on the collected heap; see [`Gc::new`].
    pub fn allocate(&mut self, value: T) -> (gc: Gc)
        requires
            old(self).context.wf(),
        ensures
            final(self).context.wf(),
            gc.id == old(self).context.slots@.len(),
            final(self).context.slots@ == old(self).context.slots@.push(
                GcBox { colour: Colour::Black, present: true, payload: Some(value) },
            ),
            final(self).context.gray == old(self).context.gray,
            final(self).context.trace_root == old(self).context.trace_root,
            final(self).context.phase == old(self).context.phase,
            final(self).context.pacing == old(self).context.pacing,
    {
        let id = self.context.allocate(value);
        Gc { id }
    }

    /// Read access to the payload behind a live handle.
    pub fn read(&self, gc: Gc) -> (r: &T)
        requires
            valid_live(self.context.slots@, gc.id as int),
        ensures
            *r == self.context.slots@[gc.id as int].payload->Some_0,
    {
        self.context.slots[gc.id].payload.as_ref().unwrap()
    }

    /// Replaces the payload behind a live handle, applying the write
    /// barrier first, and returns the previous payload.
    ///
    /// Routing mutation through this swap is what keeps incremental
    /// collection sound: the target is re-grayed (if it had already been
    /// traced this cycle) in the same operation that changes its contents.
    pub fn write(&mut self, gc: Gc, value: T) -> (prev: T)
        requires
            old(self).context.wf(),
            valid_live(old(self).context.slots@, gc.id as int),
        ensures
            final(self).context.wf(),
            prev == old(self).context.slots@[gc.id as int].payload->Some_0,
            ({
                let regrayed = old(self).context.phase is Mark
                    && old(self).context.slots@[gc.id as int].colour == Colour::Black;
                let c = if regrayed {
                    Colour::Gray
                } else {
                    old(self).context.slots@[gc.id as int].colour
                };
                final(self).context.slots@ == old(self).context.slots@.update(
                    gc.id as int,
                    GcBox { colour: c, present: true, payload: Some(value) },
                )
            }),
            final(self).context.trace_root == old(self).context.trace_root,
            final(self).context.phase == old(self).context.phase,
            final(self).context.pacing == old(self).context.pacing,
            valid_live(final(self).context.slots@, gc.id as int),
    {
        self.context.write_barrier(gc.id);
        let slot = &mut self.context.slots[gc.id];
        let mut value = Some(value);
        core::mem::swap(&mut slot.payload, &mut value);
        proof {
            assert forall|j: int|
                0 <= j < self.context.slots@.len() && (#[trigger] self.context.slots@[j]).colour
                    == Colour::Gray implies ids_of(self.context.gray@).contains(j) by {
                assert(self.context.slots@[j].colour == Colour::Gray);
            }
        }
        value.unwrap()
    }
}

} // verus!
