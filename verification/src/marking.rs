//! The specification-level model of marking and sweeping, and the lemmas
//! relating them to reachability.
//!
//! One marking step recolours the targets of a set of edges
//! ([`mark_edges_slot`]); the invariants here say that marking only ever
//! discovers reachable records ([`marked_justified`]), that blackened
//! records have had their children discovered ([`blacks_closed`]), and that
//! weak shading is justified by a weak reference from the reachable part of
//! the graph ([`weak_justified`]).  Together they pin down the final
//! colouring exactly ([`lemma_mark_complete`]): Black is reachability,
//! Weak is weak-only retention, White is garbage.

use vstd::prelude::*;

use crate::collect::Collect;
use crate::gc_box::{Colour, GcBox};
use crate::reach::{
    lemma_reach_ignores_colour, lemma_reachable_valid, reachable,
    strong_refs_of, valid_live, weak_held, weak_refs_of,
};

verus! {

/// A colour given by marking: the record has been discovered reachable.
pub open spec fn marked(c: Colour) -> bool {
    c == Colour::Gray || c == Colour::Black
}

/// The strong half of one marking step: a live target of one of the edges
/// in `es` that is still White (or only weakly shaded) is recoloured Gray.
pub open spec fn strong_marked_slot<T>(b: GcBox<T>, j: int, es: Seq<int>) -> GcBox<T> {
    if es.contains(j) && b.is_live() && (b.colour == Colour::White || b.colour == Colour::Weak) {
        GcBox { colour: Colour::Gray, ..b }
    } else {
        b
    }
}

/// The weak half of one marking step: a live, still-White target of one of
/// the weak edges in `ew` is shaded Weak.
pub open spec fn weak_marked_slot<T>(b: GcBox<T>, j: int, ew: Seq<int>) -> GcBox<T> {
    if ew.contains(j) && b.is_live() && b.colour == Colour::White {
        GcBox { colour: Colour::Weak, ..b }
    } else {
        b
    }
}

/// One full marking step over a record: strong edges first, then weak ones.
pub open spec fn mark_edges_slot<T>(b: GcBox<T>, j: int, es: Seq<int>, ew: Seq<int>) -> GcBox<T> {
    weak_marked_slot(strong_marked_slot(b, j, es), j, ew)
}

/// What the sweep does to one record: White is vacated, Weak keeps a dead
/// placeholder, marked records are retained untouched.
pub open spec fn swept_slot<T>(b: GcBox<T>) -> GcBox<T> {
    match b.colour {
        Colour::White => GcBox { colour: Colour::White, present: false, payload: None },
        Colour::Weak => GcBox { colour: Colour::Weak, present: b.present, payload: None },
        Colour::Gray => b,
        Colour::Black => b,
    }
}

/// What the start of a cycle does to one record: recolour it White.
pub open spec fn whitened_slot<T>(b: GcBox<T>) -> GcBox<T> {
    GcBox { colour: Colour::White, ..b }
}

/// The outcome of one full collection for the record at `j`, given the heap
/// `s` and the root's strong and weak references at the moment the cycle
/// began: reachable records survive, weakly held live records leave a dead
/// placeholder, everything else is vacated.
pub open spec fn collected_slot<T: Collect>(
    s: Seq<GcBox<T>>,
    rs: Seq<int>,
    rw: Seq<int>,
    j: int,
) -> GcBox<T> {
    if reachable(s, rs, j) {
        GcBox { colour: Colour::Black, ..s[j] }
    } else if valid_live(s, j) && weak_held(s, rs, rw, j) {
        GcBox { colour: Colour::Weak, present: true, payload: None }
    } else {
        GcBox { colour: Colour::White, present: false, payload: None }
    }
}

/// Whether a strong marking pass over the edge targets `targets` recolours
/// the record at `j`.
pub open spec fn strong_markable<T>(s: Seq<GcBox<T>>, targets: Seq<int>, j: int) -> bool {
    &&& 0 <= j < s.len()
    &&& targets.contains(j)
    &&& s[j].is_live()
    &&& (s[j].colour == Colour::White || s[j].colour == Colour::Weak)
}

/// No record is Gray: marking has quiesced (or not begun).
pub open spec fn no_gray<T>(s: Seq<GcBox<T>>) -> bool {
    forall|j: int| 0 <= j < s.len() ==> (#[trigger] s[j]).colour != Colour::Gray
}

/// The root's direct references have been dealt with: its live strong
/// targets are marked and its live weak targets are no longer White.
pub open spec fn root_marked<T: Collect>(s: Seq<GcBox<T>>, rs: Seq<int>, rw: Seq<int>) -> bool {
    &&& forall|r: int| #[trigger] rs.contains(r) && valid_live(s, r) ==> marked(s[r].colour)
    &&& forall|r: int| #[trigger] rw.contains(r) && valid_live(s, r) ==> s[r].colour != Colour::White
}

/// Every Black record's live strong children are marked and its live weak
/// children are at least shaded: blackening only happens after tracing.
pub open spec fn blacks_closed<T: Collect>(s: Seq<GcBox<T>>) -> bool {
    &&& forall|j: int, r: int|
        0 <= j < s.len() && s[j].colour == Colour::Black && #[trigger] strong_refs_of(
            s,
            j,
        ).contains(r) && valid_live(s, r) ==> marked(s[r].colour)
    &&& forall|j: int, r: int|
        0 <= j < s.len() && s[j].colour == Colour::Black && #[trigger] weak_refs_of(s, j).contains(
            r,
        ) && valid_live(s, r) ==> s[r].colour != Colour::White
}

/// Marking never invents reachability: every marked record is reachable.
pub open spec fn marked_justified<T: Collect>(s: Seq<GcBox<T>>, rs: Seq<int>) -> bool {
    forall|j: int|
        0 <= j < s.len() && marked((#[trigger] s[j]).colour) ==> reachable(s, rs, j)
}

/// Every Weak-shaded record is actually held by a weak reference from the
/// root or from a reachable record.
pub open spec fn weak_justified<T: Collect>(
    s: Seq<GcBox<T>>,
    rs: Seq<int>,
    rw: Seq<int>,
) -> bool {
    forall|j: int|
        0 <= j < s.len() && (#[trigger] s[j]).colour == Colour::Weak ==> weak_held(s, rs, rw, j)
}

/// Weak shading is only ever applied to live records.
pub open spec fn weak_live<T>(s: Seq<GcBox<T>>) -> bool {
    forall|j: int|
        0 <= j < s.len() && (#[trigger] s[j]).colour == Colour::Weak ==> s[j].is_live()
}

/// The full mid-marking invariant.  `needs_root` is the retrace flag: while
/// it is set the root's edges may be undiscovered.
pub open spec fn mark_inv<T: Collect>(
    s: Seq<GcBox<T>>,
    needs_root: bool,
    rs: Seq<int>,
    rw: Seq<int>,
) -> bool {
    &&& (!needs_root ==> root_marked(s, rs, rw))
    &&& blacks_closed(s)
    &&& marked_justified(s, rs)
    &&& weak_justified(s, rs, rw)
    &&& weak_live(s)
}

/// The exact characterisation of a finished marking: Black is reachability,
/// Weak is live weak-only retention, nothing is Gray.
pub open spec fn mark_complete<T: Collect>(s: Seq<GcBox<T>>, rs: Seq<int>, rw: Seq<int>) -> bool {
    forall|j: int|
        0 <= j < s.len() ==> {
            let b = #[trigger] s[j];
            &&& (b.colour == Colour::Black <==> reachable(s, rs, j))
            &&& (b.colour == Colour::Weak <==> valid_live(s, j) && !reachable(s, rs, j)
                && weak_held(s, rs, rw, j))
            &&& b.colour != Colour::Gray
        }
}

/// The number of records not yet blackened; the measure that bounds the
/// marking loop.
pub open spec fn count_nonblack<T>(s: Seq<GcBox<T>>) -> int
    decreases s.len(),
{
    if s.len() == 0 {
        0
    } else {
        count_nonblack(s.drop_last()) + if s.last().colour == Colour::Black {
            0int
        } else {
            1int
        }
    }
}

/// Sweeping a completely marked heap yields exactly the collected heap:
/// statuses and payloads were untouched by marking, so the final record at
/// each index is determined by reachability in the pre-cycle heap.
pub proof fn lemma_sweep_completes<T: Collect>(
    s_pre: Seq<GcBox<T>>,
    s_marked: Seq<GcBox<T>>,
    s_final: Seq<GcBox<T>>,
    rs: Seq<int>,
    rw: Seq<int>,
)
    requires
        s_marked.len() == s_pre.len(),
        s_final.len() == s_pre.len(),
        forall|j: int|
            0 <= j < s_pre.len() ==> (#[trigger] s_marked[j]).present == s_pre[j].present
                && s_marked[j].payload == s_pre[j].payload,
        mark_complete(s_marked, rs, rw),
        forall|j: int| 0 <= j < s_pre.len() ==> #[trigger] s_final[j] == swept_slot(s_marked[j]),
    ensures
        forall|j: int| 0 <= j < s_pre.len() ==> #[trigger] s_final[j] == collected_slot(
            s_pre,
            rs,
            rw,
            j,
        ),
{
    crate::reach::lemma_reach_ignores_colour(s_pre, s_marked, rs, rw);
    assert forall|j: int| 0 <= j < s_pre.len() implies #[trigger] s_final[j] == collected_slot(
        s_pre,
        rs,
        rw,
        j,
    ) by {
        let b = s_marked[j];
        assert(s_final[j] == swept_slot(b));
        assert(valid_live(s_marked, j) == valid_live(s_pre, j));
        if reachable(s_pre, rs, j) {
            assert(reachable(s_marked, rs, j));
            assert(b.colour == Colour::Black);
            assert(b.present == s_pre[j].present && b.payload == s_pre[j].payload);
        } else if valid_live(s_pre, j) && weak_held(s_pre, rs, rw, j) {
            assert(valid_live(s_marked, j) && weak_held(s_marked, rs, rw, j));
            assert(!reachable(s_marked, rs, j));
            assert(b.colour == Colour::Weak);
            assert(b.present);
        } else {
            assert(!reachable(s_marked, rs, j));
            assert(b.colour != Colour::Black);
            if b.colour == Colour::Weak {
                assert(valid_live(s_marked, j) && weak_held(s_marked, rs, rw, j));
                assert(valid_live(s_pre, j) && weak_held(s_pre, rs, rw, j));
            }
            assert(b.colour == Colour::White);
        }
    }
}

/// The non-Black count is a measure: bounded below by zero.
pub proof fn lemma_count_nonblack_nonneg<T>(s: Seq<GcBox<T>>)
    ensures
        0 <= count_nonblack(s),
    decreases s.len(),
{
    if s.len() > 0 {
        lemma_count_nonblack_nonneg(s.drop_last());
    }
}

/// Blackening is monotone, so the non-Black count never grows.
pub proof fn lemma_count_nonblack_mono<T>(s: Seq<GcBox<T>>, t: Seq<GcBox<T>>)
    requires
        t.len() == s.len(),
        forall|j: int|
            0 <= j < s.len() && (#[trigger] s[j]).colour == Colour::Black ==> t[j].colour
                == Colour::Black,
    ensures
        count_nonblack(t) <= count_nonblack(s),
    decreases s.len(),
{
    if s.len() > 0 {
        lemma_count_nonblack_mono(s.drop_last(), t.drop_last());
        assert(s[s.len() - 1] == s.last());
    }
}

/// Blackening one record that was not Black strictly shrinks the measure.
pub proof fn lemma_count_nonblack_strict<T>(s: Seq<GcBox<T>>, t: Seq<GcBox<T>>, h: int)
    requires
        t.len() == s.len(),
        forall|j: int|
            0 <= j < s.len() && (#[trigger] s[j]).colour == Colour::Black ==> t[j].colour
                == Colour::Black,
        0 <= h < s.len(),
        s[h].colour != Colour::Black,
        t[h].colour == Colour::Black,
    ensures
        count_nonblack(t) < count_nonblack(s),
    decreases s.len(),
{
    if h == s.len() - 1 {
        lemma_count_nonblack_mono(s.drop_last(), t.drop_last());
        assert(s[s.len() - 1] == s.last());
        assert(t[t.len() - 1] == t.last());
    } else {
        lemma_count_nonblack_strict(s.drop_last(), t.drop_last(), h);
        assert(s[s.len() - 1] == s.last());
        assert(t[t.len() - 1] == t.last());
    }
}

/// One marking pass (over edge sets whose live targets are justified)
/// preserves the marking invariants and leaves statuses and payloads alone.
pub proof fn lemma_mark_edges_inv<T: Collect>(
    s: Seq<GcBox<T>>,
    t: Seq<GcBox<T>>,
    rs: Seq<int>,
    rw: Seq<int>,
    es: Seq<int>,
    ew: Seq<int>,
)
    requires
        t.len() == s.len(),
        forall|j: int| 0 <= j < s.len() ==> #[trigger] t[j] == mark_edges_slot(s[j], j, es, ew),
        blacks_closed(s),
        marked_justified(s, rs),
        weak_justified(s, rs, rw),
        weak_live(s),
        forall|r: int| #[trigger] es.contains(r) && valid_live(s, r) ==> reachable(s, rs, r),
        forall|r: int| #[trigger] ew.contains(r) && valid_live(s, r) ==> weak_held(s, rs, rw, r),
    ensures
        blacks_closed(t),
        marked_justified(t, rs),
        weak_justified(t, rs, rw),
        weak_live(t),
        root_marked(s, rs, rw) ==> root_marked(t, rs, rw),
        forall|j: int|
            0 <= j < s.len() ==> (#[trigger] t[j]).present == s[j].present && t[j].payload
                == s[j].payload,
        forall|j: int| #[trigger] reachable(t, rs, j) <==> reachable(s, rs, j),
        forall|j: int| #[trigger] weak_held(t, rs, rw, j) <==> weak_held(s, rs, rw, j),
        forall|j: int| #[trigger] strong_refs_of(t, j) == strong_refs_of(s, j),
        forall|j: int| #[trigger] weak_refs_of(t, j) == weak_refs_of(s, j),
        forall|j: int|
            0 <= j < s.len() && marked((#[trigger] s[j]).colour) ==> marked(t[j].colour),
        forall|j: int|
            0 <= j < s.len() && (#[trigger] s[j]).colour != Colour::White ==> t[j].colour
                != Colour::White,
        forall|j: int|
            0 <= j < s.len() && (#[trigger] s[j]).colour == Colour::Black ==> t[j].colour
                == Colour::Black,
        forall|j: int| 0 <= j < s.len() ==> valid_live(t, j) == valid_live(s, j),
{
    assert forall|j: int| 0 <= j < s.len() implies (#[trigger] t[j]).present == s[j].present
        && t[j].payload == s[j].payload by {
        assert(t[j] == mark_edges_slot(s[j], j, es, ew));
    }
    lemma_reach_ignores_colour(s, t, rs, rw);
    assert forall|j: int| 0 <= j < s.len() implies valid_live(t, j) == valid_live(s, j) by {
        assert(t[j].present == s[j].present && t[j].payload == s[j].payload);
    }
    // Colour monotonicity facts.
    assert forall|j: int|
        0 <= j < s.len() && marked((#[trigger] s[j]).colour) implies marked(t[j].colour) by {
        assert(t[j] == mark_edges_slot(s[j], j, es, ew));
    }
    assert forall|j: int|
        0 <= j < s.len() && (#[trigger] s[j]).colour != Colour::White implies t[j].colour
        != Colour::White by {
        assert(t[j] == mark_edges_slot(s[j], j, es, ew));
    }
    // Blacks stay closed: blackness is unchanged, children stay marked.
    assert forall|j: int, r: int|
        0 <= j < t.len() && t[j].colour == Colour::Black && #[trigger] strong_refs_of(
            t,
            j,
        ).contains(r) && valid_live(t, r) implies marked(t[r].colour) by {
        assert(t[j] == mark_edges_slot(s[j], j, es, ew));
        assert(s[j].colour == Colour::Black);
        assert(strong_refs_of(s, j).contains(r));
        assert(marked(s[r].colour));
    }
    assert forall|j: int, r: int|
        0 <= j < t.len() && t[j].colour == Colour::Black && #[trigger] weak_refs_of(t, j).contains(
            r,
        ) && valid_live(t, r) implies t[r].colour != Colour::White by {
        assert(t[j] == mark_edges_slot(s[j], j, es, ew));
        assert(s[j].colour == Colour::Black);
        assert(weak_refs_of(s, j).contains(r));
        assert(s[r].colour != Colour::White);
    }
    // Newly marked records are justified by the edge-set hypotheses.
    assert forall|j: int|
        0 <= j < t.len() && marked((#[trigger] t[j]).colour) implies reachable(t, rs, j) by {
        assert(t[j] == mark_edges_slot(s[j], j, es, ew));
        if marked(s[j].colour) {
            assert(reachable(s, rs, j));
        } else {
            assert(es.contains(j) && valid_live(s, j));
            assert(reachable(s, rs, j));
        }
    }
    assert forall|j: int|
        0 <= j < t.len() && (#[trigger] t[j]).colour == Colour::Weak implies weak_held(
        t,
        rs,
        rw,
        j,
    ) by {
        assert(t[j] == mark_edges_slot(s[j], j, es, ew));
        if s[j].colour == Colour::Weak {
            assert(weak_held(s, rs, rw, j));
        } else {
            assert(ew.contains(j) && valid_live(s, j));
            assert(weak_held(s, rs, rw, j));
        }
    }
    assert forall|j: int|
        0 <= j < t.len() && (#[trigger] t[j]).colour == Colour::Weak implies t[j].is_live() by {
        assert(t[j] == mark_edges_slot(s[j], j, es, ew));
        if s[j].colour == Colour::Weak {
            assert(s[j].is_live());
        }
    }
    if root_marked(s, rs, rw) {
        assert forall|r: int| #[trigger] rs.contains(r) && valid_live(t, r) implies marked(
            t[r].colour,
        ) by {
            assert(valid_live(s, r));
            assert(marked(s[r].colour));
        }
        assert forall|r: int| #[trigger] rw.contains(r) && valid_live(t, r) implies t[r].colour
            != Colour::White by {
            assert(valid_live(s, r));
            assert(s[r].colour != Colour::White);
        }
    }
}

/// Tracing the root preserves the marking invariants and establishes the
/// root-traced half.
pub proof fn lemma_root_step_inv<T: Collect>(
    s: Seq<GcBox<T>>,
    t: Seq<GcBox<T>>,
    rs: Seq<int>,
    rw: Seq<int>,
)
    requires
        t.len() == s.len(),
        forall|j: int| 0 <= j < s.len() ==> #[trigger] t[j] == mark_edges_slot(s[j], j, rs, rw),
        mark_inv(s, true, rs, rw),
    ensures
        mark_inv(t, false, rs, rw),
        forall|j: int|
            0 <= j < s.len() ==> (#[trigger] t[j]).present == s[j].present && t[j].payload
                == s[j].payload,
        forall|j: int|
            0 <= j < s.len() ==> ((#[trigger] t[j]).colour == Colour::Black <==> s[j].colour
                == Colour::Black),
{
    assert forall|r: int| #[trigger] rs.contains(r) && valid_live(s, r) implies reachable(
        s,
        rs,
        r,
    ) by {
        crate::reach::lemma_root_edge_reachable(s, rs, r);
    }
    assert forall|r: int| #[trigger] rw.contains(r) && valid_live(s, r) implies weak_held(
        s,
        rs,
        rw,
        r,
    ) by {
    }
    lemma_mark_edges_inv(s, t, rs, rw, rs, rw);
    assert forall|r: int| #[trigger] rs.contains(r) && valid_live(t, r) implies marked(
        t[r].colour,
    ) by {
        assert(valid_live(s, r));
        assert(t[r] == mark_edges_slot(s[r], r, rs, rw));
    }
    assert forall|r: int| #[trigger] rw.contains(r) && valid_live(t, r) implies t[r].colour
        != Colour::White by {
        assert(valid_live(s, r));
        assert(t[r] == mark_edges_slot(s[r], r, rs, rw));
    }
    assert forall|j: int|
        0 <= j < s.len() implies ((#[trigger] t[j]).colour == Colour::Black <==> s[j].colour
        == Colour::Black) by {
        assert(t[j] == mark_edges_slot(s[j], j, rs, rw));
    }
}

/// Tracing one popped Gray record and blackening it preserves the marking
/// invariants.
#[verifier::rlimit(80)]
pub proof fn lemma_slot_step_inv<T: Collect>(
    s: Seq<GcBox<T>>,
    t: Seq<GcBox<T>>,
    rs: Seq<int>,
    rw: Seq<int>,
    h: int,
)
    requires
        t.len() == s.len(),
        0 <= h < s.len(),
        s[h].colour == Colour::Gray,
        t[h] == (GcBox { colour: Colour::Black, ..s[h] }),
        forall|j: int|
            0 <= j < s.len() && j != h ==> #[trigger] t[j] == mark_edges_slot(
                s[j],
                j,
                strong_refs_of(s, h),
                weak_refs_of(s, h),
            ),
        mark_inv(s, false, rs, rw),
    ensures
        mark_inv(t, false, rs, rw),
        forall|j: int|
            0 <= j < s.len() ==> (#[trigger] t[j]).present == s[j].present && t[j].payload
                == s[j].payload,
        forall|j: int|
            0 <= j < s.len() && (#[trigger] s[j]).colour == Colour::Black ==> t[j].colour
                == Colour::Black,
{
    let es = strong_refs_of(s, h);
    let ew = weak_refs_of(s, h);
    assert(reachable(s, rs, h)) by {
        assert(marked(s[h].colour));
    }
    assert(valid_live(s, h));
    assert forall|r: int| #[trigger] es.contains(r) && valid_live(s, r) implies reachable(
        s,
        rs,
        r,
    ) by {
        crate::reach::lemma_reachable_step(s, rs, h, r);
    }
    // Statuses and payloads are untouched, so the graph is unchanged.
    assert forall|j: int| 0 <= j < s.len() implies (#[trigger] t[j]).present == s[j].present
        && t[j].payload == s[j].payload by {
        if j != h {
            assert(t[j] == mark_edges_slot(s[j], j, es, ew));
        }
    }
    crate::reach::lemma_reach_ignores_colour(s, t, rs, rw);
    // Colour transfer facts.
    assert forall|j: int|
        0 <= j < s.len() && marked((#[trigger] s[j]).colour) implies marked(t[j].colour) by {
        if j != h {
            assert(t[j] == mark_edges_slot(s[j], j, es, ew));
        }
    }
    assert forall|j: int|
        0 <= j < s.len() && (#[trigger] s[j]).colour != Colour::White implies t[j].colour
        != Colour::White by {
        if j != h {
            assert(t[j] == mark_edges_slot(s[j], j, es, ew));
        }
    }
    assert forall|j: int|
        0 <= j < s.len() && (#[trigger] s[j]).colour == Colour::Black implies t[j].colour
        == Colour::Black by {
        if j != h {
            assert(t[j] == mark_edges_slot(s[j], j, es, ew));
        }
    }
    assert forall|j: int|
        0 <= j < s.len() && (#[trigger] t[j]).colour == Colour::Black && j != h implies s[j].colour
        == Colour::Black by {
        assert(t[j] == mark_edges_slot(s[j], j, es, ew));
    }
    // Black records of t are closed.
    assert forall|j: int, r: int|
        0 <= j < t.len() && t[j].colour == Colour::Black && #[trigger] strong_refs_of(
            t,
            j,
        ).contains(r) && valid_live(t, r) implies marked(t[r].colour) by {
        assert(strong_refs_of(t, j) == strong_refs_of(s, j));
        assert(valid_live(s, r));
        if j == h {
            if r != h {
                assert(t[r] == mark_edges_slot(s[r], r, es, ew));
            }
        } else {
            assert(s[j].colour == Colour::Black);
            assert(marked(s[r].colour));
        }
    }
    assert forall|j: int, r: int|
        0 <= j < t.len() && t[j].colour == Colour::Black && #[trigger] weak_refs_of(t, j).contains(
            r,
        ) && valid_live(t, r) implies t[r].colour != Colour::White by {
        assert(weak_refs_of(t, j) == weak_refs_of(s, j));
        assert(valid_live(s, r));
        if j == h {
            if r != h {
                assert(t[r] == mark_edges_slot(s[r], r, es, ew));
            }
        } else {
            assert(s[j].colour == Colour::Black);
            assert(s[r].colour != Colour::White);
        }
    }
    // Marking remains justified by reachability.
    assert forall|j: int|
        0 <= j < t.len() && marked((#[trigger] t[j]).colour) implies reachable(t, rs, j) by {
        if j == h {
            assert(reachable(s, rs, h));
        } else {
            assert(t[j] == mark_edges_slot(s[j], j, es, ew));
            if marked(s[j].colour) {
                assert(reachable(s, rs, j));
            } else {
                assert(es.contains(j) && valid_live(s, j));
                assert(reachable(s, rs, j));
            }
        }
    }
    assert forall|j: int|
        0 <= j < t.len() && (#[trigger] t[j]).colour == Colour::Weak implies weak_held(
        t,
        rs,
        rw,
        j,
    ) by {
        assert(j != h);
        assert(t[j] == mark_edges_slot(s[j], j, es, ew));
        if s[j].colour == Colour::Weak {
            assert(weak_held(s, rs, rw, j));
        } else {
            assert(ew.contains(j) && valid_live(s, j));
            assert(weak_held(s, rs, rw, j));
        }
    }
    assert forall|j: int|
        0 <= j < t.len() && (#[trigger] t[j]).colour == Colour::Weak implies t[j].is_live() by {
        assert(j != h);
        assert(t[j] == mark_edges_slot(s[j], j, es, ew));
        if s[j].colour == Colour::Weak {
            assert(s[j].is_live());
        }
    }
    // The root stays dealt with.
    assert forall|r: int| #[trigger] rs.contains(r) && valid_live(t, r) implies marked(
        t[r].colour,
    ) by {
        assert(valid_live(s, r));
        assert(marked(s[r].colour));
    }
    assert forall|r: int| #[trigger] rw.contains(r) && valid_live(t, r) implies t[r].colour
        != Colour::White by {
        assert(valid_live(s, r));
        assert(s[r].colour != Colour::White);
    }
}

/// Along any strong path from the root, a quiesced marking has blackened
/// every record.
pub proof fn lemma_path_black<T: Collect>(s: Seq<GcBox<T>>, rs: Seq<int>, p: Seq<int>)
    requires
        no_gray(s),
        root_marked_strong_only(s, rs),
        blacks_closed(s),
        crate::reach::is_strong_path(s, rs, p),
    ensures
        s[p.last()].colour == Colour::Black,
    decreases p.len(),
{
    if p.len() == 1 {
        assert(valid_live(s, p[0]));
        assert(marked(s[p[0]].colour));
        assert(s[p[0]].colour != Colour::Gray);
    } else {
        let q = p.drop_last();
        assert forall|k: int| 0 <= k < q.len() implies valid_live(s, #[trigger] q[k]) by {
            assert(q[k] == p[k]);
        }
        assert forall|k: int| 0 < k < q.len() implies strong_refs_of(s, q[k - 1]).contains(
            #[trigger] q[k],
        ) by {
            assert(q[k] == p[k] && q[k - 1] == p[k - 1]);
        }
        assert(q[0] == p[0]);
        assert(crate::reach::is_strong_path(s, rs, q));
        lemma_path_black(s, rs, q);
        let n = p.len();
        assert(q.last() == p[n - 2]);
        assert(strong_refs_of(s, p[n - 2]).contains(p[n - 1]));
        assert(valid_live(s, p[n - 1]));
        assert(marked(s[p[n - 1]].colour));
        assert(s[p[n - 1]].colour != Colour::Gray);
    }
}

/// Just the strong half of [`root_marked`].
pub open spec fn root_marked_strong_only<T: Collect>(s: Seq<GcBox<T>>, rs: Seq<int>) -> bool {
    forall|r: int| #[trigger] rs.contains(r) && valid_live(s, r) ==> marked(s[r].colour)
}

/// When marking has quiesced — nothing Gray, root traced — the invariants
/// pin the colouring down exactly.
pub proof fn lemma_mark_complete<T: Collect>(s: Seq<GcBox<T>>, rs: Seq<int>, rw: Seq<int>)
    requires
        no_gray(s),
        mark_inv(s, false, rs, rw),
    ensures
        mark_complete(s, rs, rw),
{
    assert forall|j: int| 0 <= j < s.len() && reachable(s, rs, j) implies (
    #[trigger] s[j]).colour == Colour::Black by {
        let p = choose|p: Seq<int>|
            crate::reach::is_strong_path(s, rs, p) && p.last() == j;
        lemma_path_black(s, rs, p);
    }
    assert forall|j: int|
        0 <= j < s.len() && valid_live(s, j) && !reachable(s, rs, j) && weak_held(s, rs, rw, j)
        implies (#[trigger] s[j]).colour == Colour::Weak by {
        if rw.contains(j) {
            assert(s[j].colour != Colour::White);
        } else {
            let h = choose|h: int| #[trigger] reachable(s, rs, h) && weak_refs_of(s, h).contains(
                j,
            );
            lemma_reachable_valid(s, rs, h);
            assert(s[h].colour == Colour::Black);
            assert(s[j].colour != Colour::White);
        }
        assert(s[j].colour != Colour::Gray);
        if s[j].colour == Colour::Black {
            assert(marked(s[j].colour));
            assert(reachable(s, rs, j));
        }
    }
    assert forall|j: int| 0 <= j < s.len() && (#[trigger] s[j]).colour == Colour::Black
        implies reachable(s, rs, j) by {
        assert(marked(s[j].colour));
    }
    assert forall|j: int| 0 <= j < s.len() && (#[trigger] s[j]).colour == Colour::Weak implies
        valid_live(s, j) && !reachable(s, rs, j) && weak_held(s, rs, rw, j) by {
        if reachable(s, rs, j) {
            let p = choose|p: Seq<int>|
                crate::reach::is_strong_path(s, rs, p) && p.last() == j;
            lemma_path_black(s, rs, p);
        }
    }
}

} // verus!
