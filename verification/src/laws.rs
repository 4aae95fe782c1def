//! The collector's guarantees as theorems.
//!
//! Each proof function here states one behavioural law of a full
//! collection, over the same specifications
//! ([`collected_slot`], [`reachable`], [`weak_held`], [`count_present`])
//! that [`crate::Arena::complete_collection`] promises, so the laws apply
//! to every heap and every object graph.

use vstd::prelude::*;

use crate::collect::Collect;
use crate::context::{CollectionPhase, Context, Pacing};
use crate::gc_box::{Colour, GcBox};
use crate::marking::{collected_slot, swept_slot};
use crate::reach::{
    count_present, count_present_upto, lemma_reachable_valid, reachable, valid_live, weak_held,
};

verus! {

/// Whether a full collection keeps the record at `j` in its slot: it is
/// strongly reachable, or it is live and named by a weak reference from
/// the reachable part of the graph.
pub open spec fn retained<T: Collect>(
    s: Seq<GcBox<T>>,
    rs: Seq<int>,
    rw: Seq<int>,
    j: int,
) -> bool {
    reachable(s, rs, j) || (valid_live(s, j) && weak_held(s, rs, rw, j))
}

/// The number of records among the first `k` that a full collection
/// removes: present but neither reachable nor weakly held while live.
pub open spec fn count_garbage_upto<T: Collect>(
    s: Seq<GcBox<T>>,
    rs: Seq<int>,
    rw: Seq<int>,
    k: int,
) -> int
    decreases k,
{
    if k <= 0 {
        0
    } else {
        count_garbage_upto(s, rs, rw, k - 1) + if s[k - 1].present && !retained(s, rs, rw, k - 1) {
            1int
        } else {
            0int
        }
    }
}

/// The number of records a full collection removes.
pub open spec fn count_garbage<T: Collect>(s: Seq<GcBox<T>>, rs: Seq<int>, rw: Seq<int>) -> int {
    count_garbage_upto(s, rs, rw, s.len() as int)
}

/// After a full collection, a record occupies its slot exactly when it was
/// retained; prefix counts follow.
proof fn lemma_counts_upto<T: Collect>(
    pre: Seq<GcBox<T>>,
    post: Seq<GcBox<T>>,
    rs: Seq<int>,
    rw: Seq<int>,
    k: int,
)
    requires
        post.len() == pre.len(),
        forall|j: int| 0 <= j < pre.len() ==> #[trigger] post[j] == collected_slot(pre, rs, rw, j),
        0 <= k <= pre.len(),
    ensures
        count_present_upto(post, k) == count_present_upto(pre, k) - count_garbage_upto(
            pre,
            rs,
            rw,
            k,
        ),
        count_garbage_upto(pre, rs, rw, k) >= 0,
    decreases k,
{
    if k > 0 {
        lemma_counts_upto(pre, post, rs, rw, k - 1);
        let j = k - 1;
        assert(post[j] == collected_slot(pre, rs, rw, j));
        if reachable(pre, rs, j) {
            lemma_reachable_valid(pre, rs, j);
        }
    }
}

/// Liveness: every object that is live and strongly reachable from the
/// root when a full collection runs is still live afterwards, with its
/// payload untouched; and when every record was reachable — the graph
/// holds no garbage — the allocation count does not change.
pub proof fn lemma_liveness<T: Collect>(
    pre: Seq<GcBox<T>>,
    post: Seq<GcBox<T>>,
    rs: Seq<int>,
    rw: Seq<int>,
)
    requires
        post.len() == pre.len(),
        forall|j: int| 0 <= j < pre.len() ==> #[trigger] post[j] == collected_slot(pre, rs, rw, j),
    ensures
        forall|j: int|
            0 <= j < pre.len() && valid_live(pre, j) && #[trigger] reachable(pre, rs, j)
                ==> valid_live(post, j) && post[j].payload == pre[j].payload,
        (forall|j: int|
            0 <= j < pre.len() && (#[trigger] pre[j]).present ==> reachable(pre, rs, j))
            ==> count_present(post) == count_present(pre),
{
    assert forall|j: int|
        0 <= j < pre.len() && valid_live(pre, j) && #[trigger] reachable(pre, rs, j)
        implies valid_live(post, j) && post[j].payload == pre[j].payload by {
        assert(post[j] == collected_slot(pre, rs, rw, j));
    }
    if forall|j: int|
        0 <= j < pre.len() && (#[trigger] pre[j]).present ==> reachable(pre, rs, j) {
        lemma_counts_upto(pre, post, rs, rw, pre.len() as int);
        assert forall|k: int| 0 <= k <= pre.len() implies count_garbage_upto(pre, rs, rw, k)
            == 0 by {
            lemma_garbage_zero(pre, rs, rw, k);
        }
    }
}

/// When every present record is reachable, no prefix holds garbage.
proof fn lemma_garbage_zero<T: Collect>(s: Seq<GcBox<T>>, rs: Seq<int>, rw: Seq<int>, k: int)
    requires
        0 <= k <= s.len(),
        forall|j: int| 0 <= j < s.len() && (#[trigger] s[j]).present ==> reachable(s, rs, j),
    ensures
        count_garbage_upto(s, rs, rw, k) == 0,
    decreases k,
{
    if k > 0 {
        lemma_garbage_zero(s, rs, rw, k - 1);
    }
}

/// Reclamation: a full collection removes exactly the records with no
/// strong path from the root (and no weak retention), so the allocation
/// count drops by exactly their number.
pub proof fn lemma_reclamation<T: Collect>(
    pre: Seq<GcBox<T>>,
    post: Seq<GcBox<T>>,
    rs: Seq<int>,
    rw: Seq<int>,
)
    requires
        post.len() == pre.len(),
        forall|j: int| 0 <= j < pre.len() ==> #[trigger] post[j] == collected_slot(pre, rs, rw, j),
    ensures
        forall|j: int|
            0 <= j < pre.len() && !(#[trigger] retained(pre, rs, rw, j)) ==> !post[j].present,
        count_present(post) == count_present(pre) - count_garbage(pre, rs, rw),
        count_garbage(pre, rs, rw) >= 0,
{
    assert forall|j: int|
        0 <= j < pre.len() && !(#[trigger] retained(pre, rs, rw, j)) implies !post[j].present by {
        assert(post[j] == collected_slot(pre, rs, rw, j));
    }
    lemma_counts_upto(pre, post, rs, rw, pre.len() as int);
}

/// Weak semantics: a weak handle to an allocation with no strong path from
/// the root observes "absent" after a full collection — the target is no
/// longer live, whether its record was vacated or retained as a dead
/// placeholder — so an upgrade yields nothing rather than a stale value.
pub proof fn lemma_weak_absent<T: Collect>(
    pre: Seq<GcBox<T>>,
    post: Seq<GcBox<T>>,
    rs: Seq<int>,
    rw: Seq<int>,
    t: int,
)
    requires
        post.len() == pre.len(),
        forall|j: int| 0 <= j < pre.len() ==> #[trigger] post[j] == collected_slot(pre, rs, rw, j),
        0 <= t < pre.len(),
        !reachable(pre, rs, t),
    ensures
        !valid_live(post, t),
{
    assert(post[t] == collected_slot(pre, rs, rw, t));
}

/// Mutation soundness: an allocation made while a cycle is in progress is
/// coloured Black and therefore exempt from that cycle: as long as the
/// cycle has not wrapped around to a new one (the phase is not Sleep), no
/// single collection step uncolours it, drops its payload or vacates it.
pub proof fn lemma_exempt_survives_step<T: Collect>(
    pre: Context<T>,
    post: Context<T>,
    rs: Seq<int>,
    rw: Seq<int>,
    pacing: Pacing,
    j: int,
)
    requires
        Context::advanced(pre, post, rs, rw, pacing),
        !(pre.phase is Sleep),
        0 <= j < pre.slots@.len(),
        pre.slots@[j].colour == Colour::Black,
        pre.slots@[j].is_live(),
    ensures
        post.slots@[j].colour == Colour::Black,
        post.slots@[j].is_live(),
        post.slots@[j].payload == pre.slots@[j].payload,
{
    if pre.phase is Mark {
        assert(post.slots@[j].colour == Colour::Black);
    } else {
        let c = pre.phase->Sweep_0;
        assert(post.slots@[j] == if c <= j < (if c + pacing.sweep_stride <= pre.slots@.len() {
            c as int + pacing.sweep_stride as int
        } else {
            pre.slots@.len() as int
        }) {
            swept_slot(pre.slots@[j])
        } else {
            pre.slots@[j]
        });
    }
}

} // verus!
