//! The mathematical model of the heap: the object graph and reachability.
//!
//! Contracts elsewhere in the crate speak of the heap as a sequence of
//! allocation records and of the graph whose vertices are record indices and
//! whose edges are the strong and weak references reported by each payload's
//! [`Collect`] implementation.  Reachability is defined through explicit
//! paths of strong edges starting from the root's direct references.

use vstd::prelude::*;

use crate::collect::Collect;
use crate::gc_box::{Colour, GcBox};

verus! {

/// The indices named by a vector of handles, as mathematical integers.
pub open spec fn ids_of(v: Seq<usize>) -> Seq<int> {
    v.map_values(|u: usize| u as int)
}

/// Whether `j` is a valid index of a live record in `s`.
pub open spec fn valid_live<T>(s: Seq<GcBox<T>>, j: int) -> bool {
    0 <= j < s.len() && s[j].is_live()
}

/// The strong references leaving record `j`: those of its payload when it is
/// live, and none otherwise.  A dropped or vacated record has no edges.
pub open spec fn strong_refs_of<T: Collect>(s: Seq<GcBox<T>>, j: int) -> Seq<int> {
    if valid_live(s, j) {
        s[j].payload->Some_0.strong_refs()
    } else {
        Seq::empty()
    }
}

/// The weak references leaving record `j`.
pub open spec fn weak_refs_of<T: Collect>(s: Seq<GcBox<T>>, j: int) -> Seq<int> {
    if valid_live(s, j) {
        s[j].payload->Some_0.weak_refs()
    } else {
        Seq::empty()
    }
}

/// A path of strong edges through live records, starting at one of the
/// root's direct strong references `rs`.
pub open spec fn is_strong_path<T: Collect>(s: Seq<GcBox<T>>, rs: Seq<int>, p: Seq<int>) -> bool {
    &&& p.len() > 0
    &&& rs.contains(p[0])
    &&& forall|k: int| 0 <= k < p.len() ==> valid_live(s, #[trigger] p[k])
    &&& forall|k: int| 0 < k < p.len() ==> strong_refs_of(s, p[k - 1]).contains(#[trigger] p[k])
}

/// Whether the live record `j` is reachable from the root through strong
/// references.  Only live records are reachable; weak references never
/// contribute.
pub open spec fn reachable<T: Collect>(s: Seq<GcBox<T>>, rs: Seq<int>, j: int) -> bool {
    exists|p: Seq<int>| is_strong_path(s, rs, p) && p.last() == j
}

/// Whether record `j` is named by a weak reference of the root (`rw`) or of
/// some strongly reachable record.  Such a record is retained as a dead
/// placeholder by a collection rather than vacated outright.
pub open spec fn weak_held<T: Collect>(
    s: Seq<GcBox<T>>,
    rs: Seq<int>,
    rw: Seq<int>,
    j: int,
) -> bool {
    ||| rw.contains(j)
    ||| exists|h: int| #[trigger] reachable(s, rs, h) && weak_refs_of(s, h).contains(j)
}

/// The number of records among the first `k` that still occupy their slot.
pub open spec fn count_present_upto<T>(s: Seq<GcBox<T>>, k: int) -> int
    decreases k,
{
    if k <= 0 {
        0
    } else {
        count_present_upto(s, k - 1) + if s[k - 1].present {
            1int
        } else {
            0int
        }
    }
}

/// The number of records still occupying their slot.
pub open spec fn count_present<T>(s: Seq<GcBox<T>>) -> int {
    count_present_upto(s, s.len() as int)
}

/// A reachable record is live and in bounds.
pub proof fn lemma_reachable_valid<T: Collect>(s: Seq<GcBox<T>>, rs: Seq<int>, j: int)
    requires
        reachable(s, rs, j),
    ensures
        valid_live(s, j),
{
    let p = choose|p: Seq<int>| is_strong_path(s, rs, p) && p.last() == j;
    assert(valid_live(s, p[p.len() - 1]));
}

/// A direct strong reference of the root that is live is reachable.
pub proof fn lemma_root_edge_reachable<T: Collect>(s: Seq<GcBox<T>>, rs: Seq<int>, j: int)
    requires
        rs.contains(j),
        valid_live(s, j),
    ensures
        reachable(s, rs, j),
{
    let p = seq![j];
    assert(is_strong_path(s, rs, p));
    assert(p.last() == j);
}

/// Reachability extends across one strong edge.
pub proof fn lemma_reachable_step<T: Collect>(s: Seq<GcBox<T>>, rs: Seq<int>, h: int, j: int)
    requires
        reachable(s, rs, h),
        strong_refs_of(s, h).contains(j),
        valid_live(s, j),
    ensures
        reachable(s, rs, j),
{
    let p = choose|p: Seq<int>| is_strong_path(s, rs, p) && p.last() == h;
    let q = p.push(j);
    assert(q[q.len() - 1] == j);
    assert(p[p.len() - 1] == h);
    assert forall|k: int| 0 <= k < q.len() implies valid_live(s, #[trigger] q[k]) by {
        if k < p.len() {
            assert(q[k] == p[k]);
        }
    }
    assert forall|k: int| 0 < k < q.len() implies strong_refs_of(s, q[k - 1]).contains(
        #[trigger] q[k],
    ) by {
        if k < p.len() {
            assert(q[k] == p[k]);
            assert(q[k - 1] == p[k - 1]);
        } else {
            assert(q[k - 1] == p[p.len() - 1]);
        }
    }
    assert(is_strong_path(s, rs, q) && q.last() == j);
}

/// Two heaps with the same length, statuses and payloads have the same
/// strong paths: reachability and weak retention do not depend on colours.
pub proof fn lemma_reach_ignores_colour<T: Collect>(
    s1: Seq<GcBox<T>>,
    s2: Seq<GcBox<T>>,
    rs: Seq<int>,
    rw: Seq<int>,
)
    requires
        s1.len() == s2.len(),
        forall|j: int|
            0 <= j < s1.len() ==> (#[trigger] s2[j]).present == s1[j].present && s2[j].payload
                == s1[j].payload,
    ensures
        forall|j: int| #[trigger] reachable(s1, rs, j) <==> reachable(s2, rs, j),
        forall|j: int| #[trigger] strong_refs_of(s1, j) == strong_refs_of(s2, j),
        forall|j: int| #[trigger] weak_refs_of(s1, j) == weak_refs_of(s2, j),
        forall|j: int| #[trigger] weak_held(s1, rs, rw, j) <==> weak_held(s2, rs, rw, j),
{
    assert forall|j: int| #[trigger] strong_refs_of(s1, j) == strong_refs_of(s2, j) by {
        assert(valid_live(s1, j) <==> valid_live(s2, j));
    }
    assert forall|j: int| #[trigger] weak_refs_of(s1, j) == weak_refs_of(s2, j) by {
        assert(valid_live(s1, j) <==> valid_live(s2, j));
    }
    assert forall|j: int| #[trigger] reachable(s1, rs, j) implies reachable(s2, rs, j) by {
        let p = choose|p: Seq<int>| is_strong_path(s1, rs, p) && p.last() == j;
        assert(is_strong_path(s2, rs, p));
    }
    assert forall|j: int| #[trigger] reachable(s2, rs, j) implies reachable(s1, rs, j) by {
        let p = choose|p: Seq<int>| is_strong_path(s2, rs, p) && p.last() == j;
        assert(is_strong_path(s1, rs, p));
    }
    assert forall|j: int| #[trigger] weak_held(s1, rs, rw, j) implies weak_held(s2, rs, rw, j) by {
        if !rw.contains(j) {
            let h = choose|h: int| #[trigger] reachable(s1, rs, h) && weak_refs_of(s1, h).contains(
                j,
            );
            assert(reachable(s2, rs, h) && weak_refs_of(s2, h).contains(j));
        }
    }
    assert forall|j: int| #[trigger] weak_held(s2, rs, rw, j) implies weak_held(s1, rs, rw, j) by {
        if !rw.contains(j) {
            let h = choose|h: int| #[trigger] reachable(s2, rs, h) && weak_refs_of(s2, h).contains(
                j,
            );
            assert(reachable(s1, rs, h) && weak_refs_of(s1, h).contains(j));
        }
    }
}

/// The indices of a pushed vector of handles: those of the vector plus the
/// pushed one.
pub proof fn lemma_ids_push(v: Seq<usize>, x: usize)
    ensures
        forall|j: int| ids_of(v.push(x)).contains(j) <==> ids_of(v).contains(j) || j == x as int,
{
    assert forall|j: int| #[trigger] ids_of(v.push(x)).contains(j) implies ids_of(v).contains(j)
        || j == x as int by {
        let k = choose|k: int| 0 <= k < v.push(x).len() && ids_of(v.push(x))[k] == j;
        if k < v.len() {
            assert(ids_of(v)[k] == j);
        }
    }
    assert forall|j: int| ids_of(v).contains(j) || j == x as int implies #[trigger] ids_of(
        v.push(x),
    ).contains(j) by {
        if ids_of(v).contains(j) {
            let k = choose|k: int| 0 <= k < v.len() && ids_of(v)[k] == j;
            assert(ids_of(v.push(x))[k] == j);
        } else {
            assert(ids_of(v.push(x))[v.len() as int] == j);
        }
    }
}

/// Extending the examined prefix of a handle vector by one element extends
/// the set of indices it names by that element.
pub proof fn lemma_ids_take_step(v: Seq<usize>, k: int)
    requires
        0 <= k < v.len(),
    ensures
        forall|j: int|
            ids_of(v.take(k + 1)).contains(j) <==> ids_of(v.take(k)).contains(j) || j == v[k] as int,
{
    assert(v.take(k + 1) =~= v.take(k).push(v[k]));
    lemma_ids_push(v.take(k), v[k]);
}

} // verus!
