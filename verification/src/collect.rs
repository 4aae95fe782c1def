//! The tracing capability: how stored values report their outgoing
//! references to the collector.
//!
//! Every type storable in the arena implements [`Collect`].  Its two spec
//! functions give the mathematical sequences of strong and weak reference
//! targets directly reachable from a value, and [`Collect::trace`] reports
//! exactly those targets to a [`Collector`].  The obligation that tracing
//! visit every reachable collected pointer — the collector frees whatever
//! it cannot reach — is a verified postcondition here, not a safety
//! contract left to the implementor.

use vstd::prelude::*;

use crate::gc::Gc;
use crate::gc_weak::Weak;
use crate::reach::ids_of;

verus! {

/// The traversal context handed to [`Collect::trace`]: it accumulates the
/// strong and weak reference targets discovered in a value.
pub struct Collector {
    /// Indices of allocations named by strong references, in discovery order.
    pub strong: Vec<usize>,
    /// Indices of allocations named by weak references, in discovery order.
    pub weak: Vec<usize>,
}

impl Collector {
    /// The strong targets gathered so far.
    pub open spec fn strongs(&self) -> Seq<int> {
        ids_of(self.strong@)
    }

    /// The weak targets gathered so far.
    pub open spec fn weaks(&self) -> Seq<int> {
        ids_of(self.weak@)
    }

    /// An empty traversal context.
    pub fn new() -> (c: Collector)
        ensures
            c.strongs() == Seq::<int>::empty(),
            c.weaks() == Seq::<int>::empty(),
    {
        let c = Collector { strong: Vec::new(), weak: Vec::new() };
        proof {
            assert(c.strongs() =~= Seq::<int>::empty());
            assert(c.weaks() =~= Seq::<int>::empty());
        }
        c
    }

    /// Records a strong reference to the allocation named by `gc`.
    pub fn mark(&mut self, gc: Gc)
        ensures
            final(self).strongs() == old(self).strongs() + seq![gc.id as int],
            final(self).weaks() == old(self).weaks(),
    {
        self.strong.push(gc.id);
        proof {
            assert(self.strongs() =~= old(self).strongs() + seq![gc.id as int]);
        }
    }

    /// Records a weak reference; an empty weak handle records nothing.
    pub fn mark_weak(&mut self, w: &Weak)
        ensures
            final(self).strongs() == old(self).strongs(),
            final(self).weaks() == old(self).weaks() + w.weak_refs(),
    {
        match w.target {
            Some(t) => {
                self.weak.push(t);
                proof {
                    assert(self.weaks() =~= old(self).weaks() + w.weak_refs());
                }
            },
            None => {
                proof {
                    assert(self.weaks() =~= old(self).weaks() + w.weak_refs());
                }
            },
        }
    }
}

/// The tracing capability.
///
/// `strong_refs` and `weak_refs` are the specification-level out-edges of a
/// value; `trace` reports exactly those edges, in order, to the collector.
/// The collector frees any allocation it cannot reach through reported
/// edges, so an implementation that omitted an edge would lose data — here
/// that mistake is ruled out by the postcondition on `trace`.
pub trait Collect {
    /// Indices of allocations this value references strongly.
    spec fn strong_refs(&self) -> Seq<int>;

    /// Indices of allocations this value references weakly.
    spec fn weak_refs(&self) -> Seq<int>;

    /// Reports every outgoing reference of this value to `c`.
    fn trace(&self, c: &mut Collector)
        ensures
            final(c).strongs() == old(c).strongs() + self.strong_refs(),
            final(c).weaks() == old(c).weaks() + self.weak_refs(),
    ;
}

impl Collect for Gc {
    open spec fn strong_refs(&self) -> Seq<int> {
        seq![self.id as int]
    }

    open spec fn weak_refs(&self) -> Seq<int> {
        Seq::empty()
    }

    fn trace(&self, c: &mut Collector) {
        c.mark(*self);
        proof {
            assert(c.weaks() =~= old(c).weaks() + self.weak_refs());
        }
    }
}

impl Collect for Weak {
    open spec fn strong_refs(&self) -> Seq<int> {
        Seq::empty()
    }

    open spec fn weak_refs(&self) -> Seq<int> {
        match self.target {
            Some(t) => seq![t as int],
            None => Seq::empty(),
        }
    }

    fn trace(&self, c: &mut Collector) {
        c.mark_weak(self);
        proof {
            assert(c.strongs() =~= old(c).strongs() + self.strong_refs());
        }
    }
}

impl<T: Collect> Collect for Option<T> {
    open spec fn strong_refs(&self) -> Seq<int> {
        match self {
            Some(v) => v.strong_refs(),
            None => Seq::empty(),
        }
    }

    open spec fn weak_refs(&self) -> Seq<int> {
        match self {
            Some(v) => v.weak_refs(),
            None => Seq::empty(),
        }
    }

    fn trace(&self, c: &mut Collector) {
        match self {
            Some(v) => v.trace(c),
            None => {
                proof {
                    assert(c.strongs() =~= old(c).strongs() + self.strong_refs());
                    assert(c.weaks() =~= old(c).weaks() + self.weak_refs());
                }
            },
        }
    }
}

impl<T: Collect, E: Collect> Collect for Result<T, E> {
    open spec fn strong_refs(&self) -> Seq<int> {
        match self {
            Ok(v) => v.strong_refs(),
            Err(e) => e.strong_refs(),
        }
    }

    open spec fn weak_refs(&self) -> Seq<int> {
        match self {
            Ok(v) => v.weak_refs(),
            Err(e) => e.weak_refs(),
        }
    }

    fn trace(&self, c: &mut Collector) {
        match self {
            Ok(v) => v.trace(c),
            Err(e) => e.trace(c),
        }
    }
}

/// The strong references of the elements of a sequence, concatenated in
/// element order.
pub open spec fn seq_strong_refs<T: Collect>(s: Seq<T>) -> Seq<int>
    decreases s.len(),
{
    if s.len() == 0 {
        Seq::empty()
    } else {
        seq_strong_refs(s.drop_last()) + s.last().strong_refs()
    }
}

/// The weak references of the elements of a sequence, concatenated in
/// element order.
pub open spec fn seq_weak_refs<T: Collect>(s: Seq<T>) -> Seq<int>
    decreases s.len(),
{
    if s.len() == 0 {
        Seq::empty()
    } else {
        seq_weak_refs(s.drop_last()) + s.last().weak_refs()
    }
}

impl<T: Collect> Collect for Vec<T> {
    open spec fn strong_refs(&self) -> Seq<int> {
        seq_strong_refs(self@)
    }

    open spec fn weak_refs(&self) -> Seq<int> {
        seq_weak_refs(self@)
    }

    fn trace(&self, c: &mut Collector) {
        let n = self.len();
        let mut i: usize = 0;
        while i < n
            invariant
                n == self@.len(),
                i <= n,
                c.strongs() == old(c).strongs() + seq_strong_refs(self@.take(i as int)),
                c.weaks() == old(c).weaks() + seq_weak_refs(self@.take(i as int)),
            decreases n - i,
        {
            let ghost pre = *c;
            self[i].trace(c);
            proof {
                let t1 = self@.take(i + 1);
                assert(t1.drop_last() =~= self@.take(i as int));
                assert(t1.last() == self@[i as int]);
                assert(c.strongs() =~= old(c).strongs() + seq_strong_refs(self@.take(i + 1)));
                assert(c.weaks() =~= old(c).weaks() + seq_weak_refs(self@.take(i + 1)));
            }
            i = i + 1;
        }
        proof {
            assert(self@.take(n as int) =~= self@);
            assert(c.strongs() =~= old(c).strongs() + self.strong_refs());
            assert(c.weaks() =~= old(c).weaks() + self.weak_refs());
        }
    }
}

impl<A: Collect, B: Collect> Collect for (A, B) {
    open spec fn strong_refs(&self) -> Seq<int> {
        self.0.strong_refs() + self.1.strong_refs()
    }

    open spec fn weak_refs(&self) -> Seq<int> {
        self.0.weak_refs() + self.1.weak_refs()
    }

    fn trace(&self, c: &mut Collector) {
        self.0.trace(c);
        self.1.trace(c);
        proof {
            assert(c.strongs() =~= old(c).strongs() + self.strong_refs());
            assert(c.weaks() =~= old(c).weaks() + self.weak_refs());
        }
    }
}

impl<A: Collect, B: Collect, C: Collect> Collect for (A, B, C) {
    open spec fn strong_refs(&self) -> Seq<int> {
        self.0.strong_refs() + self.1.strong_refs() + self.2.strong_refs()
    }

    open spec fn weak_refs(&self) -> Seq<int> {
        self.0.weak_refs() + self.1.weak_refs() + self.2.weak_refs()
    }

    fn trace(&self, c: &mut Collector) {
        self.0.trace(c);
        self.1.trace(c);
        self.2.trace(c);
        proof {
            assert(c.strongs() =~= old(c).strongs() + self.strong_refs());
            assert(c.weaks() =~= old(c).weaks() + self.weak_refs());
        }
    }
}

impl Collect for bool {
    open spec fn strong_refs(&self) -> Seq<int> {
        Seq::empty()
    }

    open spec fn weak_refs(&self) -> Seq<int> {
        Seq::empty()
    }

    fn trace(&self, c: &mut Collector) {
        proof {
            assert(c.strongs() =~= old(c).strongs() + self.strong_refs());
            assert(c.weaks() =~= old(c).weaks() + self.weak_refs());
        }
    }
}

impl Collect for u8 {
    open spec fn strong_refs(&self) -> Seq<int> {
        Seq::empty()
    }

    open spec fn weak_refs(&self) -> Seq<int> {
        Seq::empty()
    }

    fn trace(&self, c: &mut Collector) {
        proof {
            assert(c.strongs() =~= old(c).strongs() + self.strong_refs());
            assert(c.weaks() =~= old(c).weaks() + self.weak_refs());
        }
    }
}

impl Collect for u16 {
    open spec fn strong_refs(&self) -> Seq<int> {
        Seq::empty()
    }

    open spec fn weak_refs(&self) -> Seq<int> {
        Seq::empty()
    }

    fn trace(&self, c: &mut Collector) {
        proof {
            assert(c.strongs() =~= old(c).strongs() + self.strong_refs());
            assert(c.weaks() =~= old(c).weaks() + self.weak_refs());
        }
    }
}

impl Collect for u32 {
    open spec fn strong_refs(&self) -> Seq<int> {
        Seq::empty()
    }

    open spec fn weak_refs(&self) -> Seq<int> {
        Seq::empty()
    }

    fn trace(&self, c: &mut Collector) {
        proof {
            assert(c.strongs() =~= old(c).strongs() + self.strong_refs());
            assert(c.weaks() =~= old(c).weaks() + self.weak_refs());
        }
    }
}

impl Collect for u64 {
    open spec fn strong_refs(&self) -> Seq<int> {
        Seq::empty()
    }

    open spec fn weak_refs(&self) -> Seq<int> {
        Seq::empty()
    }

    fn trace(&self, c: &mut Collector) {
        proof {
            assert(c.strongs() =~= old(c).strongs() + self.strong_refs());
            assert(c.weaks() =~= old(c).weaks() + self.weak_refs());
        }
    }
}

impl Collect for u128 {
    open spec fn strong_refs(&self) -> Seq<int> {
        Seq::empty()
    }

    open spec fn weak_refs(&self) -> Seq<int> {
        Seq::empty()
    }

    fn trace(&self, c: &mut Collector) {
        proof {
            assert(c.strongs() =~= old(c).strongs() + self.strong_refs());
            assert(c.weaks() =~= old(c).weaks() + self.weak_refs());
        }
    }
}

impl Collect for usize {
    open spec fn strong_refs(&self) -> Seq<int> {
        Seq::empty()
    }

    open spec fn weak_refs(&self) -> Seq<int> {
        Seq::empty()
    }

    fn trace(&self, c: &mut Collector) {
        proof {
            assert(c.strongs() =~= old(c).strongs() + self.strong_refs());
            assert(c.weaks() =~= old(c).weaks() + self.weak_refs());
        }
    }
}

impl Collect for i8 {
    open spec fn strong_refs(&self) -> Seq<int> {
        Seq::empty()
    }

    open spec fn weak_refs(&self) -> Seq<int> {
        Seq::empty()
    }

    fn trace(&self, c: &mut Collector) {
        proof {
            assert(c.strongs() =~= old(c).strongs() + self.strong_refs());
            assert(c.weaks() =~= old(c).weaks() + self.weak_refs());
        }
    }
}

impl Collect for i16 {
    open spec fn strong_refs(&self) -> Seq<int> {
        Seq::empty()
    }

    open spec fn weak_refs(&self) -> Seq<int> {
        Seq::empty()
    }

    fn trace(&self, c: &mut Collector) {
        proof {
            assert(c.strongs() =~= old(c).strongs() + self.strong_refs());
            assert(c.weaks() =~= old(c).weaks() + self.weak_refs());
        }
    }
}

impl Collect for i32 {
    open spec fn strong_refs(&self) -> Seq<int> {
        Seq::empty()
    }

    open spec fn weak_refs(&self) -> Seq<int> {
        Seq::empty()
    }

    fn trace(&self, c: &mut Collector) {
        proof {
            assert(c.strongs() =~= old(c).strongs() + self.strong_refs());
            assert(c.weaks() =~= old(c).weaks() + self.weak_refs());
        }
    }
}

impl Collect for i64 {
    open spec fn strong_refs(&self) -> Seq<int> {
        Seq::empty()
    }

    open spec fn weak_refs(&self) -> Seq<int> {
        Seq::empty()
    }

    fn trace(&self, c: &mut Collector) {
        proof {
            assert(c.strongs() =~= old(c).strongs() + self.strong_refs());
            assert(c.weaks() =~= old(c).weaks() + self.weak_refs());
        }
    }
}

impl Collect for i128 {
    open spec fn strong_refs(&self) -> Seq<int> {
        Seq::empty()
    }

    open spec fn weak_refs(&self) -> Seq<int> {
        Seq::empty()
    }

    fn trace(&self, c: &mut Collector) {
        proof {
            assert(c.strongs() =~= old(c).strongs() + self.strong_refs());
            assert(c.weaks() =~= old(c).weaks() + self.weak_refs());
        }
    }
}

impl Collect for isize {
    open spec fn strong_refs(&self) -> Seq<int> {
        Seq::empty()
    }

    open spec fn weak_refs(&self) -> Seq<int> {
        Seq::empty()
    }

    fn trace(&self, c: &mut Collector) {
        proof {
            assert(c.strongs() =~= old(c).strongs() + self.strong_refs());
            assert(c.weaks() =~= old(c).weaks() + self.weak_refs());
        }
    }
}

impl Collect for () {
    open spec fn strong_refs(&self) -> Seq<int> {
        Seq::empty()
    }

    open spec fn weak_refs(&self) -> Seq<int> {
        Seq::empty()
    }

    fn trace(&self, c: &mut Collector) {
        proof {
            assert(c.strongs() =~= old(c).strongs() + self.strong_refs());
            assert(c.weaks() =~= old(c).weaks() + self.weak_refs());
        }
    }
}

impl Collect for String {
    open spec fn strong_refs(&self) -> Seq<int> {
        Seq::empty()
    }

    open spec fn weak_refs(&self) -> Seq<int> {
        Seq::empty()
    }

    fn trace(&self, c: &mut Collector) {
        proof {
            assert(c.strongs() =~= old(c).strongs() + self.strong_refs());
            assert(c.weaks() =~= old(c).weaks() + self.weak_refs());
        }
    }
}

} // verus!
