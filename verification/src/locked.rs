//! Shareable containers for values stored behind a [`Gc`](crate::Gc).
//!
//! In this design mutation of a stored payload goes through the arena's
//! write-barrier entry points, which re-gray the mutated allocation before
//! handing out mutable access.  The cells here therefore carry no interior
//! mutability of their own: they are plain single-owner wrappers whose
//! mutating accessors demand `&mut`, obtainable only through a barriered
//! path, and whose tracing forwards to the wrapped value.

use vstd::prelude::*;

use crate::collect::{Collect, Collector};

verus! {

/// A cell holding a copyable value.
pub struct LockedCell<T> {
    /// The wrapped value.
    pub value: T,
}

impl<T> LockedCell<T> {
    /// Wraps a value.
    pub fn new(value: T) -> (c: LockedCell<T>)
        ensures
            c.value == value,
    {
        LockedCell { value }
    }

    /// Unwraps the cell.
    pub fn into_inner(self) -> (v: T)
        ensures
            v == self.value,
    {
        self.value
    }

    /// Mutable access to the contents; requires exclusive access to the
    /// cell, which the write barrier grants.
    pub fn get_mut(&mut self) -> (r: &mut T)
        ensures
            *r == old(self).value,
            final(self).value == *final(r),
    {
        &mut self.value
    }

    /// Replaces the contents, returning the previous value.
    pub fn replace(&mut self, value: T) -> (prev: T)
        ensures
            prev == old(self).value,
            final(self).value == value,
    {
        let mut value = value;
        core::mem::swap(&mut self.value, &mut value);
        value
    }
}

impl<T: Copy> LockedCell<T> {
    /// A copy of the contents.
    pub fn get(&self) -> (v: T)
        ensures
            v == self.value,
    {
        self.value
    }

    /// Stores a new value.
    pub fn set(&mut self, value: T)
        ensures
            final(self).value == value,
    {
        self.value = value;
    }
}

impl<T: Collect> Collect for LockedCell<T> {
    open spec fn strong_refs(&self) -> Seq<int> {
        self.value.strong_refs()
    }

    open spec fn weak_refs(&self) -> Seq<int> {
        self.value.weak_refs()
    }

    fn trace(&self, c: &mut Collector) {
        self.value.trace(c);
    }
}

/// A cell holding an arbitrary value, read through shared borrows.
pub struct LockedRefCell<T> {
    /// The wrapped value.
    pub value: T,
}

impl<T> LockedRefCell<T> {
    /// Wraps a value.
    pub fn new(value: T) -> (c: LockedRefCell<T>)
        ensures
            c.value == value,
    {
        LockedRefCell { value }
    }

    /// Unwraps the cell.
    pub fn into_inner(self) -> (v: T)
        ensures
            v == self.value,
    {
        self.value
    }

    /// Read access to the contents.
    pub fn borrow(&self) -> (r: &T)
        ensures
            *r == self.value,
    {
        &self.value
    }

    /// Mutable access to the contents; requires exclusive access to the
    /// cell, which the write barrier grants.
    pub fn get_mut(&mut self) -> (r: &mut T)
        ensures
            *r == old(self).value,
            final(self).value == *final(r),
    {
        &mut self.value
    }
}

impl<T: Collect> Collect for LockedRefCell<T> {
    open spec fn strong_refs(&self) -> Seq<int> {
        self.value.strong_refs()
    }

    open spec fn weak_refs(&self) -> Seq<int> {
        self.value.weak_refs()
    }

    fn trace(&self, c: &mut Collector) {
        self.value.trace(c);
    }
}

/// A cell that is either empty or holds one value.
pub struct LockedOnceCell<T> {
    /// The wrapped value, if one has been stored.
    pub value: Option<T>,
}

impl<T> LockedOnceCell<T> {
    /// An empty cell.
    pub fn new() -> (c: LockedOnceCell<T>)
        ensures
            c.value is None,
    {
        LockedOnceCell { value: None }
    }

    /// Read access to the contents, if any.
    pub fn get(&self) -> (r: Option<&T>)
        ensures
            match r {
                Some(v) => self.value == Some(*v),
                None => self.value is None,
            },
    {
        self.value.as_ref()
    }

    /// Fills an empty cell; a full cell rejects the value unchanged.
    pub fn set(&mut self, value: T) -> (r: Result<(), T>)
        ensures
            match old(self).value {
                Some(_) => r == Result::<(), T>::Err(value) && *final(self) == *old(self),
                None => r is Ok && final(self).value == Some(value),
            },
    {
        if self.value.is_some() {
            Err(value)
        } else {
            self.value = Some(value);
            Ok(())
        }
    }

    /// Unwraps the cell.
    pub fn into_inner(self) -> (v: Option<T>)
        ensures
            v == self.value,
    {
        self.value
    }

    /// Mutable access to the contents, if any; requires exclusive access
    /// to the cell, which the write barrier grants.
    pub fn get_mut(&mut self) -> (r: Option<&mut T>)
        ensures
            match r {
                Some(v) => old(self).value == Some(*v) && final(self).value == Some(*final(v)),
                None => old(self).value is None && final(self).value is None,
            },
    {
        self.value.as_mut()
    }

    /// Empties the cell, returning the previous contents.
    pub fn take(&mut self) -> (v: Option<T>)
        ensures
            v == old(self).value,
            final(self).value is None,
    {
        self.value.take()
    }
}

impl<T: Collect> Collect for LockedOnceCell<T> {
    open spec fn strong_refs(&self) -> Seq<int> {
        match self.value {
            Some(v) => v.strong_refs(),
            None => Seq::empty(),
        }
    }

    open spec fn weak_refs(&self) -> Seq<int> {
        match self.value {
            Some(v) => v.weak_refs(),
            None => Seq::empty(),
        }
    }

    fn trace(&self, c: &mut Collector) {
        match &self.value {
            Some(v) => v.trace(c),
            None => {
                proof {
                    assert(c.strongs() =~= old(c).strongs() + self.strong_refs());
                    assert(c.weaks() =~= old(c).weaks() + self.weak_refs());
                }
            },
        }
    }
}

} // verus!
