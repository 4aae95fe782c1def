//! The per-allocation record: mark colour, retention status and payload.
//!
//! The heap is a vector of `GcBox` records with stable indices; handles refer
//! to a record by its index and records are never moved or renumbered, so a
//! handle can always be checked against the record it names.  A record whose
//! payload has been dropped is either retained as a dead placeholder (so weak
//! handles observe "collected" rather than a recycled slot) or marked vacant
//! once nothing can name it validly any more.

use vstd::prelude::*;

verus! {

/// The tri-colour mark state of one allocation, extended with a `Weak` shade
/// for records that are only reachable through weak handles.
#[derive(Clone, Copy, PartialEq, Eq, Structural, Debug, Hash)]
pub enum Colour {
    /// Not yet discovered by the current cycle's marking; collectable.
    White,
    /// Discovered only through a weak handle; the payload is collectable but
    /// the record itself is retained as a dead placeholder.
    Weak,
    /// Discovered by marking, children not yet traced; on the worklist.
    Gray,
    /// Discovered by marking and fully traced; retained.
    Black,
}

/// One allocation record.
///
/// `present` distinguishes a record that still occupies its slot (live, or a
/// retained dead placeholder) from a vacated one.  A vacated slot keeps its
/// index forever, so a stale handle is detected instead of aliasing a newer
/// allocation.
pub struct GcBox<T> {
    /// Mark state for the current or most recent collection cycle.
    pub colour: Colour,
    /// False once the record has been removed by a sweep; its index is
    /// never reused.
    pub present: bool,
    /// The stored value; `None` when the record is uninitialised or its
    /// payload has been dropped.
    pub payload: Option<T>,
}

impl<T> GcBox<T> {
    /// A record holds a readable value exactly when it is present and its
    /// payload has been written and not yet dropped.
    pub open spec fn is_live(&self) -> bool {
        self.present && self.payload is Some
    }

    /// A freshly allocated, initialised record.  New allocations are coloured
    /// Black: they are exempt from the cycle in progress and are recoloured
    /// White when the next cycle begins.
    pub fn new(value: T) -> (b: GcBox<T>)
        ensures
            b.colour == Colour::Black,
            b.present,
            b.payload == Some(value),
            b.is_live(),
    {
        GcBox { colour: Colour::Black, present: true, payload: Some(value) }
    }

    /// A freshly allocated record whose payload has not been written yet.
    pub fn new_uninit() -> (b: GcBox<T>)
        ensures
            b.colour == Colour::Black,
            b.present,
            b.payload is None,
            !b.is_live(),
    {
        GcBox { colour: Colour::Black, present: true, payload: None }
    }

    /// The record's current mark colour.
    pub fn colour(&self) -> (c: Colour)
        ensures
            c == self.colour,
    {
        self.colour
    }

    /// Recolours the record, leaving status and payload untouched.
    pub fn set_colour(&mut self, c: Colour)
        ensures
            *final(self) == (GcBox { colour: c, ..*old(self) }),
    {
        self.colour = c;
    }

    /// Whether the payload has been written and not yet dropped.
    pub fn is_initialized(&self) -> (r: bool)
        ensures
            r == (self.payload is Some),
    {
        self.payload.is_some()
    }

    /// Drops the payload, if any, keeping the record itself in place.
    pub fn set_uninit(&mut self)
        ensures
            *final(self) == (GcBox { payload: None, ..*old(self) }),
    {
        self.payload = None;
    }
}

} // verus!
