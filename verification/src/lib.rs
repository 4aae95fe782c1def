//! An embeddable incremental tracing garbage collector.
//!
//! An [`Arena`] owns a heap of allocation records and a single root value.
//! Values stored in the heap describe their outgoing references through the
//! [`Collect`] trait; the collector runs a tri-colour incremental
//! mark-and-sweep over the resulting object graph, driven explicitly by the
//! host through [`Arena::run_collection`] (one bounded step) or
//! [`Arena::complete_collection`] (run to quiescence).
//!
//! Handles ([`Gc`], [`UniqueGc`], [`Weak`]) are indices into the heap.  Slot
//! indices are never reused, so a weak handle whose target has been collected
//! always observes "absent" instead of aliasing a newer allocation.

mod arena;
mod collect;
mod context;
mod gc;
mod gc_box;
mod gc_weak;
pub mod laws;
pub mod locked;
pub mod marking;
pub mod reach;
mod unique_gc;

pub use arena::Arena;
pub use collect::{Collect, Collector};
pub use context::{CollectionPhase, Context, Mutation, Pacing};
pub use gc::Gc;
pub use gc_box::{Colour, GcBox};
pub use gc_weak::Weak;
pub use unique_gc::UniqueGc;
