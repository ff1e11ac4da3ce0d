//! An in-memory key-value store in which every entry carries its own
//! time-to-live.  A lookup treats an entry past its deadline as absent, so
//! expired data becomes invisible without any background eviction; storage is
//! reclaimed lazily, by the operations that happen to observe stale entries.
//!
//! All instants and durations are whole nanoseconds held in `u64`.  Every
//! operation that consults the clock delegates to a sibling ending in `_at`
//! that takes the current instant as an argument; those siblings carry the
//! exact contracts and can be driven deterministically.

mod clock;

pub mod cache;
pub mod laws;
pub mod model;
pub mod record;

pub use cache::Entry;
pub use cache::Iter;
pub use cache::IterMut;
pub use cache::OccupiedEntry;
pub use cache::TtlCache;
pub use cache::VacantEntry;
pub use record::InternalEntry;
