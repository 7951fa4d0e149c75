//! Single-owner wrappers for allocations adopted from a foreign allocator.
//!
//! The crate models an adopted allocation as a base address (`usize`, where
//! `0` stands for the null address) together with the values stored there.
//! Construction validates the address/length discipline and, for text, the
//! encoding; release yields the exact sequence of destruction and
//! deallocation actions owed for the region.

pub mod utf8;
pub mod owned;

pub use owned::AdoptError;
pub use owned::Malloc;
pub use owned::ReleaseAction;
pub use owned::SENTINEL_ADDR;
pub use owned::spec_release_plan;
pub use utf8::first_zero_index;
pub use utf8::is_utf8;
