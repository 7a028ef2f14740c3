//! Biased reference counting.

pub mod allocator;
pub mod conversions;
pub mod effects;
pub mod error;
pub mod header;
pub mod heap;
pub mod interleaving;
pub mod laws;
pub mod layout;
pub mod object;
pub mod packed;
pub mod pointee;
pub mod registry;
pub mod runtime;
pub mod strong;
pub mod thread_id;
pub mod threads;
pub mod transition;
pub mod uninit;
pub mod unique;
pub mod values;
pub mod weak;
pub mod word;
pub mod world;

pub use crate::allocator::{Allocator, Global};
pub use crate::error::{BiasedCountError, ImpreciseRefCountError};
pub use crate::runtime::{collect, collect_force, Runtime};
pub use crate::strong::{Brc, PinnedBrc};
pub use crate::uninit::UniqueUninitBrc;
pub use crate::unique::UniqueBrc;
pub use crate::weak::Weak;
