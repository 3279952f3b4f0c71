//! The order book and event queue of one market, as laid out in account data.

pub mod bytes;
pub mod cast;
pub mod error;
pub mod flags;
pub mod header;
pub mod market;
pub mod queue;
pub mod slab;
pub mod tree;

pub use crate::dex::error::FormatError;
pub use crate::dex::flags::{AccountFlag, EventFlag, Side};
pub use crate::dex::market::{Order, ZoDexMarket};
pub use crate::dex::queue::{Event, EventQueueHeader, Replay};
pub use crate::dex::slab::{InnerNode, LeafNode, Slab, SlabIter, SlabNode};
