//! Which market is open, and under what name.

pub mod gamma;
pub mod slug;

pub use gamma::MarketInfo;
pub use slug::{next_slug, secs_remaining};
