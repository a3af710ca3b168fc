//! Market data: what the sources send and how it is read.

pub mod chainlink;
pub mod hyperliquid;
pub mod polymarket;
pub mod session;
pub mod wire;

pub use hyperliquid::HlEvent;
pub use polymarket::PolyEvent;
