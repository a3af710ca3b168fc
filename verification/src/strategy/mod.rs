//! The two-leg strategy: when to enter, and how a position is locked.

pub mod leg_manager;
pub mod params;
pub mod profit;
pub mod signal;

pub use leg_manager::{LegAction, LegManager, LegState};
pub use params::StrategyParams;
pub use signal::{evaluate_entry, Leg1Side};
