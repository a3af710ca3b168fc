//! What the market data says: prices since the open, momentum, book imbalance.

pub mod book_imbalance;
pub mod momentum;
pub mod price_aggregator;

pub use book_imbalance::BookImbalanceTracker;
pub use momentum::MomentumTracker;
pub use price_aggregator::PriceAggregator;
