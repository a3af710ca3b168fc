//! Orders, their risks and results, and the redemption of what was won.

pub mod decimal;
pub mod identifiers;
pub mod order_builder;
pub mod portfolio;
pub mod redeemer;
pub mod risk;
pub mod tracker;

pub use order_builder::{OrderExecutor, OrderRequest, OrderRequestKind, OrderResult};
pub use portfolio::{ActiveTrade, PortfolioState, RiskStatus, TradeLogEntry};
pub use redeemer::{RedeemCommand, Redeemer};
pub use risk::RiskManager;
pub use tracker::OrderTracker;
