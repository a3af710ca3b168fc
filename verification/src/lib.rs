//! Decision logic of a two-leg momentum trader for five-minute binary markets.
//!
//! The bot watches an asset's order book. When the price has moved far enough
//! since the market opened, and the book leans the same way, it buys the token
//! of that outcome (the first leg). As soon as that is filled it bids for the
//! token of the other outcome, at the highest price that still leaves a profit
//! (the second leg). One of the two pays a dollar, so with both filled the
//! profit is locked; without the second leg the first one is sold before the
//! market ends.
//!
//! [`engine`] says what follows from each event. It rests on the [`strategy`],
//! the [`indicators`] over the market data of the [`feeds`], the limits and the
//! order handling of [`execution`], and the markets of [`market_discovery`].
//! [`engine_rules`] states what its decisions add up to.
//! Prices are IEEE doubles, computed and reasoned about in [`number`].

pub mod config;
pub mod engine;
pub mod engine_rules;
pub mod execution;
pub mod feeds;
pub mod indicators;
pub mod market_discovery;
pub mod number;
pub mod strategy;
pub mod utils;
