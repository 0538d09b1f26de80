//! Market-state aggregation engine for a high-frequency exchange feed.
//!
//! The engine reconstructs an order book from a snapshot plus a diff stream,
//! folds minute candles with a running cumulative volume delta, buckets raw
//! trades per candle on demand, and keeps a rolling trade-sentiment window.
//! All prices, quantities and volumes are fixed-point integers: a value
//! carries `scale` decimal digits, so a price string `"100.04"` read at
//! scale 2 becomes `10004`. This keeps every derived statistic exact and
//! free of floating-point drift.

pub mod book;
pub mod bucket;
pub mod candles;
pub mod decimal;
pub mod events;
pub mod footprint;
pub mod oi;
pub mod sentiment;
pub mod state;
