//! Merges price-level order-book snapshots from several market-data sources
//! into one depth-limited book, with exact decimal prices and amounts.

pub mod decimal;
pub mod exchanges;
pub mod merge;
pub mod order_book;
pub mod ranking;
