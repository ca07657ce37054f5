//! The market-data sources: what each one connects to, how its messages
//! become updates, and the cycle of connecting, streaming and retrying that
//! every source runs through.

pub mod binance;
pub mod bitstamp;
pub mod connector;
