//! ADS-B feeds: position-source enrichment and feed connection bookkeeping.

pub mod connection;
pub mod enrichment;
