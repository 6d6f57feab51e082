//! A periodic market-data pipeline: requests are scheduled per symbol, the
//! returned series are normalized and ordered, and the resulting records are
//! kept in a bounded newest-first buffer that answers snapshot queries.
pub mod buffer;
pub mod process;
pub mod query;
pub mod schedule;
pub mod series;
