//! Verified core of `kmq`, a query tool for hourly KOSPI / KOSDAQ / USDKRW quotes.
pub mod calendar;
pub mod clock;
pub mod commands;
pub mod config;
pub mod deltas;
pub mod error;
pub mod quote;
pub mod ranges;
pub mod text;
pub mod schedule;
pub mod status;
pub mod symbol;
pub mod table;
