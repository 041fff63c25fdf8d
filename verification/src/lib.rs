//! Decision logic of a trading bot for five-minute bitcoin up/down markets.
pub mod bot;
pub mod calendar;
pub mod clob;
pub mod config;
pub mod decimal;
pub mod dry_fills;
pub mod feeds;
pub mod fifo;
pub mod gamma;
pub mod json;
pub mod order_laws;
pub mod pnl;
pub mod pnl_laws;
pub mod poly_book;
pub mod reading_laws;
pub mod replay;
pub mod strategy;
pub mod subscriptions;
pub mod text;
pub mod units;
