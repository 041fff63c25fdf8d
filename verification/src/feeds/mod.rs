//! Feeds: what their messages say.
pub mod binance;
pub mod chainlink;
pub mod coinbase;
pub mod laws;
pub mod polymarket;
pub mod ptb_twap;

pub use binance::BtcQuote;
pub use polymarket::PolyQuote;
