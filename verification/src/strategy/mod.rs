//! Trading strategies.
pub mod causality;
pub mod detector;
pub mod detector_laws;
pub mod gap_swing;
pub mod gate_laws;
pub mod gates;
pub mod intent_laws;
pub mod intents;
pub mod ledger;
pub mod pairing;
pub mod pairing_laws;
pub mod pairing_replay;
pub mod replay_laws;
pub mod sides;
pub mod tape;
pub mod swing_laws;
pub mod swings;
pub mod sim;
pub mod sim_laws;
pub mod trades;
pub mod venue_engine;
pub mod venue_laws;
pub mod venue_swing;
pub mod window;
pub mod window_laws;

pub use detector::{CaptureSignal, TrendDetector};
pub use gap_swing::{run_window as run_gap_swing_window, GapSwingEngine};
pub use pairing::PairingEngine;
pub use pairing_replay::run_pairing_window;
pub use sides::PositionSide;
pub use trades::BotAction;
pub use venue_engine::VenueSwingEngine;
pub use venue_swing::{run_venue_swing_window, VENUE_TAKER_DELAY_MS};
