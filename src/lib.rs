//! The simulation core of a satirical management game: a stock market, a botnet, a
//! parliament that votes on laws and a news feed, cross-wired by queued effects.
pub mod fixed;
mod random;
pub mod modifier;
pub mod state;
pub mod botnet;
pub mod effect;
pub mod market;
pub mod news;
pub mod parlament;
pub mod orchestrator;
