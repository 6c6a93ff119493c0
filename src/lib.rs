//! A bounded membership filter: it remembers which messages it has seen, for how long
//! and how often, and forgets them by age, by count, or both.

mod clock;
pub mod entry;
pub mod filter;
pub mod laws;
pub mod model;

pub use entry::{TimeToLive, TimestampedMessage};
pub use filter::MessageFilter;
