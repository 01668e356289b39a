//! A tempo clock: musical time in exact fractions of a tick, paced against the
//! monotonic clock, with tap tempo and a hub that routes control and updates.
pub mod clock;
pub mod interface;
pub mod metronome;
pub mod rational;
pub mod signature;
pub mod time;
pub mod timer;
