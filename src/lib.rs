//! Countdown timers shown in rotation on a shared screen.
//!
//! The crate models each timer's remaining time, the stack of timers whose head
//! is the emphasised one, the rotation of that stack and the delay before the
//! next rotation, and the small form that creates timers.

pub mod clock;
pub mod timer;
pub mod stack;
pub mod creator;
