//! Timers on a hashed timing wheel.
//!
//! A [`Timer`] holds timeouts and hands out their states when they are due. Time is
//! counted in ticks of a fixed length; a [`Builder`] sets the length, the number of
//! slots of the wheel and how many timeouts can be pending.
//!
//! The contracts speak of [`model::TimerView`], the timer as a mathematical object;
//! [`laws`] holds what follows for it as a whole.
pub mod builder;
pub mod clock;
pub mod draining;
pub mod error;
pub mod laws;
pub mod lemmas;
pub mod links;
pub mod model;
pub mod promises;
pub mod readiness;
pub mod registration;
pub mod timer;

pub use builder::Builder;
pub use clock::ClockError;
pub use error::{OldTimerResult, TimerError, TimerErrorKind, TimerResult};
pub use timer::{Timeout, Timer};
