//! Time spans for a practice tracker: reading human-written span expressions
//! into exact durations, and unrolling durations over calendar-like units
//! for display.
pub mod aliases;
pub mod decimal;
pub mod duration;
pub mod flat;
pub mod grammar;
pub mod laws;
pub mod order;
pub mod reread;
pub mod span;
pub mod units;

pub use crate::duration::Duration;
pub use crate::flat::FlatTime;
pub use crate::grammar::{Expected, Rejection, SpanElement};
pub use crate::span::{parse_time_span, ParseError, SystemDStyleTimeParser, TimeSpanMatch};
pub use crate::units::TimeUnit;
