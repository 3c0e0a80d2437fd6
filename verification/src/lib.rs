//! Next-occurrence computation for multi-field recurring schedules.
//!
//! A schedule names, for each calendar field, the values the field may take;
//! the search walks forward from a reference time to the first time at which
//! every field holds an allowed value.

pub mod calendar;
pub mod constraint;
pub mod error;
pub mod field;
pub mod laws;
pub mod search;
pub mod text;
pub mod weekday;

pub use crate::calendar::{Date, LocalTime};
pub use crate::constraint::FieldConstraint;
pub use crate::error::{IntErrorKind, ParseError};
pub use crate::field::parse_field;
pub use crate::search::{Reading, Schedule, TimerConfig, Unit};
pub use crate::weekday::Dow;
