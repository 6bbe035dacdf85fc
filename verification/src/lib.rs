//! Renders an ASCII message into the weekly grid of a contribution calendar
//! and plans, day by day, how many events each calendar day receives.
//!
//! * [`calendar`]: calendar days, the Sunday that opens the 52-week window,
//!   and the cursor that walks the window up to today.
//! * [`font`]: seven-row glyphs and the table that maps characters to them.
//! * [`grid`]: the message laid out as one cell per day.
//! * [`schedule`]: the fill policy and the number of events per cell.

pub mod calendar;
pub mod font;
pub mod grid;
pub mod schedule;
