//! Core of a single-line public-transit schedule server: calendar
//! resolution of which services run on a date, day-scoped queries over an
//! immutable timetable snapshot, merging of theoretical stop-times with a
//! live vehicle-call feed, and the timing state machine that keeps the
//! snapshot fresh.

pub mod calendar;
pub mod exceptions;
pub mod mock;
pub mod realtime;
pub mod refresh;
pub mod stop_id;
pub mod text;
pub mod timetable;
pub mod tz;
