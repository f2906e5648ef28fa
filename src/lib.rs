//! Cinema showtimes: day labels and clock strings resolved to day numbers and
//! minutes, listing pages read into a schedule, and the state that a front end
//! keeps around it.

pub mod text;
pub mod clock;
pub mod schedule;
pub mod listing;
pub mod fetch;
pub mod detail;
pub mod state;
pub mod cache;
