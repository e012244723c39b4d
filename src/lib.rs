//! Activity-tracking and time-accounting engine: tracking spaces, accumulated
//! time entries, and the decisions of the polling loop, with their contracts.

pub mod model;
pub mod matching;
pub mod document;
pub mod tracking;

pub use model::{AppSettings, AppState, RunningApp, TimeEntry, TrackingSpace, TrackingState};
