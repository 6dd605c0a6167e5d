//! A verified media catalog with a play-session tracker.
//!
//! The crate models a catalog of albums and a log of playback sessions
//! against it.  The session tracker owns the open/finished state machine
//! (at most one open session per album) and the duration accounting that
//! turns a pair of RFC 3339 timestamps into a display label.

pub mod duration;
mod history;
pub mod laws;
pub mod model;
pub mod store;
pub mod time;
