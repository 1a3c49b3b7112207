//! Scrivener (`.scriv`) projects: their binder model, the checks applied to
//! names taken from them, and conversion to and from `.chikn` projects.
pub mod scrivx;
pub mod exporter;
pub mod converter;
pub mod direction;
pub mod binder_lines;
