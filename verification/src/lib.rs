//! Core of a vanity-address search tool: a pattern matcher that classifies
//! candidate address strings against configured patterns, and the counter
//! state machine behind a concurrent progress tracker.

pub mod matcher;
pub mod progress;
