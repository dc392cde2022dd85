//! Core of a terminal viewer for a planner feed: decoding of the feed,
//! grouping of its items into calendar days, and the reducer that applies
//! the ordered stream of actions to the viewer's state.

pub mod event;
pub mod json;
pub mod decode;
pub mod calendar;
pub mod reducer;
pub mod loader;
pub mod laws;
