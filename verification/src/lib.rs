//! Minit: a small to-do list that suggests what to work on next, given how
//! many minutes are free right now.
//!
//! The library holds the task list and every rule that acts on it: adding,
//! toggling, skipping, deleting and clearing tasks, the filtered views, and
//! the suggestion of what to do next. Time, identifiers and whitespace
//! trimming come from `chrono`, `uuid` and `std` through the trusted items of
//! `stamp`, `ids` and `text`.

pub mod ids;
pub mod laws;
pub mod stamp;
pub mod planner;
pub mod task;
pub mod text;

pub use ids::new_id;
pub use stamp::Stamp;
pub use task::{Filter, Priority, Rgb, Task};
pub use planner::{MinitApp, Pool, Preferences, Suggestion};
