//! Batch renaming: a placeholder template language, value providers over
//! regex captures or plain lists, candidate sources, and a rename planner
//! that decides targets under a collision-avoidance and dry-run policy.

pub mod decimal;
pub mod errors;
pub mod model;
pub mod natural;
pub mod paths;
pub mod pattern;
pub mod provider;
pub mod rename;
pub mod source;
pub mod template;
