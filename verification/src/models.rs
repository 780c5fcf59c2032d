//! The records that the keeper holds.

pub mod challenge;
pub mod completion;
pub mod event;
pub mod roster;
pub mod scenario;
pub mod set;
pub mod user;
