//! The interactive dashboard: log capture, key and event handling, editing
//! of the custom list, and the single-update rule.

pub mod edit;
pub mod events;
pub mod input;
pub mod logs;
pub mod update;
