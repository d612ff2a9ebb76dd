//! Blocklist source handling and the decision logic of the interactive
//! dashboard of the Skypier Blackhole DNS daemon.

pub mod domains;
pub mod loader;
pub mod text;
pub mod tui;
