//! The rule that at most one manual update of the remote lists runs, and
//! only when remote lists are configured.

use vstd::prelude::*;
use std::sync::atomic::{AtomicBool, Ordering};
use crate::loader::Config;

verus! {

/// Whether a manual update may start.
#[derive(Debug, Clone, Copy, PartialEq, Eq, Structural)]
pub enum UpdateDecision {
    /// No remote lists are configured: nothing to update.
    NoRemoteSources,
    /// An update is already running.
    AlreadyRunning,
    /// The update may start; the running flag is now set.
    Start,
}

/// The decision, given whether remote lists are configured and whether an
/// update was already running when the flag was claimed.
pub open spec fn decide_update(has_remote: bool, was_running: bool) -> UpdateDecision {
    if !has_remote {
        UpdateDecision::NoRemoteSources
    } else if was_running {
        UpdateDecision::AlreadyRunning
    } else {
        UpdateDecision::Start
    }
}

/// The decision, given the configuration and what claiming the running flag
/// reported (whether it was already set).
pub fn update_decision(config: &Config, was_running: bool) -> (g: UpdateDecision)
    ensures
        g == decide_update(config.blocklist.remote_lists@.len() > 0, was_running),
{
    if config.blocklist.remote_lists.len() == 0 {
        UpdateDecision::NoRemoteSources
    } else if was_running {
        UpdateDecision::AlreadyRunning
    } else {
        UpdateDecision::Start
    }
}

/// Decides whether a manual update may start: without remote lists it may
/// not, and the flag is left alone; otherwise the flag is claimed, and the
/// update may start unless it was already set. Which of the last two comes
/// out depends on the other holders of the flag.
pub fn claim_update(config: &Config, updating: &AtomicBool) -> (g: UpdateDecision)
    ensures
        config.blocklist.remote_lists@.len() == 0 <==> g == UpdateDecision::NoRemoteSources,
{
    if config.blocklist.remote_lists.len() == 0 {
        return UpdateDecision::NoRemoteSources;
    }
    let was_running = updating.swap(true, Ordering::SeqCst);
    update_decision(config, was_running)
}

} // verus!
