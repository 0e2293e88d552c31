//! Event-source decisions: which watch strategy a pass uses and which
//! filesystem notifications trigger a new pass.

use vstd::prelude::*;

verus! {

/// The two interchangeable event-source strategies, selected once at startup.
#[derive(Clone, Copy, PartialEq, Eq, Structural, Debug)]
pub enum WatchStrategy {
    /// Subscribe to live filesystem notifications under the root.
    Reactive,
    /// Rescan the root at a fixed interval; used for remote mounts where
    /// native notifications are unreliable.
    PollFallback,
}

/// The kinds of filesystem notification the pipeline distinguishes.
#[derive(Clone, Copy, PartialEq, Eq, Structural, Debug)]
pub enum FsEventKind {
    Create,
    Modify,
    Remove,
    Access,
    Other,
}

/// A remote (SMB) mount gets the polling fallback; every other root gets the
/// live notification subscriber.
pub fn choose_strategy(is_smb: bool) -> (r: WatchStrategy)
    ensures
        r == (if is_smb {
            WatchStrategy::PollFallback
        } else {
            WatchStrategy::Reactive
        }),
{
    if is_smb {
        WatchStrategy::PollFallback
    } else {
        WatchStrategy::Reactive
    }
}

/// Create and modify notifications trigger one full pass; removals,
/// metadata-only events and everything else are ignored.
pub fn event_triggers_pass(kind: FsEventKind) -> (r: bool)
    ensures
        r == (kind == FsEventKind::Create || kind == FsEventKind::Modify),
{
    match kind {
        FsEventKind::Create => true,
        FsEventKind::Modify => true,
        _ => false,
    }
}

} // verus!
