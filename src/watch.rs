//! The decisions of the watch loop. The loop itself waits on the file watcher,
//! runs builds and signals reloads; each thing it hears is handed to `next_action`.

use vstd::prelude::*;

verus! {

/// What the watch loop hears.
#[derive(Debug)]
pub enum WatchEvent {
    /// The watcher delivered one debounced batch of `changes` changes under the input root.
    Changed { changes: usize },
    /// The watcher failed.
    WatchFailed,
    /// A rebuild finished, successfully or not.
    Built { ok: bool },
}

/// What the watch loop does next.
#[derive(Debug, PartialEq, Eq, Structural)]
pub enum WatchAction {
    /// Run one full build.
    Rebuild,
    /// Tell the reload listener that the output changed.
    Reload,
    /// Report the build failure and keep watching.
    Report,
    /// Stop watching: the watcher cannot go on.
    Stop,
}

pub open spec fn watch_action(e: WatchEvent) -> WatchAction {
    match e {
        WatchEvent::Changed { .. } => WatchAction::Rebuild,
        WatchEvent::WatchFailed => WatchAction::Stop,
        WatchEvent::Built { ok } => if ok {
            WatchAction::Reload
        } else {
            WatchAction::Report
        },
    }
}

/// One batch of changes gives one rebuild; a finished build gives a reload or a
/// report; only a failing watcher stops the loop.
pub fn next_action(e: &WatchEvent) -> (r: WatchAction)
    ensures
        r == watch_action(*e),
{
    match e {
        WatchEvent::Changed { .. } => WatchAction::Rebuild,
        WatchEvent::WatchFailed => WatchAction::Stop,
        WatchEvent::Built { ok } => if *ok {
            WatchAction::Reload
        } else {
            WatchAction::Report
        },
    }
}

/// However many changes the watcher coalesced into one batch, the batch gives
/// exactly one rebuild.
pub proof fn lemma_one_rebuild_per_batch(changes: usize)
    ensures
        watch_action(WatchEvent::Changed { changes }) == WatchAction::Rebuild,
{
}

} // verus!
