//! The reconciliation loops as state machines: one cycle walks fetch, diff,
//! persist and notify stages; any stage failure backs the loop off and
//! retries from the fetch, and never ends it. The two feed managers run the
//! same machine with their own interval and backoff.

use vstd::prelude::*;

verus! {

/// Seconds between successful cycles of the tracked-item feed.
pub const MAPFEED_INTERVAL_SECONDS: u64 = 60 * 15;

/// Seconds the tracked-item feed backs off after a failed cycle.
pub const MAPFEED_BACKOFF_SECONDS: u64 = 60 * 3;

/// Seconds between successful cycles of the group feed.
pub const GROUP_INTERVAL_SECONDS: u64 = 60 * 60 * 4;

/// Seconds the group feed backs off after a failed cycle.
pub const GROUP_BACKOFF_SECONDS: u64 = 60;

/// Stage of one reconciliation cycle.
#[derive(Debug, Clone, Copy, PartialEq, Eq, Structural)]
pub enum FeedState {
    /// Sleeping until the next cycle.
    Idle,
    /// Reading the remote and local snapshots.
    Fetching,
    /// Computing the difference.
    Diffing,
    /// Writing the difference to the store.
    Persisting,
    /// Sending the notifications.
    Notifying,
    /// Sleeping off a failed cycle.
    Backoff,
    /// The stop flag was honoured; the loop is over.
    Stopped,
}

/// What the loop driver observed.
#[derive(Debug, Clone, Copy, PartialEq, Eq, Structural)]
pub enum FeedEvent {
    /// The current sleep ended.
    WokeUp,
    /// The current stage finished.
    StageOk,
    /// The current stage failed.
    StageFailed,
}

/// What the loop driver must do next.
#[derive(Debug, Clone, Copy, PartialEq, Eq, Structural)]
pub enum FeedAction {
    /// Read the snapshots.
    Fetch,
    /// Compute the difference.
    Diff,
    /// Write the difference.
    Persist,
    /// Send the notifications.
    Notify,
    /// Sleep this many seconds.
    Sleep { seconds: u64 },
    /// Stop driving the loop.
    Halt,
    /// The event does not apply to this state.
    Ignore,
}

/// The transition relation of one feed loop: stages advance on success; any
/// stage failure moves to the backoff sleep and the next wake-up retries
/// from the fetch; a stop is honoured only between cycles.
pub open spec fn spec_feed_step(
    s: FeedState,
    e: FeedEvent,
    stop_requested: bool,
    interval: u64,
    backoff: u64,
) -> (FeedState, FeedAction) {
    match (s, e) {
        (FeedState::Idle, FeedEvent::WokeUp) => {
            if stop_requested {
                (FeedState::Stopped, FeedAction::Halt)
            } else {
                (FeedState::Fetching, FeedAction::Fetch)
            }
        },
        (FeedState::Fetching, FeedEvent::StageOk) => (FeedState::Diffing, FeedAction::Diff),
        (FeedState::Diffing, FeedEvent::StageOk) => (FeedState::Persisting, FeedAction::Persist),
        (FeedState::Persisting, FeedEvent::StageOk) => (FeedState::Notifying, FeedAction::Notify),
        (FeedState::Notifying, FeedEvent::StageOk) => (
            FeedState::Idle,
            FeedAction::Sleep { seconds: interval },
        ),
        (FeedState::Fetching, FeedEvent::StageFailed) => (
            FeedState::Backoff,
            FeedAction::Sleep { seconds: backoff },
        ),
        (FeedState::Diffing, FeedEvent::StageFailed) => (
            FeedState::Backoff,
            FeedAction::Sleep { seconds: backoff },
        ),
        (FeedState::Persisting, FeedEvent::StageFailed) => (
            FeedState::Backoff,
            FeedAction::Sleep { seconds: backoff },
        ),
        (FeedState::Notifying, FeedEvent::StageFailed) => (
            FeedState::Backoff,
            FeedAction::Sleep { seconds: backoff },
        ),
        (FeedState::Backoff, FeedEvent::WokeUp) => {
            if stop_requested {
                (FeedState::Stopped, FeedAction::Halt)
            } else {
                (FeedState::Fetching, FeedAction::Fetch)
            }
        },
        (_, _) => (s, FeedAction::Ignore),
    }
}

/// No stage failure ends the loop: only a requested stop does.
pub proof fn lemma_failure_never_halts(
    s: FeedState,
    e: FeedEvent,
    stop_requested: bool,
    interval: u64,
    backoff: u64,
)
    ensures
        spec_feed_step(s, e, stop_requested, interval, backoff).0 == FeedState::Stopped ==> (
        stop_requested && s != FeedState::Stopped ==> e == FeedEvent::WokeUp),
        !stop_requested && s != FeedState::Stopped ==> spec_feed_step(
            s,
            e,
            stop_requested,
            interval,
            backoff,
        ).0 != FeedState::Stopped,
{
}

/// Driver state of the tracked-item feed: the loop stage and the
/// cooperative stop flag checked between cycles.
pub struct MapfeedManager {
    state: FeedState,
    stop_flag: bool,
}

impl MapfeedManager {
    pub closed spec fn loop_state(self) -> FeedState {
        self.state
    }

    pub closed spec fn stop_requested(self) -> bool {
        self.stop_flag
    }

    /// A fresh loop, sleeping until its first cycle.
    pub fn start() -> (s: Self)
        ensures
            s.loop_state() == FeedState::Idle,
            !s.stop_requested(),
    {
        MapfeedManager { state: FeedState::Idle, stop_flag: false }
    }

    /// Asks the loop to stop; honoured at the next wake-up between cycles.
    pub fn stop(&mut self)
        ensures
            final(self).stop_requested(),
            final(self).loop_state() == old(self).loop_state(),
    {
        self.stop_flag = true;
    }

    /// Drives the loop one step: 15 minutes between cycles, 3 minutes of
    /// backoff after a failure.
    pub fn step(&mut self, event: FeedEvent) -> (r: FeedAction)
        ensures
            (final(self).loop_state(), r) == spec_feed_step(
                old(self).loop_state(),
                event,
                old(self).stop_requested(),
                MAPFEED_INTERVAL_SECONDS,
                MAPFEED_BACKOFF_SECONDS,
            ),
            final(self).stop_requested() == old(self).stop_requested(),
    {
        let (next, action) = feed_step_exec(
            self.state,
            event,
            self.stop_flag,
            MAPFEED_INTERVAL_SECONDS,
            MAPFEED_BACKOFF_SECONDS,
        );
        self.state = next;
        action
    }
}

/// Driver state of the group feed.
pub struct GroupManager {
    state: FeedState,
    stop_flag: bool,
}

impl GroupManager {
    pub closed spec fn loop_state(self) -> FeedState {
        self.state
    }

    pub closed spec fn stop_requested(self) -> bool {
        self.stop_flag
    }

    /// A fresh loop, sleeping until its first cycle.
    pub fn new() -> (s: Self)
        ensures
            s.loop_state() == FeedState::Idle,
            !s.stop_requested(),
    {
        GroupManager { state: FeedState::Idle, stop_flag: false }
    }

    /// Asks the loop to stop; honoured at the next wake-up between cycles.
    pub fn stop(&mut self)
        ensures
            final(self).stop_requested(),
            final(self).loop_state() == old(self).loop_state(),
    {
        self.stop_flag = true;
    }

    /// Drives the loop one step: 4 hours between cycles, 1 minute of
    /// backoff after a failure.
    pub fn step(&mut self, event: FeedEvent) -> (r: FeedAction)
        ensures
            (final(self).loop_state(), r) == spec_feed_step(
                old(self).loop_state(),
                event,
                old(self).stop_requested(),
                GROUP_INTERVAL_SECONDS,
                GROUP_BACKOFF_SECONDS,
            ),
            final(self).stop_requested() == old(self).stop_requested(),
    {
        let (next, action) = feed_step_exec(
            self.state,
            event,
            self.stop_flag,
            GROUP_INTERVAL_SECONDS,
            GROUP_BACKOFF_SECONDS,
        );
        self.state = next;
        action
    }
}

impl Default for GroupManager {
    /// Same as a fresh loop.
    fn default() -> (s: Self)
        ensures
            s.loop_state() == FeedState::Idle,
            !s.stop_requested(),
    {
        GroupManager::new()
    }
}

fn feed_step_exec(s: FeedState, e: FeedEvent, stop_requested: bool, interval: u64, backoff: u64) -> (r:
    (FeedState, FeedAction))
    ensures
        r == spec_feed_step(s, e, stop_requested, interval, backoff),
{
    match (s, e) {
        (FeedState::Idle, FeedEvent::WokeUp) => {
            if stop_requested {
                (FeedState::Stopped, FeedAction::Halt)
            } else {
                (FeedState::Fetching, FeedAction::Fetch)
            }
        },
        (FeedState::Fetching, FeedEvent::StageOk) => (FeedState::Diffing, FeedAction::Diff),
        (FeedState::Diffing, FeedEvent::StageOk) => (FeedState::Persisting, FeedAction::Persist),
        (FeedState::Persisting, FeedEvent::StageOk) => (FeedState::Notifying, FeedAction::Notify),
        (FeedState::Notifying, FeedEvent::StageOk) => (
            FeedState::Idle,
            FeedAction::Sleep { seconds: interval },
        ),
        (FeedState::Fetching, FeedEvent::StageFailed) => (
            FeedState::Backoff,
            FeedAction::Sleep { seconds: backoff },
        ),
        (FeedState::Diffing, FeedEvent::StageFailed) => (
            FeedState::Backoff,
            FeedAction::Sleep { seconds: backoff },
        ),
        (FeedState::Persisting, FeedEvent::StageFailed) => (
            FeedState::Backoff,
            FeedAction::Sleep { seconds: backoff },
        ),
        (FeedState::Notifying, FeedEvent::StageFailed) => (
            FeedState::Backoff,
            FeedAction::Sleep { seconds: backoff },
        ),
        (FeedState::Backoff, FeedEvent::WokeUp) => {
            if stop_requested {
                (FeedState::Stopped, FeedAction::Halt)
            } else {
                (FeedState::Fetching, FeedAction::Fetch)
            }
        },
        (other, _) => (other, FeedAction::Ignore),
    }
}

} // verus!
