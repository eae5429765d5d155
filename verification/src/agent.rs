//! The decisions of the agent's main loop: which events schedule a sync,
//! how relevant events within the debounce window are coalesced, and when
//! the loop stops.

use vstd::prelude::*;

verus! {

/// Ten seconds: how long the agent waits after the last relevant event
/// before it synchronises.
pub const DEBOUNCE_MILLIS: u64 = 10000;

/// One hour: the period of the full reconciliation.
pub const FULL_SYNC_INTERVAL_SECONDS: u64 = 3600;

/// The pending debounced sync, if any: `dirty` when a relevant event came
/// in since the last debounced sync, and the time (in milliseconds on the
/// agent's monotonic clock) when the window closes.
#[derive(Clone, Copy, PartialEq, Eq, Debug, Structural)]
pub struct LoopState {
    pub dirty: bool,
    pub deadline_ms: Option<u64>,
}

/// What a queue message turned out to be.
#[derive(Clone, Copy, PartialEq, Eq, Debug, Structural)]
pub enum DeliveryKind {
    /// An intercom was created, updated or deleted.
    Relevant,
    /// A well-formed event about something else.
    Ignored,
    /// A body that is not a valid event.
    Malformed,
}

/// What the loop woke up for.
#[derive(Clone, Copy, PartialEq, Eq, Debug, Structural)]
pub enum LoopEvent {
    /// A shutdown signal.
    Shutdown,
    /// The full reconciliation period elapsed.
    FullSyncTick,
    /// A message was delivered.
    Delivery(DeliveryKind),
    /// The consumer reported an error.
    DeliveryError,
    /// The consumer stream ended.
    ConsumerClosed,
    /// The debounce window closed.
    DebounceElapsed,
}

/// What the agent does next.
#[derive(Clone, Copy, PartialEq, Eq, Debug, Structural)]
pub enum LoopAction {
    /// Leave the loop normally.
    Stop,
    /// Run a synchronisation, then wait again.
    RunSync,
    /// Acknowledge the delivered message, then wait again.
    Acknowledge,
    /// Wait for the next event.
    Wait,
    /// Leave the loop with an error: the consumer is gone.
    Fail,
}

/// A pending debounced sync exists exactly when a relevant event came in.
pub open spec fn loop_state_wf(s: LoopState) -> bool {
    s.dirty <==> s.deadline_ms is Some
}

/// The state after start-up: nothing pending.
pub open spec fn initial_loop_state() -> LoopState {
    LoopState { dirty: false, deadline_ms: None }
}

/// The next state and action of the loop in state `s` on `event` at time
/// `now_ms`.
pub open spec fn spec_loop_step(s: LoopState, event: LoopEvent, now_ms: u64) -> (LoopState, LoopAction) {
    match event {
        LoopEvent::Shutdown => (s, LoopAction::Stop),
        LoopEvent::FullSyncTick => (s, LoopAction::RunSync),
        LoopEvent::Delivery(kind) => if kind == DeliveryKind::Relevant {
            (LoopState { dirty: true, deadline_ms: Some((now_ms + DEBOUNCE_MILLIS) as u64) }, LoopAction::Acknowledge)
        } else {
            (s, LoopAction::Acknowledge)
        },
        LoopEvent::DeliveryError => (s, LoopAction::Wait),
        LoopEvent::ConsumerClosed => (s, LoopAction::Fail),
        LoopEvent::DebounceElapsed => (
            initial_loop_state(),
            if s.dirty {
                LoopAction::RunSync
            } else {
                LoopAction::Wait
            },
        ),
    }
}

impl LoopState {
    /// The state after start-up: nothing pending.
    pub fn new() -> (r: LoopState)
        ensures
            r == initial_loop_state(),
    {
        LoopState { dirty: false, deadline_ms: None }
    }

    /// Handles `event` at time `now_ms`: a relevant delivery (re)starts the
    /// debounce window, which closes `DEBOUNCE_MILLIS` later; every
    /// delivered message is acknowledged; when the window closes a sync runs
    /// if a relevant event came in, and nothing is pending afterwards; the
    /// periodic tick always syncs; a shutdown stops the loop and a closed
    /// consumer fails it.
    pub fn step(&mut self, event: LoopEvent, now_ms: u64) -> (r: LoopAction)
        requires
            now_ms <= u64::MAX - DEBOUNCE_MILLIS,
        ensures
            (*final(self), r) == spec_loop_step(*old(self), event, now_ms),
    {
        match event {
            LoopEvent::Shutdown => LoopAction::Stop,
            LoopEvent::FullSyncTick => LoopAction::RunSync,
            LoopEvent::Delivery(kind) => {
                if let DeliveryKind::Relevant = kind {
                    self.dirty = true;
                    self.deadline_ms = Some(now_ms + DEBOUNCE_MILLIS);
                }
                LoopAction::Acknowledge
            },
            LoopEvent::DeliveryError => LoopAction::Wait,
            LoopEvent::ConsumerClosed => LoopAction::Fail,
            LoopEvent::DebounceElapsed => {
                let run = self.dirty;
                self.dirty = false;
                self.deadline_ms = None;
                if run {
                    LoopAction::RunSync
                } else {
                    LoopAction::Wait
                }
            },
        }
    }

    /// When the debounce window closes, if a sync is pending.
    pub fn deadline(&self) -> (r: Option<u64>)
        ensures
            r == self.deadline_ms,
    {
        self.deadline_ms
    }
}

/// Every step keeps a pending debounced sync exactly when a relevant event
/// came in.
pub proof fn lemma_loop_step_keeps_wf(s: LoopState, event: LoopEvent, now_ms: u64)
    requires
        loop_state_wf(s),
        now_ms <= u64::MAX - DEBOUNCE_MILLIS,
    ensures
        loop_state_wf(spec_loop_step(s, event, now_ms).0),
{
}

/// Relevant events within the debounce window are coalesced: two of them,
/// at `t1` and then at `t2`, run no sync themselves, leave one sync pending
/// until `t2 + DEBOUNCE_MILLIS`, and the closing window runs it once and
/// leaves nothing pending.
pub proof fn lemma_relevant_events_coalesce(s: LoopState, t1: u64, t2: u64)
    requires
        t1 <= u64::MAX - DEBOUNCE_MILLIS,
        t2 <= u64::MAX - DEBOUNCE_MILLIS,
    ensures
        ({
            let (s1, a1) = spec_loop_step(s, LoopEvent::Delivery(DeliveryKind::Relevant), t1);
            let (s2, a2) = spec_loop_step(s1, LoopEvent::Delivery(DeliveryKind::Relevant), t2);
            let (s3, a3) = spec_loop_step(s2, LoopEvent::DebounceElapsed, t2);
            &&& a1 == LoopAction::Acknowledge
            &&& a2 == LoopAction::Acknowledge
            &&& s2.dirty
            &&& s2.deadline_ms == Some((t2 + DEBOUNCE_MILLIS) as u64)
            &&& a3 == LoopAction::RunSync
            &&& s3 == initial_loop_state()
        }),
{
}

/// Events other than a relevant delivery or the closing window leave the
/// pending sync as it is.
pub proof fn lemma_other_events_keep_pending(s: LoopState, event: LoopEvent, now_ms: u64)
    requires
        event != LoopEvent::Delivery(DeliveryKind::Relevant),
        event != LoopEvent::DebounceElapsed,
    ensures
        spec_loop_step(s, event, now_ms).0 == s,
{
}


/// Every delivered message is acknowledged, whatever it holds and whatever
/// is pending.
pub proof fn lemma_every_delivery_acknowledged(s: LoopState, kind: DeliveryKind, now_ms: u64)
    ensures
        spec_loop_step(s, LoopEvent::Delivery(kind), now_ms).1 == LoopAction::Acknowledge,
{
}

/// What each event leads to: a shutdown stops the loop and a closed
/// consumer fails it, both leaving the state as it is; the periodic tick
/// always syncs; a consumer error only waits; a relevant delivery (re)starts
/// the window, which closes `DEBOUNCE_MILLIS` after it; the closing window
/// syncs exactly when a relevant event came in and leaves nothing pending.
pub proof fn lemma_loop_events(s: LoopState, now_ms: u64)
    requires
        now_ms <= u64::MAX - DEBOUNCE_MILLIS,
    ensures
        spec_loop_step(s, LoopEvent::Shutdown, now_ms) == (s, LoopAction::Stop),
        spec_loop_step(s, LoopEvent::ConsumerClosed, now_ms) == (s, LoopAction::Fail),
        spec_loop_step(s, LoopEvent::FullSyncTick, now_ms) == (s, LoopAction::RunSync),
        spec_loop_step(s, LoopEvent::DeliveryError, now_ms) == (s, LoopAction::Wait),
        spec_loop_step(s, LoopEvent::Delivery(DeliveryKind::Relevant), now_ms).0.dirty,
        spec_loop_step(s, LoopEvent::Delivery(DeliveryKind::Relevant), now_ms).0.deadline_ms == Some(
            (now_ms + DEBOUNCE_MILLIS) as u64,
        ),
        spec_loop_step(s, LoopEvent::Delivery(DeliveryKind::Ignored), now_ms).0 == s,
        spec_loop_step(s, LoopEvent::Delivery(DeliveryKind::Malformed), now_ms).0 == s,
        (spec_loop_step(s, LoopEvent::DebounceElapsed, now_ms).1 == LoopAction::RunSync) == s.dirty,
        !s.dirty ==> spec_loop_step(s, LoopEvent::DebounceElapsed, now_ms).1 == LoopAction::Wait,
        !spec_loop_step(s, LoopEvent::DebounceElapsed, now_ms).0.dirty,
        spec_loop_step(s, LoopEvent::DebounceElapsed, now_ms).0.deadline_ms is None,
{
}

} // verus!
