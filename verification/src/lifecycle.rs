//! The session lifecycle: a single byte cell that moves
//! `STOPPED → STARTING → RUNNING → STOPPING → STOPPED`.
//!
//! Only `STOPPED → STARTING` is a legal start edge and only
//! `RUNNING → STOPPING` is a legal stop edge. Both are taken with a single
//! compare-and-swap, so of several concurrent attempts exactly one lands.
//! The completion edges (`STARTING → RUNNING`/`STOPPED`,
//! `STOPPING → STOPPED`) are plain stores decided by [`crate::session`].

use std::sync::atomic::AtomicU8;

use vstd::prelude::*;

verus! {

pub const STATE_STOPPED: u8 = 0;

pub const STATE_STARTING: u8 = 1;

pub const STATE_RUNNING: u8 = 2;

pub const STATE_STOPPING: u8 = 3;

/// The four lifecycle codes.
pub open spec fn is_lifecycle_code(s: u8) -> bool {
    s == STATE_STOPPED || s == STATE_STARTING || s == STATE_RUNNING || s == STATE_STOPPING
}

/// Where a start request takes the cell from `s`: `Some(next)` when the
/// request is accepted, `None` (cell left as it is) when it is refused.
pub open spec fn start_edge(s: u8) -> Option<u8> {
    if s == STATE_STOPPED {
        Some(STATE_STARTING)
    } else {
        None
    }
}

/// Where a stop request takes the cell from `s`; see [`start_edge`].
pub open spec fn stop_edge(s: u8) -> Option<u8> {
    if s == STATE_RUNNING {
        Some(STATE_STOPPING)
    } else {
        None
    }
}

/// The `(expected, new)` pair the start compare-and-swap hands to the cell:
/// the one start edge.
pub fn start_swap() -> (r: (u8, u8))
    ensures
        start_edge(r.0) == Some(r.1),
{
    (STATE_STOPPED, STATE_STARTING)
}

/// The `(expected, new)` pair the stop compare-and-swap hands to the cell:
/// the one stop edge.
pub fn stop_swap() -> (r: (u8, u8))
    ensures
        stop_edge(r.0) == Some(r.1),
{
    (STATE_RUNNING, STATE_STOPPING)
}

/// Takes the start edge `STOPPED → STARTING` with one compare-and-swap.
/// Returns `true` if the swap landed (the cell was `STOPPED` and is now
/// `STARTING`), `false` if the cell held any other state, which it keeps.
///
/// The pair handed to the swap is [`start_swap`], the one pair that
/// [`start_edge`] accepts. The cell's contents are not modelled (std's
/// atomics carry no value specification here), so nothing can be said of
/// `won` itself.
pub fn try_begin_start(state: &AtomicU8) -> (won: bool) {
    let (expected, new) = start_swap();
    let r = state.compare_exchange(
        expected,
        new,
        std::sync::atomic::Ordering::AcqRel,
        std::sync::atomic::Ordering::Acquire,
    );
    r.is_ok()
}

/// Takes the stop edge `RUNNING → STOPPING`; see [`try_begin_start`].
pub fn try_begin_stop(state: &AtomicU8) -> (won: bool) {
    let (expected, new) = stop_swap();
    let r = state.compare_exchange(
        expected,
        new,
        std::sync::atomic::Ordering::AcqRel,
        std::sync::atomic::Ordering::Acquire,
    );
    r.is_ok()
}

/// Whether a session in state `s` is live: commands are only forwarded to
/// the client, and `IsRunning()` only answers `true`, in `RUNNING`.
pub fn is_live(s: u8) -> (r: bool)
    ensures
        r == (s == STATE_RUNNING),
{
    s == STATE_RUNNING
}

// ---------------------------------------------------------------------------
// Laws
// ---------------------------------------------------------------------------

/// A start request is accepted from `STOPPED`, and only from there; an
/// accepted one leaves the cell in `STARTING`.
pub proof fn law_start_only_from_stopped(s: u8)
    ensures
        start_edge(s) is Some <==> s == STATE_STOPPED,
        start_edge(s) matches Some(next) ==> next == STATE_STARTING,
{
}

/// A stop request is accepted from `RUNNING`, and only from there; an
/// accepted one leaves the cell in `STOPPING`.
pub proof fn law_stop_only_from_running(s: u8)
    ensures
        stop_edge(s) is Some <==> s == STATE_RUNNING,
        stop_edge(s) matches Some(next) ==> next == STATE_STOPPING,
{
}

/// Once a start request has been accepted, a second one is refused until
/// the session has moved on: of any number of start attempts on one cell,
/// at most one wins. The same holds of stop attempts.
pub proof fn law_single_winner(s: u8)
    ensures
        start_edge(s) matches Some(next) ==> start_edge(next) is None,
        stop_edge(s) matches Some(next) ==> stop_edge(next) is None,
{
}

/// The edges never leave the four lifecycle codes.
pub proof fn law_edges_stay_in_lifecycle(s: u8)
    requires
        is_lifecycle_code(s),
    ensures
        start_edge(s) matches Some(next) ==> is_lifecycle_code(next),
        stop_edge(s) matches Some(next) ==> is_lifecycle_code(next),
{
}

} // verus!
