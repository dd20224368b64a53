//! The cookie-lifetime policy: the complete cookie store is cleared once an
//! hour while the browser runs, by a timer that only asks for the cleanup.

use vstd::prelude::*;

verus! {

/// Seconds between two complete cookie-store cleanups: one hour.
pub const COOKIE_CLEANUP_INTERVAL_SECS: u64 = 3600;

/// Implemented by the browser to control its complete cookie store. An
/// implementation deletes every cookie, not only those of the current page.
pub trait CookieStoreController: Send + Sync + 'static {
    fn clear_all_cookies(&self);
}

/// One cleanup: the controller clears the store, once.
pub fn cleanup_once<C: CookieStoreController + ?Sized>(controller: &C) {
    controller.clear_all_cookies();
}

/// What wakes the cleanup timer.
#[derive(Clone, Copy, Debug, PartialEq, Eq, Structural)]
pub enum TimerEvent {
    /// The service was asked to stop.
    StopRequested,
    /// The stop channel was dropped.
    Disconnected,
    /// A whole interval passed.
    IntervalElapsed,
}

/// What the timer does next.
#[derive(Clone, Copy, Debug, PartialEq, Eq, Structural)]
pub enum TimerAction {
    /// Leave the loop; no cleanup happens on the way out.
    Exit,
    /// Clean up, then wait another interval.
    CleanUp,
}

pub open spec fn timer_action_spec(event: TimerEvent) -> TimerAction {
    match event {
        TimerEvent::IntervalElapsed => TimerAction::CleanUp,
        _ => TimerAction::Exit,
    }
}

/// A cleanup happens only when a whole interval passed; a stop request or
/// a dropped channel ends the timer.
pub fn on_timer_event(event: TimerEvent) -> (r: TimerAction)
    ensures
        r == timer_action_spec(event),
{
    match event {
        TimerEvent::IntervalElapsed => TimerAction::CleanUp,
        TimerEvent::StopRequested => TimerAction::Exit,
        TimerEvent::Disconnected => TimerAction::Exit,
    }
}

} // verus!
