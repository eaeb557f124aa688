//! Presence throttle: the relay's status line is one shared thing, so it is
//! rewritten at most once per cooldown, whoever asks.

use crate::text::{decimal, decimal_string};
use vstd::prelude::*;
use vstd::string::StringExecFns;

verus! {

/// Seconds that must pass between two updates of the status line.
pub const COOLDOWN_SECS: u64 = 60;

/// The cooldown in nanoseconds.
pub const COOLDOWN_NANOS: u128 = 60_000_000_000;

/// What a call to the throttle decided.
#[derive(Clone, Debug, PartialEq, Eq)]
pub enum PresenceUpdate {
    /// The cooldown has not passed: nothing is to be done.
    Skipped,
    /// The status line is to be set to this text.
    Updated(String),
}

/// The time of the last update, in nanoseconds since the epoch. A throttle
/// that never updated stands at the epoch itself.
#[derive(Clone, Copy, Debug, PartialEq, Eq, Structural)]
pub struct PresenceThrottle {
    pub last_update: u128,
}

/// Whether a call at `now` finds the cooldown over.
pub open spec fn cooled_down(last_update: u128, now: u128) -> bool {
    now - last_update >= COOLDOWN_NANOS
}

/// The time of the last update after a call at `now`.
pub open spec fn next_update(last_update: u128, now: u128) -> u128 {
    if cooled_down(last_update, now) {
        now
    } else {
        last_update
    }
}

/// The status line for `sessions` connected devices.
pub open spec fn summary(sessions: nat) -> Seq<char> {
    "to "@ + decimal(sessions) + " instances"@
}

/// Writes the status line for `sessions` connected devices.
pub fn presence_summary(sessions: usize) -> (text: String)
    ensures
        text@ == summary(sessions as nat),
{
    let mut text = String::from_str("to ");
    text.append(decimal_string(sessions as u64).as_str());
    text.append(" instances");
    text
}

impl PresenceThrottle {
    /// A throttle that has never updated.
    pub fn new() -> (t: PresenceThrottle)
        ensures
            t.last_update == 0,
    {
        PresenceThrottle { last_update: 0 }
    }

    /// Decides, at time `now`, whether the status line is rewritten. Less
    /// than the cooldown after the last update the call does nothing.
    /// Otherwise it hands out the new status line and remembers `now`, so
    /// that whoever asks next within the cooldown is turned away.
    pub fn maybe_update_presence(&mut self, now: u128, sessions: usize) -> (update: PresenceUpdate)
        ensures
            final(self).last_update == next_update(old(self).last_update, now),
            cooled_down(old(self).last_update, now) ==> (update matches PresenceUpdate::Updated(
                text,
            ) && text@ == summary(sessions as nat)),
            !cooled_down(old(self).last_update, now) ==> update is Skipped,
    {
        if now < self.last_update || now - self.last_update < COOLDOWN_NANOS {
            return PresenceUpdate::Skipped;
        }
        self.last_update = now;
        PresenceUpdate::Updated(presence_summary(sessions))
    }
}

/// Of two calls less than a cooldown apart, the first of which updated, the
/// second is turned away; and a call a cooldown or more after that update
/// updates again.
pub proof fn lemma_one_update_per_cooldown(
    last_update: u128,
    first: u128,
    second: u128,
    third: u128,
)
    requires
        cooled_down(last_update, first),
        first <= second,
        second - first < COOLDOWN_NANOS,
        third - first >= COOLDOWN_NANOS,
    ensures
        next_update(last_update, first) == first,
        !cooled_down(next_update(last_update, first), second),
        next_update(next_update(last_update, first), second) == first,
        cooled_down(next_update(next_update(last_update, first), second), third),
{
}

/// Two calls that both update are at least a cooldown apart.
pub proof fn lemma_updates_are_spaced(last_update: u128, first: u128, second: u128)
    requires
        cooled_down(last_update, first),
        cooled_down(next_update(last_update, first), second),
    ensures
        second - first >= COOLDOWN_NANOS,
{
}

} // verus!
