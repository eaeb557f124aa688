//! The relay as a whole: the registry of live sessions and the presence
//! throttle, and what happens to both when a device comes and goes.

use crate::presence::{cooled_down, next_update, summary, PresenceThrottle, PresenceUpdate};
use crate::registry::{has_handle, stats_rows, without, Registry};
use crate::session::SessionView;
use crate::stats::{format_stats, report};
use vstd::prelude::*;

verus! {

/// Port on which devices connect.
pub const DEVICE_PORT: u16 = 23416;

/// The view of a status line that may be missing.
pub open spec fn line_view(line: Option<String>) -> Option<Seq<char>> {
    match line {
        Some(text) => Some(text@),
        None => None,
    }
}

/// The status line that a call at `now` hands out: the summary for
/// `sessions` devices if the cooldown is over and the relay serves the
/// devices of many users, else none.
pub open spec fn shown(last_update: u128, now: u128, cloud: bool, sessions: nat) -> Option<
    Seq<char>,
> {
    if cooled_down(last_update, now) && cloud {
        Some(summary(sessions))
    } else {
        None
    }
}

/// State of the relay.
#[derive(Debug)]
pub struct Server {
    pub clients: Registry,
    pub last_presence_update: PresenceThrottle,
}

impl Server {
    /// The registry is well formed.
    pub open spec fn wf(&self) -> bool {
        self.clients.wf()
    }

    /// A relay without sessions whose status line was never written.
    pub fn new() -> (server: Server)
        ensures
            server.wf(),
            server.clients@ == Seq::<SessionView>::empty(),
            server.clients.next_handle == 0,
            server.last_presence_update.last_update == 0,
    {
        Server { clients: Registry::new(), last_presence_update: PresenceThrottle::new() }
    }

    /// Decides at time `now` whether the status line is rewritten to tell how
    /// many devices are connected, and hands out the new line if so. Within
    /// the cooldown nothing happens. After it the time is remembered, and the
    /// line is handed out if the relay serves the devices of many users
    /// (`cloud`); a relay of one user leaves the status line to the device.
    pub fn update_presence(&mut self, now: u128, cloud: bool) -> (line: Option<String>)
        ensures
            final(self).clients == old(self).clients,
            final(self).last_presence_update.last_update == next_update(
                old(self).last_presence_update.last_update,
                now,
            ),
            line_view(line) == shown(
                old(self).last_presence_update.last_update,
                now,
                cloud,
                old(self).clients@.len(),
            ),
    {
        let sessions = self.clients.len();
        match self.last_presence_update.maybe_update_presence(now, sessions) {
            PresenceUpdate::Updated(text) => if cloud {
                Some(text)
            } else {
                None
            },
            PresenceUpdate::Skipped => None,
        }
    }

    /// Takes in a device that has just connected from `peer` at time `now`:
    /// its session goes in front of the others, and the status line is
    /// rewritten if the cooldown and the kind of relay allow.
    pub fn connect(&mut self, peer: String, now: u128, cloud: bool) -> (r: (u64, Option<String>))
        requires
            old(self).wf(),
            old(self).clients.has_room(),
        ensures
            final(self).wf(),
            final(self).clients@ == seq![SessionView::fresh(r.0, peer@)] + old(self).clients@,
            final(self).clients.next_handle == old(self).clients.next_handle + 1,
            !has_handle(old(self).clients@, r.0),
            final(self).last_presence_update.last_update == next_update(
                old(self).last_presence_update.last_update,
                now,
            ),
            line_view(r.1) == shown(
                old(self).last_presence_update.last_update,
                now,
                cloud,
                (old(self).clients@.len() + 1) as nat,
            ),
    {
        let handle = self.clients.register(peer);
        let line = self.update_presence(now, cloud);
        (handle, line)
    }

    /// Lets go of the session with this handle at time `now`, whatever ended
    /// its connection, and rewrites the status line if the cooldown and the
    /// kind of relay allow.
    pub fn disconnect(&mut self, handle: u64, now: u128, cloud: bool) -> (line: Option<String>)
        requires
            old(self).wf(),
        ensures
            final(self).wf(),
            final(self).clients@ == without(old(self).clients@, handle),
            final(self).clients.next_handle == old(self).clients.next_handle,
            final(self).last_presence_update.last_update == next_update(
                old(self).last_presence_update.last_update,
                now,
            ),
            line_view(line) == shown(
                old(self).last_presence_update.last_update,
                now,
                cloud,
                without(old(self).clients@, handle).len(),
            ),
    {
        self.clients.deregister(handle);
        self.update_presence(now, cloud)
    }

    /// The statistics report of the live sessions.
    pub fn send_stats(&self) -> (out: Vec<u8>)
        ensures
            out@ == report(stats_rows(self.clients@)),
    {
        let rows = self.clients.broadcast_stats();
        format_stats(&rows)
    }
}

} // verus!
