//! Session: what the relay remembers about one device connection.

use crate::messages::{Settings, SettingsView};
use vstd::prelude::*;

verus! {

/// The channel of a session that has not said where it belongs. Nothing is
/// ever routed to it.
pub const UNSET_CHANNEL: u64 = 0;

/// State of one device connection.
#[derive(Clone, Debug, PartialEq, Eq)]
pub struct Session {
    /// Identity of the session in the registry.
    pub handle: u64,
    /// Address of the device, as text.
    pub peer: String,
    /// Channel the device is bound to, or [`UNSET_CHANNEL`].
    pub channel: u64,
    /// Command prefix the device announced.
    pub prefix: String,
    /// Presence cycle interval the device announced.
    pub cycle_time: i32,
    /// Whether the device wants its presence shown.
    pub enabled: bool,
    /// Number of frames received from the device.
    pub num_messages: u64,
    /// Number of bytes received from the device, counted as the size of the
    /// messages it sent.
    pub total_data: u64,
}

/// Mathematical content of a [`Session`].
pub struct SessionView {
    pub handle: u64,
    pub peer: Seq<char>,
    pub channel: u64,
    pub prefix: Seq<char>,
    pub cycle_time: i32,
    pub enabled: bool,
    pub num_messages: u64,
    pub total_data: u64,
}

impl View for Session {
    type V = SessionView;

    open spec fn view(&self) -> SessionView {
        SessionView {
            handle: self.handle,
            peer: self.peer@,
            channel: self.channel,
            prefix: self.prefix@,
            cycle_time: self.cycle_time,
            enabled: self.enabled,
            num_messages: self.num_messages,
            total_data: self.total_data,
        }
    }
}

/// One row of the statistics report.
#[derive(Clone, Debug, PartialEq, Eq)]
pub struct Stats {
    pub ip: String,
    pub num_messages: u64,
    pub total_data: u64,
}

/// Mathematical content of a [`Stats`].
pub struct StatsView {
    pub ip: Seq<char>,
    pub num_messages: u64,
    pub total_data: u64,
}

impl View for Stats {
    type V = StatsView;

    open spec fn view(&self) -> StatsView {
        StatsView { ip: self.ip@, num_messages: self.num_messages, total_data: self.total_data }
    }
}

impl SessionView {
    /// The session of a device that has just connected.
    pub open spec fn fresh(handle: u64, peer: Seq<char>) -> SessionView {
        SessionView {
            handle,
            peer,
            channel: UNSET_CHANNEL,
            prefix: Seq::empty(),
            cycle_time: 0,
            enabled: false,
            num_messages: 0,
            total_data: 0,
        }
    }

    /// The session after one more frame whose message takes `size` bytes.
    pub open spec fn counted(self, size: u64) -> SessionView {
        SessionView {
            num_messages: (self.num_messages + 1) as u64,
            total_data: (self.total_data + size) as u64,
            ..self
        }
    }

    /// Whether one more frame of `size` bytes fits the counters.
    pub open spec fn can_count(self, size: u64) -> bool {
        self.num_messages < u64::MAX && self.total_data + size <= u64::MAX
    }

    /// The session after the device sent new settings.
    pub open spec fn configured(self, settings: SettingsView) -> SessionView {
        SessionView {
            channel: settings.channel_id,
            prefix: settings.command_prefix,
            cycle_time: settings.cycle_time,
            enabled: settings.presence_enabled,
            ..self
        }
    }

    /// The row of the session in the statistics report.
    pub open spec fn stats(self) -> StatsView {
        StatsView { ip: self.peer, num_messages: self.num_messages, total_data: self.total_data }
    }
}

impl Session {
    /// The session of a device that has just connected from `peer`: no
    /// channel, no settings, nothing counted.
    pub fn new(handle: u64, peer: String) -> (s: Session)
        ensures
            s@ == SessionView::fresh(handle, peer@),
    {
        Session {
            handle,
            peer,
            channel: UNSET_CHANNEL,
            prefix: String::new(),
            cycle_time: 0,
            enabled: false,
            num_messages: 0,
            total_data: 0,
        }
    }

    /// A copy of the session.
    pub fn copy(&self) -> (s: Session)
        ensures
            s@ == self@,
    {
        Session {
            handle: self.handle,
            peer: self.peer.clone(),
            channel: self.channel,
            prefix: self.prefix.clone(),
            cycle_time: self.cycle_time,
            enabled: self.enabled,
            num_messages: self.num_messages,
            total_data: self.total_data,
        }
    }

    /// Whether one more frame of `size` bytes fits the counters.
    pub fn can_count(&self, size: u64) -> (fits: bool)
        ensures
            fits == self@.can_count(size),
    {
        self.num_messages < u64::MAX && size <= u64::MAX - self.total_data
    }

    /// Counts one frame whose message takes `size` bytes.
    pub fn record_frame(&mut self, size: u64)
        requires
            old(self)@.can_count(size),
        ensures
            final(self)@ == old(self)@.counted(size),
    {
        self.num_messages = self.num_messages + 1;
        self.total_data = self.total_data + size;
    }

    /// Takes over the settings a device sent. The counters stay.
    pub fn apply_settings(&mut self, settings: &Settings)
        ensures
            final(self)@ == old(self)@.configured(settings@),
    {
        self.channel = settings.channel_id;
        self.prefix = settings.command_prefix.clone();
        self.cycle_time = settings.cycle_time;
        self.enabled = settings.presence_enabled;
    }

    /// The row of the session in the statistics report.
    pub fn get_stats(&self) -> (stats: Stats)
        ensures
            stats@ == self@.stats(),
    {
        Stats {
            ip: self.peer.clone(),
            num_messages: self.num_messages,
            total_data: self.total_data,
        }
    }
}

/// Counting a frame never lowers a counter and touches nothing else.
pub proof fn lemma_counters_grow(session: SessionView, size: u64)
    requires
        session.can_count(size),
    ensures
        session.counted(size).num_messages == session.num_messages + 1,
        session.counted(size).total_data == session.total_data + size,
        session.counted(size).num_messages > session.num_messages,
        session.counted(size).total_data >= session.total_data,
        session.counted(size).handle == session.handle,
        session.counted(size).channel == session.channel,
{
}

/// New settings leave the counters and the identity of a session alone.
pub proof fn lemma_settings_keep_counters(session: SessionView, settings: SettingsView)
    ensures
        session.configured(settings).num_messages == session.num_messages,
        session.configured(settings).total_data == session.total_data,
        session.configured(settings).handle == session.handle,
        session.configured(settings).channel == settings.channel_id,
{
}

} // verus!
