//! Session registry and router: the live sessions in order, newest first,
//! and the choice of the sessions that a message for a channel goes to.

use crate::messages::{Settings, SettingsView};
use crate::session::{Session, SessionView, Stats, StatsView, UNSET_CHANNEL};
use vstd::prelude::*;

verus! {

/// The views of a run of sessions.
pub open spec fn session_views(sessions: Seq<Session>) -> Seq<SessionView> {
    sessions.map_values(|s: Session| s@)
}

/// The views of a run of statistics rows.
pub open spec fn stats_views(rows: Seq<Stats>) -> Seq<StatsView> {
    rows.map_values(|r: Stats| r@)
}

/// Whether a session with this handle is among `sessions`.
pub open spec fn has_handle(sessions: Seq<SessionView>, handle: u64) -> bool {
    exists|i: int| 0 <= i < sessions.len() && (#[trigger] sessions[i]).handle == handle
}

/// No two of the sessions share a handle.
pub open spec fn distinct_handles(sessions: Seq<SessionView>) -> bool {
    forall|i: int, j: int|
        0 <= i < j < sessions.len() ==> (#[trigger] sessions[i]).handle != (
        #[trigger] sessions[j]).handle
}

/// Whether a message for `channel` goes to `session`: never for the unset
/// channel, else when the session is bound to that channel.
pub open spec fn reaches(session: SessionView, channel: u64) -> bool {
    channel != UNSET_CHANNEL && session.channel == channel
}

/// The handles of the sessions that a message for `channel` goes to, in
/// registry order.
pub open spec fn routed(sessions: Seq<SessionView>, channel: u64) -> Seq<u64>
    decreases sessions.len(),
{
    if sessions.len() == 0 {
        Seq::empty()
    } else {
        let before = routed(sessions.drop_last(), channel);
        if reaches(sessions.last(), channel) {
            before.push(sessions.last().handle)
        } else {
            before
        }
    }
}

/// The sessions without the one that has this handle, in the same order.
pub open spec fn without(sessions: Seq<SessionView>, handle: u64) -> Seq<SessionView>
    decreases sessions.len(),
{
    if sessions.len() == 0 {
        Seq::empty()
    } else {
        let before = without(sessions.drop_last(), handle);
        if sessions.last().handle == handle {
            before
        } else {
            before.push(sessions.last())
        }
    }
}

/// The sessions after the one with this handle counted a frame of `size`
/// bytes.
pub open spec fn counted_at(sessions: Seq<SessionView>, handle: u64, size: u64) -> Seq<
    SessionView,
> {
    Seq::new(
        sessions.len(),
        |i: int|
            if sessions[i].handle == handle {
                sessions[i].counted(size)
            } else {
                sessions[i]
            },
    )
}

/// The sessions after the one with this handle took over new settings.
pub open spec fn configured_at(sessions: Seq<SessionView>, handle: u64, settings: SettingsView)
    -> Seq<SessionView> {
    Seq::new(
        sessions.len(),
        |i: int|
            if sessions[i].handle == handle {
                sessions[i].configured(settings)
            } else {
                sessions[i]
            },
    )
}

/// Whether the counters of the session with this handle, if it is live, take
/// one more frame of `size` bytes.
pub open spec fn counters_fit(sessions: Seq<SessionView>, handle: u64, size: u64) -> bool {
    forall|i: int|
        0 <= i < sessions.len() && (#[trigger] sessions[i]).handle == handle
            ==> sessions[i].can_count(size)
}

/// The rows of the statistics report, one for each session in order.
pub open spec fn stats_rows(sessions: Seq<SessionView>) -> Seq<StatsView> {
    sessions.map_values(|s: SessionView| s.stats())
}

/// How many deliveries succeeded.
pub open spec fn successes(outcomes: Seq<bool>) -> nat
    decreases outcomes.len(),
{
    if outcomes.len() == 0 {
        0
    } else {
        successes(outcomes.drop_last()) + if outcomes.last() {
            1nat
        } else {
            0nat
        }
    }
}

/// The live sessions, newest first.
#[derive(Debug)]
pub struct Registry {
    pub sessions: Vec<Session>,
    pub next_handle: u64,
}

impl View for Registry {
    type V = Seq<SessionView>;

    open spec fn view(&self) -> Seq<SessionView> {
        session_views(self.sessions@)
    }
}

impl Registry {
    /// No two sessions share a handle, and every handle in use was given out
    /// before the next one to give.
    pub open spec fn wf(&self) -> bool {
        &&& distinct_handles(self@)
        &&& forall|i: int| 0 <= i < self@.len() ==> (#[trigger] self@[i]).handle < self.next_handle
    }

    /// Whether there is a handle left to give.
    pub open spec fn has_room(&self) -> bool {
        self.next_handle < u64::MAX
    }

    /// A registry without sessions.
    pub fn new() -> (r: Registry)
        ensures
            r.wf(),
            r@ == Seq::<SessionView>::empty(),
            r.next_handle == 0,
    {
        let r = Registry { sessions: Vec::new(), next_handle: 0 };
        assert(r@ =~= Seq::<SessionView>::empty());
        r
    }

    /// The number of live sessions.
    pub fn len(&self) -> (n: usize)
        ensures
            n == self@.len(),
    {
        self.sessions.len()
    }

    /// Whether there is a handle left to give.
    pub fn can_register(&self) -> (room: bool)
        ensures
            room == self.has_room(),
    {
        self.next_handle < u64::MAX
    }

    /// Adds the session of a device that has just connected from `peer`, in
    /// front of all the others, and returns its handle. The session has no
    /// channel yet, so nothing is routed to it.
    pub fn register(&mut self, peer: String) -> (handle: u64)
        requires
            old(self).wf(),
            old(self).has_room(),
        ensures
            final(self).wf(),
            final(self)@ == seq![SessionView::fresh(handle, peer@)] + old(self)@,
            !has_handle(old(self)@, handle),
            handle == old(self).next_handle,
            final(self).next_handle == handle + 1,
    {
        let handle = self.next_handle;
        let session = Session::new(handle, peer);
        let ghost before = self@;
        let ghost fresh = session@;
        self.sessions.insert(0, session);
        self.next_handle = handle + 1;
        proof {
            assert(self@ =~= seq![fresh] + before);
            assert forall|i: int, j: int| 0 <= i < j < self@.len() implies (
            #[trigger] self@[i]).handle != (#[trigger] self@[j]).handle by {
                if i > 0 {
                    assert(self@[i] == before[i - 1]);
                }
                assert(self@[j] == before[j - 1]);
            }
            assert forall|i: int| 0 <= i < self@.len() implies (#[trigger] self@[i]).handle
                < self.next_handle by {
                if i > 0 {
                    assert(self@[i] == before[i - 1]);
                }
            }
        }
        handle
    }

    /// Where the session with this handle stands, if it is live.
    pub fn position(&self, handle: u64) -> (r: Option<usize>)
        ensures
            match r {
                Some(i) => i < self@.len() && self@[i as int].handle == handle,
                None => !has_handle(self@, handle),
            },
    {
        let mut i: usize = 0;
        while i < self.sessions.len()
            invariant
                0 <= i <= self.sessions@.len(),
                forall|k: int| 0 <= k < i ==> (#[trigger] self@[k]).handle != handle,
            decreases self.sessions@.len() - i,
        {
            assert(self@[i as int] == self.sessions@[i as int]@);
            if self.sessions[i].handle == handle {
                return Some(i);
            }
            i += 1;
        }
        None
    }

    /// Removes the session with this handle, whatever channel it shares with
    /// others, and says whether there was one. Removing a handle that is not
    /// live changes nothing.
    pub fn deregister(&mut self, handle: u64) -> (found: bool)
        requires
            old(self).wf(),
        ensures
            final(self).wf(),
            final(self)@ == without(old(self)@, handle),
            !has_handle(final(self)@, handle),
            found == has_handle(old(self)@, handle),
            final(self).next_handle == old(self).next_handle,
    {
        proof {
            lemma_deregistered_is_gone(self@, handle, UNSET_CHANNEL);
        }
        match self.position(handle) {
            Some(i) => {
                let ghost before = self@;
                self.sessions.remove(i);
                proof {
                    assert(self@ =~= before.remove(i as int));
                    lemma_without_one(before, handle, i as int);
                    lemma_remove_keeps_distinct(before, i as int);
                }
                true
            },
            None => {
                proof {
                    lemma_without_absent(self@, handle);
                }
                false
            },
        }
    }

    /// The handles of the sessions that a message for `channel` goes to, in
    /// registry order: those bound to `channel`, and none when `channel` is
    /// the unset channel.
    pub fn route_outbound(&self, channel: u64) -> (targets: Vec<u64>)
        ensures
            targets@ == routed(self@, channel),
            channel == UNSET_CHANNEL ==> targets@.len() == 0,
    {
        proof {
            lemma_unset_channel_reaches_none(self@);
        }
        let mut targets: Vec<u64> = Vec::new();
        let mut i: usize = 0;
        while i < self.sessions.len()
            invariant
                0 <= i <= self.sessions@.len(),
                targets@ == routed(self@.take(i as int), channel),
            decreases self.sessions@.len() - i,
        {
            proof {
                assert(self@.take(i + 1).drop_last() =~= self@.take(i as int));
                assert(self@.take(i + 1).last() == self.sessions@[i as int]@);
            }
            if channel != UNSET_CHANNEL && self.sessions[i].channel == channel {
                targets.push(self.sessions[i].handle);
            }
            i += 1;
        }
        assert(self@.take(i as int) =~= self@);
        targets
    }

    /// One statistics row for each live session, in registry order.
    pub fn broadcast_stats(&self) -> (rows: Vec<Stats>)
        ensures
            stats_views(rows@) == stats_rows(self@),
    {
        let mut rows: Vec<Stats> = Vec::new();
        let mut i: usize = 0;
        while i < self.sessions.len()
            invariant
                0 <= i <= self.sessions@.len(),
                stats_views(rows@) =~= stats_rows(self@).take(i as int),
            decreases self.sessions@.len() - i,
        {
            let row = self.sessions[i].get_stats();
            proof {
                assert(stats_views(rows@.push(row)) =~= stats_views(rows@).push(row@));
                assert(stats_rows(self@).take(i + 1) =~= stats_rows(self@).take(i as int).push(
                    self.sessions@[i as int]@.stats(),
                ));
            }
            rows.push(row);
            i += 1;
        }
        assert(stats_rows(self@).take(i as int) =~= stats_rows(self@));
        rows
    }

    /// Whether the counters of the session with this handle, if it is live,
    /// take one more frame of `size` bytes.
    pub fn can_count(&self, handle: u64, size: u64) -> (fits: bool)
        requires
            self.wf(),
        ensures
            fits == counters_fit(self@, handle, size),
    {
        match self.position(handle) {
            Some(i) => {
                assert(self@[i as int] == self.sessions@[i as int]@);
                self.sessions[i].can_count(size)
            },
            None => true,
        }
    }

    /// Counts one frame of `size` bytes for the session with this handle and
    /// says whether that session is live. No other session changes.
    pub fn record_frame(&mut self, handle: u64, size: u64) -> (live: bool)
        requires
            old(self).wf(),
            counters_fit(old(self)@, handle, size),
        ensures
            final(self).wf(),
            final(self)@ == counted_at(old(self)@, handle, size),
            live == has_handle(old(self)@, handle),
            final(self).next_handle == old(self).next_handle,
    {
        match self.position(handle) {
            Some(i) => {
                let ghost before = self@;
                assert(before[i as int] == self.sessions@[i as int]@);
                self.sessions[i].record_frame(size);
                proof {
                    assert(self@ =~= before.update(i as int, before[i as int].counted(size)));
                    assert(self@ =~= counted_at(before, handle, size));
                }
                true
            },
            None => {
                assert(self@ =~= counted_at(self@, handle, size));
                false
            },
        }
    }

    /// Hands new settings to the session with this handle and says whether
    /// that session is live. No other session changes.
    pub fn apply_settings(&mut self, handle: u64, settings: &Settings) -> (live: bool)
        requires
            old(self).wf(),
        ensures
            final(self).wf(),
            final(self)@ == configured_at(old(self)@, handle, settings@),
            live == has_handle(old(self)@, handle),
            final(self).next_handle == old(self).next_handle,
    {
        match self.position(handle) {
            Some(i) => {
                let ghost before = self@;
                assert(before[i as int] == self.sessions@[i as int]@);
                self.sessions[i].apply_settings(settings);
                proof {
                    assert(self@ =~= before.update(
                        i as int,
                        before[i as int].configured(settings@),
                    ));
                    assert(self@ =~= configured_at(before, handle, settings@));
                }
                true
            },
            None => {
                assert(self@ =~= configured_at(self@, handle, settings@));
                false
            },
        }
    }
}

/// Counts how many deliveries succeeded.
pub fn count_reached(outcomes: &Vec<bool>) -> (found: usize)
    ensures
        found == successes(outcomes@),
{
    let mut found: usize = 0;
    let mut i: usize = 0;
    while i < outcomes.len()
        invariant
            0 <= i <= outcomes@.len(),
            found == successes(outcomes@.take(i as int)),
            found <= i,
        decreases outcomes@.len() - i,
    {
        proof {
            assert(outcomes@.take(i + 1).drop_last() =~= outcomes@.take(i as int));
        }
        if outcomes[i] {
            found += 1;
        }
        i += 1;
    }
    assert(outcomes@.take(i as int) =~= outcomes@);
    found
}

/// Removing the one session that has the handle.
proof fn lemma_without_one(sessions: Seq<SessionView>, handle: u64, i: int)
    requires
        distinct_handles(sessions),
        0 <= i < sessions.len(),
        sessions[i].handle == handle,
    ensures
        without(sessions, handle) == sessions.remove(i),
    decreases sessions.len(),
{
    let front = sessions.drop_last();
    let n = sessions.len() - 1;
    assert forall|a: int, b: int| 0 <= a < b < front.len() implies (#[trigger] front[a]).handle != (
    #[trigger] front[b]).handle by {
        assert(front[a] == sessions[a] && front[b] == sessions[b]);
    }
    if i == n {
        assert forall|k: int| 0 <= k < front.len() implies (#[trigger] front[k]).handle
            != handle by {
            assert(front[k] == sessions[k]);
        }
        lemma_without_absent(front, handle);
        assert(sessions.remove(i) =~= front);
    } else {
        assert(front[i] == sessions[i]);
        lemma_without_one(front, handle, i);
        assert(sessions.last().handle != handle);
        assert(front.remove(i).push(sessions.last()) =~= sessions.remove(i));
    }
}

/// Removing a handle that no session has changes nothing.
pub proof fn lemma_without_absent(sessions: Seq<SessionView>, handle: u64)
    requires
        !has_handle(sessions, handle),
    ensures
        without(sessions, handle) == sessions,
    decreases sessions.len(),
{
    if sessions.len() > 0 {
        let front = sessions.drop_last();
        assert(sessions[sessions.len() - 1].handle != handle);
        assert forall|k: int| 0 <= k < front.len() implies (#[trigger] front[k]).handle
            != handle by {
            assert(front[k] == sessions[k]);
        }
        lemma_without_absent(front, handle);
        assert(front.push(sessions.last()) =~= sessions);
    }
}

/// Taking one session out leaves the handles distinct.
proof fn lemma_remove_keeps_distinct(sessions: Seq<SessionView>, i: int)
    requires
        distinct_handles(sessions),
        0 <= i < sessions.len(),
    ensures
        distinct_handles(sessions.remove(i)),
        forall|k: int|
            0 <= k < sessions.remove(i).len() ==> has_handle(
                sessions,
                (#[trigger] sessions.remove(i)[k]).handle,
            ),
{
    let rest = sessions.remove(i);
    assert forall|a: int, b: int| 0 <= a < b < rest.len() implies (#[trigger] rest[a]).handle != (
    #[trigger] rest[b]).handle by {
        let a0 = if a < i {
            a
        } else {
            a + 1
        };
        let b0 = if b < i {
            b
        } else {
            b + 1
        };
        assert(rest[a] == sessions[a0] && rest[b] == sessions[b0]);
    }
    assert forall|k: int| 0 <= k < rest.len() implies has_handle(
        sessions,
        (#[trigger] rest[k]).handle,
    ) by {
        let k0 = if k < i {
            k
        } else {
            k + 1
        };
        assert(rest[k] == sessions[k0]);
    }
}

/// A handle is routed to exactly when a session with that handle is bound to
/// the channel and the channel is not the unset one.
pub proof fn lemma_routed_members(sessions: Seq<SessionView>, channel: u64, handle: u64)
    ensures
        routed(sessions, channel).contains(handle) <==> exists|i: int|
            0 <= i < sessions.len() && (#[trigger] sessions[i]).handle == handle && reaches(
                sessions[i],
                channel,
            ),
    decreases sessions.len(),
{
    if sessions.len() > 0 {
        let front = sessions.drop_last();
        let last = sessions.last();
        let before = routed(front, channel);
        lemma_routed_members(front, channel, handle);
        if routed(sessions, channel).contains(handle) {
            let k = choose|k: int|
                0 <= k < routed(sessions, channel).len() && routed(sessions, channel)[k] == handle;
            if reaches(last, channel) && k == before.len() {
                assert(sessions[sessions.len() - 1].handle == handle);
            } else {
                assert(before[k] == handle);
                let i = choose|i: int|
                    0 <= i < front.len() && (#[trigger] front[i]).handle == handle && reaches(
                        front[i],
                        channel,
                    );
                assert(sessions[i] == front[i]);
            }
        }
        if exists|i: int|
            0 <= i < sessions.len() && (#[trigger] sessions[i]).handle == handle && reaches(
                sessions[i],
                channel,
            ) {
            let i = choose|i: int|
                0 <= i < sessions.len() && (#[trigger] sessions[i]).handle == handle && reaches(
                    sessions[i],
                    channel,
                );
            if i == sessions.len() - 1 {
                assert(routed(sessions, channel)[before.len() as int] == handle);
            } else {
                assert(front[i] == sessions[i]);
                let k = choose|k: int| 0 <= k < before.len() && before[k] == handle;
                assert(routed(sessions, channel)[k] == handle);
            }
        }
    }
}

/// A message for the unset channel reaches no session, whatever the registry
/// holds.
pub proof fn lemma_unset_channel_reaches_none(sessions: Seq<SessionView>)
    ensures
        routed(sessions, UNSET_CHANNEL) == Seq::<u64>::empty(),
    decreases sessions.len(),
{
    if sessions.len() > 0 {
        lemma_unset_channel_reaches_none(sessions.drop_last());
    }
}

/// A session that has just been registered is reached by no message.
pub proof fn lemma_register_unreachable(
    sessions: Seq<SessionView>,
    handle: u64,
    peer: Seq<char>,
    channel: u64,
)
    ensures
        routed(seq![SessionView::fresh(handle, peer)] + sessions, channel) == routed(
            sessions,
            channel,
        ),
    decreases sessions.len(),
{
    let fresh = SessionView::fresh(handle, peer);
    let all = seq![fresh] + sessions;
    if sessions.len() == 0 {
        assert(all.drop_last() =~= Seq::<SessionView>::empty());
        assert(routed(all.drop_last(), channel) == Seq::<u64>::empty());
    } else {
        lemma_register_unreachable(sessions.drop_last(), handle, peer, channel);
        assert(all.drop_last() =~= seq![fresh] + sessions.drop_last());
        assert(all.last() == sessions.last());
    }
}

/// What is left after a removal: the sessions with another handle, each as
/// it was.
pub proof fn lemma_without_members(sessions: Seq<SessionView>, handle: u64, session: SessionView)
    ensures
        without(sessions, handle).contains(session) <==> sessions.contains(session)
            && session.handle != handle,
    decreases sessions.len(),
{
    if sessions.len() > 0 {
        let front = sessions.drop_last();
        let last = sessions.last();
        let before = without(front, handle);
        lemma_without_members(front, handle, session);
        let after = without(sessions, handle);
        if after.contains(session) {
            let k = choose|k: int| 0 <= k < after.len() && after[k] == session;
            if last.handle != handle && k == before.len() {
                assert(sessions[sessions.len() - 1] == session);
            } else {
                assert(before[k] == session);
                let i = choose|i: int| 0 <= i < front.len() && front[i] == session;
                assert(sessions[i] == session);
            }
        }
        if sessions.contains(session) && session.handle != handle {
            let i = choose|i: int| 0 <= i < sessions.len() && sessions[i] == session;
            if i == sessions.len() - 1 {
                assert(after[before.len() as int] == session);
            } else {
                assert(front[i] == session);
                let k = choose|k: int| 0 <= k < before.len() && before[k] == session;
                assert(after[k] == session);
            }
        }
    }
}

/// Once a session is removed, its handle is gone from the registry and no
/// message is routed to it.
pub proof fn lemma_deregistered_is_gone(sessions: Seq<SessionView>, handle: u64, channel: u64)
    ensures
        !has_handle(without(sessions, handle), handle),
        !routed(without(sessions, handle), channel).contains(handle),
{
    let rest = without(sessions, handle);
    assert forall|i: int| 0 <= i < rest.len() implies (#[trigger] rest[i]).handle != handle by {
        lemma_without_members(sessions, handle, rest[i]);
        assert(rest.contains(rest[i]));
    }
    lemma_routed_members(rest, channel, handle);
}

/// Removing a session twice is the same as removing it once.
pub proof fn lemma_deregister_idempotent(sessions: Seq<SessionView>, handle: u64)
    ensures
        without(without(sessions, handle), handle) == without(sessions, handle),
{
    lemma_deregistered_is_gone(sessions, handle, 0);
    lemma_without_absent(without(sessions, handle), handle);
}

/// A removal takes exactly one session out of a registry that holds the
/// handle, and none out of one that does not.
pub proof fn lemma_deregister_len(sessions: Seq<SessionView>, handle: u64)
    requires
        distinct_handles(sessions),
    ensures
        has_handle(sessions, handle) ==> without(sessions, handle).len() == sessions.len() - 1,
        !has_handle(sessions, handle) ==> without(sessions, handle).len() == sessions.len(),
{
    if has_handle(sessions, handle) {
        let i = choose|i: int| 0 <= i < sessions.len() && (#[trigger] sessions[i]).handle == handle;
        lemma_without_one(sessions, handle, i);
    } else {
        lemma_without_absent(sessions, handle);
    }
}

/// There are never more successes than deliveries.
pub proof fn lemma_successes_bound(outcomes: Seq<bool>)
    ensures
        successes(outcomes) <= outcomes.len(),
    decreases outcomes.len(),
{
    if outcomes.len() > 0 {
        lemma_successes_bound(outcomes.drop_last());
    }
}

} // verus!
