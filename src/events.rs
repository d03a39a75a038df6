//! The event log: what happened to each channel, and when.

use crate::amount::Amount;
use crate::crypto::L2Account;
use crate::types::{ChannelId, L1Account, RegisteredState, RegisteredView, Timestamp};
use vstd::prelude::*;

verus! {

/// Something that happened to a channel.
pub enum Event {
    /// A participant supplied funds into the channel.
    Funded { who: L2Account, total: Amount, timestamp: Timestamp },
    /// A dispute was started or refuted, with the registered state.
    Disputed { state: RegisteredState, timestamp: Timestamp },
    /// The channel is concluded; funds can be withdrawn.
    Concluded { state: RegisteredState, timestamp: Timestamp },
}

/// An event as a mathematical value.
pub enum EventView {
    Funded { who: Seq<u8>, total: nat, timestamp: Timestamp },
    Disputed { state: RegisteredView, timestamp: Timestamp },
    Concluded { state: RegisteredView, timestamp: Timestamp },
}

impl View for Event {
    type V = EventView;

    open spec fn view(&self) -> EventView {
        match self {
            Event::Funded { who, total, timestamp } => EventView::Funded {
                who: who.0@,
                total: total@,
                timestamp: *timestamp,
            },
            Event::Disputed { state, timestamp } => EventView::Disputed {
                state: state@,
                timestamp: *timestamp,
            },
            Event::Concluded { state, timestamp } => EventView::Concluded {
                state: state@,
                timestamp: *timestamp,
            },
        }
    }
}

impl Clone for Event {
    fn clone(&self) -> (r: Event)
        ensures
            r@ == self@,
    {
        match self {
            Event::Funded { who, total, timestamp } => Event::Funded {
                who: *who,
                total: total.clone(),
                timestamp: *timestamp,
            },
            Event::Disputed { state, timestamp } => Event::Disputed {
                state: state.clone(),
                timestamp: *timestamp,
            },
            Event::Concluded { state, timestamp } => Event::Concluded {
                state: state.clone(),
                timestamp: *timestamp,
            },
        }
    }
}

/// A logged event: channel, registration time, and the event.
pub type LogEntry = (Seq<u8>, Timestamp, EventView);

/// The events of `channel` registered at or after `time`, in log order.
pub open spec fn events_from(log: Seq<LogEntry>, channel: Seq<u8>, time: Timestamp) -> Seq<
    EventView,
>
    decreases log.len(),
{
    if log.len() == 0 {
        Seq::empty()
    } else {
        let rest = events_from(log.drop_last(), channel, time);
        if log.last().0 == channel && log.last().1 >= time {
            rest.push(log.last().2)
        } else {
            rest
        }
    }
}

/// The entries registered at or after `time`, in log order.
pub open spec fn entries_from(log: Seq<LogEntry>, time: Timestamp) -> Seq<LogEntry>
    decreases log.len(),
{
    if log.len() == 0 {
        Seq::empty()
    } else {
        let rest = entries_from(log.drop_last(), time);
        if log.last().1 >= time {
            rest.push(log.last())
        } else {
            rest
        }
    }
}

/// Registration times never decrease along the log.
pub open spec fn time_ordered(log: Seq<LogEntry>) -> bool {
    forall|i: int, j: int| 0 <= i < j < log.len() ==> (#[trigger] log[i]).1 <= (#[trigger] log[j]).1
}

/// `after` is `before` with `entry` placed after every entry registered at
/// or before the entry's time and before every later one.
pub open spec fn inserted_in_order(before: Seq<LogEntry>, after: Seq<LogEntry>, entry: LogEntry) -> bool {
    exists|p: int|
        0 <= p <= before.len() && after == before.insert(p, entry) && (forall|i: int|
            0 <= i < p ==> (#[trigger] before[i]).1 <= entry.1) && (forall|i: int|
            p <= i < before.len() ==> (#[trigger] before[i]).1 > entry.1)
}

/// An in-memory event log, ordered by registration time; events with equal
/// times keep the order in which they were registered.
pub struct LocalEventRegisterer {
    events: Vec<(ChannelId, Timestamp, Event)>,
}

impl View for LocalEventRegisterer {
    type V = Seq<LogEntry>;

    closed spec fn view(&self) -> Seq<LogEntry> {
        self.events@.map_values(|e: (ChannelId, Timestamp, Event)| (e.0.0@, e.1, e.2@))
    }
}

impl LocalEventRegisterer {
    /// Log entries are ordered by time.
    pub closed spec fn wf(&self) -> bool {
        time_ordered(self@)
    }

    /// An empty log.
    pub fn new() -> (r: LocalEventRegisterer)
        ensures
            r.wf(),
            r@ == Seq::<LogEntry>::empty(),
    {
        let r = LocalEventRegisterer { events: Vec::new() };
        assert(r@ =~= Seq::<LogEntry>::empty());
        r
    }

    /// Records event `e` of channel `ch` at `time`, after every entry
    /// registered at or before `time` and before every later one.
    pub fn register_event(&mut self, time: Timestamp, ch: ChannelId, e: Event)
        requires
            old(self).wf(),
        ensures
            final(self).wf(),
            inserted_in_order(old(self)@, final(self)@, (ch.0@, time, e@)),
    {
        let ghost old_view = self@;
        let mut p: usize = self.events.len();
        while p > 0 && self.events[p - 1].1 > time
            invariant
                p <= self.events@.len(),
                self@ == old_view,
                time_ordered(old_view),
                forall|i: int| p <= i < old_view.len() ==> (#[trigger] old_view[i]).1 > time,
            decreases p,
        {
            p = p - 1;
        }
        let ghost entry = (ch.0@, time, e@);
        self.events.insert(p, (ch, time, e));
        proof {
            assert(self@ =~= old_view.insert(p as int, entry));
            assert forall|i: int| 0 <= i < p implies (#[trigger] old_view[i]).1 <= time by {
                if p > 0 {
                    assert(old_view[p - 1].1 <= time);
                }
            }
            assert(inserted_in_order(old_view, self@, entry));
        }
    }

    /// The events of `ch` registered at or after `time`, in order.
    pub fn events_after(&self, ch: &ChannelId, time: Timestamp) -> (r: Vec<Event>)
        ensures
            r@.map_values(|e: Event| e@) == events_from(self@, ch.0@, time),
    {
        let mut out: Vec<Event> = Vec::new();
        let mut i: usize = 0;
        while i < self.events.len()
            invariant
                i <= self.events@.len(),
                out@.map_values(|e: Event| e@) == events_from(self@.subrange(0, i as int), ch.0@, time),
            decreases self.events@.len() - i,
        {
            let ghost sub = self@.subrange(0, i + 1);
            assert(sub.drop_last() =~= self@.subrange(0, i as int));
            if self.events[i].0.same(ch) && self.events[i].1 >= time {
                let e = self.events[i].2.clone();
                let ghost before = out@;
                out.push(e);
                assert(out@.map_values(|e: Event| e@) =~= before.map_values(|e: Event| e@).push(
                    sub.last().2,
                ));
            }
            i = i + 1;
        }
        assert(self@.subrange(0, self@.len() as int) =~= self@);
        out
    }

    /// Drops every entry registered before `min_time`.
    pub fn gc(&mut self, min_time: Timestamp)
        requires
            old(self).wf(),
        ensures
            final(self).wf(),
            final(self)@ == entries_from(old(self)@, min_time),
    {
        let ghost old_view = self@;
        let mut kept: Vec<(ChannelId, Timestamp, Event)> = Vec::new();
        let mut i: usize = 0;
        while i < self.events.len()
            invariant
                i <= self.events@.len(),
                self@ == old_view,
                kept@.map_values(|e: (ChannelId, Timestamp, Event)| (e.0.0@, e.1, e.2@))
                    == entries_from(old_view.subrange(0, i as int), min_time),
            decreases self.events@.len() - i,
        {
            let ghost sub = old_view.subrange(0, i + 1);
            assert(sub.drop_last() =~= old_view.subrange(0, i as int));
            if self.events[i].1 >= min_time {
                let entry = (self.events[i].0, self.events[i].1, self.events[i].2.clone());
                let ghost before = kept@;
                kept.push(entry);
                assert(kept@.map_values(|e: (ChannelId, Timestamp, Event)| (e.0.0@, e.1, e.2@))
                    =~= before.map_values(|e: (ChannelId, Timestamp, Event)| (e.0.0@, e.1, e.2@)).push(
                    sub.last(),
                ));
            }
            i = i + 1;
        }
        assert(old_view.subrange(0, old_view.len() as int) =~= old_view);
        self.events = kept;
        proof {
            lemma_entries_from_ordered(old_view, min_time);
        }
    }
}

/// Keeping the later entries of an ordered log keeps it ordered.
pub proof fn lemma_entries_from_ordered(log: Seq<LogEntry>, time: Timestamp)
    requires
        time_ordered(log),
    ensures
        time_ordered(entries_from(log, time)),
        forall|i: int|
            0 <= i < entries_from(log, time).len() ==> exists|j: int|
                0 <= j < log.len() && #[trigger] entries_from(log, time)[i] == log[j],
    decreases log.len(),
{
    if log.len() > 0 {
        let rest = log.drop_last();
        assert(time_ordered(rest));
        lemma_entries_from_ordered(rest, time);
        let er = entries_from(rest, time);
        assert forall|i: int| 0 <= i < er.len() implies exists|j: int|
            0 <= j < log.len() && #[trigger] er[i] == log[j] by {
            let j = choose|j: int| 0 <= j < rest.len() && #[trigger] er[i] == rest[j];
            assert(er[i] == log[j]);
        }
        if log.last().1 >= time {
            let r = er.push(log.last());
            assert forall|a: int, b: int| 0 <= a < b < r.len() implies (#[trigger] r[a]).1 <= (
            #[trigger] r[b]).1 by {
                if b == r.len() - 1 {
                    let j = choose|j: int| 0 <= j < log.len() && #[trigger] er[a] == log[j];
                    if j < log.len() - 1 {
                        assert(log[j].1 <= log[log.len() - 1].1);
                    }
                }
            }
            assert forall|i: int| 0 <= i < r.len() implies exists|j: int|
                0 <= j < log.len() && #[trigger] r[i] == log[j] by {
                if i == r.len() - 1 {
                    assert(r[i] == log[log.len() - 1]);
                } else {
                    assert(r[i] == er[i]);
                }
            }
        }
    }
}

/// The event log of a service that accepts events only from one caller, the
/// adjudicator it serves.
pub struct CanisterState {
    perun_canister: L1Account,
    imple: LocalEventRegisterer,
}

impl CanisterState {
    /// The caller whose events are accepted.
    pub closed spec fn owner(&self) -> Seq<u8> {
        self.perun_canister.0@
    }

    /// The log.
    pub closed spec fn log(&self) -> Seq<LogEntry> {
        self.imple@
    }

    /// The log is ordered by time.
    pub closed spec fn wf(&self) -> bool {
        self.imple.wf()
    }

    /// A log that accepts events from `perun_canister`.
    pub fn new(perun_canister: L1Account) -> (r: CanisterState)
        ensures
            r.wf(),
            r.owner() == perun_canister.0@,
            r.log() == Seq::<LogEntry>::empty(),
    {
        CanisterState { perun_canister, imple: LocalEventRegisterer::new() }
    }

    /// Records the event if `caller` is the adjudicator served; ignores it
    /// otherwise.
    pub fn register_event(&mut self, caller: &L1Account, time: Timestamp, ch: ChannelId, e: Event)
        requires
            old(self).wf(),
        ensures
            final(self).wf(),
            final(self).owner() == old(self).owner(),
            caller.0@ != old(self).owner() ==> final(self).log() == old(self).log(),
            caller.0@ == old(self).owner() ==> inserted_in_order(
                old(self).log(),
                final(self).log(),
                (ch.0@, time, e@),
            ),
    {
        if crate::encoding::bytes_equal(caller.0.as_slice(), self.perun_canister.0.as_slice()) {
            self.imple.register_event(time, ch, e);
        }
    }

    /// The events of `ch` registered at or after `time`, in order.
    pub fn events_after(&self, ch: &ChannelId, time: Timestamp) -> (r: Vec<Event>)
        ensures
            r@.map_values(|e: Event| e@) == events_from(self.log(), ch.0@, time),
    {
        self.imple.events_after(ch, time)
    }
}

} // verus!
