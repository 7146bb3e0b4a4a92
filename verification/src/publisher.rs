//! Publishing through ordering lanes.
//!
//! A [`Publisher`] takes messages, sorts them into lanes and decides which
//! message the transport gets next. It never talks to the transport itself:
//! the driver asks [`Publisher::next_send`] for a ticket, sends that
//! ticket's message, and reports the answer with [`Publisher::complete`].

pub mod laws;
pub mod model;

use crate::error::{outcome_view, Error, Fault, FaultView};
use crate::message::Message;
use crate::publisher::model::{
    lemma_complete_wf, lemma_dispatch_wf, lemma_lane_of, lemma_lane_of_new, lemma_publish_wf,
    lemma_shutdown_wf, lemma_take_wf, EntryView, LaneView, PublisherView, SlotView,
};
use vstd::prelude::*;

verus! {

/// Where a ticket stands.
pub enum Slot {
    Queued,
    InFlight,
    Resolved(Result<String, Error>),
    Taken,
}

impl View for Slot {
    type V = SlotView;

    open spec fn view(&self) -> SlotView {
        match self {
            Slot::Queued => SlotView::Queued,
            Slot::InFlight => SlotView::InFlight,
            Slot::Resolved(outcome) => SlotView::Resolved(outcome_view(*outcome)),
            Slot::Taken => SlotView::Taken,
        }
    }
}

struct Lane {
    key: String,
    in_flight: bool,
    aborted: Option<Fault>,
}

impl View for Lane {
    type V = LaneView;

    closed spec fn view(&self) -> LaneView {
        LaneView {
            key: self.key@,
            aborted: match self.aborted {
                Some(fault) => Some(fault@),
                None => None,
            },
        }
    }
}

struct Entry {
    message: Message,
    lane: usize,
    slot: Slot,
    dispatched: Ghost<Option<nat>>,
}

impl View for Entry {
    type V = EntryView;

    closed spec fn view(&self) -> EntryView {
        EntryView {
            message: self.message@,
            lane: self.lane as int,
            slot: self.slot@,
            dispatched: self.dispatched@,
        }
    }
}

/// Mathematical value of an answer from the transport: the identifier the
/// broker assigned, or the fault.
pub open spec fn answer_view(answer: Result<String, Fault>) -> Result<Seq<char>, FaultView> {
    match answer {
        Ok(id) => Ok(id@),
        Err(fault) => Err(fault@),
    }
}

/// The publisher of one topic.
pub struct Publisher {
    closed: bool,
    lanes: Vec<Lane>,
    entries: Vec<Entry>,
    sends: Ghost<nat>,
}

impl View for Publisher {
    type V = PublisherView;

    closed spec fn view(&self) -> PublisherView {
        PublisherView {
            closed: self.closed,
            lanes: Seq::new(self.lanes@.len(), |l: int| self.lanes@[l]@),
            entries: Seq::new(self.entries@.len(), |t: int| self.entries@[t]@),
            sends: self.sends@,
        }
    }
}

impl Publisher {
    /// The invariant: the one of the model, and each ordered lane knows
    /// whether one of its messages is with the transport.
    pub closed spec fn wf(&self) -> bool {
        &&& self@.wf()
        &&& forall|l: int|
            1 <= l < self.lanes@.len() ==> (#[trigger] self.lanes@[l]).in_flight == self@.busy(l)
    }

    /// The invariant of the model holds of every well-formed publisher.
    pub proof fn lemma_wf_view(&self)
        requires
            self.wf(),
        ensures
            self@.wf(),
    {
    }

    /// An open publisher that has taken nothing yet.
    pub fn new() -> (p: Publisher)
        ensures
            p.wf(),
            p@ == PublisherView::fresh(),
    {
        let mut lanes: Vec<Lane> = Vec::new();
        lanes.push(Lane { key: String::new(), in_flight: false, aborted: None });
        let p = Publisher { closed: false, lanes, entries: Vec::new(), sends: Ghost(0) };
        proof {
            assert(p@.lanes =~= PublisherView::fresh().lanes);
            assert(p@.entries =~= PublisherView::fresh().entries);
        }
        p
    }

    /// Whether the publisher has been shut down.
    pub fn is_closed(&self) -> (closed: bool)
        ensures
            closed == self@.closed,
    {
        self.closed
    }

    /// How many publish calls have been accepted.
    pub fn tickets(&self) -> (n: usize)
        ensures
            n == self@.entries.len(),
    {
        self.entries.len()
    }

    /// The index of the lane that holds `key`, or the number of lanes if
    /// none does.
    fn find_lane(&self, key: &String) -> (lane: usize)
        requires
            self.wf(),
        ensures
            lane == self@.lane_of(key@),
            lane <= self.lanes@.len(),
    {
        let mut l: usize = 0;
        while l < self.lanes.len()
            invariant
                self.wf(),
                l <= self.lanes@.len(),
                forall|i: int| 0 <= i < l ==> (#[trigger] self@.lanes[i]).key != key@,
            decreases self.lanes@.len() - l,
        {
            if self.lanes[l].key == *key {
                proof {
                    lemma_lane_of(self@, key@, l as int);
                }
                return l;
            }
            l += 1;
        }
        proof {
            lemma_lane_of_new(self@, key@);
        }
        l
    }

    /// Takes a message for publishing and returns its ticket.
    ///
    /// After shutdown nothing is taken and the call fails with
    /// [`Error::Closed`]. Otherwise the ticket is the number of calls that
    /// were accepted before this one. In a lane that has aborted the ticket
    /// is failed at once and never reaches the transport.
    pub fn publish(&mut self, message: Message) -> (result: Result<usize, Error>)
        requires
            old(self).wf(),
        ensures
            final(self).wf(),
            final(self)@ == old(self)@.publish(message@),
            old(self)@.closed ==> result is Err && result->Err_0@ is Closed,
            !old(self)@.closed ==> result is Ok && result->Ok_0 == old(self)@.entries.len(),
    {
        if self.closed {
            return Err(Error::Closed);
        }
        let ghost before = self@;
        let lane = self.find_lane(&message.ordering_key);
        let ticket = self.entries.len();
        let mut slot = Slot::Queued;
        if lane < self.lanes.len() {
            if let Some(fault) = &self.lanes[lane].aborted {
                slot = Slot::Resolved(Err(Error::PublishFailed(fault.duplicate())));
            }
        } else {
            self.lanes.push(Lane { key: message.ordering_key.clone(), in_flight: false, aborted: None });
        }
        self.entries.push(Entry { message, lane, slot, dispatched: Ghost(None) });
        proof {
            let after = before.publish(message@);
            assert(self@.lanes =~= after.lanes);
            assert(self@.entries =~= after.entries);
            lemma_publish_wf(before, message@);
            assert forall|l: int| 1 <= l < self.lanes@.len() implies (#[trigger] self.lanes@[l]).in_flight
                == self@.busy(l) by {
                lemma_busy_frame(before, self@, l);
                if l >= before.lanes.len() {
                    assert(!before.busy(l)) by {
                        assert forall|t: int| before.has(t) implies (#[trigger] before.entries[t]).lane != l by {
                            assert(before.entry_wf(t));
                        }
                    }
                }
            }
        }
        Ok(ticket)
    }

    /// Picks the message that the transport gets next.
    ///
    /// The pick is the oldest ticket that is queued and whose lane, if
    /// ordered, has nothing with the transport; it is marked as handed over.
    /// `None` means that no ticket can go now.
    pub fn next_send(&mut self) -> (pick: Option<usize>)
        requires
            old(self).wf(),
        ensures
            final(self).wf(),
            match pick {
                Some(t) => old(self)@.first_eligible(t as int) && final(self)@ == old(self)@.dispatch(
                    t as int,
                ),
                None => final(self)@ == old(self)@ && forall|t: int| !old(self)@.eligible(t),
            },
    {
        let ghost before = self@;
        let mut t: usize = 0;
        while t < self.entries.len()
            invariant
                self.wf(),
                self@ == before,
                before == old(self)@,
                t <= self.entries@.len(),
                forall|u: int| 0 <= u < t ==> !#[trigger] before.eligible(u),
            decreases self.entries@.len() - t,
        {
            let lane = self.entries[t].lane;
            proof {
                assert(before.entry_wf(t as int));
            }
            let queued = match self.entries[t].slot {
                Slot::Queued => true,
                _ => false,
            };
            if queued && (lane == 0 || !self.lanes[lane].in_flight) {
                assert(before.first_eligible(t as int));
                self.entries[t].slot = Slot::InFlight;
                self.entries[t].dispatched = Ghost(Some(self.sends@));
                self.sends = Ghost(self.sends@ + 1);
                if lane != 0 {
                    self.lanes[lane].in_flight = true;
                }
                proof {
                    let after = before.dispatch(t as int);
                    assert(self@.lanes =~= after.lanes);
                    assert(self@.entries =~= after.entries);
                    lemma_dispatch_wf(before, t as int);
                    assert forall|l: int| 1 <= l < self.lanes@.len() implies (
                    #[trigger] self.lanes@[l]).in_flight == self@.busy(l) by {
                        if l == lane {
                            assert(self@.has(t as int) && self@.entries[t as int].lane == l
                                && self@.entries[t as int].slot is InFlight);
                        } else {
                            lemma_busy_frame(before, self@, l);
                        }
                    }
                }
                return Some(t);
            }
            t += 1;
        }
        None
    }

    /// The message of a ticket.
    pub fn message(&self, ticket: usize) -> (message: Option<&Message>)
        ensures
            match message {
                Some(m) => self@.has(ticket as int) && m@ == self@.entries[ticket as int].message,
                None => !self@.has(ticket as int),
            },
    {
        if ticket < self.entries.len() {
            Some(&self.entries[ticket].message)
        } else {
            None
        }
    }

    /// Records the transport's answer for a ticket and says whether the
    /// answer was awaited.
    ///
    /// An answer is awaited once, for a ticket that [`next_send`] gave out;
    /// any other answer changes nothing. A success resolves the ticket with
    /// the identifier. A failure resolves it with [`Error::PublishFailed`];
    /// in an ordered lane it also aborts the lane, which fails everything
    /// still queued there, while every other lane is left alone.
    ///
    /// [`next_send`]: Publisher::next_send
    pub fn complete(&mut self, ticket: usize, answer: Result<String, Fault>) -> (accepted: bool)
        requires
            old(self).wf(),
        ensures
            final(self).wf(),
            accepted == old(self)@.accepts(ticket as int),
            final(self)@ == old(self)@.complete(ticket as int, answer_view(answer)),
    {
        let ghost before = self@;
        if ticket >= self.entries.len() {
            return false;
        }
        let in_flight = match self.entries[ticket].slot {
            Slot::InFlight => true,
            _ => false,
        };
        if !in_flight {
            return false;
        }
        let lane = self.entries[ticket].lane;
        proof {
            assert(before.entry_wf(ticket as int));
            lemma_complete_wf(before, ticket as int, answer_view(answer));
        }
        match answer {
            Ok(id) => {
                self.entries[ticket].slot = Slot::Resolved(Ok(id));
                if lane != 0 {
                    self.lanes[lane].in_flight = false;
                }
                proof {
                    let after = before.complete(ticket as int, answer_view(answer));
                    assert(self@.lanes =~= after.lanes);
                    assert(self@.entries =~= after.entries);
                    self.lemma_lane_released(before, ticket as int);
                }
            },
            Err(fault) => {
                if lane == 0 {
                    self.entries[ticket].slot = Slot::Resolved(Err(Error::PublishFailed(fault)));
                    proof {
                        let after = before.complete(ticket as int, answer_view(answer));
                        assert(self@.lanes =~= after.lanes);
                        assert(self@.entries =~= after.entries);
                        self.lemma_lane_released(before, ticket as int);
                    }
                } else {
                    self.lanes[lane].in_flight = false;
                    self.lanes[lane].aborted = Some(fault.duplicate());
                    let ghost after = before.complete(ticket as int, answer_view(answer));
                    let mut u: usize = 0;
                    while u < self.entries.len()
                        invariant
                            before.wf(),
                            before.accepts(ticket as int),
                            before.entries[ticket as int].lane == lane,
                            lane != 0,
                            answer_view(answer) == Err::<Seq<char>, FaultView>(fault@),
                            after == before.complete(ticket as int, answer_view(answer)),
                            u <= self.entries@.len(),
                            self.entries@.len() == before.entries.len(),
                            self@.closed == before.closed,
                            self@.sends == before.sends,
                            self@.lanes =~= after.lanes,
                            forall|i: int| 0 <= i < u ==> (#[trigger] self@.entries[i]) == after.entries[i],
                            forall|i: int|
                                u <= i < self.entries@.len() ==> (#[trigger] self@.entries[i])
                                    == before.entries[i],
                            forall|l: int|
                                1 <= l < self.lanes@.len() ==> (#[trigger] self.lanes@[l]).in_flight == (
                                if l == lane {
                                    false
                                } else {
                                    before.busy(l)
                                }),
                        decreases self.entries@.len() - u,
                    {
                        let ghost prev = self@;
                        let pending = match self.entries[u].slot {
                            Slot::Queued => true,
                            Slot::InFlight => true,
                            _ => false,
                        };
                        if self.entries[u].lane == lane && pending {
                            self.entries[u].slot = Slot::Resolved(
                                Err(Error::PublishFailed(fault.duplicate())),
                            );
                        }
                        proof {
                            assert(prev.entries[u as int] == before.entries[u as int]);
                            assert(self@.entries[u as int] == after.entries[u as int]);
                            assert forall|i: int| 0 <= i < u implies (#[trigger] self@.entries[i])
                                == after.entries[i] by {
                                assert(prev.entries[i] == after.entries[i]);
                            }
                            assert forall|i: int| u < i < self.entries@.len() implies (
                            #[trigger] self@.entries[i]) == before.entries[i] by {
                                assert(prev.entries[i] == before.entries[i]);
                            }
                        }
                        u += 1;
                    }
                    proof {
                        assert(self@.entries =~= after.entries);
                        self.lemma_lane_released(before, ticket as int);
                    }
                }
            },
        }
        true
    }

    /// After an answer for `ticket`, the lanes' flags agree with the model
    /// again: the ticket's lane is free and the others are untouched.
    proof fn lemma_lane_released(&self, before: PublisherView, ticket: int)
        requires
            before.wf(),
            self@.wf(),
            before.accepts(ticket),
            self@.entries.len() == before.entries.len(),
            self@.lanes.len() == before.lanes.len(),
            forall|t: int|
                before.has(t) ==> (#[trigger] self@.entries[t]).lane == before.entries[t].lane && (
                self@.entries[t].slot is InFlight ==> before.entries[t].slot is InFlight) && (
                before.entries[t].lane != before.entries[ticket].lane ==> self@.entries[t].slot
                    == before.entries[t].slot),
            !(self@.entries[ticket].slot is InFlight),
            forall|l: int|
                1 <= l < self.lanes@.len() ==> (#[trigger] self.lanes@[l]).in_flight == (if l
                    == before.entries[ticket].lane {
                    false
                } else {
                    before.busy(l)
                }),
        ensures
            self.wf(),
    {
        let lane = before.entries[ticket].lane;
        assert forall|l: int| 1 <= l < self.lanes@.len() implies (#[trigger] self.lanes@[l]).in_flight
            == self@.busy(l) by {
            if l == lane {
                if self@.busy(l) {
                    let t = choose|t: int|
                        self@.has(t) && (#[trigger] self@.entries[t]).lane == l
                            && self@.entries[t].slot is InFlight;
                    assert(before.entries[t].slot is InFlight);
                    if t < ticket {
                        assert(before.pair_wf(t, ticket));
                    } else if ticket < t {
                        assert(before.pair_wf(ticket, t));
                    }
                }
            } else {
                lemma_busy_frame(before, self@, l);
            }
        }
    }

    /// Hands the result of a ticket to the caller, once.
    ///
    /// `None` means that no result waits: the ticket is unknown or not yet
    /// resolved, or its result has been taken before.
    pub fn take_result(&mut self, ticket: usize) -> (result: Option<Result<String, Error>>)
        requires
            old(self).wf(),
        ensures
            final(self).wf(),
            final(self)@ == old(self)@.take(ticket as int),
            match result {
                Some(outcome) => old(self)@.ready(ticket as int) && old(self)@.entries[ticket as int].slot
                    == SlotView::Resolved(outcome_view(outcome)),
                None => !old(self)@.ready(ticket as int),
            },
    {
        let ghost before = self@;
        if ticket >= self.entries.len() {
            return None;
        }
        let ready = match self.entries[ticket].slot {
            Slot::Resolved(_) => true,
            _ => false,
        };
        if !ready {
            return None;
        }
        let mut slot = Slot::Taken;
        std::mem::swap(&mut self.entries[ticket].slot, &mut slot);
        proof {
            let after = before.take(ticket as int);
            assert(self@.lanes =~= after.lanes);
            assert(self@.entries =~= after.entries);
            lemma_take_wf(before, ticket as int);
            assert forall|l: int| 1 <= l < self.lanes@.len() implies (#[trigger] self.lanes@[l]).in_flight
                == self@.busy(l) by {
                lemma_busy_frame(before, self@, l);
            }
        }
        match slot {
            Slot::Resolved(outcome) => Some(outcome),
            _ => None,
        }
    }

    /// Stops taking messages. What has been taken is still sent: the driver
    /// goes on until [`is_flushed`](Publisher::is_flushed) holds.
    pub fn shutdown(&mut self)
        requires
            old(self).wf(),
        ensures
            final(self).wf(),
            final(self)@ == old(self)@.shutdown(),
    {
        let ghost before = self@;
        self.closed = true;
        proof {
            assert(self@.lanes =~= before.lanes);
            assert(self@.entries =~= before.entries);
            lemma_shutdown_wf(before);
            assert forall|l: int| 1 <= l < self.lanes@.len() implies (#[trigger] self.lanes@[l]).in_flight
                == self@.busy(l) by {
                lemma_busy_frame(before, self@, l);
            }
        }
    }

    /// Whether every accepted message has been resolved.
    pub fn is_flushed(&self) -> (flushed: bool)
        ensures
            flushed == self@.flushed(),
    {
        let mut t: usize = 0;
        while t < self.entries.len()
            invariant
                t <= self.entries@.len(),
                forall|u: int| 0 <= u < t ==> !(#[trigger] self@.entries[u]).slot.pending(),
            decreases self.entries@.len() - t,
        {
            let pending = match self.entries[t].slot {
                Slot::Queued => true,
                Slot::InFlight => true,
                _ => false,
            };
            if pending {
                assert(self@.has(t as int) && self@.entries[t as int].slot.pending());
                return false;
            }
            t += 1;
        }
        true
    }
}

/// Whether a lane is busy depends only on which of its entries are with the
/// transport.
pub proof fn lemma_busy_frame(p: PublisherView, q: PublisherView, lane: int)
    requires
        p.entries.len() <= q.entries.len(),
        forall|t: int|
            0 <= t < p.entries.len() ==> (((#[trigger] p.entries[t]).lane == lane
                && p.entries[t].slot is InFlight) <==> (q.entries[t].lane == lane
                && q.entries[t].slot is InFlight)),
        forall|t: int|
            p.entries.len() <= t < q.entries.len() ==> !((#[trigger] q.entries[t]).lane == lane
                && q.entries[t].slot is InFlight),
    ensures
        p.busy(lane) == q.busy(lane),
{
    if p.busy(lane) {
        let t = choose|t: int|
            p.has(t) && (#[trigger] p.entries[t]).lane == lane && p.entries[t].slot is InFlight;
        assert(q.has(t) && q.entries[t].lane == lane && q.entries[t].slot is InFlight);
    }
    if q.busy(lane) {
        let t = choose|t: int|
            q.has(t) && (#[trigger] q.entries[t]).lane == lane && q.entries[t].slot is InFlight;
        assert(p.has(t) && p.entries[t].lane == lane && p.entries[t].slot is InFlight);
    }
}

} // verus!
