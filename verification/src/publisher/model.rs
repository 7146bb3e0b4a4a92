//! The publisher as a mathematical state machine.
//!
//! Every accepted publish call gets a ticket: its position in the sequence of
//! entries, so tickets count the calls in the order in which they were made.
//! Each entry belongs to a lane. Lane 0 holds the messages without an
//! ordering key; every other lane holds the messages of one key.

use crate::error::{ErrorView, FaultView};
use crate::message::MessageView;
use vstd::prelude::*;

verus! {

/// Where a ticket stands.
pub enum SlotView {
    /// Accepted, not yet handed to the transport.
    Queued,
    /// Handed to the transport, no answer yet.
    InFlight,
    /// Resolved; the result waits for the caller.
    Resolved(Result<Seq<char>, ErrorView>),
    /// Resolved, and the caller has taken the result.
    Taken,
}

impl SlotView {
    /// Not yet resolved.
    pub open spec fn pending(self) -> bool {
        self is Queued || self is InFlight
    }
}

/// A lane: the messages of one ordering key.
pub struct LaneView {
    pub key: Seq<char>,
    /// The fault that aborted the lane, if one did.
    pub aborted: Option<FaultView>,
}

/// One accepted publish call.
pub struct EntryView {
    pub message: MessageView,
    /// The index of the lane of the message.
    pub lane: int,
    pub slot: SlotView,
    /// The position of this message among all messages handed to the
    /// transport, once it has been handed over.
    pub dispatched: Option<nat>,
}

/// Mathematical value of a publisher.
pub struct PublisherView {
    /// Whether the publisher has been shut down.
    pub closed: bool,
    /// The lanes in the order in which their keys were first seen, after
    /// lane 0.
    pub lanes: Seq<LaneView>,
    /// The accepted publish calls, by ticket.
    pub entries: Seq<EntryView>,
    /// How many messages have been handed to the transport.
    pub sends: nat,
}

/// What a failed publish leaves in the slot.
pub open spec fn failed(fault: FaultView) -> SlotView {
    SlotView::Resolved(Err(ErrorView::PublishFailed(fault)))
}

impl PublisherView {
    /// The publisher before any call: open, with the unordered lane alone.
    pub open spec fn fresh() -> PublisherView {
        PublisherView {
            closed: false,
            lanes: seq![LaneView { key: Seq::empty(), aborted: None }],
            entries: Seq::empty(),
            sends: 0,
        }
    }

    /// Whether `t` is a ticket that was given out.
    pub open spec fn has(self, t: int) -> bool {
        0 <= t < self.entries.len()
    }

    /// The lane of `key`: its index if the lane exists, else the index that
    /// a new lane would get.
    pub open spec fn lane_of(self, key: Seq<char>) -> int {
        if exists|l: int| 0 <= l < self.lanes.len() && (#[trigger] self.lanes[l]).key == key {
            choose|l: int| 0 <= l < self.lanes.len() && (#[trigger] self.lanes[l]).key == key
        } else {
            self.lanes.len() as int
        }
    }

    /// Whether a message of the lane is with the transport.
    pub open spec fn busy(self, lane: int) -> bool {
        exists|t: int|
            self.has(t) && (#[trigger] self.entries[t]).lane == lane && self.entries[t].slot is InFlight
    }

    /// Whether ticket `t` may be handed to the transport now: it is queued,
    /// and its lane, if ordered, has nothing with the transport.
    pub open spec fn eligible(self, t: int) -> bool {
        &&& self.has(t)
        &&& self.entries[t].slot is Queued
        &&& (self.entries[t].lane == 0 || !self.busy(self.entries[t].lane))
    }

    /// Whether `t` is the oldest ticket that may be handed over.
    pub open spec fn first_eligible(self, t: int) -> bool {
        &&& self.eligible(t)
        &&& forall|u: int| 0 <= u < t ==> !#[trigger] self.eligible(u)
    }

    /// Whether an answer for ticket `t` is awaited.
    pub open spec fn accepts(self, t: int) -> bool {
        self.has(t) && self.entries[t].slot is InFlight
    }

    /// Whether a result for ticket `t` waits for the caller.
    pub open spec fn ready(self, t: int) -> bool {
        self.has(t) && self.entries[t].slot is Resolved
    }

    /// Whether nothing is queued or with the transport.
    pub open spec fn flushed(self) -> bool {
        forall|t: int| self.has(t) ==> !(#[trigger] self.entries[t]).slot.pending()
    }

    /// A publish call. A closed publisher takes nothing. Otherwise the
    /// message gets the next ticket in its lane, which is added if the key
    /// is new; in an aborted lane the ticket is failed at once.
    pub open spec fn publish(self, message: MessageView) -> PublisherView {
        if self.closed {
            self
        } else {
            let lane = self.lane_of(message.ordering_key);
            let known = lane < self.lanes.len();
            let slot = if known && self.lanes[lane].aborted is Some {
                failed(self.lanes[lane].aborted->0)
            } else {
                SlotView::Queued
            };
            PublisherView {
                lanes: if known {
                    self.lanes
                } else {
                    self.lanes.push(LaneView { key: message.ordering_key, aborted: None })
                },
                entries: self.entries.push(EntryView { message, lane, slot, dispatched: None }),
                ..self
            }
        }
    }

    /// Ticket `t` goes to the transport.
    pub open spec fn dispatch(self, t: int) -> PublisherView {
        PublisherView {
            entries: self.entries.update(
                t,
                EntryView {
                    slot: SlotView::InFlight,
                    dispatched: Some(self.sends),
                    ..self.entries[t]
                },
            ),
            sends: self.sends + 1,
            ..self
        }
    }

    /// The transport's answer for ticket `t`. An answer that is not awaited
    /// changes nothing. A failure in an ordered lane aborts the lane: the
    /// lane keeps the fault and everything still queued in it fails with it.
    pub open spec fn complete(self, t: int, outcome: Result<Seq<char>, FaultView>) -> PublisherView {
        if !self.accepts(t) {
            self
        } else {
            match outcome {
                Ok(id) => PublisherView {
                    entries: self.entries.update(
                        t,
                        EntryView { slot: SlotView::Resolved(Ok(id)), ..self.entries[t] },
                    ),
                    ..self
                },
                Err(fault) => {
                    let lane = self.entries[t].lane;
                    if lane == 0 {
                        PublisherView {
                            entries: self.entries.update(
                                t,
                                EntryView { slot: failed(fault), ..self.entries[t] },
                            ),
                            ..self
                        }
                    } else {
                        PublisherView {
                            lanes: self.lanes.update(
                                lane,
                                LaneView { aborted: Some(fault), ..self.lanes[lane] },
                            ),
                            entries: Seq::new(
                                self.entries.len(),
                                |u: int|
                                    if self.entries[u].lane == lane && self.entries[u].slot.pending() {
                                        EntryView { slot: failed(fault), ..self.entries[u] }
                                    } else {
                                        self.entries[u]
                                    },
                            ),
                            ..self
                        }
                    }
                },
            }
        }
    }

    /// The caller takes the result of ticket `t`, if one waits.
    pub open spec fn take(self, t: int) -> PublisherView {
        if self.ready(t) {
            PublisherView {
                entries: self.entries.update(t, EntryView { slot: SlotView::Taken, ..self.entries[t] }),
                ..self
            }
        } else {
            self
        }
    }

    /// No more publish calls are taken.
    pub open spec fn shutdown(self) -> PublisherView {
        PublisherView { closed: true, ..self }
    }

    /// What holds of one entry in every state.
    pub open spec fn entry_wf(self, t: int) -> bool {
        let e = self.entries[t];
        &&& 0 <= e.lane < self.lanes.len()
        &&& e.message.ordering_key == self.lanes[e.lane].key
        &&& (self.lanes[e.lane].aborted is Some ==> !e.slot.pending())
        &&& (e.slot is Queued ==> e.dispatched is None)
        &&& (e.slot is InFlight ==> e.dispatched is Some)
        &&& (self.lanes[e.lane].aborted is None && !(e.slot is Queued) ==> e.dispatched is Some)
        &&& (e.dispatched is Some ==> e.dispatched->0 < self.sends)
    }

    /// What holds of an older entry `t` and a younger entry `u` in every
    /// state: no two messages share a position at the transport, and within
    /// an ordered lane at most one is with the transport and the younger is
    /// never handed over before the older.
    pub open spec fn pair_wf(self, t: int, u: int) -> bool {
        let a = self.entries[t];
        let b = self.entries[u];
        &&& (a.dispatched is Some && b.dispatched is Some ==> a.dispatched->0 != b.dispatched->0)
        &&& (a.lane == b.lane && a.lane != 0 ==> {
            &&& !(a.slot is InFlight && b.slot is InFlight)
            &&& (b.dispatched is Some ==> a.dispatched is Some && a.dispatched->0 < b.dispatched->0)
        })
    }

    /// The invariant of the publisher.
    pub open spec fn wf(self) -> bool {
        &&& self.lanes.len() >= 1
        &&& self.lanes[0].key.len() == 0
        &&& self.lanes[0].aborted is None
        &&& forall|a: int, b: int|
            0 <= a < b < self.lanes.len() ==> (#[trigger] self.lanes[a]).key != (
            #[trigger] self.lanes[b]).key
        &&& forall|t: int| self.has(t) ==> #[trigger] self.entry_wf(t)
        &&& forall|t: int, u: int| 0 <= t < u < self.entries.len() ==> #[trigger] self.pair_wf(t, u)
    }
}

/// A fresh publisher is well formed.
pub proof fn lemma_fresh_wf()
    ensures
        PublisherView::fresh().wf(),
{
}

/// With distinct keys, the lane that holds a key is the lane of that key.
pub proof fn lemma_lane_of(p: PublisherView, key: Seq<char>, l: int)
    requires
        p.wf(),
        0 <= l < p.lanes.len(),
        p.lanes[l].key == key,
    ensures
        p.lane_of(key) == l,
{
    let c = p.lane_of(key);
    assert(0 <= c < p.lanes.len() && p.lanes[c].key == key);
    if c < l {
        assert(p.lanes[c].key != p.lanes[l].key);
    } else if l < c {
        assert(p.lanes[l].key != p.lanes[c].key);
    }
}

/// A key that no lane holds gets a new lane.
pub proof fn lemma_lane_of_new(p: PublisherView, key: Seq<char>)
    requires
        forall|l: int| 0 <= l < p.lanes.len() ==> (#[trigger] p.lanes[l]).key != key,
    ensures
        p.lane_of(key) == p.lanes.len(),
{
}

/// Publishing keeps the invariant.
pub proof fn lemma_publish_wf(p: PublisherView, message: MessageView)
    requires
        p.wf(),
    ensures
        p.publish(message).wf(),
{
    let q = p.publish(message);
    if !p.closed {
        let lane = p.lane_of(message.ordering_key);
        let n = p.entries.len() as int;
        assert forall|a: int, b: int| 0 <= a < b < q.lanes.len() implies (#[trigger] q.lanes[a]).key != (
        #[trigger] q.lanes[b]).key by {
            if b < p.lanes.len() {
                assert(p.lanes[a].key != p.lanes[b].key);
            } else {
                assert(p.lanes[a].key != message.ordering_key);
            }
        }
        assert forall|t: int| q.has(t) implies #[trigger] q.entry_wf(t) by {
            if t < n {
                assert(p.entry_wf(t));
            }
        }
        assert forall|t: int, u: int| 0 <= t < u < q.entries.len() implies #[trigger] q.pair_wf(
            t,
            u,
        ) by {
            if u < n {
                assert(p.pair_wf(t, u));
            }
        }
    }
}

/// Handing over the oldest eligible ticket keeps the invariant.
pub proof fn lemma_dispatch_wf(p: PublisherView, t: int)
    requires
        p.wf(),
        p.first_eligible(t),
    ensures
        p.dispatch(t).wf(),
{
    let q = p.dispatch(t);
    let lane = p.entries[t].lane;
    assert(p.entry_wf(t));
    assert forall|u: int| q.has(u) implies #[trigger] q.entry_wf(u) by {
        assert(p.entry_wf(u));
    }
    assert forall|a: int, b: int| 0 <= a < b < q.entries.len() implies #[trigger] q.pair_wf(a, b) by {
        assert(p.pair_wf(a, b));
        assert(p.entry_wf(a));
        assert(p.entry_wf(b));
        if a == t && p.entries[b].lane == lane && lane != 0 {
            // nothing of the lane is with the transport, and nothing younger went first
            assert(!(p.entries[b].slot is InFlight));
        } else if b == t && p.entries[a].lane == lane && lane != 0 {
            assert(!(p.entries[a].slot is InFlight));
            assert(!p.eligible(a));
            assert(!(p.entries[a].slot is Queued));
        }
    }
}

/// An answer from the transport keeps the invariant.
pub proof fn lemma_complete_wf(p: PublisherView, t: int, outcome: Result<Seq<char>, FaultView>)
    requires
        p.wf(),
    ensures
        p.complete(t, outcome).wf(),
{
    let q = p.complete(t, outcome);
    if p.accepts(t) {
        assert(p.entry_wf(t));
        assert forall|u: int| q.has(u) implies #[trigger] q.entry_wf(u) by {
            assert(p.entry_wf(u));
        }
        assert forall|a: int, b: int| 0 <= a < b < q.entries.len() implies #[trigger] q.pair_wf(a, b) by {
            assert(p.pair_wf(a, b));
        }
        assert forall|a: int, b: int| 0 <= a < b < q.lanes.len() implies (#[trigger] q.lanes[a]).key != (
        #[trigger] q.lanes[b]).key by {
            assert(p.lanes[a].key != p.lanes[b].key);
        }
    }
}

/// Taking a result keeps the invariant.
pub proof fn lemma_take_wf(p: PublisherView, t: int)
    requires
        p.wf(),
    ensures
        p.take(t).wf(),
{
    let q = p.take(t);
    if p.ready(t) {
        assert forall|u: int| q.has(u) implies #[trigger] q.entry_wf(u) by {
            assert(p.entry_wf(u));
        }
        assert forall|a: int, b: int| 0 <= a < b < q.entries.len() implies #[trigger] q.pair_wf(a, b) by {
            assert(p.pair_wf(a, b));
        }
    }
}

/// Shutting down keeps the invariant.
pub proof fn lemma_shutdown_wf(p: PublisherView)
    requires
        p.wf(),
    ensures
        p.shutdown().wf(),
{
    let q = p.shutdown();
    assert forall|u: int| q.has(u) implies #[trigger] q.entry_wf(u) by {
        assert(p.entry_wf(u));
    }
    assert forall|a: int, b: int| 0 <= a < b < q.entries.len() implies #[trigger] q.pair_wf(a, b) by {
        assert(p.pair_wf(a, b));
    }
}

/// How many of the entries are queued.
pub open spec fn queued(entries: Seq<EntryView>) -> nat
    decreases entries.len(),
{
    if entries.len() == 0 {
        0
    } else if entries.last().slot is Queued {
        queued(entries.drop_last()) + 1
    } else {
        queued(entries.drop_last())
    }
}

/// Taking a queued entry out of the queue leaves one queued entry fewer.
pub proof fn lemma_queued_one_fewer(entries: Seq<EntryView>, t: int, entry: EntryView)
    requires
        0 <= t < entries.len(),
        entries[t].slot is Queued,
        !(entry.slot is Queued),
    ensures
        queued(entries.update(t, entry)) + 1 == queued(entries),
    decreases entries.len(),
{
    let changed = entries.update(t, entry);
    if t == entries.len() - 1 {
        assert(changed.drop_last() =~= entries.drop_last());
    } else {
        assert(changed.drop_last() =~= entries.drop_last().update(t, entry));
        lemma_queued_one_fewer(entries.drop_last(), t, entry);
    }
}

/// Where nothing joins the queue, no more entries are queued than before.
pub proof fn lemma_queued_no_more(before: Seq<EntryView>, after: Seq<EntryView>)
    requires
        before.len() == after.len(),
        forall|t: int|
            0 <= t < after.len() && (#[trigger] after[t]).slot is Queued ==> before[t].slot is Queued,
    ensures
        queued(after) <= queued(before),
    decreases before.len(),
{
    if before.len() > 0 {
        assert forall|t: int|
            0 <= t < after.drop_last().len() && (#[trigger] after.drop_last()[t]).slot is Queued implies before.drop_last()[t].slot is Queued by {
            assert(after[t].slot is Queued);
        }
        lemma_queued_no_more(before.drop_last(), after.drop_last());
        assert(after.last() == after[after.len() - 1]);
    }
}

/// Sending a ticket and recording the answer leaves fewer tickets queued.
pub proof fn lemma_send_shrinks(p: PublisherView, t: int, outcome: Result<Seq<char>, FaultView>)
    requires
        p.eligible(t),
    ensures
        queued(p.dispatch(t).complete(t, outcome).entries) < queued(p.entries),
{
    let sent = p.dispatch(t);
    lemma_queued_one_fewer(p.entries, t, sent.entries[t]);
    lemma_queued_no_more(sent.entries, sent.complete(t, outcome).entries);
}

} // verus!
