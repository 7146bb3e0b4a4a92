//! What holds of a publisher over any sequence of calls.

use crate::error::FaultView;
use crate::message::MessageView;
use crate::publisher::model::{
    failed, lemma_complete_wf, lemma_dispatch_wf, lemma_fresh_wf, lemma_lane_of, lemma_publish_wf,
    lemma_shutdown_wf, lemma_take_wf, PublisherView, SlotView,
};
use vstd::prelude::*;

verus! {

/// One call on a publisher, by whichever caller made it. Calls from
/// concurrent callers take effect one after the other, in some order.
pub enum Call {
    Publish(MessageView),
    NextSend,
    Complete(int, Result<Seq<char>, FaultView>),
    Take(int),
    Shutdown,
}

impl PublisherView {
    /// The ticket that goes to the transport next, if one can go.
    pub open spec fn pick(self) -> Option<int> {
        if exists|t: int| self.first_eligible(t) {
            Some(choose|t: int| self.first_eligible(t))
        } else {
            None
        }
    }

    /// The state after one call.
    pub open spec fn step(self, call: Call) -> PublisherView {
        match call {
            Call::Publish(message) => self.publish(message),
            Call::NextSend => match self.pick() {
                Some(t) => self.dispatch(t),
                None => self,
            },
            Call::Complete(t, outcome) => self.complete(t, outcome),
            Call::Take(t) => self.take(t),
            Call::Shutdown => self.shutdown(),
        }
    }

    /// The state after a sequence of calls.
    pub open spec fn run(self, calls: Seq<Call>) -> PublisherView
        decreases calls.len(),
    {
        if calls.len() == 0 {
            self
        } else {
            self.run(calls.drop_last()).step(calls.last())
        }
    }

    /// Whether ticket `t` has been handed to the transport.
    pub open spec fn sent(self, t: int) -> bool {
        self.has(t) && self.entries[t].dispatched is Some
    }
}

/// The oldest eligible ticket is the one that is picked.
pub proof fn lemma_pick_first(p: PublisherView, t: int)
    requires
        p.first_eligible(t),
    ensures
        p.pick() == Some(t),
{
    let c = choose|c: int| p.first_eligible(c);
    if c < t {
        assert(!p.eligible(c));
    } else if t < c {
        assert(!p.eligible(t));
    }
}

/// Where a ticket is eligible, there is an oldest eligible ticket at or
/// before it.
pub proof fn lemma_oldest_eligible(p: PublisherView, t: int) -> (first: int)
    requires
        p.eligible(t),
    ensures
        0 <= first <= t,
        p.first_eligible(first),
    decreases t,
{
    if exists|u: int| 0 <= u < t && p.eligible(u) {
        let u = choose|u: int| 0 <= u < t && p.eligible(u);
        lemma_oldest_eligible(p, u)
    } else {
        t
    }
}

/// Every call keeps the invariant.
pub proof fn lemma_step_wf(p: PublisherView, call: Call)
    requires
        p.wf(),
    ensures
        p.step(call).wf(),
{
    match call {
        Call::Publish(message) => lemma_publish_wf(p, message),
        Call::NextSend => {
            if let Some(t) = p.pick() {
                lemma_dispatch_wf(p, t);
            }
        },
        Call::Complete(t, outcome) => lemma_complete_wf(p, t, outcome),
        Call::Take(t) => lemma_take_wf(p, t),
        Call::Shutdown => lemma_shutdown_wf(p),
    }
}

/// The invariant holds after any sequence of calls.
pub proof fn lemma_run_wf(p: PublisherView, calls: Seq<Call>)
    requires
        p.wf(),
    ensures
        p.run(calls).wf(),
    decreases calls.len(),
{
    if calls.len() > 0 {
        lemma_run_wf(p, calls.drop_last());
        lemma_step_wf(p.run(calls.drop_last()), calls.last());
    }
}

/// Lane order. After any sequence of calls on a fresh publisher, of two
/// messages with the same ordering key the one published later has reached
/// the transport only if the one published earlier reached it before.
pub proof fn law_lane_order(calls: Seq<Call>, t: int, u: int)
    requires
        0 <= t < u < PublisherView::fresh().run(calls).entries.len(),
        PublisherView::fresh().run(calls).entries[t].message.is_ordered(),
        PublisherView::fresh().run(calls).entries[t].message.ordering_key
            == PublisherView::fresh().run(calls).entries[u].message.ordering_key,
        PublisherView::fresh().run(calls).sent(u),
    ensures
        PublisherView::fresh().run(calls).sent(t),
        PublisherView::fresh().run(calls).entries[t].dispatched->0
            < PublisherView::fresh().run(calls).entries[u].dispatched->0,
{
    lemma_fresh_wf();
    lemma_run_wf(PublisherView::fresh(), calls);
    lemma_same_key_same_lane(PublisherView::fresh().run(calls), t, u);
}

/// Two entries with the same ordering key are in the same lane, and the
/// lane is an ordered one if the key is not empty.
pub proof fn lemma_same_key_same_lane(p: PublisherView, t: int, u: int)
    requires
        p.wf(),
        0 <= t < u < p.entries.len(),
        p.entries[t].message.ordering_key == p.entries[u].message.ordering_key,
    ensures
        p.entries[t].lane == p.entries[u].lane,
        p.entries[t].message.is_ordered() ==> p.entries[t].lane != 0,
        p.pair_wf(t, u),
{
    assert(p.entry_wf(t));
    assert(p.entry_wf(u));
    assert(p.pair_wf(t, u));
    let a = p.entries[t].lane;
    let b = p.entries[u].lane;
    if a < b {
        assert(p.lanes[a].key != p.lanes[b].key);
    } else if b < a {
        assert(p.lanes[b].key != p.lanes[a].key);
    }
}

/// One at a time. In every state of a publisher, of two messages with the
/// same ordering key at most one is with the transport.
pub proof fn law_lane_one_at_a_time(p: PublisherView, t: int, u: int)
    requires
        p.wf(),
        0 <= t < u < p.entries.len(),
        p.entries[t].message.is_ordered(),
        p.entries[t].message.ordering_key == p.entries[u].message.ordering_key,
    ensures
        !(p.accepts(t) && p.accepts(u)),
{
    lemma_same_key_same_lane(p, t, u);
}

/// No two messages are handed to the transport at the same position: the
/// transport sees each message it gets once.
pub proof fn law_sent_once(p: PublisherView, t: int, u: int)
    requires
        p.wf(),
        p.sent(t),
        p.sent(u),
        t != u,
    ensures
        p.entries[t].dispatched->0 != p.entries[u].dispatched->0,
{
    if t < u {
        assert(p.pair_wf(t, u));
    } else {
        assert(p.pair_wf(u, t));
    }
}

/// One resolution. The first answer for a ticket that is with the transport
/// resolves it with exactly that answer, and any further answer for
/// the same ticket changes nothing.
pub proof fn law_resolved_once(
    p: PublisherView,
    t: int,
    first: Result<Seq<char>, FaultView>,
    second: Result<Seq<char>, FaultView>,
)
    requires
        p.wf(),
        p.accepts(t),
    ensures
        p.complete(t, first).entries[t].slot == (match first {
            Ok(id) => SlotView::Resolved(Ok(id)),
            Err(fault) => failed(fault),
        }),
        p.complete(t, first).entries[t].message == p.entries[t].message,
        !p.complete(t, first).accepts(t),
        p.complete(t, first).complete(t, second) == p.complete(t, first),
{
}

/// No sibling is touched. An answer for a message without an ordering key,
/// whatever it is, leaves every other ticket as it was; so does a success in
/// any lane, and a failure leaves every ticket outside its lane as it was.
pub proof fn law_answer_stays_in_lane(
    p: PublisherView,
    t: int,
    outcome: Result<Seq<char>, FaultView>,
    u: int,
)
    requires
        p.wf(),
        p.has(t),
        p.has(u),
        u != t,
        !p.entries[t].message.is_ordered() || outcome is Ok || p.entries[t].message.ordering_key
            != p.entries[u].message.ordering_key,
    ensures
        p.complete(t, outcome).entries[u] == p.entries[u],
{
    assert(p.entry_wf(t));
    assert(p.entry_wf(u));
    lemma_unordered_lane(p, t);
}

/// The messages without an ordering key are those of lane 0.
pub proof fn lemma_unordered_lane(p: PublisherView, t: int)
    requires
        p.wf(),
        p.has(t),
    ensures
        p.entries[t].lane == 0 <==> !p.entries[t].message.is_ordered(),
{
    assert(p.entry_wf(t));
    let lane = p.entries[t].lane;
    if lane != 0 && !p.entries[t].message.is_ordered() {
        assert(p.lanes[0].key =~= p.lanes[lane].key);
    }
}

/// A failed lane stays failed. After a failure in an ordered lane nothing of
/// that lane is queued or with the transport, and whatever is published to
/// it later fails at once with the same fault and is never sent.
pub proof fn law_lane_abort(p: PublisherView, t: int, fault: FaultView, later: MessageView)
    requires
        p.wf(),
        !p.closed,
        p.accepts(t),
        p.entries[t].message.is_ordered(),
        later.ordering_key == p.entries[t].message.ordering_key,
    ensures
        forall|u: int|
            p.has(u) && (#[trigger] p.entries[u]).message.ordering_key == later.ordering_key
                ==> !p.complete(t, Err(fault)).entries[u].slot.pending(),
        p.complete(t, Err(fault)).publish(later).entries.last().slot == failed(fault),
        p.complete(t, Err(fault)).publish(later).entries.last().dispatched is None,
{
    let q = p.complete(t, Err(fault));
    lemma_complete_wf(p, t, Err(fault));
    assert(p.entry_wf(t));
    let lane = p.entries[t].lane;
    assert(lane != 0);
    assert forall|u: int|
        p.has(u) && (#[trigger] p.entries[u]).message.ordering_key
            == later.ordering_key implies !q.entries[u].slot.pending() by {
        if u < t {
            lemma_same_key_same_lane(p, u, t);
        } else if t < u {
            lemma_same_key_same_lane(p, t, u);
        }
    }
    lemma_lane_of(q, later.ordering_key, lane);
}

/// Closed is final. Once a publisher is closed, no sequence of calls opens
/// it again or adds a ticket to it: a publish call after shutdown takes
/// nothing, so nothing of it can reach the transport.
pub proof fn law_closed_takes_nothing(p: PublisherView, calls: Seq<Call>)
    requires
        p.closed,
    ensures
        p.run(calls).closed,
        p.run(calls).entries.len() == p.entries.len(),
        forall|t: int|
            p.has(t) ==> (#[trigger] p.run(calls).entries[t]).message == p.entries[t].message,
    decreases calls.len(),
{
    if calls.len() > 0 {
        law_closed_takes_nothing(p, calls.drop_last());
        let q = p.run(calls.drop_last());
        let r = q.step(calls.last());
        assert forall|t: int| p.has(t) implies (#[trigger] r.entries[t]).message
            == p.entries[t].message by {
            assert(q.entries[t].message == p.entries[t].message);
        }
    }
}

/// Shutdown closes. Whatever is called after a shutdown, every publish call
/// among it leaves the publisher as it found it.
pub proof fn law_publish_after_shutdown(p: PublisherView, calls: Seq<Call>, message: MessageView)
    ensures
        p.shutdown().run(calls).publish(message) == p.shutdown().run(calls),
{
    law_closed_takes_nothing(p.shutdown(), calls);
}

/// No deadlock. While something is unresolved, either an answer is awaited
/// or a ticket can go to the transport, so a driver that keeps sending and
/// reporting answers flushes the publisher.
pub proof fn law_progress(p: PublisherView)
    requires
        p.wf(),
        !p.flushed(),
    ensures
        (exists|t: int| p.accepts(t)) || p.pick() is Some,
{
    if !(exists|t: int| p.accepts(t)) {
        let t = choose|t: int| p.has(t) && (#[trigger] p.entries[t]).slot.pending();
        assert(!p.accepts(t));
        assert(p.entries[t].slot is Queued);
        let lane = p.entries[t].lane;
        if p.busy(lane) {
            let u = choose|u: int|
                p.has(u) && (#[trigger] p.entries[u]).lane == lane && p.entries[u].slot is InFlight;
            assert(p.accepts(u));
        }
        assert(p.eligible(t));
        let first = lemma_oldest_eligible(p, t);
        lemma_pick_first(p, first);
    }
}

} // verus!
