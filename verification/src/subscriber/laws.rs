//! What holds of a receive loop over any sequence of events.

use crate::error::ErrorView;
use crate::subscriber::model::{
    alive, lemma_alive, lemma_alive_none, lemma_cancel_wf, lemma_deliver_wf, lemma_expire_wf,
    lemma_fail_wf, lemma_settle_wf, lemma_start_wf, Lease, OutcomeView, SubscriberView,
};
use vstd::prelude::*;

verus! {

/// One thing that happens to a receive loop.
pub enum Event {
    Start,
    Deliver(u64),
    Settle(u64),
    Cancel,
    Fail(ErrorView),
    Expire(u64),
}

impl SubscriberView {
    /// The state after one event.
    pub open spec fn step(self, event: Event) -> SubscriberView {
        match event {
            Event::Start => self.start(),
            Event::Deliver(deadline) => self.deliver(deadline),
            Event::Settle(id) => self.settle(id),
            Event::Cancel => self.cancel(),
            Event::Fail(error) => self.fail(error),
            Event::Expire(now) => self.expire(now),
        }
    }

    /// The state after a sequence of events.
    pub open spec fn run(self, events: Seq<Event>) -> SubscriberView
        decreases events.len(),
    {
        if events.len() == 0 {
            self
        } else {
            self.run(events.drop_last()).step(events.last())
        }
    }

    /// A loop that was cancelled and is on its way out: it is no longer
    /// receiving, no error is recorded, and the broker takes back whatever
    /// is still with a handler at `now` at the latest.
    pub open spec fn winding_down(self, now: u64) -> bool {
        &&& self.wf()
        &&& (self.phase is Cancelled || self.phase is Stopped)
        &&& self.cause is None
        &&& forall|i: int|
            0 <= i < self.outstanding.len() ==> (#[trigger] self.outstanding[i]).deadline <= now
    }
}

/// Every event keeps the invariant.
pub proof fn lemma_step_wf(s: SubscriberView, event: Event)
    requires
        s.wf(),
    ensures
        s.step(event).wf(),
{
    match event {
        Event::Start => lemma_start_wf(s),
        Event::Deliver(deadline) => lemma_deliver_wf(s, deadline),
        Event::Settle(id) => lemma_settle_wf(s, id),
        Event::Cancel => lemma_cancel_wf(s),
        Event::Fail(error) => lemma_fail_wf(s, error),
        Event::Expire(now) => lemma_expire_wf(s, now),
    }
}

/// The invariant holds after any sequence of events.
pub proof fn lemma_run_wf(s: SubscriberView, events: Seq<Event>)
    requires
        s.wf(),
    ensures
        s.run(events).wf(),
    decreases events.len(),
{
    if events.len() > 0 {
        lemma_run_wf(s, events.drop_last());
        lemma_step_wf(s.run(events.drop_last()), events.last());
    }
}

/// Backpressure. Whatever happens to a loop, never more messages than its
/// limit are with handlers, and none are unless the loop was entered.
pub proof fn law_bounded_outstanding(limit: nat, wait: bool, events: Seq<Event>)
    ensures
        SubscriberView::fresh(limit, wait).run(events).outstanding.len() <= limit,
        SubscriberView::fresh(limit, wait).run(events).limit == limit,
    decreases events.len(),
{
    lemma_run_wf(SubscriberView::fresh(limit, wait), events);
    if events.len() > 0 {
        law_bounded_outstanding(limit, wait, events.drop_last());
    }
}

/// Cancelling a parked loop. A loop that is receiving and has no message at
/// a handler, so that it can only be waiting for the next message, stops
/// when the token fires, and its outcome is `Cancelled`.
pub proof fn law_cancel_while_parked(s: SubscriberView)
    requires
        s.wf(),
        s.phase is Receiving,
        s.outstanding.len() == 0,
    ensures
        s.cancel().phase is Stopped,
        s.cancel().outcome() == Some(OutcomeView::Cancelled),
{
}

/// Every event keeps a cancelled loop on its way out.
pub proof fn lemma_step_winding_down(s: SubscriberView, event: Event, now: u64)
    requires
        s.winding_down(now),
    ensures
        s.step(event).winding_down(now),
        s.step(event).outstanding.len() <= s.outstanding.len(),
{
    lemma_step_wf(s, event);
    let r = s.step(event);
    match event {
        Event::Settle(id) => {
            if s.holds(id) {
                let p = s.position(id);
                assert forall|i: int| 0 <= i < r.outstanding.len() implies (
                #[trigger] r.outstanding[i]).deadline <= now by {
                    let a = if i < p { i } else { i + 1 };
                    assert(s.outstanding[a].deadline <= now);
                }
            }
        },
        Event::Expire(at) => {
            lemma_alive(s.outstanding, at);
            let kept = alive(s.outstanding, at);
            assert forall|i: int| 0 <= i < kept.len() implies (#[trigger] kept[i]).deadline <= now by {
                assert(s.outstanding.contains(kept[i]));
                let k = choose|k: int| 0 <= k < s.outstanding.len() && s.outstanding[k] == kept[i];
                assert(s.outstanding[k].deadline <= now);
            }
        },
        _ => {},
    }
}

/// A cancelled loop stays on its way out whatever happens.
pub proof fn lemma_run_winding_down(s: SubscriberView, events: Seq<Event>, now: u64)
    requires
        s.winding_down(now),
    ensures
        s.run(events).winding_down(now),
        s.run(events).outstanding.len() <= s.outstanding.len(),
    decreases events.len(),
{
    if events.len() > 0 {
        lemma_run_winding_down(s, events.drop_last(), now);
        lemma_step_winding_down(s.run(events.drop_last()), events.last(), now);
    }
}

/// Cancellation ends the loop in bounded time. Let a receiving loop be
/// cancelled, and let `now` be a time by which every message then at a
/// handler is due. Whatever happens afterwards, the loop never asks for
/// another message, and once time has reached `now` it has stopped with the
/// outcome `Cancelled`.
pub proof fn law_cancel_ends_by_deadline(s: SubscriberView, events: Seq<Event>, now: u64)
    requires
        s.wf(),
        s.phase is Receiving,
        forall|i: int| 0 <= i < s.outstanding.len() ==> (#[trigger] s.outstanding[i]).deadline <= now,
    ensures
        !s.cancel().run(events).wants(),
        s.cancel().run(events).outstanding.len() <= s.outstanding.len(),
        s.cancel().run(events).expire(now).phase is Stopped,
        s.cancel().run(events).expire(now).outcome() == Some(OutcomeView::Cancelled),
{
    lemma_cancel_wf(s);
    let c = s.cancel();
    assert(c.winding_down(now));
    lemma_run_winding_down(c, events, now);
    let q = c.run(events);
    lemma_alive_none(q.outstanding, now);
}

/// Stopped is final. Nothing that happens to a stopped loop changes it.
pub proof fn law_stopped_is_final(s: SubscriberView, events: Seq<Event>)
    requires
        s.wf(),
        s.phase is Stopped,
    ensures
        s.run(events) == s,
    decreases events.len(),
{
    if events.len() > 0 {
        law_stopped_is_final(s, events.drop_last());
        match events.last() {
            Event::Expire(now) => {
                assert(alive(s.outstanding, now) == s.outstanding);
            },
            _ => {},
        }
    }
}

/// A failure ends the loop with its error. A receiving loop to which the
/// broker reports an error pulls nothing more, and when it has stopped its
/// outcome is that error.
pub proof fn law_failure_is_reported(s: SubscriberView, error: ErrorView, now: u64)
    requires
        s.wf(),
        s.phase is Receiving,
        forall|i: int| 0 <= i < s.outstanding.len() ==> (#[trigger] s.outstanding[i]).deadline <= now,
    ensures
        !s.fail(error).wants(),
        s.fail(error).cause == Some(error),
        s.fail(error).expire(now).outcome() == Some(OutcomeView::Failed(error)),
{
    lemma_fail_wf(s, error);
    lemma_alive_none(s.fail(error).outstanding, now);
}

/// One terminal action. Settling a delivery that is with a handler removes
/// it, and settling it again changes nothing.
pub proof fn law_settled_once(s: SubscriberView, id: u64)
    requires
        s.wf(),
        s.holds(id),
    ensures
        !s.settle(id).holds(id),
        s.settle(id).outstanding.len() == s.outstanding.len() - 1,
        s.settle(id).settle(id) == s.settle(id),
{
    let p = s.position(id);
    let r = s.settle(id);
    if r.holds(id) {
        let i = r.position(id);
        let a = if i < p { i } else { i + 1 };
        assert(s.outstanding[a].id == id);
        if a < p {
            assert(s.outstanding[a].id < s.outstanding[p].id);
        } else {
            assert(s.outstanding[p].id < s.outstanding[a].id);
        }
    }
}

/// A missed deadline is no acknowledgement. A delivery whose deadline has
/// come is forgotten without a settlement, a handle that settles it late
/// does nothing, and the loop takes the message again, as a new delivery
/// with a number of its own, whenever it takes deliveries at all.
pub proof fn law_unsettled_comes_back(s: SubscriberView, lease: Lease, now: u64, deadline: u64)
    requires
        s.wf(),
        s.outstanding.contains(lease),
        lease.deadline <= now,
    ensures
        !s.expire(now).holds(lease.id),
        s.expire(now).settle(lease.id) == s.expire(now),
        s.expire(now).accepts() ==> s.expire(now).deliver(deadline).holds(s.next_id as u64)
            && s.next_id != lease.id,
{
    lemma_alive(s.outstanding, now);
    lemma_expire_wf(s, now);
    let r = s.expire(now);
    let kept = alive(s.outstanding, now);
    let k = choose|k: int| 0 <= k < s.outstanding.len() && s.outstanding[k] == lease;
    assert(s.outstanding[k].id < s.next_id);
    if r.holds(lease.id) {
        let i = r.position(lease.id);
        assert(s.outstanding.contains(kept[i]));
        let j = choose|j: int| 0 <= j < s.outstanding.len() && s.outstanding[j] == kept[i];
        if j < k {
            assert(s.outstanding[j].id < s.outstanding[k].id);
        } else if k < j {
            assert(s.outstanding[k].id < s.outstanding[j].id);
        }
    }
    if r.accepts() {
        let d = r.deliver(deadline);
        assert(d.outstanding[d.outstanding.len() - 1].id == s.next_id as u64);
    }
}

} // verus!
