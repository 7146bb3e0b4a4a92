//! The receive loop as a mathematical state machine.

use crate::error::ErrorView;
use vstd::prelude::*;

verus! {

/// The phases of a receive loop: `Idle -> Receiving -> {Cancelled, Failed}
/// -> Stopped`. In `Cancelled` and `Failed` the loop pulls nothing new and
/// waits for the handlers that still hold a message.
#[derive(Clone, Copy, Debug, PartialEq, Eq, Structural)]
pub enum Phase {
    Idle,
    Receiving,
    Cancelled,
    Failed,
    Stopped,
}

/// A delivered message that its handler has not settled yet.
#[derive(Clone, Copy, Debug, PartialEq, Eq, Structural)]
pub struct Lease {
    /// The number of the delivery; no two deliveries share one.
    pub id: u64,
    /// The time at which the broker takes the message back.
    pub deadline: u64,
}

/// How a receive loop ended.
pub enum OutcomeView {
    Cancelled,
    Failed(ErrorView),
}

/// Mathematical value of a receive loop.
pub struct SubscriberView {
    pub phase: Phase,
    /// The most messages that may be with handlers at once.
    pub limit: nat,
    /// Whether a loop that stops waits for the handlers.
    pub wait: bool,
    /// The number that the next delivery gets.
    pub next_id: nat,
    /// The deliveries that are with handlers, oldest first.
    pub outstanding: Seq<Lease>,
    /// The error that stopped the loop, if one did.
    pub cause: Option<ErrorView>,
}

/// The leases whose deadline lies after `now`, in their order.
pub open spec fn alive(leases: Seq<Lease>, now: u64) -> Seq<Lease>
    decreases leases.len(),
{
    if leases.len() == 0 {
        leases
    } else if leases.last().deadline > now {
        alive(leases.drop_last(), now).push(leases.last())
    } else {
        alive(leases.drop_last(), now)
    }
}

/// Whether the leases are in the order of their numbers.
pub open spec fn ascending(leases: Seq<Lease>) -> bool {
    forall|i: int, j: int| 0 <= i < j < leases.len() ==> leases[i].id < leases[j].id
}

impl SubscriberView {
    /// A loop that has not started.
    pub open spec fn fresh(limit: nat, wait: bool) -> SubscriberView {
        SubscriberView {
            phase: Phase::Idle,
            limit,
            wait,
            next_id: 0,
            outstanding: Seq::empty(),
            cause: None,
        }
    }

    /// Whether delivery `id` is with a handler.
    pub open spec fn holds(self, id: u64) -> bool {
        exists|i: int| 0 <= i < self.outstanding.len() && (#[trigger] self.outstanding[i]).id == id
    }

    /// Where delivery `id` stands among the outstanding ones.
    pub open spec fn position(self, id: u64) -> int {
        choose|i: int| 0 <= i < self.outstanding.len() && (#[trigger] self.outstanding[i]).id == id
    }

    /// Whether the loop should pull another message: it is receiving and
    /// fewer messages than the limit are with handlers.
    pub open spec fn wants(self) -> bool {
        self.phase is Receiving && self.outstanding.len() < self.limit
    }

    /// Whether a delivery is taken now.
    pub open spec fn accepts(self) -> bool {
        self.wants() && self.next_id < u64::MAX
    }

    /// Whether the loop has stopped pulling and waits for handlers.
    pub open spec fn draining(self) -> bool {
        self.phase is Cancelled || self.phase is Failed
    }

    /// A draining loop with no handler left stops.
    pub open spec fn rest(self) -> SubscriberView {
        if self.draining() && self.outstanding.len() == 0 {
            SubscriberView { phase: Phase::Stopped, ..self }
        } else {
            self
        }
    }

    /// Leaving `Receiving`: the loop waits in `phase` for its handlers if
    /// it is set to wait and there are any; otherwise it drops what is
    /// outstanding and stops.
    pub open spec fn halt(self, phase: Phase) -> SubscriberView {
        if self.wait && self.outstanding.len() > 0 {
            SubscriberView { phase, ..self }
        } else {
            SubscriberView { phase: Phase::Stopped, outstanding: Seq::empty(), ..self }
        }
    }

    /// The loop is entered. Only an idle loop can be.
    pub open spec fn start(self) -> SubscriberView {
        if self.phase is Idle {
            SubscriberView { phase: Phase::Receiving, ..self }
        } else {
            self
        }
    }

    /// The broker delivers a message that it takes back at `deadline`.
    pub open spec fn deliver(self, deadline: u64) -> SubscriberView {
        if self.accepts() {
            SubscriberView {
                outstanding: self.outstanding.push(Lease { id: self.next_id as u64, deadline }),
                next_id: self.next_id + 1,
                ..self
            }
        } else {
            self
        }
    }

    /// A handler acknowledges delivery `id`, or gives it back.
    pub open spec fn settle(self, id: u64) -> SubscriberView {
        if self.holds(id) {
            SubscriberView { outstanding: self.outstanding.remove(self.position(id)), ..self }.rest()
        } else {
            self
        }
    }

    /// The token fired.
    pub open spec fn cancel(self) -> SubscriberView {
        match self.phase {
            Phase::Idle => SubscriberView { phase: Phase::Stopped, ..self },
            Phase::Receiving => self.halt(Phase::Cancelled),
            _ => self,
        }
    }

    /// The broker reported an error from which the loop cannot recover.
    pub open spec fn fail(self, error: ErrorView) -> SubscriberView {
        if self.phase is Receiving {
            SubscriberView { cause: Some(error), ..self }.halt(Phase::Failed)
        } else {
            self
        }
    }

    /// Time has reached `now`: the broker has taken back every delivery
    /// whose deadline has come.
    pub open spec fn expire(self, now: u64) -> SubscriberView {
        SubscriberView { outstanding: alive(self.outstanding, now), ..self }.rest()
    }

    /// How the loop ended, once it has stopped.
    pub open spec fn outcome(self) -> Option<OutcomeView> {
        if self.phase is Stopped {
            Some(
                match self.cause {
                    None => OutcomeView::Cancelled,
                    Some(error) => OutcomeView::Failed(error),
                },
            )
        } else {
            None
        }
    }

    /// The invariant of the loop.
    pub open spec fn wf(self) -> bool {
        &&& self.outstanding.len() <= self.limit
        &&& ascending(self.outstanding)
        &&& forall|i: int|
            0 <= i < self.outstanding.len() ==> (#[trigger] self.outstanding[i]).id < self.next_id
        &&& (self.phase is Idle || self.phase is Stopped ==> self.outstanding.len() == 0)
        &&& (self.draining() ==> self.wait && self.outstanding.len() > 0)
        &&& (self.phase is Failed ==> self.cause is Some)
        &&& (self.phase is Idle || self.phase is Receiving || self.phase is Cancelled
            ==> self.cause is None)
    }
}

/// What `alive` keeps: no more than there was, only leases that were there
/// and whose deadline lies ahead, every such lease, and the order.
pub proof fn lemma_alive(leases: Seq<Lease>, now: u64)
    ensures
        alive(leases, now).len() <= leases.len(),
        forall|i: int|
            0 <= i < alive(leases, now).len() ==> (#[trigger] alive(leases, now)[i]).deadline > now
                && leases.contains(alive(leases, now)[i]),
        forall|i: int|
            0 <= i < leases.len() && (#[trigger] leases[i]).deadline > now ==> alive(
                leases,
                now,
            ).contains(leases[i]),
        ascending(leases) ==> ascending(alive(leases, now)),
    decreases leases.len(),
{
    if leases.len() > 0 {
        let front = leases.drop_last();
        let kept = alive(front, now);
        let all = alive(leases, now);
        lemma_alive(front, now);
        assert forall|i: int| 0 <= i < all.len() implies (#[trigger] all[i]).deadline > now
            && leases.contains(all[i]) by {
            if i < kept.len() {
                assert(front.contains(kept[i]));
                let k = choose|k: int| 0 <= k < front.len() && front[k] == kept[i];
                assert(leases[k] == kept[i]);
            } else {
                assert(leases[leases.len() - 1] == all[i]);
            }
        }
        assert forall|i: int| 0 <= i < leases.len() && (#[trigger] leases[i]).deadline
            > now implies all.contains(leases[i]) by {
            if i < front.len() {
                assert(front[i] == leases[i]);
                assert(kept.contains(front[i]));
                let k = choose|k: int| 0 <= k < kept.len() && kept[k] == front[i];
                assert(all[k] == leases[i]);
            } else {
                assert(all[all.len() - 1] == leases[i]);
            }
        }
        if ascending(leases) {
            assert(ascending(front)) by {
                assert forall|i: int, j: int| 0 <= i < j < front.len() implies front[i].id
                    < front[j].id by {
                    assert(leases[i].id < leases[j].id);
                }
            }
            assert forall|i: int, j: int| 0 <= i < j < all.len() implies all[i].id < all[j].id by {
                if j < kept.len() {
                    assert(kept[i].id < kept[j].id);
                } else {
                    assert(front.contains(kept[i]));
                    let k = choose|k: int| 0 <= k < front.len() && front[k] == kept[i];
                    assert(leases[k].id < leases[leases.len() - 1].id);
                }
            }
        }
    }
}

/// When every deadline has come, nothing is left alive.
pub proof fn lemma_alive_none(leases: Seq<Lease>, now: u64)
    requires
        forall|i: int| 0 <= i < leases.len() ==> (#[trigger] leases[i]).deadline <= now,
    ensures
        alive(leases, now).len() == 0,
    decreases leases.len(),
{
    if leases.len() > 0 {
        let front = leases.drop_last();
        assert forall|i: int| 0 <= i < front.len() implies (#[trigger] front[i]).deadline <= now by {
            assert(leases[i].deadline <= now);
        }
        lemma_alive_none(front, now);
    }
}

/// With numbers in order, a delivery stands where its number is found.
pub proof fn lemma_position(s: SubscriberView, id: u64, i: int)
    requires
        ascending(s.outstanding),
        0 <= i < s.outstanding.len(),
        s.outstanding[i].id == id,
    ensures
        s.holds(id),
        s.position(id) == i,
{
    let c = s.position(id);
    if c < i {
        assert(s.outstanding[c].id < s.outstanding[i].id);
    } else if i < c {
        assert(s.outstanding[i].id < s.outstanding[c].id);
    }
}

/// Starting keeps the invariant.
pub proof fn lemma_start_wf(s: SubscriberView)
    requires
        s.wf(),
    ensures
        s.start().wf(),
{
}

/// A delivery keeps the invariant.
pub proof fn lemma_deliver_wf(s: SubscriberView, deadline: u64)
    requires
        s.wf(),
    ensures
        s.deliver(deadline).wf(),
{
    let r = s.deliver(deadline);
    if s.accepts() {
        assert forall|i: int, j: int| 0 <= i < j < r.outstanding.len() implies r.outstanding[i].id
            < r.outstanding[j].id by {
            if j < s.outstanding.len() {
                assert(s.outstanding[i].id < s.outstanding[j].id);
            } else {
                assert(s.outstanding[i].id < s.next_id);
            }
        }
        assert forall|i: int| 0 <= i < r.outstanding.len() implies (#[trigger] r.outstanding[i]).id
            < r.next_id by {
            if i < s.outstanding.len() {
                assert(s.outstanding[i].id < s.next_id);
            }
        }
    }
}

/// A settlement keeps the invariant.
pub proof fn lemma_settle_wf(s: SubscriberView, id: u64)
    requires
        s.wf(),
    ensures
        s.settle(id).wf(),
{
    if s.holds(id) {
        let p = s.position(id);
        let left = s.outstanding.remove(p);
        assert forall|i: int, j: int| 0 <= i < j < left.len() implies left[i].id < left[j].id by {
            let a = if i < p { i } else { i + 1 };
            let b = if j < p { j } else { j + 1 };
            assert(s.outstanding[a].id < s.outstanding[b].id);
        }
        assert forall|i: int| 0 <= i < left.len() implies (#[trigger] left[i]).id < s.next_id by {
            let a = if i < p { i } else { i + 1 };
            assert(s.outstanding[a].id < s.next_id);
        }
    }
}

/// Cancelling keeps the invariant.
pub proof fn lemma_cancel_wf(s: SubscriberView)
    requires
        s.wf(),
    ensures
        s.cancel().wf(),
{
}

/// A failure keeps the invariant.
pub proof fn lemma_fail_wf(s: SubscriberView, error: ErrorView)
    requires
        s.wf(),
    ensures
        s.fail(error).wf(),
{
}

/// The passing of time keeps the invariant.
pub proof fn lemma_expire_wf(s: SubscriberView, now: u64)
    requires
        s.wf(),
    ensures
        s.expire(now).wf(),
{
    lemma_alive(s.outstanding, now);
    let kept = alive(s.outstanding, now);
    assert forall|i: int| 0 <= i < kept.len() implies (#[trigger] kept[i]).id < s.next_id by {
        assert(s.outstanding.contains(kept[i]));
        let k = choose|k: int| 0 <= k < s.outstanding.len() && s.outstanding[k] == kept[i];
        assert(s.outstanding[k].id < s.next_id);
    }
}

} // verus!
