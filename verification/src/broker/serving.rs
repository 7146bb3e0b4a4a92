//! A publisher served by the in-memory broker.

use crate::broker::model::{lemma_post_wf, lemma_topic_stays, BrokerView};
use crate::error::{ErrorView, FaultView};
use crate::ident::{decimal, lemma_decimal_injective};
use crate::publisher::laws::{law_progress, lemma_pick_first};
use crate::publisher::model::{
    lemma_complete_wf, lemma_dispatch_wf, lemma_send_shrinks, queued, PublisherView, SlotView,
};
use vstd::prelude::*;

verus! {

/// The broker's answer to a publish request as the publisher hears it.
pub open spec fn answer_of(reply: Result<Seq<char>, ErrorView>) -> Result<Seq<char>, FaultView> {
    match reply {
        Ok(id) => Ok(id),
        Err(error) => Err(error.fault()),
    }
}

/// The publisher and the broker after the broker has been sent, one message
/// after the other and each answer reported before the next is picked,
/// whatever the publisher lets go.
pub open spec fn served(p: PublisherView, b: BrokerView, topic: Seq<char>) -> (
    PublisherView,
    BrokerView,
)
    decreases queued(p.entries),
    via served_ends
{
    match p.pick() {
        None => (p, b),
        Some(t) => served(
            p.dispatch(t).complete(t, answer_of(b.post_reply(topic))),
            b.post(topic, p.entries[t].message),
            topic,
        ),
    }
}

#[via_fn]
proof fn served_ends(p: PublisherView, b: BrokerView, topic: Seq<char>) {
    if let Some(t) = p.pick() {
        lemma_send_shrinks(p, t, answer_of(b.post_reply(topic)));
    }
}

/// One round of serving: the oldest eligible ticket is sent and answered.
pub proof fn lemma_served_step(p: PublisherView, b: BrokerView, topic: Seq<char>, t: int)
    requires
        p.first_eligible(t),
    ensures
        served(p, b, topic) == served(
            p.dispatch(t).complete(t, answer_of(b.post_reply(topic))),
            b.post(topic, p.entries[t].message),
            topic,
        ),
        queued(p.dispatch(t).complete(t, answer_of(b.post_reply(topic))).entries) < queued(p.entries),
{
    lemma_pick_first(p, t);
    lemma_send_shrinks(p, t, answer_of(b.post_reply(topic)));
}

/// Serving ends where the publisher lets go of nothing.
pub proof fn lemma_served_done(p: PublisherView, b: BrokerView, topic: Seq<char>)
    requires
        forall|t: int| !p.eligible(t),
    ensures
        served(p, b, topic) == (p, b),
{
    if exists|t: int| p.first_eligible(t) {
        let t = choose|t: int| p.first_eligible(t);
        assert(!p.eligible(t));
    }
}

/// Serving flushes. A publisher of which nothing is with a transport is
/// flushed once the broker has served it: every ticket is resolved. Both
/// keep their invariants, and serving neither opens nor closes the
/// publisher nor adds a ticket to it.
pub proof fn law_served_is_flushed(p: PublisherView, b: BrokerView, topic: Seq<char>)
    requires
        p.wf(),
        b.wf(),
        forall|t: int| !p.accepts(t),
    ensures
        served(p, b, topic).0.wf(),
        served(p, b, topic).1.wf(),
        served(p, b, topic).0.flushed(),
        served(p, b, topic).0.closed == p.closed,
        served(p, b, topic).0.entries.len() == p.entries.len(),
    decreases queued(p.entries),
{
    match p.pick() {
        None => {
            if !p.flushed() {
                law_progress(p);
                let t = choose|t: int| p.accepts(t);
                assert(!p.accepts(t));
            }
        },
        Some(t) => {
            let outcome = answer_of(b.post_reply(topic));
            let q = p.dispatch(t).complete(t, outcome);
            lemma_dispatch_wf(p, t);
            lemma_complete_wf(p.dispatch(t), t, outcome);
            lemma_post_wf(b, topic, p.entries[t].message);
            lemma_send_shrinks(p, t, outcome);
            assert forall|u: int| !q.accepts(u) by {
                if q.accepts(u) {
                    assert(p.accepts(u) || u == t);
                }
            }
            law_served_is_flushed(q, b.post(topic, p.entries[t].message), topic);
        },
    }
}

/// Serving has come to ticket `k`: the tickets before it are resolved with
/// the numbers after `base`, in their order, and the others are queued.
pub open spec fn served_up_to(p: PublisherView, b: BrokerView, base: nat, k: int) -> bool {
    &&& p.wf()
    &&& b.wf()
    &&& 0 <= k <= p.entries.len()
    &&& b.posted == base + k
    &&& forall|i: int|
        0 <= i < k ==> (#[trigger] p.entries[i]).slot == SlotView::Resolved(
            Ok(decimal((base + 1 + i) as nat)),
        )
    &&& forall|i: int| k <= i < p.entries.len() ==> (#[trigger] p.entries[i]).slot is Queued
}

/// From ticket `k` on, serving resolves each ticket with the next number.
pub proof fn lemma_served_numbers(p: PublisherView, b: BrokerView, topic: Seq<char>, base: nat, k: int)
    requires
        served_up_to(p, b, base, k),
        b.has_topic(topic),
        base + p.entries.len() <= u64::MAX,
    ensures
        served_up_to(served(p, b, topic).0, served(p, b, topic).1, base, p.entries.len() as int),
        served(p, b, topic).0.entries.len() == p.entries.len(),
        forall|i: int|
            0 <= i < p.entries.len() ==> (#[trigger] served(p, b, topic).0.entries[i]).message
                == p.entries[i].message,
    decreases p.entries.len() - k,
{
    if k == p.entries.len() {
        assert forall|t: int| !p.eligible(t) by {
            if p.has(t) {
                assert(!(p.entries[t].slot is Queued));
            }
        }
        lemma_served_done(p, b, topic);
    } else {
        let lane = p.entries[k].lane;
        assert(!p.busy(lane)) by {
            if p.busy(lane) {
                let t = choose|t: int|
                    p.has(t) && (#[trigger] p.entries[t]).lane == lane && p.entries[t].slot is InFlight;
                if t < k {
                    assert(p.entries[t].slot is Resolved);
                } else {
                    assert(p.entries[t].slot is Queued);
                }
            }
        }
        assert forall|u: int| 0 <= u < k implies !#[trigger] p.eligible(u) by {
            assert(p.entries[u].slot is Resolved);
        }
        assert(p.first_eligible(k));
        lemma_served_step(p, b, topic, k);
        let outcome = answer_of(b.post_reply(topic));
        let q = p.dispatch(k).complete(k, outcome);
        let c = b.post(topic, p.entries[k].message);
        lemma_dispatch_wf(p, k);
        lemma_complete_wf(p.dispatch(k), k, outcome);
        lemma_post_wf(b, topic, p.entries[k].message);
        lemma_topic_stays(b, c, topic);
        assert forall|i: int| 0 <= i < k + 1 implies (#[trigger] q.entries[i]).slot
            == SlotView::Resolved(Ok(decimal((base + 1 + i) as nat))) by {
            if i < k {
                assert(p.entries[i].slot == SlotView::Resolved(Ok(decimal((base + 1 + i) as nat))));
            }
        }
        assert forall|i: int| k + 1 <= i < q.entries.len() implies (#[trigger] q.entries[i]).slot is Queued by {
            assert(p.entries[i].slot is Queued);
        }
        lemma_served_numbers(q, c, topic, base, k + 1);
        assert forall|i: int| 0 <= i < p.entries.len() implies (#[trigger] served(
            p,
            b,
            topic,
        ).0.entries[i]).message == p.entries[i].message by {
            assert(served(q, c, topic).0.entries[i].message == q.entries[i].message);
        }
    }
}

/// No loss, no duplication. Let every ticket of a publisher be queued, and
/// let the broker have the topic and numbers enough. Once the broker has
/// served the publisher, every ticket is resolved with an identifier, the
/// identifiers are the broker's next numbers in the order of the tickets,
/// no two tickets share one, and the broker has published as many messages
/// as there are tickets.
pub proof fn law_served_one_to_one(p: PublisherView, b: BrokerView, topic: Seq<char>)
    requires
        p.wf(),
        b.wf(),
        b.has_topic(topic),
        b.posted + p.entries.len() <= u64::MAX,
        forall|t: int| p.has(t) ==> (#[trigger] p.entries[t]).slot is Queued,
    ensures
        served(p, b, topic).0.entries.len() == p.entries.len(),
        served(p, b, topic).1.posted == b.posted + p.entries.len(),
        forall|t: int|
            p.has(t) ==> (#[trigger] served(p, b, topic).0.entries[t]).slot == SlotView::Resolved(
                Ok(decimal((b.posted + 1 + t) as nat)),
            ) && served(p, b, topic).0.entries[t].message == p.entries[t].message,
        forall|t: int, u: int|
            p.has(t) && p.has(u) && t != u ==> (#[trigger] served(p, b, topic).0.entries[t]).slot != (
            #[trigger] served(p, b, topic).0.entries[u]).slot,
{
    lemma_served_numbers(p, b, topic, b.posted, 0);
    let q = served(p, b, topic).0;
    assert forall|t: int, u: int| p.has(t) && p.has(u) && t != u implies (#[trigger] q.entries[t]).slot
        != (#[trigger] q.entries[u]).slot by {
        if decimal((b.posted + 1 + t) as nat) == decimal((b.posted + 1 + u) as nat) {
            lemma_decimal_injective((b.posted + 1 + t) as nat, (b.posted + 1 + u) as nat);
        }
    }
}

} // verus!
