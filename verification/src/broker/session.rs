//! A publisher and a receive loop run against the in-memory broker.

use crate::broker::model::{due, lemma_due_monotone, lemma_feeds_stay, Hold};
use crate::broker::serving::{answer_of, lemma_served_done, lemma_served_step, served};
use crate::broker::{Delivery, MemoryBroker};
use crate::cancel::CancellationToken;
use crate::client::{Subscription, Topic};
use crate::error::Error;
use crate::publisher::model::queued;
use crate::publisher::{answer_view, Publisher};
use crate::subscriber::model::{lemma_alive, lemma_alive_none};
use crate::subscriber::{Disposition, Subscriber};
use vstd::prelude::*;

verus! {

/// What a program does with the messages it receives.
pub trait Handler {
    /// Handles one delivered message and says how to settle it. `None`
    /// leaves the message unsettled: the broker delivers it again after its
    /// deadline.
    fn handle(&mut self, delivery: &Delivery, token: &CancellationToken) -> Option<Disposition>;
}

/// The later of two times.
pub open spec fn later_of(a: u64, b: u64) -> u64 {
    if a >= b {
        a
    } else {
        b
    }
}

impl MemoryBroker {
    /// Serves a publisher: publishes to `topic`, one message after the
    /// other, whatever the publisher lets go, and reports each answer to it
    /// before the next message is picked, until it lets go of nothing more.
    ///
    /// A publisher that is served after its shutdown, with nothing at
    /// another transport, is flushed when this returns.
    pub fn serve(&mut self, publisher: &mut Publisher, topic: &Topic)
        requires
            old(self).wf(),
            old(publisher).wf(),
        ensures
            final(self).wf(),
            final(publisher).wf(),
            (final(publisher)@, final(self)@) == served(old(publisher)@, old(self)@, topic@),
    {
        loop
            invariant
                self.wf(),
                publisher.wf(),
                served(publisher@, self@, topic@) == served(old(publisher)@, old(self)@, topic@),
            ensures
                self.wf(),
                publisher.wf(),
                (publisher@, self@) == served(old(publisher)@, old(self)@, topic@),
            decreases queued(publisher@.entries),
        {
            let ghost p = publisher@;
            let ghost b = self@;
            match publisher.next_send() {
                None => {
                    proof {
                        lemma_served_done(p, b, topic@);
                    }
                    break ;
                },
                Some(ticket) => {
                    proof {
                        lemma_served_step(p, b, topic@, ticket as int);
                    }
                    let reply = match publisher.message(ticket) {
                        Some(message) => self.send_publish(topic.fully_qualified_name(), message),
                        None => Err(Error::NotFound),
                    };
                    let answer = match reply {
                        Ok(id) => Ok(id),
                        Err(error) => Err(error.fault()),
                    };
                    assert(answer_view(answer) == answer_of(b.post_reply(topic@)));
                    publisher.complete(ticket, answer);
                },
            }
        }
    }

    /// Runs a receive loop on a subscription, on a clock that ticks once
    /// per round, with a timer that cancels `token` when the clock reaches
    /// `until`.
    ///
    /// In each round the loop looks at the token, forgets the deliveries
    /// whose deadline has come, and, while it is receiving, pulls up to
    /// `limit` messages and hands each to the handler, never letting more
    /// than `limit` be unsettled at once. When the token is cancelled the
    /// loop pulls nothing more and returns once no message is unsettled.
    ///
    /// The loop always returns, and the clock then stands no later than one
    /// lease time after the timer fired. A loop on a subscription that
    /// exists ends by cancellation and returns `Ok`; the only error is
    /// [`Error::NotFound`], for a subscription that is missing.
    pub fn receive<H: Handler>(
        &mut self,
        subscription: &Subscription,
        handler: &mut H,
        token: &mut CancellationToken,
        clock: &mut u64,
        until: u64,
        limit: usize,
    ) -> (result: Result<(), Error>)
        requires
            old(self).wf(),
        ensures
            final(self).wf(),
            old(self)@.has_feed(subscription@) ==> result is Ok,
            result is Err ==> result->Err_0@ is NotFound && !old(self)@.has_feed(subscription@),
            result is Ok ==> final(token).cancelled(),
            *old(clock) <= *final(clock) <= due(later_of(*old(clock), until), old(self)@.lease),
            final(self)@.has_feed(subscription@) == old(self)@.has_feed(subscription@),
            final(self)@.topics == old(self)@.topics,
    {
        let name = subscription.fully_qualified_name();
        let mut subscriber = Subscriber::new(limit, true);
        subscriber.start();
        let ghost bound = due(later_of(*clock, until), self@.lease);
        proof {
            lemma_due_monotone(*clock, later_of(*clock, until), self@.lease);
        }
        loop
            invariant
                self.wf(),
                subscriber.wf(),
                name@ == subscription@,
                subscriber@.wait,
                subscriber@.limit == limit,
                !(subscriber@.phase is Idle),
                self@.lease == old(self)@.lease,
                self@.topics == old(self)@.topics,
                self@.has_feed(name@) == old(self)@.has_feed(name@),
                bound == due(later_of(*old(clock), until), old(self)@.lease),
                later_of(*old(clock), until) <= bound,
                *old(clock) <= *clock <= bound,
                subscriber@.phase is Receiving ==> *clock <= later_of(*old(clock), until),
                subscriber@.phase is Receiving || subscriber@.cause is Some || token.cancelled(),
                subscriber@.cause is Some ==> subscriber@.cause->0 is NotFound && !self@.has_feed(name@),
                !self@.has_feed(name@) ==> subscriber@.outstanding.len() == 0,
                forall|i: int|
                    0 <= i < subscriber@.outstanding.len() ==> (#[trigger] subscriber@.outstanding[i]).deadline
                        <= bound,
            decreases u64::MAX - *clock,
        {
            let now = *clock;
            if now >= until {
                token.cancel();
            }
            let ghost before = subscriber@;
            let cancelled = subscriber.observe(token);
            subscriber.expire(now);
            proof {
                subscriber.lemma_wf_view();
                lemma_alive(before.outstanding, now);
                lemma_alive(before.cancel().outstanding, now);
                if now >= bound {
                    lemma_alive_none(before.cancel().outstanding, now);
                }
                let kept = subscriber@.outstanding;
                let source = if cancelled { before.cancel().outstanding } else { before.outstanding };
                assert forall|i: int| 0 <= i < kept.len() implies (#[trigger] kept[i]).deadline
                    <= bound by {
                    assert(source.contains(kept[i]));
                    let k = choose|k: int| 0 <= k < source.len() && source[k] == kept[i];
                    assert(before.outstanding[k].deadline <= bound);
                }
            }
            match subscriber.result() {
                Some(result) => {
                    return result;
                },
                None => {},
            }
            let mut budget = limit;
            let mut empty = false;
            while budget > 0 && !empty && subscriber.wants_message()
                invariant
                    self.wf(),
                    subscriber.wf(),
                    name@ == subscription@,
                    subscriber@.wait,
                    subscriber@.limit == limit,
                    !(subscriber@.phase is Idle),
                    self@.lease == old(self)@.lease,
                    self@.topics == old(self)@.topics,
                    self@.has_feed(name@) == old(self)@.has_feed(name@),
                    bound == due(later_of(*old(clock), until), old(self)@.lease),
                    later_of(*old(clock), until) <= bound,
                    now == *clock,
                    now < bound,
                    *old(clock) <= now,
                    subscriber@.phase is Receiving ==> now < until,
                    subscriber@.phase is Receiving || subscriber@.cause is Some || token.cancelled(),
                    subscriber@.cause is Some ==> subscriber@.cause->0 is NotFound && !self@.has_feed(
                        name@,
                    ),
                    !self@.has_feed(name@) ==> subscriber@.outstanding.len() == 0,
                    forall|i: int|
                        0 <= i < subscriber@.outstanding.len() ==> (
                        #[trigger] subscriber@.outstanding[i]).deadline <= bound,
                decreases budget,
            {
                let ghost b = self@;
                proof {
                    lemma_feeds_stay(b, name@, now, 0, Hold::Done, name@);
                    lemma_due_monotone(now, later_of(*old(clock), until), b.lease);
                    subscriber.lemma_wf_view();
                }
                match self.pull(name, now) {
                    Err(error) => {
                        subscriber.fail(error);
                    },
                    Ok(None) => {
                        empty = true;
                    },
                    Ok(Some(delivery)) => {
                        let ghost pulled = self@;
                        proof {
                            lemma_feeds_stay(pulled, name@, now, delivery.ack_id, Hold::Done, name@);
                            lemma_feeds_stay(pulled, name@, now, delivery.ack_id, Hold::Ready, name@);
                        }
                        match subscriber.deliver(delivery.deadline) {
                            Some(handle) => {
                                let ghost taken = subscriber@;
                                proof {
                                    crate::subscriber::model::lemma_settle_wf(taken, handle@);
                                    if taken.holds(handle@) {
                                        let p = taken.position(handle@);
                                        let left = taken.outstanding.remove(p);
                                        assert forall|i: int| 0 <= i < left.len() implies (
                                        #[trigger] left[i]).deadline <= bound by {
                                            let a = if i < p { i } else { i + 1 };
                                            assert(taken.outstanding[a].deadline <= bound);
                                        }
                                    }
                                }
                                match handler.handle(&delivery, &*token) {
                                    Some(Disposition::Ack) => {
                                        subscriber.ack(handle);
                                        let _ = self.ack(name, delivery.ack_id);
                                    },
                                    Some(Disposition::Nack) => {
                                        subscriber.nack(handle);
                                        let _ = self.nack(name, delivery.ack_id);
                                    },
                                    None => {},
                                }
                            },
                            None => {
                                let _ = self.nack(name, delivery.ack_id);
                            },
                        }
                    },
                }
                budget = budget - 1;
            }
            *clock = now + 1;
        }
    }
}

} // verus!
