//! A broker that lives in memory, to try a publisher and a receive loop
//! against.
//!
//! [`MemoryBroker`] answers what a broker answers: it keeps topics and
//! subscriptions by name, numbers the messages published to it, leases
//! pulled messages until a deadline on a clock that the caller supplies, and
//! delivers again what was neither acknowledged nor given back in time.
//! It can also run the two sides itself: [`MemoryBroker::serve`] sends what
//! a publisher lets go, and [`MemoryBroker::receive`] runs a receive loop.

pub mod laws;
pub mod model;
pub mod serving;
pub mod session;

use crate::broker::model::{
    deliverable_at, leased_as, lemma_create_feed_wf, lemma_create_topic_wf, lemma_delete_feed_wf,
    lemma_feed_at, lemma_feed_index, lemma_post_wf, lemma_pull_wf, lemma_settle_wf, lemma_topic_at,
    BrokerView, DeliveryView, FeedView, Hold, ItemView,
};
use crate::client::{Ensure, Reply, Request, Subscription, SubscriptionConfig, Topic};
use crate::error::{outcome_view, Error, ErrorView, Fault, CODE_RESOURCE_EXHAUSTED};
use crate::ident::decimal_text;
use crate::lookup::{is_first, lemma_first_where};
use crate::message::Message;
use vstd::prelude::*;

verus! {

struct Item {
    number: u64,
    message: Message,
    hold: Hold,
}

impl View for Item {
    type V = ItemView;

    closed spec fn view(&self) -> ItemView {
        ItemView { number: self.number as nat, message: self.message@, hold: self.hold }
    }
}

struct Feed {
    name: String,
    topic: String,
    config: SubscriptionConfig,
    backlog: Vec<Item>,
}

impl View for Feed {
    type V = FeedView;

    closed spec fn view(&self) -> FeedView {
        FeedView {
            name: self.name@,
            topic: self.topic@,
            config: self.config,
            backlog: Seq::new(self.backlog@.len(), |i: int| self.backlog@[i]@),
        }
    }
}

impl Feed {
    /// Where the oldest message up for delivery at `now` stands.
    fn next(&self, now: u64) -> (i: usize)
        ensures
            i == self@.next(now),
            i <= self.backlog@.len(),
    {
        let mut i: usize = 0;
        while i < self.backlog.len()
            invariant
                i <= self.backlog@.len(),
                forall|k: int| 0 <= k < i ==> !(#[trigger] self@.backlog[k]).deliverable(now),
            decreases self.backlog@.len() - i,
        {
            let up = match self.backlog[i].hold {
                Hold::Ready => true,
                Hold::Leased { ack: _, deadline } => deadline <= now,
                Hold::Done => false,
            };
            if up {
                proof {
                    assert(is_first(self@.backlog, deliverable_at(now), i as int));
                    lemma_first_where(self@.backlog, deliverable_at(now), i as int);
                }
                return i;
            }
            i += 1;
        }
        proof {
            assert(is_first(self@.backlog, deliverable_at(now), i as int));
            lemma_first_where(self@.backlog, deliverable_at(now), i as int);
        }
        i
    }

    /// Where the message leased under `ack` stands.
    fn held(&self, ack: u64) -> (i: usize)
        ensures
            i == self@.held(ack),
            i <= self.backlog@.len(),
    {
        let mut i: usize = 0;
        while i < self.backlog.len()
            invariant
                i <= self.backlog@.len(),
                forall|k: int|
                    0 <= k < i ==> !((#[trigger] self@.backlog[k]).hold is Leased
                        && self@.backlog[k].hold->ack == ack),
            decreases self.backlog@.len() - i,
        {
            let found = match self.backlog[i].hold {
                Hold::Leased { ack: a, deadline: _ } => a == ack,
                _ => false,
            };
            if found {
                proof {
                    assert(is_first(self@.backlog, leased_as(ack), i as int));
                    lemma_first_where(self@.backlog, leased_as(ack), i as int);
                }
                return i;
            }
            i += 1;
        }
        proof {
            assert(is_first(self@.backlog, leased_as(ack), i as int));
            lemma_first_where(self@.backlog, leased_as(ack), i as int);
        }
        i
    }
}

/// One pulled message.
#[derive(Debug, PartialEq, Eq)]
pub struct Delivery {
    /// The number under which the message is acknowledged or given back.
    pub ack_id: u64,
    /// The time at which the broker takes the message back.
    pub deadline: u64,
    /// The identifier that the broker gave the message when it was
    /// published.
    pub id: String,
    pub message: Message,
}

impl View for Delivery {
    type V = DeliveryView;

    open spec fn view(&self) -> DeliveryView {
        DeliveryView { ack: self.ack_id, deadline: self.deadline, id: self.id@, message: self.message@ }
    }
}

/// Mathematical value of an answer without content.
pub open spec fn reply_view(reply: Result<(), Error>) -> Result<(), ErrorView> {
    match reply {
        Ok(_) => Ok(()),
        Err(error) => Err(error@),
    }
}

/// Mathematical value of the answer to a pull.
pub open spec fn pulled_view(reply: Result<Option<Delivery>, Error>) -> Result<
    Option<DeliveryView>,
    ErrorView,
> {
    match reply {
        Ok(Some(delivery)) => Ok(Some(delivery@)),
        Ok(None) => Ok(None),
        Err(error) => Err(error@),
    }
}

/// A broker in memory.
pub struct MemoryBroker {
    lease: u64,
    topics: Vec<String>,
    feeds: Vec<Feed>,
    posted: u64,
    leased: u64,
}

impl View for MemoryBroker {
    type V = BrokerView;

    closed spec fn view(&self) -> BrokerView {
        BrokerView {
            lease: self.lease,
            topics: Seq::new(self.topics@.len(), |i: int| self.topics@[i]@),
            feeds: Seq::new(self.feeds@.len(), |f: int| self.feeds@[f]@),
            posted: self.posted as nat,
            leased: self.leased as nat,
        }
    }
}

impl MemoryBroker {
    /// The invariant of the broker.
    pub closed spec fn wf(&self) -> bool {
        self@.wf()
    }

    /// The invariant of the model holds of every well-formed broker.
    pub proof fn lemma_wf_view(&self)
        requires
            self.wf(),
        ensures
            self@.wf(),
            self@.posted <= u64::MAX,
            self@.leased <= u64::MAX,
    {
    }

    /// A broker without topics that leases a pulled message for `lease`
    /// units of time.
    pub fn new(lease: u64) -> (broker: MemoryBroker)
        ensures
            broker.wf(),
            broker@ == BrokerView::fresh(lease),
    {
        let broker = MemoryBroker { lease, topics: Vec::new(), feeds: Vec::new(), posted: 0, leased: 0 };
        proof {
            assert(broker@.topics =~= BrokerView::fresh(lease).topics);
            assert(broker@.feeds =~= BrokerView::fresh(lease).feeds);
        }
        broker
    }

    fn find_topic(&self, name: &String) -> (i: usize)
        ensures
            i == self@.topic_index(name@),
            i <= self.topics@.len(),
    {
        let mut i: usize = 0;
        while i < self.topics.len()
            invariant
                i <= self.topics@.len(),
                forall|k: int| 0 <= k < i ==> (#[trigger] self@.topics[k]) != name@,
            decreases self.topics@.len() - i,
        {
            if self.topics[i] == *name {
                proof {
                    lemma_topic_at(self@, name@, i as int);
                }
                return i;
            }
            i += 1;
        }
        proof {
            lemma_topic_at(self@, name@, i as int);
        }
        i
    }

    fn find_feed(&self, name: &String) -> (f: usize)
        ensures
            f == self@.feed_index(name@),
            f <= self.feeds@.len(),
    {
        let mut f: usize = 0;
        while f < self.feeds.len()
            invariant
                f <= self.feeds@.len(),
                forall|k: int| 0 <= k < f ==> (#[trigger] self@.feeds[k]).name != name@,
            decreases self.feeds@.len() - f,
        {
            if self.feeds[f].name == *name {
                proof {
                    lemma_feed_at(self@, name@, f as int);
                }
                return f;
            }
            f += 1;
        }
        proof {
            lemma_feed_at(self@, name@, f as int);
        }
        f
    }

    /// Whether the topic exists.
    pub fn topic_exists(&self, name: &String) -> (exists: bool)
        ensures
            exists == self@.has_topic(name@),
    {
        self.find_topic(name) < self.topics.len()
    }

    /// Whether the subscription exists.
    pub fn subscription_exists(&self, name: &String) -> (exists: bool)
        ensures
            exists == self@.has_feed(name@),
    {
        self.find_feed(name) < self.feeds.len()
    }

    /// Creates a topic. Fails with [`Error::AlreadyExists`] if it is there.
    pub fn create_topic(&mut self, name: String) -> (reply: Result<(), Error>)
        requires
            old(self).wf(),
        ensures
            final(self).wf(),
            final(self)@ == old(self)@.create_topic(name@),
            reply_view(reply) == old(self)@.create_topic_reply(name@),
    {
        let ghost before = self@;
        proof {
            lemma_create_topic_wf(before, name@);
        }
        if self.topic_exists(&name) {
            return Err(Error::AlreadyExists);
        }
        self.topics.push(name);
        proof {
            assert(self@.topics =~= before.create_topic(name@).topics);
            assert(self@.feeds =~= before.feeds);
        }
        Ok(())
    }

    /// Creates a subscription on a topic. Fails with [`Error::NotFound`] if
    /// the topic is missing and with [`Error::AlreadyExists`] if the
    /// subscription is there.
    pub fn create_subscription(
        &mut self,
        name: String,
        topic: &String,
        config: SubscriptionConfig,
    ) -> (reply: Result<(), Error>)
        requires
            old(self).wf(),
        ensures
            final(self).wf(),
            final(self)@ == old(self)@.create_feed(name@, topic@, config),
            reply_view(reply) == old(self)@.create_feed_reply(name@, topic@),
    {
        let ghost before = self@;
        proof {
            lemma_create_feed_wf(before, name@, topic@, config);
        }
        if !self.topic_exists(topic) {
            return Err(Error::NotFound);
        }
        if self.subscription_exists(&name) {
            return Err(Error::AlreadyExists);
        }
        self.feeds.push(Feed { name, topic: topic.clone(), config, backlog: Vec::new() });
        proof {
            let after = before.create_feed(name@, topic@, config);
            assert(self@.feeds[self@.feeds.len() - 1].backlog =~= Seq::<ItemView>::empty());
            assert(self@.feeds =~= after.feeds);
            assert(self@.topics =~= before.topics);
        }
        Ok(())
    }

    /// Deletes a subscription. Fails with [`Error::NotFound`] if it is
    /// missing.
    pub fn delete_subscription(&mut self, name: &String) -> (reply: Result<(), Error>)
        requires
            old(self).wf(),
        ensures
            final(self).wf(),
            final(self)@ == old(self)@.delete_feed(name@),
            reply_view(reply) == old(self)@.delete_feed_reply(name@),
    {
        let ghost before = self@;
        proof {
            lemma_delete_feed_wf(before, name@);
        }
        let f = self.find_feed(name);
        if f >= self.feeds.len() {
            return Err(Error::NotFound);
        }
        self.feeds.remove(f);
        proof {
            assert(self@.feeds =~= before.delete_feed(name@).feeds);
            assert(self@.topics =~= before.topics);
        }
        Ok(())
    }

    /// The options with which a subscription was created.
    pub fn subscription_config(&self, name: &String) -> (config: Option<SubscriptionConfig>)
        ensures
            match config {
                Some(c) => self@.has_feed(name@) && c == self@.feed(name@).config,
                None => !self@.has_feed(name@),
            },
    {
        let f = self.find_feed(name);
        if f < self.feeds.len() {
            Some(self.feeds[f].config)
        } else {
            None
        }
    }

    /// Publishes a message to a topic and returns the identifier it got:
    /// its number among all messages published, in decimal.
    ///
    /// Fails with [`Error::NotFound`] if the topic is missing, and with a
    /// transport error once the numbers are used up.
    pub fn send_publish(&mut self, topic: &String, message: &Message) -> (reply: Result<String, Error>)
        requires
            old(self).wf(),
        ensures
            final(self).wf(),
            final(self)@ == old(self)@.post(topic@, message@),
            outcome_view(reply) == old(self)@.post_reply(topic@),
    {
        let ghost before = self@;
        proof {
            lemma_post_wf(before, topic@, message@);
        }
        if !self.topic_exists(topic) {
            return Err(Error::NotFound);
        }
        if self.posted == u64::MAX {
            return Err(
                Error::Transport(Fault { code: CODE_RESOURCE_EXHAUSTED, message: String::new() }),
            );
        }
        let number = self.posted + 1;
        let ghost after = before.post(topic@, message@);
        let mut f: usize = 0;
        while f < self.feeds.len()
            invariant
                f <= self.feeds@.len(),
                self.feeds@.len() == before.feeds.len(),
                after == before.post(topic@, message@),
                before.post_reply(topic@) is Ok,
                number == before.posted + 1,
                self@.topics == before.topics,
                self@.lease == before.lease,
                self@.posted == before.posted,
                self@.leased == before.leased,
                forall|k: int| 0 <= k < f ==> (#[trigger] self@.feeds[k]) == after.feeds[k],
                forall|k: int|
                    f <= k < self.feeds@.len() ==> (#[trigger] self@.feeds[k]) == before.feeds[k],
            decreases self.feeds@.len() - f,
        {
            let ghost prev = self@;
            proof {
                assert(prev.feeds[f as int] == before.feeds[f as int]);
            }
            if self.feeds[f].topic == *topic {
                self.feeds[f].backlog.push(Item { number, message: message.duplicate(), hold: Hold::Ready });
                proof {
                    assert(self@.feeds[f as int].backlog =~= after.feeds[f as int].backlog);
                }
            }
            proof {
                assert(self@.feeds[f as int] == after.feeds[f as int]);
                assert forall|k: int| 0 <= k < f implies (#[trigger] self@.feeds[k]) == after.feeds[k] by {
                    assert(prev.feeds[k] == after.feeds[k]);
                }
                assert forall|k: int| f < k < self.feeds@.len() implies (#[trigger] self@.feeds[k])
                    == before.feeds[k] by {
                    assert(prev.feeds[k] == before.feeds[k]);
                }
                assert(self@.topics =~= prev.topics);
            }
            f += 1;
        }
        let ghost done = self@;
        self.posted = number;
        proof {
            assert forall|k: int| 0 <= k < self.feeds@.len() implies (#[trigger] self@.feeds[k])
                == after.feeds[k] by {
                assert(done.feeds[k] == after.feeds[k]);
            }
            assert(self@.feeds =~= after.feeds);
            assert(self@.topics =~= after.topics);
        }
        Ok(decimal_text(number))
    }

    /// Pulls the oldest message of a subscription that is up for delivery
    /// at `now`: one that waits, or one whose lease has run out. The message
    /// is leased under a new acknowledgement number until `now` plus the
    /// lease time.
    ///
    /// `Ok(None)` means that nothing is up for delivery. Fails with
    /// [`Error::NotFound`] if the subscription is missing.
    pub fn pull(&mut self, subscription: &String, now: u64) -> (reply: Result<Option<Delivery>, Error>)
        requires
            old(self).wf(),
        ensures
            final(self).wf(),
            final(self)@ == old(self)@.pull(subscription@, now),
            pulled_view(reply) == old(self)@.pull_reply(subscription@, now),
    {
        let ghost before = self@;
        proof {
            lemma_pull_wf(before, subscription@, now);
            lemma_feed_index(before, subscription@);
        }
        let f = self.find_feed(subscription);
        if f >= self.feeds.len() {
            return Err(Error::NotFound);
        }
        if self.leased == u64::MAX {
            return Ok(None);
        }
        let i = self.feeds[f].next(now);
        if i >= self.feeds[f].backlog.len() {
            return Ok(None);
        }
        let ack = self.leased;
        let deadline = now.saturating_add(self.lease);
        let id = decimal_text(self.feeds[f].backlog[i].number);
        let message = self.feeds[f].backlog[i].message.duplicate();
        self.feeds[f].backlog[i].hold = Hold::Leased { ack, deadline };
        self.leased = ack + 1;
        proof {
            let after = before.pull(subscription@, now);
            assert(self@.feeds[f as int].backlog =~= after.feeds[f as int].backlog);
            assert(self@.feeds =~= after.feeds);
            assert(self@.topics =~= after.topics);
        }
        Ok(Some(Delivery { ack_id: ack, deadline, id, message }))
    }

    fn settle(&mut self, subscription: &String, ack_id: u64, hold: Hold) -> (reply: Result<(), Error>)
        requires
            old(self).wf(),
            !(hold is Leased),
        ensures
            final(self).wf(),
            final(self)@ == old(self)@.settle(subscription@, ack_id, hold),
            reply_view(reply) == old(self)@.settle_reply(subscription@),
    {
        let ghost before = self@;
        proof {
            lemma_settle_wf(before, subscription@, ack_id, hold);
            lemma_feed_index(before, subscription@);
        }
        let f = self.find_feed(subscription);
        if f >= self.feeds.len() {
            return Err(Error::NotFound);
        }
        let i = self.feeds[f].held(ack_id);
        if i < self.feeds[f].backlog.len() {
            self.feeds[f].backlog[i].hold = hold;
            proof {
                let after = before.settle(subscription@, ack_id, hold);
                assert(self@.feeds[f as int].backlog =~= after.feeds[f as int].backlog);
                assert(self@.feeds =~= after.feeds);
                assert(self@.topics =~= after.topics);
            }
        }
        Ok(())
    }

    /// Makes sure that a topic exists: looks for it and creates it if it is
    /// missing. Always succeeds, and calling it again changes nothing.
    pub fn ensure_topic(&mut self, topic: &Topic) -> (reply: Result<(), Error>)
        requires
            old(self).wf(),
        ensures
            final(self).wf(),
            final(self)@ == old(self)@.create_topic(topic@),
            final(self)@.has_topic(topic@),
            reply is Ok,
    {
        proof {
            lemma_create_topic_wf(self@, topic@);
        }
        let name = topic.fully_qualified_name();
        let mut state = Ensure::begin().advance(Reply::Exists(self.topic_exists(name)));
        if let Some(Request::Create) = state.request() {
            let reply = match self.create_topic(name.clone()) {
                Ok(_) => Reply::Created,
                Err(error) => Reply::Refused(error),
            };
            state = state.advance(reply);
        }
        match state.result() {
            Some(result) => result,
            None => Ok(()),
        }
    }

    /// Makes sure that a subscription exists: looks for it and creates it
    /// on `topic` with `config` if it is missing. Fails with
    /// [`Error::NotFound`] if the subscription and the topic are both
    /// missing; calling it again changes nothing.
    pub fn ensure_subscription(
        &mut self,
        subscription: &Subscription,
        topic: &Topic,
        config: SubscriptionConfig,
    ) -> (reply: Result<(), Error>)
        requires
            old(self).wf(),
        ensures
            final(self).wf(),
            final(self)@ == old(self)@.create_feed(subscription@, topic@, config),
            reply_view(reply) == (if old(self)@.has_feed(subscription@) || old(self)@.has_topic(topic@) {
                Ok(())
            } else {
                Err(ErrorView::NotFound)
            }),
            reply is Ok ==> final(self)@.has_feed(subscription@),
    {
        proof {
            lemma_create_feed_wf(self@, subscription@, topic@, config);
            lemma_feed_index(self@, subscription@);
            if self@.create_feed_reply(subscription@, topic@) is Ok {
                lemma_feed_at(
                    self@.create_feed(subscription@, topic@, config),
                    subscription@,
                    self@.feeds.len() as int,
                );
            }
        }
        let name = subscription.fully_qualified_name();
        let mut state = Ensure::begin().advance(Reply::Exists(self.subscription_exists(name)));
        if let Some(Request::Create) = state.request() {
            let reply = match self.create_subscription(
                name.clone(),
                topic.fully_qualified_name(),
                config,
            ) {
                Ok(_) => Reply::Created,
                Err(error) => Reply::Refused(error),
            };
            state = state.advance(reply);
        }
        match state.result() {
            Some(result) => result,
            None => Ok(()),
        }
    }

    /// Acknowledges the message leased under `ack_id`: it is not delivered
    /// again. A lease that is not there any more is acknowledged without
    /// effect. Fails with [`Error::NotFound`] if the subscription is
    /// missing.
    pub fn ack(&mut self, subscription: &String, ack_id: u64) -> (reply: Result<(), Error>)
        requires
            old(self).wf(),
        ensures
            final(self).wf(),
            final(self)@ == old(self)@.settle(subscription@, ack_id, Hold::Done),
            reply_view(reply) == old(self)@.settle_reply(subscription@),
    {
        self.settle(subscription, ack_id, Hold::Done)
    }

    /// Gives the message leased under `ack_id` back: it is up for delivery
    /// again at once. Fails with [`Error::NotFound`] if the subscription is
    /// missing.
    pub fn nack(&mut self, subscription: &String, ack_id: u64) -> (reply: Result<(), Error>)
        requires
            old(self).wf(),
        ensures
            final(self).wf(),
            final(self)@ == old(self)@.settle(subscription@, ack_id, Hold::Ready),
            reply_view(reply) == old(self)@.settle_reply(subscription@),
    {
        self.settle(subscription, ack_id, Hold::Ready)
    }
}

} // verus!
