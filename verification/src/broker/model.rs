//! An in-memory broker as a mathematical state machine.
//!
//! The broker keeps the names of its topics and, for each subscription, the
//! messages published to its topic since the subscription was made. A
//! message that is pulled is leased to the puller until a deadline. It
//! leaves the backlog when it is acknowledged; when it is given back, or
//! when the deadline passes without a word, it is delivered again.

use crate::client::SubscriptionConfig;
use crate::error::{ErrorView, FaultView, CODE_RESOURCE_EXHAUSTED};
use crate::ident::decimal;
use crate::lookup::{first_where, is_first, lemma_first_exists, lemma_first_where};
use crate::message::MessageView;
use vstd::prelude::*;

verus! {

/// Who has a stored message.
#[derive(Clone, Copy, Debug, PartialEq, Eq, Structural)]
pub enum Hold {
    /// Nobody: it waits to be pulled.
    Ready,
    /// The puller to whom it went under `ack`, until `deadline`.
    Leased { ack: u64, deadline: u64 },
    /// Nobody any more: it was acknowledged.
    Done,
}

/// A message in the backlog of a subscription.
pub struct ItemView {
    /// The number of the message among all messages published.
    pub number: nat,
    pub message: MessageView,
    pub hold: Hold,
}

/// A subscription: its name, its topic, its options and its backlog, oldest
/// message first.
pub struct FeedView {
    pub name: Seq<char>,
    pub topic: Seq<char>,
    pub config: SubscriptionConfig,
    pub backlog: Seq<ItemView>,
}

/// Mathematical value of the broker.
pub struct BrokerView {
    /// How long a pulled message stays with its puller.
    pub lease: u64,
    pub topics: Seq<Seq<char>>,
    pub feeds: Seq<FeedView>,
    /// How many messages have been published.
    pub posted: nat,
    /// How many leases have been given.
    pub leased: nat,
}

/// One pulled message.
pub struct DeliveryView {
    pub ack: u64,
    pub deadline: u64,
    pub id: Seq<char>,
    pub message: MessageView,
}

/// The deadline of a lease given at `now`.
pub open spec fn due(now: u64, lease: u64) -> u64 {
    if now + lease > u64::MAX {
        u64::MAX
    } else {
        (now + lease) as u64
    }
}

/// The condition of being the name `name`.
pub open spec fn named(name: Seq<char>) -> spec_fn(Seq<char>) -> bool {
    |other: Seq<char>| other == name
}

/// The condition of being the subscription called `name`.
pub open spec fn feed_named(name: Seq<char>) -> spec_fn(FeedView) -> bool {
    |feed: FeedView| feed.name == name
}

/// The condition of being up for delivery at `now`.
pub open spec fn deliverable_at(now: u64) -> spec_fn(ItemView) -> bool {
    |item: ItemView| item.deliverable(now)
}

/// The condition of being leased under `ack`.
pub open spec fn leased_as(ack: u64) -> spec_fn(ItemView) -> bool {
    |item: ItemView| item.hold == (Hold::Leased { ack, deadline: item.hold->deadline })
}

impl ItemView {
    /// Whether the message is up for delivery at `now`: it waits, or its
    /// lease has run out.
    pub open spec fn deliverable(self, now: u64) -> bool {
        match self.hold {
            Hold::Ready => true,
            Hold::Leased { ack, deadline } => deadline <= now,
            Hold::Done => false,
        }
    }
}

impl FeedView {
    /// Where the oldest message up for delivery at `now` stands.
    pub open spec fn next(self, now: u64) -> int {
        first_where(self.backlog, deliverable_at(now))
    }

    /// Where the message leased under `ack` stands.
    pub open spec fn held(self, ack: u64) -> int {
        first_where(self.backlog, leased_as(ack))
    }

    /// The subscription with the message at `i` held as `hold`.
    pub open spec fn with_hold(self, i: int, hold: Hold) -> FeedView {
        FeedView { backlog: self.backlog.update(i, ItemView { hold, ..self.backlog[i] }), ..self }
    }

    /// The invariant of a backlog in a broker that has published `posted`
    /// messages and given `leased` leases.
    pub open spec fn wf(self, posted: nat, leased: nat) -> bool {
        &&& forall|i: int|
            0 <= i < self.backlog.len() ==> 1 <= (#[trigger] self.backlog[i]).number <= posted
        &&& forall|i: int, j: int|
            0 <= i < j < self.backlog.len() ==> (#[trigger] self.backlog[i]).number < (
            #[trigger] self.backlog[j]).number
        &&& forall|i: int|
            0 <= i < self.backlog.len() && (#[trigger] self.backlog[i]).hold is Leased
                ==> self.backlog[i].hold->ack < leased
    }
}

impl BrokerView {
    /// A broker that knows nothing yet.
    pub open spec fn fresh(lease: u64) -> BrokerView {
        BrokerView { lease, topics: Seq::empty(), feeds: Seq::empty(), posted: 0, leased: 0 }
    }

    /// Where the topic stands, or the number of topics if it is missing.
    pub open spec fn topic_index(self, name: Seq<char>) -> int {
        first_where(self.topics, named(name))
    }

    /// Whether the topic exists.
    pub open spec fn has_topic(self, name: Seq<char>) -> bool {
        self.topic_index(name) < self.topics.len()
    }

    /// Where the subscription stands, or the number of subscriptions if it
    /// is missing.
    pub open spec fn feed_index(self, name: Seq<char>) -> int {
        first_where(self.feeds, feed_named(name))
    }

    /// Whether the subscription exists.
    pub open spec fn has_feed(self, name: Seq<char>) -> bool {
        self.feed_index(name) < self.feeds.len()
    }

    /// The subscription called `name`.
    pub open spec fn feed(self, name: Seq<char>) -> FeedView {
        self.feeds[self.feed_index(name)]
    }

    /// Creating a topic: refused if it exists.
    pub open spec fn create_topic(self, name: Seq<char>) -> BrokerView {
        if self.has_topic(name) {
            self
        } else {
            BrokerView { topics: self.topics.push(name), ..self }
        }
    }

    /// The answer to creating a topic.
    pub open spec fn create_topic_reply(self, name: Seq<char>) -> Result<(), ErrorView> {
        if self.has_topic(name) {
            Err(ErrorView::AlreadyExists)
        } else {
            Ok(())
        }
    }

    /// Creating a subscription: refused if the topic is missing or the
    /// subscription exists. A new subscription has an empty backlog.
    pub open spec fn create_feed(
        self,
        name: Seq<char>,
        topic: Seq<char>,
        config: SubscriptionConfig,
    ) -> BrokerView {
        if self.create_feed_reply(name, topic) is Ok {
            BrokerView {
                feeds: self.feeds.push(FeedView { name, topic, config, backlog: Seq::empty() }),
                ..self
            }
        } else {
            self
        }
    }

    /// The answer to creating a subscription.
    pub open spec fn create_feed_reply(self, name: Seq<char>, topic: Seq<char>) -> Result<
        (),
        ErrorView,
    > {
        if !self.has_topic(topic) {
            Err(ErrorView::NotFound)
        } else if self.has_feed(name) {
            Err(ErrorView::AlreadyExists)
        } else {
            Ok(())
        }
    }

    /// Deleting a subscription: refused if it is missing.
    pub open spec fn delete_feed(self, name: Seq<char>) -> BrokerView {
        if self.has_feed(name) {
            BrokerView { feeds: self.feeds.remove(self.feed_index(name)), ..self }
        } else {
            self
        }
    }

    /// The answer to deleting a subscription.
    pub open spec fn delete_feed_reply(self, name: Seq<char>) -> Result<(), ErrorView> {
        if self.has_feed(name) {
            Ok(())
        } else {
            Err(ErrorView::NotFound)
        }
    }

    /// Publishing: refused if the topic is missing or the numbers are used
    /// up. Otherwise the message gets the next number and joins the backlog
    /// of every subscription of the topic; its identifier is its number in
    /// decimal.
    pub open spec fn post(self, topic: Seq<char>, message: MessageView) -> BrokerView {
        if self.post_reply(topic) is Ok {
            BrokerView {
                posted: self.posted + 1,
                feeds: Seq::new(
                    self.feeds.len(),
                    |f: int|
                        if self.feeds[f].topic == topic {
                            FeedView {
                                backlog: self.feeds[f].backlog.push(
                                    ItemView { number: self.posted + 1, message, hold: Hold::Ready },
                                ),
                                ..self.feeds[f]
                            }
                        } else {
                            self.feeds[f]
                        },
                ),
                ..self
            }
        } else {
            self
        }
    }

    /// The answer to publishing: the identifier of the message.
    pub open spec fn post_reply(self, topic: Seq<char>) -> Result<Seq<char>, ErrorView> {
        if !self.has_topic(topic) {
            Err(ErrorView::NotFound)
        } else if self.posted >= u64::MAX {
            Err(
                ErrorView::Transport(
                    FaultView { code: CODE_RESOURCE_EXHAUSTED as int, message: Seq::empty() },
                ),
            )
        } else {
            Ok(decimal(self.posted + 1))
        }
    }

    /// Whether a pull at `now` delivers a message.
    pub open spec fn can_pull(self, name: Seq<char>, now: u64) -> bool {
        &&& self.has_feed(name)
        &&& self.leased < u64::MAX
        &&& self.feed(name).next(now) < self.feed(name).backlog.len()
    }

    /// Pulling at `now`: the oldest message up for delivery is leased to
    /// the puller under a new acknowledgement number.
    pub open spec fn pull(self, name: Seq<char>, now: u64) -> BrokerView {
        if self.can_pull(name, now) {
            let f = self.feed_index(name);
            let i = self.feeds[f].next(now);
            BrokerView {
                leased: self.leased + 1,
                feeds: self.feeds.update(
                    f,
                    self.feeds[f].with_hold(
                        i,
                        Hold::Leased { ack: self.leased as u64, deadline: due(now, self.lease) },
                    ),
                ),
                ..self
            }
        } else {
            self
        }
    }

    /// The answer to pulling at `now`.
    pub open spec fn pull_reply(self, name: Seq<char>, now: u64) -> Result<
        Option<DeliveryView>,
        ErrorView,
    > {
        if !self.has_feed(name) {
            Err(ErrorView::NotFound)
        } else if self.can_pull(name, now) {
            let item = self.feed(name).backlog[self.feed(name).next(now)];
            Ok(
                Some(
                    DeliveryView {
                        ack: self.leased as u64,
                        deadline: due(now, self.lease),
                        id: decimal(item.number),
                        message: item.message,
                    },
                ),
            )
        } else {
            Ok(None)
        }
    }

    /// Whether a message of the subscription is leased under `ack`.
    pub open spec fn holds(self, name: Seq<char>, ack: u64) -> bool {
        self.has_feed(name) && self.feed(name).held(ack) < self.feed(name).backlog.len()
    }

    /// Settling the lease `ack`: the message becomes `hold`, which is
    /// `Done` for an acknowledgement and `Ready` for a message given back.
    /// A lease that is not there any more is settled without effect.
    pub open spec fn settle(self, name: Seq<char>, ack: u64, hold: Hold) -> BrokerView {
        if self.holds(name, ack) {
            let f = self.feed_index(name);
            BrokerView {
                feeds: self.feeds.update(f, self.feeds[f].with_hold(self.feeds[f].held(ack), hold)),
                ..self
            }
        } else {
            self
        }
    }

    /// The answer to settling a lease.
    pub open spec fn settle_reply(self, name: Seq<char>) -> Result<(), ErrorView> {
        if self.has_feed(name) {
            Ok(())
        } else {
            Err(ErrorView::NotFound)
        }
    }

    /// The invariant of the broker: no name is there twice, every
    /// subscription is on a topic that exists, and the numbers in the
    /// backlogs are in order and were given out.
    pub open spec fn wf(self) -> bool {
        &&& forall|i: int, j: int|
            0 <= i < j < self.topics.len() ==> (#[trigger] self.topics[i]) != (#[trigger] self.topics[j])
        &&& forall|i: int, j: int|
            0 <= i < j < self.feeds.len() ==> (#[trigger] self.feeds[i]).name != (
            #[trigger] self.feeds[j]).name
        &&& forall|f: int|
            0 <= f < self.feeds.len() ==> self.has_topic((#[trigger] self.feeds[f]).topic)
                && self.feeds[f].wf(self.posted, self.leased)
    }
}

/// A topic that is found at `i`, and nowhere before, is the topic at `i`.
pub proof fn lemma_topic_at(b: BrokerView, name: Seq<char>, i: int)
    requires
        0 <= i <= b.topics.len(),
        i < b.topics.len() ==> b.topics[i] == name,
        forall|k: int| 0 <= k < i ==> (#[trigger] b.topics[k]) != name,
    ensures
        b.topic_index(name) == i,
{
    assert(is_first(b.topics, named(name), i));
    lemma_first_where(b.topics, named(name), i);
}

/// A subscription that is found at `f`, and nowhere before, is the
/// subscription at `f`.
pub proof fn lemma_feed_at(b: BrokerView, name: Seq<char>, f: int)
    requires
        0 <= f <= b.feeds.len(),
        f < b.feeds.len() ==> b.feeds[f].name == name,
        forall|k: int| 0 <= k < f ==> (#[trigger] b.feeds[k]).name != name,
    ensures
        b.feed_index(name) == f,
{
    assert(is_first(b.feeds, feed_named(name), f));
    lemma_first_where(b.feeds, feed_named(name), f);
}

/// What the index of a topic says: where the name stands, if it is there.
pub proof fn lemma_topic_index(b: BrokerView, name: Seq<char>)
    ensures
        0 <= b.topic_index(name) <= b.topics.len(),
        b.has_topic(name) ==> b.topics[b.topic_index(name)] == name,
        forall|k: int| 0 <= k < b.topic_index(name) ==> (#[trigger] b.topics[k]) != name,
        b.has_topic(name) <==> b.topics.contains(name),
{
    lemma_first_exists(b.topics, named(name));
    let i = b.topic_index(name);
    assert(is_first(b.topics, named(name), i));
    if b.topics.contains(name) {
        let k = choose|k: int| 0 <= k < b.topics.len() && b.topics[k] == name;
        assert(named(name)(b.topics[k]));
    }
}

/// What the index of a subscription says.
pub proof fn lemma_feed_index(b: BrokerView, name: Seq<char>)
    ensures
        0 <= b.feed_index(name) <= b.feeds.len(),
        b.has_feed(name) ==> b.feed(name).name == name,
        forall|k: int| 0 <= k < b.feed_index(name) ==> (#[trigger] b.feeds[k]).name != name,
{
    lemma_first_exists(b.feeds, feed_named(name));
    assert(is_first(b.feeds, feed_named(name), b.feed_index(name)));
}

/// What the index of the next message says.
pub proof fn lemma_next(feed: FeedView, now: u64)
    ensures
        0 <= feed.next(now) <= feed.backlog.len(),
        feed.next(now) < feed.backlog.len() ==> feed.backlog[feed.next(now)].deliverable(now),
        forall|k: int| 0 <= k < feed.next(now) ==> !(#[trigger] feed.backlog[k]).deliverable(now),
{
    lemma_first_exists(feed.backlog, deliverable_at(now));
    assert(is_first(feed.backlog, deliverable_at(now), feed.next(now)));
}

/// What the index of a leased message says.
pub proof fn lemma_held(feed: FeedView, ack: u64)
    ensures
        0 <= feed.held(ack) <= feed.backlog.len(),
        feed.held(ack) < feed.backlog.len() ==> feed.backlog[feed.held(ack)].hold is Leased
            && feed.backlog[feed.held(ack)].hold->ack == ack,
        forall|k: int|
            0 <= k < feed.held(ack) ==> !((#[trigger] feed.backlog[k]).hold is Leased
                && feed.backlog[k].hold->ack == ack),
{
    lemma_first_exists(feed.backlog, leased_as(ack));
    assert(is_first(feed.backlog, leased_as(ack), feed.held(ack)));
}

/// A topic stays where it is when the broker changes elsewhere.
pub proof fn lemma_topic_stays(b: BrokerView, c: BrokerView, name: Seq<char>)
    requires
        b.has_topic(name),
        b.topics.len() <= c.topics.len(),
        forall|k: int| 0 <= k < b.topics.len() ==> (#[trigger] c.topics[k]) == b.topics[k],
    ensures
        c.has_topic(name),
        c.topic_index(name) == b.topic_index(name),
{
    lemma_topic_index(b, name);
    let i = b.topic_index(name);
    assert forall|k: int| 0 <= k < i implies (#[trigger] c.topics[k]) != name by {
        assert(b.topics[k] != name);
    }
    lemma_topic_at(c, name, i);
}

/// A fresh broker is well formed.
pub proof fn lemma_fresh_wf(lease: u64)
    ensures
        BrokerView::fresh(lease).wf(),
{
}

/// Creating a topic keeps the invariant.
pub proof fn lemma_create_topic_wf(b: BrokerView, name: Seq<char>)
    requires
        b.wf(),
    ensures
        b.create_topic(name).wf(),
        b.create_topic(name).has_topic(name),
{
    let c = b.create_topic(name);
    lemma_topic_index(b, name);
    if !b.has_topic(name) {
        assert forall|i: int, j: int| 0 <= i < j < c.topics.len() implies (#[trigger] c.topics[i]) != (
        #[trigger] c.topics[j]) by {
            if j < b.topics.len() {
                assert(b.topics[i] != b.topics[j]);
            } else {
                assert(b.topics[i] != name);
            }
        }
        assert forall|f: int| 0 <= f < c.feeds.len() implies c.has_topic((#[trigger] c.feeds[f]).topic)
            && c.feeds[f].wf(c.posted, c.leased) by {
            lemma_topic_stays(b, c, b.feeds[f].topic);
        }
        lemma_topic_at(c, name, b.topics.len() as int);
    }
}

/// Creating a subscription keeps the invariant.
pub proof fn lemma_create_feed_wf(
    b: BrokerView,
    name: Seq<char>,
    topic: Seq<char>,
    config: SubscriptionConfig,
)
    requires
        b.wf(),
    ensures
        b.create_feed(name, topic, config).wf(),
{
    let c = b.create_feed(name, topic, config);
    lemma_feed_index(b, name);
    if b.create_feed_reply(name, topic) is Ok {
        assert forall|i: int, j: int| 0 <= i < j < c.feeds.len() implies (#[trigger] c.feeds[i]).name != (
        #[trigger] c.feeds[j]).name by {
            if j < b.feeds.len() {
                assert(b.feeds[i].name != b.feeds[j].name);
            } else {
                assert(b.feeds[i].name != name);
            }
        }
        assert forall|f: int| 0 <= f < c.feeds.len() implies c.has_topic((#[trigger] c.feeds[f]).topic)
            && c.feeds[f].wf(c.posted, c.leased) by {
            if f < b.feeds.len() {
                lemma_topic_stays(b, c, b.feeds[f].topic);
            } else {
                lemma_topic_stays(b, c, topic);
            }
        }
    }
}

/// Deleting a subscription keeps the invariant.
pub proof fn lemma_delete_feed_wf(b: BrokerView, name: Seq<char>)
    requires
        b.wf(),
    ensures
        b.delete_feed(name).wf(),
        !b.delete_feed(name).has_feed(name),
{
    let c = b.delete_feed(name);
    lemma_feed_index(b, name);
    let at = b.feed_index(name);
    if b.has_feed(name) {
        assert forall|i: int, j: int| 0 <= i < j < c.feeds.len() implies (#[trigger] c.feeds[i]).name != (
        #[trigger] c.feeds[j]).name by {
            let a = if i < at { i } else { i + 1 };
            let d = if j < at { j } else { j + 1 };
            assert(b.feeds[a].name != b.feeds[d].name);
        }
        assert forall|f: int| 0 <= f < c.feeds.len() implies c.has_topic((#[trigger] c.feeds[f]).topic)
            && c.feeds[f].wf(c.posted, c.leased) by {
            let a = if f < at { f } else { f + 1 };
            lemma_topic_stays(b, c, b.feeds[a].topic);
        }
        assert forall|k: int| 0 <= k < c.feeds.len() implies (#[trigger] c.feeds[k]).name != name by {
            let a = if k < at { k } else { k + 1 };
            if a < at {
                assert(b.feeds[a].name != b.feeds[at].name);
            } else {
                assert(b.feeds[at].name != b.feeds[a].name);
            }
        }
        lemma_feed_at(c, name, c.feeds.len() as int);
    }
}

/// Publishing keeps the invariant.
pub proof fn lemma_post_wf(b: BrokerView, topic: Seq<char>, message: MessageView)
    requires
        b.wf(),
    ensures
        b.post(topic, message).wf(),
{
    let c = b.post(topic, message);
    if b.post_reply(topic) is Ok {
        assert forall|i: int, j: int| 0 <= i < j < c.feeds.len() implies (#[trigger] c.feeds[i]).name != (
        #[trigger] c.feeds[j]).name by {
            assert(b.feeds[i].name != b.feeds[j].name);
        }
        assert forall|f: int| 0 <= f < c.feeds.len() implies c.has_topic((#[trigger] c.feeds[f]).topic)
            && c.feeds[f].wf(c.posted, c.leased) by {
            lemma_topic_stays(b, c, b.feeds[f].topic);
            assert(b.feeds[f].wf(b.posted, b.leased));
            let old_log = b.feeds[f].backlog;
            let new_log = c.feeds[f].backlog;
            assert forall|i: int| 0 <= i < new_log.len() implies 1 <= (#[trigger] new_log[i]).number
                <= c.posted by {
                if i < old_log.len() {
                    assert(1 <= old_log[i].number <= b.posted);
                }
            }
            assert forall|i: int, j: int| 0 <= i < j < new_log.len() implies (
            #[trigger] new_log[i]).number < (#[trigger] new_log[j]).number by {
                if j < old_log.len() {
                    assert(old_log[i].number < old_log[j].number);
                } else {
                    assert(1 <= old_log[i].number <= b.posted);
                }
            }
            assert forall|i: int| 0 <= i < new_log.len() && (#[trigger] new_log[i]).hold is Leased implies new_log[i].hold->ack
                < c.leased by {
                if i < old_log.len() {
                    assert(old_log[i].hold is Leased);
                }
            }
        }
    }
}

/// Changing who holds one message keeps the invariant, if a lease that
/// comes in is one that the broker has given.
pub proof fn lemma_hold_wf(b: BrokerView, c: BrokerView, f: int, i: int, hold: Hold)
    requires
        b.wf(),
        0 <= f < b.feeds.len(),
        0 <= i < b.feeds[f].backlog.len(),
        c == (BrokerView { feeds: b.feeds.update(f, b.feeds[f].with_hold(i, hold)), leased: c.leased, ..b }),
        b.leased <= c.leased,
        hold is Leased ==> hold->ack < c.leased,
    ensures
        c.wf(),
{
    assert forall|a: int, d: int| 0 <= a < d < c.feeds.len() implies (#[trigger] c.feeds[a]).name != (
    #[trigger] c.feeds[d]).name by {
        assert(b.feeds[a].name != b.feeds[d].name);
    }
    assert forall|g: int| 0 <= g < c.feeds.len() implies c.has_topic((#[trigger] c.feeds[g]).topic)
        && c.feeds[g].wf(c.posted, c.leased) by {
        lemma_topic_stays(b, c, b.feeds[g].topic);
        assert(b.feeds[g].wf(b.posted, b.leased));
        let old_log = b.feeds[g].backlog;
        let new_log = c.feeds[g].backlog;
        assert forall|k: int| 0 <= k < new_log.len() implies 1 <= (#[trigger] new_log[k]).number
            <= c.posted by {
            assert(1 <= old_log[k].number <= b.posted);
        }
        assert forall|k: int, l: int| 0 <= k < l < new_log.len() implies (#[trigger] new_log[k]).number
            < (#[trigger] new_log[l]).number by {
            assert(old_log[k].number < old_log[l].number);
        }
        assert forall|k: int| 0 <= k < new_log.len() && (#[trigger] new_log[k]).hold is Leased implies new_log[k].hold->ack
            < c.leased by {
            if !(g == f && k == i) {
                assert(old_log[k].hold is Leased);
            }
        }
    }
}

/// Pulling keeps the invariant.
pub proof fn lemma_pull_wf(b: BrokerView, name: Seq<char>, now: u64)
    requires
        b.wf(),
    ensures
        b.pull(name, now).wf(),
{
    if b.can_pull(name, now) {
        lemma_feed_index(b, name);
        lemma_next(b.feed(name), now);
        lemma_hold_wf(
            b,
            b.pull(name, now),
            b.feed_index(name),
            b.feed(name).next(now),
            Hold::Leased { ack: b.leased as u64, deadline: due(now, b.lease) },
        );
    }
}

/// Settling keeps the invariant.
pub proof fn lemma_settle_wf(b: BrokerView, name: Seq<char>, ack: u64, hold: Hold)
    requires
        b.wf(),
        !(hold is Leased),
    ensures
        b.settle(name, ack, hold).wf(),
{
    if b.holds(name, ack) {
        lemma_feed_index(b, name);
        lemma_held(b.feed(name), ack);
        lemma_hold_wf(b, b.settle(name, ack, hold), b.feed_index(name), b.feed(name).held(ack), hold);
    }
}

/// A subscription stays where it is while the names of the subscriptions
/// stay as they are.
pub proof fn lemma_feed_stays(b: BrokerView, c: BrokerView, name: Seq<char>)
    requires
        b.feeds.len() == c.feeds.len(),
        forall|k: int| 0 <= k < b.feeds.len() ==> (#[trigger] c.feeds[k]).name == b.feeds[k].name,
    ensures
        c.feed_index(name) == b.feed_index(name),
        c.has_feed(name) == b.has_feed(name),
{
    lemma_feed_index(b, name);
    let f = b.feed_index(name);
    assert forall|k: int| 0 <= k < f implies (#[trigger] c.feeds[k]).name != name by {
        assert(b.feeds[k].name != name);
    }
    lemma_feed_at(c, name, f);
}

/// Pulling and settling leave every subscription in its place.
pub proof fn lemma_feeds_stay(b: BrokerView, name: Seq<char>, now: u64, ack: u64, hold: Hold, other: Seq<char>)
    ensures
        b.pull(name, now).has_feed(other) == b.has_feed(other),
        b.settle(name, ack, hold).has_feed(other) == b.has_feed(other),
{
    lemma_feed_index(b, name);
    lemma_feed_stays(b, b.pull(name, now), other);
    lemma_feed_stays(b, b.settle(name, ack, hold), other);
}

/// A later lease ends no earlier, and none ends before it begins.
pub proof fn lemma_due_monotone(earlier: u64, later: u64, lease: u64)
    requires
        earlier <= later,
    ensures
        due(earlier, lease) <= due(later, lease),
        earlier <= due(earlier, lease),
{
}

} // verus!
