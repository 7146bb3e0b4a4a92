//! What holds of the in-memory broker.

use crate::broker::model::{
    due, lemma_create_feed_wf, lemma_create_topic_wf, lemma_delete_feed_wf, lemma_feed_at,
    lemma_feed_index, lemma_held, lemma_next, lemma_post_wf, lemma_pull_wf, lemma_settle_wf,
    lemma_topic_index, lemma_topic_stays, BrokerView, DeliveryView, Hold,
};
use crate::client::{EnsuringView, ReplyView, Request, SubscriptionConfig};
use crate::error::ErrorView;
use crate::ident::{decimal, lemma_decimal_injective};
use crate::message::MessageView;
use vstd::prelude::*;

verus! {

/// The answer of the broker to a request for creation, as the one who makes
/// sure of a resource hears it.
pub open spec fn heard(reply: Result<(), ErrorView>) -> ReplyView {
    match reply {
        Ok(_) => ReplyView::Created,
        Err(error) => ReplyView::Refused(error),
    }
}

/// Making sure of topic `name` when the look at the broker showed `seen`:
/// the broker that is left and the state in which it ends.
pub open spec fn ensure_topic(b: BrokerView, name: Seq<char>, seen: bool) -> (BrokerView, EnsuringView) {
    let looked = EnsuringView::Checking.advance(ReplyView::Exists(seen));
    if looked.request() == Some(Request::Create) {
        (b.create_topic(name), looked.advance(heard(b.create_topic_reply(name))))
    } else {
        (b, looked)
    }
}

/// Making sure of subscription `name` on `topic` when the look at the
/// broker showed `seen`.
pub open spec fn ensure_subscription(
    b: BrokerView,
    name: Seq<char>,
    topic: Seq<char>,
    config: SubscriptionConfig,
    seen: bool,
) -> (BrokerView, EnsuringView) {
    let looked = EnsuringView::Checking.advance(ReplyView::Exists(seen));
    if looked.request() == Some(Request::Create) {
        (b.create_feed(name, topic, config), looked.advance(heard(b.create_feed_reply(name, topic))))
    } else {
        (b, looked)
    }
}

/// Making sure of a topic twice. A look at the broker may miss a topic that
/// someone else has just made, but shows none that is not there. Whatever
/// the two looks show, making sure of a topic ends ready both times; after
/// the first time the topic is there, once; and the second time leaves the
/// broker as it is.
pub proof fn law_ensure_topic_idempotent(b: BrokerView, name: Seq<char>, first: bool, second: bool)
    requires
        b.wf(),
        first ==> b.has_topic(name),
    ensures
        ensure_topic(b, name, first).1 == EnsuringView::Ready,
        ensure_topic(b, name, first).0.wf(),
        ensure_topic(b, name, first).0.has_topic(name),
        forall|i: int, j: int|
            0 <= i < j < ensure_topic(b, name, first).0.topics.len() ==> !(ensure_topic(
                b,
                name,
                first,
            ).0.topics[i] == name && ensure_topic(b, name, first).0.topics[j] == name),
        ensure_topic(ensure_topic(b, name, first).0, name, second) == (
            ensure_topic(b, name, first).0,
            EnsuringView::Ready,
        ),
{
    lemma_create_topic_wf(b, name);
    let c = ensure_topic(b, name, first).0;
    assert forall|i: int, j: int| 0 <= i < j < c.topics.len() implies !(c.topics[i] == name
        && c.topics[j] == name) by {
        assert(c.topics[i] != c.topics[j]);
    }
}

/// Making sure of a subscription twice. On a topic that exists, and
/// whatever the two looks show, making sure of a subscription ends ready
/// both times; after the first time the subscription is there, once; and
/// the second time, with the same arguments, leaves the broker as it is.
pub proof fn law_ensure_subscription_idempotent(
    b: BrokerView,
    name: Seq<char>,
    topic: Seq<char>,
    config: SubscriptionConfig,
    first: bool,
    second: bool,
)
    requires
        b.wf(),
        b.has_topic(topic),
        first ==> b.has_feed(name),
    ensures
        ensure_subscription(b, name, topic, config, first).1 == EnsuringView::Ready,
        ensure_subscription(b, name, topic, config, first).0.wf(),
        ensure_subscription(b, name, topic, config, first).0.has_feed(name),
        forall|i: int, j: int|
            0 <= i < j < ensure_subscription(b, name, topic, config, first).0.feeds.len()
                ==> !(ensure_subscription(b, name, topic, config, first).0.feeds[i].name == name
                && ensure_subscription(b, name, topic, config, first).0.feeds[j].name == name),
        ensure_subscription(
            ensure_subscription(b, name, topic, config, first).0,
            name,
            topic,
            config,
            second,
        ) == (ensure_subscription(b, name, topic, config, first).0, EnsuringView::Ready),
{
    lemma_create_feed_wf(b, name, topic, config);
    lemma_feed_index(b, name);
    let c = ensure_subscription(b, name, topic, config, first).0;
    if !b.has_feed(name) {
        lemma_feed_at(c, name, b.feeds.len() as int);
    }
    lemma_topic_stays(b, c, topic);
    assert forall|i: int, j: int| 0 <= i < j < c.feeds.len() implies !(c.feeds[i].name == name
        && c.feeds[j].name == name) by {
        assert(c.feeds[i].name != c.feeds[j].name);
    }
}

/// A subscription is not made on a topic that is missing: making sure of it
/// then fails with `NotFound` and leaves the broker as it is.
pub proof fn law_ensure_subscription_needs_topic(
    b: BrokerView,
    name: Seq<char>,
    topic: Seq<char>,
    config: SubscriptionConfig,
)
    requires
        !b.has_topic(topic),
    ensures
        ensure_subscription(b, name, topic, config, false) == (
            b,
            EnsuringView::Failed(ErrorView::NotFound),
        ),
{
}

/// What is not settled in time comes back. A message that was pulled and
/// then neither acknowledged nor given back is up for delivery again once
/// its deadline has come, and not before; a pull at such a time delivers a
/// message, and it delivers this one, under a new acknowledgement number,
/// if nothing older is up for delivery.
pub proof fn law_lapsed_comes_back(b: BrokerView, name: Seq<char>, now: u64, later: u64)
    requires
        b.wf(),
        b.can_pull(name, now),
        b.leased + 1 < u64::MAX,
    ensures
        b.pull(name, now).has_feed(name),
        b.pull(name, now).feed(name).backlog[b.feed(name).next(now)].deliverable(later) <==> later
            >= due(now, b.lease),
        later >= due(now, b.lease) ==> {
            &&& b.pull(name, now).can_pull(name, later)
            &&& b.pull(name, now).feed(name).next(later) <= b.feed(name).next(now)
            &&& (b.pull(name, now).feed(name).next(later) == b.feed(name).next(now)
                ==> b.pull(name, now).pull_reply(name, later) == Ok::<Option<DeliveryView>, ErrorView>(
                Some(
                    DeliveryView {
                        ack: (b.leased + 1) as u64,
                        deadline: due(later, b.lease),
                        id: b.pull_reply(name, now)->Ok_0->0.id,
                        message: b.pull_reply(name, now)->Ok_0->0.message,
                    },
                ),
            ))
        },
{
    let c = b.pull(name, now);
    let f = b.feed_index(name);
    let i = b.feed(name).next(now);
    lemma_feed_index(b, name);
    lemma_next(b.feed(name), now);
    lemma_pull_wf(b, name, now);
    assert forall|k: int| 0 <= k < f implies (#[trigger] c.feeds[k]).name != name by {
        assert(b.feeds[k].name != name);
    }
    lemma_feed_at(c, name, f);
    lemma_next(c.feed(name), later);
    if later >= due(now, b.lease) {
        assert(c.feed(name).backlog[i].deliverable(later));
    }
}

/// What is acknowledged does not come back. After an acknowledgement the
/// message is up for delivery at no time.
pub proof fn law_acknowledged_stays(b: BrokerView, name: Seq<char>, ack: u64, later: u64)
    requires
        b.wf(),
        b.holds(name, ack),
    ensures
        b.settle(name, ack, Hold::Done).has_feed(name),
        !b.settle(name, ack, Hold::Done).feed(name).backlog[b.feed(name).held(ack)].deliverable(later),
{
    let c = b.settle(name, ack, Hold::Done);
    let f = b.feed_index(name);
    lemma_feed_index(b, name);
    lemma_held(b.feed(name), ack);
    assert forall|k: int| 0 <= k < f implies (#[trigger] c.feeds[k]).name != name by {
        assert(b.feeds[k].name != name);
    }
    lemma_feed_at(c, name, f);
}

/// One request to the broker.
pub enum Ask {
    CreateTopic(Seq<char>),
    CreateSubscription(Seq<char>, Seq<char>, SubscriptionConfig),
    DeleteSubscription(Seq<char>),
    Publish(Seq<char>, MessageView),
    Pull(Seq<char>, u64),
    Ack(Seq<char>, u64),
    Nack(Seq<char>, u64),
}

impl BrokerView {
    /// The broker after one request.
    pub open spec fn step(self, ask: Ask) -> BrokerView {
        match ask {
            Ask::CreateTopic(name) => self.create_topic(name),
            Ask::CreateSubscription(name, topic, config) => self.create_feed(name, topic, config),
            Ask::DeleteSubscription(name) => self.delete_feed(name),
            Ask::Publish(topic, message) => self.post(topic, message),
            Ask::Pull(name, now) => self.pull(name, now),
            Ask::Ack(name, ack) => self.settle(name, ack, Hold::Done),
            Ask::Nack(name, ack) => self.settle(name, ack, Hold::Ready),
        }
    }

    /// The broker after a sequence of requests.
    pub open spec fn run(self, asks: Seq<Ask>) -> BrokerView
        decreases asks.len(),
    {
        if asks.len() == 0 {
            self
        } else {
            self.run(asks.drop_last()).step(asks.last())
        }
    }
}

/// Every request keeps the invariant, and takes back no number.
pub proof fn lemma_step_wf(b: BrokerView, ask: Ask)
    requires
        b.wf(),
    ensures
        b.step(ask).wf(),
        b.step(ask).posted >= b.posted,
{
    match ask {
        Ask::CreateTopic(name) => lemma_create_topic_wf(b, name),
        Ask::CreateSubscription(name, topic, config) => lemma_create_feed_wf(b, name, topic, config),
        Ask::DeleteSubscription(name) => lemma_delete_feed_wf(b, name),
        Ask::Publish(topic, message) => lemma_post_wf(b, topic, message),
        Ask::Pull(name, now) => lemma_pull_wf(b, name, now),
        Ask::Ack(name, ack) => lemma_settle_wf(b, name, ack, Hold::Done),
        Ask::Nack(name, ack) => lemma_settle_wf(b, name, ack, Hold::Ready),
    }
}

/// The invariant holds after any sequence of requests, and no number is
/// taken back.
pub proof fn lemma_run_wf(b: BrokerView, asks: Seq<Ask>)
    requires
        b.wf(),
    ensures
        b.run(asks).wf(),
        b.run(asks).posted >= b.posted,
    decreases asks.len(),
{
    if asks.len() > 0 {
        lemma_run_wf(b, asks.drop_last());
        lemma_step_wf(b.run(asks.drop_last()), asks.last());
    }
}

/// One identifier per message. Of two messages that the broker accepted,
/// whatever it was asked in between and to whatever topics they went, the
/// later has an identifier other than the earlier.
pub proof fn law_fresh_identifier(
    b: BrokerView,
    first_topic: Seq<char>,
    first: MessageView,
    between: Seq<Ask>,
    second_topic: Seq<char>,
)
    requires
        b.wf(),
        b.post_reply(first_topic) is Ok,
        b.post(first_topic, first).run(between).post_reply(second_topic) is Ok,
    ensures
        b.post_reply(first_topic)->Ok_0 != b.post(first_topic, first).run(between).post_reply(
            second_topic,
        )->Ok_0,
{
    lemma_post_wf(b, first_topic, first);
    lemma_run_wf(b.post(first_topic, first), between);
    let later = b.post(first_topic, first).run(between).posted;
    if decimal(b.posted + 1) == decimal(later + 1) {
        lemma_decimal_injective(b.posted + 1, later + 1);
    }
}

/// No identifier twice in a backlog. Two messages in the backlog of one
/// subscription have different identifiers.
pub proof fn law_backlog_identifiers(b: BrokerView, f: int, i: int, j: int)
    requires
        b.wf(),
        0 <= f < b.feeds.len(),
        0 <= i < j < b.feeds[f].backlog.len(),
    ensures
        decimal(b.feeds[f].backlog[i].number) != decimal(b.feeds[f].backlog[j].number),
{
    assert(b.feeds[f].wf(b.posted, b.leased));
    assert(b.feeds[f].backlog[i].number < b.feeds[f].backlog[j].number);
    if decimal(b.feeds[f].backlog[i].number) == decimal(b.feeds[f].backlog[j].number) {
        lemma_decimal_injective(b.feeds[f].backlog[i].number, b.feeds[f].backlog[j].number);
    }
}

/// Every message reaches every subscription of its topic. After a message
/// was published, it is the last of the backlog of each subscription of the
/// topic, up for delivery, under the identifier that the publisher was
/// told; the other subscriptions are as they were.
pub proof fn law_post_reaches_subscriptions(b: BrokerView, topic: Seq<char>, message: MessageView, f: int)
    requires
        b.wf(),
        b.post_reply(topic) is Ok,
        0 <= f < b.feeds.len(),
    ensures
        b.feeds[f].topic == topic ==> {
            &&& b.post(topic, message).feeds[f].backlog.len() == b.feeds[f].backlog.len() + 1
            &&& b.post(topic, message).feeds[f].backlog.last().message == message
            &&& b.post(topic, message).feeds[f].backlog.last().hold == Hold::Ready
            &&& decimal(b.post(topic, message).feeds[f].backlog.last().number) == b.post_reply(topic)->Ok_0
        },
        b.feeds[f].topic != topic ==> b.post(topic, message).feeds[f] == b.feeds[f],
{
    lemma_post_wf(b, topic, message);
    lemma_topic_index(b, topic);
}

} // verus!
