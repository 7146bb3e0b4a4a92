use ordered_pubsub::broker::session::Handler;
use ordered_pubsub::broker::{Delivery, MemoryBroker};
use ordered_pubsub::cancel::CancellationToken;
use ordered_pubsub::client::{Client, Subscription, SubscriptionConfig, Topic};
use ordered_pubsub::error::Error;
use ordered_pubsub::message::Message;
use ordered_pubsub::subscriber::Disposition;

/// Settles every delivery the same way and notes what it saw.
struct Always {
    disposition: Option<Disposition>,
    seen: Vec<(String, u64)>,
    cancelled_seen: bool,
}

impl Always {
    fn new(disposition: Option<Disposition>) -> Always {
        Always { disposition, seen: Vec::new(), cancelled_seen: false }
    }
}

impl Handler for Always {
    fn handle(&mut self, delivery: &Delivery, token: &CancellationToken) -> Option<Disposition> {
        self.seen.push((delivery.id.clone(), delivery.deadline));
        self.cancelled_seen = self.cancelled_seen || token.is_cancelled();
        self.disposition
    }
}

/// Leaves the first delivery of every message unsettled and acknowledges
/// the later ones.
struct ForgetsOnce {
    seen: Vec<(String, u64)>,
}

impl Handler for ForgetsOnce {
    fn handle(&mut self, delivery: &Delivery, _token: &CancellationToken) -> Option<Disposition> {
        let again = self.seen.iter().any(|(id, _)| *id == delivery.id);
        self.seen.push((delivery.id.clone(), delivery.deadline));
        if again {
            Some(Disposition::Ack)
        } else {
            None
        }
    }
}

fn setup(lease: u64, messages: usize) -> (MemoryBroker, Topic, Subscription) {
    let client = Client::new("p".to_string());
    let topic = client.topic("t");
    let subscription = client.subscription("s");
    let mut broker = MemoryBroker::new(lease);
    broker.ensure_topic(&topic).unwrap();
    broker
        .ensure_subscription(&subscription, &topic, SubscriptionConfig { enable_message_ordering: true })
        .unwrap();
    for _ in 0..messages {
        let message = Message::ordered(b"abc".to_vec(), "order".to_string());
        broker.send_publish(topic.fully_qualified_name(), &message).unwrap();
    }
    (broker, topic, subscription)
}

#[test]
fn parked_loop_returns_when_the_token_is_cancelled() {
    let (mut broker, _topic, subscription) = setup(10, 0);
    let mut handler = Always::new(Some(Disposition::Ack));
    let mut token = CancellationToken::new();
    let mut clock = 0;
    let result = broker.receive(&subscription, &mut handler, &mut token, &mut clock, 60, 4);
    assert_eq!(result, Ok(()));
    assert_eq!(clock, 60);
    assert!(token.is_cancelled());
    assert!(handler.seen.is_empty());
}

#[test]
fn cancelled_token_ends_the_loop_at_once() {
    let (mut broker, _topic, subscription) = setup(10, 3);
    let mut handler = Always::new(Some(Disposition::Ack));
    let mut token = CancellationToken::new();
    let mut elsewhere = token.share();
    elsewhere.cancel();
    let mut clock = 7;
    let result = broker.receive(&subscription, &mut handler, &mut token, &mut clock, 60, 4);
    assert_eq!(result, Ok(()));
    assert_eq!(clock, 7);
    assert!(handler.seen.is_empty());
    // nothing was pulled: the messages still wait
    assert_eq!(broker.pull(subscription.fully_qualified_name(), 7).unwrap().unwrap().id, "1");
}

#[test]
fn timer_in_the_past_ends_the_loop_at_once() {
    let (mut broker, _topic, subscription) = setup(10, 3);
    let mut handler = Always::new(Some(Disposition::Ack));
    let mut token = CancellationToken::new();
    let mut clock = 100;
    let result = broker.receive(&subscription, &mut handler, &mut token, &mut clock, 60, 4);
    assert_eq!(result, Ok(()));
    assert_eq!(clock, 100);
    assert!(token.is_cancelled());
    assert!(handler.seen.is_empty());
}

#[test]
fn ten_messages_are_handled_in_order_and_acknowledged_once() {
    let (mut broker, _topic, subscription) = setup(10, 10);
    let mut handler = Always::new(Some(Disposition::Ack));
    let mut token = CancellationToken::new();
    let mut clock = 0;
    let result = broker.receive(&subscription, &mut handler, &mut token, &mut clock, 60, 4);
    assert_eq!(result, Ok(()));
    assert_eq!(clock, 60);
    let ids: Vec<&str> = handler.seen.iter().map(|(id, _)| id.as_str()).collect();
    assert_eq!(ids, vec!["1", "2", "3", "4", "5", "6", "7", "8", "9", "10"]);
    // four per round
    let deadlines: Vec<u64> = handler.seen.iter().map(|(_, deadline)| *deadline).collect();
    assert_eq!(deadlines, vec![10, 10, 10, 10, 11, 11, 11, 11, 12, 12]);
    assert!(!handler.cancelled_seen);
    assert_eq!(broker.pull(subscription.fully_qualified_name(), 1000), Ok(None));
}

#[test]
fn unsettled_message_is_handled_again_after_its_deadline() {
    let (mut broker, _topic, subscription) = setup(5, 1);
    let mut handler = ForgetsOnce { seen: Vec::new() };
    let mut token = CancellationToken::new();
    let mut clock = 0;
    let result = broker.receive(&subscription, &mut handler, &mut token, &mut clock, 20, 1);
    assert_eq!(result, Ok(()));
    assert_eq!(clock, 20);
    assert_eq!(handler.seen, vec![("1".to_string(), 5), ("1".to_string(), 10)]);
    assert_eq!(broker.pull(subscription.fully_qualified_name(), 1000), Ok(None));
}

#[test]
fn limit_bounds_what_is_unsettled() {
    let (mut broker, _topic, subscription) = setup(10, 5);
    let mut handler = Always::new(None);
    let mut token = CancellationToken::new();
    let mut clock = 0;
    let result = broker.receive(&subscription, &mut handler, &mut token, &mut clock, 9, 2);
    assert_eq!(result, Ok(()));
    // two were taken at the start; no more while they were unsettled
    assert_eq!(handler.seen, vec![("1".to_string(), 10), ("2".to_string(), 10)]);
    // the loop waited for them until their deadline, after the cancellation
    assert_eq!(clock, 10);
    assert!(clock <= 9 + 10);
}

#[test]
fn loop_waits_no_longer_than_a_lease_after_cancellation() {
    let (mut broker, _topic, subscription) = setup(10, 1);
    let mut handler = Always::new(None);
    let mut token = CancellationToken::new();
    let mut clock = 0;
    // the message is delivered again at 10 and left unsettled again
    let result = broker.receive(&subscription, &mut handler, &mut token, &mut clock, 12, 1);
    assert_eq!(result, Ok(()));
    assert_eq!(handler.seen, vec![("1".to_string(), 10), ("1".to_string(), 20)]);
    assert_eq!(clock, 20);
    assert!(clock <= 12 + 10);
}

#[test]
fn message_given_back_is_handled_again_in_the_same_round() {
    let (mut broker, _topic, subscription) = setup(10, 1);
    let mut handler = Always::new(Some(Disposition::Nack));
    let mut token = CancellationToken::new();
    let mut clock = 0;
    let result = broker.receive(&subscription, &mut handler, &mut token, &mut clock, 2, 3);
    assert_eq!(result, Ok(()));
    assert_eq!(clock, 2);
    assert_eq!(handler.seen.len(), 6);
    assert!(handler.seen.iter().all(|(id, _)| id == "1"));
    // it was never acknowledged
    assert_eq!(broker.pull(subscription.fully_qualified_name(), 2).unwrap().unwrap().id, "1");
}

#[test]
fn missing_subscription_fails_the_loop() {
    let client = Client::new("p".to_string());
    let subscription = client.subscription("nowhere");
    let mut broker = MemoryBroker::new(10);
    let mut handler = Always::new(Some(Disposition::Ack));
    let mut token = CancellationToken::new();
    let mut clock = 0;
    let result = broker.receive(&subscription, &mut handler, &mut token, &mut clock, 60, 4);
    assert_eq!(result, Err(Error::NotFound));
    assert_eq!(clock, 1);
    // the failure is told from a cancellation by the token
    assert!(!token.is_cancelled());
}

#[test]
fn loop_that_takes_nothing_never_asks_the_broker() {
    let client = Client::new("p".to_string());
    let subscription = client.subscription("nowhere");
    let mut broker = MemoryBroker::new(10);
    let mut handler = Always::new(Some(Disposition::Ack));
    let mut token = CancellationToken::new();
    let mut clock = 0;
    let result = broker.receive(&subscription, &mut handler, &mut token, &mut clock, 3, 0);
    assert_eq!(result, Ok(()));
    assert_eq!(clock, 3);
}

#[test]
fn clock_at_its_end_stops_the_loop() {
    let (mut broker, _topic, subscription) = setup(10, 1);
    let mut handler = Always::new(None);
    let mut token = CancellationToken::new();
    let mut clock = u64::MAX - 2;
    let result = broker.receive(&subscription, &mut handler, &mut token, &mut clock, u64::MAX, 1);
    assert_eq!(result, Ok(()));
    assert_eq!(clock, u64::MAX);
    assert_eq!(handler.seen, vec![("1".to_string(), u64::MAX)]);
}
