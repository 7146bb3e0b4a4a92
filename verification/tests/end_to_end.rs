use ordered_pubsub::broker::{Delivery, MemoryBroker};
use ordered_pubsub::cancel::CancellationToken;
use ordered_pubsub::client::{Client, SubscriptionConfig};
use ordered_pubsub::error::{Error, Fault};
use ordered_pubsub::message::Message;
use ordered_pubsub::publisher::Publisher;
use ordered_pubsub::subscriber::{AckHandle, Disposition, Subscriber};

/// Sends whatever the publisher lets go until nothing is left, and returns
/// the tickets in the order in which the broker got them.
fn pump(publisher: &mut Publisher, broker: &mut MemoryBroker, topic: &String) -> Vec<usize> {
    let mut order = Vec::new();
    let mut in_flight = Vec::new();
    loop {
        while let Some(ticket) = publisher.next_send() {
            let reply = broker.send_publish(topic, publisher.message(ticket).unwrap());
            order.push(ticket);
            in_flight.push((ticket, reply));
        }
        if in_flight.is_empty() {
            break;
        }
        for (ticket, reply) in in_flight.drain(..) {
            assert!(publisher.complete(ticket, reply.map_err(Error::fault)));
        }
    }
    order
}

#[test]
fn ten_ordered_messages_from_publish_to_acknowledgement() {
    let client = Client::new("local-project".to_string());
    let topic = client.topic("Test_Topic");
    let subscription = client.subscription("Test_Topic-sub");
    let mut broker = MemoryBroker::new(10);
    assert_eq!(broker.ensure_topic(&topic), Ok(()));
    let config = SubscriptionConfig { enable_message_ordering: true };
    assert_eq!(broker.ensure_subscription(&subscription, &topic, config), Ok(()));

    // publish
    let mut publisher = Publisher::new();
    let mut tickets = Vec::new();
    for _ in 0..10 {
        let message = Message::ordered(b"abc".to_vec(), "order".to_string());
        tickets.push(publisher.publish(message).unwrap());
    }
    let order = pump(&mut publisher, &mut broker, topic.fully_qualified_name());
    assert_eq!(order, tickets);
    let mut ids = Vec::new();
    for ticket in tickets.iter() {
        ids.push(publisher.take_result(*ticket).unwrap().unwrap());
    }
    assert_eq!(ids.len(), 10);
    for i in 0..10 {
        for j in 0..i {
            assert_ne!(ids[i], ids[j]);
        }
    }
    assert_eq!(ids, vec!["1", "2", "3", "4", "5", "6", "7", "8", "9", "10"]);
    publisher.shutdown();
    assert!(publisher.is_flushed());
    assert_eq!(publisher.publish(Message::new(Vec::new())), Err(Error::Closed));

    // receive, with a timer that cancels after 60 seconds
    let mut subscriber = Subscriber::new(4, true);
    let mut token = CancellationToken::new();
    let mut timer = token.share();
    assert!(subscriber.start());
    let mut now: u64 = 0;
    let mut received: Vec<Delivery> = Vec::new();
    let mut acknowledged: Vec<u64> = Vec::new();
    while !subscriber.is_stopped() {
        assert!(now <= 60);
        if now == 60 {
            timer.cancel();
        }
        subscriber.observe(&mut token);
        subscriber.expire(now);
        let mut handlers: Vec<(AckHandle, Delivery)> = Vec::new();
        while subscriber.wants_message() {
            match broker.pull(subscription.fully_qualified_name(), now).unwrap() {
                Some(delivery) => {
                    let handle = subscriber.deliver(delivery.deadline).unwrap();
                    handlers.push((handle, delivery));
                },
                None => break,
            }
        }
        assert!(subscriber.outstanding() <= 4);
        for (handle, delivery) in handlers {
            let settlement = subscriber.ack(handle).unwrap();
            assert_eq!(settlement.disposition, Disposition::Ack);
            assert_eq!(broker.ack(subscription.fully_qualified_name(), delivery.ack_id), Ok(()));
            acknowledged.push(delivery.ack_id);
            received.push(delivery);
        }
        now += 1;
    }
    assert_eq!(now, 61);
    assert_eq!(subscriber.result(), Some(Ok(())));
    assert!(token.is_cancelled());

    // all ten arrived, in lane order, each acknowledged once
    assert_eq!(received.len(), 10);
    for (i, delivery) in received.iter().enumerate() {
        assert_eq!(delivery.id, ids[i]);
        assert_eq!(delivery.message.data, b"abc".to_vec());
        assert_eq!(delivery.message.ordering_key, "order");
    }
    assert_eq!(acknowledged, vec![0, 1, 2, 3, 4, 5, 6, 7, 8, 9]);
    assert_eq!(broker.pull(subscription.fully_qualified_name(), 1000), Ok(None));
    assert_eq!(broker.delete_subscription(subscription.fully_qualified_name()), Ok(()));
}

#[test]
fn unacknowledged_message_is_redelivered_to_the_handler() {
    let mut broker = MemoryBroker::new(5);
    let topic = "t".to_string();
    let feed = "s".to_string();
    broker.create_topic(topic.clone()).unwrap();
    broker
        .create_subscription(feed.clone(), &topic, SubscriptionConfig { enable_message_ordering: false })
        .unwrap();
    broker.send_publish(&topic, &Message::new(b"once".to_vec())).unwrap();

    let mut subscriber = Subscriber::new(1, true);
    subscriber.start();
    let mut seen = Vec::new();
    let mut forgotten: Option<AckHandle> = None;
    let mut now = 0;
    while now < 20 {
        subscriber.expire(now);
        if subscriber.wants_message() {
            if let Some(delivery) = broker.pull(&feed, now).unwrap() {
                let handle = subscriber.deliver(delivery.deadline).unwrap();
                seen.push((now, delivery.id.clone()));
                if seen.len() == 1 {
                    // the handler neither acknowledges nor gives back
                    forgotten = Some(handle);
                } else {
                    subscriber.ack(handle).unwrap();
                    broker.ack(&feed, delivery.ack_id).unwrap();
                }
            }
        }
        now += 1;
    }
    assert_eq!(seen, vec![(0, "1".to_string()), (5, "1".to_string())]);
    // the handle of the first delivery has lapsed
    assert_eq!(subscriber.ack(forgotten.unwrap()), None);
    assert_eq!(broker.pull(&feed, 100), Ok(None));
}

#[test]
fn unordered_publishes_each_get_their_own_identifier() {
    let mut broker = MemoryBroker::new(5);
    let topic = "t".to_string();
    broker.create_topic(topic.clone()).unwrap();
    let mut publisher = Publisher::new();
    let mut tickets = Vec::new();
    for caller in 0..8u8 {
        tickets.push(publisher.publish(Message::new(vec![caller])).unwrap());
    }
    let order = pump(&mut publisher, &mut broker, &topic);
    assert_eq!(order.len(), 8);
    let mut ids = Vec::new();
    for ticket in tickets {
        let id = publisher.take_result(ticket).unwrap().unwrap();
        assert!(!ids.contains(&id));
        ids.push(id);
        assert_eq!(publisher.take_result(ticket), None);
    }
    assert_eq!(ids.len(), 8);
}

#[test]
fn publish_to_a_missing_topic_aborts_the_lane_only() {
    let mut broker = MemoryBroker::new(5);
    let mut publisher = Publisher::new();
    let a = publisher.publish(Message::ordered(b"1".to_vec(), "a".to_string())).unwrap();
    let b = publisher.publish(Message::ordered(b"2".to_vec(), "a".to_string())).unwrap();
    let order = pump(&mut publisher, &mut broker, &"missing".to_string());
    // the second message of the lane never reached the broker
    assert_eq!(order, vec![a]);
    let not_found = Fault { code: 5, message: String::new() };
    assert_eq!(publisher.take_result(a), Some(Err(Error::PublishFailed(not_found.duplicate()))));
    assert_eq!(publisher.take_result(b), Some(Err(Error::PublishFailed(not_found))));
}

#[test]
fn serve_sends_in_lane_order_and_flushes() {
    let client = Client::new("p".to_string());
    let topic = client.topic("t");
    let subscription = client.subscription("s");
    let mut broker = MemoryBroker::new(10);
    broker.ensure_topic(&topic).unwrap();
    broker
        .ensure_subscription(&subscription, &topic, SubscriptionConfig { enable_message_ordering: true })
        .unwrap();
    let mut publisher = Publisher::new();
    let payloads = ["a1", "b1", "u1", "a2", "b2", "a3"];
    let keys = ["a", "b", "", "a", "b", "a"];
    for (payload, key) in payloads.iter().zip(keys.iter()) {
        publisher.publish(Message::ordered(payload.as_bytes().to_vec(), key.to_string())).unwrap();
    }
    publisher.shutdown();
    assert!(!publisher.is_flushed());
    broker.serve(&mut publisher, &topic);
    assert!(publisher.is_flushed());
    assert!(publisher.is_closed());
    assert_eq!(publisher.next_send(), None);
    // each answer is in before the next pick, so the oldest ticket goes first
    let mut arrived = Vec::new();
    while let Some(delivery) = broker.pull(subscription.fully_qualified_name(), 0).unwrap() {
        arrived.push(String::from_utf8(delivery.message.data).unwrap());
    }
    assert_eq!(arrived, vec!["a1", "b1", "u1", "a2", "b2", "a3"]);
    let ids: Vec<String> = (0..6).map(|t| publisher.take_result(t).unwrap().unwrap()).collect();
    assert_eq!(ids, vec!["1", "2", "3", "4", "5", "6"]);
}

#[test]
fn serve_reports_a_missing_topic_to_each_ticket() {
    let client = Client::new("p".to_string());
    let topic = client.topic("nowhere");
    let mut broker = MemoryBroker::new(10);
    let mut publisher = Publisher::new();
    publisher.publish(Message::ordered(b"1".to_vec(), "a".to_string())).unwrap();
    publisher.publish(Message::ordered(b"2".to_vec(), "a".to_string())).unwrap();
    publisher.publish(Message::new(b"3".to_vec())).unwrap();
    publisher.publish(Message::new(b"4".to_vec())).unwrap();
    broker.serve(&mut publisher, &topic);
    assert!(publisher.is_flushed());
    let not_found = Fault { code: 5, message: String::new() };
    for ticket in 0..4 {
        assert_eq!(
            publisher.take_result(ticket),
            Some(Err(Error::PublishFailed(not_found.duplicate())))
        );
    }
    assert!(!broker.topic_exists(topic.fully_qualified_name()));
}

#[test]
fn serve_of_an_idle_publisher_changes_nothing() {
    let client = Client::new("p".to_string());
    let topic = client.topic("t");
    let mut broker = MemoryBroker::new(10);
    broker.ensure_topic(&topic).unwrap();
    let mut publisher = Publisher::new();
    broker.serve(&mut publisher, &topic);
    assert!(publisher.is_flushed());
    assert_eq!(publisher.tickets(), 0);
    assert_eq!(broker.send_publish(topic.fully_qualified_name(), &Message::new(Vec::new())), Ok("1".to_string()));
}
