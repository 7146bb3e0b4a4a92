use ordered_pubsub::error::{Error, Fault};
use ordered_pubsub::message::Message;
use ordered_pubsub::publisher::Publisher;

fn keyed(key: &str, payload: &str) -> Message {
    Message::ordered(payload.as_bytes().to_vec(), key.to_string())
}

fn plain(payload: &str) -> Message {
    Message::new(payload.as_bytes().to_vec())
}

fn down() -> Fault {
    Fault { code: 14, message: "unavailable".to_string() }
}

#[test]
fn new_publisher_is_open_and_empty() {
    let mut p = Publisher::new();
    assert!(!p.is_closed());
    assert_eq!(p.tickets(), 0);
    assert!(p.is_flushed());
    assert_eq!(p.next_send(), None);
    assert_eq!(p.message(0), None);
    assert_eq!(p.take_result(0), None);
    assert!(!p.complete(0, Ok("1".to_string())));
}

#[test]
fn tickets_count_the_calls() {
    let mut p = Publisher::new();
    assert_eq!(p.publish(plain("a")), Ok(0));
    assert_eq!(p.publish(keyed("k", "b")), Ok(1));
    assert_eq!(p.publish(plain("c")), Ok(2));
    assert_eq!(p.tickets(), 3);
    assert_eq!(p.message(1), Some(&keyed("k", "b")));
    assert_eq!(p.message(3), None);
    assert!(!p.is_flushed());
}

#[test]
fn one_lane_sends_one_at_a_time_in_call_order() {
    let mut p = Publisher::new();
    for i in 0..5 {
        assert_eq!(p.publish(keyed("order", "abc")), Ok(i));
    }
    for i in 0..5 {
        assert_eq!(p.next_send(), Some(i));
        // the next of the lane waits for the answer
        assert_eq!(p.next_send(), None);
        assert!(p.complete(i, Ok(format!("id-{}", i))));
    }
    assert_eq!(p.next_send(), None);
    assert!(p.is_flushed());
    for i in 0..5 {
        assert_eq!(p.take_result(i), Some(Ok(format!("id-{}", i))));
    }
}

#[test]
fn unordered_messages_go_out_together() {
    let mut p = Publisher::new();
    for i in 0..4 {
        assert_eq!(p.publish(plain("x")), Ok(i));
    }
    assert_eq!(p.next_send(), Some(0));
    assert_eq!(p.next_send(), Some(1));
    assert_eq!(p.next_send(), Some(2));
    assert_eq!(p.next_send(), Some(3));
    assert_eq!(p.next_send(), None);
    // answers come back in any order
    assert!(p.complete(2, Ok("c".to_string())));
    assert!(p.complete(0, Ok("a".to_string())));
    assert!(p.complete(3, Ok("d".to_string())));
    assert!(p.complete(1, Ok("b".to_string())));
    assert_eq!(p.take_result(0), Some(Ok("a".to_string())));
    assert_eq!(p.take_result(1), Some(Ok("b".to_string())));
    assert_eq!(p.take_result(2), Some(Ok("c".to_string())));
    assert_eq!(p.take_result(3), Some(Ok("d".to_string())));
}

#[test]
fn lanes_do_not_wait_for_each_other() {
    let mut p = Publisher::new();
    assert_eq!(p.publish(keyed("a", "1")), Ok(0));
    assert_eq!(p.publish(keyed("a", "2")), Ok(1));
    assert_eq!(p.publish(keyed("b", "1")), Ok(2));
    assert_eq!(p.publish(plain("u")), Ok(3));
    assert_eq!(p.publish(keyed("b", "2")), Ok(4));
    assert_eq!(p.next_send(), Some(0));
    assert_eq!(p.next_send(), Some(2));
    assert_eq!(p.next_send(), Some(3));
    assert_eq!(p.next_send(), None);
    assert!(p.complete(2, Ok("b1".to_string())));
    assert_eq!(p.next_send(), Some(4));
    assert_eq!(p.next_send(), None);
    assert!(p.complete(0, Ok("a1".to_string())));
    assert_eq!(p.next_send(), Some(1));
}

#[test]
fn result_is_taken_once() {
    let mut p = Publisher::new();
    assert_eq!(p.publish(plain("x")), Ok(0));
    assert_eq!(p.take_result(0), None);
    assert_eq!(p.next_send(), Some(0));
    assert_eq!(p.take_result(0), None);
    assert!(p.complete(0, Ok("m-1".to_string())));
    assert_eq!(p.take_result(0), Some(Ok("m-1".to_string())));
    assert_eq!(p.take_result(0), None);
    assert_eq!(p.take_result(7), None);
}

#[test]
fn ticket_is_resolved_once() {
    let mut p = Publisher::new();
    assert_eq!(p.publish(plain("x")), Ok(0));
    // not yet handed over: no answer is awaited
    assert!(!p.complete(0, Ok("early".to_string())));
    assert_eq!(p.next_send(), Some(0));
    assert!(p.complete(0, Ok("first".to_string())));
    assert!(!p.complete(0, Ok("second".to_string())));
    assert!(!p.complete(0, Err(down())));
    assert_eq!(p.take_result(0), Some(Ok("first".to_string())));
    assert!(!p.complete(0, Ok("third".to_string())));
}

#[test]
fn failure_without_key_fails_that_message_alone() {
    let mut p = Publisher::new();
    for i in 0..3 {
        assert_eq!(p.publish(plain("x")), Ok(i));
    }
    assert_eq!(p.next_send(), Some(0));
    assert_eq!(p.next_send(), Some(1));
    assert!(p.complete(0, Err(down())));
    assert_eq!(p.next_send(), Some(2));
    assert!(p.complete(1, Ok("b".to_string())));
    assert!(p.complete(2, Ok("c".to_string())));
    assert_eq!(p.take_result(0), Some(Err(Error::PublishFailed(down()))));
    assert_eq!(p.take_result(1), Some(Ok("b".to_string())));
    assert_eq!(p.take_result(2), Some(Ok("c".to_string())));
    // the unordered lane goes on
    assert_eq!(p.publish(plain("y")), Ok(3));
    assert_eq!(p.next_send(), Some(3));
}

#[test]
fn failure_in_a_lane_aborts_the_lane() {
    let mut p = Publisher::new();
    assert_eq!(p.publish(keyed("a", "1")), Ok(0));
    assert_eq!(p.publish(keyed("a", "2")), Ok(1));
    assert_eq!(p.publish(keyed("b", "1")), Ok(2));
    assert_eq!(p.publish(keyed("a", "3")), Ok(3));
    assert_eq!(p.publish(plain("u")), Ok(4));
    assert_eq!(p.next_send(), Some(0));
    assert!(p.complete(0, Err(down())));
    // everything pending in lane a has failed with the same fault
    assert_eq!(p.take_result(0), Some(Err(Error::PublishFailed(down()))));
    assert_eq!(p.take_result(1), Some(Err(Error::PublishFailed(down()))));
    assert_eq!(p.take_result(3), Some(Err(Error::PublishFailed(down()))));
    // the other lanes are untouched
    assert_eq!(p.next_send(), Some(2));
    assert_eq!(p.next_send(), Some(4));
    assert_eq!(p.next_send(), None);
    assert!(p.complete(2, Ok("b1".to_string())));
    assert!(p.complete(4, Ok("u1".to_string())));
    assert_eq!(p.take_result(2), Some(Ok("b1".to_string())));
    assert_eq!(p.take_result(4), Some(Ok("u1".to_string())));
}

#[test]
fn aborted_lane_fails_later_messages_without_sending() {
    let mut p = Publisher::new();
    assert_eq!(p.publish(keyed("a", "1")), Ok(0));
    assert_eq!(p.next_send(), Some(0));
    assert!(p.complete(0, Err(down())));
    assert_eq!(p.publish(keyed("a", "2")), Ok(1));
    assert_eq!(p.next_send(), None);
    assert!(p.is_flushed());
    assert_eq!(p.take_result(1), Some(Err(Error::PublishFailed(down()))));
    // another key is a lane of its own
    assert_eq!(p.publish(keyed("b", "1")), Ok(2));
    assert_eq!(p.next_send(), Some(2));
}

#[test]
fn publish_after_shutdown_fails_with_closed() {
    let mut p = Publisher::new();
    assert_eq!(p.publish(keyed("a", "1")), Ok(0));
    p.shutdown();
    assert!(p.is_closed());
    assert_eq!(p.publish(keyed("a", "2")), Err(Error::Closed));
    assert_eq!(p.publish(plain("u")), Err(Error::Closed));
    assert_eq!(p.tickets(), 1);
    // what was taken before is still sent, and nothing else
    assert!(!p.is_flushed());
    assert_eq!(p.next_send(), Some(0));
    assert_eq!(p.next_send(), None);
    assert!(p.complete(0, Ok("1".to_string())));
    assert!(p.is_flushed());
    assert_eq!(p.next_send(), None);
    assert_eq!(p.publish(plain("v")), Err(Error::Closed));
    assert_eq!(p.tickets(), 1);
    assert_eq!(p.take_result(0), Some(Ok("1".to_string())));
}

#[test]
fn shutdown_twice_is_shutdown() {
    let mut p = Publisher::new();
    p.shutdown();
    p.shutdown();
    assert!(p.is_closed());
    assert!(p.is_flushed());
    assert_eq!(p.publish(plain("x")), Err(Error::Closed));
}

#[test]
fn flushed_means_nothing_queued_or_in_flight() {
    let mut p = Publisher::new();
    assert!(p.is_flushed());
    assert_eq!(p.publish(plain("x")), Ok(0));
    assert!(!p.is_flushed());
    assert_eq!(p.next_send(), Some(0));
    assert!(!p.is_flushed());
    assert!(p.complete(0, Ok("1".to_string())));
    assert!(p.is_flushed());
    assert_eq!(p.take_result(0), Some(Ok("1".to_string())));
    assert!(p.is_flushed());
}

#[test]
fn interleaved_callers_keep_lane_order() {
    // two callers publish to the same key in turns, a third to another key
    let mut p = Publisher::new();
    let mut lane_a = Vec::new();
    let mut lane_b = Vec::new();
    for round in 0..6 {
        lane_a.push(p.publish(keyed("a", "first caller")).unwrap());
        lane_b.push(p.publish(keyed("b", "third caller")).unwrap());
        lane_a.push(p.publish(keyed("a", "second caller")).unwrap());
        if round % 2 == 0 {
            p.publish(plain("noise")).unwrap();
        }
    }
    let mut seen_a = Vec::new();
    let mut seen_b = Vec::new();
    let mut in_flight: Vec<usize> = Vec::new();
    loop {
        while let Some(t) = p.next_send() {
            let key = p.message(t).unwrap().ordering_key.clone();
            if key == "a" {
                seen_a.push(t);
            } else if key == "b" {
                seen_b.push(t);
            }
            in_flight.push(t);
        }
        // answer the youngest first, to stir the order of answers
        match in_flight.pop() {
            Some(t) => assert!(p.complete(t, Ok(t.to_string()))),
            None => break,
        }
    }
    assert_eq!(seen_a, lane_a);
    assert_eq!(seen_b, lane_b);
    assert!(p.is_flushed());
}
