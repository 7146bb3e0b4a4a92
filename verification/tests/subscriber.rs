use ordered_pubsub::cancel::CancellationToken;
use ordered_pubsub::error::{Error, Fault};
use ordered_pubsub::subscriber::model::Phase;
use ordered_pubsub::subscriber::{Disposition, Outcome, Settlement, Subscriber};

fn down() -> Error {
    Error::Transport(Fault { code: 14, message: "unavailable".to_string() })
}

#[test]
fn new_loop_is_idle() {
    let s = Subscriber::new(3, true);
    assert_eq!(s.phase(), Phase::Idle);
    assert_eq!(s.outstanding(), 0);
    assert!(!s.wants_message());
    assert!(!s.is_stopped());
    assert_eq!(s.outcome(), None);
    assert_eq!(s.result(), None);
}

#[test]
fn idle_loop_takes_no_delivery() {
    let mut s = Subscriber::new(3, true);
    assert!(s.deliver(10).is_none());
    assert_eq!(s.outstanding(), 0);
}

#[test]
fn start_enters_once() {
    let mut s = Subscriber::new(3, true);
    assert!(s.start());
    assert_eq!(s.phase(), Phase::Receiving);
    assert!(s.wants_message());
    assert!(!s.start());
    assert_eq!(s.phase(), Phase::Receiving);
}

#[test]
fn deliveries_are_numbered_in_order() {
    let mut s = Subscriber::new(3, true);
    s.start();
    let a = s.deliver(10).unwrap();
    let b = s.deliver(20).unwrap();
    assert_eq!(a.id(), 0);
    assert_eq!(b.id(), 1);
    assert!(s.holds(0));
    assert!(s.holds(1));
    assert!(!s.holds(2));
    assert_eq!(s.outstanding(), 2);
}

#[test]
fn limit_bounds_what_is_outstanding() {
    let mut s = Subscriber::new(2, true);
    s.start();
    let a = s.deliver(10).unwrap();
    assert!(s.wants_message());
    let _b = s.deliver(10).unwrap();
    assert!(!s.wants_message());
    assert!(s.deliver(10).is_none());
    assert_eq!(s.outstanding(), 2);
    assert!(s.ack(a).is_some());
    assert!(s.wants_message());
    let c = s.deliver(10).unwrap();
    assert_eq!(c.id(), 2);
    assert_eq!(s.outstanding(), 2);
}

#[test]
fn limit_of_zero_never_pulls() {
    let mut s = Subscriber::new(0, true);
    assert!(s.start());
    assert!(!s.wants_message());
    assert!(s.deliver(10).is_none());
}

#[test]
fn ack_gives_the_settlement_to_forward() {
    let mut s = Subscriber::new(3, true);
    s.start();
    let a = s.deliver(10).unwrap();
    let b = s.deliver(10).unwrap();
    assert_eq!(s.ack(b), Some(Settlement { id: 1, disposition: Disposition::Ack }));
    assert_eq!(s.nack(a), Some(Settlement { id: 0, disposition: Disposition::Nack }));
    assert_eq!(s.outstanding(), 0);
    assert_eq!(s.phase(), Phase::Receiving);
}

#[test]
fn handle_lapses_with_the_deadline() {
    let mut s = Subscriber::new(3, true);
    s.start();
    let a = s.deliver(10).unwrap();
    let b = s.deliver(20).unwrap();
    s.expire(9);
    assert_eq!(s.outstanding(), 2);
    s.expire(10);
    assert_eq!(s.outstanding(), 1);
    assert!(!s.holds(0));
    assert!(s.holds(1));
    // settling late does nothing and forwards nothing
    assert_eq!(s.ack(a), None);
    assert_eq!(s.outstanding(), 1);
    assert_eq!(s.ack(b), Some(Settlement { id: 1, disposition: Disposition::Ack }));
}

#[test]
fn redelivery_is_a_new_delivery() {
    let mut s = Subscriber::new(1, true);
    s.start();
    let first = s.deliver(10).unwrap();
    assert!(!s.wants_message());
    s.expire(10);
    assert!(s.wants_message());
    let again = s.deliver(25).unwrap();
    assert_ne!(first.id(), again.id());
    assert_eq!(s.nack(first), None);
    assert_eq!(s.ack(again), Some(Settlement { id: 1, disposition: Disposition::Ack }));
}

#[test]
fn cancel_while_parked_stops_at_once() {
    let mut s = Subscriber::new(3, true);
    s.start();
    assert!(s.wants_message());
    s.cancel();
    assert_eq!(s.phase(), Phase::Stopped);
    assert!(s.is_stopped());
    assert!(!s.wants_message());
    assert_eq!(s.outcome(), Some(Outcome::Cancelled));
    assert_eq!(s.result(), Some(Ok(())));
}

#[test]
fn cancel_before_start_stops() {
    let mut s = Subscriber::new(3, true);
    s.cancel();
    assert!(s.is_stopped());
    assert_eq!(s.result(), Some(Ok(())));
    assert!(!s.start());
    assert!(s.is_stopped());
}

#[test]
fn cancel_waits_for_handlers() {
    let mut s = Subscriber::new(3, true);
    s.start();
    let a = s.deliver(10).unwrap();
    let b = s.deliver(10).unwrap();
    s.cancel();
    assert_eq!(s.phase(), Phase::Cancelled);
    assert!(!s.wants_message());
    assert!(s.deliver(10).is_none());
    assert_eq!(s.result(), None);
    assert_eq!(s.ack(a), Some(Settlement { id: 0, disposition: Disposition::Ack }));
    assert_eq!(s.phase(), Phase::Cancelled);
    assert_eq!(s.nack(b), Some(Settlement { id: 1, disposition: Disposition::Nack }));
    assert_eq!(s.phase(), Phase::Stopped);
    assert_eq!(s.result(), Some(Ok(())));
}

#[test]
fn cancel_ends_by_the_deadline_at_the_latest() {
    let mut s = Subscriber::new(3, true);
    s.start();
    let _a = s.deliver(10).unwrap();
    let _b = s.deliver(30).unwrap();
    s.cancel();
    s.expire(29);
    assert_eq!(s.phase(), Phase::Cancelled);
    assert_eq!(s.outstanding(), 1);
    s.expire(30);
    assert!(s.is_stopped());
    assert_eq!(s.outcome(), Some(Outcome::Cancelled));
}

#[test]
fn cancel_without_waiting_abandons_handlers() {
    let mut s = Subscriber::new(3, false);
    s.start();
    let a = s.deliver(10).unwrap();
    s.cancel();
    assert!(s.is_stopped());
    assert_eq!(s.outstanding(), 0);
    assert_eq!(s.ack(a), None);
    assert_eq!(s.result(), Some(Ok(())));
}

#[test]
fn cancel_twice_is_cancel() {
    let mut s = Subscriber::new(3, true);
    s.start();
    let _a = s.deliver(10).unwrap();
    s.cancel();
    s.cancel();
    assert_eq!(s.phase(), Phase::Cancelled);
    assert_eq!(s.outstanding(), 1);
}

#[test]
fn failure_ends_with_the_error() {
    let mut s = Subscriber::new(3, true);
    s.start();
    s.fail(down());
    assert!(s.is_stopped());
    assert_eq!(s.outcome(), Some(Outcome::Failed(down())));
    assert_eq!(s.result(), Some(Err(down())));
}

#[test]
fn failure_waits_for_handlers() {
    let mut s = Subscriber::new(3, true);
    s.start();
    let a = s.deliver(10).unwrap();
    s.fail(down());
    assert_eq!(s.phase(), Phase::Failed);
    assert!(!s.wants_message());
    assert_eq!(s.result(), None);
    // a cancellation now does not turn the failure into a normal end
    s.cancel();
    assert_eq!(s.phase(), Phase::Failed);
    assert!(s.ack(a).is_some());
    assert!(s.is_stopped());
    assert_eq!(s.result(), Some(Err(down())));
}

#[test]
fn failure_after_cancel_is_dropped() {
    let mut s = Subscriber::new(3, true);
    s.start();
    let a = s.deliver(10).unwrap();
    s.cancel();
    s.fail(down());
    assert_eq!(s.phase(), Phase::Cancelled);
    assert!(s.ack(a).is_some());
    assert_eq!(s.result(), Some(Ok(())));
}

#[test]
fn failure_before_start_is_dropped() {
    let mut s = Subscriber::new(3, true);
    s.fail(down());
    assert_eq!(s.phase(), Phase::Idle);
    assert!(s.start());
}

#[test]
fn stopped_loop_stays_as_it_is() {
    let mut s = Subscriber::new(3, true);
    s.start();
    s.cancel();
    assert!(!s.start());
    assert!(s.deliver(10).is_none());
    s.fail(down());
    s.expire(100);
    s.cancel();
    assert!(s.is_stopped());
    assert_eq!(s.outstanding(), 0);
    assert_eq!(s.result(), Some(Ok(())));
}

#[test]
fn observe_follows_the_token() {
    let mut s = Subscriber::new(3, true);
    let mut token = CancellationToken::new();
    let mut timer = token.share();
    s.start();
    assert!(!s.observe(&mut token));
    assert_eq!(s.phase(), Phase::Receiving);
    timer.cancel();
    assert!(s.observe(&mut token));
    assert!(s.is_stopped());
    assert_eq!(s.result(), Some(Ok(())));
    assert!(s.observe(&mut token));
}
