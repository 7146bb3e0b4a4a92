use ordered_pubsub::cancel::CancellationToken;

#[test]
fn new_token_is_active() {
    let mut token = CancellationToken::new();
    assert!(!token.is_cancelled());
    assert!(!token.poll());
}

#[test]
fn cancel_is_seen_by_every_holder() {
    let mut timer_side = CancellationToken::new();
    let mut loop_side = timer_side.share();
    assert!(!loop_side.poll());
    timer_side.cancel();
    assert!(timer_side.is_cancelled());
    // The other holder has not looked yet.
    assert!(!loop_side.is_cancelled());
    assert!(loop_side.poll());
    assert!(loop_side.is_cancelled());
}

#[test]
fn cancel_is_idempotent_and_one_way() {
    let mut token = CancellationToken::new();
    token.cancel();
    token.cancel();
    assert!(token.poll());
    assert!(token.poll());
    let mut late = token.share();
    assert!(late.is_cancelled());
    assert!(late.poll());
}

#[test]
fn signal_of_a_cancelled_token_has_fired() {
    let mut token = CancellationToken::new();
    assert!(!token.signal().is_cancelled());
    token.cancel();
    assert!(token.signal().is_cancelled());
}

#[test]
fn note_latches_what_was_seen() {
    let mut token = CancellationToken::new();
    assert!(!token.note(false));
    assert!(!token.is_cancelled());
    assert!(token.note(true));
    assert!(token.is_cancelled());
    // never unlearned
    assert!(token.note(false));
    assert!(token.is_cancelled());
}
