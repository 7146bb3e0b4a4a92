//! Cooperative cancellation.

use tokio_util::sync::CancellationToken as Signal;
use vstd::prelude::*;

verus! {

/// The token of `tokio_util`, carried as it is: nothing is known of what
/// it holds.
#[verifier::external_type_specification]
#[verifier::external_body]
pub struct ExSignal(Signal);

/// Makes a fresh signal with `CancellationToken::new`. Nothing is claimed
/// about it.
#[verifier::external_body]
fn signal_new() -> (signal: Signal) {
    Signal::new()
}

/// Makes another handle to the same signal with `CancellationToken::clone`.
/// Nothing is claimed about it.
#[verifier::external_body]
fn signal_share(signal: &Signal) -> (shared: Signal) {
    signal.clone()
}

/// Fires the signal with `CancellationToken::cancel`. The call returns
/// nothing, and nothing is claimed about the signal.
#[verifier::external_body]
fn signal_fire(signal: &Signal) {
    signal.cancel()
}

/// Asks `CancellationToken::is_cancelled` whether the signal has fired.
/// Another holder may fire it at any time, so nothing is claimed about the
/// answer.
#[verifier::external_body]
fn signal_fired(signal: &Signal) -> (fired: bool) {
    signal.is_cancelled()
}

/// A stop token with two states, active and cancelled, that only ever moves
/// from the first to the second.
///
/// Every token made by [`share`](CancellationToken::share) holds the same
/// underlying signal as the token it was made from. What a holder knows of
/// the signal is its own: it learns that the signal fired by cancelling it or
/// by looking with [`poll`](CancellationToken::poll), and never unlearns it.
pub struct CancellationToken {
    signal: Signal,
    seen: bool,
}

impl CancellationToken {
    /// Whether this holder knows the token to be cancelled.
    pub closed spec fn cancelled(&self) -> bool {
        self.seen
    }

    /// The signal that this holder carries.
    pub closed spec fn carried(&self) -> Signal {
        self.signal
    }

    /// An active token.
    pub fn new() -> (token: CancellationToken)
        ensures
            !token.cancelled(),
    {
        CancellationToken { signal: signal_new(), seen: false }
    }

    /// Another holder's token on the same signal. It starts with what this
    /// holder knows.
    pub fn share(&self) -> (token: CancellationToken)
        ensures
            token.cancelled() == self.cancelled(),
    {
        CancellationToken { signal: signal_share(&self.signal), seen: self.seen }
    }

    /// Cancels the token. Cancelling twice is the same as cancelling once.
    pub fn cancel(&mut self)
        ensures
            final(self).cancelled(),
    {
        signal_fire(&self.signal);
        self.seen = true;
    }

    /// Takes note of what a look at the signal showed and says whether the
    /// token is cancelled: it is if it was, or if the signal has fired.
    pub fn note(&mut self, fired: bool) -> (cancelled: bool)
        ensures
            cancelled == (old(self).cancelled() || fired),
            final(self).cancelled() == cancelled,
    {
        if fired {
            self.seen = true;
        }
        self.seen
    }

    /// Looks at the signal and says whether the token is cancelled. Once the
    /// answer was `true` it stays `true`.
    pub fn poll(&mut self) -> (cancelled: bool)
        ensures
            cancelled == final(self).cancelled(),
            old(self).cancelled() ==> cancelled,
    {
        let fired = signal_fired(&self.signal);
        self.note(fired)
    }

    /// What this holder knew when it last looked, without looking again.
    pub fn is_cancelled(&self) -> (cancelled: bool)
        ensures
            cancelled == self.cancelled(),
    {
        self.seen
    }

    /// The signal that this holder carries, for a driver that has to wait
    /// on it.
    pub fn signal(&self) -> (signal: &Signal)
        ensures
            *signal == self.carried(),
    {
        &self.signal
    }
}

} // verus!
