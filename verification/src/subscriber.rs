//! The receive loop: which messages are with handlers, when to pull, and
//! when and how the loop ends.
//!
//! A [`Subscriber`] does not pull, run handlers or send acknowledgements
//! itself. The driver pulls while [`Subscriber::wants_message`] holds,
//! reports each delivery with [`Subscriber::deliver`] and gives the handle it
//! gets to the handler; the handler settles the message with
//! [`Subscriber::ack`] or [`Subscriber::nack`], and the driver forwards the
//! settlement to the broker.

pub mod laws;
pub mod model;

use crate::cancel::CancellationToken;
use crate::error::Error;
use crate::subscriber::model::{
    alive, lemma_cancel_wf, lemma_deliver_wf, lemma_expire_wf, lemma_fail_wf, lemma_position,
    lemma_settle_wf, lemma_start_wf, Lease, OutcomeView, Phase, SubscriberView,
};
use vstd::prelude::*;

verus! {

/// How a receive loop ended. Cancellation is the normal end.
#[derive(Debug, PartialEq, Eq)]
pub enum Outcome {
    Cancelled,
    Failed(Error),
}

impl View for Outcome {
    type V = OutcomeView;

    open spec fn view(&self) -> OutcomeView {
        match self {
            Outcome::Cancelled => OutcomeView::Cancelled,
            Outcome::Failed(error) => OutcomeView::Failed(error@),
        }
    }
}

/// What a handler did with a message.
#[derive(Clone, Copy, Debug, PartialEq, Eq, Structural)]
pub enum Disposition {
    /// Consumed.
    Ack,
    /// Given back for redelivery.
    Nack,
}

/// The right to settle one delivered message, once.
///
/// A handle cannot be copied, and settling consumes it.
#[derive(Debug)]
pub struct AckHandle {
    id: u64,
}

impl View for AckHandle {
    type V = u64;

    closed spec fn view(&self) -> u64 {
        self.id
    }
}

impl AckHandle {
    /// The number of the delivery that this handle settles.
    pub fn id(&self) -> (id: u64)
        ensures
            id == self@,
    {
        self.id
    }
}

/// What the driver has to tell the broker after a handler settled a message.
#[derive(Clone, Copy, Debug, PartialEq, Eq, Structural)]
pub struct Settlement {
    pub id: u64,
    pub disposition: Disposition,
}

/// The state of one receive loop.
pub struct Subscriber {
    phase: Phase,
    limit: usize,
    wait: bool,
    next_id: u64,
    outstanding: Vec<Lease>,
    cause: Option<Error>,
}

impl View for Subscriber {
    type V = SubscriberView;

    closed spec fn view(&self) -> SubscriberView {
        SubscriberView {
            phase: self.phase,
            limit: self.limit as nat,
            wait: self.wait,
            next_id: self.next_id as nat,
            outstanding: self.outstanding@,
            cause: match self.cause {
                Some(error) => Some(error@),
                None => None,
            },
        }
    }
}

impl Subscriber {
    /// The invariant of the loop.
    pub closed spec fn wf(&self) -> bool {
        self@.wf()
    }

    /// The invariant of the model holds of every well-formed subscriber.
    pub proof fn lemma_wf_view(&self)
        requires
            self.wf(),
        ensures
            self@.wf(),
            self@.next_id <= u64::MAX,
            self@.limit <= usize::MAX,
    {
    }

    /// A loop that has not started. At most `max_outstanding` messages will
    /// be with handlers at once. A loop that stops waits for its handlers
    /// if `wait_for_handlers` is set, and abandons them otherwise.
    pub fn new(max_outstanding: usize, wait_for_handlers: bool) -> (s: Subscriber)
        ensures
            s.wf(),
            s@ == SubscriberView::fresh(max_outstanding as nat, wait_for_handlers),
    {
        Subscriber {
            phase: Phase::Idle,
            limit: max_outstanding,
            wait: wait_for_handlers,
            next_id: 0,
            outstanding: Vec::new(),
            cause: None,
        }
    }

    /// The phase of the loop.
    pub fn phase(&self) -> (phase: Phase)
        ensures
            phase == self@.phase,
    {
        self.phase
    }

    /// How many messages are with handlers.
    pub fn outstanding(&self) -> (n: usize)
        ensures
            n == self@.outstanding.len(),
    {
        self.outstanding.len()
    }

    /// Whether the loop has stopped.
    pub fn is_stopped(&self) -> (stopped: bool)
        ensures
            stopped == (self@.phase is Stopped),
    {
        match self.phase {
            Phase::Stopped => true,
            _ => false,
        }
    }

    /// Enters the loop. Only an idle loop can be entered; the answer says
    /// whether it was.
    pub fn start(&mut self) -> (entered: bool)
        requires
            old(self).wf(),
        ensures
            final(self).wf(),
            entered == (old(self)@.phase is Idle),
            final(self)@ == old(self)@.start(),
    {
        proof {
            lemma_start_wf(self@);
        }
        match self.phase {
            Phase::Idle => {
                self.phase = Phase::Receiving;
                true
            },
            _ => false,
        }
    }

    /// Whether the driver should pull another message: the loop is
    /// receiving and fewer messages than the limit are with handlers.
    pub fn wants_message(&self) -> (wants: bool)
        ensures
            wants == self@.wants(),
    {
        match self.phase {
            Phase::Receiving => self.outstanding.len() < self.limit,
            _ => false,
        }
    }

    /// Takes a delivered message that the broker takes back at `deadline`
    /// and returns the handle for its handler.
    ///
    /// `None` means that the message is not taken and must not be handled:
    /// the loop is not receiving, or the limit is reached, or the delivery
    /// numbers are used up. The broker delivers it again later.
    pub fn deliver(&mut self, deadline: u64) -> (handle: Option<AckHandle>)
        requires
            old(self).wf(),
        ensures
            final(self).wf(),
            final(self)@ == old(self)@.deliver(deadline),
            match handle {
                Some(h) => old(self)@.accepts() && h@ == old(self)@.next_id,
                None => !old(self)@.accepts(),
            },
    {
        proof {
            lemma_deliver_wf(self@, deadline);
        }
        if self.wants_message() && self.next_id < u64::MAX {
            let id = self.next_id;
            self.outstanding.push(Lease { id, deadline });
            self.next_id = id + 1;
            Some(AckHandle { id })
        } else {
            None
        }
    }

    /// Whether delivery `id` is with a handler.
    pub fn holds(&self, id: u64) -> (held: bool)
        requires
            self.wf(),
        ensures
            held == self@.holds(id),
    {
        self.find(id) < self.outstanding.len()
    }

    /// The position of delivery `id` among the outstanding ones, or their
    /// number if it is not among them.
    fn find(&self, id: u64) -> (i: usize)
        requires
            self.wf(),
        ensures
            i <= self@.outstanding.len(),
            i < self@.outstanding.len() ==> self@.holds(id) && self@.position(id) == i,
            i == self@.outstanding.len() ==> !self@.holds(id),
    {
        let mut i: usize = 0;
        while i < self.outstanding.len()
            invariant
                self.wf(),
                i <= self.outstanding@.len(),
                forall|k: int| 0 <= k < i ==> (#[trigger] self.outstanding@[k]).id != id,
            decreases self.outstanding@.len() - i,
        {
            if self.outstanding[i].id == id {
                proof {
                    lemma_position(self@, id, i as int);
                }
                return i;
            }
            i += 1;
        }
        i
    }

    /// A draining loop with no handler left stops.
    fn rest(&mut self)
        ensures
            final(self)@ == old(self)@.rest(),
    {
        let draining = match self.phase {
            Phase::Cancelled => true,
            Phase::Failed => true,
            _ => false,
        };
        if draining && self.outstanding.len() == 0 {
            self.phase = Phase::Stopped;
        }
    }

    /// Settles delivery `id` if it is outstanding.
    fn settle(&mut self, id: u64) -> (found: bool)
        requires
            old(self).wf(),
        ensures
            final(self).wf(),
            found == old(self)@.holds(id),
            final(self)@ == old(self)@.settle(id),
    {
        proof {
            lemma_settle_wf(self@, id);
        }
        let i = self.find(id);
        if i < self.outstanding.len() {
            self.outstanding.remove(i);
            self.rest();
            true
        } else {
            false
        }
    }

    /// Acknowledges a message: it is consumed.
    ///
    /// The answer is the settlement to forward to the broker. `None` means
    /// that the handle has lapsed, because the deadline passed or the loop
    /// abandoned its handlers; then nothing happens and nothing is to be
    /// forwarded.
    pub fn ack(&mut self, handle: AckHandle) -> (settlement: Option<Settlement>)
        requires
            old(self).wf(),
        ensures
            final(self).wf(),
            final(self)@ == old(self)@.settle(handle@),
            settlement == (if old(self)@.holds(handle@) {
                Some(Settlement { id: handle@, disposition: Disposition::Ack })
            } else {
                None
            }),
    {
        let id = handle.id;
        if self.settle(id) {
            Some(Settlement { id, disposition: Disposition::Ack })
        } else {
            None
        }
    }

    /// Gives a message back: the broker is to deliver it again.
    ///
    /// The answer is as for [`ack`](Subscriber::ack).
    pub fn nack(&mut self, handle: AckHandle) -> (settlement: Option<Settlement>)
        requires
            old(self).wf(),
        ensures
            final(self).wf(),
            final(self)@ == old(self)@.settle(handle@),
            settlement == (if old(self)@.holds(handle@) {
                Some(Settlement { id: handle@, disposition: Disposition::Nack })
            } else {
                None
            }),
    {
        let id = handle.id;
        if self.settle(id) {
            Some(Settlement { id, disposition: Disposition::Nack })
        } else {
            None
        }
    }

    /// Leaves `Receiving` for `phase`, or stops at once.
    fn halt(&mut self, phase: Phase)
        ensures
            final(self)@ == old(self)@.halt(phase),
    {
        if self.wait && self.outstanding.len() > 0 {
            self.phase = phase;
        } else {
            self.phase = Phase::Stopped;
            self.outstanding = Vec::new();
        }
    }

    /// The token fired: the loop pulls nothing more. An idle loop and a loop
    /// with no message at a handler stop at once; a loop that has been
    /// cancelled or has failed before stays as it is.
    pub fn cancel(&mut self)
        requires
            old(self).wf(),
        ensures
            final(self).wf(),
            final(self)@ == old(self)@.cancel(),
    {
        proof {
            lemma_cancel_wf(self@);
        }
        match self.phase {
            Phase::Idle => {
                self.phase = Phase::Stopped;
            },
            Phase::Receiving => {
                self.halt(Phase::Cancelled);
            },
            _ => {},
        }
    }

    /// Looks at the token and cancels the loop if it has fired. The answer
    /// says whether it has.
    pub fn observe(&mut self, token: &mut CancellationToken) -> (cancelled: bool)
        requires
            old(self).wf(),
        ensures
            final(self).wf(),
            cancelled == final(token).cancelled(),
            old(token).cancelled() ==> cancelled,
            final(self)@ == (if cancelled {
                old(self)@.cancel()
            } else {
                old(self)@
            }),
    {
        let cancelled = token.poll();
        if cancelled {
            self.cancel();
        }
        cancelled
    }

    /// The broker reported an error from which the loop cannot recover: a
    /// receiving loop pulls nothing more and ends with this error. In every
    /// other phase the error is dropped.
    pub fn fail(&mut self, error: Error)
        requires
            old(self).wf(),
        ensures
            final(self).wf(),
            final(self)@ == old(self)@.fail(error@),
    {
        proof {
            lemma_fail_wf(self@, error@);
        }
        match self.phase {
            Phase::Receiving => {
                self.cause = Some(error);
                self.halt(Phase::Failed);
            },
            _ => {},
        }
    }

    /// Time has reached `now`: every delivery whose deadline has come is
    /// forgotten without a settlement, since the broker has taken it back.
    pub fn expire(&mut self, now: u64)
        requires
            old(self).wf(),
        ensures
            final(self).wf(),
            final(self)@ == old(self)@.expire(now),
    {
        let ghost before = self@;
        proof {
            lemma_expire_wf(before, now);
        }
        let mut kept: Vec<Lease> = Vec::new();
        let mut i: usize = 0;
        while i < self.outstanding.len()
            invariant
                self@ == before,
                i <= self.outstanding@.len(),
                kept@ == alive(before.outstanding.take(i as int), now),
            decreases self.outstanding@.len() - i,
        {
            let lease = self.outstanding[i];
            proof {
                let next = before.outstanding.take(i as int + 1);
                assert(next.drop_last() =~= before.outstanding.take(i as int));
                assert(next.last() == lease);
            }
            if lease.deadline > now {
                kept.push(lease);
            }
            i += 1;
        }
        proof {
            assert(before.outstanding.take(i as int) =~= before.outstanding);
        }
        self.outstanding = kept;
        self.rest();
    }

    /// How the loop ended, once it has stopped.
    pub fn outcome(&self) -> (outcome: Option<Outcome>)
        ensures
            match outcome {
                Some(o) => self@.outcome() == Some(o@),
                None => self@.outcome() is None,
            },
    {
        match self.phase {
            Phase::Stopped => match &self.cause {
                Some(error) => Some(Outcome::Failed(error.duplicate())),
                None => Some(Outcome::Cancelled),
            },
            _ => None,
        }
    }

    /// What the receive call returns, once the loop has stopped: success
    /// after a cancellation, the error after a failure.
    pub fn result(&self) -> (result: Option<Result<(), Error>>)
        ensures
            match result {
                Some(Ok(_)) => self@.outcome() == Some(OutcomeView::Cancelled),
                Some(Err(error)) => self@.outcome() == Some(OutcomeView::Failed(error@)),
                None => self@.outcome() is None,
            },
    {
        match self.outcome() {
            Some(Outcome::Cancelled) => Some(Ok(())),
            Some(Outcome::Failed(error)) => Some(Err(error)),
            None => None,
        }
    }
}

} // verus!
