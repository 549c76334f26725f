//! The channel types of `std::sync::mpsc` that jobs and workers carry, and
//! [`Outbox`], a sending end that remembers what it delivered.

use vstd::prelude::*;

use std::sync::mpsc::{Receiver, SendError, Sender};

verus! {

#[verifier::external_type_specification]
#[verifier::external_body]
#[verifier::reject_recursive_types(T)]
pub struct ExSender<T>(std::sync::mpsc::Sender<T>);

#[verifier::external_type_specification]
#[verifier::external_body]
#[verifier::reject_recursive_types(T)]
pub struct ExReceiver<T>(std::sync::mpsc::Receiver<T>);

#[verifier::external_type_specification]
#[verifier::external_body]
#[verifier::reject_recursive_types(T)]
pub struct ExSendError<T>(std::sync::mpsc::SendError<T>);

/// Calls `std::sync::mpsc::channel`, which creates a fresh unbounded channel
/// and returns its two ends. Nothing is claimed of the result: which sender
/// belongs to which receiver is not a value that a contract can name.
#[verifier::external_body]
pub(crate) fn new_channel<T>() -> (Sender<T>, Receiver<T>) {
    std::sync::mpsc::channel::<T>()
}

/// Calls `Sender::send`. Whether the value is delivered depends on whether
/// the receiving end is still alive, which is state outside this call, so
/// nothing is claimed of the result.
#[verifier::external_body]
pub(crate) fn send_value<T>(sender: &Sender<T>, value: T) -> Result<(), SendError<T>> {
    sender.send(value)
}

/// The sending end of a channel together with the sequence of the values
/// that were sent on it successfully, in order. The sequence is ghost: it
/// exists for contracts only and costs nothing at run time. `send` is the one
/// way to add to it.
#[verifier::reject_recursive_types(T)]
pub struct Outbox<T> {
    sender: Sender<T>,
    delivered: Ghost<Seq<T>>,
}

impl<T> Outbox<T> {
    /// The channel end that values are sent on.
    pub closed spec fn endpoint(&self) -> Sender<T> {
        self.sender
    }

    /// The values sent successfully, oldest first.
    pub closed spec fn sent(&self) -> Seq<T> {
        self.delivered@
    }

    /// An outbox is determined by its channel end and what it sent.
    pub proof fn lemma_same_outbox(a: Self, b: Self)
        requires
            a.endpoint() == b.endpoint(),
            a.sent() == b.sent(),
        ensures
            a == b,
    {
    }

    /// An outbox on `sender` that has sent nothing yet.
    pub fn new(sender: Sender<T>) -> (o: Self)
        ensures
            o.endpoint() == sender,
            o.sent() == Seq::<T>::empty(),
    {
        Outbox { sender, delivered: Ghost(Seq::empty()) }
    }

    /// Sends `value`. When it is delivered, it is added to the sent values;
    /// when the receiving end is gone, the value comes back in the error and
    /// the outbox is left as it is.
    pub fn send(&mut self, value: T) -> (r: Result<(), SendError<T>>)
        ensures
            final(self).endpoint() == old(self).endpoint(),
            r is Ok ==> final(self).sent() == old(self).sent().push(value),
            r is Err ==> *final(self) == *old(self),
    {
        let ghost v = value;
        let r = send_value(&self.sender, value);
        match r {
            Ok(()) => {
                self.delivered = Ghost(self.delivered@.push(v));
                Ok(())
            },
            Err(e) => Err(e),
        }
    }
}

} // verus!
