//! The unbounded channel between the workers and the aggregator.
//!
//! The channel is crossbeam's. Verus does not read it: each function here
//! makes one call into it, and its contract is taken on trust.

use vstd::prelude::*;
use crossbeam::channel::{Receiver, Sender};

verus! {

#[verifier::external_type_specification]
#[verifier::external_body]
#[verifier::reject_recursive_types(T)]
pub struct ExSender<T>(Sender<T>);

#[verifier::external_type_specification]
#[verifier::external_body]
#[verifier::reject_recursive_types(T)]
pub struct ExReceiver<T>(Receiver<T>);

/// Calls `crossbeam::channel::unbounded`, which makes a channel that holds
/// any number of messages, and hands back its two ends. Nothing is claimed of
/// them.
#[verifier::external_body]
pub(crate) fn open() -> (ends: (Sender<i32>, Receiver<i32>)) {
    crossbeam::channel::unbounded()
}

/// Calls `Sender::clone`, which makes one more sending handle of the same
/// channel. Nothing is claimed of it.
#[verifier::external_body]
pub(crate) fn another(sender: &Sender<i32>) -> (handle: Sender<i32>) {
    sender.clone()
}

/// Calls `Sender::send`. On a channel made by `open` the call does not wait.
/// It fails only where the receiving end is gone, and the error then holds
/// the message that was given: that is all the contract claims. Whether the
/// call succeeds is left open.
#[verifier::external_body]
pub(crate) fn send(sender: &Sender<i32>, value: i32) -> (reply: Result<(), i32>)
    ensures
        reply matches Err(back) ==> back == value,
{
    match sender.send(value) {
        Ok(()) => Ok(()),
        Err(refused) => Err(refused.0),
    }
}

/// Calls `Receiver::recv`, which waits until a message has arrived or the
/// channel is empty and every sending handle is gone; `None` stands for the
/// latter. What arrives depends on the other threads, so nothing is claimed
/// of it.
#[verifier::external_body]
pub(crate) fn receive(receiver: &Receiver<i32>) -> (arrival: Option<i32>) {
    match receiver.recv() {
        Ok(value) => Some(value),
        Err(_) => None,
    }
}

} // verus!
