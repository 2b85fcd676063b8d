//! The edit queue: a bounded channel from the control side to the renderer.
//!
//! The channel is `crossbeam_channel`'s. Other threads fill it at any moment,
//! so nothing is claimed of what it holds: the renderer's guarantees cover
//! every sequence of edits that may come out of it.

use crate::instruction::Instruction;
use crossbeam_channel::{Receiver, Sender};
use vstd::prelude::*;

verus! {

/// `crossbeam_channel::Sender`, the producing end of a channel.
#[verifier::external_type_specification]
#[verifier::external_body]
#[verifier::reject_recursive_types(T)]
pub struct ExSender<T>(Sender<T>);

/// `crossbeam_channel::Receiver`, the consuming end of a channel.
#[verifier::external_type_specification]
#[verifier::external_body]
#[verifier::reject_recursive_types(T)]
pub struct ExReceiver<T>(Receiver<T>);

/// The number of edits that may wait in the queue at one time.
pub const EDIT_QUEUE_CAPACITY: usize = 1024;

/// `crossbeam_channel::bounded`: a new channel that holds at most `capacity`
/// messages. Nothing is claimed of the two ends. The call panics where the
/// capacity is too large to set the channel up; capacities up to
/// `EDIT_QUEUE_CAPACITY` are far below that.
#[verifier::external_body]
fn bounded_channel<T>(capacity: usize) -> (ends: (Sender<T>, Receiver<T>))
    requires
        capacity <= EDIT_QUEUE_CAPACITY,
{
    crossbeam_channel::bounded(capacity)
}

/// `Receiver::len`: the number of messages in the channel at the moment of the
/// call. Senders run concurrently, so nothing is claimed of the number.
#[verifier::external_body]
pub(crate) fn waiting<T>(receiver: &Receiver<T>) -> (count: usize) {
    receiver.len()
}

/// `Receiver::try_recv`: takes the next message without blocking, or `None`
/// where the channel is empty or disconnected. Nothing is claimed of the
/// message.
#[verifier::external_body]
pub(crate) fn take_next<T>(receiver: &Receiver<T>) -> (message: Option<T>) {
    match receiver.try_recv() {
        Ok(message) => Some(message),
        Err(_) => None,
    }
}

/// A new, empty edit queue: the producing end for the control side, the
/// consuming end for a renderer.
pub fn edit_queue<G>() -> (ends: (Sender<Instruction<G>>, Receiver<Instruction<G>>)) {
    bounded_channel(EDIT_QUEUE_CAPACITY)
}

} // verus!
