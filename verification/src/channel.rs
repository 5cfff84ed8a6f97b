//! The queue between a session and the task that writes to its transport:
//! what the library relies on of `tokio::sync::mpsc`.
use bytes::Bytes;
use tokio::sync::mpsc::{unbounded_channel, UnboundedReceiver, UnboundedSender};
use vstd::prelude::*;

use crate::buffer::bytes_view;

verus! {

/// `tokio::sync::mpsc::UnboundedSender`, the end of a channel that takes
/// messages.
#[verifier::external_type_specification]
#[verifier::external_body]
#[verifier::reject_recursive_types(T)]
pub struct ExUnboundedSender<T>(tokio::sync::mpsc::UnboundedSender<T>);

/// `tokio::sync::mpsc::UnboundedReceiver`, the end of a channel that hands
/// messages out.
#[verifier::external_type_specification]
#[verifier::external_body]
#[verifier::reject_recursive_types(T)]
pub struct ExUnboundedReceiver<T>(tokio::sync::mpsc::UnboundedReceiver<T>);

/// The messages that a channel has taken from this sender since it was made,
/// in the order in which the receiver gets them. A message still counts once
/// the receiver has it.
pub uninterp spec fn queued(tx: UnboundedSender<Bytes>) -> Seq<Seq<u8>>;

/// The messages that were handed to this sender since it was made, in order,
/// whether the channel took them or not.
pub uninterp spec fn offered(tx: UnboundedSender<Bytes>) -> Seq<Seq<u8>>;

/// `tokio::sync::mpsc::unbounded_channel`: both ends of a new channel, which
/// has been handed nothing yet.
#[verifier::external_body]
pub(crate) fn outgoing_channel() -> (ends: (UnboundedSender<Bytes>, UnboundedReceiver<Bytes>))
    ensures
        queued(ends.0) == Seq::<Seq<u8>>::empty(),
        offered(ends.0) == Seq::<Seq<u8>>::empty(),
{
    unbounded_channel()
}

/// `UnboundedSender::send`: the channel takes the message behind all earlier
/// ones, or refuses it because its receiver is closed. Which of the two
/// happens is up to the other end, and nothing is said of it.
#[verifier::external_body]
pub(crate) fn send(tx: &mut UnboundedSender<Bytes>, message: Bytes) -> (sent: bool)
    ensures
        queued(*final(tx)) == if sent {
            queued(*old(tx)).push(bytes_view(message))
        } else {
            queued(*old(tx))
        },
        offered(*final(tx)) == offered(*old(tx)).push(bytes_view(message)),
{
    tx.send(message).is_ok()
}

} // verus!
