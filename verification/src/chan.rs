//! The channel primitives the transaction pool service is built on,
//! declared over the outside channel crate. What a channel will deliver
//! depends on other threads, so the contracts state only what holds of
//! every outcome; the service's logic is verified for every delivery.

use vstd::prelude::*;

verus! {

#[verifier::external_type_specification]
#[verifier::external_body]
#[verifier::reject_recursive_types(T)]
pub struct ExSender<T>(crossbeam_channel::Sender<T>);

#[verifier::external_type_specification]
#[verifier::external_body]
#[verifier::reject_recursive_types(T)]
pub struct ExReceiver<T>(crossbeam_channel::Receiver<T>);

/// Why a channel operation did not deliver.
#[derive(Copy, Clone, Debug, PartialEq, Eq, Structural)]
pub enum ChannelError {
    /// The channel is at capacity; sending would have blocked.
    Full,
    /// Nothing was waiting; receiving would have blocked.
    Empty,
    /// The other side is gone.
    Closed,
}

/// Relies on crossbeam_channel::bounded: a channel holding at most `cap`
/// messages; its documentation panics only on a capacity too large to
/// allocate, which the bound excludes.
#[verifier::external_body]
pub fn channel_bounded<T>(cap: usize) -> (r: (
    crossbeam_channel::Sender<T>,
    crossbeam_channel::Receiver<T>,
))
    requires
        1 <= cap <= 0x1_0000,
{
    crossbeam_channel::bounded(cap)
}

/// Relies on Sender::try_send: never blocks; the message is delivered, or
/// the channel is full, or every receiver is gone.
#[verifier::external_body]
pub fn try_send<T>(s: &crossbeam_channel::Sender<T>, t: T) -> (r: Result<(), ChannelError>)
    ensures
        r matches Err(e) ==> e is Full || e is Closed,
{
    match s.try_send(t) {
        Ok(()) => Ok(()),
        Err(crossbeam_channel::TrySendError::Full(_)) => Err(ChannelError::Full),
        Err(crossbeam_channel::TrySendError::Disconnected(_)) => Err(ChannelError::Closed),
    }
}

/// Relies on Receiver::recv: blocks until a message arrives, or fails once
/// the channel is empty with every sender gone.
#[verifier::external_body]
pub fn recv<T>(r: &crossbeam_channel::Receiver<T>) -> (res: Result<T, ChannelError>)
    ensures
        res matches Err(e) ==> e is Closed,
{
    match r.recv() {
        Ok(t) => Ok(t),
        Err(crossbeam_channel::RecvError) => Err(ChannelError::Closed),
    }
}

/// Relies on Receiver::try_recv: never blocks; a message is delivered, or
/// nothing is waiting, or the channel is empty with every sender gone.
#[verifier::external_body]
pub fn try_recv<T>(r: &crossbeam_channel::Receiver<T>) -> (res: Result<T, ChannelError>)
    ensures
        res matches Err(e) ==> e is Empty || e is Closed,
{
    match r.try_recv() {
        Ok(t) => Ok(t),
        Err(crossbeam_channel::TryRecvError::Empty) => Err(ChannelError::Empty),
        Err(crossbeam_channel::TryRecvError::Disconnected) => Err(ChannelError::Closed),
    }
}

/// Relies on Sender::clone: both handles feed the same channel.
#[verifier::external_body]
pub fn clone_sender<T>(s: &crossbeam_channel::Sender<T>) -> (r: crossbeam_channel::Sender<T>) {
    s.clone()
}

} // verus!
