//! What is taken from `tokio`: the receiving end of a signal that is given
//! once.

use tokio::sync::oneshot::error::RecvError;
use tokio::sync::oneshot::Receiver;
use vstd::prelude::*;

verus! {

/// `tokio::sync::oneshot::Receiver`. Nothing is known of what it holds.
#[verifier::external_type_specification]
#[verifier::external_body]
#[verifier::reject_recursive_types(T)]
pub struct ExReceiver<T>(Receiver<T>);

/// `tokio::sync::oneshot::error::RecvError`, which a receiver gives where it
/// is waited for. It is named here only because the receiver's type leads
/// to it; no value of it is ever made or read.
#[verifier::external_type_specification]
#[verifier::external_body]
pub struct ExRecvError(RecvError);

/// `Receiver::try_recv`: whether the signal has arrived, without waiting for
/// it.
///
/// Nothing is claimed of the result: it depends on what the sender has done
/// by now.
#[verifier::external_body]
pub(crate) fn try_recv(receiver: &mut Receiver<()>) -> (arrived: bool) {
    receiver.try_recv().is_ok()
}

} // verus!
