//! Trusted surface over tokio's single-use completion channel.
//!
//! Each pending request owns one `tokio::sync::oneshot` channel: the
//! correlation table keeps the sender, the dispatching caller keeps the
//! receiver. The channel delivers at most one value, to its own receiver
//! only; dropping the sender (cancellation, worker exit) wakes the receiver
//! with a closed-channel error. Those delivery and wake-up facts come from
//! tokio and are not restated as contracts here: the verified code relies
//! only on what the wrappers below state.

use vstd::prelude::*;
use crate::codec::EngineResponse;

verus! {

/// `tokio::sync::oneshot::Sender`, opaque to the verifier.
#[verifier::external_type_specification]
#[verifier::external_body]
#[verifier::reject_recursive_types(T)]
pub struct ExOneshotSender<T>(tokio::sync::oneshot::Sender<T>);

/// `tokio::sync::oneshot::Receiver`, opaque to the verifier.
#[verifier::external_type_specification]
#[verifier::external_body]
#[verifier::reject_recursive_types(T)]
pub struct ExOneshotReceiver<T>(tokio::sync::oneshot::Receiver<T>);

/// `tokio::sync::oneshot::error::RecvError`, the receiver's closed-channel
/// error, opaque to the verifier.
#[verifier::external_type_specification]
#[verifier::external_body]
pub struct ExRecvError(tokio::sync::oneshot::error::RecvError);

/// Relies on tokio::sync::oneshot::channel: returns a connected
/// sender/receiver pair for one response.
#[verifier::external_body]
pub(crate) fn response_channel() -> (tokio::sync::oneshot::Sender<EngineResponse>, tokio::sync::oneshot::Receiver<
    EngineResponse,
>) {
    tokio::sync::oneshot::channel()
}

/// Relies on tokio::sync::oneshot::Sender::send: delivers the value to the
/// paired receiver, or hands it back unchanged when the receiver is gone.
#[verifier::external_body]
pub(crate) fn send_response(
    tx: tokio::sync::oneshot::Sender<EngineResponse>,
    response: EngineResponse,
) -> (r: Result<(), EngineResponse>)
    ensures
        r matches Err(e) ==> e == response,
{
    tx.send(response)
}

} // verus!
