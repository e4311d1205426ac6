//! Telling waiting tasks that a context has its socket: watch channels of `tokio`.

use tokio::sync::watch::{Receiver, Sender};
use vstd::prelude::*;

verus! {

/// The end of a watch channel that announces.
#[verifier::external_type_specification]
#[verifier::external_body]
#[verifier::reject_recursive_types(T)]
pub struct ExSender<T>(tokio::sync::watch::Sender<T>);

/// The end of a watch channel that waits for an announcement.
#[verifier::external_type_specification]
#[verifier::external_body]
#[verifier::reject_recursive_types(T)]
pub struct ExReceiver<T>(tokio::sync::watch::Receiver<T>);

/// Whether `receiver` is an end of the channel that `sender` announces on.
pub uninterp spec fn listens(
    receiver: tokio::sync::watch::Receiver<()>,
    sender: tokio::sync::watch::Sender<()>,
) -> bool;

/// Calls `tokio::sync::watch::channel`: the two ends of one new channel.
#[verifier::external_body]
pub(crate) fn new_channel() -> (r: (Sender<()>, Receiver<()>))
    ensures
        listens(r.1, r.0),
{
    tokio::sync::watch::channel(())
}

/// Calls `Sender::subscribe`: another receiving end of the sender's channel.
#[verifier::external_body]
pub(crate) fn subscribe(sender: &Sender<()>) -> (r: Receiver<()>)
    ensures
        listens(r, *sender),
{
    sender.subscribe()
}

} // verus!
