use async_channel::{Sender, TrySendError};
use vstd::prelude::*;

verus! {

#[verifier::external_type_specification]
#[verifier::external_body]
#[verifier::reject_recursive_types(T)]
pub struct ExSender<T>(Sender<T>);

/// Relies on `async_channel::Sender::try_send`: it never waits, and when the
/// channel is full or closed the message comes back inside the error.
#[verifier::external_body]
pub(crate) fn offer<T>(sender: &Sender<T>, msg: T) -> (r: Result<(), T>)
    ensures
        r matches Err(m) ==> m == msg,
{
    match sender.try_send(msg) {
        Ok(()) => Ok(()),
        Err(TrySendError::Full(m)) => Err(m),
        Err(TrySendError::Closed(m)) => Err(m),
    }
}

} // verus!
