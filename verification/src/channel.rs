//! The channels of `futures` between a service and its clients.

use futures::channel::mpsc::{Receiver, SendError, Sender};
use vstd::prelude::*;

verus! {

/// The sending end of a channel.
#[verifier::external_type_specification]
#[verifier::external_body]
#[verifier::reject_recursive_types(T)]
pub struct ExSender<T>(futures::channel::mpsc::Sender<T>);

/// The receiving end of a channel.
#[verifier::external_type_specification]
#[verifier::external_body]
#[verifier::reject_recursive_types(T)]
pub struct ExReceiver<T>(futures::channel::mpsc::Receiver<T>);

/// Why a channel did not take a message.
#[verifier::external_type_specification]
#[verifier::external_body]
pub struct ExSendError(futures::channel::mpsc::SendError);

/// How many messages a channel between a service and a client holds, besides
/// one for each sender.
pub const CHANNEL_BUFFER: usize = 32;

/// `futures::channel::mpsc::channel` panics on a buffer of a quarter of the
/// address space or more, and on no other. Which channel the two ends belong to is not a
/// plain value, so nothing is claimed of them beyond that they are what one
/// call returned: neither that two calls make two channels, nor how messages come through.
pub assume_specification<T>[ futures::channel::mpsc::channel::<T> ](buffer: usize) -> (ends: (
    Sender<T>,
    Receiver<T>,
))
    requires
        buffer < usize::MAX / 4,
;

/// `tx` and `rx` are the two ends of one channel with the usual buffer: they came
/// out of one call that made it.
pub open spec fn linked<T>(tx: Sender<T>, rx: Receiver<T>) -> bool {
    call_ensures(futures::channel::mpsc::channel::<T>, (CHANNEL_BUFFER,), (tx, rx))
}

/// The `Debug` text of a `SendError`.
pub uninterp spec fn send_error_text(e: SendError) -> Seq<char>;

/// Formats a `SendError` with its derived `Debug`. The error has one field, `kind`,
/// which is one of two variants without fields, so there are two texts.
#[verifier::external_body]
pub(crate) fn describe(e: &SendError) -> (text: String)
    ensures
        text@ == send_error_text(*e),
        text@ == "SendError { kind: Full }"@ || text@ == "SendError { kind: Disconnected }"@,
{
    format!("{e:?}")
}

} // verus!
