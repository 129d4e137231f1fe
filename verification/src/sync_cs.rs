//! A service and clients that block: the interfaces of both, and of what a service
//! keeps of each client.

use std::sync::mpsc;
use vstd::prelude::*;

verus! {

/// The sending end of a channel between threads.
#[verifier::external_type_specification]
#[verifier::external_body]
#[verifier::reject_recursive_types(T)]
pub struct ExStdSender<T>(std::sync::mpsc::Sender<T>);

/// The receiving end of a channel between threads.
#[verifier::external_type_specification]
#[verifier::external_body]
#[verifier::reject_recursive_types(T)]
pub struct ExStdReceiver<T>(std::sync::mpsc::Receiver<T>);

pub trait Client<Req, Res>: Sized {
    type Error;

    fn new(tx: mpsc::Sender<Req>, rx: mpsc::Receiver<Res>) -> Self;

    fn send(&mut self, req: Req) -> Result<(), Self::Error>;

    fn recv(&mut self) -> Result<Res, Self::Error>;
}

/// What a service keeps of a client.
pub trait ClientHandler<Req, Res> {
    type Error;

    /// How a response is sent: `self` may answer with `result` and be `next` afterwards.
    open spec fn sent(&self, res: Res, next: &Self, result: Result<(), Self::Error>) -> bool {
        true
    }

    /// How a request is received: `self` may answer with `result` and be `next` afterwards.
    open spec fn received(&self, next: &Self, result: Result<Option<Req>, Self::Error>) -> bool {
        true
    }

    fn send(&mut self, res: Res) -> (result: Result<(), Self::Error>)
        ensures
            old(self).sent(res, final(self), result),
    ;

    /// The next request of the client, or nothing when there will be none.
    fn recv(&mut self) -> (result: Result<Option<Req>, Self::Error>)
        ensures
            old(self).received(final(self), result),
    ;
}

pub trait Service<Req, Res>: Sized {
    type Client: Client<Req, Res>;

    type ClientHandler: ClientHandler<Req, Res>;

    type Error: From<<Self::ClientHandler as ClientHandler<Req, Res>>::Error>;

    fn client(&mut self) -> Result<Self::Client, Self::Error>;

    fn process_next_request(&mut self) -> Result<(), Self::Error>;
}

} // verus!
