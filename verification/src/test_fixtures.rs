//! A small protocol: two requests with an answer each, and one that is not
//! answered.

use crate::channel::describe;
use futures::channel::mpsc::SendError;
use vstd::prelude::*;

verus! {

pub enum Request {
    A,
    B,
    Shutdown,
}

#[derive(Debug, PartialEq, Eq, Structural)]
pub enum Response {
    A,
    B,
}

#[derive(Debug)]
pub struct Error(pub String);

impl View for Error {
    type V = Seq<char>;

    open spec fn view(&self) -> Seq<char> {
        self.0@
    }
}

impl Error {
    /// The text to show for the error.
    pub fn to_string(&self) -> (text: String)
        ensures
            text@ == self@,
    {
        self.0.clone()
    }
}

impl vstd::std_specs::convert::FromSpecImpl<SendError> for Error {
    open spec fn obeys_from_spec() -> bool {
        false
    }

    open spec fn from_spec(e: SendError) -> Self {
        arbitrary()
    }
}

impl From<SendError> for Error {
    fn from(e: SendError) -> (error: Self)
        ensures
            error@ == crate::channel::send_error_text(e),
            error@ == "SendError { kind: Full }"@ || error@ == "SendError { kind: Disconnected }"@,
    {
        Error(describe(&e))
    }
}

/// The answer to a request.
pub open spec fn answer(request: Request) -> Option<Response> {
    match request {
        Request::A => Some(Response::A),
        Request::B => Some(Response::B),
        Request::Shutdown => None,
    }
}

/// Answers a request.
pub fn respond(request: Request) -> (response: Option<Response>)
    ensures
        response == answer(request),
{
    match request {
        Request::A => Some(Response::A),
        Request::B => Some(Response::B),
        Request::Shutdown => None,
    }
}

/// Each of the two requests is answered in kind, and no other is answered.
pub proof fn law_requests_are_answered_in_kind(request: Request, response: Option<Response>)
    requires
        call_ensures(respond, (request,), response),
    ensures
        request is A <==> response == Some(Response::A),
        request is B <==> response == Some(Response::B),
        request is Shutdown <==> response is None,
{
}

/// The text of an error is the string that it is made of.
pub proof fn law_error_shows_its_string(error: Error, text: String)
    requires
        call_ensures(Error::to_string, (&error,), text),
    ensures
        text@ == error.0@,
{
}

/// An error that is made of one of a channel says what that one is described as.
pub proof fn law_channel_error_is_described(e: SendError, error: Error)
    requires
        call_ensures(<Error as From<SendError>>::from, (e,), error),
    ensures
        error.0@ == crate::channel::send_error_text(e),
        error.0@ == "SendError { kind: Full }"@ || error.0@
            == "SendError { kind: Disconnected }"@,
{
}

} // verus!
