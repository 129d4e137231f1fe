//! A flag that whoever comes first may set.

use futures::channel::mpsc::Receiver;
use vstd::prelude::*;

verus! {

pub struct Service {
    /// Where new values of the flag come from.
    pub handlers: Vec<Receiver<bool>>,
    pub data: bool,
}

impl Service {
    /// Takes over what the first handler to finish received: a value, or nothing when its channel
    /// is closed. The other handlers are no longer waited for. Without handlers there
    /// is none to finish.
    pub fn handle_requests(&mut self, first: Option<bool>)
        requires
            old(self).handlers@.len() > 0,
        ensures
            final(self).handlers@ == old(self).handlers@,
            final(self).data == (match first {
                Some(val) => val,
                None => old(self).data,
            }),
    {
        if let Some(val) = first {
            self.data = val;
        }
    }
}

/// The flag has the value that was received, whatever it was before, and its own value where none
/// was. The handlers stay.
pub proof fn law_received_value_is_taken_over(service: &mut Service, first: Option<bool>)
    requires
        call_ensures(Service::handle_requests, (service, first), ()),
    ensures
        first matches Some(val) ==> final(service).data == val,
        first is None ==> final(service).data == old(service).data,
        final(service).handlers@ == old(service).handlers@,
{
}

/// A service with a handler can take over anything.
pub proof fn law_anything_can_be_taken_over(service: &mut Service, first: Option<bool>)
    requires
        old(service).handlers@.len() > 0,
    ensures
        call_requires(Service::handle_requests, (service, first)),
{
}

} // verus!
