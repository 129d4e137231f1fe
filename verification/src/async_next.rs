//! A service that its users hand clients of their own kind to.

use std::collections::BTreeMap;
use std::marker::PhantomData;
use vstd::prelude::*;

verus! {

#[derive(Debug)]
pub struct Error(pub String);

impl View for Error {
    type V = Seq<char>;

    open spec fn view(&self) -> Seq<char> {
        self.0@
    }
}

/// `String::from` of a string slice: a string with the same characters.
pub assume_specification<'a>[ <String as From<&'a str>>::from ](s: &str) -> (string: String)
    ensures
        string@ == s@,
;

/// `From::from` of a value into its own type: the value itself, unchanged.
pub assume_specification<Value>[ <Value as From<Value>>::from ](value: Value) -> (same: Value)
    ensures
        same == value,
;

impl Error {
    pub fn new<S: Into<String>>(s: S) -> (error: Self)
        ensures
            call_ensures(<S as Into<String>>::into, (s,), error.0),
    {
        Error(s.into())
    }
}

/// An error that is made of a string says what the string says.
pub proof fn law_string_becomes_error_text(s: String, error: Error)
    requires
        call_ensures(<String as Into<String>>::into, (s,), error.0),
    ensures
        error@ == s@,
{
}

/// An error that is made of a string slice says what the slice says.
pub proof fn law_str_becomes_error_text(s: &str, error: Error)
    requires
        call_ensures(<&str as Into<String>>::into, (s,), error.0),
    ensures
        error@ == s@,
{
}

pub type ClientId = u32;

pub trait Client {

}

pub trait ServiceData {

}

pub struct Service<C: Client> {
    pub _phantom_data: PhantomData<C>,
}

impl<C: Client> Service<C> {
    /// A service without clients.
    pub fn new<D: ServiceData>(data: D) -> (mgr: ServiceMgr<C, D>)
        ensures
            mgr.data == data,
            mgr.clients@ == Map::<ClientId, C>::empty(),
            mgr.next_id == 0,
    {
        ServiceMgr { data, clients: BTreeMap::new(), next_id: 0 }
    }
}

#[verifier::reject_recursive_types(C)]
pub struct ServiceMgr<C: Client, D: ServiceData> {
    pub data: D,
    pub clients: BTreeMap<ClientId, C>,
    pub next_id: ClientId,
}

impl<C: Client, D: ServiceData> ServiceMgr<C, D> {
    /// How a client is added. The id that it gets is not used up.
    pub open spec fn added(&self, client: C, next: &Self, result: Result<(), Error>) -> bool {
        &&& next.data == self.data
        &&& next.next_id == self.next_id
        &&& if self.next_id == ClientId::MAX {
            &&& result matches Err(e) && e@ == "num clients exceeds u32::MAX"@
            &&& next.clients@ == self.clients@
        } else {
            &&& result is Ok
            &&& next.clients@ == self.clients@.insert(self.next_id, client)
        }
    }

    /// Puts a client under the next id, in the place of the one that is there. The next
    /// id stays the same.
    pub fn add_client(&mut self, client: C) -> (result: Result<(), Error>)
        ensures
            old(self).added(client, final(self), result),
    {
        if self.next_id == ClientId::MAX {
            return Err(Error::new("num clients exceeds u32::MAX"));
        }
        self.clients.insert(self.next_id, client);
        Ok(())
    }
}

/// A service has added `clients` one after the other since it was `start`, with the
/// answers `results`, and is `end` now.
pub open spec fn added_all<C: Client, D: ServiceData>(
    start: ServiceMgr<C, D>,
    clients: Seq<C>,
    results: Seq<Result<(), Error>>,
    end: ServiceMgr<C, D>,
) -> bool
    decreases clients.len(),
{
    &&& results.len() == clients.len()
    &&& if clients.len() == 0 {
        end == start
    } else {
        exists|mid: ServiceMgr<C, D>|
            added_all(start, clients.drop_last(), results.drop_last(), mid)
                && #[trigger] mid.added(clients.last(), &end, results.last())
    }
}

/// A new service takes any number of clients and keeps the last one, under the id zero.
pub proof fn law_last_client_is_kept<C: Client, D: ServiceData>(
    start: ServiceMgr<C, D>,
    clients: Seq<C>,
    results: Seq<Result<(), Error>>,
    end: ServiceMgr<C, D>,
)
    requires
        start.next_id == 0,
        start.clients@ == Map::<ClientId, C>::empty(),
        added_all(start, clients, results, end),
    ensures
        forall|i: int| 0 <= i < results.len() ==> #[trigger] results[i] is Ok,
        end.next_id == 0,
        end.data == start.data,
        end.clients@ == (if clients.len() == 0 {
            Map::<ClientId, C>::empty()
        } else {
            map![0u32 => clients.last()]
        }),
    decreases clients.len(),
{
    if clients.len() > 0 {
        let mid = choose|mid: ServiceMgr<C, D>|
            added_all(start, clients.drop_last(), results.drop_last(), mid)
                && #[trigger] mid.added(clients.last(), &end, results.last());
        law_last_client_is_kept(start, clients.drop_last(), results.drop_last(), mid);
        assert forall|i: int| 0 <= i < results.len() implies #[trigger] results[i] is Ok by {
            if i < results.len() - 1 {
                assert(results[i] == results.drop_last()[i]);
            }
        }
        assert(end.clients@ =~= map![0u32 => clients.last()]);
    }
}

/// An error says what the string or the string slice says that it was made of.
pub proof fn law_new_error_says_its_text(s: String, of_string: Error, slice: &str, of_slice: Error)
    requires
        call_ensures(Error::new::<String>, (s,), of_string),
        call_ensures(Error::new::<&str>, (slice,), of_slice),
    ensures
        of_string.0@ == s@,
        of_slice.0@ == slice@,
{
}

/// A new service has the data that it was given, holds no client and gives the id zero first.
pub proof fn law_new_service_is_empty<C: Client, D: ServiceData>(data: D, mgr: ServiceMgr<C, D>)
    requires
        call_ensures(Service::<C>::new::<D>, (data,), mgr),
    ensures
        mgr.data == data,
        forall|id: ClientId| !mgr.clients@.contains_key(id),
        mgr.next_id == 0,
{
}

/// `add_client` puts every client under the next id, whether or not one stood there before, and
/// leaves what stands under the other ids. It refuses a client exactly when the next id is the
/// last one, and then nothing changes.
pub proof fn law_client_stands_under_next_id<C: Client, D: ServiceData>(
    mgr: &mut ServiceMgr<C, D>,
    client: C,
    result: Result<(), Error>,
)
    requires
        call_ensures(ServiceMgr::<C, D>::add_client, (mgr, client), result),
    ensures
        result is Err <==> old(mgr).next_id == ClientId::MAX,
        result matches Err(e) ==> e.0@ == "num clients exceeds u32::MAX"@,
        result is Err ==> final(mgr).clients@ == old(mgr).clients@,
        result is Ok ==> final(mgr).clients@ == old(mgr).clients@.insert(
            old(mgr).next_id,
            client,
        ),
        final(mgr).data == old(mgr).data,
        final(mgr).next_id == old(mgr).next_id,
{
}

} // verus!
