//! What an echo server sends back.

use vstd::prelude::*;

verus! {

/// How many bytes are sent back at once at most.
pub const CHUNK: usize = 8;

/// The byte to send back for what was read: bytes are sent back as they are, and
/// failures to read are passed over.
pub fn echoed<E>(read: Result<u8, E>) -> (byte: Option<u8>)
    ensures
        byte == (match read {
            Ok(b) => Some(b),
            Err(_) => None,
        }),
{
    match read {
        Ok(b) => Some(b),
        Err(_) => None,
    }
}

/// Every byte that was read is sent back as it is, and nothing is sent back for a failure.
pub proof fn law_bytes_are_echoed<E>(read: Result<u8, E>, byte: Option<u8>)
    requires
        call_ensures(echoed::<E>, (read,), byte),
    ensures
        byte is Some <==> read is Ok,
        read matches Ok(b) ==> byte == Some(b),
{
}

} // verus!
