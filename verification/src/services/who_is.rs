//! Who-Is requests and the network-layer Who-Is-Router-To-Network message.
use vstd::prelude::*;

use crate::codec::wire::be16;
use crate::services::{context_unsigned_bytes, encode_context_unsigned};

verus! {

/// Unconfirmed service choice of Who-Is.
pub const WHO_IS_SERVICE_CHOICE: u8 = 8;

/// Network-layer message type of Who-Is-Router-To-Network.
pub const MSG_WHO_IS_ROUTER_TO_NETWORK: u8 = 0x00;

/// The Who-Is service data: nothing for a global request, otherwise the low
/// limit as context tag 0 and the high limit as context tag 1.
pub open spec fn who_is_bytes(range: Option<(u32, u32)>) -> Seq<u8> {
    match range {
        None => Seq::empty(),
        Some((low, high)) => context_unsigned_bytes(0, low) + context_unsigned_bytes(1, high),
    }
}

/// Encodes the service data of a Who-Is request.
pub fn encode_who_is(range: Option<(u32, u32)>) -> (r: Vec<u8>)
    ensures
        r@ == who_is_bytes(range),
{
    let mut buf: Vec<u8> = Vec::new();
    if let Some((low, high)) = range {
        encode_context_unsigned(0, low, &mut buf);
        encode_context_unsigned(1, high, &mut buf);
    }
    buf
}

/// The Who-Is-Router-To-Network payload: the message type, then the network
/// number (big-endian) when one is asked about.
pub open spec fn who_is_router_bytes(network: Option<u16>) -> Seq<u8> {
    match network {
        None => seq![MSG_WHO_IS_ROUTER_TO_NETWORK],
        Some(net) => seq![MSG_WHO_IS_ROUTER_TO_NETWORK] + be16(net),
    }
}

/// Encodes a Who-Is-Router-To-Network payload.
pub fn encode_who_is_router_to_network(network: Option<u16>) -> (r: Vec<u8>)
    ensures
        r@ == who_is_router_bytes(network),
{
    let mut buf: Vec<u8> = vec![MSG_WHO_IS_ROUTER_TO_NETWORK];
    if let Some(net) = network {
        buf.push((net >> 8) as u8);
        buf.push(net as u8);
    }
    assert(buf@ =~= who_is_router_bytes(network));
    buf
}

} // verus!
