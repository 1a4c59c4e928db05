//! BACnet/IP addresses: an IPv4 address and a UDP port.
use vstd::prelude::*;

use crate::codec::wire::{be_bytes, be_u32, read_be_u32};
use crate::text::{decimal, decimal_string, join};

verus! {

/// A BACnet/IP address.  `addr` holds the four IPv4 octets, the first one
/// in the most significant byte.
#[derive(Debug, Clone, Copy, PartialEq, Eq, Hash, Structural)]
pub struct BacnetAddr {
    pub addr: u32,
    pub port: u16,
}

/// The four octets of an address, first one first.
pub open spec fn addr_octets(a: BacnetAddr) -> Seq<u8> {
    be_bytes(a.addr, 4)
}

/// The dotted-quad and port text of an address: `a.b.c.d:port`.
pub open spec fn addr_text(a: BacnetAddr) -> Seq<char> {
    let o = addr_octets(a);
    decimal(o[0] as nat) + "."@ + decimal(o[1] as nat) + "."@ + decimal(o[2] as nat) + "."@
        + decimal(o[3] as nat) + ":"@ + decimal(a.port as nat)
}

impl BacnetAddr {
    /// The address with IPv4 octets `octets` and UDP port `port`.
    pub fn new(octets: [u8; 4], port: u16) -> (r: Self)
        ensures
            r.addr == be_u32(octets@),
            r.port == port,
    {
        let addr = read_be_u32(octets.as_slice(), 0, 4);
        assert(octets@.subrange(0, 4) =~= octets@);
        BacnetAddr { addr, port }
    }

    /// The address as `a.b.c.d:port`.
    pub fn to_string(&self) -> (s: String)
        ensures
            s@ == addr_text(*self),
    {
        let a = self.addr;
        let s = decimal_string((a >> 24) & 0xFF);
        let s = join(s.as_str(), ".");
        let s = join(s.as_str(), decimal_string((a >> 16) & 0xFF).as_str());
        let s = join(s.as_str(), ".");
        let s = join(s.as_str(), decimal_string((a >> 8) & 0xFF).as_str());
        let s = join(s.as_str(), ".");
        let s = join(s.as_str(), decimal_string(a & 0xFF).as_str());
        let s = join(s.as_str(), ":");
        let s = join(s.as_str(), decimal_string(self.port as u32).as_str());
        proof {
            assert(((a >> 24u32) & 0xFF) == ((a >> 24u32) as u8) as u32 && ((a >> 16u32) & 0xFF)
                == ((a >> 16u32) as u8) as u32 && ((a >> 8u32) & 0xFF) == ((a >> 8u32) as u8) as u32
                && (a & 0xFF) == (a as u8) as u32) by (bit_vector);
        }
        s
    }
}

} // verus!
