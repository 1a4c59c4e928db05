//! I-Am announcements and the network-layer I-Am-Router-To-Network message.
use vstd::prelude::*;

use crate::codec::types::{
    lemma_pv_decodes_from_front, pv_encoding, pv_roundtrips, spec_decode_pv, DecodeError,
    ObjectIdentifier, PropertyValue, PropertyValueView,
};
use crate::services::decode_value_at;

verus! {

/// Unconfirmed service choice of I-Am.
pub const I_AM_SERVICE_CHOICE: u8 = 0;

/// Network-layer message type of I-Am-Router-To-Network.
pub const MSG_I_AM_ROUTER_TO_NETWORK: u8 = 0x01;

/// Segmentation a device supports, as announced in I-Am.
#[derive(Debug, Clone, Copy, PartialEq, Eq, Structural)]
pub enum Segmentation {
    Both,
    Transmit,
    Receive,
    NoSegmentation,
}

/// The segmentation support an I-Am code announces: 0 to 2 name a kind,
/// anything else means none.
pub open spec fn segmentation_of(v: u32) -> Segmentation {
    if v == 0 {
        Segmentation::Both
    } else if v == 1 {
        Segmentation::Transmit
    } else if v == 2 {
        Segmentation::Receive
    } else {
        Segmentation::NoSegmentation
    }
}

/// The I-Am code of each kind of segmentation support.
pub open spec fn segmentation_code(s: Segmentation) -> u8 {
    match s {
        Segmentation::Both => 0,
        Segmentation::Transmit => 1,
        Segmentation::Receive => 2,
        Segmentation::NoSegmentation => 3,
    }
}

impl Segmentation {
    /// The I-Am code of this kind.
    pub fn to_u8(self) -> (r: u8)
        ensures
            r == segmentation_code(self),
    {
        match self {
            Segmentation::Both => 0,
            Segmentation::Transmit => 1,
            Segmentation::Receive => 2,
            Segmentation::NoSegmentation => 3,
        }
    }

    pub fn from_u32(v: u32) -> (r: Self)
        ensures
            r == segmentation_of(v),
    {
        match v {
            0 => Segmentation::Both,
            1 => Segmentation::Transmit,
            2 => Segmentation::Receive,
            _ => Segmentation::NoSegmentation,
        }
    }
}

/// A decoded I-Am announcement.
#[derive(Debug, Clone, Copy, PartialEq, Eq, Structural)]
pub struct IAmMessage {
    pub device_id: ObjectIdentifier,
    pub max_apdu_length_accepted: u32,
    pub segmentation_supported: Segmentation,
    pub vendor_id: u32,
}

/// I-Am service data: four application-tagged values in turn, an object
/// identifier, an Unsigned (max APDU length), an Enumerated (segmentation)
/// and an Unsigned (vendor).  A value of another kind in any place is
/// `InvalidData`; a value that fails to decode gives its error.  `None`
/// marks the inputs on which one of the four values is one the value decoder
/// does not accept (see `spec_decode_pv`).
pub open spec fn spec_decode_i_am(data: Seq<u8>) -> Option<Result<IAmMessage, DecodeError>> {
    match spec_decode_pv(data) {
        None => None,
        Some(Err(e)) => Some(Err(e)),
        Some(Ok((PropertyValueView::ObjectIdentifier(device_id), n1))) => {
            let d2 = data.subrange(n1, data.len() as int);
            match spec_decode_pv(d2) {
                None => None,
                Some(Err(e)) => Some(Err(e)),
                Some(Ok((PropertyValueView::Unsigned(max_apdu), n2))) => {
                    let d3 = d2.subrange(n2, d2.len() as int);
                    match spec_decode_pv(d3) {
                        None => None,
                        Some(Err(e)) => Some(Err(e)),
                        Some(Ok((PropertyValueView::Enumerated(seg), n3))) => {
                            let d4 = d3.subrange(n3, d3.len() as int);
                            match spec_decode_pv(d4) {
                                None => None,
                                Some(Err(e)) => Some(Err(e)),
                                Some(Ok((PropertyValueView::Unsigned(vendor), _))) => Some(
                                    Ok(
                                        IAmMessage {
                                            device_id,
                                            max_apdu_length_accepted: max_apdu,
                                            segmentation_supported: segmentation_of(seg),
                                            vendor_id: vendor,
                                        },
                                    ),
                                ),
                                Some(Ok(_)) => Some(Err(DecodeError::InvalidData)),
                            }
                        },
                        Some(Ok(_)) => Some(Err(DecodeError::InvalidData)),
                    }
                },
                Some(Ok(_)) => Some(Err(DecodeError::InvalidData)),
            }
        },
        Some(Ok(_)) => Some(Err(DecodeError::InvalidData)),
    }
}

/// Decodes I-Am service data, or reports `None` for the inputs the value
/// decoder does not accept (see `spec_decode_i_am`).
pub fn decode_i_am_checked(data: &[u8]) -> (r: Option<Result<IAmMessage, DecodeError>>)
    ensures
        r == spec_decode_i_am(data@),
{
    let ghost d = data@;
    let total = data.len();
    let ghost n1: int;
    let ghost n2: int;
    let ghost n3: int;
    let mut offset: usize = 0;
    assert(d.subrange(0, total as int) =~= d);
    let device_id = match decode_value_at(data, offset) {
        None => return None,
        Some(Err(e)) => return Some(Err(e)),
        Some(Ok((PropertyValue::ObjectIdentifier(oid), n))) => {
            proof {
                n1 = n as int;
            }
            offset = offset + n;
            oid
        },
        Some(Ok(_)) => return Some(Err(DecodeError::InvalidData)),
    };
    let ghost d2 = d.subrange(n1, d.len() as int);
    assert(d2 =~= d.subrange(offset as int, d.len() as int));
    let max_apdu_length_accepted = match decode_value_at(data, offset) {
        None => return None,
        Some(Err(e)) => return Some(Err(e)),
        Some(Ok((PropertyValue::Unsigned(v), n))) => {
            proof {
                n2 = n as int;
            }
            offset = offset + n;
            v
        },
        Some(Ok(_)) => return Some(Err(DecodeError::InvalidData)),
    };
    let ghost d3 = d2.subrange(n2, d2.len() as int);
    assert(d3 =~= d.subrange(offset as int, d.len() as int));
    let segmentation_supported = match decode_value_at(data, offset) {
        None => return None,
        Some(Err(e)) => return Some(Err(e)),
        Some(Ok((PropertyValue::Enumerated(v), n))) => {
            proof {
                n3 = n as int;
            }
            offset = offset + n;
            Segmentation::from_u32(v)
        },
        Some(Ok(_)) => return Some(Err(DecodeError::InvalidData)),
    };
    let ghost d4 = d3.subrange(n3, d3.len() as int);
    assert(d4 =~= d.subrange(offset as int, d.len() as int));
    let vendor_id = match decode_value_at(data, offset) {
        None => return None,
        Some(Err(e)) => return Some(Err(e)),
        Some(Ok((PropertyValue::Unsigned(v), _))) => v,
        Some(Ok(_)) => return Some(Err(DecodeError::InvalidData)),
    };
    Some(
        Ok(
            IAmMessage {
                device_id,
                max_apdu_length_accepted,
                segmentation_supported,
                vendor_id,
            },
        ),
    )
}

/// Decodes I-Am service data.
pub fn decode_i_am(data: &[u8]) -> (r: Result<IAmMessage, DecodeError>)
    requires
        spec_decode_i_am(data@) is Some,
    ensures
        spec_decode_i_am(data@) == Some(r),
{
    match decode_i_am_checked(data) {
        Some(r) => r,
        None => Err(DecodeError::InvalidData),
    }
}

/// A decoded I-Am-Router-To-Network message.
#[derive(Debug, Clone, PartialEq, Eq)]
pub struct IAmRouterToNetworkMessage {
    /// The network numbers reachable through the router.
    pub networks: Vec<u16>,
}

/// The network numbers in a payload of octet pairs, each big-endian.
pub open spec fn network_numbers(payload: Seq<u8>) -> Seq<u16> {
    Seq::new(
        payload.len() / 2,
        |i: int| (((payload[2 * i] as u16) << 8u16) | payload[2 * i + 1] as u16) as u16,
    )
}

/// I-Am-Router-To-Network payload: the message type, then an even number of
/// octets holding the network numbers.
pub open spec fn spec_decode_i_am_router(data: Seq<u8>) -> Result<Seq<u16>, DecodeError> {
    if data.len() == 0 {
        Err(DecodeError::IncompleteData)
    } else if data[0] != MSG_I_AM_ROUTER_TO_NETWORK {
        Err(DecodeError::InvalidData)
    } else if (data.len() - 1) % 2 != 0 {
        Err(DecodeError::InvalidData)
    } else {
        Ok(network_numbers(data.subrange(1, data.len() as int)))
    }
}

/// Decodes an I-Am-Router-To-Network payload.
pub fn decode_i_am_router_to_network(data: &[u8]) -> (r: Result<IAmRouterToNetworkMessage, DecodeError>)
    ensures
        match r {
            Ok(m) => spec_decode_i_am_router(data@) == Ok::<Seq<u16>, DecodeError>(m.networks@),
            Err(e) => spec_decode_i_am_router(data@) == Err::<Seq<u16>, DecodeError>(e),
        },
{
    if data.len() == 0 {
        return Err(DecodeError::IncompleteData);
    }
    if data[0] != MSG_I_AM_ROUTER_TO_NETWORK {
        return Err(DecodeError::InvalidData);
    }
    let count = data.len() - 1;
    if count % 2 != 0 {
        return Err(DecodeError::InvalidData);
    }
    let ghost payload = data@.subrange(1, data@.len() as int);
    let mut networks: Vec<u16> = Vec::new();
    let mut i: usize = 0;
    while i < count / 2
        invariant
            count == data@.len() - 1,
            count % 2 == 0,
            i <= count / 2,
            payload == data@.subrange(1, data@.len() as int),
            networks@ =~= network_numbers(payload).subrange(0, i as int),
        decreases count / 2 - i,
    {
        let hi = data[1 + 2 * i];
        let lo = data[2 + 2 * i];
        networks.push(((hi as u16) << 8) | lo as u16);
        i = i + 1;
    }
    assert(network_numbers(payload).subrange(0, i as int) =~= network_numbers(payload));
    Ok(IAmRouterToNetworkMessage { networks })
}

/// The I-Am service data as a device writes it: its identifier, the
/// maximum APDU length (Unsigned), the segmentation code (Enumerated) and the
/// vendor (Unsigned).
pub open spec fn i_am_service_bytes(device_id: ObjectIdentifier, max_apdu: u32, segmentation: u32, vendor_id: u32) -> Seq<u8> {
    pv_encoding(PropertyValueView::ObjectIdentifier(device_id)) + pv_encoding(
        PropertyValueView::Unsigned(max_apdu),
    ) + pv_encoding(PropertyValueView::Enumerated(segmentation)) + pv_encoding(
        PropertyValueView::Unsigned(vendor_id),
    )
}

/// An I-Am reads back field for field: the device identifier, the maximum
/// APDU length and the vendor as written, and the segmentation named by its
/// code (0 both, 1 transmit, 2 receive, any other none), whatever follows.
pub proof fn lemma_i_am_fields(
    device_id: ObjectIdentifier,
    max_apdu: u32,
    segmentation: u32,
    vendor_id: u32,
    rest: Seq<u8>,
)
    requires
        pv_roundtrips(PropertyValueView::ObjectIdentifier(device_id)),
    ensures
        spec_decode_i_am(i_am_service_bytes(device_id, max_apdu, segmentation, vendor_id) + rest)
            == Some(
            Ok::<IAmMessage, DecodeError>(
                IAmMessage {
                    device_id,
                    max_apdu_length_accepted: max_apdu,
                    segmentation_supported: if segmentation == 0 {
                        Segmentation::Both
                    } else if segmentation == 1 {
                        Segmentation::Transmit
                    } else if segmentation == 2 {
                        Segmentation::Receive
                    } else {
                        Segmentation::NoSegmentation
                    },
                    vendor_id,
                },
            ),
        ),
{
    let e1 = pv_encoding(PropertyValueView::ObjectIdentifier(device_id));
    let e2 = pv_encoding(PropertyValueView::Unsigned(max_apdu));
    let e3 = pv_encoding(PropertyValueView::Enumerated(segmentation));
    let e4 = pv_encoding(PropertyValueView::Unsigned(vendor_id));
    let d = i_am_service_bytes(device_id, max_apdu, segmentation, vendor_id) + rest;
    let r2 = e2 + e3 + e4 + rest;
    let r3 = e3 + e4 + rest;
    let r4 = e4 + rest;
    assert(d =~= e1 + r2);
    lemma_pv_decodes_from_front(PropertyValueView::ObjectIdentifier(device_id), r2);
    assert(d.subrange(e1.len() as int, d.len() as int) =~= r2);
    assert(r2 =~= e2 + r3);
    lemma_pv_decodes_from_front(PropertyValueView::Unsigned(max_apdu), r3);
    assert(r2.subrange(e2.len() as int, r2.len() as int) =~= r3);
    assert(r3 =~= e3 + r4);
    lemma_pv_decodes_from_front(PropertyValueView::Enumerated(segmentation), r4);
    assert(r3.subrange(e3.len() as int, r3.len() as int) =~= r4);
    lemma_pv_decodes_from_front(PropertyValueView::Unsigned(vendor_id), rest);
}

} // verus!
