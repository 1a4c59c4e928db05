//! BACnet Virtual Link Control: the 4-octet BACnet/IP header.
use vstd::prelude::*;

use crate::codec::types::DecodeError;
use crate::codec::wire::{byte_count, push_all};

verus! {

/// BACnet/IP type octet.
pub const BVLC_TYPE: u8 = 0x81;

pub const BVLC_ORIGINAL_UNICAST_NPDU: u8 = 0x0A;

pub const BVLC_ORIGINAL_BROADCAST_NPDU: u8 = 0x0B;

/// The kind of BVLC frame.
#[derive(Debug, Clone, Copy, PartialEq, Eq, Structural)]
pub enum BvlcFunction {
    OriginalUnicastNpdu,
    OriginalBroadcastNpdu,
}

/// The function octet of each kind.
pub open spec fn bvlc_function_code(f: BvlcFunction) -> u8 {
    match f {
        BvlcFunction::OriginalUnicastNpdu => BVLC_ORIGINAL_UNICAST_NPDU,
        BvlcFunction::OriginalBroadcastNpdu => BVLC_ORIGINAL_BROADCAST_NPDU,
    }
}

/// A BVLC frame: `0x81`, the function octet, the total length (header
/// included, big-endian, modulo 2^16) and the NPDU.
pub open spec fn bvlc_frame(f: BvlcFunction, npdu: Seq<u8>) -> Seq<u8> {
    let total = npdu.len() + 4;
    seq![BVLC_TYPE, bvlc_function_code(f), ((total / 256) % 256) as u8, (total % 256) as u8] + npdu
}

/// Wraps an NPDU in a BVLC header.
pub fn encode(function: BvlcFunction, npdu: &[u8]) -> (buf: Vec<u8>)
    ensures
        buf@ == bvlc_frame(function, npdu@),
{
    let total_len = 4 + byte_count(npdu);
    let function_code = match function {
        BvlcFunction::OriginalUnicastNpdu => BVLC_ORIGINAL_UNICAST_NPDU,
        BvlcFunction::OriginalBroadcastNpdu => BVLC_ORIGINAL_BROADCAST_NPDU,
    };
    let mut buf = Vec::with_capacity(total_len);
    buf.push(BVLC_TYPE);
    buf.push(function_code);
    buf.push((total_len >> 8) as u8);
    buf.push(total_len as u8);
    push_all(&mut buf, npdu);
    proof {
        assert((total_len >> 8usize) as u8 == ((total_len / 256) % 256) as u8) by (bit_vector);
        assert(total_len as u8 == (total_len % 256) as u8) by (bit_vector);
    }
    assert(buf@ =~= bvlc_frame(function, npdu@));
    buf
}

/// A decoded BVLC frame: its kind and the NPDU it carries.
#[derive(Debug, Clone, PartialEq, Eq)]
pub struct BvlcFrame<'a> {
    pub function: BvlcFunction,
    /// The inner NPDU bytes (taken from the input buffer).
    pub npdu: &'a [u8],
}

/// The length field of a frame.
pub open spec fn bvlc_length(data: Seq<u8>) -> int {
    data[2] as int * 256 + data[3] as int
}

/// Decoding a BVLC frame: the header is checked in order (size, type octet,
/// declared length against the data, declared length against the header,
/// function code); the NPDU is the data from octet 4 up to the declared
/// length.
pub open spec fn spec_bvlc_decode(data: Seq<u8>) -> Result<(BvlcFunction, Seq<u8>), DecodeError> {
    if data.len() < 4 {
        Err(DecodeError::IncompleteData)
    } else if data[0] != BVLC_TYPE {
        Err(DecodeError::InvalidData)
    } else if data.len() < bvlc_length(data) {
        Err(DecodeError::IncompleteData)
    } else if bvlc_length(data) < 4 {
        Err(DecodeError::InvalidData)
    } else if data[1] == BVLC_ORIGINAL_UNICAST_NPDU {
        Ok((BvlcFunction::OriginalUnicastNpdu, data.subrange(4, bvlc_length(data))))
    } else if data[1] == BVLC_ORIGINAL_BROADCAST_NPDU {
        Ok((BvlcFunction::OriginalBroadcastNpdu, data.subrange(4, bvlc_length(data))))
    } else {
        Err(DecodeError::UnsupportedBvlcFunction)
    }
}

/// Decodes a raw UDP payload into its BVLC kind and NPDU.
pub fn decode(data: &[u8]) -> (r: Result<BvlcFrame<'_>, DecodeError>)
    ensures
        match r {
            Ok(f) => spec_bvlc_decode(data@) == Ok::<(BvlcFunction, Seq<u8>), DecodeError>(
                (f.function, f.npdu@),
            ),
            Err(e) => spec_bvlc_decode(data@) == Err::<(BvlcFunction, Seq<u8>), DecodeError>(e),
        },
{
    if data.len() < 4 {
        return Err(DecodeError::IncompleteData);
    }
    if data[0] != BVLC_TYPE {
        return Err(DecodeError::InvalidData);
    }
    let function_code = data[1];
    let length = ((data[2] as usize) << 8) | data[3] as usize;
    proof {
        let a = data@[2];
        let b = data@[3];
        assert(((a as usize) << 8usize) | b as usize == a as usize * 256 + b as usize) by (bit_vector);
    }
    if data.len() < length {
        return Err(DecodeError::IncompleteData);
    }
    if length < 4 {
        return Err(DecodeError::InvalidData);
    }
    let function = if function_code == BVLC_ORIGINAL_UNICAST_NPDU {
        BvlcFunction::OriginalUnicastNpdu
    } else if function_code == BVLC_ORIGINAL_BROADCAST_NPDU {
        BvlcFunction::OriginalBroadcastNpdu
    } else {
        return Err(DecodeError::UnsupportedBvlcFunction);
    };
    Ok(BvlcFrame { function, npdu: &data[4..length] })
}

/// A frame made by `encode` decodes to the same kind and NPDU, provided the
/// total length fits in the 16-bit length field.
pub proof fn lemma_bvlc_roundtrip(f: BvlcFunction, npdu: Seq<u8>)
    requires
        npdu.len() + 4 <= 0xFFFF,
    ensures
        spec_bvlc_decode(bvlc_frame(f, npdu)) == Ok::<(BvlcFunction, Seq<u8>), DecodeError>(
            (f, npdu),
        ),
{
    let data = bvlc_frame(f, npdu);
    let total = npdu.len() + 4;
    assert(bvlc_length(data) == total);
    assert(data.subrange(4, total as int) =~= npdu);
}

/// BVLC frames on the wire: every frame starts `0x81`, then `0x0A` for an
/// original unicast NPDU and `0x0B` for an original broadcast NPDU, then the
/// total length (header included, big-endian); a frame that decodes names
/// the function its second octet gives.
pub proof fn lemma_bvlc_wire(f: BvlcFunction, npdu: Seq<u8>, data: Seq<u8>)
    ensures
        bvlc_frame(f, npdu)[0] == 0x81u8,
        bvlc_frame(f, npdu)[1] == match f {
            BvlcFunction::OriginalUnicastNpdu => 0x0Au8,
            BvlcFunction::OriginalBroadcastNpdu => 0x0Bu8,
        },
        npdu.len() + 4 <= 0xFFFF ==> bvlc_frame(f, npdu)[2] as int * 256 + bvlc_frame(f, npdu)[3]
            == npdu.len() + 4,
        spec_bvlc_decode(data) matches Ok((g, _)) ==> (data[1] == 0x0Au8
            && g == BvlcFunction::OriginalUnicastNpdu) || (data[1] == 0x0Bu8
            && g == BvlcFunction::OriginalBroadcastNpdu),
{
}

} // verus!
