//! Application layer protocol data units: confirmed requests and the
//! replies a client receives.
use vstd::prelude::*;

use crate::codec::types::DecodeError;
use crate::codec::wire::{be_u32, push_all, read_be_u32};

verus! {

pub const PDU_TYPE_CONFIRMED_REQUEST: u8 = 0x00;

pub const PDU_TYPE_UNCONFIRMED_REQUEST: u8 = 0x01;

pub const PDU_TYPE_SIMPLE_ACK: u8 = 0x02;

pub const PDU_TYPE_COMPLEX_ACK: u8 = 0x03;

pub const PDU_TYPE_SEGMENT_ACK: u8 = 0x04;

pub const PDU_TYPE_ERROR: u8 = 0x05;

pub const PDU_TYPE_REJECT: u8 = 0x06;

pub const PDU_TYPE_ABORT: u8 = 0x07;

// ConfirmedRequest first-octet flags.
pub const CR_FLAG_SEG: u8 = 0x08;

pub const CR_FLAG_MOR: u8 = 0x04;

pub const CR_FLAG_SA: u8 = 0x02;

// ComplexACK first-octet flags.
pub const CA_FLAG_SEG: u8 = 0x08;

pub const CA_FLAG_MOR: u8 = 0x04;

// SegmentACK first-octet flags.
pub const SA_FLAG_NAK: u8 = 0x02;

pub const SA_FLAG_SRV: u8 = 0x01;

// Abort first-octet flag: sent by the server.
pub const ABORT_FLAG_SRV: u8 = 0x01;

/// The PDU type in the high nibble of the first octet.
pub open spec fn pdu_type(b: u8) -> u8 {
    b >> 4u8
}

// ─────────────────────────────────────────────────────────────────────────
// Shared types
// ─────────────────────────────────────────────────────────────────────────

/// Max-segments-accepted (3 bits in the high nibble of the second octet).
#[derive(Debug, Clone, Copy, PartialEq, Eq, Structural)]
pub enum MaxSegments {
    Unspecified,
    Two,
    Four,
    Eight,
    Sixteen,
    ThirtyTwo,
    SixtyFour,
    MoreThan64,
}

pub open spec fn max_segments_code(m: MaxSegments) -> u8 {
    match m {
        MaxSegments::Unspecified => 0,
        MaxSegments::Two => 1,
        MaxSegments::Four => 2,
        MaxSegments::Eight => 3,
        MaxSegments::Sixteen => 4,
        MaxSegments::ThirtyTwo => 5,
        MaxSegments::SixtyFour => 6,
        MaxSegments::MoreThan64 => 7,
    }
}

/// The max-segments value in bits 6-4 of `v`.
pub open spec fn max_segments_of(v: u8) -> MaxSegments {
    let c = (v >> 4u8) & 0x07;
    if c == 0 {
        MaxSegments::Unspecified
    } else if c == 1 {
        MaxSegments::Two
    } else if c == 2 {
        MaxSegments::Four
    } else if c == 3 {
        MaxSegments::Eight
    } else if c == 4 {
        MaxSegments::Sixteen
    } else if c == 5 {
        MaxSegments::ThirtyTwo
    } else if c == 6 {
        MaxSegments::SixtyFour
    } else {
        MaxSegments::MoreThan64
    }
}

impl Default for MaxSegments {
    fn default() -> (r: Self)
        ensures
            r == MaxSegments::Unspecified,
    {
        MaxSegments::Unspecified
    }
}

impl MaxSegments {
    /// Reads bits 6-4 of `v`.
    pub fn from_u8(v: u8) -> (r: Self)
        ensures
            r == max_segments_of(v),
    {
        match (v >> 4) & 0x07 {
            0 => MaxSegments::Unspecified,
            1 => MaxSegments::Two,
            2 => MaxSegments::Four,
            3 => MaxSegments::Eight,
            4 => MaxSegments::Sixteen,
            5 => MaxSegments::ThirtyTwo,
            6 => MaxSegments::SixtyFour,
            _ => MaxSegments::MoreThan64,
        }
    }

    /// The code shifted into bits 6-4.
    pub fn to_u8(self) -> (r: u8)
        ensures
            r == max_segments_code(self) * 16,
    {
        let c: u8 = match self {
            MaxSegments::Unspecified => 0,
            MaxSegments::Two => 1,
            MaxSegments::Four => 2,
            MaxSegments::Eight => 3,
            MaxSegments::Sixteen => 4,
            MaxSegments::ThirtyTwo => 5,
            MaxSegments::SixtyFour => 6,
            MaxSegments::MoreThan64 => 7,
        };
        assert(c <= 7 ==> c << 4u8 == c * 16) by (bit_vector);
        c << 4
    }
}

/// Every max-segments value survives `to_u8` followed by `from_u8`.
pub proof fn lemma_max_segments_roundtrip(m: MaxSegments)
    ensures
        max_segments_of((max_segments_code(m) * 16) as u8) == m,
{
    let c = max_segments_code(m);
    assert(c <= 7 ==> ((c * 16) as u8 >> 4u8) & 0x07 == c) by (bit_vector);
}

/// Max-APDU-length-accepted (the low nibble of the second octet).
#[derive(Debug, Clone, Copy, PartialEq, Eq, Structural)]
pub enum MaxApduLength {
    Up50,
    Up128,
    Up206,
    Up480,
    Up1024,
    Up1476,
}

pub open spec fn max_apdu_length_code(m: MaxApduLength) -> u8 {
    match m {
        MaxApduLength::Up50 => 0,
        MaxApduLength::Up128 => 1,
        MaxApduLength::Up206 => 2,
        MaxApduLength::Up480 => 3,
        MaxApduLength::Up1024 => 4,
        MaxApduLength::Up1476 => 5,
    }
}

/// The max-APDU value in the low nibble of `v`; codes 5 and above read as
/// `Up1476`.
pub open spec fn max_apdu_length_of(v: u8) -> MaxApduLength {
    let c = v & 0x0F;
    if c == 0 {
        MaxApduLength::Up50
    } else if c == 1 {
        MaxApduLength::Up128
    } else if c == 2 {
        MaxApduLength::Up206
    } else if c == 3 {
        MaxApduLength::Up480
    } else if c == 4 {
        MaxApduLength::Up1024
    } else {
        MaxApduLength::Up1476
    }
}

impl Default for MaxApduLength {
    fn default() -> (r: Self)
        ensures
            r == MaxApduLength::Up50,
    {
        MaxApduLength::Up50
    }
}

impl MaxApduLength {
    pub fn from_u8(v: u8) -> (r: Self)
        ensures
            r == max_apdu_length_of(v),
    {
        match v & 0x0F {
            0 => MaxApduLength::Up50,
            1 => MaxApduLength::Up128,
            2 => MaxApduLength::Up206,
            3 => MaxApduLength::Up480,
            4 => MaxApduLength::Up1024,
            _ => MaxApduLength::Up1476,
        }
    }

    pub fn to_u8(self) -> (r: u8)
        ensures
            r == max_apdu_length_code(self),
    {
        match self {
            MaxApduLength::Up50 => 0,
            MaxApduLength::Up128 => 1,
            MaxApduLength::Up206 => 2,
            MaxApduLength::Up480 => 3,
            MaxApduLength::Up1024 => 4,
            MaxApduLength::Up1476 => 5,
        }
    }
}

/// Every max-APDU value survives `to_u8` followed by `from_u8`.
pub proof fn lemma_max_apdu_length_roundtrip(m: MaxApduLength)
    ensures
        max_apdu_length_of(max_apdu_length_code(m)) == m,
{
    let c = max_apdu_length_code(m);
    assert(c <= 5 ==> c & 0x0F == c) by (bit_vector);
}

// ─────────────────────────────────────────────────────────────────────────
// ConfirmedRequest
// ─────────────────────────────────────────────────────────────────────────

/// Segmentation header fields shared between ConfirmedRequest and ComplexACK.
#[derive(Debug, Clone, Copy, PartialEq, Eq, Structural)]
pub struct SegmentationHeader {
    pub sequence_number: u8,
    pub proposed_window_size: u8,
    /// True when more segments follow.
    pub more_follows: bool,
}

/// Parameters for encoding a ConfirmedRequest APDU.
#[derive(Debug, Clone)]
pub struct ConfirmedRequestParams<'a> {
    /// Whether the sender can accept a segmented response.
    pub segmented_response_accepted: bool,
    pub max_segments: MaxSegments,
    pub max_apdu_length: MaxApduLength,
    pub invoke_id: u8,
    /// Segmentation fields — None for unsegmented messages.
    pub segmentation: Option<SegmentationHeader>,
    /// Service choice byte (e.g. 12 = ReadProperty).
    pub service_choice: u8,
    /// Encoded service-request bytes.
    pub service_data: &'a [u8],
}

/// A ConfirmedRequest APDU: flags, max-segments and max-APDU, invoke id,
/// the sequence number and proposed window when segmented, the service
/// choice and the service data.
pub open spec fn confirmed_request_bytes(
    segmented_response_accepted: bool,
    max_segments: MaxSegments,
    max_apdu_length: MaxApduLength,
    invoke_id: u8,
    segmentation: Option<SegmentationHeader>,
    service_choice: u8,
    service_data: Seq<u8>,
) -> Seq<u8> {
    let byte0: u8 = ((if segmented_response_accepted { 0x02u8 } else { 0 }) + match segmentation {
        Some(s) => 0x08u8 + if s.more_follows { 0x04u8 } else { 0 },
        None => 0,
    }) as u8;
    let byte1: u8 = (max_segments_code(max_segments) * 16 + max_apdu_length_code(
        max_apdu_length,
    )) as u8;
    seq![byte0, byte1, invoke_id] + match segmentation {
        Some(s) => seq![s.sequence_number, s.proposed_window_size],
        None => Seq::<u8>::empty(),
    } + seq![service_choice] + service_data
}

pub open spec fn confirmed_request_params_bytes(p: ConfirmedRequestParams) -> Seq<u8> {
    confirmed_request_bytes(
        p.segmented_response_accepted,
        p.max_segments,
        p.max_apdu_length,
        p.invoke_id,
        p.segmentation,
        p.service_choice,
        p.service_data@,
    )
}

/// Encodes a ConfirmedRequest APDU.
pub fn encode_confirmed_request(params: &ConfirmedRequestParams<'_>) -> (buf: Vec<u8>)
    ensures
        buf@ == confirmed_request_params_bytes(*params),
{
    let mut byte0: u8 = PDU_TYPE_CONFIRMED_REQUEST << 4;
    let sa = params.segmented_response_accepted;
    if sa {
        byte0 |= CR_FLAG_SA;
    }
    let ghost b_sa = byte0;
    if let Some(seg) = &params.segmentation {
        byte0 |= CR_FLAG_SEG;
        if seg.more_follows {
            byte0 |= CR_FLAG_MOR;
        }
    }
    proof {
        let seg = params.segmentation is Some;
        let mor = params.segmentation matches Some(s) && s.more_follows;
        assert(b_sa == (if sa { 0x00u8 | 0x02 } else { 0x00u8 }) && byte0 == (if seg {
            if mor { (b_sa | 0x08) | 0x04 } else { b_sa | 0x08 }
        } else { b_sa }) ==> byte0 == ((if sa { 0x02u8 } else { 0 }) + (if seg {
            0x08u8 + if mor { 0x04u8 } else { 0 }
        } else { 0 })) as u8) by (bit_vector);
        assert(PDU_TYPE_CONFIRMED_REQUEST << 4u8 == 0x00u8) by (bit_vector);
    }
    let ms = params.max_segments.to_u8();
    let ml = params.max_apdu_length.to_u8();
    let byte1 = ms | ml;
    proof {
        let c = max_segments_code(params.max_segments);
        assert(c <= 7 && ml <= 5 ==> ((c * 16) as u8 | ml) == (c * 16 + ml) as u8) by (bit_vector);
    }
    let mut buf = Vec::new();
    buf.push(byte0);
    buf.push(byte1);
    buf.push(params.invoke_id);
    if let Some(seg) = &params.segmentation {
        buf.push(seg.sequence_number);
        buf.push(seg.proposed_window_size);
    }
    buf.push(params.service_choice);
    push_all(&mut buf, params.service_data);
    assert(buf@ =~= confirmed_request_params_bytes(*params));
    buf
}

// ─────────────────────────────────────────────────────────────────────────
// ComplexACK
// ─────────────────────────────────────────────────────────────────────────

/// Decoded ComplexACK APDU.
#[derive(Debug, Clone, PartialEq, Eq)]
pub struct ComplexAck<'a> {
    pub invoke_id: u8,
    pub service_ack_choice: u8,
    pub segmentation: Option<SegmentationHeader>,
    /// Raw service-ACK data bytes.
    pub service_data: &'a [u8],
}

/// Decoding a ComplexACK: (invoke id, service choice, segmentation, data).
pub open spec fn spec_complex_ack(data: Seq<u8>) -> Result<
    (u8, u8, Option<SegmentationHeader>, Seq<u8>),
    DecodeError,
> {
    if data.len() < 3 {
        Err(DecodeError::IncompleteData)
    } else if pdu_type(data[0]) != PDU_TYPE_COMPLEX_ACK {
        Err(DecodeError::InvalidData)
    } else if data[0] & CA_FLAG_SEG != 0 {
        if data.len() < 5 {
            Err(DecodeError::IncompleteData)
        } else {
            Ok(
                (
                    data[1],
                    data[4],
                    Some(
                        SegmentationHeader {
                            sequence_number: data[2],
                            proposed_window_size: data[3],
                            more_follows: data[0] & CA_FLAG_MOR != 0,
                        },
                    ),
                    data.subrange(5, data.len() as int),
                ),
            )
        }
    } else {
        Ok((data[1], data[2], None, data.subrange(3, data.len() as int)))
    }
}

/// Decodes a ComplexACK APDU.
pub fn decode_complex_ack(data: &[u8]) -> (r: Result<ComplexAck<'_>, DecodeError>)
    ensures
        match r {
            Ok(a) => spec_complex_ack(data@) == Ok::<
                (u8, u8, Option<SegmentationHeader>, Seq<u8>),
                DecodeError,
            >((a.invoke_id, a.service_ack_choice, a.segmentation, a.service_data@)),
            Err(e) => spec_complex_ack(data@) == Err::<
                (u8, u8, Option<SegmentationHeader>, Seq<u8>),
                DecodeError,
            >(e),
        },
{
    if data.len() < 3 {
        return Err(DecodeError::IncompleteData);
    }
    let byte0 = data[0];
    if (byte0 >> 4) != PDU_TYPE_COMPLEX_ACK {
        return Err(DecodeError::InvalidData);
    }
    let is_segmented = (byte0 & CA_FLAG_SEG) != 0;
    let more_follows = (byte0 & CA_FLAG_MOR) != 0;
    let invoke_id = data[1];
    if is_segmented {
        if data.len() < 5 {
            return Err(DecodeError::IncompleteData);
        }
        let seg = SegmentationHeader {
            sequence_number: data[2],
            proposed_window_size: data[3],
            more_follows,
        };
        let service_ack_choice = data[4];
        Ok(
            ComplexAck {
                invoke_id,
                service_ack_choice,
                segmentation: Some(seg),
                service_data: &data[5..data.len()],
            },
        )
    } else {
        let service_ack_choice = data[2];
        Ok(
            ComplexAck {
                invoke_id,
                service_ack_choice,
                segmentation: None,
                service_data: &data[3..data.len()],
            },
        )
    }
}

// ─────────────────────────────────────────────────────────────────────────
// SimpleACK
// ─────────────────────────────────────────────────────────────────────────

/// Decoded SimpleACK APDU.
#[derive(Debug, Clone, Copy, PartialEq, Eq, Structural)]
pub struct SimpleAck {
    pub invoke_id: u8,
    pub service_ack_choice: u8,
}

pub open spec fn spec_simple_ack(data: Seq<u8>) -> Result<SimpleAck, DecodeError> {
    if data.len() < 3 {
        Err(DecodeError::IncompleteData)
    } else if pdu_type(data[0]) != PDU_TYPE_SIMPLE_ACK {
        Err(DecodeError::InvalidData)
    } else {
        Ok(SimpleAck { invoke_id: data[1], service_ack_choice: data[2] })
    }
}

/// Decodes a SimpleACK APDU: `0x2_`, invoke id, service choice.
pub fn decode_simple_ack(data: &[u8]) -> (r: Result<SimpleAck, DecodeError>)
    ensures
        r == spec_simple_ack(data@),
{
    if data.len() < 3 {
        return Err(DecodeError::IncompleteData);
    }
    if (data[0] >> 4) != PDU_TYPE_SIMPLE_ACK {
        return Err(DecodeError::InvalidData);
    }
    Ok(SimpleAck { invoke_id: data[1], service_ack_choice: data[2] })
}

// ─────────────────────────────────────────────────────────────────────────
// SegmentACK
// ─────────────────────────────────────────────────────────────────────────

/// SegmentACK APDU (both directions).
#[derive(Debug, Clone, Copy, PartialEq, Eq, Structural)]
pub struct SegmentAck {
    /// True = negative acknowledgement.
    pub negative_ack: bool,
    /// True = sent by server.
    pub server: bool,
    pub invoke_id: u8,
    pub sequence_number: u8,
    pub actual_window_size: u8,
}

/// A SegmentACK APDU: `0x40` with the NAK and server flags, invoke id,
/// sequence number, actual window size.
pub open spec fn segment_ack_bytes(ack: SegmentAck) -> Seq<u8> {
    seq![
        (0x40u8 + (if ack.negative_ack { 0x02u8 } else { 0 }) + (if ack.server { 0x01u8 } else { 0 })) as u8,
        ack.invoke_id,
        ack.sequence_number,
        ack.actual_window_size,
    ]
}

/// Encodes a SegmentACK APDU.
pub fn encode_segment_ack(ack: &SegmentAck) -> (buf: Vec<u8>)
    ensures
        buf@ == segment_ack_bytes(*ack),
{
    let mut byte0: u8 = PDU_TYPE_SEGMENT_ACK << 4;
    let ghost b0 = byte0;
    if ack.negative_ack {
        byte0 |= SA_FLAG_NAK;
    }
    let ghost b1 = byte0;
    if ack.server {
        byte0 |= SA_FLAG_SRV;
    }
    proof {
        let n = ack.negative_ack;
        let s = ack.server;
        assert(b0 == PDU_TYPE_SEGMENT_ACK << 4u8 && b1 == (if n { b0 | 0x02 } else { b0 }) && byte0
            == (if s { b1 | 0x01 } else { b1 }) ==> byte0 == (0x40u8 + (if n { 0x02u8 } else { 0 })
            + (if s { 0x01u8 } else { 0 })) as u8) by (bit_vector);
    }
    let buf = vec![byte0, ack.invoke_id, ack.sequence_number, ack.actual_window_size];
    assert(buf@ =~= segment_ack_bytes(*ack));
    buf
}

pub open spec fn spec_segment_ack(data: Seq<u8>) -> Result<SegmentAck, DecodeError> {
    if data.len() < 4 {
        Err(DecodeError::IncompleteData)
    } else if pdu_type(data[0]) != PDU_TYPE_SEGMENT_ACK {
        Err(DecodeError::InvalidData)
    } else {
        Ok(
            SegmentAck {
                negative_ack: data[0] & SA_FLAG_NAK != 0,
                server: data[0] & SA_FLAG_SRV != 0,
                invoke_id: data[1],
                sequence_number: data[2],
                actual_window_size: data[3],
            },
        )
    }
}

/// Decodes a SegmentACK APDU.
pub fn decode_segment_ack(data: &[u8]) -> (r: Result<SegmentAck, DecodeError>)
    ensures
        r == spec_segment_ack(data@),
{
    if data.len() < 4 {
        return Err(DecodeError::IncompleteData);
    }
    let byte0 = data[0];
    if (byte0 >> 4) != PDU_TYPE_SEGMENT_ACK {
        return Err(DecodeError::InvalidData);
    }
    Ok(
        SegmentAck {
            negative_ack: (byte0 & SA_FLAG_NAK) != 0,
            server: (byte0 & SA_FLAG_SRV) != 0,
            invoke_id: data[1],
            sequence_number: data[2],
            actual_window_size: data[3],
        },
    )
}

/// A SegmentACK decodes back to itself.
pub proof fn lemma_segment_ack_roundtrip(ack: SegmentAck)
    ensures
        spec_segment_ack(segment_ack_bytes(ack)) == Ok::<SegmentAck, DecodeError>(ack),
{
    let n = ack.negative_ack;
    let s = ack.server;
    assert({
        let b = (0x40u8 + (if n { 0x02u8 } else { 0 }) + (if s { 0x01u8 } else { 0 })) as u8;
        &&& b >> 4u8 == 4
        &&& (b & 0x02 != 0) == n
        &&& (b & 0x01 != 0) == s
    }) by (bit_vector);
}

// ─────────────────────────────────────────────────────────────────────────
// Error APDU
// ─────────────────────────────────────────────────────────────────────────

/// Decoded Error APDU.
#[derive(Debug, Clone, Copy, PartialEq, Eq, Structural)]
pub struct ErrorApdu {
    pub invoke_id: u8,
    pub service_choice: u8,
    /// Error class (BACnet Enumerated, decoded as raw u32).
    pub error_class: u32,
    /// Error code (BACnet Enumerated, decoded as raw u32).
    pub error_code: u32,
}

/// An application-tagged Enumerated: tag 9 with the length in the low three
/// bits, then that many octets (big-endian, truncated to 32 bits).
pub open spec fn spec_enumerated_value(data: Seq<u8>) -> Result<(u32, int), DecodeError> {
    if data.len() == 0 {
        Err(DecodeError::IncompleteData)
    } else if (data[0] >> 4u8) & 0x0F != 9 {
        Err(DecodeError::InvalidData)
    } else {
        let len = (data[0] & 0x07) as int;
        if data.len() < 1 + len {
            Err(DecodeError::IncompleteData)
        } else {
            Ok((be_u32(data.subrange(1, 1 + len)), 1 + len))
        }
    }
}

/// Decodes an application-tagged Enumerated, returning the value and the
/// octets consumed.
pub fn decode_enumerated_value(data: &[u8]) -> (r: Result<(u32, usize), DecodeError>)
    ensures
        match r {
            Ok((v, n)) => spec_enumerated_value(data@) == Ok::<(u32, int), DecodeError>((v, n as int)),
            Err(e) => spec_enumerated_value(data@) == Err::<(u32, int), DecodeError>(e),
        },
{
    if data.len() == 0 {
        return Err(DecodeError::IncompleteData);
    }
    let tag = data[0];
    let tag_number = (tag >> 4) & 0x0F;
    if tag_number != 9 {
        return Err(DecodeError::InvalidData);
    }
    let len = (tag & 0x07) as usize;
    if data.len() < 1 + len {
        return Err(DecodeError::IncompleteData);
    }
    let value = read_be_u32(data, 1, len);
    Ok((value, 1 + len))
}

pub open spec fn spec_error_apdu(data: Seq<u8>) -> Result<ErrorApdu, DecodeError> {
    if data.len() < 3 {
        Err(DecodeError::IncompleteData)
    } else if pdu_type(data[0]) != PDU_TYPE_ERROR {
        Err(DecodeError::InvalidData)
    } else {
        let rest = data.subrange(3, data.len() as int);
        match spec_enumerated_value(rest) {
            Err(e) => Err(e),
            Ok((class, n)) => match spec_enumerated_value(rest.subrange(n, rest.len() as int)) {
                Err(e) => Err(e),
                Ok((code, _)) => Ok(
                    ErrorApdu {
                        invoke_id: data[1],
                        service_choice: data[2],
                        error_class: class,
                        error_code: code,
                    },
                ),
            },
        }
    }
}

/// Decodes an Error APDU: `0x5_`, invoke id, service choice, then the error
/// class and error code as Enumerated values.
pub fn decode_error_apdu(data: &[u8]) -> (r: Result<ErrorApdu, DecodeError>)
    ensures
        r == spec_error_apdu(data@),
{
    if data.len() < 3 {
        return Err(DecodeError::IncompleteData);
    }
    if (data[0] >> 4) != PDU_TYPE_ERROR {
        return Err(DecodeError::InvalidData);
    }
    let invoke_id = data[1];
    let service_choice = data[2];
    let rest = &data[3..data.len()];
    let (error_class, consumed1) = match decode_enumerated_value(rest) {
        Ok(x) => x,
        Err(e) => {
            return Err(e);
        },
    };
    let (error_code, _) = match decode_enumerated_value(&rest[consumed1..rest.len()]) {
        Ok(x) => x,
        Err(e) => {
            return Err(e);
        },
    };
    Ok(ErrorApdu { invoke_id, service_choice, error_class, error_code })
}

// ─────────────────────────────────────────────────────────────────────────
// Abort APDU
// ─────────────────────────────────────────────────────────────────────────

/// Decoded Abort APDU.
#[derive(Debug, Clone, Copy, PartialEq, Eq, Structural)]
pub struct AbortApdu {
    /// True = sent by server.
    pub server: bool,
    pub invoke_id: u8,
    pub abort_reason: u8,
}

pub open spec fn spec_abort(data: Seq<u8>) -> Result<AbortApdu, DecodeError> {
    if data.len() < 3 {
        Err(DecodeError::IncompleteData)
    } else if pdu_type(data[0]) != PDU_TYPE_ABORT {
        Err(DecodeError::InvalidData)
    } else {
        Ok(
            AbortApdu {
                server: data[0] & ABORT_FLAG_SRV != 0,
                invoke_id: data[1],
                abort_reason: data[2],
            },
        )
    }
}

/// Decodes an Abort APDU: `0x7_` with the server flag, invoke id, reason.
pub fn decode_abort(data: &[u8]) -> (r: Result<AbortApdu, DecodeError>)
    ensures
        r == spec_abort(data@),
{
    if data.len() < 3 {
        return Err(DecodeError::IncompleteData);
    }
    if (data[0] >> 4) != PDU_TYPE_ABORT {
        return Err(DecodeError::InvalidData);
    }
    Ok(
        AbortApdu {
            server: (data[0] & ABORT_FLAG_SRV) != 0,
            invoke_id: data[1],
            abort_reason: data[2],
        },
    )
}

// ─────────────────────────────────────────────────────────────────────────
// Reject APDU
// ─────────────────────────────────────────────────────────────────────────

/// Decoded Reject APDU.
#[derive(Debug, Clone, Copy, PartialEq, Eq, Structural)]
pub struct RejectApdu {
    pub invoke_id: u8,
    pub reject_reason: u8,
}

pub open spec fn spec_reject(data: Seq<u8>) -> Result<RejectApdu, DecodeError> {
    if data.len() < 3 {
        Err(DecodeError::IncompleteData)
    } else if pdu_type(data[0]) != PDU_TYPE_REJECT {
        Err(DecodeError::InvalidData)
    } else {
        Ok(RejectApdu { invoke_id: data[1], reject_reason: data[2] })
    }
}

/// Decodes a Reject APDU: `0x6_`, invoke id, reason.
pub fn decode_reject(data: &[u8]) -> (r: Result<RejectApdu, DecodeError>)
    ensures
        r == spec_reject(data@),
{
    if data.len() < 3 {
        return Err(DecodeError::IncompleteData);
    }
    if (data[0] >> 4) != PDU_TYPE_REJECT {
        return Err(DecodeError::InvalidData);
    }
    Ok(RejectApdu { invoke_id: data[1], reject_reason: data[2] })
}

} // verus!
