//! ReadProperty: the request encoder and the response decoder.
use vstd::prelude::*;

use crate::codec::types::{
    object_id_of, object_id_value, DecodeError, ObjectIdentifier, PropertyValue, PropertyValueView,
};
use crate::enums::{property_code, property_of, PropertyIdentifier};
use crate::services::{
    collapse, collapse_values, context_object_id_bytes, context_unsigned_bytes, count_result,
    decode_context_object_id, decode_context_unsigned, decode_value_list,
    encode_context_object_id, encode_context_unsigned, is_opening_tag, opening_tag_octet,
    spec_context_object_id, spec_context_unsigned, spec_value_list,
};

verus! {

/// Confirmed service choice of ReadProperty.
pub const SERVICE_CHOICE: u8 = 12;

/// The optional array index, as context tag `tag_number`.
pub open spec fn optional_index_bytes(tag_number: u8, index: Option<u32>) -> Seq<u8> {
    match index {
        Some(i) => context_unsigned_bytes(tag_number, i),
        None => Seq::empty(),
    }
}

/// ReadProperty request service data: the object identifier (context 0),
/// the property identifier (context 1) and the array index when given
/// (context 2).
pub open spec fn read_property_request_bytes(
    object_id: ObjectIdentifier,
    property_id: PropertyIdentifier,
    array_index: Option<u32>,
) -> Seq<u8> {
    context_object_id_bytes(0, object_id_value(object_id)) + context_unsigned_bytes(
        1,
        property_code(property_id),
    ) + optional_index_bytes(2, array_index)
}

/// Encodes ReadProperty request service data.
pub fn encode_request(
    object_id: &ObjectIdentifier,
    property_id: PropertyIdentifier,
    array_index: Option<u32>,
) -> (r: Vec<u8>)
    ensures
        r@ == read_property_request_bytes(*object_id, property_id, array_index),
{
    let mut buf: Vec<u8> = Vec::new();
    encode_context_object_id(0, object_id.to_u32(), &mut buf);
    encode_context_unsigned(1, u32::from(property_id), &mut buf);
    if let Some(idx) = array_index {
        encode_context_unsigned(2, idx, &mut buf);
    }
    assert(buf@ =~= read_property_request_bytes(*object_id, property_id, array_index));
    buf
}

/// A decoded ReadProperty acknowledgement.
#[derive(Debug, Clone, PartialEq)]
pub struct ReadPropertyResult {
    pub object_id: ObjectIdentifier,
    pub property_id: PropertyIdentifier,
    pub array_index: Option<u32>,
    pub value: PropertyValue,
}

/// The mathematical content of a ReadProperty acknowledgement.
pub struct ReadPropertyView {
    pub object_id: ObjectIdentifier,
    pub property_id: PropertyIdentifier,
    pub array_index: Option<u32>,
    pub value: PropertyValueView,
}

impl View for ReadPropertyResult {
    type V = ReadPropertyView;

    open spec fn view(&self) -> ReadPropertyView {
        ReadPropertyView {
            object_id: self.object_id,
            property_id: self.property_id,
            array_index: self.array_index,
            value: self.value@,
        }
    }
}

/// Whether `b` starts a context tag 2 primitive (an array index).
pub open spec fn starts_array_index(b: u8) -> bool {
    (b >> 4u8) == 2 && b & 0x08 != 0
}

/// The value part of a ReadProperty acknowledgement, from the opening tag
/// 3 on: the values up to closing tag 3, collapsed to one value.
pub open spec fn spec_read_property_value(
    d: Seq<u8>,
    object_id: ObjectIdentifier,
    property_id: PropertyIdentifier,
    array_index: Option<u32>,
) -> Option<Result<ReadPropertyView, DecodeError>> {
    if !(d.len() > 0 && d[0] == opening_tag_octet(3)) {
        Some(Err(DecodeError::InvalidContextTag))
    } else {
        match spec_value_list(d.subrange(1, d.len() as int), 3) {
            None => None,
            Some(Err(e)) => Some(Err(e)),
            Some(Ok((vs, _))) => Some(
                Ok(ReadPropertyView { object_id, property_id, array_index, value: collapse_values(vs) }),
            ),
        }
    }
}

/// ReadProperty acknowledgement service data: object identifier (context
/// 0), property identifier (context 1), an array index (context 2) when the
/// next octet starts one, then the values between opening and closing tag
/// 3.  `None` marks the inputs holding a value the value decoder does not
/// accept.
pub open spec fn spec_read_property_response(data: Seq<u8>) -> Option<Result<ReadPropertyView, DecodeError>> {
    match spec_context_object_id(data, 0) {
        Err(e) => Some(Err(e)),
        Ok((oid, n1)) => {
            let d1 = data.subrange(n1, data.len() as int);
            match spec_context_unsigned(d1, 1) {
                Err(e) => Some(Err(e)),
                Ok((pid, n2)) => {
                    let d2 = d1.subrange(n2, d1.len() as int);
                    if d2.len() > 0 && starts_array_index(d2[0]) {
                        match spec_context_unsigned(d2, 2) {
                            Err(e) => Some(Err(e)),
                            Ok((idx, n3)) => spec_read_property_value(
                                d2.subrange(n3, d2.len() as int),
                                object_id_of(oid),
                                property_of(pid),
                                Some(idx),
                            ),
                        }
                    } else {
                        spec_read_property_value(d2, object_id_of(oid), property_of(pid), None)
                    }
                },
            }
        },
    }
}

/// Decodes ReadProperty acknowledgement service data, or reports `None` for
/// the inputs holding a value the value decoder does not accept.
pub fn decode_response_checked(data: &[u8]) -> (r: Option<Result<ReadPropertyResult, DecodeError>>)
    ensures
        match r {
            None => spec_read_property_response(data@) is None,
            Some(Err(e)) => spec_read_property_response(data@) == Some(
                Err::<ReadPropertyView, DecodeError>(e),
            ),
            Some(Ok(v)) => spec_read_property_response(data@) == Some(
                Ok::<ReadPropertyView, DecodeError>(v@),
            ),
        },
{
    let total = data.len();
    let ghost d = data@;
    assert(d.subrange(0, total as int) =~= d);
    let (oid_raw, n1) = match decode_context_object_id(data, 0) {
        Ok(x) => x,
        Err(e) => return Some(Err(e)),
    };
    let mut offset = n1;
    let object_id = ObjectIdentifier::from_u32(oid_raw);
    let ghost d1 = d.subrange(n1 as int, total as int);
    let (property_id_raw, n2) = match decode_context_unsigned(&data[offset..total], 1) {
        Ok(x) => x,
        Err(e) => return Some(Err(e)),
    };
    offset = offset + n2;
    let property_id = PropertyIdentifier::from(property_id_raw);
    let ghost d2 = d1.subrange(n2 as int, d1.len() as int);
    assert(d2 =~= d.subrange(offset as int, total as int));
    let has_index = offset < total && (data[offset] >> 4) == 2 && (data[offset] & 0x08) != 0;
    let array_index = if has_index {
        let (idx, n3) = match decode_context_unsigned(&data[offset..total], 2) {
            Ok(x) => x,
            Err(e) => return Some(Err(e)),
        };
        offset = offset + n3;
        assert(d2.subrange(n3 as int, d2.len() as int) =~= d.subrange(offset as int, total as int));
        Some(idx)
    } else {
        None
    };
    let ghost d3 = d.subrange(offset as int, total as int);
    if !is_opening_tag(&data[offset..total], 3) {
        return Some(Err(DecodeError::InvalidContextTag));
    }
    offset = offset + 1;
    assert(d3.subrange(1, d3.len() as int) =~= d.subrange(offset as int, total as int));
    let (values, _end) = match decode_value_list(data, offset, 3) {
        None => return None,
        Some(Err(e)) => return Some(Err(e)),
        Some(Ok(x)) => x,
    };
    let value = collapse(values);
    Some(Ok(ReadPropertyResult { object_id, property_id, array_index, value }))
}

/// Decodes ReadProperty acknowledgement service data.
pub fn decode_response(data: &[u8]) -> (r: Result<ReadPropertyResult, DecodeError>)
    requires
        spec_read_property_response(data@) is Some,
    ensures
        match r {
            Err(e) => spec_read_property_response(data@) == Some(
                Err::<ReadPropertyView, DecodeError>(e),
            ),
            Ok(v) => spec_read_property_response(data@) == Some(
                Ok::<ReadPropertyView, DecodeError>(v@),
            ),
        },
{
    match decode_response_checked(data) {
        Some(r) => r,
        None => Err(DecodeError::InvalidData),
    }
}

} // verus!
