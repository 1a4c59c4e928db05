//! WriteProperty: the request encoder.
use vstd::prelude::*;

use crate::codec::types::{object_id_value, pv_encodable, pv_encoding, ObjectIdentifier, PropertyValue};
use crate::enums::{property_code, PropertyIdentifier};
use crate::services::read_property::optional_index_bytes;
use crate::services::{
    closing_tag_octet, context_object_id_bytes, context_unsigned_bytes, encode_closing_tag,
    encode_context_object_id, encode_context_unsigned, encode_opening_tag, opening_tag_octet,
};

verus! {

/// Confirmed service choice of WriteProperty.
pub const SERVICE_CHOICE: u8 = 15;

/// WriteProperty request service data: object identifier (context 0),
/// property identifier (context 1), the array index when given (context 2),
/// the value between opening and closing tag 3, and the priority when given
/// (context 4).
pub open spec fn write_property_request_bytes(
    object_id: ObjectIdentifier,
    property_id: PropertyIdentifier,
    value: Seq<u8>,
    array_index: Option<u32>,
    priority: Option<u8>,
) -> Seq<u8> {
    context_object_id_bytes(0, object_id_value(object_id)) + context_unsigned_bytes(
        1,
        property_code(property_id),
    ) + optional_index_bytes(2, array_index) + seq![opening_tag_octet(3)] + value + seq![
        closing_tag_octet(3),
    ] + match priority {
        Some(p) => context_unsigned_bytes(4, p as u32),
        None => Seq::empty(),
    }
}

/// Encodes WriteProperty request service data.
pub fn encode_request(
    object_id: &ObjectIdentifier,
    property_id: PropertyIdentifier,
    value: &PropertyValue,
    array_index: Option<u32>,
    priority: Option<u8>,
) -> (r: Vec<u8>)
    requires
        pv_encodable(value@),
    ensures
        r@ == write_property_request_bytes(
            *object_id,
            property_id,
            pv_encoding(value@),
            array_index,
            priority,
        ),
{
    let mut buf: Vec<u8> = Vec::new();
    encode_context_object_id(0, object_id.to_u32(), &mut buf);
    encode_context_unsigned(1, u32::from(property_id), &mut buf);
    if let Some(idx) = array_index {
        encode_context_unsigned(2, idx, &mut buf);
    }
    encode_opening_tag(3, &mut buf);
    value.encode_tag_and_value(&mut buf);
    encode_closing_tag(3, &mut buf);
    if let Some(p) = priority {
        encode_context_unsigned(4, p as u32, &mut buf);
    }
    assert(buf@ =~= write_property_request_bytes(
        *object_id,
        property_id,
        pv_encoding(value@),
        array_index,
        priority,
    ));
    buf
}

} // verus!
