use libbacnet::codec::types::{ObjectIdentifier, ObjectType, PropertyValue};
use libbacnet::enums::PropertyIdentifier;
use libbacnet::services::read_property::{decode_response, encode_request};
use libbacnet::services::{
    decode_context_object_id, decode_context_unsigned, encode_context_object_id,
    encode_context_unsigned,
};


fn device_5() -> ObjectIdentifier {
    ObjectIdentifier::new(ObjectType::Device, 5)
}

#[test]
fn test_encode_request_no_array_index() {
    // Device,5 / present-value (prop 85) / no array index
    let buf = encode_request(&device_5(), PropertyIdentifier::PresentValue, None);
    // context[0] object-id: tag=0x0C (tag0, context, len4), then 4 bytes
    assert_eq!(buf[0], 0x0C);
    // context[1] prop-id=85: tag=0x19 (tag1, context, len1), 0x55
    let oid_end = 5;
    assert_eq!(buf[oid_end], 0x19);
    assert_eq!(buf[oid_end + 1], 85);
    assert_eq!(buf.len(), 7); // 5 + 2
}

#[test]
fn test_encode_request_with_array_index() {
    let buf = encode_request(&device_5(), PropertyIdentifier::PresentValue, Some(0));
    // 5 (oid) + 2 (prop) + 2 (array index 0) = 9
    assert_eq!(buf.len(), 9);
    // array-index tag: context tag 2, len 1
    assert_eq!(buf[7], 0x29);
    assert_eq!(buf[8], 0x00);
}

#[test]
fn test_decode_response_real_value() {
    // Build a known-good response manually:
    // context[0] oid = Device,5
    // context[1] prop = 85 (present-value)
    // context[3] opening + Real(1.0) + closing
    let mut data = Vec::new();
    encode_context_object_id(0, device_5().to_u32(), &mut data);
    encode_context_unsigned(1, 85, &mut data);
    // opening tag [3]
    data.push(0x3E);
    // Real(1.0): app tag 4, len 4, 0x3F800000
    data.push(0x44);
    data.extend_from_slice(&1.0f32.to_be_bytes());
    // closing tag [3]
    data.push(0x3F);

    let result = decode_response(&data).unwrap();
    assert_eq!(result.object_id, device_5());
    assert_eq!(result.property_id, PropertyIdentifier::PresentValue);
    assert_eq!(result.array_index, None);
    assert_eq!(result.value, PropertyValue::Real(1.0f32.to_bits()));
}

#[test]
fn test_decode_response_with_array_index() {
    let mut data = Vec::new();
    encode_context_object_id(0, device_5().to_u32(), &mut data);
    encode_context_unsigned(1, 85, &mut data);
    encode_context_unsigned(2, 3, &mut data); // array index = 3
    data.push(0x3E);
    data.push(0x21); // Unsigned(1): tag2, len1
    data.push(0x01);
    data.push(0x3F);

    let result = decode_response(&data).unwrap();
    assert_eq!(result.array_index, Some(3));
    assert_eq!(result.value, PropertyValue::Unsigned(1));
}

#[test]
fn test_roundtrip_request_fields() {
    // encode request, check service data fields are recoverable
    let buf = encode_request(&device_5(), PropertyIdentifier::PresentValue, None);
    // first 5 bytes = context oid
    let (oid_raw, n) = decode_context_object_id(&buf, 0).unwrap();
    assert_eq!(ObjectIdentifier::from_u32(oid_raw), device_5());
    let (prop, _) = decode_context_unsigned(&buf[n..], 1).unwrap();
    assert_eq!(prop, 85);
}
