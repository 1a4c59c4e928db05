use libbacnet::codec::types::{ObjectIdentifier, ObjectType, PropertyValue};
use libbacnet::enums::PropertyIdentifier;
use libbacnet::services::read_property_multiple::{
    decode_response, encode_request, BacnetError, PropertyReference, ReadAccessSpec,
};
use libbacnet::services::{
    encode_closing_tag, encode_context_object_id, encode_context_unsigned, encode_opening_tag,
};


fn device_1() -> ObjectIdentifier {
    ObjectIdentifier::new(ObjectType::Device, 1)
}
fn ai_0() -> ObjectIdentifier {
    ObjectIdentifier::new(ObjectType::AnalogInput, 0)
}

#[test]
fn test_encode_request_single_object() {
    let specs = vec![ReadAccessSpec {
        object_id: device_1(),
        properties: vec![
            PropertyReference {
                property_id: PropertyIdentifier::PresentValue,
                array_index: None,
            },
            PropertyReference {
                property_id: PropertyIdentifier::ObjectName,
                array_index: None,
            },
        ],
    }];
    let buf = encode_request(&specs);
    // starts with context[0] object-id tag 0x0C
    assert_eq!(buf[0], 0x0C);
    // opening [1] = 0x1E
    assert_eq!(buf[5], 0x1E);
    // closing [1] = 0x1F somewhere at the end
    assert_eq!(*buf.last().unwrap(), 0x1F);
}

#[test]
fn test_encode_request_multiple_objects() {
    let specs = vec![
        ReadAccessSpec {
            object_id: device_1(),
            properties: vec![PropertyReference {
                property_id: PropertyIdentifier::PresentValue,
                array_index: None,
            }],
        },
        ReadAccessSpec {
            object_id: ai_0(),
            properties: vec![PropertyReference {
                property_id: PropertyIdentifier::PresentValue,
                array_index: None,
            }],
        },
    ];
    let buf = encode_request(&specs);
    // Should contain two object-id tags (0x0C)
    let count = buf.iter().filter(|&&b| b == 0x0C).count();
    assert_eq!(count, 2);
}

#[test]
fn test_decode_response_all_success() {
    // Build a single-object, single-property success response
    // Device,1 / prop 85 / Real(22.5)
    let mut data = Vec::new();
    encode_context_object_id(0, device_1().to_u32(), &mut data);
    encode_opening_tag(1, &mut data);
    encode_opening_tag(2, &mut data);
    encode_context_unsigned(0, 85, &mut data);
    // value opening [4]
    data.push(0x4E);
    data.push(0x44); // Real app tag
    data.extend_from_slice(&22.5f32.to_be_bytes());
    data.push(0x4F); // closing [4]
    encode_closing_tag(2, &mut data);
    encode_closing_tag(1, &mut data);

    let result = decode_response(&data).unwrap();
    assert_eq!(result.objects.len(), 1);
    let obj = &result.objects[0];
    assert_eq!(obj.object_id, device_1());
    assert_eq!(obj.properties.len(), 1);
    assert_eq!(
        obj.properties[0].property_id,
        PropertyIdentifier::PresentValue
    );
    assert_eq!(obj.properties[0].value, Ok(PropertyValue::Real(22.5f32.to_bits())));
}

#[test]
fn test_decode_response_partial_error() {
    // Device,1: prop 85 = Real(1.0), prop 77 = Error(2, 31)
    let mut data = Vec::new();
    encode_context_object_id(0, device_1().to_u32(), &mut data);
    encode_opening_tag(1, &mut data);

    // Property 85 — success
    encode_opening_tag(2, &mut data);
    encode_context_unsigned(0, 85, &mut data);
    data.push(0x4E);
    data.push(0x44);
    data.extend_from_slice(&1.0f32.to_be_bytes());
    data.push(0x4F);
    encode_closing_tag(2, &mut data);

    // Property 77 — error
    encode_opening_tag(2, &mut data);
    encode_context_unsigned(0, 77, &mut data);
    data.push(0x5E); // opening [5]
    data.push(0x91);
    data.push(0x02); // error-class = 2
    data.push(0x91);
    data.push(0x1F); // error-code = 31
    data.push(0x5F); // closing [5]
    encode_closing_tag(2, &mut data);

    encode_closing_tag(1, &mut data);

    let result = decode_response(&data).unwrap();
    let props = &result.objects[0].properties;
    assert_eq!(props[0].value, Ok(PropertyValue::Real(1.0f32.to_bits())));
    assert_eq!(
        props[1].value,
        Err(BacnetError {
            error_class: 2,
            error_code: 31
        })
    );
}

#[test]
fn test_decode_response_two_objects() {
    let mut data = Vec::new();
    for (obj, prop_val) in [(&device_1(), 1.0f32), (&ai_0(), 2.5f32)] {
        encode_context_object_id(0, obj.to_u32(), &mut data);
        encode_opening_tag(1, &mut data);
        encode_opening_tag(2, &mut data);
        encode_context_unsigned(0, 85, &mut data);
        data.push(0x4E);
        data.push(0x44);
        data.extend_from_slice(&prop_val.to_be_bytes());
        data.push(0x4F);
        encode_closing_tag(2, &mut data);
        encode_closing_tag(1, &mut data);
    }
    let result = decode_response(&data).unwrap();
    assert_eq!(result.objects.len(), 2);
    assert_eq!(result.objects[0].object_id, device_1());
    assert_eq!(result.objects[1].object_id, ai_0());
}
