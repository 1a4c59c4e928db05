use libbacnet::codec::types::{
    BitString, CharacterEncoding, CharacterString, Date, ObjectIdentifier, ObjectType,
    PropertyValue, Time, Weekday,
};


#[test]
fn test_roundtrip_boolean_true() {
    roundtrip(PropertyValue::Boolean(true));
}

#[test]
fn test_roundtrip_boolean_false() {
    roundtrip(PropertyValue::Boolean(false));
}

#[test]
fn test_roundtrip_unsigned() {
    roundtrip(PropertyValue::Unsigned(42));
    roundtrip(PropertyValue::Unsigned(0));
    roundtrip(PropertyValue::Unsigned(0xFFFFFFFF));
}

#[test]
fn test_roundtrip_signed() {
    roundtrip(PropertyValue::Signed(42));
    roundtrip(PropertyValue::Signed(-1));
    roundtrip(PropertyValue::Signed(-128));
    roundtrip(PropertyValue::Signed(127));
}

#[test]
fn test_roundtrip_real() {
    roundtrip(PropertyValue::Real((3.14f32).to_bits()));
    roundtrip(PropertyValue::Real((0.0f32).to_bits()));
    roundtrip(PropertyValue::Real((-1.0f32).to_bits()));
}

#[test]
fn test_roundtrip_double() {
    roundtrip(PropertyValue::Double((3.14159265358979f64).to_bits()));
}

#[test]
fn test_roundtrip_octet_string() {
    // Limit to 4 bytes for inline length encoding
    roundtrip(PropertyValue::OctetString(vec![0x01, 0x02, 0x03]));
}

#[test]
fn test_roundtrip_character_string() {
    // "Hell" (4 chars) + 1 encoding byte = 5, fits in inline length
    let original = PropertyValue::CharacterString(CharacterString {
        encoding: CharacterEncoding::Utf8,
        value: "Hell".to_string(),
    });
    let mut encoded = Vec::new();
    original.encode_tag_and_value(&mut encoded);
    let (decoded, consumed) = PropertyValue::decode(&encoded).unwrap();
    assert_eq!(consumed, encoded.len());
    assert_eq!(decoded, original);
}

#[test]
fn test_roundtrip_bit_string() {
    roundtrip(PropertyValue::BitString(BitString::new(8, vec![0xAA])));
}

#[test]
fn test_roundtrip_enumerated() {
    roundtrip(PropertyValue::Enumerated(0));
    roundtrip(PropertyValue::Enumerated(255));
}

#[test]
fn test_roundtrip_date() {
    roundtrip(PropertyValue::Date(Date::new(
        2024,
        4,
        16,
        Some(Weekday::Tuesday),
    )));
}

#[test]
fn test_roundtrip_time() {
    roundtrip(PropertyValue::Time(Time::new(14, 30, 0, 0)));
}

#[test]
fn test_roundtrip_object_identifier() {
    roundtrip(PropertyValue::ObjectIdentifier(ObjectIdentifier::new(
        ObjectType::Device,
        1,
    )));
    roundtrip(PropertyValue::ObjectIdentifier(ObjectIdentifier::new(
        ObjectType::AnalogInput,
        42,
    )));
}

fn roundtrip(original: PropertyValue) {
    let mut encoded = Vec::new();
    original.encode_tag_and_value(&mut encoded);
    let (decoded, consumed) = PropertyValue::decode(&encoded).unwrap();
    assert_eq!(consumed, encoded.len());
    assert_eq!(decoded, original);
}
