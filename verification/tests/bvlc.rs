use libbacnet::codec::bvlc::{decode, encode, BvlcFunction};
use libbacnet::codec::types::DecodeError;


#[test]
fn test_encode_unicast() {
    let npdu = [0x01, 0x04, 0x02, 0x03];
    let frame = encode(BvlcFunction::OriginalUnicastNpdu, &npdu);
    assert_eq!(&frame[0..4], &[0x81, 0x0A, 0x00, 0x08]);
    assert_eq!(&frame[4..], &npdu);
}

#[test]
fn test_encode_broadcast() {
    let npdu = [0x01, 0x20];
    let frame = encode(BvlcFunction::OriginalBroadcastNpdu, &npdu);
    assert_eq!(&frame[0..4], &[0x81, 0x0B, 0x00, 0x06]);
    assert_eq!(&frame[4..], &npdu);
}

#[test]
fn test_encode_empty_npdu() {
    let frame = encode(BvlcFunction::OriginalUnicastNpdu, &[]);
    assert_eq!(frame, [0x81, 0x0A, 0x00, 0x04]);
}

#[test]
fn test_decode_unicast() {
    let data = [0x81, 0x0A, 0x00, 0x06, 0xAA, 0xBB];
    let frame = decode(&data).unwrap();
    assert_eq!(frame.function, BvlcFunction::OriginalUnicastNpdu);
    assert_eq!(frame.npdu, &[0xAA, 0xBB]);
}

#[test]
fn test_decode_broadcast() {
    let data = [0x81, 0x0B, 0x00, 0x05, 0xFF];
    let frame = decode(&data).unwrap();
    assert_eq!(frame.function, BvlcFunction::OriginalBroadcastNpdu);
    assert_eq!(frame.npdu, &[0xFF]);
}

#[test]
fn test_decode_unknown_function_returns_error() {
    let data = [0x81, 0x01, 0x00, 0x04]; // 0x01 = Register-Foreign-Device, not supported
    let err = decode(&data).unwrap_err();
    assert_eq!(err, DecodeError::UnsupportedBvlcFunction);
}

#[test]
fn test_decode_wrong_type_byte_returns_invalid() {
    let data = [0x80, 0x0A, 0x00, 0x04];
    let err = decode(&data).unwrap_err();
    assert_eq!(err, DecodeError::InvalidData);
}

#[test]
fn test_decode_truncated_returns_incomplete() {
    let data = [0x81, 0x0A, 0x00];
    let err = decode(&data).unwrap_err();
    assert_eq!(err, DecodeError::IncompleteData);
}

#[test]
fn test_roundtrip_unicast() {
    let npdu = vec![0x01, 0x04, 0xDE, 0xAD, 0xBE, 0xEF];
    let encoded = encode(BvlcFunction::OriginalUnicastNpdu, &npdu);
    let frame = decode(&encoded).unwrap();
    assert_eq!(frame.function, BvlcFunction::OriginalUnicastNpdu);
    assert_eq!(frame.npdu, npdu.as_slice());
}

#[test]
fn test_roundtrip_broadcast() {
    let npdu = vec![0x01, 0x20, 0x00];
    let encoded = encode(BvlcFunction::OriginalBroadcastNpdu, &npdu);
    let frame = decode(&encoded).unwrap();
    assert_eq!(frame.function, BvlcFunction::OriginalBroadcastNpdu);
    assert_eq!(frame.npdu, npdu.as_slice());
}
