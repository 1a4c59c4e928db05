use libbacnet::codec::npdu::{decode, encode, NetworkAddress, NpduEncodeParams, Priority};
use libbacnet::codec::types::DecodeError;


/// Minimal local NPDU (no routing) with data-expecting-reply set.
#[test]
fn test_encode_no_routing_data_expecting_reply() {
    let apdu = [0x00, 0x01, 0x02];
    let params = NpduEncodeParams {
        apdu: &apdu,
        data_expecting_reply: true,
        priority: Priority::Normal,
        ..Default::default()
    };
    let frame = encode(&params);
    // version=0x01, ctrl=0x04 (data_expecting_reply), then APDU
    assert_eq!(frame, [0x01, 0x04, 0x00, 0x01, 0x02]);
}

/// NPDU without data-expecting-reply.
#[test]
fn test_encode_no_routing_no_reply() {
    let apdu = [0xAB];
    let params = NpduEncodeParams {
        apdu: &apdu,
        ..Default::default()
    };
    let frame = encode(&params);
    assert_eq!(frame, [0x01, 0x00, 0xAB]);
}

/// NPDU with destination network address (DNET present).
#[test]
fn test_encode_with_dest() {
    let apdu = [0xFF];
    let dest = NetworkAddress::new(5, vec![0x0A]); // net=5, 1-byte adr
    let params = NpduEncodeParams {
        apdu: &apdu,
        data_expecting_reply: true,
        dest: Some(dest),
        hop_count: Some(10),
        ..Default::default()
    };
    let frame = encode(&params);
    // version=0x01
    // ctrl=0x24 (DNET_PRESENT | data_expecting_reply)
    // DNET: 0x00 0x05
    // DADR-len: 0x01
    // DADR: 0x0A
    // hop-count: 0x0A
    // APDU: 0xFF
    assert_eq!(frame, [0x01, 0x24, 0x00, 0x05, 0x01, 0x0A, 0x0A, 0xFF]);
}

/// NPDU with broadcast destination (DADR-len = 0).
#[test]
fn test_encode_broadcast_dest() {
    let apdu = [0x10];
    let dest = NetworkAddress::new(0xFFFF, vec![]); // global broadcast
    let params = NpduEncodeParams {
        apdu: &apdu,
        dest: Some(dest),
        ..Default::default()
    };
    let frame = encode(&params);
    // ctrl=0x20 (DNET_PRESENT)
    // DNET: 0xFF 0xFF, DADR-len: 0x00, hop-count: 0xFF (default)
    assert_eq!(frame, [0x01, 0x20, 0xFF, 0xFF, 0x00, 0xFF, 0x10]);
}

/// Priority bits are encoded correctly.
#[test]
fn test_encode_priority_life_safety() {
    let params = NpduEncodeParams {
        apdu: &[],
        priority: Priority::LifeSafety,
        ..Default::default()
    };
    let frame = encode(&params);
    assert_eq!(frame[1] & 0x03, 0x03); // bits 1-0 = 11
}

/// Decode a minimal NPDU (no routing).
#[test]
fn test_decode_no_routing() {
    let data = [0x01, 0x04, 0x00, 0x01];
    let frame = decode(&data).unwrap();
    assert_eq!(frame.priority, Priority::Normal);
    assert!(frame.data_expecting_reply);
    assert!(!frame.is_network_layer_message);
    assert!(frame.dest.is_none());
    assert!(frame.src.is_none());
    assert!(frame.hop_count.is_none());
    assert_eq!(frame.apdu, &[0x00, 0x01]);
}

/// Decode an NPDU with DNET present.
#[test]
fn test_decode_with_dest() {
    // version, ctrl(DNET_PRESENT|DER), DNET=5, DADR-len=1, DADR=0x0A, hop=10, APDU=0xFF
    let data = [0x01, 0x24, 0x00, 0x05, 0x01, 0x0A, 0x0A, 0xFF];
    let frame = decode(&data).unwrap();
    assert_eq!(frame.priority, Priority::Normal);
    assert!(frame.data_expecting_reply);
    let dest = frame.dest.unwrap();
    assert_eq!(dest.net, 5);
    assert_eq!(dest.adr, vec![0x0A]);
    assert_eq!(frame.hop_count, Some(10));
    assert_eq!(frame.apdu, &[0xFF]);
}

/// Decode an NPDU with source specifier.
#[test]
fn test_decode_with_src() {
    // version, ctrl(SNET_PRESENT), SNET=3, SADR-len=1, SADR=0xBB, APDU=0x01
    let data = [0x01, 0x08, 0x00, 0x03, 0x01, 0xBB, 0x01];
    let frame = decode(&data).unwrap();
    let src = frame.src.unwrap();
    assert_eq!(src.net, 3);
    assert_eq!(src.adr, vec![0xBB]);
    assert_eq!(frame.apdu, &[0x01]);
}

/// Invalid version byte returns error.
#[test]
fn test_decode_wrong_version() {
    let data = [0x02, 0x00];
    assert_eq!(decode(&data).unwrap_err(), DecodeError::InvalidData);
}

/// Truncated data returns IncompleteData.
#[test]
fn test_decode_truncated() {
    let data = [0x01];
    assert_eq!(decode(&data).unwrap_err(), DecodeError::IncompleteData);
}

/// Round-trip: encode then decode recovers the same fields.
#[test]
fn test_roundtrip_no_routing() {
    let apdu = vec![0xDE, 0xAD, 0xBE, 0xEF];
    let params = NpduEncodeParams {
        apdu: &apdu,
        data_expecting_reply: true,
        priority: Priority::Urgent,
        ..Default::default()
    };
    let encoded = encode(&params);
    let frame = decode(&encoded).unwrap();
    assert_eq!(frame.priority, Priority::Urgent);
    assert!(frame.data_expecting_reply);
    assert_eq!(frame.apdu, apdu.as_slice());
}

/// Round-trip with destination network address.
#[test]
fn test_roundtrip_with_dest() {
    let apdu = vec![0x01, 0x02];
    let dest = NetworkAddress::new(100, vec![0xAA, 0xBB]);
    let params = NpduEncodeParams {
        apdu: &apdu,
        data_expecting_reply: false,
        dest: Some(dest.clone()),
        hop_count: Some(8),
        ..Default::default()
    };
    let encoded = encode(&params);
    let frame = decode(&encoded).unwrap();
    assert_eq!(frame.dest.unwrap(), dest);
    assert_eq!(frame.hop_count, Some(8));
    assert_eq!(frame.apdu, apdu.as_slice());
}
