use libbacnet::codec::types::{DecodeError, ObjectIdentifier, ObjectType};
use libbacnet::services::i_am::{decode_i_am, decode_i_am_router_to_network, Segmentation};


/// Build a known-good I-Am PDU service-data byte sequence.
fn make_i_am(device_instance: u32, max_apdu: u32, seg: u32, vendor: u32) -> Vec<u8> {
    let mut buf = Vec::new();
    // device-id: ObjectIdentifier app tag 12 (0xC4), 4 bytes
    let oid = ObjectIdentifier::new(ObjectType::Device, device_instance).to_u32();
    buf.push(0xC4);
    buf.extend_from_slice(&oid.to_be_bytes());
    // max-apdu: Unsigned
    buf.push(0x22); // tag2, len2
    buf.push((max_apdu >> 8) as u8);
    buf.push(max_apdu as u8);
    // segmentation: Enumerated
    buf.push(0x91); // tag9, len1
    buf.push(seg as u8);
    // vendor-id: Unsigned
    buf.push(0x21); // tag2, len1
    buf.push(vendor as u8);
    buf
}

#[test]
fn test_decode_i_am() {
    let data = make_i_am(1234, 1476, 0, 15);
    let msg = decode_i_am(&data).unwrap();
    assert_eq!(
        msg.device_id,
        ObjectIdentifier::new(ObjectType::Device, 1234)
    );
    assert_eq!(msg.max_apdu_length_accepted, 1476);
    assert_eq!(msg.segmentation_supported, Segmentation::Both);
    assert_eq!(msg.vendor_id, 15);
}

#[test]
fn test_decode_i_am_segmentation_none() {
    let data = make_i_am(5, 480, 3, 1);
    let msg = decode_i_am(&data).unwrap();
    assert_eq!(msg.segmentation_supported, Segmentation::NoSegmentation);
}

#[test]
fn test_decode_i_am_truncated() {
    let data = [0xC4, 0x02, 0x00, 0x00]; // only 4 bytes, incomplete
    assert_eq!(decode_i_am(&data).unwrap_err(), DecodeError::IncompleteData);
}

#[test]
fn test_decode_i_am_router_to_network_single() {
    let data = [0x01, 0x00, 0x05]; // message type + net 5
    let msg = decode_i_am_router_to_network(&data).unwrap();
    assert_eq!(msg.networks, vec![5]);
}

#[test]
fn test_decode_i_am_router_to_network_multiple() {
    let data = [0x01, 0x00, 0x05, 0x00, 0x0A, 0xAB, 0xCD];
    let msg = decode_i_am_router_to_network(&data).unwrap();
    assert_eq!(msg.networks, vec![5, 10, 0xABCD]);
}

#[test]
fn test_decode_i_am_router_wrong_message_type() {
    let data = [0x00, 0x00, 0x05];
    assert_eq!(
        decode_i_am_router_to_network(&data).unwrap_err(),
        DecodeError::InvalidData
    );
}

#[test]
fn test_decode_i_am_router_odd_length() {
    let data = [0x01, 0x00, 0x05, 0x00]; // 3 network bytes — odd, invalid
    assert_eq!(
        decode_i_am_router_to_network(&data).unwrap_err(),
        DecodeError::InvalidData
    );
}

#[test]
fn test_decode_i_am_router_empty_networks() {
    // Valid: router knows of zero networks
    let data = [0x01];
    let msg = decode_i_am_router_to_network(&data).unwrap();
    assert!(msg.networks.is_empty());
}
