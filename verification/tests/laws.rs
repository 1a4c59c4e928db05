use libbacnet::codec::bvlc;
use libbacnet::codec::npdu;
use libbacnet::codec::types::{
    CharacterEncoding, CharacterString, Date, DecodeError, ObjectIdentifier, ObjectType, PropertyValue,
    Time, Weekday,
};
use libbacnet::enums::PropertyIdentifier;
use libbacnet::services::i_am::{decode_i_am_checked, Segmentation};
use libbacnet::services::read_property::{decode_response_checked, encode_request};
use libbacnet::services::read_property_multiple as rpm;
use libbacnet::services::{
    decode_context_object_id, decode_context_unsigned, encode_context_object_id,
    encode_context_unsigned, encode_closing_tag, encode_opening_tag, is_closing_tag,
    is_opening_tag,
};
use libbacnet::stack::addr::BacnetAddr;
use libbacnet::stack::invoke_id::InvokeIdPool;
use libbacnet::stack::segmentation::{split_into_fragments, RecvAction, RecvSegState, SEG_TIMEOUT_MS};
use libbacnet::stack::types::{BacnetEvent, BacnetService, Input, Output, StackConfig};
use libbacnet::stack::Stack;

fn peer() -> BacnetAddr {
    BacnetAddr::new([192, 168, 1, 20], 47808)
}

fn read_pv() -> BacnetService {
    BacnetService::ReadProperty {
        object_id: ObjectIdentifier::new(ObjectType::AnalogInput, 3),
        property_id: PropertyIdentifier::PresentValue,
        array_index: None,
    }
}

fn frame_apdu(apdu: &[u8]) -> Vec<u8> {
    let npdu_bytes = npdu::encode(&npdu::NpduEncodeParams {
        apdu,
        ..Default::default()
    });
    bvlc::encode(bvlc::BvlcFunction::OriginalUnicastNpdu, &npdu_bytes)
}

fn events(outputs: &[Output]) -> Vec<&BacnetEvent> {
    outputs
        .iter()
        .filter_map(|o| match o {
            Output::Event(e) => Some(e),
            _ => None,
        })
        .collect()
}

// ── context tags ────────────────────────────────────────────────────────────

#[test]
fn context_unsigned_reads_back_for_every_width() {
    for (value, width) in [(0u32, 1usize), (0xFF, 1), (0x100, 2), (0xFFFF, 2), (0x1_0000, 3), (0xFF_FFFF, 3), (0x100_0000, 4), (u32::MAX, 4)] {
        let mut buf = Vec::new();
        encode_context_unsigned(7, value, &mut buf);
        assert_eq!(buf.len(), 1 + width);
        assert_eq!(buf[0], 0x78 | width as u8);
        buf.push(0xEE);
        assert_eq!(decode_context_unsigned(&buf, 7), Ok((value, 1 + width)));
    }
}

#[test]
fn context_object_id_reads_back() {
    let mut buf = Vec::new();
    encode_context_object_id(1, 0x0200_0005, &mut buf);
    assert_eq!(buf, [0x1C, 0x02, 0x00, 0x00, 0x05]);
    assert_eq!(decode_context_object_id(&buf, 1), Ok((0x0200_0005, 5)));
}

#[test]
fn context_decoders_report_each_error() {
    assert_eq!(decode_context_unsigned(&[], 0), Err(DecodeError::IncompleteData));
    assert_eq!(decode_context_unsigned(&[0x21, 0x05], 0), Err(DecodeError::InvalidContextTag));
    assert_eq!(decode_context_unsigned(&[0x0A, 0x05], 0), Err(DecodeError::IncompleteData));
    assert_eq!(decode_context_object_id(&[0x0B, 1, 2, 3], 0), Err(DecodeError::InvalidContextTag));
    assert_eq!(decode_context_object_id(&[0x0C, 1, 2, 3], 0), Err(DecodeError::IncompleteData));
}

#[test]
fn opening_and_closing_tags_are_told_apart() {
    let mut buf = Vec::new();
    encode_opening_tag(3, &mut buf);
    encode_closing_tag(3, &mut buf);
    assert_eq!(buf, [0x3E, 0x3F]);
    assert!(is_opening_tag(&buf, 3));
    assert!(!is_closing_tag(&buf, 3));
    assert!(is_closing_tag(&buf[1..], 3));
    assert!(!is_opening_tag(&[], 3));
}

// ── services ────────────────────────────────────────────────────────────────

#[test]
fn read_property_response_with_several_values_is_an_array() {
    let mut data = Vec::new();
    encode_context_object_id(0, ObjectIdentifier::new(ObjectType::Device, 9).to_u32(), &mut data);
    encode_context_unsigned(1, 76, &mut data);
    data.extend_from_slice(&[0x3E, 0x21, 0x01, 0x21, 0x02, 0x3F]);
    let result = decode_response_checked(&data).unwrap().unwrap();
    assert_eq!(result.property_id, PropertyIdentifier::ObjectList);
    assert_eq!(
        result.value,
        PropertyValue::Array(vec![PropertyValue::Unsigned(1), PropertyValue::Unsigned(2)])
    );
}

#[test]
fn read_property_response_errors() {
    let mut data = Vec::new();
    encode_context_object_id(0, 5, &mut data);
    encode_context_unsigned(1, 85, &mut data);
    let mut missing_open = data.clone();
    missing_open.push(0x21);
    assert_eq!(
        decode_response_checked(&missing_open),
        Some(Err(DecodeError::InvalidContextTag))
    );
    let mut unterminated = data.clone();
    unterminated.extend_from_slice(&[0x3E, 0x21, 0x01]);
    assert_eq!(
        decode_response_checked(&unterminated),
        Some(Err(DecodeError::IncompleteData))
    );
}

#[test]
fn read_property_request_fields_read_back() {
    let oid = ObjectIdentifier::new(ObjectType::BinaryValue, 0x3F_FFFF);
    let buf = encode_request(&oid, PropertyIdentifier::Unknown(512), Some(70_000));
    let (raw, n) = decode_context_object_id(&buf, 0).unwrap();
    assert_eq!(ObjectIdentifier::from_u32(raw), oid);
    let (pid, m) = decode_context_unsigned(&buf[n..], 1).unwrap();
    assert_eq!(pid, 512);
    let (idx, k) = decode_context_unsigned(&buf[n + m..], 2).unwrap();
    assert_eq!(idx, 70_000);
    assert_eq!(n + m + k, buf.len());
}

#[test]
fn read_property_multiple_accepts_the_bare_form() {
    // A property result without the [2] wrapper: identifier as context 2,
    // array index as context 3.
    let mut data = Vec::new();
    encode_context_object_id(0, ObjectIdentifier::new(ObjectType::Device, 1).to_u32(), &mut data);
    encode_opening_tag(1, &mut data);
    encode_context_unsigned(2, 85, &mut data);
    encode_context_unsigned(3, 4, &mut data);
    data.extend_from_slice(&[0x4E, 0x91, 0x07, 0x4F]);
    encode_closing_tag(1, &mut data);
    let result = rpm::decode_response_checked(&data).unwrap().unwrap();
    assert_eq!(result.objects.len(), 1);
    let prop = &result.objects[0].properties[0];
    assert_eq!(prop.property_id, PropertyIdentifier::PresentValue);
    assert_eq!(prop.array_index, Some(4));
    assert_eq!(prop.value, Ok(PropertyValue::Enumerated(7)));
}

#[test]
fn read_property_multiple_reports_a_missing_value() {
    let mut data = Vec::new();
    encode_context_object_id(0, 8 << 22, &mut data);
    encode_opening_tag(1, &mut data);
    encode_opening_tag(2, &mut data);
    encode_context_unsigned(0, 85, &mut data);
    data.push(0x21);
    assert_eq!(
        rpm::decode_response_checked(&data),
        Some(Err(DecodeError::InvalidContextTag))
    );
    assert_eq!(rpm::decode_response_checked(&[]).unwrap().unwrap().objects.len(), 0);
}

#[test]
fn i_am_with_an_empty_signed_value_is_refused() {
    // An application-tagged Signed with a zero length cannot be decoded.
    assert_eq!(decode_i_am_checked(&[0x30, 0x00]), None);
    assert!(PropertyValue::decode_checked(&[0x30, 0x00]).is_none());
}

#[test]
fn i_am_field_of_the_wrong_kind_is_invalid() {
    let data = [0x21, 0x05, 0x21, 0x05, 0x91, 0x00, 0x21, 0x05];
    assert_eq!(decode_i_am_checked(&data), Some(Err(DecodeError::InvalidData)));
    assert_eq!(Segmentation::from_u32(9), Segmentation::NoSegmentation);
    assert_eq!(Segmentation::Receive.to_u8(), 2);
}

#[test]
fn character_strings_decode_lossily() {
    // Valid UTF-8 decodes exactly; an invalid octet becomes U+FFFD.
    let valid = [0x73, 0x00, 0xC3, 0xA9];
    let (v, n) = PropertyValue::decode(&valid).unwrap();
    assert_eq!(n, 4);
    assert_eq!(
        v,
        PropertyValue::CharacterString(CharacterString {
            encoding: CharacterEncoding::Utf8,
            value: "\u{e9}".to_string(),
        })
    );
    let invalid = [0x73, 0x00, 0x41, 0xFF];
    let (v, _) = PropertyValue::decode(&invalid).unwrap();
    assert_eq!(
        v,
        PropertyValue::CharacterString(CharacterString {
            encoding: CharacterEncoding::Utf8,
            value: "A\u{fffd}".to_string(),
        })
    );
}

#[test]
fn names_and_messages() {
    assert_eq!(ObjectType::Device.to_string(), "device");
    assert_eq!(ObjectType::Unknown(1000).to_string(), "unknown(1000)");
    assert_eq!(DecodeError::InvalidContextTag.to_string(), "invalid context tag");
    assert_eq!(
        BacnetAddr::new([255, 0, 10, 200], 1).to_string(),
        "255.0.10.200:1"
    );
}

// ── segmentation ────────────────────────────────────────────────────────────

#[test]
fn fragments_rejoin_to_the_data() {
    let data: Vec<u8> = (0u8..=200).collect();
    for size in [1usize, 3, 7, 50, 201, 500] {
        let pieces = split_into_fragments(&data, size);
        assert_eq!(pieces.len(), (data.len() + size - 1) / size);
        let joined: Vec<u8> = pieces.iter().flat_map(|p| p.iter().copied()).collect();
        assert_eq!(joined, data);
    }
    assert!(split_into_fragments(&[], 4).is_empty());
}

// ── invoke ids ──────────────────────────────────────────────────────────────

#[test]
fn allocation_wraps_around_from_the_hint() {
    let mut pool = InvokeIdPool::new();
    for expected in 0u8..=254 {
        assert_eq!(pool.allocate(), Some(expected));
    }
    pool.free(3);
    assert_eq!(pool.allocate(), Some(255));
    assert_eq!(pool.allocate(), Some(3));
    assert!(!pool.has_free());
    assert_eq!(pool.allocate(), None);
}

// ── stack ───────────────────────────────────────────────────────────────────

#[test]
fn sends_to_one_destination_get_distinct_invoke_ids() {
    let mut stack = Stack::new(StackConfig::default());
    for _ in 0..5 {
        stack.process(Input::Send { service: read_pv(), dest: peer() });
    }
    let ids: Vec<u8> = stack.in_flight_keys().iter().map(|k| k.1).collect();
    assert_eq!(ids, vec![0, 1, 2, 3, 4]);
    // Another destination has its own pool.
    let other = BacnetAddr::new([192, 168, 1, 21], 47808);
    stack.process(Input::Send { service: read_pv(), dest: other });
    assert_eq!(stack.in_flight_keys()[5], (other, 0));
}

#[test]
fn exhausted_pool_changes_nothing() {
    let mut stack = Stack::new(StackConfig::default());
    for _ in 0..256 {
        stack.process(Input::Send { service: read_pv(), dest: peer() });
    }
    let outputs = stack.process(Input::Send { service: read_pv(), dest: peer() });
    assert_eq!(outputs.len(), 1);
    match &outputs[0] {
        Output::Event(BacnetEvent::Error { invoke_id, message }) => {
            assert_eq!(*invoke_id, 0);
            assert_eq!(message, "invoke ID pool exhausted");
        }
        other => panic!("unexpected {:?}", other),
    }
    assert_eq!(stack.in_flight_len(), 256);
}

#[test]
fn unsegmented_send_frame_and_deadline() {
    let mut stack = Stack::new(StackConfig::default());
    let outputs = stack.process(Input::Send { service: read_pv(), dest: peer() });
    assert_eq!(outputs.len(), 2);
    match &outputs[0] {
        Output::Transmit { data, dest } => {
            assert_eq!(*dest, peer());
            let frame = bvlc::decode(data).unwrap();
            let npdu_frame = npdu::decode(frame.npdu).unwrap();
            assert!(npdu_frame.data_expecting_reply);
            // ConfirmedRequest, SA flag, max APDU 1476, invoke id 0, ReadProperty.
            assert_eq!(&npdu_frame.apdu[..4], &[0x02, 0x05, 0x00, 12]);
        }
        other => panic!("unexpected {:?}", other),
    }
    assert!(matches!(outputs[1], Output::Deadline(3000)));
}

#[test]
fn reply_messages_name_class_code_and_reason() {
    let mut stack = Stack::new(StackConfig::default());
    stack.process(Input::Send { service: read_pv(), dest: peer() });
    stack.process(Input::Send { service: read_pv(), dest: peer() });
    let outputs = stack.process(Input::Received {
        data: frame_apdu(&[0x50, 0x00, 12, 0x91, 0x02, 0x91, 0x1F]),
        src: peer(),
    });
    match events(&outputs)[0] {
        BacnetEvent::Error { invoke_id, message } => {
            assert_eq!(*invoke_id, 0);
            assert_eq!(message, "error class=2 code=31");
        }
        other => panic!("unexpected {:?}", other),
    }
    let outputs = stack.process(Input::Received {
        data: frame_apdu(&[0x60, 0x01, 0x03]),
        src: peer(),
    });
    match events(&outputs)[0] {
        BacnetEvent::Error { invoke_id, message } => {
            assert_eq!(*invoke_id, 1);
            assert_eq!(message, "reject reason=3");
        }
        other => panic!("unexpected {:?}", other),
    }
    assert_eq!(stack.in_flight_len(), 0);
}

#[test]
fn reply_from_another_address_leaves_the_request() {
    let mut stack = Stack::new(StackConfig::default());
    stack.process(Input::Send { service: read_pv(), dest: peer() });
    let stranger = BacnetAddr::new([10, 9, 8, 7], 47808);
    let outputs = stack.process(Input::Received {
        data: frame_apdu(&[0x20, 0x00, 12]),
        src: stranger,
    });
    assert_eq!(events(&outputs).len(), 1);
    assert_eq!(stack.in_flight_len(), 1);
}

#[test]
fn retries_then_timeout_with_deadlines() {
    let config = StackConfig {
        apdu_timeout_ms: 1000,
        apdu_retries: 1,
        ..Default::default()
    };
    let mut stack = Stack::new(config);
    stack.process(Input::Send { service: read_pv(), dest: peer() });
    let early = stack.process(Input::Tick { now: 999 });
    assert_eq!(early.len(), 1);
    assert!(matches!(early[0], Output::Deadline(1000)));
    let retry = stack.process(Input::Tick { now: 1500 });
    assert!(matches!(retry[0], Output::Transmit { .. }));
    assert!(matches!(retry[1], Output::Deadline(2500)));
    let done = stack.process(Input::Tick { now: 2500 });
    assert_eq!(done.len(), 1);
    assert!(matches!(done[0], Output::Event(BacnetEvent::Timeout { invoke_id: 0 })));
    assert_eq!(stack.in_flight_len(), 0);
    assert!(stack.process(Input::Tick { now: 10_000 }).is_empty());
}

#[test]
fn segmented_send_through_the_stack() {
    let config = StackConfig {
        max_apdu_length: 10,
        ..Default::default()
    };
    let mut stack = Stack::new(config);
    // 7 octets of service data with the 4-octet header exceed 10: segmented
    // in 4-octet pieces.
    let outputs = stack.process(Input::Send { service: read_pv(), dest: peer() });
    assert_eq!(outputs.len(), 3);
    assert!(matches!(outputs[0], Output::Transmit { .. }));
    assert!(matches!(outputs[1], Output::Transmit { .. }));
    assert!(matches!(outputs[2], Output::Deadline(2000)));
    // The window is resent after the segment timeout.
    let again = stack.process(Input::Tick { now: SEG_TIMEOUT_MS });
    assert_eq!(again.len(), 3);
    assert!(matches!(again[2], Output::Deadline(4000)));
    // Acknowledging the last segment completes the request.
    let done = stack.process(Input::Received {
        data: frame_apdu(&[0x41, 0x00, 0x01, 0x04]),
        src: peer(),
    });
    assert!(done.is_empty());
    assert_eq!(stack.in_flight_len(), 0);
}

#[test]
fn segmented_reply_is_reassembled_in_order() {
    let mut stack = Stack::new(StackConfig::default());
    stack.process(Input::Send { service: read_pv(), dest: peer() });
    let first = stack.process(Input::Received {
        data: frame_apdu(&[0x3C, 0x00, 0x00, 0x02, 12, 0xAA, 0xBB]),
        src: peer(),
    });
    assert!(first.is_empty());
    let last = stack.process(Input::Received {
        data: frame_apdu(&[0x38, 0x00, 0x01, 0x02, 12, 0xCC]),
        src: peer(),
    });
    assert_eq!(last.len(), 2);
    assert!(matches!(last[0], Output::Transmit { .. }));
    match &last[1] {
        Output::Event(BacnetEvent::Response { invoke_id, payload }) => {
            assert_eq!(*invoke_id, 0);
            assert_eq!(payload, &vec![0xAA, 0xBB, 0xCC]);
        }
        other => panic!("unexpected {:?}", other),
    }
    assert_eq!(stack.in_flight_len(), 0);
}

#[test]
fn silent_reassembly_is_aborted() {
    let mut stack = Stack::new(StackConfig::default());
    stack.process(Input::Received {
        data: frame_apdu(&[0x3C, 0x05, 0x00, 0x04, 12, 0x01]),
        src: peer(),
    });
    let outputs = stack.process(Input::Tick { now: SEG_TIMEOUT_MS });
    assert_eq!(outputs.len(), 1);
    assert!(matches!(
        outputs[0],
        Output::Event(BacnetEvent::Abort { invoke_id: 5, reason: 5 })
    ));
}

#[test]
fn malformed_datagrams_are_reported_as_errors() {
    let mut stack = Stack::new(StackConfig::default());
    stack.process(Input::Send { service: read_pv(), dest: peer() });
    // A BVLC length field below the header size.
    let outputs = stack.process(Input::Received { data: vec![0x81, 0x0A, 0x00, 0x02], src: peer() });
    assert_eq!(outputs.len(), 1);
    match &outputs[0] {
        Output::Event(BacnetEvent::Error { invoke_id, message }) => {
            assert_eq!(*invoke_id, 0);
            assert_eq!(message, "malformed datagram: invalid data");
        }
        other => panic!("unexpected {:?}", other),
    }
    // A first octet that is not the BACnet/IP type.
    let outputs = stack.process(Input::Received { data: vec![0x80, 0x0A, 0x00, 0x04], src: peer() });
    assert_eq!(outputs.len(), 1);
    assert!(matches!(&outputs[0], Output::Event(BacnetEvent::Error { invoke_id: 0, .. })));
    // Too short for a BVLC header.
    let outputs = stack.process(Input::Received { data: vec![0x81], src: peer() });
    match &outputs[0] {
        Output::Event(BacnetEvent::Error { message, .. }) => {
            assert_eq!(message, "malformed datagram: incomplete data")
        }
        other => panic!("unexpected {:?}", other),
    }
    // A reply APDU cut short.
    let outputs = stack.process(Input::Received { data: frame_apdu(&[0x71, 0x00]), src: peer() });
    assert_eq!(outputs.len(), 1);
    assert!(matches!(&outputs[0], Output::Event(BacnetEvent::Error { invoke_id: 0, .. })));
    // The outstanding request is untouched.
    assert_eq!(stack.in_flight_len(), 1);
}

#[test]
fn zero_window_segment_wraps_the_window_end() {
    let mut stack = Stack::new(StackConfig::default());
    // First segment, window 0: the window end wraps to usize::MAX, so no
    // SegmentACK is due yet.
    let outputs = stack.process(Input::Received {
        data: frame_apdu(&[0x3C, 0x00, 0x00, 0x00, 12, 0x01]),
        src: peer(),
    });
    assert!(outputs.is_empty());
    // The last segment closes the reassembly; its SegmentACK carries the
    // proposed window of 0.
    let outputs = stack.process(Input::Received {
        data: frame_apdu(&[0x38, 0x00, 0x01, 0x00, 12, 0x02]),
        src: peer(),
    });
    assert_eq!(outputs.len(), 2);
    match &outputs[0] {
        Output::Transmit { data, .. } => {
            assert_eq!(&data[data.len() - 4..], &[0x40, 0x00, 0x01, 0x00]);
        }
        other => panic!("unexpected {:?}", other),
    }
    match &outputs[1] {
        Output::Event(BacnetEvent::Response { payload, .. }) => assert_eq!(payload, &vec![0x01, 0x02]),
        other => panic!("unexpected {:?}", other),
    }
}

#[test]
fn zero_window_after_the_first_window_acknowledges_at_once() {
    let mut state = RecvSegState::new(2, 1 << 20, 0);
    let first = state.accept_fragment(0, true, 2, vec![1], peer(), 7, 0);
    assert!(matches!(first, RecvAction::Continue));
    let second = state.accept_fragment(1, true, 2, vec![2], peer(), 7, 0);
    assert!(matches!(second, RecvAction::SendSegAck(_)));
    // Window start is now 2; a window of 0 ends at 1, which 2 has passed.
    let third = state.accept_fragment(2, true, 0, vec![3], peer(), 7, 0);
    match third {
        RecvAction::SendSegAck(frame) => {
            assert_eq!(&frame[frame.len() - 4..], &[0x40, 0x07, 0x02, 0x00]);
        }
        other => panic!("unexpected {:?}", other),
    }
}

#[test]
fn unsendable_request_is_refused_with_an_error() {
    let mut tiny = Stack::new(StackConfig {
        max_apdu_length: 6,
        ..Default::default()
    });
    let outputs = tiny.process(Input::Send { service: read_pv(), dest: peer() });
    assert_eq!(outputs.len(), 1);
    assert!(matches!(&outputs[0], Output::Event(BacnetEvent::Error { invoke_id: 0, .. })));
    assert_eq!(tiny.in_flight_len(), 0);
    assert!(tiny.process(Input::Tick { now: 0 }).is_empty());
}

#[test]
fn pending_reassembly_sets_a_deadline() {
    let mut stack = Stack::new(StackConfig::default());
    stack.process(Input::Received {
        data: frame_apdu(&[0x3C, 0x05, 0x00, 0x04, 12, 0x01]),
        src: peer(),
    });
    let outputs = stack.process(Input::Tick { now: 1000 });
    assert_eq!(outputs.len(), 1);
    assert!(matches!(outputs[0], Output::Deadline(d) if d == SEG_TIMEOUT_MS));
}

#[test]
fn abort_ends_a_segmented_send() {
    let mut stack = Stack::new(StackConfig {
        max_apdu_length: 10,
        ..Default::default()
    });
    let first = stack.process(Input::Send { service: read_pv(), dest: peer() });
    let transmits = first.iter().filter(|o| matches!(o, Output::Transmit { .. })).count();
    assert_eq!(transmits, 2);
    assert!(matches!(first.last(), Some(Output::Deadline(d)) if *d == SEG_TIMEOUT_MS));
    let outputs = stack.process(Input::Received { data: frame_apdu(&[0x71, 0x00, 0x04]), src: peer() });
    assert!(matches!(
        &outputs[..],
        [Output::Event(BacnetEvent::Abort { invoke_id: 0, reason: 4 })]
    ));
    assert_eq!(stack.in_flight_len(), 0);
    // No window is ever resent for the aborted request.
    assert!(stack.process(Input::Tick { now: 10 * SEG_TIMEOUT_MS }).is_empty());
}

#[test]
fn reject_reports_its_reason() {
    let mut stack = Stack::new(StackConfig::default());
    stack.process(Input::Send { service: read_pv(), dest: peer() });
    let outputs = stack.process(Input::Received { data: frame_apdu(&[0x60, 0x00, 123]), src: peer() });
    match &outputs[..] {
        [Output::Event(BacnetEvent::Error { invoke_id: 0, message })] => {
            assert_eq!(message, "reject reason=123")
        }
        other => panic!("unexpected {:?}", other),
    }
    assert_eq!(stack.in_flight_len(), 0);
}

#[test]
fn unconfirmed_messages_are_reported() {
    let mut stack = Stack::new(StackConfig::default());
    let npdu_bytes = npdu::encode(&npdu::NpduEncodeParams {
        apdu: &[0x01, 0x00, 0x07],
        is_network_layer_message: true,
        ..Default::default()
    });
    let frame = bvlc::encode(bvlc::BvlcFunction::OriginalUnicastNpdu, &npdu_bytes);
    let outputs = stack.process(Input::Received { data: frame, src: peer() });
    match events(&outputs)[0] {
        BacnetEvent::UnconfirmedReceived { src, .. } => assert_eq!(*src, peer()),
        other => panic!("unexpected {:?}", other),
    }
    let who_is_reply = frame_apdu(&[0x10, 0x08]);
    assert!(stack
        .process(Input::Received { data: who_is_reply, src: peer() })
        .is_empty());
}

// ── application-tagged values as documented ─────────────────────────────────

fn encoded(v: &PropertyValue) -> Vec<u8> {
    let mut b = Vec::new();
    v.encode_tag_and_value(&mut b);
    b
}

#[test]
fn date_and_time_use_four_octet_forms() {
    let date = PropertyValue::Date(Date::new(2024, 4, 16, Some(Weekday::Tuesday)));
    assert_eq!(encoded(&date), vec![0xA4, 124, 4, 16, 1]);
    let time = PropertyValue::Time(Time::new(14, 30, 0, 0));
    assert_eq!(encoded(&time), vec![0xB4, 14, 30, 0, 0]);
    let unspecified = PropertyValue::Date(Date::new(2000, 1, 2, None));
    assert_eq!(encoded(&unspecified), vec![0xA4, 100, 1, 2, 0xFF]);
    let (back, n) = PropertyValue::decode(&encoded(&unspecified)).unwrap();
    assert_eq!(n, 5);
    assert_eq!(back, unspecified);
}

#[test]
fn long_values_use_extended_length() {
    let double = PropertyValue::Double(1.0f64.to_bits());
    assert_eq!(encoded(&double), vec![0x55, 0x08, 0x3F, 0xF0, 0, 0, 0, 0, 0, 0]);
    let octets = PropertyValue::OctetString(vec![1, 2, 3, 4, 5, 6]);
    assert_eq!(encoded(&octets), vec![0x65, 0x06, 1, 2, 3, 4, 5, 6]);
    let text = PropertyValue::CharacterString(CharacterString {
        encoding: CharacterEncoding::Utf8,
        value: "Hello".to_string(),
    });
    assert_eq!(encoded(&text), vec![0x75, 0x06, 0x00, b'H', b'e', b'l', b'l', b'o']);
    let long = PropertyValue::OctetString(vec![7; 300]);
    let e = encoded(&long);
    assert_eq!(&e[..4], &[0x65, 254, 0x01, 0x2C]);
    assert_eq!(e.len(), 304);
    for v in [double, octets, text, long] {
        let e = encoded(&v);
        let (back, n) = PropertyValue::decode(&e).unwrap();
        assert_eq!(n, e.len());
        assert_eq!(back, v);
    }
}

#[test]
fn array_is_wrapped_in_tag_three() {
    let arr = PropertyValue::Array(vec![PropertyValue::Unsigned(1), PropertyValue::Unsigned(2)]);
    assert_eq!(encoded(&arr), vec![0x3E, 0x21, 0x01, 0x21, 0x02, 0x3F]);
}

#[test]
fn reserved_length_codes_are_refused() {
    assert_eq!(PropertyValue::decode(&[0x26, 0x00]), Err(DecodeError::InvalidData));
    assert_eq!(PropertyValue::decode(&[0x65, 0x03, 0x01]), Err(DecodeError::IncompleteData));
    assert_eq!(PropertyValue::decode(&[0x55, 0x04, 0, 0, 0, 0]), Err(DecodeError::InvalidData));
}
