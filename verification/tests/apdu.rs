use libbacnet::codec::apdu::{
    decode_abort, decode_complex_ack, decode_error_apdu, decode_reject, decode_segment_ack,
    decode_simple_ack, encode_confirmed_request, encode_segment_ack, ConfirmedRequestParams,
    MaxApduLength, MaxSegments, SegmentAck, SegmentationHeader, PDU_TYPE_CONFIRMED_REQUEST,
};
use libbacnet::codec::types::DecodeError;


// ── ConfirmedRequest ────────────────────────────────────────────────────

#[test]
fn test_confirmed_request_unsegmented() {
    let service_data = [0x0C, 0x00, 0x00, 0x00, 0x05, 0x19, 0x55];
    let params = ConfirmedRequestParams {
        segmented_response_accepted: true,
        max_segments: MaxSegments::Unspecified,
        max_apdu_length: MaxApduLength::Up1476,
        invoke_id: 1,
        segmentation: None,
        service_choice: 12, // ReadProperty
        service_data: &service_data,
    };
    let apdu = encode_confirmed_request(&params);
    // byte0: PDU_TYPE(0)<<4 | SA(0x02) = 0x02
    assert_eq!(apdu[0], 0x02);
    // byte1: max_segments(0<<4) | max_apdu(5) = 0x05
    assert_eq!(apdu[1], 0x05);
    // invoke id
    assert_eq!(apdu[2], 0x01);
    // service choice = 12
    assert_eq!(apdu[3], 12);
    // service data
    assert_eq!(&apdu[4..], &service_data);
}

#[test]
fn test_confirmed_request_segmented() {
    let params = ConfirmedRequestParams {
        segmented_response_accepted: false,
        max_segments: MaxSegments::Unspecified,
        max_apdu_length: MaxApduLength::Up1476,
        invoke_id: 3,
        segmentation: Some(SegmentationHeader {
            sequence_number: 0,
            proposed_window_size: 4,
            more_follows: true,
        }),
        service_choice: 14, // ReadPropertyMultiple
        service_data: &[0xAA],
    };
    let apdu = encode_confirmed_request(&params);
    // byte0: SEG(0x08) | MOR(0x04) = 0x0C
    assert_eq!(apdu[0], 0x0C);
    assert_eq!(apdu[2], 3); // invoke id
    assert_eq!(apdu[3], 0); // sequence number
    assert_eq!(apdu[4], 4); // window size
    assert_eq!(apdu[5], 14); // service choice
    assert_eq!(apdu[6], 0xAA);
}

#[test]
fn test_confirmed_request_wrong_pdu_type_not_decoded() {
    // encode then check the PDU type nibble is 0
    let apdu = encode_confirmed_request(&ConfirmedRequestParams {
        segmented_response_accepted: false,
        max_segments: MaxSegments::Unspecified,
        max_apdu_length: MaxApduLength::Up50,
        invoke_id: 0,
        segmentation: None,
        service_choice: 12,
        service_data: &[],
    });
    assert_eq!(apdu[0] >> 4, PDU_TYPE_CONFIRMED_REQUEST);
}

// ── ComplexACK ──────────────────────────────────────────────────────────

#[test]
fn test_complex_ack_unsegmented() {
    // [0] 0x30  [1] invoke=5  [2] service=12  [3..] data
    let data = [0x30, 0x05, 0x0C, 0xDE, 0xAD];
    let ack = decode_complex_ack(&data).unwrap();
    assert_eq!(ack.invoke_id, 5);
    assert_eq!(ack.service_ack_choice, 12);
    assert!(ack.segmentation.is_none());
    assert_eq!(ack.service_data, &[0xDE, 0xAD]);
}

#[test]
fn test_complex_ack_segmented() {
    // [0] 0x38 (SEG set)  [1] invoke=2  [2] seq=0  [3] win=4  [4] svc=12  [5..] data
    let data = [0x38, 0x02, 0x00, 0x04, 0x0C, 0xFF];
    let ack = decode_complex_ack(&data).unwrap();
    assert_eq!(ack.invoke_id, 2);
    assert_eq!(ack.service_ack_choice, 12);
    let seg = ack.segmentation.unwrap();
    assert_eq!(seg.sequence_number, 0);
    assert_eq!(seg.proposed_window_size, 4);
    assert!(!seg.more_follows);
    assert_eq!(ack.service_data, &[0xFF]);
}

#[test]
fn test_complex_ack_wrong_type() {
    let data = [0x20, 0x01, 0x0C];
    assert_eq!(
        decode_complex_ack(&data).unwrap_err(),
        DecodeError::InvalidData
    );
}

#[test]
fn test_complex_ack_truncated() {
    let data = [0x30, 0x01];
    assert_eq!(
        decode_complex_ack(&data).unwrap_err(),
        DecodeError::IncompleteData
    );
}

// ── SimpleACK ───────────────────────────────────────────────────────────

#[test]
fn test_simple_ack() {
    // [0] 0x20  [1] invoke=7  [2] service=15
    let data = [0x20, 0x07, 0x0F];
    let ack = decode_simple_ack(&data).unwrap();
    assert_eq!(ack.invoke_id, 7);
    assert_eq!(ack.service_ack_choice, 15);
}

#[test]
fn test_simple_ack_wrong_type() {
    let data = [0x30, 0x01, 0x0C];
    assert_eq!(
        decode_simple_ack(&data).unwrap_err(),
        DecodeError::InvalidData
    );
}

#[test]
fn test_simple_ack_truncated() {
    assert_eq!(
        decode_simple_ack(&[0x20]).unwrap_err(),
        DecodeError::IncompleteData
    );
}

// ── SegmentACK ──────────────────────────────────────────────────────────

#[test]
fn test_segment_ack_roundtrip() {
    let ack = SegmentAck {
        negative_ack: false,
        server: true,
        invoke_id: 4,
        sequence_number: 2,
        actual_window_size: 8,
    };
    let encoded = encode_segment_ack(&ack);
    // byte0: 0x40 | SRV(0x01) = 0x41
    assert_eq!(encoded[0], 0x41);
    let decoded = decode_segment_ack(&encoded).unwrap();
    assert_eq!(decoded, ack);
}

#[test]
fn test_segment_ack_negative() {
    let ack = SegmentAck {
        negative_ack: true,
        server: false,
        invoke_id: 1,
        sequence_number: 0,
        actual_window_size: 4,
    };
    let encoded = encode_segment_ack(&ack);
    // byte0: 0x40 | NAK(0x02) = 0x42
    assert_eq!(encoded[0], 0x42);
    let decoded = decode_segment_ack(&encoded).unwrap();
    assert_eq!(decoded, ack);
}

#[test]
fn test_segment_ack_wrong_type() {
    let data = [0x20, 0x01, 0x00, 0x04];
    assert_eq!(
        decode_segment_ack(&data).unwrap_err(),
        DecodeError::InvalidData
    );
}

// ── Error APDU ──────────────────────────────────────────────────────────

#[test]
fn test_error_apdu() {
    // [0] 0x50  [1] invoke=1  [2] svc=12
    // error-class: Enumerated tag=9, len=1, value=2 (Object)
    // error-code:  Enumerated tag=9, len=1, value=31 (unknown-object)
    let data = [0x50, 0x01, 0x0C, 0x91, 0x02, 0x91, 0x1F];
    let err = decode_error_apdu(&data).unwrap();
    assert_eq!(err.invoke_id, 1);
    assert_eq!(err.service_choice, 12);
    assert_eq!(err.error_class, 2);
    assert_eq!(err.error_code, 31);
}

#[test]
fn test_error_apdu_wrong_type() {
    let data = [0x20, 0x01, 0x0C, 0x91, 0x02, 0x91, 0x1F];
    assert_eq!(
        decode_error_apdu(&data).unwrap_err(),
        DecodeError::InvalidData
    );
}

#[test]
fn test_error_apdu_truncated() {
    assert_eq!(
        decode_error_apdu(&[0x50, 0x01]).unwrap_err(),
        DecodeError::IncompleteData
    );
}

// ── Abort APDU ──────────────────────────────────────────────────────────

#[test]
fn test_abort_apdu_server() {
    // [0] 0x71 (server flag)  [1] invoke=3  [2] reason=1
    let data = [0x71, 0x03, 0x01];
    let abort = decode_abort(&data).unwrap();
    assert!(abort.server);
    assert_eq!(abort.invoke_id, 3);
    assert_eq!(abort.abort_reason, 1);
}

#[test]
fn test_abort_apdu_client() {
    let data = [0x70, 0x05, 0x04];
    let abort = decode_abort(&data).unwrap();
    assert!(!abort.server);
    assert_eq!(abort.invoke_id, 5);
    assert_eq!(abort.abort_reason, 4);
}

#[test]
fn test_abort_apdu_wrong_type() {
    let data = [0x50, 0x01, 0x00];
    assert_eq!(decode_abort(&data).unwrap_err(), DecodeError::InvalidData);
}

// ── Reject APDU ─────────────────────────────────────────────────────────

#[test]
fn test_reject_apdu() {
    // [0] 0x60  [1] invoke=2  [2] reason=3
    let data = [0x60, 0x02, 0x03];
    let rej = decode_reject(&data).unwrap();
    assert_eq!(rej.invoke_id, 2);
    assert_eq!(rej.reject_reason, 3);
}

#[test]
fn test_reject_apdu_wrong_type() {
    let data = [0x70, 0x01, 0x00];
    assert_eq!(decode_reject(&data).unwrap_err(), DecodeError::InvalidData);
}

#[test]
fn test_reject_apdu_truncated() {
    assert_eq!(
        decode_reject(&[0x60]).unwrap_err(),
        DecodeError::IncompleteData
    );
}
