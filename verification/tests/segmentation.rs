use libbacnet::codec::apdu::decode_segment_ack;
use libbacnet::codec::bvlc;
use libbacnet::codec::npdu;
use libbacnet::stack::addr::BacnetAddr;
use libbacnet::stack::segmentation::{
    split_into_fragments, RecvAction, RecvSegState, SendSegState, SEG_TIMEOUT_MS,
};

fn dest() -> BacnetAddr {
    BacnetAddr::new([10, 0, 0, 1], 47808)
}

fn src() -> BacnetAddr {
    BacnetAddr::new([10, 0, 0, 2], 47808)
}

/// Decode a BVLC+NPDU frame and return the inner APDU bytes.
fn extract_apdu(frame: &[u8]) -> Vec<u8> {
    let bvlc = bvlc::decode(frame).unwrap();
    let npdu = npdu::decode(bvlc.npdu).unwrap();
    npdu.apdu.to_vec()
}

// ── split_into_fragments ─────────────────────────────────────────────────

#[test]
fn test_split_even() {
    let data: Vec<u8> = (0..8).collect();
    let frags = split_into_fragments(&data, 4);
    assert_eq!(frags.len(), 2);
    assert_eq!(frags[0], &[0, 1, 2, 3]);
    assert_eq!(frags[1], &[4, 5, 6, 7]);
}

#[test]
fn test_split_remainder() {
    let data: Vec<u8> = (0..10).collect();
    let frags = split_into_fragments(&data, 4);
    assert_eq!(frags.len(), 3);
    assert_eq!(frags[2], &[8, 9]);
}

// ── SendSegState ─────────────────────────────────────────────────────────

#[test]
fn test_send_first_window_fragment_count() {
    // 12 bytes, 4 bytes per fragment → 3 total fragments.
    // Window size = 4 → all 3 sent in first window.
    let data: Vec<u8> = (0u8..12).collect();
    let (state, frames) = SendSegState::new(data, 12, 0, dest(), 4, 0);
    assert_eq!(state.total_fragments, 3);
    assert_eq!(frames.len(), 3);
}

#[test]
fn test_send_first_window_limited_by_window_size() {
    // 20 bytes, 4 bytes/fragment → 5 fragments. Window=4 → 4 frames.
    let data: Vec<u8> = (0u8..20).collect();
    let (state, frames) = SendSegState::new(data, 12, 0, dest(), 4, 0);
    assert_eq!(state.total_fragments, 5);
    assert_eq!(frames.len(), 4); // DEFAULT_WINDOW_SIZE = 4
}

#[test]
fn test_send_more_follows_flag() {
    let data: Vec<u8> = (0u8..12).collect();
    let (_, frames) = SendSegState::new(data, 12, 0, dest(), 4, 0);
    // First two fragments have more_follows=true; last has more_follows=false.
    let apdu0 = extract_apdu(&frames[0]);
    let apdu2 = extract_apdu(&frames[2]);
    // SEG flag (0x08) set on all; MOR flag (0x04) set on first two only.
    assert_ne!(apdu0[0] & 0x04, 0, "first fragment should have MOR set");
    assert_eq!(apdu2[0] & 0x04, 0, "last fragment should not have MOR set");
}

#[test]
fn test_send_sequence_numbers() {
    let data: Vec<u8> = (0u8..12).collect();
    let (_, frames) = SendSegState::new(data, 12, 0, dest(), 4, 0);
    for (expected_seq, frame) in frames.iter().enumerate() {
        let apdu = extract_apdu(frame);
        // Segmented ConfirmedRequest: byte[3] = sequence number
        assert_eq!(apdu[3], expected_seq as u8);
    }
}

#[test]
fn test_handle_seg_ack_advances_window() {
    let data: Vec<u8> = (0u8..20).collect();
    let (mut state, _) = SendSegState::new(data, 12, 0, dest(), 4, 0);
    // ACK seq=3 (last of first window), window=4
    let frames = state.handle_seg_ack(3, 4, 1000).unwrap();
    assert_eq!(state.window_start, 4);
    assert_eq!(frames.len(), 1); // only 1 fragment left (seq 4)
}

#[test]
fn test_handle_seg_ack_complete_returns_none() {
    let data: Vec<u8> = (0u8..8).collect();
    let (mut state, _) = SendSegState::new(data, 12, 0, dest(), 4, 0);
    // Only 2 fragments total; ACK seq=1 → complete
    let result = state.handle_seg_ack(1, 4, 1000);
    assert!(
        result.is_none(),
        "should return None when all segments acked"
    );
}

#[test]
fn test_send_window_timeout() {
    let data: Vec<u8> = (0u8..20).collect();
    let (state, _) = SendSegState::new(data, 12, 0, dest(), 4, 0);
    assert!(!state.is_window_timed_out(1000));
    assert!(state.is_window_timed_out(SEG_TIMEOUT_MS + 10));
}

#[test]
fn test_retransmit_window() {
    let data: Vec<u8> = (0u8..20).collect();
    let (mut state, original) = SendSegState::new(data, 12, 0, dest(), 4, 0);
    let retransmitted = state.retransmit_window(5000);
    assert_eq!(retransmitted.len(), original.len());
    assert_eq!(state.window_sent_at, 5000);
}

// ── RecvSegState ─────────────────────────────────────────────────────────

/// Feed a sequence of 3 fragments into RecvSegState and check the result.
#[test]
fn test_recv_three_fragments_reassembly() {
    let mut state = RecvSegState::new(4, 1024 * 1024, 0);
    let invoke_id = 0u8;

    // Fragment 0 — not last of window, not last fragment
    let r0 = state.accept_fragment(0, true, 4, vec![0, 1, 2, 3], src(), invoke_id, 0);
    assert!(matches!(r0, RecvAction::Continue));

    // Fragment 1 — not last of window, not last fragment
    let r1 = state.accept_fragment(1, true, 4, vec![4, 5, 6, 7], src(), invoke_id, 0);
    assert!(matches!(r1, RecvAction::Continue));

    // Fragment 2 — last fragment (more_follows=false), which also ends the window
    let r2 = state.accept_fragment(2, false, 4, vec![8, 9], src(), invoke_id, 0);
    match r2 {
        RecvAction::Complete { payload, .. } => {
            assert_eq!(payload, vec![0, 1, 2, 3, 4, 5, 6, 7, 8, 9]);
        }
        other => panic!("expected Complete, got {:?}", other),
    }
}

#[test]
fn test_recv_seg_ack_at_window_boundary() {
    // Window size = 2; send 4 fragments across 2 windows.
    let mut state = RecvSegState::new(2, 1024 * 1024, 0);
    let invoke_id = 1u8;

    // Window 1: fragments 0 and 1
    let r0 = state.accept_fragment(0, true, 2, vec![0xAA], src(), invoke_id, 0);
    assert!(matches!(r0, RecvAction::Continue));
    let r1 = state.accept_fragment(1, true, 2, vec![0xBB], src(), invoke_id, 100);
    // seq=1 is end of window (window_start=0, window_size=2, window_end=1)
    let seg_ack_frame = match r1 {
        RecvAction::SendSegAck(f) => f,
        other => panic!("expected SendSegAck, got {:?}", other),
    };
    // Verify the SegACK frame decodes correctly
    let apdu = extract_apdu(&seg_ack_frame);
    let seg_ack = decode_segment_ack(&apdu).unwrap();
    assert_eq!(seg_ack.sequence_number, 1);
    assert_eq!(seg_ack.invoke_id, invoke_id);

    // Window 2: fragments 2 and 3 (last)
    let r2 = state.accept_fragment(2, true, 2, vec![0xCC], src(), invoke_id, 200);
    assert!(matches!(r2, RecvAction::Continue));
    let r3 = state.accept_fragment(3, false, 2, vec![0xDD], src(), invoke_id, 300);
    match r3 {
        RecvAction::Complete { payload, .. } => {
            assert_eq!(payload, vec![0xAA, 0xBB, 0xCC, 0xDD]);
        }
        other => panic!("expected Complete, got {:?}", other),
    }
}

#[test]
fn test_recv_timeout() {
    let state = RecvSegState::new(4, 1024 * 1024, 0);
    assert!(!state.is_timed_out(1000));
    assert!(state.is_timed_out(SEG_TIMEOUT_MS + 10));
}

#[test]
fn test_recv_buffer_overflow_aborts() {
    let mut state = RecvSegState::new(4, 10, 0); // 10-byte limit
                                                   // First fragment: 6 bytes — fine
    let r0 = state.accept_fragment(0, true, 4, vec![0u8; 6], src(), 0, 0);
    assert!(matches!(r0, RecvAction::Continue));
    // Second fragment: 6 bytes → total 12 > 10 → Abort
    let r1 = state.accept_fragment(1, true, 4, vec![0u8; 6], src(), 0, 0);
    assert!(matches!(r1, RecvAction::Abort(_)));
}
