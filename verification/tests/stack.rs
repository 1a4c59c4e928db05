use libbacnet::codec::bvlc::{self, BvlcFunction};
use libbacnet::codec::npdu;
use libbacnet::codec::types::{ObjectIdentifier, ObjectType};
use libbacnet::enums::PropertyIdentifier;
use libbacnet::stack::addr::BacnetAddr;
use libbacnet::stack::types::{
    BacnetEvent, BacnetService, Input, Output, StackConfig, UnconfirmedMessage,
};
use libbacnet::stack::Stack;

fn default_stack() -> Stack {
    Stack::new(StackConfig::default())
}

fn dest() -> BacnetAddr {
    BacnetAddr::new([192, 168, 1, 1], 47808)
}

fn read_property_service() -> BacnetService {
    BacnetService::ReadProperty {
        object_id: ObjectIdentifier::new(ObjectType::Device, 1),
        property_id: PropertyIdentifier::PresentValue,
        array_index: None,
    }
}

/// Helper: wrap APDU bytes in NPDU + BVLC to simulate a received frame.
fn make_received_frame(apdu: &[u8]) -> Vec<u8> {
    let npdu_bytes = npdu::encode(&npdu::NpduEncodeParams {
        apdu,
        ..Default::default()
    });
    bvlc::encode(BvlcFunction::OriginalUnicastNpdu, &npdu_bytes)
}

// ── Send ────────────────────────────────────────────────────────────────

#[test]
fn test_send_returns_transmit_and_deadline() {
    let mut stack = default_stack();
    let outputs = stack.process(Input::Send {
        service: read_property_service(),
        dest: dest(),
    });
    let has_transmit = outputs.iter().any(|o| matches!(o, Output::Transmit { .. }));
    let has_deadline = outputs.iter().any(|o| matches!(o, Output::Deadline(_)));
    assert!(has_transmit, "expected Transmit output");
    assert!(has_deadline, "expected Deadline output");
}

#[test]
fn test_send_allocates_invoke_id() {
    let mut stack = default_stack();
    let _outputs = stack.process(Input::Send {
        service: read_property_service(),
        dest: dest(),
    });
    assert_eq!(stack.in_flight_len(), 1);
}

#[test]
fn test_send_256_exhausts_pool() {
    let mut stack = default_stack();
    // Fill all 256 invoke IDs.
    for _ in 0..256 {
        stack.process(Input::Send {
            service: read_property_service(),
            dest: dest(),
        });
    }
    // 257th should return an Error event.
    let outputs = stack.process(Input::Send {
        service: read_property_service(),
        dest: dest(),
    });
    let has_error = outputs
        .iter()
        .any(|o| matches!(o, Output::Event(BacnetEvent::Error { .. })));
    assert!(has_error, "expected InvokeIdExhausted error");
}

// ── Tick / retry ────────────────────────────────────────────────────────

#[test]
fn test_tick_before_timeout_returns_deadline() {
    let mut stack = default_stack();
    stack.process(Input::Send {
        service: read_property_service(),
        dest: dest(),
    });
    // Tick just before the timeout — should not retransmit.
    let outputs = stack.process(Input::Tick {
        now: stack.config().apdu_timeout_ms / 2,
    });
    let has_transmit = outputs.iter().any(|o| matches!(o, Output::Transmit { .. }));
    assert!(!has_transmit, "should not retransmit before timeout");
    let has_deadline = outputs.iter().any(|o| matches!(o, Output::Deadline(_)));
    assert!(has_deadline);
}

#[test]
fn test_tick_at_timeout_retransmits() {
    let config = StackConfig {
        apdu_timeout_ms: 3000,
        apdu_retries: 2,
        ..Default::default()
    };
    let mut stack = Stack::new(config);
    stack.process(Input::Send {
        service: read_property_service(),
        dest: dest(),
    });
    // First retry at t=3.0.
    let outputs = stack.process(Input::Tick { now: 3000 });
    let has_transmit = outputs.iter().any(|o| matches!(o, Output::Transmit { .. }));
    assert!(has_transmit, "expected retransmit on first timeout");
    assert_eq!(stack.in_flight_len(), 1); // still in flight
}

#[test]
fn test_tick_exhausts_retries_emits_timeout_event() {
    let config = StackConfig {
        apdu_timeout_ms: 3000,
        apdu_retries: 2,
        ..Default::default()
    };
    let mut stack = Stack::new(config);
    stack.process(Input::Send {
        service: read_property_service(),
        dest: dest(),
    });
    // Trigger 3 ticks to exhaust 2 retries (retry 0→1 at t=3, retry 1→2 at t=6,
    // timeout at t=9 where retry_count(2) >= apdu_retries(2)).
    stack.process(Input::Tick { now: 3000 }); // retry 1
    stack.process(Input::Tick { now: 6000 }); // retry 2
    let outputs = stack.process(Input::Tick { now: 9000 }); // exhausted
    let has_timeout = outputs
        .iter()
        .any(|o| matches!(o, Output::Event(BacnetEvent::Timeout { .. })));
    assert!(
        has_timeout,
        "expected Timeout event after retries exhausted"
    );
    assert_eq!(
        stack.in_flight_len(),
        0,
        "slot should be freed after timeout"
    );
}

// ── Received / response matching ────────────────────────────────────────

#[test]
fn test_received_complex_ack_emits_response() {
    let mut stack = default_stack();
    let _outputs = stack.process(Input::Send {
        service: read_property_service(),
        dest: dest(),
    });
    // Extract the invoke_id from the in-flight map (should be 0).
    let invoke_id = stack.in_flight_keys()[0].1;

    // Build a ComplexACK: [0x30, invoke_id, service_choice=12, data...]
    let apdu = vec![0x30u8, invoke_id, 12, 0xDE, 0xAD];
    let frame = make_received_frame(&apdu);

    let outputs = stack.process(Input::Received {
        data: frame,
        src: dest(),
    });
    let has_response = outputs
        .iter()
        .any(|o| matches!(o, Output::Event(BacnetEvent::Response { .. })));
    assert!(has_response, "expected Response event on ComplexACK");
    assert_eq!(stack.in_flight_len(), 0, "slot should be freed on response");
}

#[test]
fn test_received_simple_ack_emits_response() {
    let mut stack = default_stack();
    stack.process(Input::Send {
        service: read_property_service(),
        dest: dest(),
    });
    let invoke_id = stack.in_flight_keys()[0].1;

    let apdu = vec![0x20u8, invoke_id, 15]; // SimpleACK, service 15
    let frame = make_received_frame(&apdu);
    let outputs = stack.process(Input::Received {
        data: frame,
        src: dest(),
    });
    assert!(outputs
        .iter()
        .any(|o| matches!(o, Output::Event(BacnetEvent::Response { .. }))));
    assert_eq!(stack.in_flight_len(), 0);
}

#[test]
fn test_received_error_apdu_emits_error_event() {
    let mut stack = default_stack();
    stack.process(Input::Send {
        service: read_property_service(),
        dest: dest(),
    });
    let invoke_id = stack.in_flight_keys()[0].1;

    // Error APDU: [0x50, invoke_id, svc=12, class Enum, code Enum]
    let apdu = vec![0x50u8, invoke_id, 12, 0x91, 0x02, 0x91, 0x1F];
    let frame = make_received_frame(&apdu);
    let outputs = stack.process(Input::Received {
        data: frame,
        src: dest(),
    });
    assert!(outputs
        .iter()
        .any(|o| matches!(o, Output::Event(BacnetEvent::Error { .. }))));
    assert_eq!(stack.in_flight_len(), 0);
}

#[test]
fn test_received_abort_emits_abort_event() {
    let mut stack = default_stack();
    stack.process(Input::Send {
        service: read_property_service(),
        dest: dest(),
    });
    let invoke_id = stack.in_flight_keys()[0].1;

    let apdu = vec![0x71u8, invoke_id, 0x04]; // Abort from server, reason 4
    let frame = make_received_frame(&apdu);
    let outputs = stack.process(Input::Received {
        data: frame,
        src: dest(),
    });
    assert!(outputs
        .iter()
        .any(|o| matches!(o, Output::Event(BacnetEvent::Abort { .. }))));
    assert_eq!(stack.in_flight_len(), 0);
}

#[test]
fn test_invoke_id_reused_after_response() {
    let mut stack = default_stack();
    // Send and immediately respond to free invoke_id=0.
    stack.process(Input::Send {
        service: read_property_service(),
        dest: dest(),
    });
    let invoke_id = stack.in_flight_keys()[0].1;
    let ack = make_received_frame(&[0x30, invoke_id, 12]);
    stack.process(Input::Received {
        data: ack,
        src: dest(),
    });

    // After freeing, the pool hint advances; fill until 0 is reused.
    // Allocate a second request — it must succeed (pool not empty).
    let outputs = stack.process(Input::Send {
        service: read_property_service(),
        dest: dest(),
    });
    let has_transmit = outputs.iter().any(|o| matches!(o, Output::Transmit { .. }));
    assert!(
        has_transmit,
        "should successfully send after invoke ID freed"
    );
    assert_eq!(stack.in_flight_len(), 1);
}

#[test]
fn test_received_i_am_emits_unconfirmed_event() {
    let mut stack = default_stack();
    // Build I-Am unconfirmed APDU:
    // PDU type 1 (unconfirmed) << 4 = 0x10 | 0 = 0x10
    // service choice = 0 (I-Am)
    // device-id: ObjectIdentifier app tag, Device,1234
    let oid = ObjectIdentifier::new(ObjectType::Device, 1234).to_u32();
    let mut apdu = vec![0x10u8, 0x00]; // UnconfirmedRequest, I-Am
    apdu.push(0xC4);
    apdu.extend_from_slice(&oid.to_be_bytes()); // OID
    apdu.push(0x22);
    apdu.push(0x05);
    apdu.push(0xC4); // max-apdu = 1476
    apdu.push(0x91);
    apdu.push(0x00); // segmentation = Both
    apdu.push(0x21);
    apdu.push(0x0F); // vendor-id = 15
    let frame = make_received_frame(&apdu);
    let outputs = stack.process(Input::Received {
        data: frame,
        src: dest(),
    });
    assert!(outputs.iter().any(|o| matches!(
        o,
        Output::Event(BacnetEvent::UnconfirmedReceived {
            message: UnconfirmedMessage::IAm { .. },
            ..
        })
    )));
}
