//! What goes into the stack and what comes out of it.
use vstd::prelude::*;

use crate::codec::types::{object_id_value, pv_encodable, pv_encoding, ObjectIdentifier, PropertyValue};
use crate::enums::{property_code, PropertyIdentifier};
use crate::services::read_property::read_property_request_bytes;
use crate::services::read_property_multiple::{access_specs_bytes, ReadAccessSpec};
use crate::services::write_property::write_property_request_bytes;
use crate::stack::addr::BacnetAddr;

verus! {

/// An event the host drives into the stack.
#[derive(Debug)]
pub enum Input {
    /// A UDP datagram arrived.
    Received { data: Vec<u8>, src: BacnetAddr },
    /// The host's timer fired; `now` is in milliseconds from any fixed
    /// origin.
    Tick { now: u64 },
    /// The application sends a confirmed request.
    Send { service: BacnetService, dest: BacnetAddr },
}

/// Something the host must act on.
#[derive(Debug)]
pub enum Output {
    /// Send these bytes to `dest` over UDP.
    Transmit { data: Vec<u8>, dest: BacnetAddr },
    /// Deliver an event to the application.
    Event(BacnetEvent),
    /// Call `Tick` no later than this time (milliseconds, same origin).
    Deadline(u64),
}

/// What the application learns.
#[derive(Debug)]
pub enum BacnetEvent {
    /// A confirmed request's reply, reassembled if it came in segments.
    Response { invoke_id: u8, payload: Vec<u8> },
    /// No reply within the retries.
    Timeout { invoke_id: u8 },
    /// The peer aborted.
    Abort { invoke_id: u8, reason: u8 },
    /// The peer answered with an error or a reject, or the request could
    /// not be sent.
    Error { invoke_id: u8, message: String },
    /// An unconfirmed message arrived.
    UnconfirmedReceived { src: BacnetAddr, message: UnconfirmedMessage },
}

/// The unconfirmed messages the stack reports.
#[derive(Debug)]
pub enum UnconfirmedMessage {
    IAm {
        device_id: ObjectIdentifier,
        max_apdu: u32,
        /// Segmentation support as its I-Am code (0 both, 1 transmit, 2
        /// receive, 3 none).
        segmentation: u8,
        vendor_id: u32,
    },
    IAmRouterToNetwork { networks: Vec<u16> },
}

/// The content of an `UnconfirmedMessage`.
pub enum UnconfirmedView {
    IAm { device_id: ObjectIdentifier, max_apdu: u32, segmentation: u8, vendor_id: u32 },
    IAmRouterToNetwork { networks: Seq<u16> },
}

/// The content of a `BacnetEvent`.
pub enum EventView {
    Response { invoke_id: u8, payload: Seq<u8> },
    Timeout { invoke_id: u8 },
    Abort { invoke_id: u8, reason: u8 },
    Error { invoke_id: u8, message: Seq<char> },
    UnconfirmedReceived { src: BacnetAddr, message: UnconfirmedView },
}

/// The content of an `Output`.
pub enum OutputView {
    Transmit { data: Seq<u8>, dest: BacnetAddr },
    Event(EventView),
    Deadline(u64),
}

impl View for UnconfirmedMessage {
    type V = UnconfirmedView;

    open spec fn view(&self) -> UnconfirmedView {
        match self {
            UnconfirmedMessage::IAm { device_id, max_apdu, segmentation, vendor_id } => UnconfirmedView::IAm {
                device_id: *device_id,
                max_apdu: *max_apdu,
                segmentation: *segmentation,
                vendor_id: *vendor_id,
            },
            UnconfirmedMessage::IAmRouterToNetwork { networks } => UnconfirmedView::IAmRouterToNetwork {
                networks: networks@,
            },
        }
    }
}

impl View for BacnetEvent {
    type V = EventView;

    open spec fn view(&self) -> EventView {
        match self {
            BacnetEvent::Response { invoke_id, payload } => EventView::Response {
                invoke_id: *invoke_id,
                payload: payload@,
            },
            BacnetEvent::Timeout { invoke_id } => EventView::Timeout { invoke_id: *invoke_id },
            BacnetEvent::Abort { invoke_id, reason } => EventView::Abort {
                invoke_id: *invoke_id,
                reason: *reason,
            },
            BacnetEvent::Error { invoke_id, message } => EventView::Error {
                invoke_id: *invoke_id,
                message: message@,
            },
            BacnetEvent::UnconfirmedReceived { src, message } => EventView::UnconfirmedReceived {
                src: *src,
                message: message@,
            },
        }
    }
}

impl View for Output {
    type V = OutputView;

    open spec fn view(&self) -> OutputView {
        match self {
            Output::Transmit { data, dest } => OutputView::Transmit { data: data@, dest: *dest },
            Output::Event(e) => OutputView::Event(e@),
            Output::Deadline(t) => OutputView::Deadline(*t),
        }
    }
}

/// The views of a list of outputs.
pub open spec fn outputs_view(outputs: Seq<Output>) -> Seq<OutputView> {
    outputs.map_values(|o: Output| o@)
}

/// A confirmed request the stack can send.
#[derive(Debug)]
pub enum BacnetService {
    ReadProperty {
        object_id: ObjectIdentifier,
        property_id: PropertyIdentifier,
        array_index: Option<u32>,
    },
    ReadPropertyMultiple { specs: Vec<ReadAccessSpec> },
    WriteProperty {
        object_id: ObjectIdentifier,
        property_id: PropertyIdentifier,
        value: PropertyValue,
        array_index: Option<u32>,
        priority: Option<u8>,
    },
}

/// The service choice of each request.
pub open spec fn service_choice_of(s: BacnetService) -> u8 {
    match s {
        BacnetService::ReadProperty { .. } => crate::services::read_property::SERVICE_CHOICE,
        BacnetService::ReadPropertyMultiple { .. } => crate::services::read_property_multiple::SERVICE_CHOICE,
        BacnetService::WriteProperty { .. } => crate::services::write_property::SERVICE_CHOICE,
    }
}

/// A request can be encoded unless it writes a value that cannot be (see
/// `pv_encodable`).
pub open spec fn service_encodable(s: BacnetService) -> bool {
    match s {
        BacnetService::WriteProperty { value, .. } => pv_encodable(value@),
        _ => true,
    }
}

/// The service data of each request.
pub open spec fn service_request_bytes(s: BacnetService) -> Seq<u8> {
    match s {
        BacnetService::ReadProperty { object_id, property_id, array_index } => read_property_request_bytes(
            object_id,
            property_id,
            array_index,
        ),
        BacnetService::ReadPropertyMultiple { specs } => access_specs_bytes(specs@),
        BacnetService::WriteProperty { object_id, property_id, value, array_index, priority } =>
            write_property_request_bytes(object_id, property_id, pv_encoding(value@), array_index, priority),
    }
}

impl BacnetService {
    /// The service choice octet of this request.
    pub fn choice(&self) -> (r: u8)
        ensures
            r == service_choice_of(*self),
    {
        match self {
            BacnetService::ReadProperty { .. } => crate::services::read_property::SERVICE_CHOICE,
            BacnetService::ReadPropertyMultiple { .. } => {
                crate::services::read_property_multiple::SERVICE_CHOICE
            },
            BacnetService::WriteProperty { .. } => crate::services::write_property::SERVICE_CHOICE,
        }
    }

    /// The service data of this request (what follows the APDU header).
    pub fn encode(&self) -> (r: Vec<u8>)
        requires
            service_encodable(*self),
        ensures
            r@ == service_request_bytes(*self),
    {
        match self {
            BacnetService::ReadProperty { object_id, property_id, array_index } => {
                crate::services::read_property::encode_request(object_id, *property_id, *array_index)
            },
            BacnetService::ReadPropertyMultiple { specs } => {
                crate::services::read_property_multiple::encode_request(specs.as_slice())
            },
            BacnetService::WriteProperty { object_id, property_id, value, array_index, priority } => {
                crate::services::write_property::encode_request(
                    object_id,
                    *property_id,
                    value,
                    *array_index,
                    *priority,
                )
            },
        }
    }

    /// Whether `encode` accepts this request (see `service_encodable`).
    pub fn is_encodable(&self) -> (r: bool)
        ensures
            r == service_encodable(*self),
    {
        match self {
            BacnetService::WriteProperty { value, .. } => value.is_encodable(),
            _ => true,
        }
    }
}

/// Settings of a `Stack`.
#[derive(Debug, Clone, Copy, PartialEq, Eq, Structural)]
pub struct StackConfig {
    /// Wait before resending a confirmed request (milliseconds).
    pub apdu_timeout_ms: u64,
    /// Resends before giving up.
    pub apdu_retries: u8,
    /// Largest APDU sent unsegmented.
    pub max_apdu_length: usize,
    /// Most octets a segmented reply may take.
    pub max_segment_buffer: usize,
}

impl Default for StackConfig {
    fn default() -> (r: Self)
        ensures
            r == (StackConfig {
                apdu_timeout_ms: 3000,
                apdu_retries: 3,
                max_apdu_length: 1476,
                max_segment_buffer: 0x20_0000,
            }),
    {
        StackConfig {
            apdu_timeout_ms: 3000,
            apdu_retries: 3,
            max_apdu_length: 1476,
            max_segment_buffer: 2 * 1024 * 1024,
        }
    }
}

} // verus!
