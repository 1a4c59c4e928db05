//! The sans-IO client stack: a state machine from inputs to outputs.  It
//! never touches a socket or reads a clock; the host hands it datagrams,
//! timer ticks and requests, and acts on what it returns.
pub mod addr;
pub mod invoke_id;
pub mod laws;
pub mod segmentation;
pub mod slot;
pub mod table;
pub mod types;

use vstd::prelude::*;

use crate::codec::apdu::{
    confirmed_request_bytes, spec_abort, spec_complex_ack, spec_error_apdu, spec_reject,
    spec_segment_ack, spec_simple_ack, MaxApduLength, MaxSegments,
};
use crate::codec::bvlc::spec_bvlc_decode;
use crate::codec::npdu::spec_npdu_decode;
use crate::services::i_am::{
    segmentation_code, spec_decode_i_am, spec_decode_i_am_router, I_AM_SERVICE_CHOICE,
    MSG_I_AM_ROUTER_TO_NETWORK,
};
use crate::stack::addr::BacnetAddr;
use crate::stack::invoke_id::{empty_pool, next_free, InvokeIdPool, PoolView};
use crate::stack::segmentation::{
    recv_accept, send_wf, unicast_frame, window_frames, fragment_count,
    RecvActionView, RecvSegState, RecvView, SendSegState, SendView, ABORT_REASON_REASSEMBLY_TIMEOUT,
    DEFAULT_WINDOW_SIZE, SEG_TIMEOUT_MS,
};
use crate::stack::slot::{InFlightSlot, SlotView};
use crate::stack::table::{
    assign, entries_view, find_addr, find_key, has_key, keys_unique, lemma_assign, lemma_found,
    lemma_replace_at, lemma_unassign, lookup, put_entry, remove_entry, return_entry, take_entry,
    unassign,
};
use crate::stack::types::{
    outputs_view, service_choice_of, service_encodable, service_request_bytes, BacnetEvent,
    BacnetService, EventView, Input, Output, OutputView, StackConfig, UnconfirmedView,
};
use crate::text::{decimal, decimal_string, join, owned};
use crate::codec::apdu::{
    decode_abort, decode_complex_ack, decode_error_apdu, decode_reject, decode_segment_ack,
    decode_simple_ack,
};
use crate::codec::bvlc;
use crate::codec::npdu;
use crate::codec::wire::copy_range;
use crate::services::i_am::{decode_i_am_checked, decode_i_am_router_to_network};
use crate::stack::segmentation::RecvAction;
use crate::stack::table::lemma_assign_twice;
use crate::stack::types::UnconfirmedMessage;
use crate::codec::apdu::{encode_confirmed_request, ConfirmedRequestParams};
use crate::codec::types::{copy_bytes, decode_error_message, DecodeError};
use crate::stack::invoke_id::lemma_allocate_finds_free;
use crate::stack::segmentation::{encode_unicast_frame, frames_view};

verus! {

// ─────────────────────────────────────────────────────────────────────────
// The model
// ─────────────────────────────────────────────────────────────────────────

/// The content of a `Stack`.
pub struct StackView {
    pub config: StackConfig,
    /// Invoke-id pools by destination.
    pub pools: Seq<(BacnetAddr, PoolView)>,
    /// Outstanding confirmed requests by (destination, invoke id).
    pub in_flight: Seq<((BacnetAddr, u8), SlotView)>,
    /// Segmented requests being sent, by (destination, invoke id).
    pub send_seg: Seq<((BacnetAddr, u8), SendView)>,
    /// Segmented replies being reassembled, by (source, invoke id).
    pub recv_seg: Seq<((BacnetAddr, u8), RecvView)>,
}

/// What every state of the stack satisfies: no table repeats a key, every
/// segmented send is well formed, and every outstanding request holds its
/// invoke id in its destination's pool.
pub open spec fn stack_wf(s: StackView) -> bool {
    &&& keys_unique(s.pools)
    &&& keys_unique(s.in_flight)
    &&& keys_unique(s.send_seg)
    &&& keys_unique(s.recv_seg)
    &&& forall|k: (BacnetAddr, u8)| #[trigger] has_key(s.send_seg, k) ==> send_wf(lookup(s.send_seg, k)->0)
    &&& forall|k: (BacnetAddr, u8)| #[trigger] has_key(s.in_flight, k) ==> holds_invoke_id(s.pools, k)
}

/// The pool of `key.0` has `key.1` in use.
pub open spec fn holds_invoke_id(pools: Seq<(BacnetAddr, PoolView)>, key: (BacnetAddr, u8)) -> bool {
    lookup(pools, key.0) matches Some(p) && p.used.contains(key.1)
}

/// `a + b`, or `u64::MAX` when that does not fit.
pub open spec fn sat_add(a: u64, b: u64) -> u64 {
    if a + b > u64::MAX {
        u64::MAX
    } else {
        (a + b) as u64
    }
}

/// The earlier of a pending deadline and `d`.
pub open spec fn earliest(e: Option<u64>, d: u64) -> Option<u64> {
    match e {
        Some(x) => Some(if x <= d { x } else { d }),
        None => Some(d),
    }
}

/// A `Transmit` of each frame to `dest`, in order.
pub open spec fn transmit_all(frames: Seq<Seq<u8>>, dest: BacnetAddr) -> Seq<OutputView> {
    Seq::new(frames.len(), |i: int| OutputView::Transmit { data: frames[i], dest })
}

/// The pool of `dest`, or a fresh one.
pub open spec fn pool_for(s: StackView, dest: BacnetAddr) -> PoolView {
    match lookup(s.pools, dest) {
        Some(p) => p,
        None => empty_pool(),
    }
}

/// Ends request (`dest`, `invoke_id`): forgets its slot, any segmented
/// sending and any reassembly under that key, and returns its id to the
/// pool of `dest`, if there is one.
pub open spec fn free_slot_spec(s: StackView, dest: BacnetAddr, invoke_id: u8) -> StackView {
    StackView {
        in_flight: unassign(s.in_flight, (dest, invoke_id)),
        send_seg: unassign(s.send_seg, (dest, invoke_id)),
        recv_seg: unassign(s.recv_seg, (dest, invoke_id)),
        pools: match lookup(s.pools, dest) {
            Some(p) => assign(s.pools, dest, PoolView { used: p.used.remove(invoke_id), hint: p.hint }),
            None => s.pools,
        },
        ..s
    }
}

/// The message of the event a failed allocation gives.
pub open spec fn exhausted_message() -> Seq<char> {
    "invoke ID pool exhausted"@
}

/// The sending state of a segmented request, as first created.
pub open spec fn new_send_state(
    s: StackView,
    data: Seq<u8>,
    choice: u8,
    invoke_id: u8,
    dest: BacnetAddr,
) -> SendView {
    let frag = (s.config.max_apdu_length - 6) as usize;
    SendView {
        service_data: data,
        service_choice: choice,
        invoke_id,
        dest,
        fragment_size: frag,
        total_fragments: fragment_count(data.len(), frag as nat) as usize,
        window_start: 0,
        window_size: DEFAULT_WINDOW_SIZE,
        window_sent_at: 0,
    }
}

/// The frame of an unsegmented confirmed request.
pub open spec fn request_frame(invoke_id: u8, choice: u8, data: Seq<u8>) -> Seq<u8> {
    unicast_frame(
        confirmed_request_bytes(
            true,
            MaxSegments::Unspecified,
            MaxApduLength::Up1476,
            invoke_id,
            None,
            choice,
            data,
        ),
        true,
    )
}

/// The message of the event refusing a request that cannot be sent.
pub open spec fn rejected_message() -> Seq<char> {
    "request cannot be sent: it cannot be encoded or segmented within the maximum APDU length"@
}

/// Sending a confirmed request: an invoke id is taken from the pool of
/// `dest` (created if missing); with none free, the only output is an
/// `Error` event for id 0.  A request that cannot be sent (see
/// `send_rejected`) is refused with an `Error` event for id 0 and changes
/// nothing.  A request whose service data with the 4-octet
/// header exceeds the maximum APDU length goes out segmented: the first
/// window is transmitted, a placeholder slot (no frame, no retry time)
/// keeps the id, and the deadline is the segment timeout.  Otherwise the
/// frame is transmitted and kept for retries, due after the APDU timeout.
/// The clock reads 0 for a send.
pub open spec fn spec_send(s: StackView, service: BacnetService, dest: BacnetAddr) -> (StackView, Seq<OutputView>) {
    if send_rejected(s, service, dest) {
        (s, seq![OutputView::Event(EventView::Error { invoke_id: 0, message: rejected_message() })])
    } else {
        spec_send_accepted(s, service, dest)
    }
}

/// Sending a request that is not refused.
pub open spec fn spec_send_accepted(s: StackView, service: BacnetService, dest: BacnetAddr) -> (StackView, Seq<OutputView>) {
    let pools1 = if has_key(s.pools, dest) {
        s.pools
    } else {
        s.pools.push((dest, empty_pool()))
    };
    let pool = pool_for(s, dest);
    match next_free(pool.used, pool.hint, 0) {
        None => (
            StackView { pools: pools1, ..s },
            seq![OutputView::Event(EventView::Error { invoke_id: 0, message: exhausted_message() })],
        ),
        Some(id) => {
            let pools2 = assign(
                pools1,
                dest,
                PoolView { used: pool.used.insert(id), hint: ((id + 1) % 256) as u8 },
            );
            let choice = service_choice_of(service);
            let data = service_request_bytes(service);
            if 4 + data.len() > s.config.max_apdu_length {
                let seg = new_send_state(s, data, choice, id, dest);
                let slot = SlotView {
                    request_bytes: Seq::empty(),
                    dest,
                    sent_at: 0,
                    retry_count: 0,
                    next_retry_at: u64::MAX,
                };
                (
                    StackView {
                        pools: pools2,
                        send_seg: assign(s.send_seg, (dest, id), seg),
                        in_flight: assign(s.in_flight, (dest, id), slot),
                        ..s
                    },
                    transmit_all(window_frames(seg, 0, DEFAULT_WINDOW_SIZE as nat), dest).push(
                        OutputView::Deadline(SEG_TIMEOUT_MS),
                    ),
                )
            } else {
                let frame = request_frame(id, choice, data);
                let next = s.config.apdu_timeout_ms;
                let slot = SlotView {
                    request_bytes: frame,
                    dest,
                    sent_at: 0,
                    retry_count: 0,
                    next_retry_at: next,
                };
                (
                    StackView { pools: pools2, in_flight: assign(s.in_flight, (dest, id), slot), ..s },
                    seq![OutputView::Transmit { data: frame, dest }, OutputView::Deadline(next)],
                )
            }
        },
    }
}

/// The sends the stack refuses: an id is free, but the request cannot be
/// encoded, or it needs segmenting while the maximum APDU length leaves no
/// room for segment data (6 octets or fewer).
pub open spec fn send_rejected(s: StackView, service: BacnetService, dest: BacnetAddr) -> bool {
    let pool = pool_for(s, dest);
    next_free(pool.used, pool.hint, 0) is Some && (!service_encodable(service) || (4
        + service_request_bytes(service).len() > s.config.max_apdu_length
        && s.config.max_apdu_length <= 6))
}

/// The reassembly state of (`src`, `invoke_id`), or a fresh one.
pub open spec fn recv_state_for(
    s: StackView,
    src: BacnetAddr,
    invoke_id: u8,
    proposed_window_size: u8,
    now: u64,
) -> RecvView {
    match lookup(s.recv_seg, (src, invoke_id)) {
        Some(r) => r,
        None => RecvView {
            fragments: Seq::empty(),
            total_fragments: None,
            window_size: proposed_window_size,
            window_start: 0,
            last_activity: now,
            max_buffer: s.config.max_segment_buffer,
            bytes_accumulated: 0,
        },
    }
}

/// A fragment of a segmented reply: the reassembly state (created if
/// missing) takes it (see `recv_accept`).  A due SegmentACK goes to `src`;
/// on completion or abort the state is dropped and the request freed, and
/// the reply or the abort is reported.
pub open spec fn spec_recv_fragment(
    s: StackView,
    src: BacnetAddr,
    invoke_id: u8,
    sequence_number: u8,
    more_follows: bool,
    proposed_window_size: u8,
    data: Seq<u8>,
    now: u64,
) -> (StackView, Seq<OutputView>) {
    let key = (src, invoke_id);
    let st = recv_state_for(s, src, invoke_id, proposed_window_size, now);
    let (st2, action) = recv_accept(
        st,
        sequence_number,
        more_follows,
        proposed_window_size,
        data,
        invoke_id,
        now,
    );
    let kept = StackView { recv_seg: assign(s.recv_seg, key, st2), ..s };
    let dropped = StackView { recv_seg: unassign(assign(s.recv_seg, key, st2), key), ..s };
    match action {
        RecvActionView::Continue => (kept, Seq::empty()),
        RecvActionView::SendSegAck(frame) => (kept, seq![OutputView::Transmit { data: frame, dest: src }]),
        RecvActionView::Complete { seg_ack_frame, payload } => (
            free_slot_spec(dropped, src, invoke_id),
            seq![
                OutputView::Transmit { data: seg_ack_frame, dest: src },
                OutputView::Event(EventView::Response { invoke_id, payload }),
            ],
        ),
        RecvActionView::Abort(reason) => (
            free_slot_spec(dropped, src, invoke_id),
            seq![OutputView::Event(EventView::Abort { invoke_id, reason })],
        ),
    }
}

/// A SegmentACK from `src`: for an outstanding request to `src` being sent
/// in segments, the window moves on and its frames are transmitted; when
/// every segment is acknowledged, the sending state and the request are
/// dropped.  Anything else is ignored.
pub open spec fn spec_seg_ack(
    s: StackView,
    src: BacnetAddr,
    invoke_id: u8,
    sequence_number: u8,
    actual_window_size: u8,
    now: u64,
) -> (StackView, Seq<OutputView>) {
    match lookup(s.in_flight, (src, invoke_id)) {
        None => (s, Seq::empty()),
        Some(slot) => {
            let key = (slot.dest, invoke_id);
            match lookup(s.send_seg, key) {
                None => (s, Seq::empty()),
                Some(seg) => if sequence_number + 1 >= seg.total_fragments {
                    (
                        free_slot_spec(
                            StackView { send_seg: unassign(s.send_seg, key), ..s },
                            slot.dest,
                            invoke_id,
                        ),
                        Seq::empty(),
                    )
                } else {
                    let seg2 = SendView {
                        window_start: (sequence_number + 1) as usize,
                        window_size: actual_window_size,
                        window_sent_at: now,
                        ..seg
                    };
                    (
                        StackView { send_seg: assign(s.send_seg, key, seg2), ..s },
                        transmit_all(
                            window_frames(seg2, (sequence_number + 1) as nat, actual_window_size as nat),
                            slot.dest,
                        ),
                    )
                },
            }
        },
    }
}

/// The message of an Error APDU's event.
pub open spec fn error_message(class: u32, code: u32) -> Seq<char> {
    "error class="@ + decimal(class as nat) + " code="@ + decimal(code as nat)
}

/// The message of a Reject APDU's event.
pub open spec fn reject_message(reason: u8) -> Seq<char> {
    "reject reason="@ + decimal(reason as nat)
}

/// An unconfirmed request: a well-formed I-Am is reported; anything else
/// is ignored.
pub open spec fn unconfirmed_outputs(choice: u8, data: Seq<u8>, src: BacnetAddr) -> Seq<OutputView> {
    if choice == I_AM_SERVICE_CHOICE {
        match spec_decode_i_am(data) {
            Some(Ok(m)) => seq![
                OutputView::Event(
                    EventView::UnconfirmedReceived {
                        src,
                        message: UnconfirmedView::IAm {
                            device_id: m.device_id,
                            max_apdu: m.max_apdu_length_accepted,
                            segmentation: segmentation_code(m.segmentation_supported),
                            vendor_id: m.vendor_id,
                        },
                    },
                ),
            ],
            _ => Seq::empty(),
        }
    } else {
        Seq::empty()
    }
}

/// A network-layer message: a well-formed I-Am-Router-To-Network is
/// reported; anything else is ignored.
pub open spec fn network_message_outputs(msg: Seq<u8>, src: BacnetAddr) -> Seq<OutputView> {
    if msg.len() > 0 && msg[0] == MSG_I_AM_ROUTER_TO_NETWORK {
        match spec_decode_i_am_router(msg) {
            Ok(networks) => seq![
                OutputView::Event(
                    EventView::UnconfirmedReceived {
                        src,
                        message: UnconfirmedView::IAmRouterToNetwork { networks },
                    },
                ),
            ],
            Err(_) => Seq::empty(),
        }
    } else {
        Seq::empty()
    }
}

/// An APDU from `src`, by PDU type: a ComplexACK (a fragment when
/// segmented), SimpleACK, Error, Abort or Reject answers request (`src`,
/// invoke id), which is freed and reported; a SegmentACK drives a
/// segmented send; an unconfirmed request may be reported.  An empty APDU
/// or one of these replies that fails to decode is reported as malformed
/// and changes nothing; other PDU types (requests from other devices) are
/// ignored.  The clock reads 0 here.
pub open spec fn spec_apdu(s: StackView, apdu: Seq<u8>, src: BacnetAddr) -> (StackView, Seq<OutputView>) {
    if apdu.len() == 0 {
        (s, malformed_outputs(DecodeError::IncompleteData))
    } else {
        let t = apdu[0] >> 4u8;
        if t == 3 {
            match spec_complex_ack(apdu) {
                Err(e) => (s, malformed_outputs(e)),
                Ok((id, _, seg, data)) => match seg {
                    Some(h) => spec_recv_fragment(
                        s,
                        src,
                        id,
                        h.sequence_number,
                        h.more_follows,
                        h.proposed_window_size,
                        data,
                        0,
                    ),
                    None => (
                        free_slot_spec(s, src, id),
                        seq![OutputView::Event(EventView::Response { invoke_id: id, payload: data })],
                    ),
                },
            }
        } else if t == 2 {
            match spec_simple_ack(apdu) {
                Err(e) => (s, malformed_outputs(e)),
                Ok(a) => (
                    free_slot_spec(s, src, a.invoke_id),
                    seq![
                        OutputView::Event(
                            EventView::Response { invoke_id: a.invoke_id, payload: Seq::empty() },
                        ),
                    ],
                ),
            }
        } else if t == 4 {
            match spec_segment_ack(apdu) {
                Err(e) => (s, malformed_outputs(e)),
                Ok(a) => spec_seg_ack(s, src, a.invoke_id, a.sequence_number, a.actual_window_size, 0),
            }
        } else if t == 5 {
            match spec_error_apdu(apdu) {
                Err(e) => (s, malformed_outputs(e)),
                Ok(e) => (
                    free_slot_spec(s, src, e.invoke_id),
                    seq![
                        OutputView::Event(
                            EventView::Error {
                                invoke_id: e.invoke_id,
                                message: error_message(e.error_class, e.error_code),
                            },
                        ),
                    ],
                ),
            }
        } else if t == 7 {
            match spec_abort(apdu) {
                Err(e) => (s, malformed_outputs(e)),
                Ok(a) => (
                    free_slot_spec(s, src, a.invoke_id),
                    seq![
                        OutputView::Event(
                            EventView::Abort { invoke_id: a.invoke_id, reason: a.abort_reason },
                        ),
                    ],
                ),
            }
        } else if t == 6 {
            match spec_reject(apdu) {
                Err(e) => (s, malformed_outputs(e)),
                Ok(r) => (
                    free_slot_spec(s, src, r.invoke_id),
                    seq![
                        OutputView::Event(
                            EventView::Error {
                                invoke_id: r.invoke_id,
                                message: reject_message(r.reject_reason),
                            },
                        ),
                    ],
                ),
            }
        } else if t == 1 {
            if apdu.len() < 2 {
                (s, Seq::empty())
            } else {
                (s, unconfirmed_outputs(apdu[1], apdu.subrange(2, apdu.len() as int), src))
            }
        } else {
            (s, Seq::empty())
        }
    }
}

/// The text of the event reporting a datagram that does not decode: its
/// BVLC or NPDU header, or the APDU of a reply.
pub open spec fn malformed_message(e: DecodeError) -> Seq<char> {
    "malformed datagram: "@ + decode_error_message(e)
}

/// The event reporting a datagram that does not decode: an error with
/// invoke ID 0 (no request is named).
pub open spec fn malformed_outputs(e: DecodeError) -> Seq<OutputView> {
    seq![OutputView::Event(EventView::Error { invoke_id: 0, message: malformed_message(e) })]
}

/// A datagram from `src`: its BVLC and NPDU headers are removed (a frame
/// that fails to decode is reported as an error event and changes nothing);
/// a network-layer message or the APDU is handled.
pub open spec fn spec_received(s: StackView, data: Seq<u8>, src: BacnetAddr) -> (StackView, Seq<OutputView>) {
    match spec_bvlc_decode(data) {
        Err(e) => (s, malformed_outputs(e)),
        Ok((_, npdu)) => match spec_npdu_decode(npdu) {
            Err(e) => (s, malformed_outputs(e)),
            Ok(n) => if n.is_network_layer_message {
                (s, network_message_outputs(n.apdu, src))
            } else {
                spec_apdu(s, n.apdu, src)
            },
        },
    }
}

/// What a tick pass has gathered so far.
pub struct TickAcc {
    pub in_flight: Seq<((BacnetAddr, u8), SlotView)>,
    pub outputs: Seq<OutputView>,
    pub to_free: Seq<(BacnetAddr, u8)>,
    pub deadline: Option<u64>,
}

/// One outstanding request at a tick: a request with a frame whose retry
/// time has come is resent (retry count up, next retry one timeout from
/// now) or, with the retries used up, reported as timed out and marked for
/// freeing; its next retry time counts toward the deadline.  Placeholder
/// slots of segmented sends are left alone.
pub open spec fn tick_slot(
    acc: TickAcc,
    e: ((BacnetAddr, u8), SlotView),
    now: u64,
    config: StackConfig,
) -> TickAcc {
    let (key, slot) = e;
    if slot.request_bytes.len() == 0 {
        TickAcc { in_flight: acc.in_flight.push(e), ..acc }
    } else if now >= slot.next_retry_at {
        if slot.retry_count >= config.apdu_retries {
            TickAcc {
                in_flight: acc.in_flight.push(e),
                outputs: acc.outputs.push(OutputView::Event(EventView::Timeout { invoke_id: key.1 })),
                to_free: acc.to_free.push(key),
                deadline: acc.deadline,
            }
        } else {
            let slot2 = SlotView {
                retry_count: (slot.retry_count + 1) as u8,
                next_retry_at: sat_add(now, config.apdu_timeout_ms),
                ..slot
            };
            TickAcc {
                in_flight: acc.in_flight.push((key, slot2)),
                outputs: acc.outputs.push(
                    OutputView::Transmit { data: slot.request_bytes, dest: key.0 },
                ),
                to_free: acc.to_free,
                deadline: earliest(acc.deadline, slot2.next_retry_at),
            }
        }
    } else {
        TickAcc {
            in_flight: acc.in_flight.push(e),
            deadline: earliest(acc.deadline, slot.next_retry_at),
            ..acc
        }
    }
}

/// The first tick pass over the outstanding requests, in order.
pub open spec fn tick_slots(entries: Seq<((BacnetAddr, u8), SlotView)>, now: u64, config: StackConfig) -> TickAcc
    decreases entries.len(),
{
    if entries.len() == 0 {
        TickAcc { in_flight: Seq::empty(), outputs: Seq::empty(), to_free: Seq::empty(), deadline: None }
    } else {
        tick_slot(tick_slots(entries.drop_last(), now, config), entries.last(), now, config)
    }
}

/// Frees each marked request in turn.
pub open spec fn free_all(s: StackView, keys: Seq<(BacnetAddr, u8)>) -> StackView
    decreases keys.len(),
{
    if keys.len() == 0 {
        s
    } else {
        let t = free_all(s, keys.drop_last());
        free_slot_spec(t, keys.last().0, keys.last().1)
    }
}

/// What the segmented-send pass has gathered so far.
pub struct SendTickAcc {
    pub send_seg: Seq<((BacnetAddr, u8), SendView)>,
    pub outputs: Seq<OutputView>,
    pub deadline: Option<u64>,
}

/// One segmented send at a tick: a window unanswered for the segment
/// timeout is sent again from now; either way the window's timeout counts
/// toward the deadline.
pub open spec fn tick_send(acc: SendTickAcc, e: ((BacnetAddr, u8), SendView), now: u64) -> SendTickAcc {
    let (key, seg) = e;
    if now >= seg.window_sent_at + SEG_TIMEOUT_MS {
        let seg2 = SendView { window_sent_at: now, ..seg };
        SendTickAcc {
            send_seg: acc.send_seg.push((key, seg2)),
            outputs: acc.outputs + transmit_all(
                window_frames(seg2, seg.window_start as nat, seg.window_size as nat),
                key.0,
            ),
            deadline: earliest(acc.deadline, sat_add(now, SEG_TIMEOUT_MS)),
        }
    } else {
        SendTickAcc {
            send_seg: acc.send_seg.push(e),
            outputs: acc.outputs,
            deadline: earliest(acc.deadline, sat_add(seg.window_sent_at, SEG_TIMEOUT_MS)),
        }
    }
}

/// The second tick pass over the segmented sends, in order.
pub open spec fn tick_sends(
    entries: Seq<((BacnetAddr, u8), SendView)>,
    now: u64,
    deadline: Option<u64>,
) -> SendTickAcc
    decreases entries.len(),
{
    if entries.len() == 0 {
        SendTickAcc { send_seg: Seq::empty(), outputs: Seq::empty(), deadline }
    } else {
        tick_send(tick_sends(entries.drop_last(), now, deadline), entries.last(), now)
    }
}

/// What the reassembly pass has gathered so far.
pub struct RecvTickAcc {
    pub recv_seg: Seq<((BacnetAddr, u8), RecvView)>,
    pub outputs: Seq<OutputView>,
    pub to_free: Seq<(BacnetAddr, u8)>,
    pub deadline: Option<u64>,
}

/// One reassembly at a tick: one silent for the segment timeout is dropped,
/// reported as aborted (reason 5) and its request marked for freeing; the
/// timeout of one kept counts toward the deadline.
pub open spec fn tick_recv(acc: RecvTickAcc, e: ((BacnetAddr, u8), RecvView), now: u64) -> RecvTickAcc {
    let (key, st) = e;
    if now >= st.last_activity + SEG_TIMEOUT_MS {
        RecvTickAcc {
            recv_seg: acc.recv_seg,
            outputs: acc.outputs.push(
                OutputView::Event(
                    EventView::Abort { invoke_id: key.1, reason: ABORT_REASON_REASSEMBLY_TIMEOUT },
                ),
            ),
            to_free: acc.to_free.push(key),
            deadline: acc.deadline,
        }
    } else {
        RecvTickAcc {
            recv_seg: acc.recv_seg.push(e),
            deadline: earliest(acc.deadline, sat_add(st.last_activity, SEG_TIMEOUT_MS)),
            ..acc
        }
    }
}

/// The third tick pass over the reassemblies, in order.
pub open spec fn tick_recvs(
    entries: Seq<((BacnetAddr, u8), RecvView)>,
    now: u64,
    deadline: Option<u64>,
) -> RecvTickAcc
    decreases entries.len(),
{
    if entries.len() == 0 {
        RecvTickAcc { recv_seg: Seq::empty(), outputs: Seq::empty(), to_free: Seq::empty(), deadline }
    } else {
        tick_recv(tick_recvs(entries.drop_last(), now, deadline), entries.last(), now)
    }
}

/// A timer tick at `now`: the three passes in turn (requests, segmented
/// sends, reassemblies), each request marked by a pass freed after it; the
/// outputs of the passes in order, then the earliest pending deadline of a
/// request retry, a sending window or a reassembly, if any.
pub open spec fn spec_tick(s: StackView, now: u64) -> (StackView, Seq<OutputView>) {
    let a1 = tick_slots(s.in_flight, now, s.config);
    let s1 = free_all(StackView { in_flight: a1.in_flight, ..s }, a1.to_free);
    let a2 = tick_sends(s1.send_seg, now, a1.deadline);
    let s2 = StackView { send_seg: a2.send_seg, ..s1 };
    let a3 = tick_recvs(s2.recv_seg, now, a2.deadline);
    let s3 = free_all(StackView { recv_seg: a3.recv_seg, ..s2 }, a3.to_free);
    let outs = a1.outputs + a2.outputs + a3.outputs;
    (
        s3,
        match a3.deadline {
            Some(d) => outs.push(OutputView::Deadline(d)),
            None => outs,
        },
    )
}

/// One input: its new state and its outputs.
pub open spec fn spec_process(s: StackView, input: Input) -> (StackView, Seq<OutputView>) {
    match input {
        Input::Received { data, src } => spec_received(s, data@, src),
        Input::Tick { now } => spec_tick(s, now),
        Input::Send { service, dest } => spec_send(s, service, dest),
    }
}

/// The pools after taking `id` for `dest`.
pub open spec fn pools_after_allocation(s: StackView, dest: BacnetAddr, id: u8) -> Seq<(BacnetAddr, PoolView)> {
    let pools1 = if has_key(s.pools, dest) {
        s.pools
    } else {
        s.pools.push((dest, empty_pool()))
    };
    let pool = pool_for(s, dest);
    assign(pools1, dest, PoolView { used: pool.used.insert(id), hint: ((id + 1) % 256) as u8 })
}

/// A send that took `id` for `dest` and recorded the request (and its
/// sending state, when segmented) keeps the stack well formed.
pub proof fn lemma_send_wf(s: StackView, dest: BacnetAddr, id: u8, slot: SlotView, seg: Option<SendView>)
    requires
        stack_wf(s),
        seg matches Some(v) ==> send_wf(v),
    ensures
        stack_wf(
            StackView {
                pools: pools_after_allocation(s, dest, id),
                in_flight: assign(s.in_flight, (dest, id), slot),
                send_seg: match seg {
                    Some(v) => assign(s.send_seg, (dest, id), v),
                    None => s.send_seg,
                },
                ..s
            },
        ),
{
    let pools1 = if has_key(s.pools, dest) {
        s.pools
    } else {
        s.pools.push((dest, empty_pool()))
    };
    lemma_assign(s.pools, dest, empty_pool());
    assert(!has_key(s.pools, dest) ==> pools1 == assign(s.pools, dest, empty_pool()));
    assert(keys_unique(pools1));
    assert forall|d: BacnetAddr| d != dest implies #[trigger] lookup(pools1, d) == lookup(s.pools, d) by {
    }
    let pool = pool_for(s, dest);
    let pools2 = pools_after_allocation(s, dest, id);
    lemma_assign(pools1, dest, PoolView { used: pool.used.insert(id), hint: ((id + 1) % 256) as u8 });
    lemma_assign(s.in_flight, (dest, id), slot);
    if let Some(v) = seg {
        lemma_assign(s.send_seg, (dest, id), v);
    }
    let t = StackView {
        pools: pools2,
        in_flight: assign(s.in_flight, (dest, id), slot),
        send_seg: match seg {
            Some(v) => assign(s.send_seg, (dest, id), v),
            None => s.send_seg,
        },
        ..s
    };
    assert forall|k: (BacnetAddr, u8)| #[trigger] has_key(t.in_flight, k) implies holds_invoke_id(
        t.pools,
        k,
    ) by {
        if k != (dest, id) {
            assert(has_key(s.in_flight, k));
            assert(holds_invoke_id(s.pools, k));
            if k.0 == dest {
                assert(lookup(s.pools, dest) == Some(pool));
            } else {
                assert(lookup(pools1, k.0) == lookup(s.pools, k.0));
            }
        }
    }
    assert forall|k: (BacnetAddr, u8)| #[trigger] has_key(t.send_seg, k) implies send_wf(
        lookup(t.send_seg, k)->0,
    ) by {
        if seg is Some {
            if k != (dest, id) {
                assert(lookup(t.send_seg, k) == lookup(s.send_seg, k));
            }
        }
    }
}

// ─────────────────────────────────────────────────────────────────────────
// The stack
// ─────────────────────────────────────────────────────────────────────────

/// The sans-IO BACnet/IP client stack.  All state changes come through
/// `process`; all effects are returned as outputs.
pub struct Stack {
    config: StackConfig,
    invoke_id_pools: Vec<(BacnetAddr, InvokeIdPool)>,
    in_flight: Vec<((BacnetAddr, u8), InFlightSlot)>,
    send_seg: Vec<((BacnetAddr, u8), SendSegState)>,
    recv_seg: Vec<((BacnetAddr, u8), RecvSegState)>,
}

impl View for Stack {
    type V = StackView;

    closed spec fn view(&self) -> StackView {
        StackView {
            config: self.config,
            pools: entries_view(self.invoke_id_pools@),
            in_flight: entries_view(self.in_flight@),
            send_seg: entries_view(self.send_seg@),
            recv_seg: entries_view(self.recv_seg@),
        }
    }
}

/// Freeing a request keeps the stack well formed.
pub proof fn lemma_free_slot_wf(s: StackView, dest: BacnetAddr, invoke_id: u8)
    requires
        stack_wf(s),
    ensures
        stack_wf(free_slot_spec(s, dest, invoke_id)),
{
    let t = free_slot_spec(s, dest, invoke_id);
    lemma_unassign(s.in_flight, (dest, invoke_id));
    lemma_unassign(s.send_seg, (dest, invoke_id));
    lemma_unassign(s.recv_seg, (dest, invoke_id));
    assert forall|k: (BacnetAddr, u8)| #[trigger] has_key(t.send_seg, k) implies send_wf(
        lookup(t.send_seg, k)->0,
    ) by {
        assert(has_key(s.send_seg, k));
    }
    if let Some(p) = lookup(s.pools, dest) {
        lemma_assign(s.pools, dest, PoolView { used: p.used.remove(invoke_id), hint: p.hint });
    }
    assert forall|k: (BacnetAddr, u8)| #[trigger] has_key(t.in_flight, k) implies holds_invoke_id(
        t.pools,
        k,
    ) by {
        assert(has_key(s.in_flight, k));
        assert(holds_invoke_id(s.pools, k));
    }
}

impl Stack {
    /// A stack with nothing outstanding.
    pub fn new(config: StackConfig) -> (r: Self)
        ensures
            r@ == (StackView {
                config,
                pools: Seq::empty(),
                in_flight: Seq::empty(),
                send_seg: Seq::empty(),
                recv_seg: Seq::empty(),
            }),
            stack_wf(r@),
    {
        let r = Stack {
            config,
            invoke_id_pools: Vec::new(),
            in_flight: Vec::new(),
            send_seg: Vec::new(),
            recv_seg: Vec::new(),
        };
        assert(r@.pools =~= Seq::<(BacnetAddr, PoolView)>::empty());
        assert(r@.in_flight =~= Seq::<((BacnetAddr, u8), SlotView)>::empty());
        assert(r@.send_seg =~= Seq::<((BacnetAddr, u8), SendView)>::empty());
        assert(r@.recv_seg =~= Seq::<((BacnetAddr, u8), RecvView)>::empty());
        r
    }

    /// The configuration.
    pub fn config(&self) -> (r: StackConfig)
        ensures
            r == self@.config,
    {
        self.config
    }

    /// The number of outstanding confirmed requests.
    pub fn in_flight_len(&self) -> (r: usize)
        ensures
            r == self@.in_flight.len(),
    {
        self.in_flight.len()
    }

    /// The (destination, invoke id) of each outstanding request, oldest
    /// first.
    pub fn in_flight_keys(&self) -> (r: Vec<(BacnetAddr, u8)>)
        ensures
            r@ == self@.in_flight.map_values(|e: ((BacnetAddr, u8), SlotView)| e.0),
    {
        let mut keys: Vec<(BacnetAddr, u8)> = Vec::new();
        let mut i: usize = 0;
        while i < self.in_flight.len()
            invariant
                i <= self.in_flight@.len(),
                keys@ =~= self@.in_flight.map_values(|e: ((BacnetAddr, u8), SlotView)| e.0).subrange(
                    0,
                    i as int,
                ),
            decreases self.in_flight@.len() - i,
        {
            keys.push(self.in_flight[i].0);
            i = i + 1;
        }
        keys
    }

    fn free_slot(&mut self, dest: BacnetAddr, invoke_id: u8)
        requires
            keys_unique(old(self)@.pools),
            keys_unique(old(self)@.in_flight),
            keys_unique(old(self)@.send_seg),
            keys_unique(old(self)@.recv_seg),
        ensures
            final(self)@ == free_slot_spec(old(self)@, dest, invoke_id),
            keys_unique(final(self)@.pools),
            keys_unique(final(self)@.in_flight),
            keys_unique(final(self)@.send_seg),
            keys_unique(final(self)@.recv_seg),
    {
        let ghost s0 = self@;
        let k = (dest, invoke_id);
        let idx = find_key(&self.in_flight, k);
        proof {
            lemma_found(self.in_flight@, k, idx);
        }
        if let Some(i) = idx {
            remove_entry(&mut self.in_flight, i, Ghost(k));
        }
        let sidx = find_key(&self.send_seg, k);
        proof {
            lemma_found(self.send_seg@, k, sidx);
        }
        if let Some(i) = sidx {
            remove_entry(&mut self.send_seg, i, Ghost(k));
        }
        let ridx = find_key(&self.recv_seg, k);
        proof {
            lemma_found(self.recv_seg@, k, ridx);
        }
        if let Some(i) = ridx {
            remove_entry(&mut self.recv_seg, i, Ghost(k));
        }
        let pidx = find_addr(&self.invoke_id_pools, dest);
        proof {
            lemma_found(self.invoke_id_pools@, dest, pidx);
        }
        if let Some(j) = pidx {
            let ghost before = self.invoke_id_pools@;
            let (a, mut pool) = take_entry(&mut self.invoke_id_pools, j);
            pool.free(invoke_id);
            return_entry(&mut self.invoke_id_pools, j, (a, pool));
            proof {
                lemma_replace_at(before, j as int, (a, pool));
            }
        }
        assert(self@ == free_slot_spec(s0, dest, invoke_id));
    }

    /// The index of the pool of `dest`, created empty if missing.
    fn pool_index(&mut self, dest: BacnetAddr) -> (r: usize)
        requires
            keys_unique(old(self)@.pools),
        ensures
            final(self)@ == (StackView {
                pools: if has_key(old(self)@.pools, dest) {
                    old(self)@.pools
                } else {
                    old(self)@.pools.push((dest, empty_pool()))
                },
                ..old(self)@
            }),
            keys_unique(final(self)@.pools),
            r < final(self)@.pools.len(),
            final(self)@.pools[r as int] == (dest, pool_for(old(self)@, dest)),
            final(self).invoke_id_pools@[r as int].0 == dest,
    {
        let pidx = find_addr(&self.invoke_id_pools, dest);
        proof {
            lemma_found(self.invoke_id_pools@, dest, pidx);
            lemma_assign(self@.pools, dest, empty_pool());
        }
        match pidx {
            Some(j) => j,
            None => {
                let ghost before = self.invoke_id_pools@;
                self.invoke_id_pools.push((dest, InvokeIdPool::new()));
                assert(entries_view(self.invoke_id_pools@) =~= entries_view(before).push(
                    (dest, empty_pool()),
                ));
                self.invoke_id_pools.len() - 1
            },
        }
    }

    /// Allocates an invoke id from the pool of `dest` (created if missing).
    fn allocate_invoke_id(&mut self, dest: BacnetAddr) -> (r: Option<u8>)
        requires
            keys_unique(old(self)@.pools),
        ensures
            r == next_free(pool_for(old(self)@, dest).used, pool_for(old(self)@, dest).hint, 0),
            keys_unique(final(self)@.pools),
            ({
                let pools1 = if has_key(old(self)@.pools, dest) {
                    old(self)@.pools
                } else {
                    old(self)@.pools.push((dest, empty_pool()))
                };
                let pool = pool_for(old(self)@, dest);
                final(self)@ == (StackView {
                    pools: match r {
                        Some(id) => assign(
                            pools1,
                            dest,
                            PoolView { used: pool.used.insert(id), hint: ((id + 1) % 256) as u8 },
                        ),
                        None => pools1,
                    },
                    ..old(self)@
                })
            }),
    {
        let j = self.pool_index(dest);
        let ghost before = self.invoke_id_pools@;
        let ghost pools1 = self@.pools;
        let (a, mut pool) = take_entry(&mut self.invoke_id_pools, j);
        let alloc = pool.allocate();
        return_entry(&mut self.invoke_id_pools, j, (a, pool));
        proof {
            lemma_replace_at(before, j as int, (a, pool));
            if alloc is None {
                assert(entries_view(self.invoke_id_pools@) =~= pools1);
            }
        }
        alloc
    }

    fn handle_send(&mut self, service: BacnetService, dest: BacnetAddr) -> (r: Vec<Output>)
        requires
            stack_wf(old(self)@),
        ensures
            stack_wf(final(self)@),
            (final(self)@, outputs_view(r@)) == spec_send(old(self)@, service, dest),
    {
        let ghost s0 = self@;
        if self.send_is_rejected(&service, dest) {
            let message = owned(
                "request cannot be sent: it cannot be encoded or segmented within the maximum APDU length",
            );
            let r = vec![Output::Event(BacnetEvent::Error { invoke_id: 0, message })];
            assert(outputs_view(r@) =~= spec_send(s0, service, dest).1);
            return r;
        }
        let alloc = self.allocate_invoke_id(dest);
        let invoke_id = match alloc {
            Some(id) => id,
            None => {
                let message = owned("invoke ID pool exhausted");
                let r = vec![Output::Event(BacnetEvent::Error { invoke_id: 0, message })];
                proof {
                    assert(outputs_view(r@) =~= spec_send(s0, service, dest).1);
                    assert(stack_wf(self@)) by {
                        lemma_assign(s0.pools, dest, empty_pool());
                    }
                }
                return r;
            },
        };
        let ghost s1 = self@;
        proof {
            lemma_allocate_finds_free(pool_for(s0, dest).used, pool_for(s0, dest).hint);
        }
        let choice = service.choice();
        let service_data = service.encode();
        let len = service_data.len();
        let max_apdu = self.config.max_apdu_length;
        let segmented = if max_apdu < 4 {
            true
        } else {
            len > max_apdu - 4
        };
        let k = (dest, invoke_id);
        if segmented {
            let fragment_size = max_apdu - 6;
            let (seg_state, frames) = SendSegState::new(
                service_data,
                choice,
                invoke_id,
                dest,
                fragment_size,
                0,
            );
            let ghost seg_view = seg_state@;
            let sidx = find_key(&self.send_seg, k);
            put_entry(&mut self.send_seg, sidx, k, seg_state);
            let slot = InFlightSlot {
                request_bytes: Vec::new(),
                dest,
                sent_at: 0,
                retry_count: 0,
                next_retry_at: u64::MAX,
            };
            let ghost slot_view = slot@;
            let fidx = find_key(&self.in_flight, k);
            put_entry(&mut self.in_flight, fidx, k, slot);
            let mut outputs = transmit_outputs(frames, dest);
            outputs.push(Output::Deadline(SEG_TIMEOUT_MS));
            proof {
                assert(outputs_view(outputs@) =~= spec_send(s0, service, dest).1);
                lemma_send_wf(s0, dest, invoke_id, slot_view, Some(seg_view));
            }
            outputs
        } else {
            let apdu = encode_confirmed_request(
                &ConfirmedRequestParams {
                    segmented_response_accepted: true,
                    max_segments: MaxSegments::Unspecified,
                    max_apdu_length: MaxApduLength::Up1476,
                    invoke_id,
                    segmentation: None,
                    service_choice: choice,
                    service_data: service_data.as_slice(),
                },
            );
            let frame = encode_unicast_frame(apdu.as_slice(), true);
            let next_retry_at = self.config.apdu_timeout_ms;
            let slot = InFlightSlot {
                request_bytes: copy_bytes(&frame),
                dest,
                sent_at: 0,
                retry_count: 0,
                next_retry_at,
            };
            let ghost slot_view = slot@;
            let fidx = find_key(&self.in_flight, k);
            put_entry(&mut self.in_flight, fidx, k, slot);
            let r = vec![Output::Transmit { data: frame, dest }, Output::Deadline(next_retry_at)];
            proof {
                assert(outputs_view(r@) =~= spec_send(s0, service, dest).1);
                lemma_send_wf(s0, dest, invoke_id, slot_view, None);
            }
            r
        }
    }

    fn handle_network_layer_message(&self, msg: &[u8], src: BacnetAddr) -> (r: Vec<Output>)
        ensures
            outputs_view(r@) == network_message_outputs(msg@, src),
    {
        if msg.len() == 0 {
            return Vec::new();
        }
        if msg[0] == MSG_I_AM_ROUTER_TO_NETWORK {
            if let Ok(m) = decode_i_am_router_to_network(msg) {
                let r = vec![
                    Output::Event(
                        BacnetEvent::UnconfirmedReceived {
                            src,
                            message: UnconfirmedMessage::IAmRouterToNetwork { networks: m.networks },
                        },
                    ),
                ];
                assert(outputs_view(r@) =~= network_message_outputs(msg@, src));
                return r;
            }
        }
        let r: Vec<Output> = Vec::new();
        assert(outputs_view(r@) =~= network_message_outputs(msg@, src));
        r
    }

    fn handle_unconfirmed(&self, service_choice: u8, service_data: &[u8], src: BacnetAddr) -> (r: Vec<
        Output,
    >)
        ensures
            outputs_view(r@) == unconfirmed_outputs(service_choice, service_data@, src),
    {
        if service_choice == I_AM_SERVICE_CHOICE {
            if let Some(Ok(msg)) = decode_i_am_checked(service_data) {
                let r = vec![
                    Output::Event(
                        BacnetEvent::UnconfirmedReceived {
                            src,
                            message: UnconfirmedMessage::IAm {
                                device_id: msg.device_id,
                                max_apdu: msg.max_apdu_length_accepted,
                                segmentation: msg.segmentation_supported.to_u8(),
                                vendor_id: msg.vendor_id,
                            },
                        },
                    ),
                ];
                assert(outputs_view(r@) =~= unconfirmed_outputs(service_choice, service_data@, src));
                return r;
            }
        }
        let r: Vec<Output> = Vec::new();
        assert(outputs_view(r@) =~= unconfirmed_outputs(service_choice, service_data@, src));
        r
    }

    fn handle_recv_fragment(
        &mut self,
        src: BacnetAddr,
        invoke_id: u8,
        sequence_number: u8,
        more_follows: bool,
        proposed_window_size: u8,
        service_data: &[u8],
        now: u64,
    ) -> (r: Vec<Output>)
        requires
            stack_wf(old(self)@),
        ensures
            stack_wf(final(self)@),
            (final(self)@, outputs_view(r@)) == spec_recv_fragment(
                old(self)@,
                src,
                invoke_id,
                sequence_number,
                more_follows,
                proposed_window_size,
                service_data@,
                now,
            ),
    {
        let ghost s0 = self@;
        let max_buffer = self.config.max_segment_buffer;
        let k = (src, invoke_id);
        let idx = find_key(&self.recv_seg, k);
        proof {
            lemma_found(self.recv_seg@, k, idx);
        }
        let i = match idx {
            Some(i) => i,
            None => {
                let fresh = RecvSegState::new(proposed_window_size, max_buffer, now);
                let ghost fv = fresh@;
                let ghost before = self.recv_seg@;
                self.recv_seg.push((k, fresh));
                proof {
                    assert(entries_view(self.recv_seg@) =~= entries_view(before).push((k, fv)));
                    lemma_assign(s0.recv_seg, k, fv);
                }
                self.recv_seg.len() - 1
            },
        };
        let ghost rs1 = self.recv_seg@;
        let ghost st = recv_state_for(s0, src, invoke_id, proposed_window_size, now);
        proof {
            lemma_found(rs1, k, Some(i));
        }
        let (kk, mut state) = take_entry(&mut self.recv_seg, i);
        let data = copy_range(service_data, 0, service_data.len());
        assert(data@ =~= service_data@);
        let action = state.accept_fragment(
            sequence_number,
            more_follows,
            proposed_window_size,
            data,
            src,
            invoke_id,
            now,
        );
        let ghost st2 = state@;
        return_entry(&mut self.recv_seg, i, (kk, state));
        proof {
            lemma_replace_at(rs1, i as int, (kk, state));
            lemma_assign(s0.recv_seg, k, st);
            lemma_assign_twice(s0.recv_seg, k, st, st2);
            if !has_key(s0.recv_seg, k) {
                assert(entries_view(rs1) == assign(s0.recv_seg, k, st));
            } else {
                assert(entries_view(rs1) == s0.recv_seg);
                assert(assign(s0.recv_seg, k, st) =~= s0.recv_seg) by {
                    let j = crate::stack::table::key_index(s0.recv_seg, k);
                    assert(s0.recv_seg[j].0 == k);
                }
            }
            assert(self@ == (StackView { recv_seg: assign(s0.recv_seg, k, st2), ..s0 }));
            lemma_recv_seg_wf(s0, k, st2);
        }
        match action {
            RecvAction::Continue => {
                let r: Vec<Output> = Vec::new();
                assert(outputs_view(r@) =~= Seq::<OutputView>::empty());
                r
            },
            RecvAction::SendSegAck(frame) => {
                let r = vec![Output::Transmit { data: frame, dest: src }];
                assert(outputs_view(r@) =~= spec_recv_fragment(
                    s0,
                    src,
                    invoke_id,
                    sequence_number,
                    more_follows,
                    proposed_window_size,
                    service_data@,
                    now,
                ).1);
                r
            },
            RecvAction::Complete { seg_ack_frame, payload } => {
                remove_entry(&mut self.recv_seg, i, Ghost(k));
                proof {
                    lemma_free_slot_wf(
                        StackView { recv_seg: unassign(assign(s0.recv_seg, k, st2), k), ..s0 },
                        src,
                        invoke_id,
                    );
                }
                self.free_slot(src, invoke_id);
                let r = vec![
                    Output::Transmit { data: seg_ack_frame, dest: src },
                    Output::Event(BacnetEvent::Response { invoke_id, payload }),
                ];
                assert(outputs_view(r@) =~= spec_recv_fragment(
                    s0,
                    src,
                    invoke_id,
                    sequence_number,
                    more_follows,
                    proposed_window_size,
                    service_data@,
                    now,
                ).1);
                r
            },
            RecvAction::Abort(reason) => {
                remove_entry(&mut self.recv_seg, i, Ghost(k));
                proof {
                    lemma_free_slot_wf(
                        StackView { recv_seg: unassign(assign(s0.recv_seg, k, st2), k), ..s0 },
                        src,
                        invoke_id,
                    );
                }
                self.free_slot(src, invoke_id);
                let r = vec![Output::Event(BacnetEvent::Abort { invoke_id, reason })];
                assert(outputs_view(r@) =~= spec_recv_fragment(
                    s0,
                    src,
                    invoke_id,
                    sequence_number,
                    more_follows,
                    proposed_window_size,
                    service_data@,
                    now,
                ).1);
                r
            },
        }
    }

    fn handle_seg_ack(
        &mut self,
        src: BacnetAddr,
        invoke_id: u8,
        sequence_number: u8,
        actual_window_size: u8,
        now: u64,
    ) -> (r: Vec<Output>)
        requires
            stack_wf(old(self)@),
        ensures
            stack_wf(final(self)@),
            (final(self)@, outputs_view(r@)) == spec_seg_ack(
                old(self)@,
                src,
                invoke_id,
                sequence_number,
                actual_window_size,
                now,
            ),
    {
        let ghost s0 = self@;
        let fidx = find_key(&self.in_flight, (src, invoke_id));
        proof {
            lemma_found(self.in_flight@, (src, invoke_id), fidx);
        }
        let dest = match fidx {
            Some(i) => self.in_flight[i].1.dest,
            None => {
                let r: Vec<Output> = Vec::new();
                assert(outputs_view(r@) =~= Seq::<OutputView>::empty());
                return r;
            },
        };
        let k = (dest, invoke_id);
        let sidx = find_key(&self.send_seg, k);
        proof {
            lemma_found(self.send_seg@, k, sidx);
        }
        match sidx {
            None => {
                let r: Vec<Output> = Vec::new();
                assert(outputs_view(r@) =~= Seq::<OutputView>::empty());
                r
            },
            Some(j) => {
                let ghost ss = self.send_seg@;
                let (kk, mut seg) = take_entry(&mut self.send_seg, j);
                assert(send_wf(seg@));
                let res = seg.handle_seg_ack(sequence_number, actual_window_size, now);
                match res {
                    None => {
                        proof {
                            crate::stack::table::lemma_unassign(s0.send_seg, k);
                            assert(entries_view(self.send_seg@) =~= unassign(s0.send_seg, k));
                            lemma_send_seg_wf(s0, k, seg@);
                            lemma_free_slot_wf(
                                StackView { send_seg: unassign(s0.send_seg, k), ..s0 },
                                dest,
                                invoke_id,
                            );
                        }
                        self.free_slot(dest, invoke_id);
                        let r: Vec<Output> = Vec::new();
                        assert(outputs_view(r@) =~= Seq::<OutputView>::empty());
                        r
                    },
                    Some(frames) => {
                        let ghost sv = seg@;
                        return_entry(&mut self.send_seg, j, (kk, seg));
                        proof {
                            lemma_replace_at(ss, j as int, (kk, seg));
                            lemma_send_seg_wf(s0, k, sv);
                        }
                        transmit_outputs(frames, dest)
                    },
                }
            },
        }
    }

    #[verifier::rlimit(30)]
    fn handle_apdu(&mut self, apdu: &[u8], src: BacnetAddr) -> (r: Vec<Output>)
        requires
            stack_wf(old(self)@),
        ensures
            stack_wf(final(self)@),
            (final(self)@, outputs_view(r@)) == spec_apdu(old(self)@, apdu@, src),
    {
        let ghost s0 = self@;
        if apdu.len() == 0 {
            return malformed_event(DecodeError::IncompleteData);
        }
        let pdu_type = apdu[0] >> 4;
        if pdu_type == 3 {
            let ack = match decode_complex_ack(apdu) {
                Ok(a) => a,
                Err(e) => return malformed_event(e),
            };
            let invoke_id = ack.invoke_id;
            if let Some(seg) = ack.segmentation {
                return self.handle_recv_fragment(
                    src,
                    invoke_id,
                    seg.sequence_number,
                    seg.more_follows,
                    seg.proposed_window_size,
                    ack.service_data,
                    0,
                );
            }
            proof {
                lemma_free_slot_wf(s0, src, invoke_id);
            }
            self.free_slot(src, invoke_id);
            let payload = copy_range(ack.service_data, 0, ack.service_data.len());
            assert(payload@ =~= ack.service_data@);
            let r = vec![Output::Event(BacnetEvent::Response { invoke_id, payload })];
            assert(outputs_view(r@) =~= spec_apdu(s0, apdu@, src).1);
            r
        } else if pdu_type == 2 {
            let ack = match decode_simple_ack(apdu) {
                Ok(a) => a,
                Err(e) => return malformed_event(e),
            };
            let invoke_id = ack.invoke_id;
            proof {
                lemma_free_slot_wf(s0, src, invoke_id);
            }
            self.free_slot(src, invoke_id);
            let r = vec![Output::Event(BacnetEvent::Response { invoke_id, payload: Vec::new() })];
            assert(outputs_view(r@) =~= spec_apdu(s0, apdu@, src).1);
            r
        } else if pdu_type == 4 {
            let ack = match decode_segment_ack(apdu) {
                Ok(a) => a,
                Err(e) => return malformed_event(e),
            };
            self.handle_seg_ack(src, ack.invoke_id, ack.sequence_number, ack.actual_window_size, 0)
        } else if pdu_type == 5 {
            let err = match decode_error_apdu(apdu) {
                Ok(e) => e,
                Err(e) => return malformed_event(e),
            };
            let invoke_id = err.invoke_id;
            proof {
                lemma_free_slot_wf(s0, src, invoke_id);
            }
            self.free_slot(src, invoke_id);
            let message = error_message_text(err.error_class, err.error_code);
            let r = vec![Output::Event(BacnetEvent::Error { invoke_id, message })];
            assert(outputs_view(r@) =~= spec_apdu(s0, apdu@, src).1);
            r
        } else if pdu_type == 7 {
            let abort = match decode_abort(apdu) {
                Ok(a) => a,
                Err(e) => return malformed_event(e),
            };
            let invoke_id = abort.invoke_id;
            proof {
                lemma_free_slot_wf(s0, src, invoke_id);
            }
            self.free_slot(src, invoke_id);
            let r = vec![Output::Event(BacnetEvent::Abort { invoke_id, reason: abort.abort_reason })];
            assert(outputs_view(r@) =~= spec_apdu(s0, apdu@, src).1);
            r
        } else if pdu_type == 6 {
            let rej = match decode_reject(apdu) {
                Ok(r) => r,
                Err(e) => return malformed_event(e),
            };
            let invoke_id = rej.invoke_id;
            proof {
                lemma_free_slot_wf(s0, src, invoke_id);
            }
            self.free_slot(src, invoke_id);
            let message = reject_message_text(rej.reject_reason);
            let r = vec![Output::Event(BacnetEvent::Error { invoke_id, message })];
            assert(outputs_view(r@) =~= spec_apdu(s0, apdu@, src).1);
            r
        } else if pdu_type == 1 {
            if apdu.len() < 2 {
                let r: Vec<Output> = Vec::new();
                assert(outputs_view(r@) =~= Seq::<OutputView>::empty());
                return r;
            }
            let service_choice = apdu[1];
            let service_data = &apdu[2..apdu.len()];
            assert(service_data@ =~= apdu@.subrange(2, apdu@.len() as int));
            self.handle_unconfirmed(service_choice, service_data, src)
        } else {
            let r: Vec<Output> = Vec::new();
            assert(outputs_view(r@) =~= Seq::<OutputView>::empty());
            r
        }
    }

    fn free_marked(&mut self, keys: &Vec<(BacnetAddr, u8)>)
        requires
            stack_wf(old(self)@),
        ensures
            stack_wf(final(self)@),
            final(self)@ == free_all(old(self)@, keys@),
    {
        let ghost s0 = self@;
        let mut j: usize = 0;
        assert(keys@.subrange(0, 0) =~= Seq::<(BacnetAddr, u8)>::empty());
        while j < keys.len()
            invariant
                j <= keys@.len(),
                self@ == free_all(s0, keys@.subrange(0, j as int)),
                stack_wf(self@),
            decreases keys@.len() - j,
        {
            let k = keys[j];
            proof {
                lemma_free_slot_wf(self@, k.0, k.1);
                assert(keys@.subrange(0, j as int + 1).drop_last() =~= keys@.subrange(0, j as int));
            }
            self.free_slot(k.0, k.1);
            j = j + 1;
        }
        assert(keys@.subrange(0, j as int) =~= keys@);
    }

    fn tick_pass_slots(&mut self, now: u64, outputs: &mut Vec<Output>) -> (r: (
        Vec<(BacnetAddr, u8)>,
        Option<u64>,
    ))
        requires
            stack_wf(old(self)@),
        ensures
            ({
                let a = tick_slots(old(self)@.in_flight, now, old(self)@.config);
                &&& final(self)@ == (StackView { in_flight: a.in_flight, ..old(self)@ })
                &&& outputs_view(final(outputs)@) == outputs_view(old(outputs)@) + a.outputs
                &&& r.0@ == a.to_free
                &&& r.1 == a.deadline
            }),
            stack_wf(final(self)@),
    {
        let ghost s0 = self@;
        let ghost out0 = outputs_view(outputs@);
        let mut to_free: Vec<(BacnetAddr, u8)> = Vec::new();
        let mut deadline: Option<u64> = None;
        let n = self.in_flight.len();
        let mut i: usize = 0;
        assert(s0.in_flight.subrange(0, 0) =~= Seq::<((BacnetAddr, u8), SlotView)>::empty());
        while i < n
            invariant
                n == self.in_flight@.len(),
                n == s0.in_flight.len(),
                i <= n,
                ({
                    let a = tick_slots(s0.in_flight.subrange(0, i as int), now, s0.config);
                    &&& entries_view(self.in_flight@) =~= a.in_flight + s0.in_flight.subrange(
                        i as int,
                        n as int,
                    )
                    &&& outputs_view(outputs@) == out0 + a.outputs
                    &&& to_free@ == a.to_free
                    &&& deadline == a.deadline
                }),
                self.config == s0.config,
                entries_view(self.invoke_id_pools@) == s0.pools,
                entries_view(self.send_seg@) == s0.send_seg,
                entries_view(self.recv_seg@) == s0.recv_seg,
            decreases n - i,
        {
            let ghost pre = s0.in_flight.subrange(0, i as int);
            let ghost a = tick_slots(pre, now, s0.config);
            proof {
                lemma_tick_slots_keys(pre, now, s0.config);
                assert(s0.in_flight.subrange(0, i as int + 1).drop_last() =~= pre);
                assert(s0.in_flight.subrange(0, i as int + 1).last() == s0.in_flight[i as int]);
                assert(entries_view(self.in_flight@)[i as int] == s0.in_flight[i as int]);
            }
            let ghost before = self.in_flight@;
            let (k, mut slot) = take_entry(&mut self.in_flight, i);
            let ghost old_slot = slot@;
            if slot.request_bytes.len() != 0 {
                if now >= slot.next_retry_at {
                    if slot.retry_count >= self.config.apdu_retries {
                        push_output(outputs, Output::Event(BacnetEvent::Timeout { invoke_id: k.1 }));
                        to_free.push(k);
                    } else {
                        slot.retry_count = slot.retry_count + 1;
                        slot.next_retry_at = saturating_add(now, self.config.apdu_timeout_ms);
                        let data = copy_bytes(&slot.request_bytes);
                        push_output(outputs, Output::Transmit { data, dest: k.0 });
                        deadline = earlier(deadline, slot.next_retry_at);
                    }
                } else {
                    deadline = earlier(deadline, slot.next_retry_at);
                }
            }
            return_entry(&mut self.in_flight, i, (k, slot));
            proof {
                let a2 = tick_slots(s0.in_flight.subrange(0, i as int + 1), now, s0.config);
                assert(s0.in_flight[i as int] == (k, old_slot));
                assert(a2 == tick_slot(a, s0.in_flight[i as int], now, s0.config));
                assert(a2.in_flight =~= a.in_flight.push((k, slot@)));
                assert(a.in_flight.len() == i);
                assert(self.in_flight@ == before.remove(i as int).insert(i as int, (k, slot)));
                assert(entries_view(self.in_flight@) =~= entries_view(before).update(i as int, (k, slot@)));
                assert(entries_view(self.in_flight@) =~= a2.in_flight + s0.in_flight.subrange(
                    i as int + 1,
                    n as int,
                ));
            }
            i = i + 1;
        }
        proof {
            let a = tick_slots(s0.in_flight, now, s0.config);
            assert(s0.in_flight.subrange(0, n as int) =~= s0.in_flight);
            assert(s0.in_flight.subrange(n as int, n as int) =~= Seq::<((BacnetAddr, u8), SlotView)>::empty());
            assert(entries_view(self.in_flight@) =~= a.in_flight);
            lemma_tick_slots_keys(s0.in_flight, now, s0.config);
            lemma_same_keys(s0.in_flight, a.in_flight);
            assert forall|k: (BacnetAddr, u8)| #[trigger] has_key(self@.in_flight, k) implies holds_invoke_id(
                self@.pools,
                k,
            ) by {
                assert(has_key(s0.in_flight, k));
            }
        }
        (to_free, deadline)
    }

    fn tick_pass_sends(&mut self, now: u64, deadline: Option<u64>, outputs: &mut Vec<Output>) -> (r:
        Option<u64>)
        requires
            stack_wf(old(self)@),
        ensures
            ({
                let a = tick_sends(old(self)@.send_seg, now, deadline);
                &&& final(self)@ == (StackView { send_seg: a.send_seg, ..old(self)@ })
                &&& outputs_view(final(outputs)@) == outputs_view(old(outputs)@) + a.outputs
                &&& r == a.deadline
            }),
            stack_wf(final(self)@),
    {
        let ghost s0 = self@;
        let ghost out0 = outputs_view(outputs@);
        let mut deadline = deadline;
        let ghost d0 = deadline;
        let n = self.send_seg.len();
        let mut i: usize = 0;
        assert(s0.send_seg.subrange(0, 0) =~= Seq::<((BacnetAddr, u8), SendView)>::empty());
        assert(out0 + Seq::<OutputView>::empty() =~= out0);
        while i < n
            invariant
                n == self.send_seg@.len(),
                n == s0.send_seg.len(),
                i <= n,
                stack_wf(s0),
                ({
                    let a = tick_sends(s0.send_seg.subrange(0, i as int), now, d0);
                    &&& entries_view(self.send_seg@) =~= a.send_seg + s0.send_seg.subrange(
                        i as int,
                        n as int,
                    )
                    &&& outputs_view(outputs@) == out0 + a.outputs
                    &&& deadline == a.deadline
                }),
                self.config == s0.config,
                entries_view(self.invoke_id_pools@) == s0.pools,
                entries_view(self.in_flight@) == s0.in_flight,
                entries_view(self.recv_seg@) == s0.recv_seg,
            decreases n - i,
        {
            let ghost pre = s0.send_seg.subrange(0, i as int);
            let ghost a = tick_sends(pre, now, d0);
            proof {
                lemma_tick_sends_keys(pre, now, d0);
                assert(s0.send_seg.subrange(0, i as int + 1).drop_last() =~= pre);
                assert(s0.send_seg.subrange(0, i as int + 1).last() == s0.send_seg[i as int]);
                assert(entries_view(self.send_seg@)[i as int] == s0.send_seg[i as int]);
                let k = s0.send_seg[i as int].0;
                crate::stack::table::lemma_key_at(s0.send_seg, k, i as int);
                assert(has_key(s0.send_seg, k));
            }
            let ghost before = self.send_seg@;
            let (k, mut seg) = take_entry(&mut self.send_seg, i);
            let ghost old_seg = seg@;
            let ghost before_out = outputs_view(outputs@);
            if seg.is_window_timed_out(now) {
                let frames = seg.retransmit_window(now);
                push_transmits(outputs, frames, k.0);
                deadline = earlier(deadline, saturating_add(now, SEG_TIMEOUT_MS));
            } else {
                deadline = earlier(deadline, saturating_add(seg.window_sent_at, SEG_TIMEOUT_MS));
            }
            return_entry(&mut self.send_seg, i, (k, seg));
            proof {
                let a2 = tick_sends(s0.send_seg.subrange(0, i as int + 1), now, d0);
                assert(s0.send_seg[i as int] == (k, old_seg));
                assert(a2 == tick_send(a, s0.send_seg[i as int], now));
                assert(a2.send_seg =~= a.send_seg.push((k, seg@)));
                assert(a.send_seg.len() == i);
                assert(self.send_seg@ == before.remove(i as int).insert(i as int, (k, seg)));
                assert(entries_view(self.send_seg@) =~= entries_view(before).update(i as int, (k, seg@)));
                assert(entries_view(self.send_seg@) =~= a2.send_seg + s0.send_seg.subrange(
                    i as int + 1,
                    n as int,
                ));
                assert(outputs_view(outputs@) =~= out0 + a2.outputs);
            }
            i = i + 1;
        }
        proof {
            let a = tick_sends(s0.send_seg, now, d0);
            assert(s0.send_seg.subrange(0, n as int) =~= s0.send_seg);
            assert(s0.send_seg.subrange(n as int, n as int) =~= Seq::<((BacnetAddr, u8), SendView)>::empty());
            assert(entries_view(self.send_seg@) =~= a.send_seg);
            lemma_tick_sends_keys(s0.send_seg, now, d0);
            lemma_same_keys(s0.send_seg, a.send_seg);
            assert forall|k: (BacnetAddr, u8)| #[trigger] has_key(a.send_seg, k) implies send_wf(
                lookup(a.send_seg, k)->0,
            ) by {
                let j = crate::stack::table::key_index(a.send_seg, k);
                assert(a.send_seg[j].0 == k);
                assert(s0.send_seg[j].0 == k);
                crate::stack::table::lemma_key_at(s0.send_seg, k, j);
                crate::stack::table::lemma_key_at(a.send_seg, k, j);
                assert(has_key(s0.send_seg, k));
            }
        }
        deadline
    }

    fn tick_pass_recvs(&mut self, now: u64, deadline: Option<u64>, outputs: &mut Vec<Output>) -> (r: (
        Vec<(BacnetAddr, u8)>,
        Option<u64>,
    ))
        requires
            stack_wf(old(self)@),
        ensures
            ({
                let a = tick_recvs(old(self)@.recv_seg, now, deadline);
                &&& final(self)@ == (StackView { recv_seg: a.recv_seg, ..old(self)@ })
                &&& outputs_view(final(outputs)@) == outputs_view(old(outputs)@) + a.outputs
                &&& r.0@ == a.to_free
                &&& r.1 == a.deadline
            }),
            stack_wf(final(self)@),
    {
        let ghost s0 = self@;
        let ghost r0 = s0.recv_seg;
        let ghost out0 = outputs_view(outputs@);
        let mut to_free: Vec<(BacnetAddr, u8)> = Vec::new();
        let mut next = deadline;
        let mut j: usize = 0;
        let ghost mut done: int = 0;
        assert(r0.subrange(0, 0) =~= Seq::<((BacnetAddr, u8), RecvView)>::empty());
        assert(out0 + Seq::<OutputView>::empty() =~= out0);
        assert(r0.subrange(0, r0.len() as int) =~= r0);
        while j < self.recv_seg.len()
            invariant
                0 <= done <= r0.len(),
                ({
                    let a = tick_recvs(r0.subrange(0, done), now, deadline);
                    &&& entries_view(self.recv_seg@) =~= a.recv_seg + r0.subrange(done, r0.len() as int)
                    &&& j == a.recv_seg.len()
                    &&& outputs_view(outputs@) == out0 + a.outputs
                    &&& to_free@ == a.to_free
                    &&& next == a.deadline
                }),
                self.config == s0.config,
                entries_view(self.invoke_id_pools@) == s0.pools,
                entries_view(self.in_flight@) == s0.in_flight,
                entries_view(self.send_seg@) == s0.send_seg,
            decreases self.recv_seg@.len() - j,
        {
            let ghost pre = r0.subrange(0, done);
            let ghost a = tick_recvs(pre, now, deadline);
            proof {
                assert(r0.subrange(0, done + 1).drop_last() =~= pre);
                assert(entries_view(self.recv_seg@)[j as int] == r0[done]);
                assert(r0.subrange(0, done + 1).last() == r0[done]);
            }
            let ghost before = self.recv_seg@;
            if self.recv_seg[j].1.is_timed_out(now) {
                let (k, _state) = take_entry(&mut self.recv_seg, j);
                push_output(
                    outputs,
                    Output::Event(
                        BacnetEvent::Abort { invoke_id: k.1, reason: ABORT_REASON_REASSEMBLY_TIMEOUT },
                    ),
                );
                to_free.push(k);
                proof {
                    done = done + 1;
                    let a2 = tick_recvs(r0.subrange(0, done), now, deadline);
                    assert(a2 == tick_recv(a, r0[done - 1], now));
                    assert(a2.recv_seg == a.recv_seg);
                    assert(self.recv_seg@ == before.remove(j as int));
                    assert(entries_view(self.recv_seg@) =~= entries_view(before).remove(j as int));
                    assert(entries_view(self.recv_seg@) =~= a2.recv_seg + r0.subrange(done, r0.len() as int));
                }
            } else {
                next = earlier(next, saturating_add(self.recv_seg[j].1.last_activity, SEG_TIMEOUT_MS));
                j = j + 1;
                proof {
                    done = done + 1;
                    let a2 = tick_recvs(r0.subrange(0, done), now, deadline);
                    assert(a2 == tick_recv(a, r0[done - 1], now));
                    assert(a2.recv_seg =~= a.recv_seg.push(r0[done - 1]));
                    assert(entries_view(self.recv_seg@) =~= a2.recv_seg + r0.subrange(done, r0.len() as int));
                }
            }
        }
        proof {
            let a = tick_recvs(r0.subrange(0, done), now, deadline);
            assert(done == r0.len());
            assert(r0.subrange(0, done) =~= r0);
            assert(r0.subrange(done, r0.len() as int) =~= Seq::<((BacnetAddr, u8), RecvView)>::empty());
            assert(entries_view(self.recv_seg@) =~= a.recv_seg);
            lemma_tick_recvs_keys(r0, now, deadline);
        }
        (to_free, next)
    }

    fn handle_tick(&mut self, now: u64) -> (r: Vec<Output>)
        requires
            stack_wf(old(self)@),
        ensures
            stack_wf(final(self)@),
            (final(self)@, outputs_view(r@)) == spec_tick(old(self)@, now),
    {
        let ghost s0 = self@;
        let mut outputs: Vec<Output> = Vec::new();
        let (to_free, deadline) = self.tick_pass_slots(now, &mut outputs);
        self.free_marked(&to_free);
        let deadline = self.tick_pass_sends(now, deadline, &mut outputs);
        let (to_free_recv, deadline) = self.tick_pass_recvs(now, deadline, &mut outputs);
        self.free_marked(&to_free_recv);
        if let Some(d) = deadline {
            push_output(&mut outputs, Output::Deadline(d));
        }
        proof {
            let a1 = tick_slots(s0.in_flight, now, s0.config);
            let s1 = free_all(StackView { in_flight: a1.in_flight, ..s0 }, a1.to_free);
            let a2 = tick_sends(s1.send_seg, now, a1.deadline);
            let a3 = tick_recvs(s1.recv_seg, now, a2.deadline);
            assert(outputs_view(outputs@) =~= spec_tick(s0, now).1);
        }
        outputs
    }

    /// Processes one input and returns what the host must do (see
    /// `spec_process`).
    pub fn process(&mut self, input: Input) -> (r: Vec<Output>)
        requires
            stack_wf(old(self)@),
        ensures
            stack_wf(final(self)@),
            (final(self)@, outputs_view(r@)) == spec_process(old(self)@, input),
    {
        match input {
            Input::Received { data, src } => self.handle_received(data.as_slice(), src),
            Input::Tick { now } => self.handle_tick(now),
            Input::Send { service, dest } => self.handle_send(service, dest),
        }
    }

    fn send_is_rejected(&self, service: &BacnetService, dest: BacnetAddr) -> (r: bool)
        requires
            keys_unique(self@.pools),
        ensures
            r == send_rejected(self@, *service, dest),
    {
        let pidx = find_addr(&self.invoke_id_pools, dest);
        proof {
            lemma_found(self.invoke_id_pools@, dest, pidx);
        }
        let free = match pidx {
            Some(j) => self.invoke_id_pools[j].1.has_free(),
            None => true,
        };
        if !free {
            return false;
        }
        if !service.is_encodable() {
            return true;
        }
        let data = service.encode();
        let max_apdu = self.config.max_apdu_length;
        let big = if max_apdu < 4 {
            true
        } else {
            data.len() > max_apdu - 4
        };
        big && max_apdu <= 6
    }

    fn handle_received(&mut self, data: &[u8], src: BacnetAddr) -> (r: Vec<Output>)
        requires
            stack_wf(old(self)@),
        ensures
            stack_wf(final(self)@),
            (final(self)@, outputs_view(r@)) == spec_received(old(self)@, data@, src),
    {
        let bvlc_frame = match bvlc::decode(data) {
            Ok(f) => f,
            Err(e) => return malformed_event(e),
        };
        let npdu_frame = match npdu::decode(bvlc_frame.npdu) {
            Ok(f) => f,
            Err(e) => return malformed_event(e),
        };
        if npdu_frame.is_network_layer_message {
            return self.handle_network_layer_message(npdu_frame.apdu, src);
        }
        self.handle_apdu(npdu_frame.apdu, src)
    }

}

/// The event reporting a datagram that does not decode.
fn malformed_event(e: DecodeError) -> (r: Vec<Output>)
    ensures
        outputs_view(r@) == malformed_outputs(e),
{
    let message = join("malformed datagram: ", e.to_string().as_str());
    let mut r: Vec<Output> = Vec::new();
    r.push(Output::Event(BacnetEvent::Error { invoke_id: 0, message }));
    assert(outputs_view(r@) =~= malformed_outputs(e));
    r
}

/// The text of an Error APDU's event.
fn error_message_text(class: u32, code: u32) -> (s: String)
    ensures
        s@ == error_message(class, code),
{
    let s = join("error class=", decimal_string(class).as_str());
    let s = join(s.as_str(), " code=");
    join(s.as_str(), decimal_string(code).as_str())
}

/// The text of a Reject APDU's event.
fn reject_message_text(reason: u8) -> (s: String)
    ensures
        s@ == reject_message(reason),
{
    join("reject reason=", decimal_string(reason as u32).as_str())
}

/// Replacing or dropping a reassembly state keeps the stack well formed.
pub proof fn lemma_recv_seg_wf(s: StackView, k: (BacnetAddr, u8), v: RecvView)
    requires
        stack_wf(s),
    ensures
        stack_wf(StackView { recv_seg: assign(s.recv_seg, k, v), ..s }),
        stack_wf(StackView { recv_seg: unassign(assign(s.recv_seg, k, v), k), ..s }),
{
    lemma_assign(s.recv_seg, k, v);
    lemma_unassign(assign(s.recv_seg, k, v), k);
}

/// Moving a sending state's window keeps the stack well formed.
pub proof fn lemma_send_seg_wf(s: StackView, k: (BacnetAddr, u8), v: SendView)
    requires
        stack_wf(s),
        send_wf(v),
    ensures
        stack_wf(StackView { send_seg: assign(s.send_seg, k, v), ..s }),
        stack_wf(StackView { send_seg: unassign(s.send_seg, k), ..s }),
{
    lemma_assign(s.send_seg, k, v);
    lemma_unassign(s.send_seg, k);
    let t = StackView { send_seg: assign(s.send_seg, k, v), ..s };
    assert forall|k2: (BacnetAddr, u8)| #[trigger] has_key(t.send_seg, k2) implies send_wf(
        lookup(t.send_seg, k2)->0,
    ) by {
        if k2 != k {
            assert(lookup(t.send_seg, k2) == lookup(s.send_seg, k2));
        }
    }
    let u = StackView { send_seg: unassign(s.send_seg, k), ..s };
    assert forall|k2: (BacnetAddr, u8)| #[trigger] has_key(u.send_seg, k2) implies send_wf(
        lookup(u.send_seg, k2)->0,
    ) by {
        assert(lookup(u.send_seg, k2) == lookup(s.send_seg, k2));
    }
}

/// Appends a `Transmit` to `dest` of each frame, in order.
fn push_transmits(out: &mut Vec<Output>, frames: Vec<Vec<u8>>, dest: BacnetAddr)
    ensures
        outputs_view(final(out)@) == outputs_view(old(out)@) + transmit_all(frames_view(frames@), dest),
{
    let ghost all = frames_view(frames@);
    let mut frames = frames;
    while frames.len() > 0
        invariant
            outputs_view(out@) + transmit_all(frames_view(frames@), dest) =~= outputs_view(old(out)@)
                + transmit_all(all, dest),
        decreases frames@.len(),
    {
        let ghost before = frames@;
        let f = frames.remove(0);
        proof {
            assert(frames_view(before) =~= seq![f@] + frames_view(frames@));
            assert(out@.push(Output::Transmit { data: f, dest }).map_values(|o: Output| o@) =~= outputs_view(
                out@,
            ).push(OutputView::Transmit { data: f@, dest }));
        }
        out.push(Output::Transmit { data: f, dest });
    }
    assert(transmit_all(frames_view(frames@), dest) =~= Seq::<OutputView>::empty());
}

/// A `Transmit` to `dest` of each frame, in order.
fn transmit_outputs(frames: Vec<Vec<u8>>, dest: BacnetAddr) -> (r: Vec<Output>)
    ensures
        outputs_view(r@) == transmit_all(frames_view(frames@), dest),
{
    let mut out: Vec<Output> = Vec::new();
    push_transmits(&mut out, frames, dest);
    assert(outputs_view(out@) =~= transmit_all(frames_view(frames@), dest));
    out
}

/// Appends one output.
fn push_output(out: &mut Vec<Output>, o: Output)
    ensures
        outputs_view(final(out)@) == outputs_view(old(out)@).push(o@),
{
    out.push(o);
    assert(outputs_view(out@) =~= outputs_view(old(out)@).push(o@));
}

/// `a + b`, or `u64::MAX` when that does not fit.
fn saturating_add(a: u64, b: u64) -> (r: u64)
    ensures
        r == sat_add(a, b),
{
    if a <= u64::MAX - b {
        a + b
    } else {
        u64::MAX
    }
}

/// The earlier of a pending deadline and `d`.
fn earlier(e: Option<u64>, d: u64) -> (r: Option<u64>)
    ensures
        r == earliest(e, d),
{
    match e {
        Some(x) => Some(if x <= d { x } else { d }),
        None => Some(d),
    }
}

/// Two tables with the same keys at the same places have the same keys.
pub proof fn lemma_same_keys<K, V1, V2>(s: Seq<(K, V1)>, t: Seq<(K, V2)>)
    requires
        s.len() == t.len(),
        forall|j: int| 0 <= j < s.len() ==> (#[trigger] s[j]).0 == t[j].0,
    ensures
        keys_unique(s) == keys_unique(t),
        forall|k: K| #[trigger] has_key(s, k) == has_key(t, k),
{
    assert forall|k: K| #[trigger] has_key(s, k) == has_key(t, k) by {
        if has_key(s, k) {
            let j = crate::stack::table::key_index(s, k);
            assert(s[j].0 == k);
            assert(t[j].0 == k);
        }
        if has_key(t, k) {
            let j = crate::stack::table::key_index(t, k);
            assert(t[j].0 == k);
            assert(s[j].0 == k);
        }
    }
    if keys_unique(s) {
        assert forall|a: int, b: int|
            0 <= a < t.len() && 0 <= b < t.len() && a != b implies (#[trigger] t[a]).0 != (
            #[trigger] t[b]).0 by {
            assert(s[a].0 == t[a].0);
            assert(s[b].0 == t[b].0);
        }
    }
    if keys_unique(t) {
        assert forall|a: int, b: int|
            0 <= a < s.len() && 0 <= b < s.len() && a != b implies (#[trigger] s[a]).0 != (
            #[trigger] s[b]).0 by {
            assert(s[a].0 == t[a].0);
            assert(s[b].0 == t[b].0);
        }
    }
}

/// The request pass keeps every key in its place.
pub proof fn lemma_tick_slots_keys(entries: Seq<((BacnetAddr, u8), SlotView)>, now: u64, config: StackConfig)
    ensures
        tick_slots(entries, now, config).in_flight.len() == entries.len(),
        forall|j: int|
            0 <= j < entries.len() ==> (#[trigger] tick_slots(entries, now, config).in_flight[j]).0
                == entries[j].0,
    decreases entries.len(),
{
    if entries.len() > 0 {
        lemma_tick_slots_keys(entries.drop_last(), now, config);
    }
}

/// The segmented-send pass keeps every key in its place, and each sending
/// state's well-formedness.
pub proof fn lemma_tick_sends_keys(entries: Seq<((BacnetAddr, u8), SendView)>, now: u64, d: Option<u64>)
    ensures
        tick_sends(entries, now, d).send_seg.len() == entries.len(),
        forall|j: int|
            0 <= j < entries.len() ==> (#[trigger] tick_sends(entries, now, d).send_seg[j]).0
                == entries[j].0 && (send_wf(tick_sends(entries, now, d).send_seg[j].1) == send_wf(
                entries[j].1,
            )),
    decreases entries.len(),
{
    if entries.len() > 0 {
        lemma_tick_sends_keys(entries.drop_last(), now, d);
    }
}

/// The reassembly pass keeps a subset of the entries, so keys stay unique.
pub proof fn lemma_tick_recvs_keys(entries: Seq<((BacnetAddr, u8), RecvView)>, now: u64, d: Option<u64>)
    requires
        keys_unique(entries),
    ensures
        keys_unique(tick_recvs(entries, now, d).recv_seg),
        forall|k: (BacnetAddr, u8)| #[trigger] has_key(tick_recvs(entries, now, d).recv_seg, k) ==> has_key(
            entries,
            k,
        ),
    decreases entries.len(),
{
    if entries.len() > 0 {
        let p = entries.drop_last();
        assert(keys_unique(p)) by {
            assert forall|a: int, b: int|
                0 <= a < p.len() && 0 <= b < p.len() && a != b implies (#[trigger] p[a]).0 != (
                #[trigger] p[b]).0 by {
                assert(p[a] == entries[a]);
                assert(p[b] == entries[b]);
            }
        }
        lemma_tick_recvs_keys(p, now, d);
        let r = tick_recvs(p, now, d).recv_seg;
        let last = entries.last();
        assert forall|k: (BacnetAddr, u8)| #[trigger] has_key(r, k) implies has_key(entries, k) by {
            assert(has_key(p, k));
            let j = crate::stack::table::key_index(p, k);
            assert(p[j].0 == k);
            assert(entries[j] == p[j]);
        }
        if !(now >= last.1.last_activity + SEG_TIMEOUT_MS) {
            let r2 = r.push(last);
            assert(!has_key(r, last.0)) by {
                if has_key(r, last.0) {
                    assert(has_key(p, last.0));
                    let j = crate::stack::table::key_index(p, last.0);
                    assert(p[j].0 == last.0);
                    assert(entries[j].0 == entries[entries.len() - 1].0);
                }
            }
            assert forall|a: int, b: int|
                0 <= a < r2.len() && 0 <= b < r2.len() && a != b implies (#[trigger] r2[a]).0 != (
                #[trigger] r2[b]).0 by {
                if a == r.len() as int {
                    assert(r[b] == r2[b]);
                    assert((r[b]).0 != last.0) by {
                        if r[b].0 == last.0 {
                            assert(has_key(r, last.0));
                        }
                    }
                } else if b == r.len() as int {
                    assert(r[a] == r2[a]);
                    assert((r[a]).0 != last.0) by {
                        if r[a].0 == last.0 {
                            assert(has_key(r, last.0));
                        }
                    }
                } else {
                    assert(r[a] == r2[a]);
                    assert(r[b] == r2[b]);
                }
            }
            assert forall|k: (BacnetAddr, u8)| #[trigger] has_key(r2, k) implies has_key(entries, k) by {
                let j = crate::stack::table::key_index(r2, k);
                assert(r2[j].0 == k);
                if j == r.len() as int {
                    assert(entries[entries.len() - 1].0 == k);
                } else {
                    assert(r[j] == r2[j]);
                    assert(has_key(r, k));
                }
            }
        }
    }
}

/// Freeing marked requests in turn keeps the stack well formed.
pub proof fn lemma_free_all_wf(s: StackView, keys: Seq<(BacnetAddr, u8)>)
    requires
        stack_wf(s),
    ensures
        stack_wf(free_all(s, keys)),
    decreases keys.len(),
{
    if keys.len() > 0 {
        lemma_free_all_wf(s, keys.drop_last());
        lemma_free_slot_wf(free_all(s, keys.drop_last()), keys.last().0, keys.last().1);
    }
}

} // verus!
