//! What holds of the stack across its operations.
use vstd::prelude::*;

use crate::codec::apdu::{spec_abort, spec_complex_ack, spec_error_apdu, spec_reject, spec_simple_ack};
use crate::codec::bvlc::spec_bvlc_decode;
use crate::codec::types::decode_error_message;
use crate::codec::types::{pv_roundtrips, ObjectIdentifier, PropertyValueView};
use crate::services::i_am::{i_am_service_bytes, lemma_i_am_fields};
use crate::stack::addr::BacnetAddr;
use crate::text::decimal;
use crate::stack::invoke_id::{empty_pool, lemma_allocate_finds_free, next_free, pool_full, PoolView};
use crate::stack::slot::SlotView;
use crate::stack::table::{
    assign, has_key, keys_unique, lemma_assign, lemma_key_at, lemma_unassign, lookup,
};
use crate::stack::types::{
    service_choice_of, service_encodable, service_request_bytes, BacnetService, UnconfirmedView, EventView, OutputView, StackConfig,
};
use crate::stack::{
    error_message, exhausted_message, free_all, free_slot_spec, reject_message, holds_invoke_id, lemma_same_keys,
    lemma_tick_slots_keys, new_send_state, pool_for, rejected_message, request_frame, send_rejected, sat_add, spec_apdu, spec_received, spec_send, spec_tick,
    stack_wf, tick_recvs, tick_slots, StackView,
};
use crate::stack::segmentation::{
    fragment_count, send_frame, RecvView, SEG_TIMEOUT_MS,
};

verus! {

/// Freeing request (`dest`, `id`) removes it, returns `id` to the pool of
/// `dest`, and leaves every other request as it was.
pub proof fn lemma_free_slot_effect(s: StackView, dest: BacnetAddr, id: u8)
    requires
        keys_unique(s.in_flight),
        keys_unique(s.pools),
    ensures
        !has_key(free_slot_spec(s, dest, id).in_flight, (dest, id)),
        lookup(free_slot_spec(s, dest, id).pools, dest) matches Some(p) ==> !p.used.contains(id),
        forall|k: (BacnetAddr, u8)|
            k != (dest, id) ==> #[trigger] lookup(free_slot_spec(s, dest, id).in_flight, k) == lookup(
                s.in_flight,
                k,
            ),
{
    lemma_unassign(s.in_flight, (dest, id));
    if let Some(p) = lookup(s.pools, dest) {
        lemma_assign(s.pools, dest, PoolView { used: p.used.remove(id), hint: p.hint });
    }
}

/// The invoke id a reply answers, for the APDUs that end a request: a
/// SimpleACK, an unsegmented ComplexACK, an Error, an Abort or a Reject
/// that decodes.
pub open spec fn reply_invoke_id(apdu: Seq<u8>) -> Option<u8> {
    if apdu.len() == 0 {
        None
    } else {
        let t = apdu[0] >> 4u8;
        if t == 3 {
            match spec_complex_ack(apdu) {
                Ok((id, _, None, _)) => Some(id),
                _ => None,
            }
        } else if t == 2 {
            match spec_simple_ack(apdu) {
                Ok(a) => Some(a.invoke_id),
                Err(_) => None,
            }
        } else if t == 5 {
            match spec_error_apdu(apdu) {
                Ok(e) => Some(e.invoke_id),
                Err(_) => None,
            }
        } else if t == 7 {
            match spec_abort(apdu) {
                Ok(a) => Some(a.invoke_id),
                Err(_) => None,
            }
        } else if t == 6 {
            match spec_reject(apdu) {
                Ok(r) => Some(r.invoke_id),
                Err(_) => None,
            }
        } else {
            None
        }
    }
}

/// The event a reply is reported as: a Response carrying the payload for
/// an unsegmented ComplexACK (empty for a SimpleACK), an Error naming the
/// class and code of an Error APDU, an Abort with its reason, and an Error
/// naming the reason of a Reject.
pub open spec fn reply_event(apdu: Seq<u8>) -> EventView {
    let t = apdu[0] >> 4u8;
    if t == 3 {
        match spec_complex_ack(apdu) {
            Ok((id, _, _, data)) => EventView::Response { invoke_id: id, payload: data },
            Err(_) => EventView::Timeout { invoke_id: 0 },
        }
    } else if t == 2 {
        EventView::Response { invoke_id: spec_simple_ack(apdu)->Ok_0.invoke_id, payload: Seq::empty() }
    } else if t == 5 {
        let e = spec_error_apdu(apdu)->Ok_0;
        EventView::Error { invoke_id: e.invoke_id, message: error_message(e.error_class, e.error_code) }
    } else if t == 7 {
        let a = spec_abort(apdu)->Ok_0;
        EventView::Abort { invoke_id: a.invoke_id, reason: a.abort_reason }
    } else {
        let r = spec_reject(apdu)->Ok_0;
        EventView::Error { invoke_id: r.invoke_id, message: reject_message(r.reject_reason) }
    }
}

/// A reply from `src` ends the request it answers: request (`src`, id) is
/// gone, with any segmented sending or reassembly under its key, the id is
/// free again in the pool of `src`, the only output is the event that
/// reports the reply, and every other request is untouched.
pub proof fn lemma_reply_ends_request(s: StackView, apdu: Seq<u8>, src: BacnetAddr)
    requires
        stack_wf(s),
        reply_invoke_id(apdu) is Some,
    ensures
        ({
            let id = reply_invoke_id(apdu)->0;
            let (t, outs) = spec_apdu(s, apdu, src);
            &&& !has_key(t.in_flight, (src, id))
            &&& !has_key(t.send_seg, (src, id))
            &&& !has_key(t.recv_seg, (src, id))
            &&& lookup(t.pools, src) matches Some(p) ==> !p.used.contains(id)
            &&& forall|k: (BacnetAddr, u8)|
                k != (src, id) ==> #[trigger] lookup(t.in_flight, k) == lookup(s.in_flight, k)
            &&& outs == seq![OutputView::Event(reply_event(apdu))]
        }),
{
    let id = reply_invoke_id(apdu)->0;
    lemma_free_slot_effect(s, src, id);
    lemma_unassign(s.send_seg, (src, id));
    lemma_unassign(s.recv_seg, (src, id));
}

/// An allocation never hands out the invoke id of a request still
/// outstanding to the same destination, and a request that is not refused
/// is recorded under it.
pub proof fn lemma_send_fresh_invoke_id(s: StackView, service: BacnetService, dest: BacnetAddr)
    requires
        stack_wf(s),
        next_free(pool_for(s, dest).used, pool_for(s, dest).hint, 0) is Some,
        !send_rejected(s, service, dest),
    ensures
        ({
            let id = next_free(pool_for(s, dest).used, pool_for(s, dest).hint, 0)->0;
            &&& !has_key(s.in_flight, (dest, id))
            &&& has_key(spec_send(s, service, dest).0.in_flight, (dest, id))
        }),
{
    let id = next_free(pool_for(s, dest).used, pool_for(s, dest).hint, 0)->0;
    lemma_allocate_finds_free(pool_for(s, dest).used, pool_for(s, dest).hint);
    if has_key(s.in_flight, (dest, id)) {
        assert(holds_invoke_id(s.pools, (dest, id)));
    }
    let placeholder = SlotView {
        request_bytes: Seq::empty(),
        dest,
        sent_at: 0,
        retry_count: 0,
        next_retry_at: u64::MAX,
    };
    lemma_assign(s.in_flight, (dest, id), placeholder);
    let frame = request_frame(id, service_choice_of(service), service_request_bytes(service));
    lemma_assign(
        s.in_flight,
        (dest, id),
        SlotView {
            request_bytes: frame,
            dest,
            sent_at: 0,
            retry_count: 0,
            next_retry_at: s.config.apdu_timeout_ms,
        },
    );
}

/// The pools after a send took `id` for `dest` hold `id` for `dest`.
proof fn lemma_send_pools(s: StackView, dest: BacnetAddr, id: u8)
    requires
        stack_wf(s),
    ensures
        ({
            let pools1 = if has_key(s.pools, dest) {
                s.pools
            } else {
                s.pools.push((dest, empty_pool()))
            };
            let pool = pool_for(s, dest);
            let pools2 = assign(
                pools1,
                dest,
                PoolView { used: pool.used.insert(id), hint: ((id + 1) % 256) as u8 },
            );
            lookup(pools2, dest) matches Some(p) && p.used.contains(id)
        }),
{
    let pools1 = if has_key(s.pools, dest) {
        s.pools
    } else {
        s.pools.push((dest, empty_pool()))
    };
    if !has_key(s.pools, dest) {
        lemma_assign(s.pools, dest, empty_pool());
    }
    let pool = pool_for(s, dest);
    lemma_assign(pools1, dest, PoolView { used: pool.used.insert(id), hint: ((id + 1) % 256) as u8 });
}

/// A request that fits the maximum APDU length with its 4-octet header, to
/// a destination with an invoke id free, goes out as one frame built from
/// the service's choice and data under the first free id; the deadline is
/// the APDU timeout, and the request is in flight holding that frame with
/// no retries yet.
pub proof fn lemma_send_unsegmented(s: StackView, service: BacnetService, dest: BacnetAddr)
    requires
        stack_wf(s),
        next_free(pool_for(s, dest).used, pool_for(s, dest).hint, 0) is Some,
        service_encodable(service),
        4 + service_request_bytes(service).len() <= s.config.max_apdu_length,
    ensures
        ({
            let id = next_free(pool_for(s, dest).used, pool_for(s, dest).hint, 0)->0;
            let frame = request_frame(id, service_choice_of(service), service_request_bytes(service));
            let (t, outs) = spec_send(s, service, dest);
            &&& outs == seq![
                OutputView::Transmit { data: frame, dest },
                OutputView::Deadline(s.config.apdu_timeout_ms),
            ]
            &&& lookup(t.in_flight, (dest, id)) == Some(
                SlotView {
                    request_bytes: frame,
                    dest,
                    sent_at: 0,
                    retry_count: 0,
                    next_retry_at: s.config.apdu_timeout_ms,
                },
            )
            &&& lookup(t.pools, dest) matches Some(p) && p.used.contains(id)
        }),
{
    let id = next_free(pool_for(s, dest).used, pool_for(s, dest).hint, 0)->0;
    let frame = request_frame(id, service_choice_of(service), service_request_bytes(service));
    lemma_send_pools(s, dest, id);
    lemma_assign(
        s.in_flight,
        (dest, id),
        SlotView {
            request_bytes: frame,
            dest,
            sent_at: 0,
            retry_count: 0,
            next_retry_at: s.config.apdu_timeout_ms,
        },
    );
}

/// A request too long for the maximum APDU length (above 6 octets), to a
/// destination with an invoke id free, goes out segmented under the first
/// free id: the frames of the first window (the first four segments, or
/// all of them when fewer) are transmitted in order, followed by exactly one
/// deadline, the segment timeout; the sending state is kept, and the id is
/// held by a slot with no frame, which the retry pass of a tick never
/// resends nor times out.
pub proof fn lemma_send_segmented(s: StackView, service: BacnetService, dest: BacnetAddr)
    requires
        stack_wf(s),
        next_free(pool_for(s, dest).used, pool_for(s, dest).hint, 0) is Some,
        service_encodable(service),
        4 + service_request_bytes(service).len() > s.config.max_apdu_length,
        s.config.max_apdu_length > 6,
        service_request_bytes(service).len() <= usize::MAX,
    ensures
        ({
            let id = next_free(pool_for(s, dest).used, pool_for(s, dest).hint, 0)->0;
            let data = service_request_bytes(service);
            let seg = new_send_state(s, data, service_choice_of(service), id, dest);
            let n = fragment_count(data.len(), (s.config.max_apdu_length - 6) as nat);
            let w = if n < 4 { n } else { 4 };
            let (t, outs) = spec_send(s, service, dest);
            &&& seg.total_fragments == n
            &&& outs.len() == w + 1
            &&& forall|j: int| 0 <= j < w ==> #[trigger] outs[j] == OutputView::Transmit {
                data: send_frame(seg, j as nat),
                dest,
            }
            &&& outs[w as int] == OutputView::Deadline(SEG_TIMEOUT_MS)
            &&& lookup(t.send_seg, (dest, id)) == Some(seg)
            &&& lookup(t.in_flight, (dest, id)) matches Some(slot) && slot.request_bytes.len() == 0
                && !due_for_retry(slot, 0, s.config) && forall|now: u64|
                !#[trigger] due_for_timeout(slot, now, s.config)
            &&& lookup(t.pools, dest) matches Some(p) && p.used.contains(id)
        }),
{
    let id = next_free(pool_for(s, dest).used, pool_for(s, dest).hint, 0)->0;
    let data = service_request_bytes(service);
    let seg = new_send_state(s, data, service_choice_of(service), id, dest);
    let frag = (s.config.max_apdu_length - 6) as usize;
    let n = fragment_count(data.len(), frag as nat);
    let len = data.len() as int;
    let q = len / frag as int;
    let r = len % frag as int;
    assert(len == frag * q + r && 0 <= r < frag) by {
        vstd::arithmetic::div_mod::lemma_fundamental_div_mod(len, frag as int);
    }
    assert(n <= len) by (nonlinear_arith)
        requires
            frag >= 1,
            len == frag * q + r,
            0 <= r < frag,
            q >= 0,
            n == (if r == 0 { q } else { q + 1 }),
    ;
    lemma_send_pools(s, dest, id);
    lemma_assign(s.send_seg, (dest, id), seg);
    lemma_assign(
        s.in_flight,
        (dest, id),
        SlotView {
            request_bytes: Seq::empty(),
            dest,
            sent_at: 0,
            retry_count: 0,
            next_retry_at: u64::MAX,
        },
    );
}

/// With all 256 invoke ids of `dest` in use a send changes nothing and
/// reports only the exhaustion error; with one free it never does.
pub proof fn lemma_send_exhausted(s: StackView, service: BacnetService, dest: BacnetAddr)
    requires
        stack_wf(s),
    ensures
        pool_full(pool_for(s, dest).used) ==> spec_send(s, service, dest) == (
            s,
            seq![OutputView::Event(EventView::Error { invoke_id: 0, message: exhausted_message() })],
        ),
        !pool_full(pool_for(s, dest).used) ==> spec_send(s, service, dest).1 != seq![
            OutputView::Event(EventView::Error { invoke_id: 0, message: exhausted_message() }),
        ],
{
    lemma_allocate_finds_free(pool_for(s, dest).used, pool_for(s, dest).hint);
    if pool_full(pool_for(s, dest).used) {
        if !has_key(s.pools, dest) {
            assert(pool_for(s, dest).used.contains(0u8));
        }
        assert(spec_send(s, service, dest).0 =~= s);
    } else {
        let outs = spec_send(s, service, dest).1;
        if send_rejected(s, service, dest) {
            reveal_strlit("invoke ID pool exhausted");
            reveal_strlit(
                "request cannot be sent: it cannot be encoded or segmented within the maximum APDU length",
            );
            assert(exhausted_message()[0] != rejected_message()[0]);
        } else {
            assert(outs.last() is Deadline);
        }
    }
}

/// Freeing marked requests in turn removes exactly those requests, with
/// their segmented sendings and reassemblies.
pub proof fn lemma_free_all(s: StackView, keys: Seq<(BacnetAddr, u8)>)
    requires
        keys_unique(s.in_flight),
        keys_unique(s.pools),
        keys_unique(s.send_seg),
        keys_unique(s.recv_seg),
    ensures
        keys_unique(free_all(s, keys).in_flight),
        keys_unique(free_all(s, keys).pools),
        keys_unique(free_all(s, keys).send_seg),
        keys_unique(free_all(s, keys).recv_seg),
        free_all(s, keys).config == s.config,
        forall|k: (BacnetAddr, u8)| #[trigger] lookup(free_all(s, keys).in_flight, k) == if keys.contains(k) {
            None
        } else {
            lookup(s.in_flight, k)
        },
        forall|k: (BacnetAddr, u8)| #[trigger] lookup(free_all(s, keys).send_seg, k) == if keys.contains(k) {
            None
        } else {
            lookup(s.send_seg, k)
        },
        forall|k: (BacnetAddr, u8)| #[trigger] lookup(free_all(s, keys).recv_seg, k) == if keys.contains(k) {
            None
        } else {
            lookup(s.recv_seg, k)
        },
    decreases keys.len(),
{
    if keys.len() > 0 {
        let p = keys.drop_last();
        let last = keys.last();
        lemma_free_all(s, p);
        let t = free_all(s, p);
        lemma_unassign(t.in_flight, last);
        lemma_unassign(t.send_seg, last);
        lemma_unassign(t.recv_seg, last);
        if let Some(q) = lookup(t.pools, last.0) {
            lemma_assign(t.pools, last.0, PoolView { used: q.used.remove(last.1), hint: q.hint });
        }
        assert forall|k: (BacnetAddr, u8)| (keys.contains(k) <==> (p.contains(k) || k == last)) by {
            if keys.contains(k) && k != last {
                let j = choose|j: int| 0 <= j < keys.len() && keys[j] == k;
                assert(j < keys.len() - 1);
                assert(p[j] == k);
            }
            if p.contains(k) {
                let j = choose|j: int| 0 <= j < p.len() && p[j] == k;
                assert(keys[j] == k);
            }
            if k == last {
                assert(keys[keys.len() - 1] == k);
            }
        }
    }
}

/// The keys the reassembly pass marks are keys of reassemblies.
pub proof fn lemma_tick_recvs_marks(entries: Seq<((BacnetAddr, u8), RecvView)>, now: u64, d: Option<u64>)
    ensures
        forall|k: (BacnetAddr, u8)| #[trigger] tick_recvs(entries, now, d).to_free.contains(k) ==> has_key(
            entries,
            k,
        ),
    decreases entries.len(),
{
    if entries.len() > 0 {
        let p = entries.drop_last();
        lemma_tick_recvs_marks(p, now, d);
        assert forall|k: (BacnetAddr, u8)| #[trigger] tick_recvs(entries, now, d).to_free.contains(k) implies has_key(
            entries,
            k,
        ) by {
            let tf = tick_recvs(p, now, d).to_free;
            if tf.contains(k) {
                assert(has_key(p, k));
                let j = crate::stack::table::key_index(p, k);
                assert(p[j].0 == k);
                assert(entries[j] == p[j]);
            } else {
                assert(entries[entries.len() - 1].0 == k);
            }
        }
    }
}

/// A request with a frame is due at `now` with retries left.
pub open spec fn due_for_retry(slot: SlotView, now: u64, config: StackConfig) -> bool {
    slot.request_bytes.len() > 0 && now >= slot.next_retry_at && slot.retry_count < config.apdu_retries
}

/// A request with a frame is due at `now` with its retries used up.
pub open spec fn due_for_timeout(slot: SlotView, now: u64, config: StackConfig) -> bool {
    slot.request_bytes.len() > 0 && now >= slot.next_retry_at && slot.retry_count >= config.apdu_retries
}

/// The request pass at each position: a request due with retries left is
/// resent with its count up and its next retry one timeout from now; one
/// due with its retries used up is reported and marked; only such requests
/// are marked.
pub proof fn lemma_tick_slots_at(entries: Seq<((BacnetAddr, u8), SlotView)>, now: u64, config: StackConfig)
    ensures
        forall|i: int|
            0 <= i < entries.len() && due_for_retry(#[trigger] entries[i].1, now, config) ==> {
                let a = tick_slots(entries, now, config);
                &&& a.in_flight[i] == (
                    entries[i].0,
                    SlotView {
                        retry_count: (entries[i].1.retry_count + 1) as u8,
                        next_retry_at: sat_add(now, config.apdu_timeout_ms),
                        ..entries[i].1
                    },
                )
                &&& a.outputs.contains(
                    OutputView::Transmit { data: entries[i].1.request_bytes, dest: entries[i].0.0 },
                )
            },
        forall|i: int|
            0 <= i < entries.len() && due_for_timeout(#[trigger] entries[i].1, now, config) ==> {
                let a = tick_slots(entries, now, config);
                &&& a.to_free.contains(entries[i].0)
                &&& a.outputs.contains(
                    OutputView::Event(EventView::Timeout { invoke_id: entries[i].0.1 }),
                )
            },
        forall|k: (BacnetAddr, u8)| #[trigger] tick_slots(entries, now, config).to_free.contains(k) ==> exists|
            i: int,
        | 0 <= i < entries.len() && entries[i].0 == k && due_for_timeout(entries[i].1, now, config),
    decreases entries.len(),
{
    if entries.len() > 0 {
        let p = entries.drop_last();
        let n = entries.len() - 1;
        lemma_tick_slots_at(p, now, config);
        lemma_tick_slots_keys(p, now, config);
        let a = tick_slots(p, now, config);
        let b = tick_slots(entries, now, config);
        assert forall|i: int|
            0 <= i < entries.len() && due_for_retry(#[trigger] entries[i].1, now, config) implies {
            &&& b.in_flight[i] == (
                entries[i].0,
                SlotView {
                    retry_count: (entries[i].1.retry_count + 1) as u8,
                    next_retry_at: sat_add(now, config.apdu_timeout_ms),
                    ..entries[i].1
                },
            )
            &&& b.outputs.contains(
                OutputView::Transmit { data: entries[i].1.request_bytes, dest: entries[i].0.0 },
            )
        } by {
            if i < n {
                assert(p[i] == entries[i]);
                assert(due_for_retry(p[i].1, now, config));
                let o = OutputView::Transmit { data: entries[i].1.request_bytes, dest: entries[i].0.0 };
                assert(a.outputs.contains(o));
                let w = choose|w: int| 0 <= w < a.outputs.len() && a.outputs[w] == o;
                assert(b.outputs[w] == o);
            } else {
                assert(b.outputs[b.outputs.len() - 1] == OutputView::Transmit {
                    data: entries[i].1.request_bytes,
                    dest: entries[i].0.0,
                });
            }
        }
        assert forall|i: int|
            0 <= i < entries.len() && due_for_timeout(#[trigger] entries[i].1, now, config) implies {
            &&& b.to_free.contains(entries[i].0)
            &&& b.outputs.contains(OutputView::Event(EventView::Timeout { invoke_id: entries[i].0.1 }))
        } by {
            if i < n {
                assert(p[i] == entries[i]);
                assert(due_for_timeout(p[i].1, now, config));
                let o = OutputView::Event(EventView::Timeout { invoke_id: entries[i].0.1 });
                assert(a.outputs.contains(o));
                let w = choose|w: int| 0 <= w < a.outputs.len() && a.outputs[w] == o;
                assert(b.outputs[w] == o);
                assert(a.to_free.contains(entries[i].0));
                let v = choose|v: int| 0 <= v < a.to_free.len() && a.to_free[v] == entries[i].0;
                assert(b.to_free[v] == entries[i].0);
            } else {
                assert(b.outputs[b.outputs.len() - 1] == OutputView::Event(
                    EventView::Timeout { invoke_id: entries[i].0.1 },
                ));
                assert(b.to_free[b.to_free.len() - 1] == entries[i].0);
            }
        }
        assert forall|k: (BacnetAddr, u8)| #[trigger] b.to_free.contains(k) implies exists|i: int|
            0 <= i < entries.len() && entries[i].0 == k && due_for_timeout(entries[i].1, now, config) by {
            if a.to_free.contains(k) {
                let i = choose|i: int| 0 <= i < p.len() && p[i].0 == k && due_for_timeout(p[i].1, now, config);
                assert(entries[i] == p[i]);
            } else {
                let v = choose|v: int| 0 <= v < b.to_free.len() && b.to_free[v] == k;
                assert(v == b.to_free.len() - 1);
                assert(entries[n].0 == k);
            }
        }
    }
}

/// A tick at or after a request's retry time, with retries left, resends
/// its frame to its destination and schedules the next retry one timeout
/// later with the count up by one, provided no reassembly shares its key.
pub proof fn lemma_tick_retransmits(s: StackView, now: u64, k: (BacnetAddr, u8))
    requires
        stack_wf(s),
        lookup(s.in_flight, k) is Some,
        due_for_retry(lookup(s.in_flight, k)->0, now, s.config),
        !has_key(s.recv_seg, k),
    ensures
        ({
            let slot = lookup(s.in_flight, k)->0;
            let (t, outs) = spec_tick(s, now);
            &&& outs.contains(OutputView::Transmit { data: slot.request_bytes, dest: k.0 })
            &&& lookup(t.in_flight, k) == Some(
                SlotView {
                    retry_count: (slot.retry_count + 1) as u8,
                    next_retry_at: sat_add(now, s.config.apdu_timeout_ms),
                    ..slot
                },
            )
        }),
{
    let slot = lookup(s.in_flight, k)->0;
    let i = crate::stack::table::key_index(s.in_flight, k);
    assert(s.in_flight[i].0 == k);
    lemma_key_at(s.in_flight, k, i);
    lemma_tick_slots_at(s.in_flight, now, s.config);
    lemma_tick_slots_keys(s.in_flight, now, s.config);
    let a1 = tick_slots(s.in_flight, now, s.config);
    lemma_same_keys(s.in_flight, a1.in_flight);
    lemma_key_at(a1.in_flight, k, i);
    if a1.to_free.contains(k) {
        let j = choose|j: int|
            0 <= j < s.in_flight.len() && s.in_flight[j].0 == k && due_for_timeout(s.in_flight[j].1, now, s.config);
        assert(j == i);
    }
    let s1_pre = StackView { in_flight: a1.in_flight, ..s };
    lemma_free_all(s1_pre, a1.to_free);
    let s1 = free_all(s1_pre, a1.to_free);
    let (t, outs) = spec_tick(s, now);
    let a2 = crate::stack::tick_sends(s1.send_seg, now, a1.deadline);
    let a3 = tick_recvs(s1.recv_seg, now, a2.deadline);
    lemma_tick_recvs_marks(s1.recv_seg, now, a2.deadline);
    assert(!has_key(s1.recv_seg, k)) by {
        assert(lookup(s1.recv_seg, k) is None);
    }
    crate::stack::lemma_tick_sends_keys(s1.send_seg, now, a1.deadline);
    lemma_same_keys(s1.send_seg, a2.send_seg);
    crate::stack::lemma_tick_recvs_keys(s1.recv_seg, now, a2.deadline);
    lemma_free_all(StackView { recv_seg: a3.recv_seg, ..StackView { send_seg: a2.send_seg, ..s1 } }, a3.to_free);
    let o = OutputView::Transmit { data: slot.request_bytes, dest: k.0 };
    assert(a1.outputs.contains(o));
    let w = choose|w: int| 0 <= w < a1.outputs.len() && a1.outputs[w] == o;
    assert(outs[w] == o);
}

/// A tick at or after a request's retry time, with its retries used up,
/// reports it timed out and forgets it.
pub proof fn lemma_tick_times_out(s: StackView, now: u64, k: (BacnetAddr, u8))
    requires
        stack_wf(s),
        lookup(s.in_flight, k) is Some,
        due_for_timeout(lookup(s.in_flight, k)->0, now, s.config),
    ensures
        ({
            let (t, outs) = spec_tick(s, now);
            &&& outs.contains(OutputView::Event(EventView::Timeout { invoke_id: k.1 }))
            &&& !has_key(t.in_flight, k)
        }),
{
    let i = crate::stack::table::key_index(s.in_flight, k);
    assert(s.in_flight[i].0 == k);
    lemma_key_at(s.in_flight, k, i);
    lemma_tick_slots_at(s.in_flight, now, s.config);
    lemma_tick_slots_keys(s.in_flight, now, s.config);
    let a1 = tick_slots(s.in_flight, now, s.config);
    lemma_same_keys(s.in_flight, a1.in_flight);
    let s1_pre = StackView { in_flight: a1.in_flight, ..s };
    lemma_free_all(s1_pre, a1.to_free);
    let s1 = free_all(s1_pre, a1.to_free);
    let (t, outs) = spec_tick(s, now);
    let a2 = crate::stack::tick_sends(s1.send_seg, now, a1.deadline);
    let a3 = tick_recvs(s1.recv_seg, now, a2.deadline);
    crate::stack::lemma_tick_sends_keys(s1.send_seg, now, a1.deadline);
    lemma_same_keys(s1.send_seg, a2.send_seg);
    crate::stack::lemma_tick_recvs_keys(s1.recv_seg, now, a2.deadline);
    lemma_free_all(StackView { recv_seg: a3.recv_seg, ..StackView { send_seg: a2.send_seg, ..s1 } }, a3.to_free);
    let o = OutputView::Event(EventView::Timeout { invoke_id: k.1 });
    assert(a1.outputs.contains(o));
    let w = choose|w: int| 0 <= w < a1.outputs.len() && a1.outputs[w] == o;
    assert(outs[w] == o);
    assert(!has_key(t.in_flight, k)) by {
        if has_key(t.in_flight, k) {
            let j = crate::stack::table::key_index(t.in_flight, k);
            assert(t.in_flight[j].0 == k);
            lemma_key_at(t.in_flight, k, j);
        }
    }
}

/// The reassembly pass leaves a deadline no later than the deadline it
/// started from and than the timeout of every reassembly it keeps.
pub proof fn lemma_tick_recvs_deadline(
    entries: Seq<((BacnetAddr, u8), RecvView)>,
    now: u64,
    d0: Option<u64>,
)
    ensures
        d0 matches Some(y) ==> (tick_recvs(entries, now, d0).deadline matches Some(x) && x <= y),
        forall|i: int|
            0 <= i < entries.len() && now < (#[trigger] entries[i]).1.last_activity + SEG_TIMEOUT_MS
                ==> (tick_recvs(entries, now, d0).deadline matches Some(x) && x <= sat_add(
                entries[i].1.last_activity,
                SEG_TIMEOUT_MS,
            )),
    decreases entries.len(),
{
    if entries.len() > 0 {
        let p = entries.drop_last();
        lemma_tick_recvs_deadline(p, now, d0);
        assert forall|i: int|
            0 <= i < entries.len() && now < (#[trigger] entries[i]).1.last_activity + SEG_TIMEOUT_MS
                implies (tick_recvs(entries, now, d0).deadline matches Some(x) && x <= sat_add(
                entries[i].1.last_activity,
                SEG_TIMEOUT_MS,
            )) by {
            if i < entries.len() - 1 {
                assert(p[i] == entries[i]);
            }
        }
    }
}

/// A tick before a pending reassembly's segment timeout keeps it and ends
/// with a deadline no later than that timeout, so the host ticks again in
/// time; this holds unless the request of the same key times out in the
/// same tick (which ends the reassembly too).
pub proof fn lemma_tick_reassembly_deadline(s: StackView, now: u64, k: (BacnetAddr, u8))
    requires
        stack_wf(s),
        lookup(s.recv_seg, k) matches Some(st) && now < st.last_activity + SEG_TIMEOUT_MS,
        !(lookup(s.in_flight, k) matches Some(slot) && due_for_timeout(slot, now, s.config)),
    ensures
        ({
            let st = lookup(s.recv_seg, k)->0;
            let (t, outs) = spec_tick(s, now);
            &&& lookup(t.recv_seg, k) == Some(st)
            &&& outs.len() > 0
            &&& outs.last() matches OutputView::Deadline(d) && d <= sat_add(
                st.last_activity,
                SEG_TIMEOUT_MS,
            )
        }),
{
    let st = lookup(s.recv_seg, k)->0;
    lemma_tick_slots_at(s.in_flight, now, s.config);
    lemma_tick_slots_keys(s.in_flight, now, s.config);
    let a1 = tick_slots(s.in_flight, now, s.config);
    lemma_same_keys(s.in_flight, a1.in_flight);
    if a1.to_free.contains(k) {
        let i = choose|i: int|
            0 <= i < s.in_flight.len() && s.in_flight[i].0 == k && due_for_timeout(s.in_flight[i].1, now, s.config);
        lemma_key_at(s.in_flight, k, i);
    }
    let s1_pre = StackView { in_flight: a1.in_flight, ..s };
    lemma_free_all(s1_pre, a1.to_free);
    let s1 = free_all(s1_pre, a1.to_free);
    assert(lookup(s1.recv_seg, k) == Some(st));
    let a2 = crate::stack::tick_sends(s1.send_seg, now, a1.deadline);
    crate::stack::lemma_tick_sends_keys(s1.send_seg, now, a1.deadline);
    lemma_same_keys(s1.send_seg, a2.send_seg);
    let a3 = tick_recvs(s1.recv_seg, now, a2.deadline);
    crate::stack::lemma_tick_recvs_keys(s1.recv_seg, now, a2.deadline);
    let j = crate::stack::table::key_index(s1.recv_seg, k);
    assert(s1.recv_seg[j].0 == k);
    lemma_key_at(s1.recv_seg, k, j);
    lemma_tick_recvs_deadline(s1.recv_seg, now, a2.deadline);
    lemma_tick_recvs_kept(s1.recv_seg, now, a2.deadline, j);
    lemma_free_all(StackView { recv_seg: a3.recv_seg, ..StackView { send_seg: a2.send_seg, ..s1 } }, a3.to_free);
}

/// A reassembly not yet timed out stays in the reassembly pass's result and
/// is not marked.
pub proof fn lemma_tick_recvs_kept(
    entries: Seq<((BacnetAddr, u8), RecvView)>,
    now: u64,
    d0: Option<u64>,
    j: int,
)
    requires
        keys_unique(entries),
        0 <= j < entries.len(),
        now < entries[j].1.last_activity + SEG_TIMEOUT_MS,
    ensures
        lookup(tick_recvs(entries, now, d0).recv_seg, entries[j].0) == Some(entries[j].1),
        !tick_recvs(entries, now, d0).to_free.contains(entries[j].0),
    decreases entries.len(),
{
    let k = entries[j].0;
    let p = entries.drop_last();
    crate::stack::lemma_tick_recvs_keys(entries, now, d0);
    let a = tick_recvs(entries, now, d0);
    if j < entries.len() - 1 {
        assert(keys_unique(p)) by {
            assert forall|x: int, y: int|
                0 <= x < p.len() && 0 <= y < p.len() && x != y implies (#[trigger] p[x]).0 != (
                #[trigger] p[y]).0 by {
                assert(p[x] == entries[x]);
                assert(p[y] == entries[y]);
            }
        }
        assert(p[j] == entries[j]);
        lemma_tick_recvs_kept(p, now, d0, j);
        let b = tick_recvs(p, now, d0);
        crate::stack::lemma_tick_recvs_keys(p, now, d0);
        let last = entries.last();
        assert(last.0 != k);
        let i = crate::stack::table::key_index(b.recv_seg, k);
        assert(b.recv_seg[i].0 == k);
        lemma_key_at(b.recv_seg, k, i);
        if now >= last.1.last_activity + SEG_TIMEOUT_MS {
            assert(a.recv_seg == b.recv_seg);
            assert(!a.to_free.contains(k)) by {
                if a.to_free.contains(k) {
                    let v = choose|v: int| 0 <= v < a.to_free.len() && a.to_free[v] == k;
                    if v < b.to_free.len() {
                        assert(b.to_free[v] == k);
                    }
                }
            }
        } else {
            assert(a.recv_seg[i] == b.recv_seg[i]);
            lemma_key_at(a.recv_seg, k, i);
            assert(a.to_free == b.to_free);
        }
    } else {
        let b = tick_recvs(p, now, d0);
        lemma_tick_recvs_marks(p, now, d0);
        assert(!has_key(p, k)) by {
            if has_key(p, k) {
                let i = crate::stack::table::key_index(p, k);
                assert(p[i].0 == k);
                assert(entries[i].0 == k);
            }
        }
        assert(a.recv_seg == b.recv_seg.push(entries[j]));
        lemma_key_at(a.recv_seg, k, b.recv_seg.len() as int);
        assert(a.to_free == b.to_free);
    }
}

/// A datagram whose BVLC header does not decode changes nothing: the only
/// output is an error event for invoke ID 0 that names the decoding error.
pub proof fn lemma_malformed_datagram(s: StackView, data: Seq<u8>, src: BacnetAddr)
    requires
        spec_bvlc_decode(data) is Err,
    ensures
        spec_received(s, data, src) == (
            s,
            seq![
                OutputView::Event(
                    EventView::Error {
                        invoke_id: 0,
                        message: "malformed datagram: "@ + decode_error_message(
                            spec_bvlc_decode(data)->Err_0,
                        ),
                    },
                ),
            ],
        ),
{
}

/// A received I-Am (unconfirmed request `0x10`, service choice 0) is
/// reported as one event carrying the fields the device wrote: its
/// identifier, maximum APDU length and vendor, and its segmentation code
/// (0 to 2 as written, any other code as 3, none); nothing else changes.
pub proof fn lemma_i_am_event(
    s: StackView,
    src: BacnetAddr,
    device_id: ObjectIdentifier,
    max_apdu: u32,
    segmentation: u32,
    vendor_id: u32,
    rest: Seq<u8>,
)
    requires
        pv_roundtrips(PropertyValueView::ObjectIdentifier(device_id)),
    ensures
        spec_apdu(
            s,
            seq![0x10u8, 0x00u8] + i_am_service_bytes(device_id, max_apdu, segmentation, vendor_id)
                + rest,
            src,
        ) == (
            s,
            seq![
                OutputView::Event(
                    EventView::UnconfirmedReceived {
                        src,
                        message: UnconfirmedView::IAm {
                            device_id,
                            max_apdu,
                            segmentation: if segmentation <= 2 {
                                segmentation as u8
                            } else {
                                3u8
                            },
                            vendor_id,
                        },
                    },
                ),
            ],
        ),
{
    let data = i_am_service_bytes(device_id, max_apdu, segmentation, vendor_id) + rest;
    let apdu = seq![0x10u8, 0x00u8] + i_am_service_bytes(device_id, max_apdu, segmentation, vendor_id)
        + rest;
    lemma_i_am_fields(device_id, max_apdu, segmentation, vendor_id, rest);
    assert(0x10u8 >> 4u8 == 1) by (bit_vector);
    assert(apdu[0] == 0x10u8 && apdu[1] == 0x00u8);
    assert(apdu.subrange(2, apdu.len() as int) =~= data);
}

/// Replies on the wire: a SimpleACK `0x20 i c`, an Abort `0x71 i r` (from
/// a server) and a Reject `0x60 i r` end request (`src`, `i`), whatever
/// follows, and are reported as a Response with no payload, an Abort with
/// reason `r`, and an Error reading `reject reason=` and `r` in decimal.
pub proof fn lemma_reply_wire(s: StackView, src: BacnetAddr, i: u8, x: u8, rest: Seq<u8>)
    ensures
        spec_apdu(s, seq![0x20u8, i, x] + rest, src) == (
            free_slot_spec(s, src, i),
            seq![OutputView::Event(EventView::Response { invoke_id: i, payload: Seq::empty() })],
        ),
        spec_apdu(s, seq![0x71u8, i, x] + rest, src) == (
            free_slot_spec(s, src, i),
            seq![OutputView::Event(EventView::Abort { invoke_id: i, reason: x })],
        ),
        spec_apdu(s, seq![0x60u8, i, x] + rest, src) == (
            free_slot_spec(s, src, i),
            seq![
                OutputView::Event(
                    EventView::Error { invoke_id: i, message: "reject reason="@ + decimal(x as nat) },
                ),
            ],
        ),
{
    assert(0x20u8 >> 4u8 == 2 && 0x71u8 >> 4u8 == 7 && 0x60u8 >> 4u8 == 6) by (bit_vector);
    let a = seq![0x20u8, i, x] + rest;
    let b = seq![0x71u8, i, x] + rest;
    let c = seq![0x60u8, i, x] + rest;
    assert(a[0] == 0x20u8 && a[1] == i && a[2] == x);
    assert(b[0] == 0x71u8 && b[1] == i && b[2] == x);
    assert(c[0] == 0x60u8 && c[1] == i && c[2] == x);
}

} // verus!
