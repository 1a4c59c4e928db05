//! The record kept for each confirmed request awaiting its reply.
use vstd::prelude::*;

use crate::stack::addr::BacnetAddr;

verus! {

/// An outstanding confirmed request.
#[derive(Debug, Clone)]
pub struct InFlightSlot {
    /// The whole frame, sent again on each retry; empty for a segmented
    /// request, whose segments are resent by their own state.
    pub request_bytes: Vec<u8>,
    pub dest: BacnetAddr,
    /// When the request was first sent (milliseconds).
    pub sent_at: u64,
    /// Retransmissions made so far.
    pub retry_count: u8,
    /// When the next retry or timeout check is due (milliseconds).
    pub next_retry_at: u64,
}

/// The content of an `InFlightSlot`.
pub struct SlotView {
    pub request_bytes: Seq<u8>,
    pub dest: BacnetAddr,
    pub sent_at: u64,
    pub retry_count: u8,
    pub next_retry_at: u64,
}

impl View for InFlightSlot {
    type V = SlotView;

    open spec fn view(&self) -> SlotView {
        SlotView {
            request_bytes: self.request_bytes@,
            dest: self.dest,
            sent_at: self.sent_at,
            retry_count: self.retry_count,
            next_retry_at: self.next_retry_at,
        }
    }
}

} // verus!
