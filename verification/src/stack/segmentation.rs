//! Segmentation: sending a large request in windows of segments, and
//! reassembling a segmented response.
use vstd::prelude::*;

use crate::codec::apdu::{
    confirmed_request_bytes, encode_confirmed_request, encode_segment_ack, segment_ack_bytes,
    ConfirmedRequestParams, MaxApduLength, MaxSegments, SegmentAck, SegmentationHeader,
};
use crate::codec::bvlc::{self, bvlc_frame, BvlcFunction};
use crate::codec::npdu::{self, npdu_bytes, NpduEncodeParams, Priority};
use crate::stack::addr::BacnetAddr;

verus! {

/// Segments sent per window before waiting for a SegmentACK.
pub const DEFAULT_WINDOW_SIZE: u8 = 4;

/// Window retransmit and reassembly timeout, in milliseconds.
pub const SEG_TIMEOUT_MS: u64 = 2000;

/// Abort reason reported when reassembly gives up.
pub const ABORT_REASON_REASSEMBLY_TIMEOUT: u8 = 5;

/// An APDU wrapped in an NPDU (normal priority, no addresses) and a
/// unicast BVLC header.
pub open spec fn unicast_frame(apdu: Seq<u8>, data_expecting_reply: bool) -> Seq<u8> {
    bvlc_frame(
        BvlcFunction::OriginalUnicastNpdu,
        npdu_bytes(apdu, data_expecting_reply, Priority::Normal, None, None, None, false),
    )
}

/// Wraps an APDU in an NPDU and a unicast BVLC header.
pub(crate) fn encode_unicast_frame(apdu: &[u8], data_expecting_reply: bool) -> (r: Vec<u8>)
    ensures
        r@ == unicast_frame(apdu@, data_expecting_reply),
{
    let npdu_bytes = npdu::encode(
        &NpduEncodeParams {
            apdu,
            data_expecting_reply,
            priority: Priority::Normal,
            dest: None,
            src: None,
            hop_count: None,
            is_network_layer_message: false,
        },
    );
    bvlc::encode(BvlcFunction::OriginalUnicastNpdu, npdu_bytes.as_slice())
}

/// The views of a list of frames.
pub open spec fn frames_view(frames: Seq<Vec<u8>>) -> Seq<Seq<u8>> {
    frames.map_values(|f: Vec<u8>| f@)
}

// ─────────────────────────────────────────────────────────────────────────
// Sending
// ─────────────────────────────────────────────────────────────────────────

/// All that is needed to send one large request segment by segment.
#[derive(Debug, Clone)]
pub struct SendSegState {
    /// The whole service data, without the APDU header.
    pub service_data: Vec<u8>,
    pub service_choice: u8,
    pub invoke_id: u8,
    pub dest: BacnetAddr,
    /// Service-data octets per segment.
    pub fragment_size: usize,
    pub total_fragments: usize,
    /// The first segment not yet acknowledged.
    pub window_start: usize,
    pub window_size: u8,
    /// When the current window was sent (milliseconds).
    pub window_sent_at: u64,
}

/// The content of a `SendSegState`.
pub struct SendView {
    pub service_data: Seq<u8>,
    pub service_choice: u8,
    pub invoke_id: u8,
    pub dest: BacnetAddr,
    pub fragment_size: usize,
    pub total_fragments: usize,
    pub window_start: usize,
    pub window_size: u8,
    pub window_sent_at: u64,
}

impl View for SendSegState {
    type V = SendView;

    open spec fn view(&self) -> SendView {
        SendView {
            service_data: self.service_data@,
            service_choice: self.service_choice,
            invoke_id: self.invoke_id,
            dest: self.dest,
            fragment_size: self.fragment_size,
            total_fragments: self.total_fragments,
            window_start: self.window_start,
            window_size: self.window_size,
            window_sent_at: self.window_sent_at,
        }
    }
}

/// The number of `size`-octet pieces `len` octets make, the last one
/// possibly shorter.
pub open spec fn fragment_count(len: nat, size: nat) -> nat {
    if len % size == 0 {
        len / size
    } else {
        len / size + 1
    }
}

/// The `i`-th `size`-octet piece of `data` (the last one possibly shorter).
pub open spec fn fragment_bytes(data: Seq<u8>, size: nat, i: nat) -> Seq<u8> {
    let start = i * size;
    let end = if start + size <= data.len() {
        start + size
    } else {
        data.len()
    };
    data.subrange(start as int, end as int)
}

/// A sending state as `new` and `handle_seg_ack` leave it.
pub open spec fn send_wf(s: SendView) -> bool {
    &&& s.fragment_size > 0
    &&& s.total_fragments == fragment_count(s.service_data.len(), s.fragment_size as nat)
    &&& s.window_start <= 256
}

/// The frame carrying segment `seq`: a segmented ConfirmedRequest (response
/// segmentation accepted, unspecified max segments, 1476-octet APDUs) with
/// the state's window size and the more-follows flag on all but the last
/// segment.
pub open spec fn send_frame(s: SendView, seq: nat) -> Seq<u8> {
    unicast_frame(
        confirmed_request_bytes(
            true,
            MaxSegments::Unspecified,
            MaxApduLength::Up1476,
            s.invoke_id,
            Some(
                SegmentationHeader {
                    sequence_number: seq as u8,
                    proposed_window_size: s.window_size,
                    more_follows: seq + 1 < s.total_fragments,
                },
            ),
            s.service_choice,
            fragment_bytes(s.service_data, s.fragment_size as nat, seq),
        ),
        true,
    )
}

/// The frames of the segments from `start` on, at most `size` of them,
/// stopping at the last segment.
pub open spec fn window_frames(s: SendView, start: nat, size: nat) -> Seq<Seq<u8>> {
    let end = if start + size <= s.total_fragments {
        start + size
    } else {
        s.total_fragments as nat
    };
    Seq::new(if end >= start { (end - start) as nat } else { 0 }, |i: int| send_frame(s, (start + i) as nat))
}

/// Segment `seq` of a well-formed state starts inside the data.
proof fn lemma_fragment_start(len: nat, size: nat, seq: nat)
    requires
        size > 0,
        seq < fragment_count(len, size),
    ensures
        seq * size < len,
{
    vstd::arithmetic::div_mod::lemma_fundamental_div_mod(len as int, size as int);
    let q = len / size;
    let r = len % size;
    assert(seq <= q);
    if seq == q {
        assert(r != 0);
        assert(seq * size == q * size);
    } else {
        assert(seq + 1 <= q);
        vstd::arithmetic::mul::lemma_mul_inequality((seq + 1) as int, q as int, size as int);
        assert((seq + 1) * size == seq * size + size) by (nonlinear_arith);
    }
}

impl SendSegState {
    /// The sending state for `service_data`, cut into `fragment_size`-octet
    /// segments, with the frames of the first window.
    pub fn new(
        service_data: Vec<u8>,
        service_choice: u8,
        invoke_id: u8,
        dest: BacnetAddr,
        fragment_size: usize,
        now: u64,
    ) -> (r: (Self, Vec<Vec<u8>>))
        requires
            fragment_size > 0,
        ensures
            r.0@ == (SendView {
                service_data: service_data@,
                service_choice,
                invoke_id,
                dest,
                fragment_size,
                total_fragments: fragment_count(service_data@.len(), fragment_size as nat) as usize,
                window_start: 0,
                window_size: DEFAULT_WINDOW_SIZE,
                window_sent_at: now,
            }),
            send_wf(r.0@),
            frames_view(r.1@) == window_frames(r.0@, 0, DEFAULT_WINDOW_SIZE as nat),
    {
        let len = service_data.len();
        let total_fragments = if len % fragment_size == 0 {
            len / fragment_size
        } else {
            assert(fragment_size > 1);
            assert(len > 0) by {
                if len == 0 {
                    assert(0usize % fragment_size == 0);
                }
            }
            assert(len / fragment_size < len) by {
                vstd::arithmetic::div_mod::lemma_div_decreases(len as int, fragment_size as int);
            }
            len / fragment_size + 1
        };
        let window_size = DEFAULT_WINDOW_SIZE;
        let state = SendSegState {
            service_data,
            service_choice,
            invoke_id,
            dest,
            fragment_size,
            total_fragments,
            window_start: 0,
            window_size,
            window_sent_at: now,
        };
        let frames = state.build_window(0, window_size);
        (state, frames)
    }

    /// The frames of segments `start_seq` to `start_seq + window_size - 1`,
    /// stopping at the last segment.
    pub fn build_window(&self, start_seq: usize, window_size: u8) -> (r: Vec<Vec<u8>>)
        requires
            send_wf(self@),
            start_seq + window_size <= usize::MAX,
        ensures
            frames_view(r@) == window_frames(self@, start_seq as nat, window_size as nat),
    {
        let sum = start_seq + window_size as usize;
        let end_seq = if sum <= self.total_fragments {
            sum
        } else {
            self.total_fragments
        };
        let mut frames: Vec<Vec<u8>> = Vec::new();
        let mut seq = start_seq;
        while seq < end_seq
            invariant
                send_wf(self@),
                start_seq <= seq <= end_seq || (seq == start_seq && end_seq < start_seq),
                end_seq <= self.total_fragments,
                end_seq == if start_seq + window_size <= self.total_fragments {
                    start_seq + window_size
                } else {
                    self.total_fragments as int
                },
                frames_view(frames@) =~= window_frames(self@, start_seq as nat, window_size as nat).subrange(
                    0,
                    seq - start_seq,
                ),
            decreases end_seq - seq,
        {
            let f = self.build_frame(seq);
            proof {
                assert(frames@.push(f).map_values(|g: Vec<u8>| g@) =~= frames_view(frames@).push(f@));
            }
            frames.push(f);
            seq = seq + 1;
        }
        proof {
            if end_seq < start_seq {
                assert(frames_view(frames@) =~= window_frames(self@, start_seq as nat, window_size as nat));
            } else {
                assert(window_frames(self@, start_seq as nat, window_size as nat).subrange(0, seq - start_seq)
                    =~= window_frames(self@, start_seq as nat, window_size as nat));
            }
        }
        frames
    }

    /// The frame carrying segment `seq`.
    fn build_frame(&self, seq: usize) -> (r: Vec<u8>)
        requires
            send_wf(self@),
            seq < self.total_fragments,
        ensures
            r@ == send_frame(self@, seq as nat),
    {
        let len = self.service_data.len();
        proof {
            lemma_fragment_start(len as nat, self.fragment_size as nat, seq as nat);
        }
        let start = seq * self.fragment_size;
        let end = if self.fragment_size <= len - start {
            start + self.fragment_size
        } else {
            len
        };
        let more_follows = seq + 1 < self.total_fragments;
        let fragment = &self.service_data.as_slice()[start..end];
        assert(fragment@ =~= fragment_bytes(self.service_data@, self.fragment_size as nat, seq as nat));
        let apdu = encode_confirmed_request(
            &ConfirmedRequestParams {
                segmented_response_accepted: true,
                max_segments: MaxSegments::Unspecified,
                max_apdu_length: MaxApduLength::Up1476,
                invoke_id: self.invoke_id,
                segmentation: Some(
                    SegmentationHeader {
                        sequence_number: seq as u8,
                        proposed_window_size: self.window_size,
                        more_follows,
                    },
                ),
                service_choice: self.service_choice,
                service_data: fragment,
            },
        );
        encode_unicast_frame(apdu.as_slice(), true)
    }

    /// Takes a SegmentACK for segment `sequence_number` (acknowledging it
    /// and all before it).  When no segment is left, returns `None` and
    /// changes nothing; otherwise the window moves past it, takes the
    /// granted size, and its frames are returned.
    pub fn handle_seg_ack(&mut self, sequence_number: u8, actual_window_size: u8, now: u64) -> (r:
        Option<Vec<Vec<u8>>>)
        requires
            send_wf(old(self)@),
        ensures
            send_wf(final(self)@),
            sequence_number + 1 >= old(self).total_fragments ==> r is None && final(self)@ == old(
                self,
            )@,
            sequence_number + 1 < old(self).total_fragments ==> final(self)@ == (SendView {
                window_start: (sequence_number + 1) as usize,
                window_size: actual_window_size,
                window_sent_at: now,
                ..old(self)@
            }) && (r matches Some(frames) && frames_view(frames@) == window_frames(
                final(self)@,
                (sequence_number + 1) as nat,
                actual_window_size as nat,
            )),
    {
        let new_window_start = sequence_number as usize + 1;
        if new_window_start >= self.total_fragments {
            return None;
        }
        self.window_start = new_window_start;
        self.window_size = actual_window_size;
        self.window_sent_at = now;
        Some(self.build_window(new_window_start, actual_window_size))
    }

    /// Whether the current window has waited `SEG_TIMEOUT_MS` or longer.
    pub fn is_window_timed_out(&self, now: u64) -> (r: bool)
        ensures
            r == (now >= self.window_sent_at + SEG_TIMEOUT_MS),
    {
        now >= self.window_sent_at && now - self.window_sent_at >= SEG_TIMEOUT_MS
    }

    /// Sends the current window again, noting the time.
    pub fn retransmit_window(&mut self, now: u64) -> (r: Vec<Vec<u8>>)
        requires
            send_wf(old(self)@),
        ensures
            final(self)@ == (SendView { window_sent_at: now, ..old(self)@ }),
            send_wf(final(self)@),
            frames_view(r@) == window_frames(
                final(self)@,
                old(self).window_start as nat,
                old(self).window_size as nat,
            ),
    {
        self.window_sent_at = now;
        self.build_window(self.window_start, self.window_size)
    }
}

// ─────────────────────────────────────────────────────────────────────────
// Receiving
// ─────────────────────────────────────────────────────────────────────────

/// The fragments of one segmented response received so far.
#[derive(Debug, Clone)]
pub struct RecvSegState {
    /// Fragment payloads by sequence number.
    pub fragments: Vec<Option<Vec<u8>>>,
    /// Set when the last fragment (no more-follows flag) arrives.
    pub total_fragments: Option<usize>,
    /// Window size to acknowledge with.
    pub window_size: u8,
    /// Sequence number that starts the current window.
    pub window_start: usize,
    /// When a fragment last arrived (milliseconds).
    pub last_activity: u64,
    /// Most payload octets allowed.
    pub max_buffer: usize,
    pub bytes_accumulated: usize,
}

/// The content of a `RecvSegState`.
pub struct RecvView {
    pub fragments: Seq<Option<Seq<u8>>>,
    pub total_fragments: Option<usize>,
    pub window_size: u8,
    pub window_start: usize,
    pub last_activity: u64,
    pub max_buffer: usize,
    pub bytes_accumulated: usize,
}

/// The content of one fragment slot.
pub open spec fn fragment_view(f: Option<Vec<u8>>) -> Option<Seq<u8>> {
    match f {
        Some(v) => Some(v@),
        None => None,
    }
}

impl View for RecvSegState {
    type V = RecvView;

    open spec fn view(&self) -> RecvView {
        RecvView {
            fragments: self.fragments@.map_values(|f: Option<Vec<u8>>| fragment_view(f)),
            total_fragments: self.total_fragments,
            window_size: self.window_size,
            window_start: self.window_start,
            last_activity: self.last_activity,
            max_buffer: self.max_buffer,
            bytes_accumulated: self.bytes_accumulated,
        }
    }
}

/// What the stack does after a fragment arrives.
#[derive(Debug)]
pub enum RecvAction {
    /// Wait for more fragments of this window.
    Continue,
    /// Send this SegmentACK; more fragments are expected.
    SendSegAck(Vec<u8>),
    /// Every fragment is in: send the SegmentACK and deliver the payload.
    Complete { seg_ack_frame: Vec<u8>, payload: Vec<u8> },
    /// Give up with this abort reason.
    Abort(u8),
}

/// The content of a `RecvAction`.
pub enum RecvActionView {
    Continue,
    SendSegAck(Seq<u8>),
    Complete { seg_ack_frame: Seq<u8>, payload: Seq<u8> },
    Abort(u8),
}

impl View for RecvAction {
    type V = RecvActionView;

    open spec fn view(&self) -> RecvActionView {
        match self {
            RecvAction::Continue => RecvActionView::Continue,
            RecvAction::SendSegAck(f) => RecvActionView::SendSegAck(f@),
            RecvAction::Complete { seg_ack_frame, payload } => RecvActionView::Complete {
                seg_ack_frame: seg_ack_frame@,
                payload: payload@,
            },
            RecvAction::Abort(r) => RecvActionView::Abort(*r),
        }
    }
}

/// The slots extended with empty ones up to length `n`.
pub open spec fn grown(f: Seq<Option<Seq<u8>>>, n: nat) -> Seq<Option<Seq<u8>>> {
    if f.len() >= n {
        f
    } else {
        f + Seq::new((n - f.len()) as nat, |i: int| None::<Seq<u8>>)
    }
}

/// The frame of a positive client SegmentACK.
pub open spec fn seg_ack_frame(invoke_id: u8, sequence_number: u8, window_size: u8) -> Seq<u8> {
    unicast_frame(
        segment_ack_bytes(
            SegmentAck {
                negative_ack: false,
                server: false,
                invoke_id,
                sequence_number,
                actual_window_size: window_size,
            },
        ),
        false,
    )
}

/// Every slot holds a fragment.
pub open spec fn all_received(f: Seq<Option<Seq<u8>>>) -> bool {
    forall|i: int| 0 <= i < f.len() ==> f[i] is Some
}

/// The fragments one after another, in sequence order.
pub open spec fn joined_fragments(f: Seq<Option<Seq<u8>>>) -> Seq<u8>
    decreases f.len(),
{
    if f.len() == 0 {
        Seq::empty()
    } else {
        joined_fragments(f.drop_last()) + match f.last() {
            Some(d) => d,
            None => Seq::empty(),
        }
    }
}

/// The sequence number that closes the window starting at `start` with
/// `size` fragments: start plus size less one, wrapped into the range of
/// `usize` (so a window of zero starting at 0 ends at `usize::MAX` and is
/// never closed by a sequence number).
pub open spec fn window_end(start: usize, size: u8) -> usize {
    if start + size == 0 {
        usize::MAX
    } else if start + size - 1 > usize::MAX {
        (start + size - 1 - usize::MAX - 1) as usize
    } else {
        (start + size - 1) as usize
    }
}

/// Taking fragment `sequence_number`: a new fragment is counted (the count
/// saturating at `usize::MAX`) and, when the count exceeds the buffer limit,
/// reassembly aborts (reason 5); otherwise it is stored (a repeated one is
/// ignored), the time and proposed window size are noted and a fragment without more-follows fixes the total.  At the
/// end of a window (the sequence number reaches `window_end`) or at the
/// last fragment, a SegmentACK is due and the window moves on; if
/// then every fragment up to the total is in, the payload is their
/// concatenation.
pub open spec fn recv_accept(
    s: RecvView,
    sequence_number: u8,
    more_follows: bool,
    proposed_window_size: u8,
    data: Seq<u8>,
    invoke_id: u8,
    now: u64,
) -> (RecvView, RecvActionView) {
    let seq = sequence_number as int;
    let frags = grown(s.fragments, (seq + 1) as nat);
    let fresh = frags[seq] is None;
    let bytes = s.bytes_accumulated + data.len();
    if fresh && bytes > s.max_buffer {
        (
            RecvView {
                fragments: frags,
                bytes_accumulated: if bytes > usize::MAX {
                    usize::MAX
                } else {
                    bytes as usize
                },
                ..s
            },
            RecvActionView::Abort(ABORT_REASON_REASSEMBLY_TIMEOUT),
        )
    } else {
        let frags2 = if fresh {
            frags.update(seq, Some(data))
        } else {
            frags
        };
        let s2 = RecvView {
            fragments: frags2,
            total_fragments: if !more_follows {
                Some((seq + 1) as usize)
            } else {
                s.total_fragments
            },
            window_size: proposed_window_size,
            window_start: s.window_start,
            last_activity: now,
            max_buffer: s.max_buffer,
            bytes_accumulated: if fresh {
                bytes as usize
            } else {
                s.bytes_accumulated
            },
        };
        if seq >= window_end(s.window_start, proposed_window_size) || !more_follows {
            let frame = seg_ack_frame(invoke_id, sequence_number, proposed_window_size);
            let s3 = RecvView { window_start: (seq + 1) as usize, ..s2 };
            if s2.total_fragments matches Some(t) && frags2.len() == t && all_received(frags2) {
                (
                    s3,
                    RecvActionView::Complete { seg_ack_frame: frame, payload: joined_fragments(frags2) },
                )
            } else {
                (s3, RecvActionView::SendSegAck(frame))
            }
        } else {
            (s2, RecvActionView::Continue)
        }
    }
}

fn all_fragments_received(fragments: &Vec<Option<Vec<u8>>>) -> (r: bool)
    ensures
        r == all_received(fragments@.map_values(|f: Option<Vec<u8>>| fragment_view(f))),
{
    let mut i: usize = 0;
    while i < fragments.len()
        invariant
            i <= fragments@.len(),
            forall|j: int| 0 <= j < i ==> fragments@[j] is Some,
        decreases fragments@.len() - i,
    {
        if fragments[i].is_none() {
            assert(fragments@.map_values(|f: Option<Vec<u8>>| fragment_view(f))[i as int] is None);
            return false;
        }
        i = i + 1;
    }
    true
}

fn join_fragments(fragments: &Vec<Option<Vec<u8>>>) -> (r: Vec<u8>)
    ensures
        r@ == joined_fragments(fragments@.map_values(|f: Option<Vec<u8>>| fragment_view(f))),
{
    let ghost fv = fragments@.map_values(|f: Option<Vec<u8>>| fragment_view(f));
    let mut out: Vec<u8> = Vec::new();
    let mut i: usize = 0;
    assert(fv.subrange(0, 0) =~= Seq::<Option<Seq<u8>>>::empty());
    while i < fragments.len()
        invariant
            i <= fragments@.len(),
            fv == fragments@.map_values(|f: Option<Vec<u8>>| fragment_view(f)),
            out@ == joined_fragments(fv.subrange(0, i as int)),
        decreases fragments@.len() - i,
    {
        if let Some(f) = &fragments[i] {
            crate::codec::wire::push_all(&mut out, f.as_slice());
        }
        proof {
            let p = fv.subrange(0, i as int + 1);
            assert(p.drop_last() =~= fv.subrange(0, i as int));
        }
        i = i + 1;
    }
    assert(fv.subrange(0, i as int) =~= fv);
    out
}

impl RecvSegState {
    /// An empty reassembly buffer.
    pub fn new(window_size: u8, max_buffer: usize, now: u64) -> (r: Self)
        ensures
            r@ == (RecvView {
                fragments: Seq::empty(),
                total_fragments: None,
                window_size,
                window_start: 0,
                last_activity: now,
                max_buffer,
                bytes_accumulated: 0,
            }),
    {
        let r = RecvSegState {
            fragments: Vec::new(),
            total_fragments: None,
            window_size,
            window_start: 0,
            last_activity: now,
            max_buffer,
            bytes_accumulated: 0,
        };
        assert(r@.fragments =~= Seq::<Option<Seq<u8>>>::empty());
        r
    }

    /// Takes one fragment of the response to `invoke_id` (see
    /// `recv_accept`).
    pub fn accept_fragment(
        &mut self,
        sequence_number: u8,
        more_follows: bool,
        proposed_window_size: u8,
        data: Vec<u8>,
        _src: BacnetAddr,
        invoke_id: u8,
        now: u64,
    ) -> (r: RecvAction)
        ensures
            (final(self)@, r@) == recv_accept(
                old(self)@,
                sequence_number,
                more_follows,
                proposed_window_size,
                data@,
                invoke_id,
                now,
            ),
    {
        let ghost old_view = self@;
        let seq = sequence_number as usize;
        while self.fragments.len() < seq + 1
            invariant
                self.fragments@.len() <= seq + 1 || self.fragments@.len() == old(self).fragments@.len(),
                self@.fragments =~= grown(old_view.fragments, self.fragments@.len() as nat),
                old_view.fragments.len() <= self.fragments@.len(),
                self.total_fragments == old(self).total_fragments,
                self.window_size == old(self).window_size,
                self.window_start == old(self).window_start,
                self.last_activity == old(self).last_activity,
                self.max_buffer == old(self).max_buffer,
                self.bytes_accumulated == old(self).bytes_accumulated,
                old_view == old(self)@,
                seq < 256,
            decreases seq + 1 - self.fragments@.len(),
        {
            let ghost before = self@.fragments;
            self.fragments.push(None);
            proof {
                assert(self@.fragments =~= before.push(None));
                let n = self.fragments@.len() as nat;
                assert(grown(old_view.fragments, n) =~= grown(old_view.fragments, (n - 1) as nat).push(
                    None,
                ));
            }
        }
        proof {
            assert(self@.fragments =~= grown(old_view.fragments, (seq + 1) as nat));
        }
        let fresh = self.fragments[seq].is_none();
        if fresh {
            let n = data.len();
            if self.bytes_accumulated > usize::MAX - n {
                self.bytes_accumulated = usize::MAX;
                return RecvAction::Abort(ABORT_REASON_REASSEMBLY_TIMEOUT);
            }
            self.bytes_accumulated = self.bytes_accumulated + n;
            if self.bytes_accumulated > self.max_buffer {
                return RecvAction::Abort(ABORT_REASON_REASSEMBLY_TIMEOUT);
            }
            let ghost dv = data@;
            self.fragments.set(seq, Some(data));
            proof {
                assert(self@.fragments =~= grown(old_view.fragments, (seq + 1) as nat).update(
                    seq as int,
                    Some(dv),
                ));
            }
        }
        self.last_activity = now;
        self.window_size = proposed_window_size;
        if !more_follows {
            self.total_fragments = Some(seq + 1);
        }
        let w = proposed_window_size as usize;
        let end: usize = if w == 0 {
            if self.window_start == 0 {
                usize::MAX
            } else {
                self.window_start - 1
            }
        } else if self.window_start > usize::MAX - (w - 1) {
            self.window_start - (usize::MAX - (w - 1)) - 1
        } else {
            self.window_start + (w - 1)
        };
        let is_window_complete = seq >= end || !more_follows;
        if is_window_complete {
            let seg_ack = encode_segment_ack(
                &SegmentAck {
                    negative_ack: false,
                    server: false,
                    invoke_id,
                    sequence_number,
                    actual_window_size: self.window_size,
                },
            );
            let frame = encode_unicast_frame(seg_ack.as_slice(), false);
            self.window_start = seq + 1;
            if let Some(total) = self.total_fragments {
                if self.fragments.len() == total && all_fragments_received(&self.fragments) {
                    let payload = join_fragments(&self.fragments);
                    return RecvAction::Complete { seg_ack_frame: frame, payload };
                }
            }
            return RecvAction::SendSegAck(frame);
        }
        RecvAction::Continue
    }

    /// Whether no fragment has arrived for `SEG_TIMEOUT_MS` or longer.
    pub fn is_timed_out(&self, now: u64) -> (r: bool)
        ensures
            r == (now >= self.last_activity + SEG_TIMEOUT_MS),
    {
        now >= self.last_activity && now - self.last_activity >= SEG_TIMEOUT_MS
    }
}

// ─────────────────────────────────────────────────────────────────────────
// Splitting
// ─────────────────────────────────────────────────────────────────────────

/// Cuts `data` into `fragment_size`-octet pieces, the last one possibly
/// shorter.
pub fn split_into_fragments(data: &[u8], fragment_size: usize) -> (r: Vec<&[u8]>)
    requires
        fragment_size > 0,
    ensures
        r@.len() == fragment_count(data@.len(), fragment_size as nat),
        forall|i: int|
            0 <= i < r@.len() ==> (#[trigger] r@[i])@ == fragment_bytes(data@, fragment_size as nat, i as nat),
{
    let len = data.len();
    let mut out: Vec<&[u8]> = Vec::new();
    let mut start: usize = 0;
    proof {
        if len == 0 {
            assert(0nat % (fragment_size as nat) == 0);
            assert(0nat / (fragment_size as nat) == 0);
        } else {
            assert(0 < fragment_count(len as nat, fragment_size as nat)) by {
                vstd::arithmetic::div_mod::lemma_fundamental_div_mod(len as int, fragment_size as int);
                if len / fragment_size == 0 {
                    assert(len % fragment_size == len);
                }
            }
        }
        assert(out@.len() == 0);
        assert(out@.len() * fragment_size == 0) by (nonlinear_arith)
            requires
                out@.len() == 0,
        ;
    }
    while start < len
        invariant
            len == data@.len(),
            fragment_size > 0,
            start <= len,
            start < len ==> start == out@.len() * fragment_size && out@.len() < fragment_count(
                len as nat,
                fragment_size as nat,
            ),
            start == len ==> out@.len() == fragment_count(len as nat, fragment_size as nat),
            forall|i: int|
                0 <= i < out@.len() ==> (#[trigger] out@[i])@ == fragment_bytes(
                    data@,
                    fragment_size as nat,
                    i as nat,
                ),
        decreases len - start,
    {
        let end = if fragment_size <= len - start {
            start + fragment_size
        } else {
            len
        };
        let piece = &data[start..end];
        proof {
            assert(piece@ =~= fragment_bytes(data@, fragment_size as nat, out@.len()));
            lemma_fragment_progress(len as nat, fragment_size as nat, out@.len(), end as nat);
        }
        out.push(piece);
        start = end;
    }
    out
}

/// After `k` whole pieces (which end before `len`), the next piece ends at
/// `end`: either before `len`, and more pieces follow it, or at `len`, and
/// it is the last one.
proof fn lemma_fragment_progress(len: nat, size: nat, k: nat, end: nat)
    requires
        size > 0,
        k * size < len,
        end == if k * size + size <= len { k * size + size } else { len },
    ensures
        end < len ==> end == (k + 1) * size && k + 1 < fragment_count(len, size),
        end <= len,
        end == len ==> k + 1 == fragment_count(len, size),
{
    assert((k + 1) * size == k * size + size) by (nonlinear_arith);
    vstd::arithmetic::div_mod::lemma_fundamental_div_mod(len as int, size as int);
    let q = len / size;
    let r = len % size;
    assert(len == q * size + r);
    if end < len {
        assert(k + 1 <= q) by (nonlinear_arith)
            requires
                (k + 1) * size < q * size + r,
                r < size,
                size > 0,
        ;
        if k + 1 == q {
            assert(r > 0);
        }
    } else {
        assert(k <= q) by (nonlinear_arith)
            requires
                k * size < q * size + r,
                r < size,
                size > 0,
        ;
        assert(len <= (k + 1) * size);
        if r == 0 {
            assert(q <= k + 1) by (nonlinear_arith)
                requires
                    q * size <= (k + 1) * size,
                    size > 0,
            ;
            assert(k < q) by (nonlinear_arith)
                requires
                    k * size < q * size,
                    size > 0,
            ;
        } else {
            if k < q {
                assert((k + 1) * size <= q * size) by (nonlinear_arith)
                    requires
                        k + 1 <= q,
                        size > 0,
                ;
            }
        }
    }
}

/// The first `k` pieces of `data`, each in a received slot.
pub open spec fn piece_slots(data: Seq<u8>, size: nat, k: nat) -> Seq<Option<Seq<u8>>> {
    Seq::new(k, |i: int| Some(fragment_bytes(data, size, i as nat)))
}

proof fn lemma_pieces_prefix(data: Seq<u8>, size: nat, k: nat)
    requires
        size > 0,
        k <= fragment_count(data.len(), size),
    ensures
        joined_fragments(piece_slots(data, size, k)) == data.subrange(
            0,
            if k * size <= data.len() {
                (k * size) as int
            } else {
                data.len() as int
            },
        ),
    decreases k,
{
    if k == 0 {
        assert(k * size == 0) by (nonlinear_arith)
            requires
                k == 0,
        ;
        assert(piece_slots(data, size, 0) =~= Seq::<Option<Seq<u8>>>::empty());
        assert(data.subrange(0, 0) =~= Seq::<u8>::empty());
    } else {
        let j = (k - 1) as nat;
        lemma_pieces_prefix(data, size, j);
        assert(piece_slots(data, size, k).drop_last() =~= piece_slots(data, size, j));
        assert(piece_slots(data, size, k).last() == Some(fragment_bytes(data, size, j)));
        lemma_fragment_start(data.len(), size, j);
        assert(k * size == j * size + size) by (nonlinear_arith)
            requires
                k == j + 1,
        ;
        let end: int = if j * size + size <= data.len() {
            (j * size + size) as int
        } else {
            data.len() as int
        };
        assert(data.subrange(0, j * size as int) + data.subrange(j * size as int, end) =~= data.subrange(
            0,
            end,
        ));
    }
}

/// Cutting data into pieces and putting the pieces back in sequence order
/// gives the data again: the slots a complete reassembly holds, filled with
/// the pieces of `data`, join to `data`.
pub proof fn lemma_fragments_rejoin(data: Seq<u8>, size: nat)
    requires
        size > 0,
    ensures
        joined_fragments(piece_slots(data, size, fragment_count(data.len(), size))) == data,
{
    let n = fragment_count(data.len(), size);
    lemma_pieces_prefix(data, size, n);
    vstd::arithmetic::div_mod::lemma_fundamental_div_mod(data.len() as int, size as int);
    let q = data.len() / size;
    let r = data.len() % size;
    if r == 0 {
        assert(n * size == data.len());
    } else {
        assert(n * size >= data.len()) by (nonlinear_arith)
            requires
                n == q + 1,
                data.len() == q * size + r,
                r < size,
        ;
    }
    assert(data.subrange(0, data.len() as int) =~= data);
}

} // verus!
