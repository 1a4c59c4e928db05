//! Network layer protocol data unit header (version, control octet and the
//! optional routing specifiers).
use vstd::prelude::*;

use crate::codec::types::DecodeError;
use crate::codec::wire::{be16, byte_count, copy_range, push_all};

verus! {

/// Control octet bit: the payload is a network-layer message.
pub const CTRL_NETWORK_LAYER_MSG: u8 = 0x80;

/// Control octet bit: a destination specifier follows.
pub const CTRL_DNET_PRESENT: u8 = 0x20;

/// Control octet bit: a source specifier follows.
pub const CTRL_SNET_PRESENT: u8 = 0x08;

/// Control octet bit: the sender expects a reply.
pub const CTRL_DATA_EXPECTING_REPLY: u8 = 0x04;

/// Control octet bits 1-0: the priority.
pub const PRIORITY_MASK: u8 = 0x03;

pub const NPDU_VERSION: u8 = 0x01;

/// Message priority.
#[derive(Debug, Clone, Copy, PartialEq, Eq, Structural)]
pub enum Priority {
    Normal,
    Urgent,
    CriticalEquipment,
    LifeSafety,
}

/// The two priority bits of each priority.
pub open spec fn priority_code(p: Priority) -> u8 {
    match p {
        Priority::Normal => 0,
        Priority::Urgent => 1,
        Priority::CriticalEquipment => 2,
        Priority::LifeSafety => 3,
    }
}

/// The priority in the low two bits of `v`.
pub open spec fn priority_of(v: u8) -> Priority {
    let b = v & 0x03;
    if b == 0 {
        Priority::Normal
    } else if b == 1 {
        Priority::Urgent
    } else if b == 2 {
        Priority::CriticalEquipment
    } else {
        Priority::LifeSafety
    }
}

impl Default for Priority {
    fn default() -> (r: Self)
        ensures
            r == Priority::Normal,
    {
        Priority::Normal
    }
}

impl Priority {
    /// Reads the priority from the low two bits of `v`.
    pub fn from_u8(v: u8) -> (r: Self)
        ensures
            r == priority_of(v),
    {
        match v & PRIORITY_MASK {
            0 => Priority::Normal,
            1 => Priority::Urgent,
            2 => Priority::CriticalEquipment,
            _ => Priority::LifeSafety,
        }
    }

    pub fn to_u8(self) -> (r: u8)
        ensures
            r == priority_code(self),
    {
        match self {
            Priority::Normal => 0,
            Priority::Urgent => 1,
            Priority::CriticalEquipment => 2,
            Priority::LifeSafety => 3,
        }
    }
}

/// Every priority survives the trip through its two bits.
pub proof fn lemma_priority_roundtrip(p: Priority)
    ensures
        priority_of(priority_code(p)) == p,
        priority_code(p) <= 3,
{
    let c = priority_code(p);
    assert(c <= 3 ==> c & 0x03 == c) by (bit_vector);
}

/// A BACnet network address (network number and MAC-layer address octets).
#[derive(Debug, Clone, PartialEq, Eq)]
pub struct NetworkAddress {
    /// Network number (0 = local, 0xFFFF = broadcast).
    pub net: u16,
    /// MAC-layer address bytes (0 bytes = broadcast on that network).
    pub adr: Vec<u8>,
}

impl NetworkAddress {
    pub fn new(net: u16, adr: Vec<u8>) -> (r: Self)
        ensures
            r.net == net,
            r.adr@ == adr@,
    {
        Self { net, adr }
    }
}

/// A network address as a value: its number and address octets.
pub open spec fn addr_view(a: NetworkAddress) -> (u16, Seq<u8>) {
    (a.net, a.adr@)
}

pub open spec fn opt_addr_view(a: Option<NetworkAddress>) -> Option<(u16, Seq<u8>)> {
    match a {
        Some(x) => Some(addr_view(x)),
        None => None,
    }
}

/// Parameters for encoding an NPDU.
#[derive(Debug)]
pub struct NpduEncodeParams<'a> {
    /// APDU (or network-layer message) payload to wrap.
    pub apdu: &'a [u8],
    /// True when a reply is expected (sets the data-expecting-reply bit).
    pub data_expecting_reply: bool,
    /// Message priority.
    pub priority: Priority,
    /// Optional destination network address. When present the hop count is
    /// included in the encoded frame.
    pub dest: Option<NetworkAddress>,
    /// Optional source network address.
    pub src: Option<NetworkAddress>,
    /// Hop count written when `dest` is present. Defaults to 255.
    pub hop_count: Option<u8>,
    /// True when the payload is a network-layer message (sets CTRL bit 7).
    pub is_network_layer_message: bool,
}

impl<'a> Default for NpduEncodeParams<'a> {
    fn default() -> (r: Self)
        ensures
            r.apdu@ == Seq::<u8>::empty(),
            !r.data_expecting_reply,
            r.priority == Priority::Normal,
            r.dest is None,
            r.src is None,
            r.hop_count is None,
            !r.is_network_layer_message,
    {
        NpduEncodeParams {
            apdu: &[],
            data_expecting_reply: false,
            priority: Priority::Normal,
            dest: None,
            src: None,
            hop_count: None,
            is_network_layer_message: false,
        }
    }
}

/// The control octet for the given fields.
pub open spec fn npdu_control(
    priority: Priority,
    data_expecting_reply: bool,
    has_dest: bool,
    has_src: bool,
    is_network_layer_message: bool,
) -> u8 {
    (priority_code(priority) + (if data_expecting_reply { 0x04u8 } else { 0 }) + (if has_dest {
        0x20u8
    } else {
        0
    }) + (if has_src { 0x08u8 } else { 0 }) + (if is_network_layer_message {
        0x80u8
    } else {
        0
    })) as u8
}

/// A network specifier: number, address length (modulo 256) and address.
pub open spec fn specifier_bytes(a: (u16, Seq<u8>)) -> Seq<u8> {
    be16(a.0) + seq![(a.1.len() % 256) as u8] + a.1
}

/// An NPDU: version, control octet, the destination specifier and hop count
/// when a destination is given (hop count 255 by default), the source
/// specifier when a source is given, then the payload.
pub open spec fn npdu_bytes(
    apdu: Seq<u8>,
    data_expecting_reply: bool,
    priority: Priority,
    dest: Option<(u16, Seq<u8>)>,
    src: Option<(u16, Seq<u8>)>,
    hop_count: Option<u8>,
    is_network_layer_message: bool,
) -> Seq<u8> {
    seq![
        NPDU_VERSION,
        npdu_control(
            priority,
            data_expecting_reply,
            dest is Some,
            src is Some,
            is_network_layer_message,
        ),
    ] + match dest {
        Some(d) => specifier_bytes(d) + seq![
            match hop_count {
                Some(h) => h,
                None => 255u8,
            },
        ],
        None => Seq::<u8>::empty(),
    } + match src {
        Some(s) => specifier_bytes(s),
        None => Seq::<u8>::empty(),
    } + apdu
}

/// The encoding of the given parameters.
pub open spec fn npdu_params_bytes(p: NpduEncodeParams) -> Seq<u8> {
    npdu_bytes(
        p.apdu@,
        p.data_expecting_reply,
        p.priority,
        opt_addr_view(p.dest),
        opt_addr_view(p.src),
        p.hop_count,
        p.is_network_layer_message,
    )
}

fn push_specifier(buf: &mut Vec<u8>, a: &NetworkAddress)
    ensures
        final(buf)@ == old(buf)@ + specifier_bytes(addr_view(*a)),
{
    buf.push((a.net >> 8) as u8);
    buf.push(a.net as u8);
    let n = byte_count(a.adr.as_slice());
    buf.push(n as u8);
    push_all(buf, a.adr.as_slice());
    proof {
        assert(n as u8 == (n % 256) as u8) by (bit_vector);
    }
    assert(buf@ =~= old(buf)@ + specifier_bytes(addr_view(*a)));
}

/// Encodes an NPDU frame.
pub fn encode(params: &NpduEncodeParams<'_>) -> (buf: Vec<u8>)
    ensures
        buf@ == npdu_params_bytes(*params),
{
    let mut ctrl: u8 = params.priority.to_u8();
    proof {
        lemma_priority_roundtrip(params.priority);
    }
    let ghost c0 = ctrl;
    if params.data_expecting_reply {
        ctrl |= CTRL_DATA_EXPECTING_REPLY;
    }
    let ghost c1 = ctrl;
    if params.dest.is_some() {
        ctrl |= CTRL_DNET_PRESENT;
    }
    let ghost c2 = ctrl;
    if params.src.is_some() {
        ctrl |= CTRL_SNET_PRESENT;
    }
    let ghost c3 = ctrl;
    if params.is_network_layer_message {
        ctrl |= CTRL_NETWORK_LAYER_MSG;
    }
    proof {
        let d = params.data_expecting_reply;
        let t = params.dest is Some;
        let s = params.src is Some;
        let n = params.is_network_layer_message;
        assert(c0 <= 3 && c1 == (if d { c0 | 0x04 } else { c0 }) && c2 == (if t { c1 | 0x20 } else {
            c1
        }) && c3 == (if s { c2 | 0x08 } else { c2 }) && ctrl == (if n { c3 | 0x80 } else { c3 })
            ==> ctrl == (c0 + (if d { 0x04u8 } else { 0 }) + (if t { 0x20u8 } else { 0 }) + (if s {
            0x08u8
        } else { 0 }) + (if n { 0x80u8 } else { 0 })) as u8) by (bit_vector);
    }
    let mut buf = Vec::new();
    buf.push(NPDU_VERSION);
    buf.push(ctrl);
    let ghost head = buf@;
    if let Some(dest) = &params.dest {
        push_specifier(&mut buf, dest);
        let hop = match params.hop_count {
            Some(h) => h,
            None => 255,
        };
        buf.push(hop);
    }
    let ghost mid = buf@;
    if let Some(src) = &params.src {
        push_specifier(&mut buf, src);
    }
    push_all(&mut buf, params.apdu);
    assert(buf@ =~= npdu_params_bytes(*params));
    buf
}

/// Decoded fields of an NPDU header.
#[derive(Debug, Clone, PartialEq, Eq)]
pub struct NpduFrame<'a> {
    pub priority: Priority,
    pub data_expecting_reply: bool,
    pub is_network_layer_message: bool,
    pub dest: Option<NetworkAddress>,
    pub src: Option<NetworkAddress>,
    /// Hop count — only present when `dest` is `Some`.
    pub hop_count: Option<u8>,
    /// The inner APDU (or network-layer message) bytes.
    pub apdu: &'a [u8],
}

/// The content of a decoded NPDU.
pub struct NpduView {
    pub priority: Priority,
    pub data_expecting_reply: bool,
    pub is_network_layer_message: bool,
    pub dest: Option<(u16, Seq<u8>)>,
    pub src: Option<(u16, Seq<u8>)>,
    pub hop_count: Option<u8>,
    pub apdu: Seq<u8>,
}

pub open spec fn npdu_frame_view(f: NpduFrame) -> NpduView {
    NpduView {
        priority: f.priority,
        data_expecting_reply: f.data_expecting_reply,
        is_network_layer_message: f.is_network_layer_message,
        dest: opt_addr_view(f.dest),
        src: opt_addr_view(f.src),
        hop_count: f.hop_count,
        apdu: f.apdu@,
    }
}

/// A network specifier starting at `off`: the address and the offset after
/// it, or `None` when the data ends first.  `extra` octets must follow the
/// address (the hop count after a destination).
pub open spec fn spec_specifier(data: Seq<u8>, off: int, extra: int) -> Option<((u16, Seq<u8>), int)> {
    if data.len() < off + 3 {
        None
    } else {
        let net = (data[off] as int * 256 + data[off + 1] as int) as u16;
        let len = data[off + 2] as int;
        if data.len() < off + 3 + len + extra {
            None
        } else {
            Some(((net, data.subrange(off + 3, off + 3 + len)), off + 3 + len))
        }
    }
}

/// Decoding an NPDU: version and control octet, then the specifiers the
/// control octet announces; the payload is the rest of the data.
pub open spec fn spec_npdu_decode(data: Seq<u8>) -> Result<NpduView, DecodeError> {
    if data.len() < 2 {
        Err(DecodeError::IncompleteData)
    } else if data[0] != NPDU_VERSION {
        Err(DecodeError::InvalidData)
    } else {
        let ctrl = data[1];
        let has_dnet = ctrl & CTRL_DNET_PRESENT != 0;
        let has_snet = ctrl & CTRL_SNET_PRESENT != 0;
        let dpart: Option<(Option<(u16, Seq<u8>)>, Option<u8>, int)> = if has_dnet {
            match spec_specifier(data, 2, 1) {
                None => None,
                Some((a, off)) => Some((Some(a), Some(data[off]), off + 1)),
            }
        } else {
            Some((None, None, 2))
        };
        match dpart {
            None => Err(DecodeError::IncompleteData),
            Some((dest, hop_count, off1)) => {
                let spart: Option<(Option<(u16, Seq<u8>)>, int)> = if has_snet {
                    match spec_specifier(data, off1, 0) {
                        None => None,
                        Some((a, off)) => Some((Some(a), off)),
                    }
                } else {
                    Some((None, off1))
                };
                match spart {
                    None => Err(DecodeError::IncompleteData),
                    Some((src, off2)) => Ok(
                        NpduView {
                            priority: priority_of(ctrl),
                            data_expecting_reply: ctrl & CTRL_DATA_EXPECTING_REPLY != 0,
                            is_network_layer_message: ctrl & CTRL_NETWORK_LAYER_MSG != 0,
                            dest,
                            src,
                            hop_count,
                            apdu: data.subrange(off2, data.len() as int),
                        },
                    ),
                }
            },
        }
    }
}

fn decode_specifier(data: &[u8], off: usize, extra: usize) -> (r: Option<(NetworkAddress, usize)>)
    requires
        off <= data@.len(),
        extra <= 1,
    ensures
        match r {
            Some((a, o)) => spec_specifier(data@, off as int, extra as int) == Some(
                (addr_view(a), o as int),
            ),
            None => spec_specifier(data@, off as int, extra as int) is None,
        },
{
    let total = byte_count(data);
    if total < off + 3 {
        return None;
    }
    let net = ((data[off] as u16) << 8) | data[off + 1] as u16;
    proof {
        let a = data@[off as int];
        let b = data@[off + 1];
        assert(((a as u16) << 8u16) | b as u16 == (a as int * 256 + b as int) as u16) by (bit_vector);
    }
    let adr_len = data[off + 2] as usize;
    let start = off + 3;
    if total < start + adr_len + extra {
        return None;
    }
    let adr = copy_range(data, start, start + adr_len);
    Some((NetworkAddress { net, adr }, start + adr_len))
}

/// Decodes an NPDU header, returning its fields and the payload slice.
pub fn decode(data: &[u8]) -> (r: Result<NpduFrame<'_>, DecodeError>)
    ensures
        match r {
            Ok(f) => spec_npdu_decode(data@) == Ok::<NpduView, DecodeError>(npdu_frame_view(f)),
            Err(e) => spec_npdu_decode(data@) == Err::<NpduView, DecodeError>(e),
        },
{
    if data.len() < 2 {
        return Err(DecodeError::IncompleteData);
    }
    if data[0] != NPDU_VERSION {
        return Err(DecodeError::InvalidData);
    }
    let ctrl = data[1];
    let priority = Priority::from_u8(ctrl);
    let data_expecting_reply = (ctrl & CTRL_DATA_EXPECTING_REPLY) != 0;
    let is_network_layer_message = (ctrl & CTRL_NETWORK_LAYER_MSG) != 0;
    let has_dnet = (ctrl & CTRL_DNET_PRESENT) != 0;
    let has_snet = (ctrl & CTRL_SNET_PRESENT) != 0;

    let mut offset: usize = 2;
    let (dest, hop_count) = if has_dnet {
        match decode_specifier(data, offset, 1) {
            None => {
                return Err(DecodeError::IncompleteData);
            },
            Some((a, o)) => {
                let hop = data[o];
                offset = o + 1;
                (Some(a), Some(hop))
            },
        }
    } else {
        (None, None)
    };
    let src = if has_snet {
        match decode_specifier(data, offset, 0) {
            None => {
                return Err(DecodeError::IncompleteData);
            },
            Some((a, o)) => {
                offset = o;
                Some(a)
            },
        }
    } else {
        None
    };
    Ok(
        NpduFrame {
            priority,
            data_expecting_reply,
            is_network_layer_message,
            dest,
            src,
            hop_count,
            apdu: &data[offset..data.len()],
        },
    )
}

/// Decoding an encoded NPDU gives back every field (the hop count reads as
/// 255 when none was given for a destination, and as absent without one),
/// provided each address has at most 255 octets.
#[verifier::rlimit(40)]
pub proof fn lemma_npdu_roundtrip(
    apdu: Seq<u8>,
    data_expecting_reply: bool,
    priority: Priority,
    dest: Option<(u16, Seq<u8>)>,
    src: Option<(u16, Seq<u8>)>,
    hop_count: Option<u8>,
    is_network_layer_message: bool,
)
    requires
        dest matches Some(d) ==> d.1.len() <= 255,
        src matches Some(s) ==> s.1.len() <= 255,
    ensures
        spec_npdu_decode(
            npdu_bytes(apdu, data_expecting_reply, priority, dest, src, hop_count, is_network_layer_message),
        ) == Ok::<NpduView, DecodeError>(
            NpduView {
                priority,
                data_expecting_reply,
                is_network_layer_message,
                dest,
                src,
                hop_count: if dest is Some {
                    Some(
                        match hop_count {
                            Some(h) => h,
                            None => 255u8,
                        },
                    )
                } else {
                    None
                },
                apdu,
            },
        ),
{
    let data = npdu_bytes(apdu, data_expecting_reply, priority, dest, src, hop_count, is_network_layer_message);
    let c = priority_code(priority);
    lemma_priority_roundtrip(priority);
    let d = data_expecting_reply;
    let t = dest is Some;
    let s = src is Some;
    let n = is_network_layer_message;
    let ctrl = npdu_control(priority, d, t, s, n);
    assert(c <= 3 ==> {
        let x = (c + (if d { 0x04u8 } else { 0 }) + (if t { 0x20u8 } else { 0 }) + (if s {
            0x08u8
        } else { 0 }) + (if n { 0x80u8 } else { 0 })) as u8;
        &&& (x & 0x20 != 0) == t
        &&& (x & 0x08 != 0) == s
        &&& (x & 0x04 != 0) == d
        &&& (x & 0x80 != 0) == n
        &&& x & 0x03 == c
    }) by (bit_vector);
    assert(priority_of(ctrl) == priority);
    let dlen: int = match dest {
        Some(a) => 3 + a.1.len() as int + 1,
        None => 0,
    };
    let slen: int = match src {
        Some(a) => 3 + a.1.len() as int,
        None => 0,
    };
    assert(data.len() == 2 + dlen + slen + apdu.len());
    match dest {
        Some(a) => {
            let v = a.0;
            lemma_u16_octets(v);
            assert(data.subrange(5, 5 + a.1.len() as int) =~= a.1);
        },
        None => {},
    }
    match src {
        Some(a) => {
            let v = a.0;
            let o = 2 + dlen;
            lemma_u16_octets(v);
            assert(data.subrange(o + 3, o + 3 + a.1.len() as int) =~= a.1);
        },
        None => {},
    }
    assert(data.subrange(2 + dlen + slen, data.len() as int) =~= apdu);
}

/// A 16-bit value is its high octet times 256 plus its low octet.
proof fn lemma_u16_octets(v: u16)
    ensures
        ((v >> 8u16) as u8) as int * 256 + (v as u8) as int == v as int,
{
    assert(((v >> 8u16) as u8) as int * 256 + (v as u8) as int == v as int) by (bit_vector);
}

/// The priority travels in the low two bits of the control octet (Normal
/// 0, Urgent 1, CriticalEquipment 2, LifeSafety 3): every encoded NPDU
/// carries its priority's code there, and every decoded NPDU has the
/// priority whose code is there.
pub proof fn lemma_priority_bits(
    apdu: Seq<u8>,
    data_expecting_reply: bool,
    priority: Priority,
    dest: Option<(u16, Seq<u8>)>,
    src: Option<(u16, Seq<u8>)>,
    hop_count: Option<u8>,
    is_network_layer_message: bool,
    data: Seq<u8>,
)
    ensures
        npdu_bytes(
            apdu,
            data_expecting_reply,
            priority,
            dest,
            src,
            hop_count,
            is_network_layer_message,
        )[1] & 0x03 == match priority {
            Priority::Normal => 0u8,
            Priority::Urgent => 1u8,
            Priority::CriticalEquipment => 2u8,
            Priority::LifeSafety => 3u8,
        },
        spec_npdu_decode(data) is Ok && data[1] & 0x03 == 0 ==> spec_npdu_decode(data)->Ok_0.priority
            == Priority::Normal,
        spec_npdu_decode(data) is Ok && data[1] & 0x03 == 1 ==> spec_npdu_decode(data)->Ok_0.priority
            == Priority::Urgent,
        spec_npdu_decode(data) is Ok && data[1] & 0x03 == 2 ==> spec_npdu_decode(data)->Ok_0.priority
            == Priority::CriticalEquipment,
        spec_npdu_decode(data) is Ok && data[1] & 0x03 == 3 ==> spec_npdu_decode(data)->Ok_0.priority
            == Priority::LifeSafety,
{
    let c = priority_code(priority);
    let a: u8 = if data_expecting_reply { 0x04 } else { 0 };
    let b: u8 = if dest is Some { 0x20 } else { 0 };
    let x: u8 = if src is Some { 0x08 } else { 0 };
    let y: u8 = if is_network_layer_message { 0x80 } else { 0 };
    assert(((c as int + a as int + b as int + x as int + y as int) as u8) & 0x03 == c) by (bit_vector)
        requires
            c <= 3,
            a == 0 || a == 4,
            b == 0 || b == 0x20,
            x == 0 || x == 8,
            y == 0 || y == 0x80,
    ;
}

} // verus!
