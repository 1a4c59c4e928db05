//! Big-endian integer fields as they appear on the wire, and the few
//! byte-buffer helpers every encoder and decoder shares.
use vstd::prelude::*;

verus! {

/// The unsigned value of `s` read as a big-endian number.
pub open spec fn be_value(s: Seq<u8>) -> nat
    decreases s.len(),
{
    if s.len() == 0 {
        0
    } else {
        be_value(s.drop_last()) * 256 + s.last() as nat
    }
}

/// The big-endian value of `s` truncated to its low 32 bits (what a
/// 32-bit accumulator that shifts in one byte at a time ends up holding).
pub open spec fn be_u32(s: Seq<u8>) -> u32 {
    (be_value(s) % 0x1_0000_0000) as u32
}

/// The low `n` bytes (1 to 4) of `v`, most significant first.
pub open spec fn be_bytes(v: u32, n: nat) -> Seq<u8> {
    if n == 0 {
        seq![]
    } else if n == 1 {
        seq![v as u8]
    } else if n == 2 {
        seq![(v >> 8u32) as u8, v as u8]
    } else if n == 3 {
        seq![(v >> 16u32) as u8, (v >> 8u32) as u8, v as u8]
    } else {
        seq![(v >> 24u32) as u8, (v >> 16u32) as u8, (v >> 8u32) as u8, v as u8]
    }
}

/// Two bytes of a 16-bit field, most significant first.
pub open spec fn be16(v: u16) -> Seq<u8> {
    seq![(v >> 8u16) as u8, v as u8]
}

/// The smallest number of bytes (1 to 4) that holds `v`.
pub open spec fn min_width(v: u32) -> nat {
    if v <= 0xFF {
        1
    } else if v <= 0xFFFF {
        2
    } else if v <= 0xFF_FFFF {
        3
    } else {
        4
    }
}

/// The largest value that fits in `n` bytes.
pub open spec fn width_max(n: nat) -> nat {
    if n == 0 {
        0
    } else if n == 1 {
        0xFF
    } else if n == 2 {
        0xFFFF
    } else if n == 3 {
        0xFF_FFFF
    } else {
        0xFFFF_FFFF
    }
}

pub proof fn lemma_be_value_push(s: Seq<u8>, b: u8)
    ensures
        be_value(s.push(b)) == be_value(s) * 256 + b as nat,
{
    assert(s.push(b).drop_last() =~= s);
}

pub proof fn lemma_be_value_small(s: Seq<u8>)
    requires
        s.len() <= 4,
    ensures
        be_value(s) < 0x1_0000_0000,
        be_u32(s) as nat == be_value(s),
        s.len() == 1 ==> be_value(s) == s[0] as nat,
        s.len() == 2 ==> be_value(s) == s[0] as nat * 256 + s[1] as nat,
        s.len() == 3 ==> be_value(s) == (s[0] as nat * 256 + s[1] as nat) * 256 + s[2] as nat,
        s.len() == 4 ==> be_value(s) == ((s[0] as nat * 256 + s[1] as nat) * 256 + s[2] as nat)
            * 256 + s[3] as nat,
    decreases s.len(),
{
    if s.len() > 0 {
        lemma_be_value_small(s.drop_last());
        let p = s.drop_last();
        assert(p.len() >= 1 ==> p[0] == s[0]);
        assert(p.len() >= 2 ==> p[1] == s[1]);
        assert(p.len() >= 3 ==> p[2] == s[2]);
        assert(be_value(p) < 0x1_0000_0000);
        if s.len() <= 3 {
            assert(be_value(p) < 0x100_0000) by {
                lemma_be_value_bound(p);
            }
        }
        lemma_be_value_bound(s);
    }
}

/// A value read from `n` bytes is below `256^n`.
pub proof fn lemma_be_value_bound(s: Seq<u8>)
    requires
        s.len() <= 4,
    ensures
        be_value(s) <= width_max(s.len()),
    decreases s.len(),
{
    if s.len() > 0 {
        lemma_be_value_bound(s.drop_last());
    }
}

/// One step of a big-endian accumulator: shifting in `b` yields the value of
/// the sequence extended by `b`, modulo 2^32.
pub proof fn lemma_be_u32_step(s: Seq<u8>, v: u32, b: u8)
    requires
        v == be_u32(s),
    ensures
        ((v << 8u32) | b as u32) == be_u32(s.push(b)),
{
    let m: int = 0x1_0000_0000;
    assert(((v << 8u32) | b as u32) == ((v as nat * 256 + b as nat) % 0x1_0000_0000) as u32)
        by (bit_vector);
    lemma_be_value_push(s, b);
    let x: int = be_value(s) as int;
    assert((x % m) * 256 % m == (x * 256) % m) by {
        vstd::arithmetic::div_mod::lemma_mul_mod_noop_left(x, 256, m);
    }
    assert(((x % m) * 256 + b as int) % m == (x * 256 + b as int) % m) by {
        vstd::arithmetic::div_mod::lemma_add_mod_noop((x % m) * 256, b as int, m);
        vstd::arithmetic::div_mod::lemma_add_mod_noop(x * 256, b as int, m);
    }
}

/// Bytes written by `push_be` read back as the value written when it fits.
pub proof fn lemma_be_bytes_value(v: u32, n: nat)
    requires
        1 <= n <= 4,
        v as nat <= width_max(n),
    ensures
        be_bytes(v, n).len() == n,
        be_value(be_bytes(v, n)) == v as nat,
        be_u32(be_bytes(v, n)) == v,
{
    let s = be_bytes(v, n);
    lemma_be_value_small(s);
    assert((v <= 0xFF ==> (v as u8) as nat == v as nat) && (v <= 0xFFFF ==> ((v >> 8u32) as u8) as nat
        * 256 + (v as u8) as nat == v as nat) && (v <= 0xFF_FFFF ==> (((v >> 16u32) as u8) as nat
        * 256 + ((v >> 8u32) as u8) as nat) * 256 + (v as u8) as nat == v as nat) && ((((v
        >> 24u32) as u8) as nat * 256 + ((v >> 16u32) as u8) as nat) * 256 + ((v >> 8u32) as u8)
        as nat) * 256 + (v as u8) as nat == v as nat) by (bit_vector);
}

pub proof fn lemma_min_width(v: u32)
    ensures
        1 <= min_width(v) <= 4,
        v as nat <= width_max(min_width(v)),
{
}

/// The length of a byte slice.  A slice in memory never spans more than
/// `isize::MAX` bytes, so sums of a few lengths cannot overflow `usize`.
#[verifier::external_body]
pub(crate) fn byte_count(s: &[u8]) -> (n: usize)
    ensures
        n == s@.len(),
        n <= isize::MAX,
{
    s.len()
}

/// Appends the low `n` bytes of `v`, most significant first.
pub fn push_be(buf: &mut Vec<u8>, v: u32, n: usize)
    requires
        1 <= n <= 4,
    ensures
        final(buf)@ == old(buf)@ + be_bytes(v, n as nat),
{
    if n >= 4 {
        buf.push((v >> 24) as u8);
    }
    if n >= 3 {
        buf.push((v >> 16) as u8);
    }
    if n >= 2 {
        buf.push((v >> 8) as u8);
    }
    buf.push(v as u8);
}

/// Appends every byte of `src`.
pub fn push_all(buf: &mut Vec<u8>, src: &[u8])
    ensures
        final(buf)@ == old(buf)@ + src@,
{
    let mut i: usize = 0;
    while i < src.len()
        invariant
            i <= src@.len(),
            buf@ == old(buf)@ + src@.subrange(0, i as int),
        decreases src@.len() - i,
    {
        buf.push(src[i]);
        i = i + 1;
        assert(buf@ =~= old(buf)@ + src@.subrange(0, i as int));
    }
    assert(src@.subrange(0, i as int) =~= src@);
}

/// Reads `len` bytes from `data` starting at `start` into a 32-bit
/// accumulator, most significant first; bytes beyond the fourth shift the
/// earliest ones out.
pub fn read_be_u32(data: &[u8], start: usize, len: usize) -> (v: u32)
    requires
        start + len <= data@.len(),
    ensures
        v == be_u32(data@.subrange(start as int, start + len)),
{
    let mut v: u32 = 0;
    let mut i: usize = 0;
    let total = data.len();
    assert(data@.subrange(start as int, start as int) =~= Seq::<u8>::empty());
    while i < len
        invariant
            i <= len,
            total == data@.len(),
            start + len <= data@.len(),
            v == be_u32(data@.subrange(start as int, start + i)),
        decreases len - i,
    {
        let b = data[start + i];
        proof {
            lemma_be_u32_step(data@.subrange(start as int, start + i), v, b);
            assert(data@.subrange(start as int, start + i).push(b) =~= data@.subrange(
                start as int,
                start + i + 1,
            ));
        }
        v = (v << 8) | b as u32;
        i = i + 1;
    }
    v
}

/// Copies `data[start..end]` into a new vector.
pub fn copy_range(data: &[u8], start: usize, end: usize) -> (out: Vec<u8>)
    requires
        start <= end <= data@.len(),
    ensures
        out@ == data@.subrange(start as int, end as int),
{
    let mut out: Vec<u8> = Vec::new();
    push_all(&mut out, &data[start..end]);
    out
}

/// The eight bytes of a 64-bit field, most significant first.
pub open spec fn be64_bytes(v: u64) -> Seq<u8> {
    seq![
        (v >> 56u64) as u8,
        (v >> 48u64) as u8,
        (v >> 40u64) as u8,
        (v >> 32u64) as u8,
        (v >> 24u64) as u8,
        (v >> 16u64) as u8,
        (v >> 8u64) as u8,
        v as u8,
    ]
}

/// The big-endian value of `s` truncated to its low 64 bits.
pub open spec fn be_u64(s: Seq<u8>) -> u64 {
    (be_value(s) % 0x1_0000_0000_0000_0000) as u64
}

pub proof fn lemma_be_u64_step(s: Seq<u8>, v: u64, b: u8)
    requires
        v == be_u64(s),
    ensures
        ((v << 8u64) | b as u64) == be_u64(s.push(b)),
{
    let m: int = 0x1_0000_0000_0000_0000;
    assert(((v << 8u64) | b as u64) == ((v as nat * 256 + b as nat) % 0x1_0000_0000_0000_0000) as u64)
        by (bit_vector);
    lemma_be_value_push(s, b);
    let x: int = be_value(s) as int;
    assert((x % m) * 256 % m == (x * 256) % m) by {
        vstd::arithmetic::div_mod::lemma_mul_mod_noop_left(x, 256, m);
    }
    assert(((x % m) * 256 + b as int) % m == (x * 256 + b as int) % m) by {
        vstd::arithmetic::div_mod::lemma_add_mod_noop((x % m) * 256, b as int, m);
        vstd::arithmetic::div_mod::lemma_add_mod_noop(x * 256, b as int, m);
    }
}

/// Eight bytes written by `push_be64` read back as the value written.
pub proof fn lemma_be64_bytes_value(v: u64)
    ensures
        be64_bytes(v).len() == 8,
        be_u64(be64_bytes(v)) == v,
{
    let s = be64_bytes(v);
    lemma_be_u64_prefix(s, 8);
    assert(s.subrange(0, 8) =~= s);
    let a0 = (v >> 56u64) as u8;
    let a1 = (v >> 48u64) as u8;
    let a2 = (v >> 40u64) as u8;
    let a3 = (v >> 32u64) as u8;
    let a4 = (v >> 24u64) as u8;
    let a5 = (v >> 16u64) as u8;
    let a6 = (v >> 8u64) as u8;
    let a7 = v as u8;
    let f1 = (0u64 << 8u64) | a0 as u64;
    let f2 = (f1 << 8u64) | a1 as u64;
    let f3 = (f2 << 8u64) | a2 as u64;
    let f4 = (f3 << 8u64) | a3 as u64;
    let f5 = (f4 << 8u64) | a4 as u64;
    let f6 = (f5 << 8u64) | a5 as u64;
    let f7 = (f6 << 8u64) | a6 as u64;
    let f8 = (f7 << 8u64) | a7 as u64;
    assert(s[0] == a0 && s[1] == a1 && s[2] == a2 && s[3] == a3);
    assert(s[4] == a4 && s[5] == a5 && s[6] == a6 && s[7] == a7);
    assert(be_u64_fold(s, 0) == 0);
    assert(be_u64_fold(s, 1) == f1);
    assert(be_u64_fold(s, 2) == f2);
    assert(be_u64_fold(s, 3) == f3);
    assert(be_u64_fold(s, 4) == f4);
    assert(be_u64_fold(s, 5) == f5);
    assert(be_u64_fold(s, 6) == f6);
    assert(be_u64_fold(s, 7) == f7);
    assert(be_u64_fold(s, 8) == f8);
    assert(f8 == v) by (bit_vector)
        requires
            a0 == (v >> 56u64) as u8,
            a1 == (v >> 48u64) as u8,
            a2 == (v >> 40u64) as u8,
            a3 == (v >> 32u64) as u8,
            a4 == (v >> 24u64) as u8,
            a5 == (v >> 16u64) as u8,
            a6 == (v >> 8u64) as u8,
            a7 == v as u8,
            f1 == (0u64 << 8u64) | a0 as u64,
            f2 == (f1 << 8u64) | a1 as u64,
            f3 == (f2 << 8u64) | a2 as u64,
            f4 == (f3 << 8u64) | a3 as u64,
            f5 == (f4 << 8u64) | a4 as u64,
            f6 == (f5 << 8u64) | a5 as u64,
            f7 == (f6 << 8u64) | a6 as u64,
            f8 == (f7 << 8u64) | a7 as u64,
    ;
}

/// The accumulator value after shifting in the first `k` bytes of `s`.
pub open spec fn be_u64_fold(s: Seq<u8>, k: nat) -> u64
    decreases k,
{
    if k == 0 {
        0
    } else {
        (be_u64_fold(s, (k - 1) as nat) << 8u64) | s[k - 1] as u64
    }
}

pub proof fn lemma_be_u64_prefix(s: Seq<u8>, k: nat)
    requires
        k <= s.len(),
    ensures
        be_u64(s.subrange(0, k as int)) == be_u64_fold(s, k),
    decreases k,
{
    if k == 0 {
        assert(s.subrange(0, 0) =~= Seq::<u8>::empty());
    } else {
        lemma_be_u64_prefix(s, (k - 1) as nat);
        lemma_be_u64_step(s.subrange(0, k - 1), be_u64_fold(s, (k - 1) as nat), s[k - 1]);
        assert(s.subrange(0, k - 1).push(s[k - 1]) =~= s.subrange(0, k as int));
    }
}

/// Appends the eight bytes of `v`, most significant first.
pub fn push_be64(buf: &mut Vec<u8>, v: u64)
    ensures
        final(buf)@ == old(buf)@ + be64_bytes(v),
{
    buf.push((v >> 56) as u8);
    buf.push((v >> 48) as u8);
    buf.push((v >> 40) as u8);
    buf.push((v >> 32) as u8);
    buf.push((v >> 24) as u8);
    buf.push((v >> 16) as u8);
    buf.push((v >> 8) as u8);
    buf.push(v as u8);
}

/// Reads eight bytes at `start` as a big-endian 64-bit value.
pub fn read_be_u64(data: &[u8], start: usize) -> (v: u64)
    requires
        start + 8 <= data@.len(),
    ensures
        v == be_u64(data@.subrange(start as int, start + 8)),
{
    let mut v: u64 = 0;
    let mut i: usize = 0;
    let total = data.len();
    assert(data@.subrange(start as int, start as int) =~= Seq::<u8>::empty());
    while i < 8
        invariant
            i <= 8,
            total == data@.len(),
            start + 8 <= data@.len(),
            v == be_u64(data@.subrange(start as int, start + i)),
        decreases 8 - i,
    {
        let b = data[start + i];
        proof {
            lemma_be_u64_step(data@.subrange(start as int, start + i), v, b);
            assert(data@.subrange(start as int, start + i).push(b) =~= data@.subrange(
                start as int,
                start + i + 1,
            ));
        }
        v = (v << 8) | b as u64;
        i = i + 1;
    }
    v
}

} // verus!
