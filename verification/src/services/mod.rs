//! Application services, and the context-tag helpers they share.
pub mod i_am;
pub mod read_property;
pub mod read_property_multiple;
pub mod who_is;
pub mod write_property;

use vstd::prelude::*;

use crate::codec::types::{
    lemma_decode_pv_consumed, lemma_pv_decodes_from_front, lemma_pv_encoding_seq_cons,
    lemma_pv_view_seq_index, lemma_pv_view_seq_len, pv_encoding, pv_encoding_seq, pv_result_view,
    pv_roundtrips, pv_view, pv_view_seq, spec_decode_pv, DecodeError, PropertyValue,
    PropertyValueView,
};
use crate::codec::wire::{be_bytes, be_u32, lemma_be_bytes_value, lemma_min_width, min_width, read_be_u32};

verus! {

/// The initial octet of a context tag: tag number in the high nibble, the
/// context bit, and a length of 0 to 7 in the low three bits.
pub open spec fn context_tag_octet(tag_number: u8, len: u8) -> u8 {
    (tag_number << 4u8) | 0x08u8 | len
}

/// A context-tagged unsigned integer in the fewest octets that hold it.
pub open spec fn context_unsigned_bytes(tag_number: u8, value: u32) -> Seq<u8> {
    seq![context_tag_octet(tag_number, min_width(value) as u8)] + be_bytes(value, min_width(value))
}

/// A context-tagged object identifier: always four octets.
pub open spec fn context_object_id_bytes(tag_number: u8, value: u32) -> Seq<u8> {
    seq![context_tag_octet(tag_number, 4)] + be_bytes(value, 4)
}

/// The opening octet of a constructed context tag.
pub open spec fn opening_tag_octet(tag_number: u8) -> u8 {
    (tag_number << 4u8) | 0x0Eu8
}

/// The closing octet of a constructed context tag.
pub open spec fn closing_tag_octet(tag_number: u8) -> u8 {
    (tag_number << 4u8) | 0x0Fu8
}

/// Appends a context-tagged unsigned integer in the fewest octets.
pub fn encode_context_unsigned(tag_number: u8, value: u32, buf: &mut Vec<u8>)
    ensures
        final(buf)@ == old(buf)@ + context_unsigned_bytes(tag_number, value),
{
    let (len, bytes) = unsigned_to_bytes(value);
    buf.push((tag_number << 4) | 0x08 | len);
    let ghost before = buf@;
    let mut i: usize = 4 - len as usize;
    while i < 4
        invariant
            1 <= len <= 4,
            4 - len <= i <= 4,
            bytes@ == be_bytes(value, 4),
            buf@ == before + bytes@.subrange(4 - len, i as int),
        decreases 4 - i,
    {
        buf.push(bytes[i]);
        i = i + 1;
        assert(buf@ =~= before + bytes@.subrange(4 - len, i as int));
    }
    proof {
        let tail = bytes@.subrange(4 - len, 4);
        assert(tail =~= be_bytes(value, min_width(value))) by {
            assert(value <= 0xFF ==> (value >> 8u32) as u8 == 0 && (value >> 16u32) as u8 == 0
                && (value >> 24u32) as u8 == 0) by (bit_vector);
        }
    }
}

/// Appends a context-tagged object identifier (four octets).
pub fn encode_context_object_id(tag_number: u8, value: u32, buf: &mut Vec<u8>)
    ensures
        final(buf)@ == old(buf)@ + context_object_id_bytes(tag_number, value),
{
    buf.push((tag_number << 4) | 0x08 | 4u8);
    buf.push((value >> 24) as u8);
    buf.push((value >> 16) as u8);
    buf.push((value >> 8) as u8);
    buf.push(value as u8);
    assert(buf@ =~= old(buf)@ + context_object_id_bytes(tag_number, value));
}

/// Appends the opening octet of constructed context tag `tag_number`.
pub fn encode_opening_tag(tag_number: u8, buf: &mut Vec<u8>)
    ensures
        final(buf)@ == old(buf)@.push(opening_tag_octet(tag_number)),
{
    buf.push((tag_number << 4) | 0x0E);
}

/// Appends the closing octet of constructed context tag `tag_number`.
pub fn encode_closing_tag(tag_number: u8, buf: &mut Vec<u8>)
    ensures
        final(buf)@ == old(buf)@.push(closing_tag_octet(tag_number)),
{
    buf.push((tag_number << 4) | 0x0F);
}

/// The fewest octets that hold `value`, with all four of its octets, most
/// significant first.
fn unsigned_to_bytes(value: u32) -> (r: (u8, [u8; 4]))
    ensures
        r.0 as nat == min_width(value),
        r.1@ == be_bytes(value, 4),
{
    let bytes: [u8; 4] = [(value >> 24) as u8, (value >> 16) as u8, (value >> 8) as u8, value as u8];
    let len: u8 = if value <= 0xFF {
        1
    } else if value <= 0xFFFF {
        2
    } else if value <= 0xFF_FFFF {
        3
    } else {
        4
    };
    assert(bytes@ =~= be_bytes(value, 4));
    (len, bytes)
}

/// Reading a context-tagged unsigned integer with tag number `expected_tag`:
/// the value (the low three bits of the tag octet give the octet count) and
/// the octets consumed.
pub open spec fn spec_context_unsigned(data: Seq<u8>, expected_tag: u8) -> Result<(u32, int), DecodeError> {
    if data.len() == 0 {
        Err(DecodeError::IncompleteData)
    } else if data[0] & 0x08 == 0 || (data[0] >> 4u8) & 0x0F != expected_tag {
        Err(DecodeError::InvalidContextTag)
    } else {
        let len = (data[0] & 0x07) as int;
        if data.len() < 1 + len {
            Err(DecodeError::IncompleteData)
        } else {
            Ok((be_u32(data.subrange(1, 1 + len)), 1 + len))
        }
    }
}

/// Reading a context-tagged object identifier with tag number
/// `expected_tag`: the packed 32-bit value and the five octets consumed.
pub open spec fn spec_context_object_id(data: Seq<u8>, expected_tag: u8) -> Result<(u32, int), DecodeError> {
    if data.len() == 0 {
        Err(DecodeError::IncompleteData)
    } else if data[0] & 0x08 == 0 || (data[0] >> 4u8) & 0x0F != expected_tag || data[0] & 0x07
        != 4 {
        Err(DecodeError::InvalidContextTag)
    } else if data.len() < 5 {
        Err(DecodeError::IncompleteData)
    } else {
        Ok((be_u32(data.subrange(1, 5)), 5))
    }
}

/// The view of a `(value, consumed)` decoding result.
pub open spec fn count_result(r: Result<(u32, usize), DecodeError>) -> Result<(u32, int), DecodeError> {
    match r {
        Ok((v, n)) => Ok((v, n as int)),
        Err(e) => Err(e),
    }
}

/// Decodes a context-tagged unsigned integer, returning the value and the
/// octets consumed.
pub fn decode_context_unsigned(data: &[u8], expected_tag: u8) -> (r: Result<(u32, usize), DecodeError>)
    ensures
        count_result(r) == spec_context_unsigned(data@, expected_tag),
{
    if data.len() == 0 {
        return Err(DecodeError::IncompleteData);
    }
    let tag_byte = data[0];
    let tag_number = (tag_byte >> 4) & 0x0F;
    let is_context = (tag_byte & 0x08) != 0;
    if !is_context || tag_number != expected_tag {
        return Err(DecodeError::InvalidContextTag);
    }
    let len = (tag_byte & 0x07) as usize;
    if data.len() < 1 + len {
        return Err(DecodeError::IncompleteData);
    }
    let value = read_be_u32(data, 1, len);
    Ok((value, 1 + len))
}

/// Decodes a context-tagged object identifier, returning its packed value
/// and the octets consumed.
pub fn decode_context_object_id(data: &[u8], expected_tag: u8) -> (r: Result<(u32, usize), DecodeError>)
    ensures
        count_result(r) == spec_context_object_id(data@, expected_tag),
{
    if data.len() == 0 {
        return Err(DecodeError::IncompleteData);
    }
    let tag_byte = data[0];
    let tag_number = (tag_byte >> 4) & 0x0F;
    let is_context = (tag_byte & 0x08) != 0;
    let len = (tag_byte & 0x07) as usize;
    if !is_context || tag_number != expected_tag || len != 4 {
        return Err(DecodeError::InvalidContextTag);
    }
    if data.len() < 5 {
        return Err(DecodeError::IncompleteData);
    }
    let value = read_be_u32(data, 1, 4);
    Ok((value, 5))
}

/// Whether `data` starts with the opening octet of tag `tag_number`.
pub fn is_opening_tag(data: &[u8], tag_number: u8) -> (r: bool)
    ensures
        r == (data@.len() > 0 && data@[0] == opening_tag_octet(tag_number)),
{
    data.len() != 0 && data[0] == (tag_number << 4) | 0x0E
}

/// Whether `data` starts with the closing octet of tag `tag_number`.
pub fn is_closing_tag(data: &[u8], tag_number: u8) -> (r: bool)
    ensures
        r == (data@.len() > 0 && data@[0] == closing_tag_octet(tag_number)),
{
    data.len() != 0 && data[0] == (tag_number << 4) | 0x0F
}

/// A context-tagged unsigned integer reads back as the value it was written
/// from, whatever follows it, for tag numbers 0 to 15.
pub proof fn lemma_context_unsigned_roundtrip(tag_number: u8, value: u32, rest: Seq<u8>)
    requires
        tag_number < 16,
    ensures
        spec_context_unsigned(context_unsigned_bytes(tag_number, value) + rest, tag_number) == Ok::<
            (u32, int),
            DecodeError,
        >((value, 1 + min_width(value) as int)),
{
    let w = min_width(value);
    lemma_min_width(value);
    lemma_be_bytes_value(value, w);
    let d = context_unsigned_bytes(tag_number, value) + rest;
    let t = context_tag_octet(tag_number, w as u8);
    let wb = w as u8;
    assert(1 <= wb <= 4);
    assert(t & 0x08 != 0 && (t >> 4u8) & 0x0F == tag_number && t & 0x07 == wb) by (bit_vector)
        requires
            t == (tag_number << 4u8) | 0x08u8 | wb,
            tag_number < 16,
            1 <= wb <= 4,
    ;
    assert(d.subrange(1, 1 + w as int) =~= be_bytes(value, w));
    crate::codec::wire::lemma_be_value_small(be_bytes(value, w));
}

/// A context-tagged object identifier reads back as the value it was
/// written from, whatever follows it, for tag numbers 0 to 15.
pub proof fn lemma_context_object_id_roundtrip(tag_number: u8, value: u32, rest: Seq<u8>)
    requires
        tag_number < 16,
    ensures
        spec_context_object_id(context_object_id_bytes(tag_number, value) + rest, tag_number)
            == Ok::<(u32, int), DecodeError>((value, 5)),
{
    lemma_be_bytes_value(value, 4);
    let d = context_object_id_bytes(tag_number, value) + rest;
    let t = context_tag_octet(tag_number, 4);
    assert(t & 0x08 != 0 && (t >> 4u8) & 0x0F == tag_number && t & 0x07 == 4) by (bit_vector)
        requires
            t == (tag_number << 4u8) | 0x08u8 | 4u8,
            tag_number < 16,
    ;
    assert(d.subrange(1, 5) =~= be_bytes(value, 4));
    crate::codec::wire::lemma_be_value_small(be_bytes(value, 4));
}

/// The opening and closing octets of two tags are never confused with each
/// other, and no opening or closing octet is a primitive context tag, for
/// tag numbers 0 to 15.
pub proof fn lemma_tag_octets_distinct(a: u8, b: u8)
    requires
        a < 16,
        b < 16,
    ensures
        opening_tag_octet(a) != closing_tag_octet(b),
        opening_tag_octet(a) == opening_tag_octet(b) ==> a == b,
        closing_tag_octet(a) == closing_tag_octet(b) ==> a == b,
        opening_tag_octet(a) & 0x07 == 6,
        closing_tag_octet(a) & 0x07 == 7,
        (opening_tag_octet(a) >> 4u8) == a,
        (closing_tag_octet(a) >> 4u8) == a,
{
    assert(((a << 4u8) | 0x0Eu8) != ((b << 4u8) | 0x0Fu8) && (((a << 4u8) | 0x0Eu8) == ((b << 4u8)
        | 0x0Eu8) ==> a == b) && (((a << 4u8) | 0x0Fu8) == ((b << 4u8) | 0x0Fu8) ==> a == b) && ((a
        << 4u8) | 0x0Eu8) & 0x07 == 6 && ((a << 4u8) | 0x0Fu8) & 0x07 == 7 && ((a << 4u8) | 0x0Eu8)
        >> 4u8 == a && ((a << 4u8) | 0x0Fu8) >> 4u8 == a) by (bit_vector)
        requires
            a < 16,
            b < 16,
    ;
}

/// Decodes the next application-tagged value of `data` at `offset`.
pub(crate) fn decode_value_at(data: &[u8], offset: usize) -> (r: Option<Result<(PropertyValue, usize), DecodeError>>)
    requires
        offset <= data@.len(),
    ensures
        match r {
            Some(x) => spec_decode_pv(data@.subrange(offset as int, data@.len() as int)) == Some(
                pv_result_view(x),
            ),
            None => spec_decode_pv(data@.subrange(offset as int, data@.len() as int)) is None,
        },
        r matches Some(Ok((_, n))) ==> 1 <= n && offset + n <= data@.len(),
{
    let rest = &data[offset..data.len()];
    assert(rest@ =~= data@.subrange(offset as int, data@.len() as int));
    proof {
        lemma_decode_pv_consumed(rest@);
    }
    PropertyValue::decode_checked(rest)
}

/// A list result with one more value, which took `n` octets, in front.
pub open spec fn prepend_value(
    v: PropertyValueView,
    n: int,
    r: Option<Result<(Seq<PropertyValueView>, int), DecodeError>>,
) -> Option<Result<(Seq<PropertyValueView>, int), DecodeError>> {
    match r {
        Some(Ok((ws, m))) => Some(Ok((seq![v] + ws, n + m))),
        other => other,
    }
}

/// A list result with the values `vs`, which took `k` octets, in front.
pub open spec fn chain_values(
    vs: Seq<PropertyValueView>,
    k: int,
    r: Option<Result<(Seq<PropertyValueView>, int), DecodeError>>,
) -> Option<Result<(Seq<PropertyValueView>, int), DecodeError>> {
    match r {
        Some(Ok((ws, m))) => Some(Ok((vs + ws, k + m))),
        other => other,
    }
}

/// Reading application-tagged values up to the closing octet of context tag
/// `tag_number`: the values, and the offset of the closing octet.  Running
/// out of data first is `IncompleteData`; a value that fails to decode gives
/// its error; `None` marks a value the value decoder does not accept.
pub open spec fn spec_value_list(d: Seq<u8>, tag_number: u8) -> Option<
    Result<(Seq<PropertyValueView>, int), DecodeError>,
>
    decreases d.len(),
{
    if d.len() > 0 && d[0] == closing_tag_octet(tag_number) {
        Some(Ok((Seq::empty(), 0)))
    } else if d.len() == 0 {
        Some(Err(DecodeError::IncompleteData))
    } else {
        match spec_decode_pv(d) {
            None => None,
            Some(Err(e)) => Some(Err(e)),
            Some(Ok((v, n))) => if 1 <= n <= d.len() {
                prepend_value(v, n, spec_value_list(d.subrange(n, d.len() as int), tag_number))
            } else {
                Some(Err(DecodeError::InvalidData))
            },
        }
    }
}

/// A property's value: the single value read, or all of them as an array
/// when there are none or several.
pub open spec fn collapse_values(vs: Seq<PropertyValueView>) -> PropertyValueView {
    if vs.len() == 1 {
        vs[0]
    } else {
        PropertyValueView::Array(vs)
    }
}

proof fn lemma_chain_prepend(
    vs: Seq<PropertyValueView>,
    k: int,
    v: PropertyValueView,
    n: int,
    r: Option<Result<(Seq<PropertyValueView>, int), DecodeError>>,
)
    ensures
        chain_values(vs, k, prepend_value(v, n, r)) == chain_values(vs.push(v), k + n, r),
{
    if let Some(Ok((ws, m))) = r {
        assert(vs + (seq![v] + ws) =~= vs.push(v) + ws);
    }
}

/// Reads application-tagged values from `start` up to the closing octet of
/// context tag `tag_number`, returning them with the closing octet's offset.
pub(crate) fn decode_value_list(data: &[u8], start: usize, tag_number: u8) -> (r: Option<
    Result<(Vec<PropertyValue>, usize), DecodeError>,
>)
    requires
        start <= data@.len(),
    ensures
        match r {
            None => spec_value_list(data@.subrange(start as int, data@.len() as int), tag_number) is None,
            Some(Err(e)) => spec_value_list(data@.subrange(start as int, data@.len() as int), tag_number)
                == Some(Err::<(Seq<PropertyValueView>, int), DecodeError>(e)),
            Some(Ok((vs, end))) => start <= end < data@.len() && data@[end as int]
                == closing_tag_octet(tag_number) && spec_value_list(
                data@.subrange(start as int, data@.len() as int),
                tag_number,
            ) == Some(Ok::<(Seq<PropertyValueView>, int), DecodeError>((pv_view_seq(vs@), end - start))),
        },
{
    let total = data.len();
    let mut values: Vec<PropertyValue> = Vec::new();
    let mut offset = start;
    let ghost whole = spec_value_list(data@.subrange(start as int, total as int), tag_number);
    assert(pv_view_seq(values@) =~= Seq::<PropertyValueView>::empty());
    assert(chain_values(Seq::empty(), 0, whole) == whole) by {
        if let Some(Ok((ws, m))) = whole {
            assert(Seq::<PropertyValueView>::empty() + ws =~= ws);
        }
    }
    while !is_closing_tag(&data[offset..total], tag_number)
        invariant
            start <= offset <= total,
            total == data@.len(),
            whole == spec_value_list(data@.subrange(start as int, total as int), tag_number),
            whole == chain_values(
                pv_view_seq(values@),
                offset - start,
                spec_value_list(data@.subrange(offset as int, total as int), tag_number),
            ),
        decreases total - offset,
    {
        let ghost d = data@.subrange(offset as int, total as int);
        assert(data@.subrange(offset as int, total as int) =~= d);
        if offset >= total {
            return Some(Err(DecodeError::IncompleteData));
        }
        match decode_value_at(data, offset) {
            None => return None,
            Some(Err(e)) => return Some(Err(e)),
            Some(Ok((pv, n))) => {
                proof {
                    assert(d.subrange(n as int, d.len() as int) =~= data@.subrange(
                        offset + n,
                        total as int,
                    ));
                    lemma_chain_prepend(
                        pv_view_seq(values@),
                        offset - start,
                        pv@,
                        n as int,
                        spec_value_list(data@.subrange(offset + n, total as int), tag_number),
                    );
                    let vs2 = values@.push(pv);
                    assert(vs2.subrange(0, vs2.len() - 1) =~= values@);
                }
                values.push(pv);
                offset = offset + n;
            },
        }
    }
    proof {
        assert(pv_view_seq(values@) + Seq::<PropertyValueView>::empty() =~= pv_view_seq(values@));
    }
    Some(Ok((values, offset)))
}

/// The single value, or all of them as an array.
pub(crate) fn collapse(values: Vec<PropertyValue>) -> (r: PropertyValue)
    ensures
        r@ == collapse_values(pv_view_seq(values@)),
{
    proof {
        lemma_pv_view_seq_len(values@);
    }
    if values.len() == 1 {
        let mut values = values;
        proof {
            lemma_pv_view_seq_index(values@, 0);
        }
        values.remove(0)
    } else {
        PropertyValue::Array(values)
    }
}

/// Faithfully encoded values written one after another and followed by the
/// closing octet of context tag `tag_number` read back as exactly those
/// values, in order, the closing octet standing right after their
/// encodings.
pub proof fn lemma_value_list_of_encodings(vs: Seq<PropertyValueView>, tag_number: u8, rest: Seq<u8>)
    requires
        tag_number < 16,
        forall|i: int| 0 <= i < vs.len() ==> pv_roundtrips(#[trigger] vs[i]),
    ensures
        spec_value_list(pv_encoding_seq(vs) + seq![closing_tag_octet(tag_number)] + rest, tag_number)
            == Some(
            Ok::<(Seq<PropertyValueView>, int), DecodeError>((vs, pv_encoding_seq(vs).len() as int)),
        ),
    decreases vs.len(),
{
    let c = closing_tag_octet(tag_number);
    assert(((tag_number << 4u8) | 0x0Fu8) & 0x08 != 0) by (bit_vector)
        requires
            tag_number < 16,
    ;
    let tail = seq![c] + rest;
    let d = pv_encoding_seq(vs) + seq![c] + rest;
    assert(d =~= pv_encoding_seq(vs) + tail);
    if vs.len() == 0 {
        assert(pv_encoding_seq(vs) == Seq::<u8>::empty());
        assert(d =~= tail);
        assert(vs =~= Seq::<PropertyValueView>::empty());
    } else {
        let v = vs[0];
        let ws = vs.subrange(1, vs.len() as int);
        assert(vs =~= seq![v] + ws);
        assert forall|i: int| 0 <= i < ws.len() implies pv_roundtrips(#[trigger] ws[i]) by {
            assert(ws[i] == vs[i + 1]);
        }
        lemma_pv_encoding_seq_cons(v, ws);
        lemma_value_list_of_encodings(ws, tag_number, rest);
        let after = pv_encoding_seq(ws) + seq![c] + rest;
        assert(d =~= pv_encoding(v) + after);
        lemma_pv_decodes_from_front(v, after);
        let n = pv_encoding(v).len() as int;
        assert(d[0] == pv_encoding(v)[0]);
        assert(d[0] != c);
        assert(d.subrange(n, d.len() as int) =~= after);
        assert(seq![v] + ws =~= vs);
    }
}

} // verus!
