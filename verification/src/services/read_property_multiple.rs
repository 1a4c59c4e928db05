//! ReadPropertyMultiple: the request encoder and the response decoder.
use vstd::prelude::*;

use crate::codec::apdu::{decode_enumerated_value, spec_enumerated_value};
use crate::codec::types::{
    object_id_of, object_id_value, pv_encoding_seq, pv_roundtrips, DecodeError, ObjectIdentifier,
    PropertyValue, PropertyValueView,
};
use crate::enums::{property_code, property_of, PropertyIdentifier};
use crate::services::read_property::optional_index_bytes;
use crate::services::{
    closing_tag_octet, collapse, collapse_values, context_object_id_bytes, context_unsigned_bytes,
    decode_context_object_id, decode_context_unsigned, decode_value_list, encode_closing_tag,
    encode_context_object_id, encode_context_unsigned, encode_opening_tag, is_closing_tag,
    is_opening_tag, lemma_value_list_of_encodings, opening_tag_octet, spec_context_object_id, spec_context_unsigned,
    spec_value_list,
};

verus! {

/// Confirmed service choice of ReadPropertyMultiple.
pub const SERVICE_CHOICE: u8 = 14;

// ─────────────────────────────────────────────────────────────────────────
// Request
// ─────────────────────────────────────────────────────────────────────────

/// One property asked for in a ReadPropertyMultiple request.
#[derive(Debug, Clone, Copy, PartialEq, Eq, Structural)]
pub struct PropertyReference {
    pub property_id: PropertyIdentifier,
    pub array_index: Option<u32>,
}

/// One object and the properties asked for of it.
#[derive(Debug, Clone)]
pub struct ReadAccessSpec {
    pub object_id: ObjectIdentifier,
    pub properties: Vec<PropertyReference>,
}

/// A property reference: the identifier (context 0) and the array index
/// when given (context 1).
pub open spec fn property_reference_bytes(p: PropertyReference) -> Seq<u8> {
    context_unsigned_bytes(0, property_code(p.property_id)) + optional_index_bytes(1, p.array_index)
}

/// Property references one after another.
pub open spec fn property_references_bytes(ps: Seq<PropertyReference>) -> Seq<u8>
    decreases ps.len(),
{
    if ps.len() == 0 {
        Seq::empty()
    } else {
        property_references_bytes(ps.drop_last()) + property_reference_bytes(ps.last())
    }
}

/// One access specification: the object identifier (context 0), then its
/// property references between opening and closing tag 1.
pub open spec fn access_spec_bytes(s: ReadAccessSpec) -> Seq<u8> {
    context_object_id_bytes(0, object_id_value(s.object_id)) + seq![opening_tag_octet(1)]
        + property_references_bytes(s.properties@) + seq![closing_tag_octet(1)]
}

/// ReadPropertyMultiple request service data: the access specifications one
/// after another.
pub open spec fn access_specs_bytes(specs: Seq<ReadAccessSpec>) -> Seq<u8>
    decreases specs.len(),
{
    if specs.len() == 0 {
        Seq::empty()
    } else {
        access_specs_bytes(specs.drop_last()) + access_spec_bytes(specs.last())
    }
}

/// Encodes ReadPropertyMultiple request service data.
pub fn encode_request(specs: &[ReadAccessSpec]) -> (r: Vec<u8>)
    ensures
        r@ == access_specs_bytes(specs@),
{
    let mut buf: Vec<u8> = Vec::new();
    let mut i: usize = 0;
    assert(specs@.subrange(0, 0) =~= Seq::<ReadAccessSpec>::empty());
    while i < specs.len()
        invariant
            i <= specs@.len(),
            buf@ == access_specs_bytes(specs@.subrange(0, i as int)),
        decreases specs@.len() - i,
    {
        let spec = &specs[i];
        let ghost before = buf@;
        encode_context_object_id(0, spec.object_id.to_u32(), &mut buf);
        encode_opening_tag(1, &mut buf);
        let ghost head = buf@;
        let mut j: usize = 0;
        assert(spec.properties@.subrange(0, 0) =~= Seq::<PropertyReference>::empty());
        assert(buf@ =~= head + property_references_bytes(spec.properties@.subrange(0, 0)));
        while j < spec.properties.len()
            invariant
                j <= spec.properties@.len(),
                buf@ == head + property_references_bytes(spec.properties@.subrange(0, j as int)),
            decreases spec.properties@.len() - j,
        {
            let prop = spec.properties[j];
            encode_context_unsigned(0, u32::from(prop.property_id), &mut buf);
            if let Some(idx) = prop.array_index {
                encode_context_unsigned(1, idx, &mut buf);
            }
            proof {
                let p = spec.properties@.subrange(0, j as int + 1);
                assert(p.drop_last() =~= spec.properties@.subrange(0, j as int));
            }
            j = j + 1;
            assert(buf@ =~= head + property_references_bytes(spec.properties@.subrange(0, j as int)));
        }
        encode_closing_tag(1, &mut buf);
        proof {
            assert(spec.properties@.subrange(0, j as int) =~= spec.properties@);
            let p = specs@.subrange(0, i as int + 1);
            assert(p.drop_last() =~= specs@.subrange(0, i as int));
        }
        i = i + 1;
        assert(buf@ =~= access_specs_bytes(specs@.subrange(0, i as int)));
    }
    assert(specs@.subrange(0, i as int) =~= specs@);
    buf
}

// ─────────────────────────────────────────────────────────────────────────
// Response
// ─────────────────────────────────────────────────────────────────────────

/// An error a device reports for one property: class and code.
#[derive(Debug, Clone, Copy, PartialEq, Eq, Structural)]
pub struct BacnetError {
    pub error_class: u32,
    pub error_code: u32,
}

/// The outcome for one property.
#[derive(Debug, PartialEq)]
pub struct PropertyResult {
    pub property_id: PropertyIdentifier,
    pub array_index: Option<u32>,
    pub value: Result<PropertyValue, BacnetError>,
}

/// The outcomes for one object.
#[derive(Debug, PartialEq)]
pub struct ObjectResult {
    pub object_id: ObjectIdentifier,
    pub properties: Vec<PropertyResult>,
}

/// A decoded ReadPropertyMultiple acknowledgement.
#[derive(Debug, PartialEq)]
pub struct ReadPropertyMultipleResult {
    pub objects: Vec<ObjectResult>,
}

/// The mathematical content of a `PropertyResult`.
pub struct PropertyResultView {
    pub property_id: PropertyIdentifier,
    pub array_index: Option<u32>,
    pub value: Result<PropertyValueView, BacnetError>,
}

/// The mathematical content of an `ObjectResult`.
pub struct ObjectResultView {
    pub object_id: ObjectIdentifier,
    pub properties: Seq<PropertyResultView>,
}

/// The view of a property's outcome.
pub open spec fn value_result_view(v: Result<PropertyValue, BacnetError>) -> Result<
    PropertyValueView,
    BacnetError,
> {
    match v {
        Ok(pv) => Ok(pv@),
        Err(e) => Err(e),
    }
}

impl View for PropertyResult {
    type V = PropertyResultView;

    open spec fn view(&self) -> PropertyResultView {
        PropertyResultView {
            property_id: self.property_id,
            array_index: self.array_index,
            value: value_result_view(self.value),
        }
    }
}

impl View for ObjectResult {
    type V = ObjectResultView;

    open spec fn view(&self) -> ObjectResultView {
        ObjectResultView {
            object_id: self.object_id,
            properties: self.properties@.map_values(|p: PropertyResult| p@),
        }
    }
}

impl View for ReadPropertyMultipleResult {
    type V = Seq<ObjectResultView>;

    open spec fn view(&self) -> Seq<ObjectResultView> {
        self.objects@.map_values(|o: ObjectResult| o@)
    }
}

/// Whether `b` is a primitive context tag `tag_number` (not an opening or
/// closing octet).
pub open spec fn starts_primitive_context(b: u8, tag_number: u8) -> bool {
    (b >> 4u8) & 0x0F == tag_number && b & 0x08 != 0 && b & 0x07 != 6 && b & 0x07 != 7
}

/// A property's outcome at offset `p` of `d`: the values between opening
/// and closing tag 4, or an error class and code (Enumerated) between
/// opening and closing tag 5; and the offset after it.
pub open spec fn spec_rpm_value(d: Seq<u8>, p: int) -> Option<
    Result<(Result<PropertyValueView, BacnetError>, int), DecodeError>,
> {
    if p < d.len() && d[p] == opening_tag_octet(4) {
        match spec_value_list(d.subrange(p + 1, d.len() as int), 4) {
            None => None,
            Some(Err(e)) => Some(Err(e)),
            Some(Ok((vs, m))) => Some(Ok((Ok(collapse_values(vs)), p + 1 + m + 1))),
        }
    } else if p < d.len() && d[p] == opening_tag_octet(5) {
        let d5 = d.subrange(p + 1, d.len() as int);
        match spec_enumerated_value(d5) {
            Err(e) => Some(Err(e)),
            Ok((class, n1)) => match spec_enumerated_value(d5.subrange(n1, d5.len() as int)) {
                Err(e) => Some(Err(e)),
                Ok((code, n2)) => {
                    let q = p + 1 + n1 + n2;
                    if q < d.len() && d[q] == closing_tag_octet(5) {
                        Some(Ok((Err(BacnetError { error_class: class, error_code: code }), q + 1)))
                    } else {
                        Some(Err(DecodeError::InvalidContextTag))
                    }
                },
            },
        }
    } else {
        Some(Err(DecodeError::InvalidContextTag))
    }
}

/// One property result at offset `p` of `d`, and the offset after it.  It
/// is either wrapped in opening and closing tag 2, with the identifier as
/// context 0 and an index as context 1, or (as some devices send it) bare,
/// with the identifier as context 2 and an index as context 3; the outcome
/// follows (`spec_rpm_value`).
pub open spec fn spec_rpm_property(d: Seq<u8>, p: int) -> Option<Result<(PropertyResultView, int), DecodeError>> {
    let wrapped = p < d.len() && d[p] == opening_tag_octet(2);
    let q = if wrapped {
        p + 1
    } else {
        p
    };
    let id_tag: u8 = if wrapped {
        0
    } else {
        2
    };
    let index_tag: u8 = if wrapped {
        1
    } else {
        3
    };
    match spec_context_unsigned(d.subrange(q, d.len() as int), id_tag) {
        Err(e) => Some(Err(e)),
        Ok((pid, n)) => {
            let r = q + n;
            let index: Result<(Option<u32>, int), DecodeError> = if r < d.len()
                && starts_primitive_context(d[r], index_tag) {
                match spec_context_unsigned(d.subrange(r, d.len() as int), index_tag) {
                    Err(e) => Err(e),
                    Ok((idx, k)) => Ok((Some(idx), r + k)),
                }
            } else {
                Ok((None, r))
            };
            match index {
                Err(e) => Some(Err(e)),
                Ok((array_index, s)) => match spec_rpm_value(d, s) {
                    None => None,
                    Some(Err(e)) => Some(Err(e)),
                    Some(Ok((value, t))) => {
                        let result = PropertyResultView {
                            property_id: property_of(pid),
                            array_index,
                            value,
                        };
                        if !wrapped {
                            Some(Ok((result, t)))
                        } else if t < d.len() && d[t] == closing_tag_octet(2) {
                            Some(Ok((result, t + 1)))
                        } else {
                            Some(Err(DecodeError::InvalidContextTag))
                        }
                    },
                },
            }
        },
    }
}

/// Property results from offset `p` up to closing tag 1: the results and
/// the offset of the closing octet.
pub open spec fn spec_rpm_properties(d: Seq<u8>, p: int) -> Option<
    Result<(Seq<PropertyResultView>, int), DecodeError>,
>
    decreases d.len() - p,
{
    if 0 <= p < d.len() && d[p] == closing_tag_octet(1) {
        Some(Ok((Seq::empty(), p)))
    } else if p < 0 || p >= d.len() {
        Some(Err(DecodeError::IncompleteData))
    } else {
        match spec_rpm_property(d, p) {
            None => None,
            Some(Err(e)) => Some(Err(e)),
            Some(Ok((pr, p2))) => if p < p2 <= d.len() {
                match spec_rpm_properties(d, p2) {
                    None => None,
                    Some(Err(e)) => Some(Err(e)),
                    Some(Ok((rest, c))) => Some(Ok((seq![pr] + rest, c))),
                }
            } else {
                Some(Err(DecodeError::InvalidData))
            },
        }
    }
}

/// Object results from offset `p` to the end of `d`: each an object
/// identifier (context 0) and its property results between opening and
/// closing tag 1.
pub open spec fn spec_rpm_objects(d: Seq<u8>, p: int) -> Option<Result<Seq<ObjectResultView>, DecodeError>>
    decreases d.len() - p,
{
    if p < 0 || p >= d.len() {
        Some(Ok(Seq::empty()))
    } else {
        match spec_context_object_id(d.subrange(p, d.len() as int), 0) {
            Err(e) => Some(Err(e)),
            Ok((raw, n)) => {
                let q = p + n;
                if !(q < d.len() && d[q] == opening_tag_octet(1)) {
                    Some(Err(DecodeError::InvalidContextTag))
                } else {
                    match spec_rpm_properties(d, q + 1) {
                        None => None,
                        Some(Err(e)) => Some(Err(e)),
                        Some(Ok((props, c))) => if p < c + 1 <= d.len() {
                            match spec_rpm_objects(d, c + 1) {
                                None => None,
                                Some(Err(e)) => Some(Err(e)),
                                Some(Ok(rest)) => Some(
                                    Ok(
                                        seq![
                                            ObjectResultView {
                                                object_id: object_id_of(raw),
                                                properties: props,
                                            },
                                        ] + rest,
                                    ),
                                ),
                            }
                        } else {
                            Some(Err(DecodeError::InvalidData))
                        },
                    }
                }
            },
        }
    }
}

/// ReadPropertyMultiple acknowledgement service data: object results to
/// the end.  `None` marks the inputs holding a value the value decoder does
/// not accept.
pub open spec fn spec_read_property_multiple_response(data: Seq<u8>) -> Option<
    Result<Seq<ObjectResultView>, DecodeError>,
> {
    spec_rpm_objects(data, 0)
}

fn decode_property_value(data: &[u8], offset: usize) -> (r: Option<
    Result<(Result<PropertyValue, BacnetError>, usize), DecodeError>,
>)
    requires
        offset <= data@.len(),
    ensures
        match r {
            None => spec_rpm_value(data@, offset as int) is None,
            Some(Err(e)) => spec_rpm_value(data@, offset as int) == Some(
                Err::<(Result<PropertyValueView, BacnetError>, int), DecodeError>(e),
            ),
            Some(Ok((v, t))) => offset < t <= data@.len() && spec_rpm_value(data@, offset as int)
                == Some(
                Ok::<(Result<PropertyValueView, BacnetError>, int), DecodeError>(
                    (value_result_view(v), t as int),
                ),
            ),
        },
{
    let total = data.len();
    if is_opening_tag(&data[offset..total], 4) {
        match decode_value_list(data, offset + 1, 4) {
            None => None,
            Some(Err(e)) => Some(Err(e)),
            Some(Ok((values, end))) => Some(Ok((Ok(collapse(values)), end + 1))),
        }
    } else if is_opening_tag(&data[offset..total], 5) {
        let start = offset + 1;
        let ghost d5 = data@.subrange(start as int, total as int);
        let (error_class, n1) = match decode_enumerated_value(&data[start..total]) {
            Ok(x) => x,
            Err(e) => return Some(Err(e)),
        };
        assert(data@.subrange(start + n1, total as int) =~= d5.subrange(n1 as int, d5.len() as int));
        let (error_code, n2) = match decode_enumerated_value(&data[start + n1..total]) {
            Ok(x) => x,
            Err(e) => return Some(Err(e)),
        };
        let q = start + n1 + n2;
        if !is_closing_tag(&data[q..total], 5) {
            return Some(Err(DecodeError::InvalidContextTag));
        }
        Some(Ok((Err(BacnetError { error_class, error_code }), q + 1)))
    } else {
        Some(Err(DecodeError::InvalidContextTag))
    }
}

#[verifier::rlimit(30)]
fn decode_property_result(data: &[u8], offset: usize) -> (r: Option<
    Result<(PropertyResult, usize), DecodeError>,
>)
    requires
        offset <= data@.len(),
    ensures
        match r {
            None => spec_rpm_property(data@, offset as int) is None,
            Some(Err(e)) => spec_rpm_property(data@, offset as int) == Some(
                Err::<(PropertyResultView, int), DecodeError>(e),
            ),
            Some(Ok((pr, t))) => offset < t <= data@.len() && spec_rpm_property(
                data@,
                offset as int,
            ) == Some(Ok::<(PropertyResultView, int), DecodeError>((pr@, t as int))),
        },
{
    let total = data.len();
    let mut pos = offset;
    let wrapped = is_opening_tag(&data[pos..total], 2);
    if wrapped {
        pos = pos + 1;
    }
    let id_tag: u8 = if wrapped {
        0
    } else {
        2
    };
    let index_tag: u8 = if wrapped {
        1
    } else {
        3
    };
    let (property_id_raw, n) = match decode_context_unsigned(&data[pos..total], id_tag) {
        Ok(x) => x,
        Err(e) => return Some(Err(e)),
    };
    pos = pos + n;
    let property_id = PropertyIdentifier::from(property_id_raw);
    let has_index = if pos < total {
        let b = data[pos];
        let tag_n = (b >> 4) & 0x0F;
        let is_ctx = (b & 0x08) != 0;
        let not_open_close = (b & 0x07) != 0x06 && (b & 0x07) != 0x07;
        is_ctx && not_open_close && tag_n == index_tag
    } else {
        false
    };
    let array_index = if has_index {
        match decode_context_unsigned(&data[pos..total], index_tag) {
            Ok((idx, k)) => {
                pos = pos + k;
                Some(idx)
            },
            Err(e) => return Some(Err(e)),
        }
    } else {
        None
    };
    let (value, t) = match decode_property_value(data, pos) {
        None => return None,
        Some(Err(e)) => return Some(Err(e)),
        Some(Ok(x)) => x,
    };
    pos = t;
    if wrapped {
        if !is_closing_tag(&data[pos..total], 2) {
            return Some(Err(DecodeError::InvalidContextTag));
        }
        pos = pos + 1;
    }
    Some(Ok((PropertyResult { property_id, array_index, value }, pos)))
}

/// Results with `vs` in front.
pub open spec fn chain_properties(
    vs: Seq<PropertyResultView>,
    r: Option<Result<(Seq<PropertyResultView>, int), DecodeError>>,
) -> Option<Result<(Seq<PropertyResultView>, int), DecodeError>> {
    match r {
        Some(Ok((ws, c))) => Some(Ok((vs + ws, c))),
        other => other,
    }
}

/// Objects with `vs` in front.
pub open spec fn chain_objects(
    vs: Seq<ObjectResultView>,
    r: Option<Result<Seq<ObjectResultView>, DecodeError>>,
) -> Option<Result<Seq<ObjectResultView>, DecodeError>> {
    match r {
        Some(Ok(ws)) => Some(Ok(vs + ws)),
        other => other,
    }
}

/// Reads the property results of one object from `start` up to closing tag
/// 1, returning them with the closing octet's offset.
fn decode_property_results(data: &[u8], start: usize) -> (r: Option<
    Result<(Vec<PropertyResult>, usize), DecodeError>,
>)
    requires
        start <= data@.len(),
    ensures
        match r {
            None => spec_rpm_properties(data@, start as int) is None,
            Some(Err(e)) => spec_rpm_properties(data@, start as int) == Some(
                Err::<(Seq<PropertyResultView>, int), DecodeError>(e),
            ),
            Some(Ok((ps, c))) => start <= c < data@.len() && spec_rpm_properties(
                data@,
                start as int,
            ) == Some(
                Ok::<(Seq<PropertyResultView>, int), DecodeError>(
                    (ps@.map_values(|p: PropertyResult| p@), c as int),
                ),
            ),
        },
{
    let total = data.len();
    let mut properties: Vec<PropertyResult> = Vec::new();
    let mut offset = start;
    let ghost whole = spec_rpm_properties(data@, start as int);
    assert(chain_properties(Seq::empty(), whole) == whole) by {
        if let Some(Ok((ws, c))) = whole {
            assert(Seq::<PropertyResultView>::empty() + ws =~= ws);
        }
    }
    assert(properties@.map_values(|p: PropertyResult| p@) =~= Seq::<PropertyResultView>::empty());
    while !is_closing_tag(&data[offset..total], 1)
        invariant
            start <= offset <= total,
            total == data@.len(),
            whole == spec_rpm_properties(data@, start as int),
            whole == chain_properties(
                properties@.map_values(|p: PropertyResult| p@),
                spec_rpm_properties(data@, offset as int),
            ),
        decreases total - offset,
    {
        if offset >= total {
            return Some(Err(DecodeError::IncompleteData));
        }
        match decode_property_result(data, offset) {
            None => return None,
            Some(Err(e)) => return Some(Err(e)),
            Some(Ok((pr, t))) => {
                proof {
                    let vs = properties@.map_values(|p: PropertyResult| p@);
                    let rest = spec_rpm_properties(data@, t as int);
                    if let Some(Ok((ws, c))) = rest {
                        assert(vs + (seq![pr@] + ws) =~= vs.push(pr@) + ws);
                    }
                    assert(properties@.push(pr).map_values(|p: PropertyResult| p@) =~= vs.push(
                        pr@,
                    ));
                }
                properties.push(pr);
                offset = t;
            },
        }
    }
    proof {
        let vs = properties@.map_values(|p: PropertyResult| p@);
        assert(vs + Seq::<PropertyResultView>::empty() =~= vs);
    }
    Some(Ok((properties, offset)))
}

/// Decodes ReadPropertyMultiple acknowledgement service data, or reports
/// `None` for the inputs holding a value the value decoder does not accept.
pub fn decode_response_checked(data: &[u8]) -> (r: Option<
    Result<ReadPropertyMultipleResult, DecodeError>,
>)
    ensures
        match r {
            None => spec_read_property_multiple_response(data@) is None,
            Some(Err(e)) => spec_read_property_multiple_response(data@) == Some(
                Err::<Seq<ObjectResultView>, DecodeError>(e),
            ),
            Some(Ok(v)) => spec_read_property_multiple_response(data@) == Some(
                Ok::<Seq<ObjectResultView>, DecodeError>(v@),
            ),
        },
{
    let total = data.len();
    let mut offset: usize = 0;
    let mut objects: Vec<ObjectResult> = Vec::new();
    let ghost whole = spec_rpm_objects(data@, 0);
    assert(chain_objects(Seq::empty(), whole) == whole) by {
        if let Some(Ok(ws)) = whole {
            assert(Seq::<ObjectResultView>::empty() + ws =~= ws);
        }
    }
    assert(objects@.map_values(|o: ObjectResult| o@) =~= Seq::<ObjectResultView>::empty());
    while offset < total
        invariant
            offset <= total,
            total == data@.len(),
            whole == spec_rpm_objects(data@, 0),
            whole == chain_objects(
                objects@.map_values(|o: ObjectResult| o@),
                spec_rpm_objects(data@, offset as int),
            ),
        decreases total - offset,
    {
        let (oid_raw, n) = match decode_context_object_id(&data[offset..total], 0) {
            Ok(x) => x,
            Err(e) => return Some(Err(e)),
        };
        let object_id = ObjectIdentifier::from_u32(oid_raw);
        let q = offset + n;
        if !is_opening_tag(&data[q..total], 1) {
            return Some(Err(DecodeError::InvalidContextTag));
        }
        let (properties, c) = match decode_property_results(data, q + 1) {
            None => return None,
            Some(Err(e)) => return Some(Err(e)),
            Some(Ok(x)) => x,
        };
        let obj = ObjectResult { object_id, properties };
        proof {
            let vs = objects@.map_values(|o: ObjectResult| o@);
            let rest = spec_rpm_objects(data@, c + 1);
            if let Some(Ok(ws)) = rest {
                assert(vs + (seq![obj@] + ws) =~= vs.push(obj@) + ws);
            }
            assert(objects@.push(obj).map_values(|o: ObjectResult| o@) =~= vs.push(obj@));
        }
        objects.push(obj);
        offset = c + 1;
    }
    proof {
        let vs = objects@.map_values(|o: ObjectResult| o@);
        assert(vs + Seq::<ObjectResultView>::empty() =~= vs);
    }
    Some(Ok(ReadPropertyMultipleResult { objects }))
}

/// Decodes ReadPropertyMultiple acknowledgement service data.
pub fn decode_response(data: &[u8]) -> (r: Result<ReadPropertyMultipleResult, DecodeError>)
    requires
        spec_read_property_multiple_response(data@) is Some,
    ensures
        match r {
            Err(e) => spec_read_property_multiple_response(data@) == Some(
                Err::<Seq<ObjectResultView>, DecodeError>(e),
            ),
            Ok(v) => spec_read_property_multiple_response(data@) == Some(
                Ok::<Seq<ObjectResultView>, DecodeError>(v@),
            ),
        },
{
    match decode_response_checked(data) {
        Some(r) => r,
        None => Err(DecodeError::InvalidData),
    }
}

/// A property's outcome given as values between opening tag 4 (`0x4E`) and
/// closing tag 4 (`0x4F`): faithfully encoded values read back as an
/// `Array` of all of them, in order, unless there is exactly one, which is
/// the value itself; the outcome ends after the closing octet.
pub proof fn lemma_rpm_value_of_encodings(
    prefix: Seq<u8>,
    vs: Seq<PropertyValueView>,
    rest: Seq<u8>,
)
    requires
        forall|i: int| 0 <= i < vs.len() ==> pv_roundtrips(#[trigger] vs[i]),
    ensures
        ({
            let d = prefix + seq![0x4Eu8] + pv_encoding_seq(vs) + seq![0x4Fu8] + rest;
            let end = (prefix.len() + 1 + pv_encoding_seq(vs).len() + 1) as int;
            &&& vs.len() != 1 ==> spec_rpm_value(d, prefix.len() as int) == Some(
                Ok::<(Result<PropertyValueView, BacnetError>, int), DecodeError>(
                    (Ok(PropertyValueView::Array(vs)), end),
                ),
            )
            &&& vs.len() == 1 ==> spec_rpm_value(d, prefix.len() as int) == Some(
                Ok::<(Result<PropertyValueView, BacnetError>, int), DecodeError>((Ok(vs[0]), end)),
            )
        }),
{
    let d = prefix + seq![0x4Eu8] + pv_encoding_seq(vs) + seq![0x4Fu8] + rest;
    let p = prefix.len() as int;
    assert(((4u8 << 4u8) | 0x0Eu8) == 0x4Eu8 && ((4u8 << 4u8) | 0x0Fu8) == 0x4Fu8) by (bit_vector);
    assert(opening_tag_octet(4) == 0x4Eu8);
    assert(closing_tag_octet(4) == 0x4Fu8);
    assert(d[p] == 0x4Eu8);
    assert(d.subrange(p + 1, d.len() as int) =~= pv_encoding_seq(vs) + seq![closing_tag_octet(4)] + rest);
    lemma_value_list_of_encodings(vs, 4, rest);
}

} // verus!
