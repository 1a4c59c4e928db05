//! Application-tagged property values: the data model and its wire format.
use vstd::prelude::*;

use crate::codec::wire::{be_bytes, be_u32, be_value, byte_count, min_width, push_all, push_be};
use crate::text::join;
use vstd::utf8::{decode_utf8, encode_utf8, valid_utf8};

pub use crate::codec::object_type::{
    is_canonical_object_type, is_known_object_type_code, object_type_code, object_type_name,
    ObjectType,
};

verus! {

// ─────────────────────────────────────────────────────────────────────────
// Character encodings
// ─────────────────────────────────────────────────────────────────────────

/// Character set of a CharacterString (the first content octet).
#[derive(Debug, Clone, Copy, PartialEq, Eq, Structural)]
pub enum CharacterEncoding {
    Utf8,
    MicrosoftAnsi,
    Iso8859_1,
    Iso8859_2,
    Iso8859_3,
    Iso8859_4,
    Iso8859_5,
    Iso8859_6,
    Iso8859_7,
    Iso8859_8,
    Iso8859_9,
    Iso8859_10,
    Iso88592_1,
    Utf16,
    Reserved,
}

/// The octet written for each character encoding.
pub open spec fn character_encoding_code(e: CharacterEncoding) -> u8 {
    match e {
        CharacterEncoding::Utf8 => 0,
        CharacterEncoding::MicrosoftAnsi => 1,
        CharacterEncoding::Iso8859_1 => 2,
        CharacterEncoding::Iso8859_2 => 3,
        CharacterEncoding::Iso8859_3 => 4,
        CharacterEncoding::Iso8859_4 => 5,
        CharacterEncoding::Iso8859_5 => 6,
        CharacterEncoding::Iso8859_6 => 7,
        CharacterEncoding::Iso8859_7 => 8,
        CharacterEncoding::Iso8859_8 => 9,
        CharacterEncoding::Iso8859_9 => 10,
        CharacterEncoding::Iso8859_10 => 11,
        CharacterEncoding::Iso88592_1 => 12,
        CharacterEncoding::Utf16 => 13,
        CharacterEncoding::Reserved => 14,
    }
}

impl CharacterEncoding {
    /// Octets 0 to 13 name an encoding; every other octet is `Reserved`.
    pub fn from_u8(value: u8) -> (r: CharacterEncoding)
        ensures
            r == character_encoding_of(value),
    {
        proof {
            lemma_character_encoding_of(value);
        }
        match value {
            0 => CharacterEncoding::Utf8,
            1 => CharacterEncoding::MicrosoftAnsi,
            2 => CharacterEncoding::Iso8859_1,
            3 => CharacterEncoding::Iso8859_2,
            4 => CharacterEncoding::Iso8859_3,
            5 => CharacterEncoding::Iso8859_4,
            6 => CharacterEncoding::Iso8859_5,
            7 => CharacterEncoding::Iso8859_6,
            8 => CharacterEncoding::Iso8859_7,
            9 => CharacterEncoding::Iso8859_8,
            10 => CharacterEncoding::Iso8859_9,
            11 => CharacterEncoding::Iso8859_10,
            12 => CharacterEncoding::Iso88592_1,
            13 => CharacterEncoding::Utf16,
            _ => CharacterEncoding::Reserved,
        }
    }

    pub fn to_u8(&self) -> (r: u8)
        ensures
            r == character_encoding_code(*self),
    {
        match self {
            CharacterEncoding::Utf8 => 0,
            CharacterEncoding::MicrosoftAnsi => 1,
            CharacterEncoding::Iso8859_1 => 2,
            CharacterEncoding::Iso8859_2 => 3,
            CharacterEncoding::Iso8859_3 => 4,
            CharacterEncoding::Iso8859_4 => 5,
            CharacterEncoding::Iso8859_5 => 6,
            CharacterEncoding::Iso8859_6 => 7,
            CharacterEncoding::Iso8859_7 => 8,
            CharacterEncoding::Iso8859_8 => 9,
            CharacterEncoding::Iso8859_9 => 10,
            CharacterEncoding::Iso8859_10 => 11,
            CharacterEncoding::Iso88592_1 => 12,
            CharacterEncoding::Utf16 => 13,
            CharacterEncoding::Reserved => 14,
        }
    }
}

/// The encoding named by octet `v` (`Reserved` above 13).
pub open spec fn character_encoding_of(v: u8) -> CharacterEncoding {
    if v > 13 {
        CharacterEncoding::Reserved
    } else {
        choose|f: CharacterEncoding| character_encoding_code(f) == v
    }
}

/// Every encoding maps to an octet that maps back to it; octets up to 14
/// survive the opposite round trip.
pub proof fn lemma_character_encoding_roundtrip(e: CharacterEncoding, v: u8)
    ensures
        character_encoding_of(character_encoding_code(e)) == e,
        v <= 14 ==> character_encoding_code(character_encoding_of(v)) == v,
{
    lemma_character_encoding_of(v);
    lemma_character_encoding_of(character_encoding_code(e));
}

proof fn lemma_character_encoding_of(v: u8)
    ensures
        v <= 13 ==> character_encoding_code(character_encoding_of(v)) == v,
        v == 14 ==> character_encoding_of(v) == CharacterEncoding::Reserved,
        forall|f: CharacterEncoding|
            #![trigger character_encoding_code(f)]
            character_encoding_code(f) == v ==> character_encoding_of(v) == f,
{
    if v <= 14 {
        if v == 0 { assert(character_encoding_code(CharacterEncoding::Utf8) == v); }
        else if v == 1 { assert(character_encoding_code(CharacterEncoding::MicrosoftAnsi) == v); }
        else if v == 2 { assert(character_encoding_code(CharacterEncoding::Iso8859_1) == v); }
        else if v == 3 { assert(character_encoding_code(CharacterEncoding::Iso8859_2) == v); }
        else if v == 4 { assert(character_encoding_code(CharacterEncoding::Iso8859_3) == v); }
        else if v == 5 { assert(character_encoding_code(CharacterEncoding::Iso8859_4) == v); }
        else if v == 6 { assert(character_encoding_code(CharacterEncoding::Iso8859_5) == v); }
        else if v == 7 { assert(character_encoding_code(CharacterEncoding::Iso8859_6) == v); }
        else if v == 8 { assert(character_encoding_code(CharacterEncoding::Iso8859_7) == v); }
        else if v == 9 { assert(character_encoding_code(CharacterEncoding::Iso8859_8) == v); }
        else if v == 10 { assert(character_encoding_code(CharacterEncoding::Iso8859_9) == v); }
        else if v == 11 { assert(character_encoding_code(CharacterEncoding::Iso8859_10) == v); }
        else if v == 12 { assert(character_encoding_code(CharacterEncoding::Iso88592_1) == v); }
        else if v == 13 { assert(character_encoding_code(CharacterEncoding::Utf16) == v); }
        else { assert(character_encoding_code(CharacterEncoding::Reserved) == v); }
    }
}

// ─────────────────────────────────────────────────────────────────────────
// Simple value types
// ─────────────────────────────────────────────────────────────────────────

/// A character string together with its declared character set.
#[derive(Debug, Clone, PartialEq)]
pub struct CharacterString {
    pub encoding: CharacterEncoding,
    pub value: String,
}

/// A bit string: the count of unused bits in the last octet, then the octets.
#[derive(Debug, Clone, PartialEq)]
pub struct BitString {
    pub used_bits: u8,
    pub bits: Vec<u8>,
}

impl BitString {
    pub fn new(used_bits: u8, bits: Vec<u8>) -> (r: Self)
        ensures
            r.used_bits == used_bits,
            r.bits@ == bits@,
    {
        Self { used_bits, bits }
    }
}

/// Day of the week as carried in a Date (`MondayToFriday` is octet 7).
#[derive(Debug, Clone, Copy, PartialEq, Eq, Structural)]
pub enum Weekday {
    Monday,
    Tuesday,
    Wednesday,
    Thursday,
    Friday,
    Saturday,
    Sunday,
    MondayToFriday,
}

/// The octet written for each weekday.
pub open spec fn weekday_code(w: Weekday) -> u8 {
    match w {
        Weekday::Monday => 0,
        Weekday::Tuesday => 1,
        Weekday::Wednesday => 2,
        Weekday::Thursday => 3,
        Weekday::Friday => 4,
        Weekday::Saturday => 5,
        Weekday::Sunday => 6,
        Weekday::MondayToFriday => 7,
    }
}

impl Weekday {
    /// Octets 0 to 7 name a weekday; any other octet names none.
    pub fn from_u8(value: u8) -> (r: Option<Weekday>)
        ensures
            r == weekday_of(value),
            r is Some <==> value <= 7,
            r matches Some(w) ==> weekday_code(w) == value,
    {
        match value {
            0 => Some(Weekday::Monday),
            1 => Some(Weekday::Tuesday),
            2 => Some(Weekday::Wednesday),
            3 => Some(Weekday::Thursday),
            4 => Some(Weekday::Friday),
            5 => Some(Weekday::Saturday),
            6 => Some(Weekday::Sunday),
            7 => Some(Weekday::MondayToFriday),
            _ => None,
        }
    }

    pub fn to_u8(&self) -> (r: u8)
        ensures
            r == weekday_code(*self),
    {
        match self {
            Weekday::Monday => 0,
            Weekday::Tuesday => 1,
            Weekday::Wednesday => 2,
            Weekday::Thursday => 3,
            Weekday::Friday => 4,
            Weekday::Saturday => 5,
            Weekday::Sunday => 6,
            Weekday::MondayToFriday => 7,
        }
    }
}

/// The weekday named by octet `v`, if any.
pub open spec fn weekday_of(v: u8) -> Option<Weekday> {
    if v == 0 {
        Some(Weekday::Monday)
    } else if v == 1 {
        Some(Weekday::Tuesday)
    } else if v == 2 {
        Some(Weekday::Wednesday)
    } else if v == 3 {
        Some(Weekday::Thursday)
    } else if v == 4 {
        Some(Weekday::Friday)
    } else if v == 5 {
        Some(Weekday::Saturday)
    } else if v == 6 {
        Some(Weekday::Sunday)
    } else if v == 7 {
        Some(Weekday::MondayToFriday)
    } else {
        None
    }
}

/// Distinct weekdays have distinct octets, all at most 7, so `from_u8` of
/// `to_u8` gives the weekday back.
pub proof fn lemma_weekday_code_injective(a: Weekday, b: Weekday)
    ensures
        weekday_code(a) <= 7,
        weekday_code(a) == weekday_code(b) ==> a == b,
        weekday_of(weekday_code(a)) == Some(a),
{
}

/// A calendar date; `weekday` is absent when the encoding omits it.
#[derive(Debug, Clone, Copy, PartialEq, Eq, Structural)]
pub struct Date {
    pub year: u16,
    pub month: u8,
    pub day: u8,
    pub weekday: Option<Weekday>,
}

impl Date {
    pub fn new(year: u16, month: u8, day: u8, weekday: Option<Weekday>) -> (r: Self)
        ensures
            r == (Date { year, month, day, weekday }),
    {
        Self { year, month, day, weekday }
    }
}

/// A time of day with hundredths of a second.
#[derive(Debug, Clone, Copy, PartialEq, Eq, Structural)]
pub struct Time {
    pub hour: u8,
    pub minute: u8,
    pub second: u8,
    pub hundredths: u8,
}

impl Time {
    pub fn new(hour: u8, minute: u8, second: u8, hundredths: u8) -> (r: Self)
        ensures
            r == (Time { hour, minute, second, hundredths }),
    {
        Self { hour, minute, second, hundredths }
    }
}

// ─────────────────────────────────────────────────────────────────────────
// Object identifiers
// ─────────────────────────────────────────────────────────────────────────

/// An object type and a 22-bit instance number.
#[derive(Debug, Clone, Copy, PartialEq, Eq, Structural)]
pub struct ObjectIdentifier {
    pub object_type: ObjectType,
    pub instance: u32,
}

/// The packed 32-bit form: type code in the top 10 bits, instance below.
pub open spec fn object_id_value(o: ObjectIdentifier) -> u32 {
    ((object_type_code(o.object_type) as u32) << 22u32) | (o.instance & 0x3F_FFFF)
}

/// The object identifier packed in `value`.
pub open spec fn object_id_of(value: u32) -> ObjectIdentifier {
    ObjectIdentifier {
        object_type: object_type_of(((value >> 22u32) as u16)),
        instance: value & 0x3F_FFFF,
    }
}

/// The canonical object type with code `v`.
pub open spec fn object_type_of(v: u16) -> ObjectType {
    choose|t: ObjectType| object_type_code(t) == v && (t is Unknown <==> !is_known_object_type_code(v))
}

impl ObjectIdentifier {
    pub fn new(object_type: ObjectType, instance: u32) -> (r: Self)
        ensures
            r == (ObjectIdentifier { object_type, instance }),
    {
        Self { object_type, instance }
    }

    pub fn from_u32(value: u32) -> (r: Self)
        ensures
            r == object_id_of(value),
    {
        let object_type = ObjectType::from_u16((value >> 22) as u16);
        let instance = value & 0x3FFFFF;
        proof {
            crate::codec::object_type::lemma_object_type_code_injective(
                object_type,
                object_type_of(((value >> 22u32) as u16)),
            );
        }
        Self { object_type, instance }
    }

    pub fn to_u32(&self) -> (r: u32)
        ensures
            r == object_id_value(*self),
    {
        ((self.object_type.to_u16() as u32) << 22) | (self.instance & 0x3FFFFF)
    }

    /// Appends the context-tag-0 form: `0x0C` and the four packed octets.
    pub fn encode(&self, buf: &mut Vec<u8>)
        ensures
            final(buf)@ == old(buf)@ + seq![0x0Cu8] + be_bytes(object_id_value(*self), 4),
    {
        let value = self.to_u32();
        buf.push(0x0C);
        push_be(buf, value, 4);
    }

    /// Reads an identifier laid out as a tag octet and four packed octets.
    pub fn decode(data: &[u8]) -> (r: Result<(Self, usize), DecodeError>)
        ensures
            data@.len() < 5 ==> r == Err::<(Self, usize), DecodeError>(DecodeError::IncompleteData),
            data@.len() >= 5 ==> r == Ok::<(Self, usize), DecodeError>(
                (object_id_of(be_u32(data@.subrange(1, 5))), 5usize),
            ),
    {
        if data.len() < 5 {
            return Err(DecodeError::IncompleteData);
        }
        let value = crate::codec::wire::read_be_u32(data, 1, 4);
        Ok((ObjectIdentifier::from_u32(value), 5))
    }
}

/// The object type read back from a code is the canonical one with that code.
pub proof fn lemma_object_type_of(v: u16)
    ensures
        object_type_code(object_type_of(v)) == v,
        is_canonical_object_type(object_type_of(v)),
        (object_type_of(v) is Unknown) == !is_known_object_type_code(v),
{
    let t = if is_known_object_type_code(v) {
        choose|t: ObjectType| object_type_code(t) == v && !(t is Unknown)
    } else {
        ObjectType::Unknown(v)
    };
    if is_known_object_type_code(v) {
        let w = crate::codec::object_type::known_object_type(v);
        assert(object_type_code(w) == v && !(w is Unknown));
    }
    assert(object_type_code(t) == v && (t is Unknown <==> !is_known_object_type_code(v)));
}

/// Packing an identifier and unpacking it gives it back when its code fits
/// in 10 bits, its instance in 22 bits and its object type is canonical;
/// unpacking any 32-bit value and packing it again gives the value back.
pub proof fn lemma_object_id_roundtrip(o: ObjectIdentifier, v: u32)
    ensures
        is_canonical_object_type(o.object_type) && object_type_code(o.object_type) < 1024
            && o.instance < 0x40_0000 ==> object_id_of(object_id_value(o)) == o,
        object_id_value(object_id_of(v)) == v,
{
    let c = object_type_code(o.object_type);
    let i = o.instance;
    lemma_object_type_of(((v >> 22u32) as u16));
    let p = object_id_value(o);
    if is_canonical_object_type(o.object_type) && c < 1024 && i < 0x40_0000 {
        assert((((c as u32) << 22u32) | (i & 0x3F_FFFF)) >> 22u32 == c as u32 && ((((c as u32)
            << 22u32) | (i & 0x3F_FFFF)) & 0x3F_FFFF) == i) by (bit_vector)
            requires
                c < 1024,
                i < 0x40_0000,
        ;
        lemma_object_type_of(c);
        crate::codec::object_type::lemma_object_type_code_injective(object_type_of(c), o.object_type);
    }
    let c2 = ((v >> 22u32) as u16);
    assert((((((v >> 22u32) as u16) as u32) << 22u32) | (v & 0x3F_FFFF) & 0x3F_FFFF) == v)
        by (bit_vector);
}

// ─────────────────────────────────────────────────────────────────────────
// Errors
// ─────────────────────────────────────────────────────────────────────────

/// Why a byte sequence could not be decoded.
#[derive(Debug, Clone, Copy, PartialEq, Eq, Structural)]
pub enum DecodeError {
    IncompleteData,
    InvalidData,
    InvalidTagNumber,
    InvalidContextTag,
    UnsupportedApplicationTag,
    InvalidDate,
    InvalidTime,
    InvalidObjectType,
    UnknownPropertyType,
    UnsupportedBvlcFunction,
}

/// The message describing each error.
pub open spec fn decode_error_message(e: DecodeError) -> Seq<char> {
    match e {
        DecodeError::IncompleteData => "incomplete data"@,
        DecodeError::InvalidData => "invalid data"@,
        DecodeError::InvalidTagNumber => "invalid tag number"@,
        DecodeError::InvalidContextTag => "invalid context tag"@,
        DecodeError::UnsupportedApplicationTag => "unsupported application tag"@,
        DecodeError::InvalidDate => "invalid date"@,
        DecodeError::InvalidTime => "invalid time"@,
        DecodeError::InvalidObjectType => "invalid object type"@,
        DecodeError::UnknownPropertyType => "unknown property type"@,
        DecodeError::UnsupportedBvlcFunction => "unsupported BVLC function code"@,
    }
}

impl DecodeError {
    /// A short lower-case description of the error.
    pub fn to_string(&self) -> (s: String)
        ensures
            s@ == decode_error_message(*self),
    {
        let m: &str = match self {
            DecodeError::IncompleteData => "incomplete data",
            DecodeError::InvalidData => "invalid data",
            DecodeError::InvalidTagNumber => "invalid tag number",
            DecodeError::InvalidContextTag => "invalid context tag",
            DecodeError::UnsupportedApplicationTag => "unsupported application tag",
            DecodeError::InvalidDate => "invalid date",
            DecodeError::InvalidTime => "invalid time",
            DecodeError::InvalidObjectType => "invalid object type",
            DecodeError::UnknownPropertyType => "unknown property type",
            DecodeError::UnsupportedBvlcFunction => "unsupported BVLC function code",
        };
        m.to_owned()
    }
}

/// Values that can append their own encoding to a buffer.
pub trait Encode {
    fn encode(&self, buf: &mut Vec<u8>);
}

/// Values that can be read from the front of a byte sequence, reporting how
/// many octets they took.
pub trait Decode: Sized {
    fn decode(data: &[u8]) -> Result<(Self, usize), DecodeError>;
}


// ─────────────────────────────────────────────────────────────────────────
// Property values
// ─────────────────────────────────────────────────────────────────────────

/// A property value.  `Real` and `Double` carry the IEEE-754 bit patterns of
/// the single and double precision numbers.
#[derive(Debug, PartialEq)]
pub enum PropertyValue {
    Null,
    Boolean(bool),
    Unsigned(u32),
    Signed(i32),
    Real(u32),
    Double(u64),
    OctetString(Vec<u8>),
    CharacterString(CharacterString),
    BitString(BitString),
    Enumerated(u32),
    Date(Date),
    Time(Time),
    ObjectIdentifier(ObjectIdentifier),
    /// Multiple decoded values from a ReadProperty array/list response.
    Array(Vec<PropertyValue>),
    Any(Vec<u8>),
}

/// The mathematical content of a property value.
pub enum PropertyValueView {
    Null,
    Boolean(bool),
    Unsigned(u32),
    Signed(i32),
    Real(u32),
    Double(u64),
    OctetString(Seq<u8>),
    CharacterString(CharacterEncoding, Seq<char>),
    BitString(u8, Seq<u8>),
    Enumerated(u32),
    Date(Date),
    Time(Time),
    ObjectIdentifier(ObjectIdentifier),
    Array(Seq<PropertyValueView>),
    Any(Seq<u8>),
}

pub open spec fn pv_view(v: PropertyValue) -> PropertyValueView
    decreases v, 1nat,
{
    match v {
        PropertyValue::Null => PropertyValueView::Null,
        PropertyValue::Boolean(b) => PropertyValueView::Boolean(b),
        PropertyValue::Unsigned(u) => PropertyValueView::Unsigned(u),
        PropertyValue::Signed(i) => PropertyValueView::Signed(i),
        PropertyValue::Real(b) => PropertyValueView::Real(b),
        PropertyValue::Double(b) => PropertyValueView::Double(b),
        PropertyValue::OctetString(b) => PropertyValueView::OctetString(b@),
        PropertyValue::CharacterString(cs) => PropertyValueView::CharacterString(
            cs.encoding,
            cs.value@,
        ),
        PropertyValue::BitString(bs) => PropertyValueView::BitString(bs.used_bits, bs.bits@),
        PropertyValue::Enumerated(e) => PropertyValueView::Enumerated(e),
        PropertyValue::Date(d) => PropertyValueView::Date(d),
        PropertyValue::Time(t) => PropertyValueView::Time(t),
        PropertyValue::ObjectIdentifier(o) => PropertyValueView::ObjectIdentifier(o),
        PropertyValue::Array(items) => PropertyValueView::Array(pv_view_seq(items@)),
        PropertyValue::Any(d) => PropertyValueView::Any(d@),
    }
}

pub open spec fn pv_view_seq(s: Seq<PropertyValue>) -> Seq<PropertyValueView>
    decreases s, 0nat,
{
    if s.len() == 0 {
        Seq::empty()
    } else {
        pv_view_seq(s.subrange(0, s.len() - 1)).push(pv_view(s[s.len() - 1]))
    }
}

impl Clone for PropertyValue {
    fn clone(&self) -> (r: Self)
        ensures
            r@ == self@,
        decreases self,
    {
        match self {
            PropertyValue::Null => PropertyValue::Null,
            PropertyValue::Boolean(b) => PropertyValue::Boolean(*b),
            PropertyValue::Unsigned(u) => PropertyValue::Unsigned(*u),
            PropertyValue::Signed(i) => PropertyValue::Signed(*i),
            PropertyValue::Real(b) => PropertyValue::Real(*b),
            PropertyValue::Double(b) => PropertyValue::Double(*b),
            PropertyValue::OctetString(b) => PropertyValue::OctetString(copy_bytes(b)),
            PropertyValue::CharacterString(cs) => PropertyValue::CharacterString(
                CharacterString { encoding: cs.encoding, value: cs.value.clone() },
            ),
            PropertyValue::BitString(bs) => PropertyValue::BitString(
                BitString { used_bits: bs.used_bits, bits: copy_bytes(&bs.bits) },
            ),
            PropertyValue::Enumerated(e) => PropertyValue::Enumerated(*e),
            PropertyValue::Date(d) => PropertyValue::Date(*d),
            PropertyValue::Time(t) => PropertyValue::Time(*t),
            PropertyValue::ObjectIdentifier(o) => PropertyValue::ObjectIdentifier(*o),
            PropertyValue::Any(d) => PropertyValue::Any(copy_bytes(d)),
            PropertyValue::Array(items) => {
                let mut out: Vec<PropertyValue> = Vec::new();
                let mut i: usize = 0;
                while i < items.len()
                    invariant
                        self is Array,
                        self->Array_0 == *items,
                        i <= items@.len(),
                        pv_view_seq(out@) == pv_view_seq(items@.subrange(0, i as int)),
                        out@.len() == i,
                    decreases items@.len() - i,
                {
                    proof {
                        vstd::std_specs::vec::axiom_vec_index_decreases(*items, i as int);
                        assert(decreases_to!(*self => self->Array_0));
                        assert(self->Array_0 == *items);
                    }
                    let c = items[i].clone();
                    proof {
                        lemma_pv_view_seq_prefix(items@, i as int + 1);
                        let o2 = out@.push(c);
                        assert(o2.subrange(0, o2.len() - 1) =~= out@);
                    }
                    out.push(c);
                    i = i + 1;
                }
                proof {
                    assert(items@.subrange(0, i as int) =~= items@);
                }
                PropertyValue::Array(out)
            },
        }
    }
}

/// A fresh vector holding the same bytes.
pub fn copy_bytes(v: &Vec<u8>) -> (r: Vec<u8>)
    ensures
        r@ == v@,
{
    let mut r: Vec<u8> = Vec::new();
    push_all(&mut r, v.as_slice());
    r
}

impl View for PropertyValue {
    type V = PropertyValueView;

    open spec fn view(&self) -> PropertyValueView {
        pv_view(*self)
    }
}

/// The octets after a tag octet whose low bits are 5, giving a content
/// length of five or more: one octet up to 253, otherwise 254 and the length
/// in two octets, otherwise 255 and the length in four octets.
pub open spec fn ext_length(len: nat) -> Seq<u8> {
    if len <= 253 {
        seq![len as u8]
    } else if len <= 0xFFFF {
        seq![254u8] + be_bytes(len as u32, 2)
    } else {
        seq![255u8] + be_bytes(len as u32, 4)
    }
}

/// The tag octet of application tag `base` (its high nibble) for `len`
/// content octets: the length in the low bits up to 4, otherwise 5 and the
/// extended length.
pub open spec fn tag_and_length(base: u8, len: nat) -> Seq<u8> {
    if len < 5 {
        seq![(base + len) as u8]
    } else {
        seq![(base + 5) as u8] + ext_length(len)
    }
}

/// The number of octets used for a signed value.
pub open spec fn signed_width(s: i32) -> nat {
    if 0 <= s <= 0xFF {
        1
    } else if 0 <= s <= 0xFFFF {
        2
    } else if -0x80_0000 <= s <= 0x7F_FFFF {
        3
    } else {
        4
    }
}

/// The octet that holds a date's year: the years since 1900, from 0 (for
/// earlier years) to 255 (for 2155 and later).
pub open spec fn year_octet(year: u16) -> u8 {
    if year < 1900 {
        0
    } else if year - 1900 > 255 {
        255
    } else {
        (year - 1900) as u8
    }
}

/// The encoding of a date: tag `0xA4`, the year octet, month, day and the
/// weekday (`0xFF` when unspecified).
pub open spec fn date_encoding(d: Date) -> Seq<u8> {
    seq![
        0xA4u8,
        year_octet(d.year),
        d.month,
        d.day,
        match d.weekday {
            Some(w) => weekday_code(w),
            None => 0xFFu8,
        },
    ]
}

/// The application-tagged encoding of a value.  An array is its elements'
/// encodings between opening and closing tag 3; `Any` is written verbatim.
pub open spec fn pv_encoding(v: PropertyValueView) -> Seq<u8>
    decreases v, 1nat,
{
    match v {
        PropertyValueView::Null => seq![0x00u8],
        PropertyValueView::Boolean(b) => seq![0x11u8, if b { 1u8 } else { 0u8 }],
        PropertyValueView::Unsigned(u) => seq![(0x20 + min_width(u)) as u8] + be_bytes(
            u,
            min_width(u),
        ),
        PropertyValueView::Signed(i) => seq![(0x30 + signed_width(i)) as u8] + be_bytes(
            i as u32,
            signed_width(i),
        ),
        PropertyValueView::Real(b) => seq![0x44u8] + be_bytes(b, 4),
        PropertyValueView::Double(b) => seq![0x55u8, 0x08u8] + crate::codec::wire::be64_bytes(b),
        PropertyValueView::OctetString(b) => tag_and_length(0x60, b.len()) + b,
        PropertyValueView::CharacterString(e, s) => tag_and_length(0x70, encode_utf8(s).len() + 1)
            + seq![character_encoding_code(e)] + encode_utf8(s),
        PropertyValueView::BitString(u, b) => tag_and_length(0x80, b.len() + 1) + seq![u] + b,
        PropertyValueView::Enumerated(e) => seq![(0x90 + min_width(e)) as u8] + be_bytes(
            e,
            min_width(e),
        ),
        PropertyValueView::Date(d) => date_encoding(d),
        PropertyValueView::Time(t) => seq![0xB4u8, t.hour, t.minute, t.second, t.hundredths],
        PropertyValueView::ObjectIdentifier(o) => seq![0xC4u8] + be_bytes(object_id_value(o), 4),
        PropertyValueView::Array(items) => seq![0x3Eu8] + pv_encoding_seq(items) + seq![0x3Fu8],
        PropertyValueView::Any(d) => d,
    }
}

pub open spec fn pv_encoding_seq(s: Seq<PropertyValueView>) -> Seq<u8>
    decreases s, 0nat,
{
    if s.len() == 0 {
        Seq::empty()
    } else {
        pv_encoding_seq(s.subrange(0, s.len() - 1)) + pv_encoding(s[s.len() - 1])
    }
}

/// A value can be encoded when each octet, character or bit string content,
/// counting its leading octet, has at most `u32::MAX` octets (the most the
/// four-octet length field holds).
pub open spec fn pv_encodable(v: PropertyValueView) -> bool
    decreases v, 1nat,
{
    match v {
        PropertyValueView::OctetString(b) => b.len() <= 0xFFFF_FFFF,
        PropertyValueView::CharacterString(_, s) => encode_utf8(s).len() + 1 <= 0xFFFF_FFFF,
        PropertyValueView::BitString(_, b) => b.len() + 1 <= 0xFFFF_FFFF,
        PropertyValueView::Array(items) => pv_encodable_seq(items),
        _ => true,
    }
}

pub open spec fn pv_encodable_seq(s: Seq<PropertyValueView>) -> bool
    decreases s, 0nat,
{
    if s.len() == 0 {
        true
    } else {
        pv_encodable_seq(s.subrange(0, s.len() - 1)) && pv_encodable(s[s.len() - 1])
    }
}

fn encode_unsigned_app(value: u32, buf: &mut Vec<u8>)
    ensures
        final(buf)@ == old(buf)@ + pv_encoding(PropertyValueView::Unsigned(value)),
{
    let n: usize = if value <= 0xFF {
        1
    } else if value <= 0xFFFF {
        2
    } else if value <= 0xFF_FFFF {
        3
    } else {
        4
    };
    buf.push(0x20 + n as u8);
    push_be(buf, value, n);
    assert(buf@ =~= old(buf)@ + pv_encoding(PropertyValueView::Unsigned(value)));
}

fn encode_enumerated(value: u32, buf: &mut Vec<u8>)
    ensures
        final(buf)@ == old(buf)@ + pv_encoding(PropertyValueView::Enumerated(value)),
{
    let n: usize = if value <= 0xFF {
        1
    } else if value <= 0xFFFF {
        2
    } else if value <= 0xFF_FFFF {
        3
    } else {
        4
    };
    buf.push(0x90 + n as u8);
    push_be(buf, value, n);
    assert(buf@ =~= old(buf)@ + pv_encoding(PropertyValueView::Enumerated(value)));
}

fn encode_signed_app(value: i32, buf: &mut Vec<u8>)
    ensures
        final(buf)@ == old(buf)@ + pv_encoding(PropertyValueView::Signed(value)),
{
    let n: usize = if value >= 0 && value <= 0xFF {
        1
    } else if value >= 0 && value <= 0xFFFF {
        2
    } else if value >= -0x80_0000 && value <= 0x7F_FFFF {
        3
    } else {
        4
    };
    buf.push(0x30 + n as u8);
    push_be(buf, value as u32, n);
    assert(buf@ =~= old(buf)@ + pv_encoding(PropertyValueView::Signed(value)));
}

/// Appends the tag octet of application tag `base` and the length octets
/// for `len` content octets.
fn push_tag_and_length(buf: &mut Vec<u8>, base: u8, len: usize)
    requires
        base == 0x60 || base == 0x70 || base == 0x80,
        len <= 0xFFFF_FFFF,
    ensures
        final(buf)@ == old(buf)@ + tag_and_length(base, len as nat),
{
    if len < 5 {
        buf.push(base + len as u8);
    } else {
        buf.push(base + 5);
        if len <= 253 {
            buf.push(len as u8);
        } else if len <= 0xFFFF {
            buf.push(254);
            push_be(buf, len as u32, 2);
        } else {
            buf.push(255);
            push_be(buf, len as u32, 4);
        }
    }
    assert(buf@ =~= old(buf)@ + tag_and_length(base, len as nat));
}

fn encode_octets(tag: u8, bytes: &[u8], buf: &mut Vec<u8>)
    requires
        tag == 0x60 || tag == 0x70 || tag == 0x80,
        bytes@.len() <= 0xFFFF_FFFF,
    ensures
        final(buf)@ == old(buf)@ + tag_and_length(tag, bytes@.len()) + bytes@,
{
    let n = byte_count(bytes);
    push_tag_and_length(buf, tag, n);
    push_all(buf, bytes);
    assert(buf@ =~= old(buf)@ + tag_and_length(tag, bytes@.len()) + bytes@);
}

/// Appends a tag octet and length, one leading content octet, then `bytes`;
/// the length counts the leading octet.
fn encode_octets_with_lead(tag: u8, lead: u8, bytes: &[u8], buf: &mut Vec<u8>)
    requires
        tag == 0x70 || tag == 0x80,
        bytes@.len() + 1 <= 0xFFFF_FFFF,
    ensures
        final(buf)@ == old(buf)@ + tag_and_length(tag, bytes@.len() + 1) + seq![lead] + bytes@,
{
    let n = byte_count(bytes);
    push_tag_and_length(buf, tag, n + 1);
    buf.push(lead);
    push_all(buf, bytes);
    assert(buf@ =~= old(buf)@ + tag_and_length(tag, bytes@.len() + 1) + seq![lead] + bytes@);
}

fn encode_date(d: &Date, buf: &mut Vec<u8>)
    ensures
        final(buf)@ == old(buf)@ + date_encoding(*d),
{
    buf.push(0xA4);
    let year: u8 = if d.year < 1900 {
        0
    } else if d.year - 1900 > 255 {
        255
    } else {
        (d.year - 1900) as u8
    };
    buf.push(year);
    buf.push(d.month);
    buf.push(d.day);
    let weekday: u8 = match d.weekday.as_ref() {
        Some(w) => w.to_u8(),
        None => 0xFF,
    };
    buf.push(weekday);
    assert(buf@ =~= old(buf)@ + date_encoding(*d));
}

impl PropertyValue {
    /// Whether `encode_tag_and_value` accepts this value (see `pv_encodable`).
    pub fn is_encodable(&self) -> (r: bool)
        ensures
            r == pv_encodable(self@),
        decreases self,
    {
        match self {
            PropertyValue::OctetString(bytes) => byte_count(bytes.as_slice()) <= 0xFFFF_FFFF,
            PropertyValue::CharacterString(cs) => byte_count(cs.value.as_str().as_bytes())
                < 0xFFFF_FFFF,
            PropertyValue::BitString(bs) => byte_count(bs.bits.as_slice()) < 0xFFFF_FFFF,
            PropertyValue::Array(items) => {
                let mut i: usize = 0;
                proof {
                    lemma_pv_view_seq_len(items@);
                    assert(items@.subrange(0, 0) =~= Seq::<PropertyValue>::empty());
                }
                while i < items.len()
                    invariant
                        self is Array,
                        self->Array_0 == *items,
                        i <= items@.len(),
                        pv_encodable_seq(pv_view_seq(items@.subrange(0, i as int))),
                    decreases items@.len() - i,
                {
                    proof {
                        lemma_pv_view_seq_prefix(items@, i as int + 1);
                        vstd::std_specs::vec::axiom_vec_index_decreases(*items, i as int);
                        assert(decreases_to!(*self => self->Array_0));
                        let p = pv_view_seq(items@.subrange(0, i as int + 1));
                        assert(p.subrange(0, p.len() - 1) =~= pv_view_seq(items@.subrange(0, i as int)));
                    }
                    if !items[i].is_encodable() {
                        proof {
                            lemma_pv_view_seq_len(items@);
                            lemma_pv_view_seq_index(items@, i as int);
                            if pv_encodable_seq(pv_view_seq(items@)) {
                                lemma_pv_encodable_seq_index(pv_view_seq(items@), i as int);
                            }
                        }
                        return false;
                    }
                    i = i + 1;
                }
                proof {
                    assert(items@.subrange(0, i as int) =~= items@);
                }
                true
            },
            _ => true,
        }
    }
}

impl PropertyValue {
    /// Appends the application-tagged encoding of this value.
    pub fn encode_tag_and_value(&self, buf: &mut Vec<u8>)
        requires
            pv_encodable(self@),
        ensures
            final(buf)@ == old(buf)@ + pv_encoding(self@),
        decreases self,
    {
        match self {
            PropertyValue::Null => {
                buf.push(0x00);
                assert(buf@ =~= old(buf)@ + pv_encoding(self@));
            },
            PropertyValue::Boolean(b) => {
                buf.push(0x11);
                buf.push(if *b { 1 } else { 0 });
                assert(buf@ =~= old(buf)@ + pv_encoding(self@));
            },
            PropertyValue::Unsigned(u) => {
                encode_unsigned_app(*u, buf);
            },
            PropertyValue::Signed(s) => {
                encode_signed_app(*s, buf);
            },
            PropertyValue::Real(r) => {
                buf.push(0x44);
                push_be(buf, *r, 4);
                assert(buf@ =~= old(buf)@ + pv_encoding(self@));
            },
            PropertyValue::Double(d) => {
                buf.push(0x55);
                buf.push(0x08);
                crate::codec::wire::push_be64(buf, *d);
                assert(buf@ =~= old(buf)@ + pv_encoding(self@));
            },
            PropertyValue::OctetString(bytes) => {
                encode_octets(0x60, bytes.as_slice(), buf);
            },
            PropertyValue::CharacterString(cs) => {
                let bytes = cs.value.as_str().as_bytes();
                let code = cs.encoding.to_u8();
                encode_octets_with_lead(0x70, code, bytes, buf);
                assert(buf@ =~= old(buf)@ + pv_encoding(self@));
            },
            PropertyValue::BitString(bs) => {
                encode_octets_with_lead(0x80, bs.used_bits, bs.bits.as_slice(), buf);
                assert(buf@ =~= old(buf)@ + pv_encoding(self@));
            },
            PropertyValue::Enumerated(e) => {
                encode_enumerated(*e, buf);
            },
            PropertyValue::Date(d) => {
                encode_date(d, buf);
            },
            PropertyValue::Time(t) => {
                buf.push(0xB4);
                buf.push(t.hour);
                buf.push(t.minute);
                buf.push(t.second);
                buf.push(t.hundredths);
                assert(buf@ =~= old(buf)@ + pv_encoding(self@));
            },
            PropertyValue::ObjectIdentifier(oi) => {
                buf.push(0xC4);
                let value = oi.to_u32();
                push_be(buf, value, 4);
                assert(buf@ =~= old(buf)@ + pv_encoding(self@));
            },
            PropertyValue::Any(data) => {
                push_all(buf, data.as_slice());
            },
            PropertyValue::Array(items) => {
                let mut i: usize = 0;
                buf.push(0x3E);
                proof {
                    lemma_pv_view_seq_len(items@);
                    assert(items@.subrange(0, 0) =~= Seq::<PropertyValue>::empty());
                    assert(buf@ =~= old(buf)@ + seq![0x3Eu8] + pv_encoding_seq(pv_view_seq(items@.subrange(0, 0))));
                }
                while i < items.len()
                    invariant
                        self is Array,
                        self->Array_0 == *items,
                        i <= items@.len(),
                        pv_view_seq(items@).len() == items@.len(),
                        pv_encodable_seq(pv_view_seq(items@)),
                        buf@ == old(buf)@ + seq![0x3Eu8] + pv_encoding_seq(pv_view_seq(items@.subrange(0, i as int))),
                    decreases items@.len() - i,
                {
                    proof {
                        lemma_pv_view_seq_prefix(items@, i as int + 1);
                        lemma_pv_encodable_seq_index(pv_view_seq(items@), i as int);
                        lemma_pv_view_seq_index(items@, i as int);
                        vstd::std_specs::vec::axiom_vec_index_decreases(*items, i as int);
                        assert(decreases_to!(*self => self->Array_0));
                        assert(self->Array_0 == *items);
                    }
                    items[i].encode_tag_and_value(buf);
                    i = i + 1;
                    assert(buf@ =~= old(buf)@ + seq![0x3Eu8] + pv_encoding_seq(pv_view_seq(items@.subrange(0, i as int))));
                }
                buf.push(0x3F);
                proof {
                    assert(items@.subrange(0, i as int) =~= items@);
                }
                assert(buf@ =~= old(buf)@ + pv_encoding(self@));
            },
        }
    }
}

pub proof fn lemma_pv_view_seq_len(s: Seq<PropertyValue>)
    ensures
        pv_view_seq(s).len() == s.len(),
    decreases s.len(),
{
    if s.len() > 0 {
        lemma_pv_view_seq_len(s.subrange(0, s.len() - 1));
    }
}

pub proof fn lemma_pv_view_seq_index(s: Seq<PropertyValue>, i: int)
    requires
        0 <= i < s.len(),
    ensures
        pv_view_seq(s)[i] == pv_view(s[i]),
    decreases s.len(),
{
    lemma_pv_view_seq_len(s.subrange(0, s.len() - 1));
    if i < s.len() - 1 {
        lemma_pv_view_seq_index(s.subrange(0, s.len() - 1), i);
    }
}

/// The views of a prefix are a prefix of the views, and encoding one more
/// element appends its encoding.
pub proof fn lemma_pv_view_seq_prefix(s: Seq<PropertyValue>, k: int)
    requires
        1 <= k <= s.len(),
    ensures
        pv_view_seq(s.subrange(0, k)) == pv_view_seq(s.subrange(0, k - 1)).push(pv_view(s[k - 1])),
        pv_encoding_seq(pv_view_seq(s.subrange(0, k))) == pv_encoding_seq(
            pv_view_seq(s.subrange(0, k - 1)),
        ) + pv_encoding(pv_view(s[k - 1])),
{
    let p = s.subrange(0, k);
    assert(p.subrange(0, p.len() - 1) =~= s.subrange(0, k - 1));
    let q = pv_view_seq(p);
    lemma_pv_view_seq_len(p);
    assert(q.subrange(0, q.len() - 1) =~= pv_view_seq(s.subrange(0, k - 1)));
}

pub proof fn lemma_pv_encodable_seq_index(s: Seq<PropertyValueView>, i: int)
    requires
        0 <= i < s.len(),
        pv_encodable_seq(s),
    ensures
        pv_encodable(s[i]),
    decreases s.len(),
{
    if i < s.len() - 1 {
        lemma_pv_encodable_seq_index(s.subrange(0, s.len() - 1), i);
    }
}


// ─────────────────────────────────────────────────────────────────────────
// Decoding
// ─────────────────────────────────────────────────────────────────────────

/// The characters `String::from_utf8_lossy` produces for `bytes`.
pub uninterp spec fn utf8_lossy(bytes: Seq<u8>) -> Seq<char>;

/// `String::from_utf8_lossy` (owned): the characters of `bytes`, with every
/// invalid sequence replaced by U+FFFD.  Stated here: the result is the
/// function `utf8_lossy` of the bytes, and for valid UTF-8 it is exactly
/// the decoded text.  What replacement happens on invalid input is left to
/// the name.
#[verifier::external_body]
fn string_from_utf8_lossy(bytes: &[u8]) -> (s: String)
    ensures
        s@ == utf8_lossy(bytes@),
        valid_utf8(bytes@) ==> s@ == decode_utf8(bytes@),
{
    String::from_utf8_lossy(bytes).into_owned()
}

/// The text decoded from `bytes` with invalid sequences replaced: the UTF-8
/// decoding when the bytes are valid UTF-8.
pub open spec fn lossy_text(bytes: Seq<u8>) -> Seq<char> {
    if valid_utf8(bytes) {
        decode_utf8(bytes)
    } else {
        utf8_lossy(bytes)
    }
}

/// Where a primitive's content starts and how many octets it has: the low
/// three bits of the tag octet give the length up to 4; 5 means the length
/// follows (one octet up to 253, or 254 and two octets, or 255 and four
/// octets); 6 and 7 are not lengths.
pub open spec fn primitive_header(data: Seq<u8>) -> Result<(int, int), DecodeError> {
    if data.len() < 2 {
        Err(DecodeError::IncompleteData)
    } else if data[0] & 0x07 < 5 {
        Ok((1, (data[0] & 0x07) as int))
    } else if data[0] & 0x07 > 5 {
        Err(DecodeError::InvalidData)
    } else if data[1] <= 253 {
        Ok((2, data[1] as int))
    } else if data[1] == 254 {
        if data.len() < 4 {
            Err(DecodeError::IncompleteData)
        } else {
            Ok((4, be_value(data.subrange(2, 4)) as int))
        }
    } else if data.len() < 6 {
        Err(DecodeError::IncompleteData)
    } else {
        Ok((6, be_value(data.subrange(2, 6)) as int))
    }
}

/// Two's-complement reading of a 1 to 3 octet value held in `u`; four or
/// more octets are the low 32 bits reinterpreted as signed.
pub open spec fn sign_extend(u: u32, len: int) -> i32 {
    if len == 1 && u >= 0x80 {
        (u as int - 0x100) as i32
    } else if len == 2 && u >= 0x8000 {
        (u as int - 0x1_0000) as i32
    } else if len == 3 && u >= 0x80_0000 {
        (u as int - 0x100_0000) as i32
    } else {
        u as i32
    }
}

/// A primitive with a length header: the content and the octets consumed.
pub open spec fn primitive_content(data: Seq<u8>) -> Result<(int, int), DecodeError> {
    match primitive_header(data) {
        Err(e) => Err(e),
        Ok((off, len)) => if data.len() < off + len {
            Err(DecodeError::IncompleteData)
        } else {
            Ok((off, len))
        },
    }
}

pub open spec fn spec_decode_date(data: Seq<u8>) -> Result<(PropertyValueView, int), DecodeError> {
    if data.len() < 5 {
        Err(DecodeError::IncompleteData)
    } else {
        let year = (data[1] as int + 1900) as u16;
        let month = data[2];
        let day = data[3];
        if month == 0 || month > 12 || day == 0 || day > 31 {
            Err(DecodeError::InvalidDate)
        } else {
            Ok((
                PropertyValueView::Date(Date { year, month, day, weekday: weekday_of(data[4]) }),
                5,
            ))
        }
    }
}

pub open spec fn spec_decode_time(data: Seq<u8>) -> Result<(PropertyValueView, int), DecodeError> {
    if data.len() < 5 {
        Err(DecodeError::IncompleteData)
    } else if data[1] > 23 || data[2] > 59 || data[3] > 59 || data[4] > 99 {
        Err(DecodeError::InvalidTime)
    } else {
        Ok((
            PropertyValueView::Time(
                Time { hour: data[1], minute: data[2], second: data[3], hundredths: data[4] },
            ),
            5,
        ))
    }
}

/// Decoding one application-tagged value from the front of `data`: the
/// value and the number of octets it took, or why it failed.  `None` marks
/// the inputs the decoder does not accept at all: a Signed or BitString
/// whose tag gives a zero length (its length arithmetic underflows).
#[verifier::opaque]
pub open spec fn spec_decode_pv(data: Seq<u8>) -> Option<Result<(PropertyValueView, int), DecodeError>> {
    if data.len() == 0 {
        Some(Err(DecodeError::IncompleteData))
    } else if data[0] & 0x08 != 0 {
        Some(Err(DecodeError::InvalidContextTag))
    } else {
        let t = data[0] >> 4u8;
        if t == 0 {
            Some(Ok((PropertyValueView::Null, 1)))
        } else if t == 1 {
            if data.len() < 2 {
                Some(Err(DecodeError::IncompleteData))
            } else {
                Some(Ok((PropertyValueView::Boolean(data[1] != 0), 2)))
            }
        } else if t == 2 || t == 9 {
            match primitive_content(data) {
                Err(e) => Some(Err(e)),
                Ok((off, len)) => {
                    let u = be_u32(data.subrange(off, off + len));
                    Some(
                        Ok(
                            (
                                if t == 2 {
                                    PropertyValueView::Unsigned(u)
                                } else {
                                    PropertyValueView::Enumerated(u)
                                },
                                off + len,
                            ),
                        ),
                    )
                },
            }
        } else if t == 3 {
            match primitive_content(data) {
                Err(e) => Some(Err(e)),
                Ok((off, len)) => if len == 0 {
                    None
                } else {
                    let u = be_u32(data.subrange(off, off + len));
                    Some(Ok((PropertyValueView::Signed(sign_extend(u, len)), off + len)))
                },
            }
        } else if t == 4 {
            if data.len() < 5 {
                Some(Err(DecodeError::IncompleteData))
            } else {
                Some(Ok((PropertyValueView::Real(be_u32(data.subrange(1, 5))), 5)))
            }
        } else if t == 5 {
            match primitive_content(data) {
                Err(e) => Some(Err(e)),
                Ok((off, len)) => if len != 8 {
                    Some(Err(DecodeError::InvalidData))
                } else {
                    Some(
                        Ok(
                            (
                                PropertyValueView::Double(
                                    crate::codec::wire::be_u64(data.subrange(off, off + 8)),
                                ),
                                off + 8,
                            ),
                        ),
                    )
                },
            }
        } else if t == 6 {
            match primitive_content(data) {
                Err(e) => Some(Err(e)),
                Ok((off, len)) => Some(
                    Ok((PropertyValueView::OctetString(data.subrange(off, off + len)), off + len)),
                ),
            }
        } else if t == 7 {
            match primitive_content(data) {
                Err(e) => Some(Err(e)),
                Ok((off, len)) => if data.len() <= off {
                    Some(Err(DecodeError::IncompleteData))
                } else { Some(
                    Ok(
                        (
                            PropertyValueView::CharacterString(
                                character_encoding_of(data[off]),
                                if len > 1 {
                                    lossy_text(data.subrange(off + 1, off + len))
                                } else {
                                    Seq::empty()
                                },
                            ),
                            off + len,
                        ),
                    ),
                ) },
            }
        } else if t == 8 {
            match primitive_content(data) {
                Err(e) => Some(Err(e)),
                Ok((off, len)) => if len == 0 {
                    None
                } else {
                    Some(
                        Ok(
                            (
                                PropertyValueView::BitString(
                                    data[off],
                                    data.subrange(off + 1, off + len),
                                ),
                                off + len,
                            ),
                        ),
                    )
                },
            }
        } else if t == 10 {
            Some(spec_decode_date(data))
        } else if t == 11 {
            Some(spec_decode_time(data))
        } else if t == 12 {
            if data.len() < 5 {
                Some(Err(DecodeError::IncompleteData))
            } else {
                Some(
                    Ok(
                        (
                            PropertyValueView::ObjectIdentifier(
                                object_id_of(be_u32(data.subrange(1, 5))),
                            ),
                            5,
                        ),
                    ),
                )
            }
        } else {
            Some(Err(DecodeError::UnsupportedApplicationTag))
        }
    }
}

/// The view of a decoding result.
pub open spec fn pv_result_view(r: Result<(PropertyValue, usize), DecodeError>) -> Result<
    (PropertyValueView, int),
    DecodeError,
> {
    match r {
        Ok((v, n)) => Ok((v@, n as int)),
        Err(e) => Err(e),
    }
}

fn primitive_content_exec(data: &[u8]) -> (r: Result<(usize, usize), DecodeError>)
    ensures
        match r {
            Ok((off, len)) => primitive_content(data@) == Ok::<(int, int), DecodeError>(
                (off as int, len as int),
            ),
            Err(e) => primitive_content(data@) == Err::<(int, int), DecodeError>(e),
        },
{
    let total = data.len();
    if total < 2 {
        return Err(DecodeError::IncompleteData);
    }
    let length_in_tag = data[0] & 0x07;
    let (offset, len): (usize, usize) = if length_in_tag < 5 {
        (1, length_in_tag as usize)
    } else if length_in_tag > 5 {
        return Err(DecodeError::InvalidData);
    } else if data[1] <= 253 {
        (2, data[1] as usize)
    } else if data[1] == 254 {
        if total < 4 {
            return Err(DecodeError::IncompleteData);
        }
        proof {
            crate::codec::wire::lemma_be_value_small(data@.subrange(2, 4));
        }
        (4, crate::codec::wire::read_be_u32(data, 2, 2) as usize)
    } else {
        if total < 6 {
            return Err(DecodeError::IncompleteData);
        }
        proof {
            crate::codec::wire::lemma_be_value_small(data@.subrange(2, 6));
        }
        (6, crate::codec::wire::read_be_u32(data, 2, 4) as usize)
    };
    if total - offset < len {
        return Err(DecodeError::IncompleteData);
    }
    Ok((offset, len))
}

fn decode_date(data: &[u8]) -> (r: Result<(PropertyValue, usize), DecodeError>)
    ensures
        pv_result_view(r) == spec_decode_date(data@),
{
    if data.len() < 5 {
        return Err(DecodeError::IncompleteData);
    }
    let year = data[1] as u16 + 1900;
    let month = data[2];
    let day = data[3];
    if month == 0 || month > 12 || day == 0 || day > 31 {
        return Err(DecodeError::InvalidDate);
    }
    let weekday = Weekday::from_u8(data[4]);
    Ok((PropertyValue::Date(Date::new(year, month, day, weekday)), 5))
}

fn decode_time(data: &[u8]) -> (r: Result<(PropertyValue, usize), DecodeError>)
    ensures
        pv_result_view(r) == spec_decode_time(data@),
{
    if data.len() < 5 {
        return Err(DecodeError::IncompleteData);
    }
    let hour = data[1];
    let minute = data[2];
    let second = data[3];
    let hundredths = data[4];
    if hour > 23 || minute > 59 || second > 59 || hundredths > 99 {
        return Err(DecodeError::InvalidTime);
    }
    Ok((PropertyValue::Time(Time::new(hour, minute, second, hundredths)), 5))
}

fn sign_extend_exec(u: u32, len: usize) -> (r: i32)
    requires
        len >= 1 ==> len <= 3 ==> u as nat <= crate::codec::wire::width_max(len as nat),
    ensures
        r == sign_extend(u, len as int),
{
    if len == 1 && u >= 0x80 {
        assert((u | 0xFFFF_FF00u32) as i32 == (u as int - 0x100) as i32) by (bit_vector)
            requires
                0x80 <= u <= 0xFF,
        ;
        (u | 0xFFFF_FF00) as i32
    } else if len == 2 && u >= 0x8000 {
        assert((u | 0xFFFF_0000u32) as i32 == (u as int - 0x1_0000) as i32) by (bit_vector)
            requires
                0x8000 <= u <= 0xFFFF,
        ;
        (u | 0xFFFF_0000) as i32
    } else if len == 3 && u >= 0x80_0000 {
        assert((u | 0xFF00_0000u32) as i32 == (u as int - 0x100_0000) as i32) by (bit_vector)
            requires
                0x80_0000 <= u <= 0xFF_FFFF,
        ;
        (u | 0xFF00_0000) as i32
    } else {
        u as i32
    }
}

impl PropertyValue {
    /// Decodes one application-tagged value, or reports `None` for the inputs
    /// the decoder does not accept (see `spec_decode_pv`).
    pub fn decode_checked(data: &[u8]) -> (r: Option<Result<(PropertyValue, usize), DecodeError>>)
        ensures
            match r {
                Some(x) => spec_decode_pv(data@) == Some(pv_result_view(x)),
                None => spec_decode_pv(data@) is None,
            },
    {
        reveal(spec_decode_pv);
        if data.len() == 0 {
            return Some(Err(DecodeError::IncompleteData));
        }
        let tag = data[0];
        let tag_number = (tag >> 4) & 0x0F;
        if (tag & 0x08) != 0 {
            return Some(Err(DecodeError::InvalidContextTag));
        }
        assert((tag >> 4u8) & 0x0F == tag >> 4u8) by (bit_vector);
        if tag_number == 0 {
            Some(Ok((PropertyValue::Null, 1)))
        } else if tag_number == 1 {
            if data.len() < 2 {
                return Some(Err(DecodeError::IncompleteData));
            }
            Some(Ok((PropertyValue::Boolean(data[1] != 0), 2)))
        } else if tag_number == 2 || tag_number == 9 {
            match primitive_content_exec(data) {
                Err(e) => Some(Err(e)),
                Ok((off, len)) => {
                    let u = crate::codec::wire::read_be_u32(data, off, len);
                    if tag_number == 2 {
                        Some(Ok((PropertyValue::Unsigned(u), off + len)))
                    } else {
                        Some(Ok((PropertyValue::Enumerated(u), off + len)))
                    }
                },
            }
        } else if tag_number == 3 {
            match primitive_content_exec(data) {
                Err(e) => Some(Err(e)),
                Ok((off, len)) => {
                    if len == 0 {
                        return None;
                    }
                    let u = crate::codec::wire::read_be_u32(data, off, len);
                    proof {
                        if len <= 3 {
                            crate::codec::wire::lemma_be_value_small(data@.subrange(off as int, off + len));
                            crate::codec::wire::lemma_be_value_bound(data@.subrange(off as int, off + len));
                        }
                    }
                    Some(Ok((PropertyValue::Signed(sign_extend_exec(u, len)), off + len)))
                },
            }
        } else if tag_number == 4 {
            if data.len() < 5 {
                return Some(Err(DecodeError::IncompleteData));
            }
            Some(Ok((PropertyValue::Real(crate::codec::wire::read_be_u32(data, 1, 4)), 5)))
        } else if tag_number == 5 {
            match primitive_content_exec(data) {
                Err(e) => Some(Err(e)),
                Ok((off, len)) => {
                    if len != 8 {
                        return Some(Err(DecodeError::InvalidData));
                    }
                    Some(
                        Ok(
                            (
                                PropertyValue::Double(crate::codec::wire::read_be_u64(data, off)),
                                off + 8,
                            ),
                        ),
                    )
                },
            }
        } else if tag_number == 6 {
            match primitive_content_exec(data) {
                Err(e) => Some(Err(e)),
                Ok((off, len)) => {
                    let bytes = crate::codec::wire::copy_range(data, off, off + len);
                    Some(Ok((PropertyValue::OctetString(bytes), off + len)))
                },
            }
        } else if tag_number == 7 {
            match primitive_content_exec(data) {
                Err(e) => Some(Err(e)),
                Ok((off, total_len)) => {
                    if data.len() <= off {
                        return Some(Err(DecodeError::IncompleteData));
                    }
                    let value_len = total_len.saturating_sub(1);
                    let encoding = CharacterEncoding::from_u8(data[off]);
                    let value = if value_len > 0 {
                        string_from_utf8_lossy(&data[off + 1..off + total_len])
                    } else {
                        String::new()
                    };
                    Some(
                        Ok(
                            (
                                PropertyValue::CharacterString(CharacterString { encoding, value }),
                                off + total_len,
                            ),
                        ),
                    )
                },
            }
        } else if tag_number == 8 {
            match primitive_content_exec(data) {
                Err(e) => Some(Err(e)),
                Ok((off, total_len)) => {
                    if total_len == 0 {
                        return None;
                    }
                    let used_bits = data[off];
                    let bits = crate::codec::wire::copy_range(data, off + 1, off + total_len);
                    Some(
                        Ok(
                            (
                                PropertyValue::BitString(BitString::new(used_bits, bits)),
                                off + total_len,
                            ),
                        ),
                    )
                },
            }
        } else if tag_number == 10 {
            Some(decode_date(data))
        } else if tag_number == 11 {
            Some(decode_time(data))
        } else if tag_number == 12 {
            if data.len() < 5 {
                return Some(Err(DecodeError::IncompleteData));
            }
            let value = crate::codec::wire::read_be_u32(data, 1, 4);
            Some(Ok((PropertyValue::ObjectIdentifier(ObjectIdentifier::from_u32(value)), 5)))
        } else {
            Some(Err(DecodeError::UnsupportedApplicationTag))
        }
    }

    /// Decodes one application-tagged value from the front of `data`,
    /// returning it with the number of octets it took.
    pub fn decode(data: &[u8]) -> (r: Result<(PropertyValue, usize), DecodeError>)
        requires
            spec_decode_pv(data@) is Some,
        ensures
            spec_decode_pv(data@) == Some(pv_result_view(r)),
    {
        match PropertyValue::decode_checked(data) {
            Some(r) => r,
            None => Err(DecodeError::InvalidData),
        }
    }
}


/// A value that decodes took at least one octet and no more than were there.
pub proof fn lemma_decode_pv_consumed(data: Seq<u8>)
    ensures
        spec_decode_pv(data) matches Some(Ok((_, n))) ==> 1 <= n <= data.len(),
{
    reveal(spec_decode_pv);
}

/// Values that decode back to themselves from their own encoding.  The
/// exceptions are what the encoding loses: signed values 128 to 255 and
/// 32768 to 65535 (written in one or two octets without room for the sign),
/// the empty octet string (a lone tag octet is too short for the decoder),
/// contents too long for the length field, dates before 1900 or after 2155
/// (the year octet), dates and times with out-of-range fields, identifiers
/// that do not fit their 10 + 22 bit fields, and the `Array` and `Any`
/// forms, which the value decoder does not read.
pub open spec fn pv_roundtrips(v: PropertyValueView) -> bool {
    match v {
        PropertyValueView::Signed(i) => !(0x80 <= i <= 0xFF) && !(0x8000 <= i <= 0xFFFF),
        PropertyValueView::OctetString(b) => 1 <= b.len() <= 0xFFFF_FFFF,
        PropertyValueView::CharacterString(_, s) => encode_utf8(s).len() + 1 <= 0xFFFF_FFFF,
        PropertyValueView::BitString(_, b) => b.len() + 1 <= 0xFFFF_FFFF,
        PropertyValueView::Date(d) => 1900 <= d.year <= 2155 && 1 <= d.month <= 12 && 1 <= d.day
            <= 31,
        PropertyValueView::Time(t) => t.hour <= 23 && t.minute <= 59 && t.second <= 59
            && t.hundredths <= 99,
        PropertyValueView::ObjectIdentifier(o) => is_canonical_object_type(o.object_type)
            && object_type_code(o.object_type) < 1024 && o.instance < 0x40_0000,
        PropertyValueView::Array(_) => false,
        PropertyValueView::Any(_) => false,
        _ => true,
    }
}

proof fn lemma_tag_fields(base: u8, n: u8)
    requires
        base % 16 == 0,
        n <= 5,
    ensures
        (base + n) as u8 & 0x08 == 0,
        (base + n) as u8 >> 4u8 == base / 16,
        (base + n) as u8 & 0x07 == n,
{
    assert(((base + n) as u8 & 0x08 == 0) && ((base + n) as u8 >> 4u8 == base / 16) && ((base
        + n) as u8 & 0x07 == n)) by (bit_vector)
        requires
            base % 16 == 0,
            n <= 5,
    ;
}


/// A tag octet with its length octets, followed by at least the content,
/// reads back as that length, with the content after the header.
proof fn lemma_tag_and_length(base: u8, len: nat, rest: Seq<u8>)
    requires
        base == 0x60 || base == 0x70 || base == 0x80,
        1 <= len <= 0xFFFF_FFFF,
        rest.len() == len,
    ensures
        primitive_content(tag_and_length(base, len) + rest) == Ok::<(int, int), DecodeError>(
            (tag_and_length(base, len).len() as int, len as int),
        ),
        (tag_and_length(base, len) + rest)[0] & 0x08 == 0,
        (tag_and_length(base, len) + rest)[0] >> 4u8 == base / 16,
{
    let h = tag_and_length(base, len);
    let d = h + rest;
    if len < 5 {
        lemma_tag_fields(base, len as u8);
    } else {
        lemma_tag_fields(base, 5);
        if len <= 253 {
        } else if len <= 0xFFFF {
            crate::codec::wire::lemma_be_bytes_value(len as u32, 2);
            assert(d.subrange(2, 4) =~= be_bytes(len as u32, 2));
        } else {
            crate::codec::wire::lemma_be_bytes_value(len as u32, 4);
            assert(d.subrange(2, 6) =~= be_bytes(len as u32, 4));
        }
    }
}

proof fn lemma_signed_roundtrip(i: i32)
    requires
        !(0x80 <= i <= 0xFF),
        !(0x8000 <= i <= 0xFFFF),
    ensures
        spec_decode_pv(pv_encoding(PropertyValueView::Signed(i))) == Some(
            Ok::<(PropertyValueView, int), DecodeError>(
                (PropertyValueView::Signed(i), pv_encoding(PropertyValueView::Signed(i)).len() as int),
            ),
        ),
{
    reveal(spec_decode_pv);
    let v = PropertyValueView::Signed(i);
    let e = pv_encoding(v);
    let n = signed_width(i);
    let u = i as u32;
    lemma_tag_fields(0x30, n as u8);
    assert(e.subrange(1, 1 + n as int) =~= be_bytes(u, n));
    let b = be_bytes(u, n);
    crate::codec::wire::lemma_be_value_small(b);
    assert(primitive_content(e) == Ok::<(int, int), DecodeError>((1, n as int)));
    let w = be_u32(b);
    if n == 1 {
        assert(0 <= i <= 0x7F ==> ((i as u32) as u8) as nat == (i as u32) as nat && (i as u32) <= 0x7F && (i as u32) as i32 == i)
            by (bit_vector);
        assert(w == u);
    } else if n == 2 {
        assert(0x100 <= i <= 0x7FFF ==> (((i as u32) >> 8u32) as u8) as nat * 256 + ((i
            as u32) as u8) as nat == (i as u32) as nat && (i as u32) as i32 == i && (i as u32) <= 0x7FFF) by (bit_vector);
        assert(w == u);
    } else if n == 3 {
        assert(-0x80_0000 <= i <= 0x7F_FFFF ==> (((((i as u32) >> 16u32) as u8) as nat
            * 256 + (((i as u32) >> 8u32) as u8) as nat) * 256 + ((i as u32) as u8) as nat
            == (i as u32) as nat % 0x100_0000)) by (bit_vector);
        assert(-0x80_0000 <= i < 0 ==> ((i as u32) as nat % 0x100_0000 >= 0x80_0000 && (((
        i as u32) as nat % 0x100_0000) as int - 0x100_0000) as i32 == i)) by (bit_vector);
        assert(0 <= i <= 0x7F_FFFF ==> (i as u32) as nat % 0x100_0000 == (i as u32) as nat && (i as u32) as i32 == i && (i as u32) < 0x80_0000) by (bit_vector);
        assert(w as nat == (i as u32) as nat % 0x100_0000);
    } else {
        assert(((((((i as u32) >> 24u32) as u8) as nat * 256 + (((i as u32) >> 16u32) as u8)
            as nat) * 256 + (((i as u32) >> 8u32) as u8) as nat) * 256 + ((i as u32) as u8)
            as nat) == (i as u32) as nat) by (bit_vector);
        assert(((i as u32) as i32) == i) by (bit_vector);
        assert(w == u);
    }
    assert(sign_extend(w, n as int) == i);
    assert(spec_decode_pv(e) == Some(Ok::<(PropertyValueView, int), DecodeError>((PropertyValueView::Signed(sign_extend(w, n as int)), e.len() as int))));
    assert(PropertyValueView::Signed(sign_extend(w, n as int)) == v);
}

/// Decoding the encoding of a value gives the value back, having consumed the
/// whole encoding, for every value the encoding represents faithfully.
#[verifier::rlimit(40)]
pub proof fn lemma_pv_roundtrip(v: PropertyValueView)
    requires
        pv_roundtrips(v),
    ensures
        spec_decode_pv(pv_encoding(v)) == Some(
            Ok::<(PropertyValueView, int), DecodeError>((v, pv_encoding(v).len() as int)),
        ),
{
    reveal(spec_decode_pv);
    let e = pv_encoding(v);
    match v {
        PropertyValueView::Null => {
            lemma_tag_fields(0x00, 0);
            assert(spec_decode_pv(e) == Some(Ok::<(PropertyValueView, int), DecodeError>((v, e.len() as int))));
        },
        PropertyValueView::Boolean(b) => {
            lemma_tag_fields(0x10, 1);
            assert(spec_decode_pv(e) == Some(Ok::<(PropertyValueView, int), DecodeError>((v, e.len() as int))));
        },
        PropertyValueView::Unsigned(u) => {
            let n = min_width(u);
            crate::codec::wire::lemma_min_width(u);
            crate::codec::wire::lemma_be_bytes_value(u, n);
            lemma_tag_fields(0x20, n as u8);
            assert(e.subrange(1, 1 + n as int) =~= be_bytes(u, n));
            assert(spec_decode_pv(e) == Some(Ok::<(PropertyValueView, int), DecodeError>((v, e.len() as int))));
        },
        PropertyValueView::Enumerated(u) => {
            let n = min_width(u);
            crate::codec::wire::lemma_min_width(u);
            crate::codec::wire::lemma_be_bytes_value(u, n);
            lemma_tag_fields(0x90, n as u8);
            assert(e.subrange(1, 1 + n as int) =~= be_bytes(u, n));
            assert(spec_decode_pv(e) == Some(Ok::<(PropertyValueView, int), DecodeError>((v, e.len() as int))));
        },
        PropertyValueView::Signed(i) => {
            lemma_signed_roundtrip(i);
            assert(spec_decode_pv(e) == Some(Ok::<(PropertyValueView, int), DecodeError>((v, e.len() as int))));
        },
        PropertyValueView::Real(b) => {
            crate::codec::wire::lemma_be_bytes_value(b, 4);
            assert(e.subrange(1, 5) =~= be_bytes(b, 4));
            lemma_tag_fields(0x40, 4);
            assert(spec_decode_pv(e) == Some(Ok::<(PropertyValueView, int), DecodeError>((v, e.len() as int))));
        },
        PropertyValueView::Double(b) => {
            crate::codec::wire::lemma_be64_bytes_value(b);
            assert(e.subrange(2, 10) =~= crate::codec::wire::be64_bytes(b));
            lemma_tag_fields(0x50, 5);
            assert(primitive_content(e) == Ok::<(int, int), DecodeError>((2, 8)));
            assert(spec_decode_pv(e) == Some(Ok::<(PropertyValueView, int), DecodeError>((v, e.len() as int))));
        },
        PropertyValueView::OctetString(b) => {
            let h = tag_and_length(0x60, b.len());
            lemma_tag_and_length(0x60, b.len(), b);
            assert(e =~= h + b);
            assert(e.subrange(h.len() as int, (h.len() + b.len()) as int) =~= b);
            assert(spec_decode_pv(e) == Some(Ok::<(PropertyValueView, int), DecodeError>((v, e.len() as int))));
        },
        PropertyValueView::CharacterString(enc, s) => {
            let bytes = encode_utf8(s);
            let h = tag_and_length(0x70, bytes.len() + 1);
            let c = seq![character_encoding_code(enc)] + bytes;
            lemma_tag_and_length(0x70, bytes.len() + 1, c);
            assert(e =~= h + c);
            lemma_character_encoding_roundtrip(enc, 0);
            vstd::utf8::encode_utf8_valid_utf8(s);
            vstd::utf8::encode_utf8_decode_utf8(s);
            assert(e[h.len() as int] == character_encoding_code(enc));
            assert(e.subrange((h.len() + 1) as int, (h.len() + 1 + bytes.len()) as int) =~= bytes);
            if bytes.len() == 0 {
                assert(s.len() == 0) by {
                    if s.len() > 0 {
                        vstd::utf8::encode_utf8_first_scalar(s);
                    }
                }
                assert(s =~= Seq::<char>::empty());
            }
            assert(spec_decode_pv(e) == Some(Ok::<(PropertyValueView, int), DecodeError>((v, e.len() as int))));
        },
        PropertyValueView::BitString(u, b) => {
            let h = tag_and_length(0x80, b.len() + 1);
            let c = seq![u] + b;
            lemma_tag_and_length(0x80, b.len() + 1, c);
            assert(e =~= h + c);
            assert(e[h.len() as int] == u);
            assert(e.subrange((h.len() + 1) as int, (h.len() + 1 + b.len()) as int) =~= b);
            assert(spec_decode_pv(e) == Some(Ok::<(PropertyValueView, int), DecodeError>((v, e.len() as int))));
        },
        PropertyValueView::Date(d) => {
            lemma_tag_fields(0xA0, 4);
            assert(e[1] as int + 1900 == d.year);
            match d.weekday {
                Some(w) => {
                    lemma_weekday_code_injective(w, w);
                },
                None => {},
            }
            assert(spec_decode_pv(e) == Some(Ok::<(PropertyValueView, int), DecodeError>((v, e.len() as int))));
        },
        PropertyValueView::Time(t) => {
            lemma_tag_fields(0xB0, 4);
            assert(spec_decode_pv(e) == Some(Ok::<(PropertyValueView, int), DecodeError>((v, e.len() as int))));
        },
        PropertyValueView::ObjectIdentifier(o) => {
            crate::codec::wire::lemma_be_bytes_value(object_id_value(o), 4);
            assert(e.subrange(1, 5) =~= be_bytes(object_id_value(o), 4));
            lemma_object_id_roundtrip(o, 0);
            lemma_tag_fields(0xC0, 4);
            assert(spec_decode_pv(e) == Some(Ok::<(PropertyValueView, int), DecodeError>((v, e.len() as int))));
        },
        PropertyValueView::Array(_) => {},
        PropertyValueView::Any(_) => {},
    }
}

/// A primitive header read from data that holds the whole content reads the
/// same whatever follows.
proof fn lemma_primitive_content_extend(e: Seq<u8>, rest: Seq<u8>)
    requires
        primitive_content(e) matches Ok((off, len)) && off + len <= e.len(),
    ensures
        primitive_content(e + rest) == primitive_content(e),
{
    let d = e + rest;
    assert(d.subrange(2, 4) =~= e.subrange(2, 4) || e.len() < 4);
    if e.len() >= 4 {
        assert(d.subrange(2, 4) =~= e.subrange(2, 4));
    }
    if e.len() >= 6 {
        assert(d.subrange(2, 6) =~= e.subrange(2, 6));
    }
}

/// Decoding is local: a value read from `e` using all of `e` reads the same
/// when more octets follow.
pub proof fn lemma_decode_pv_extend(e: Seq<u8>, rest: Seq<u8>)
    requires
        spec_decode_pv(e) matches Some(Ok((_, n))) && n == e.len(),
    ensures
        spec_decode_pv(e + rest) == spec_decode_pv(e),
{
    reveal(spec_decode_pv);
    let d = e + rest;
    assert forall|a: int, b: int| 0 <= a <= b <= e.len() implies #[trigger] d.subrange(a, b) == e.subrange(
        a,
        b,
    ) by {
        assert(d.subrange(a, b) =~= e.subrange(a, b));
    }
    let t = e[0] >> 4u8;
    if e[0] & 0x08 == 0 && (t == 2 || t == 3 || t == 5 || t == 6 || t == 7 || t == 9 || t == 8) {
        lemma_primitive_content_extend(e, rest);
    }
}

/// The encoding of a value followed by others is its own encoding followed
/// by theirs.
pub proof fn lemma_pv_encoding_seq_cons(v: PropertyValueView, ws: Seq<PropertyValueView>)
    ensures
        pv_encoding_seq(seq![v] + ws) == pv_encoding(v) + pv_encoding_seq(ws),
    decreases ws.len(),
{
    let s = seq![v] + ws;
    if ws.len() == 0 {
        assert(s.subrange(0, 0) =~= Seq::<PropertyValueView>::empty());
        assert(s.len() == 1 && s[0] == v);
        assert(pv_encoding_seq(s.subrange(0, 0)) == Seq::<u8>::empty());
        assert(pv_encoding_seq(ws) == Seq::<u8>::empty());
        assert(pv_encoding_seq(s) == pv_encoding_seq(s.subrange(0, 0)) + pv_encoding(v));
        assert(pv_encoding(v) + pv_encoding_seq(ws) =~= pv_encoding(v));
        assert(Seq::<u8>::empty() + pv_encoding(v) =~= pv_encoding(v));
    } else {
        let p = ws.subrange(0, ws.len() - 1);
        lemma_pv_encoding_seq_cons(v, p);
        assert(s.subrange(0, s.len() - 1) =~= seq![v] + p);
        assert(s[s.len() - 1] == ws[ws.len() - 1]);
        assert(pv_encoding_seq(s) =~= pv_encoding(v) + pv_encoding_seq(p) + pv_encoding(ws[ws.len() - 1]));
        assert(pv_encoding_seq(ws) == pv_encoding_seq(p) + pv_encoding(ws[ws.len() - 1]));
        assert(pv_encoding_seq(s) =~= pv_encoding(v) + pv_encoding_seq(ws));
    }
}

/// A faithfully encoded value decodes from the front of any octets that
/// start with its encoding, taking exactly its encoding.
pub proof fn lemma_pv_decodes_from_front(v: PropertyValueView, rest: Seq<u8>)
    requires
        pv_roundtrips(v),
    ensures
        spec_decode_pv(pv_encoding(v) + rest) == Some(
            Ok::<(PropertyValueView, int), DecodeError>((v, pv_encoding(v).len() as int)),
        ),
        pv_encoding(v).len() >= 1,
        pv_encoding(v)[0] & 0x08 == 0,
{
    lemma_pv_roundtrip(v);
    lemma_decode_pv_extend(pv_encoding(v), rest);
    reveal(spec_decode_pv);
}

/// Booleans on the wire: `true` is written `0x11 0x01` and `false`
/// `0x11 0x00`; a Boolean tag followed by any octet `x` reads as `x != 0`,
/// taking two octets.
pub proof fn lemma_boolean_wire(x: u8, rest: Seq<u8>)
    ensures
        pv_encoding(PropertyValueView::Boolean(true)) == seq![0x11u8, 0x01u8],
        pv_encoding(PropertyValueView::Boolean(false)) == seq![0x11u8, 0x00u8],
        spec_decode_pv(seq![0x11u8, x] + rest) == Some(
            Ok::<(PropertyValueView, int), DecodeError>((PropertyValueView::Boolean(x != 0), 2)),
        ),
{
    reveal(spec_decode_pv);
    let d = seq![0x11u8, x] + rest;
    assert(d[0] == 0x11u8 && d[1] == x);
    assert(0x11u8 & 0x08 == 0 && 0x11u8 >> 4u8 == 1) by (bit_vector);
}

/// The weekday octet of a date on the wire: Monday 0 through Sunday 6,
/// Monday-to-Friday 7, and `0xFF` for none.
pub open spec fn weekday_wire(w: Option<Weekday>) -> u8 {
    match w {
        Some(Weekday::Monday) => 0,
        Some(Weekday::Tuesday) => 1,
        Some(Weekday::Wednesday) => 2,
        Some(Weekday::Thursday) => 3,
        Some(Weekday::Friday) => 4,
        Some(Weekday::Saturday) => 5,
        Some(Weekday::Sunday) => 6,
        Some(Weekday::MondayToFriday) => 7,
        None => 0xFF,
    }
}

/// Dates and times on the wire.  A date is `0xA4`, the years since 1900,
/// month, day and weekday octet; a time is `0xB4`, hour, minute, second and
/// hundredths.  Reading them back: a date octet sequence with a valid month
/// and day gives that date (any weekday octet above 7 meaning none), a time
/// with fields in range gives that time, each taking five octets.
pub proof fn lemma_date_time_wire(d: Date, t: Time, b: Seq<u8>)
    ensures
        1900 <= d.year <= 2155 ==> pv_encoding(PropertyValueView::Date(d)) == seq![
            0xA4u8,
            (d.year - 1900) as u8,
            d.month,
            d.day,
            weekday_wire(d.weekday),
        ],
        pv_encoding(PropertyValueView::Time(t)) == seq![0xB4u8, t.hour, t.minute, t.second, t.hundredths],
        b.len() >= 5 && b[0] == 0xA4u8 && 1 <= b[2] <= 12 && 1 <= b[3] <= 31 ==> (spec_decode_pv(b) matches Some(
            Ok((PropertyValueView::Date(dd), n)),
        ) && n == 5 && dd.year == b[1] + 1900 && dd.month == b[2] && dd.day == b[3] && (weekday_wire(dd.weekday)
            == b[4] || (b[4] > 7 && dd.weekday is None))),
        b.len() >= 5 && b[0] == 0xB4u8 && b[1] <= 23 && b[2] <= 59 && b[3] <= 59 && b[4] <= 99
            ==> spec_decode_pv(b) == Some(
            Ok::<(PropertyValueView, int), DecodeError>(
                (
                    PropertyValueView::Time(
                        Time { hour: b[1], minute: b[2], second: b[3], hundredths: b[4] },
                    ),
                    5,
                ),
            ),
        ),
{
    reveal(spec_decode_pv);
    lemma_tag_fields(0xA0, 4);
    lemma_tag_fields(0xB0, 4);
    if b.len() >= 5 && b[0] == 0xA4u8 && 1 <= b[2] <= 12 && 1 <= b[3] <= 31 {
        let w = weekday_of(b[4]);
        assert(weekday_wire(w) == b[4] || (b[4] > 7 && w is None));
    }
}

} // verus!
