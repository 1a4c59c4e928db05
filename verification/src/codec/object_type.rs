//! The object type table and object identifiers.
use vstd::prelude::*;

use crate::text::{decimal, decimal_string, join};

verus! {

/// BACnet object types.  Codes without a named variant are kept as
/// `Unknown(code)`.
#[derive(Debug, Clone, Copy, PartialEq, Eq, Structural)]
pub enum ObjectType {
    AnalogInput,
    AnalogOutput,
    AnalogValue,
    BinaryInput,
    BinaryOutput,
    BinaryValue,
    Calendar,
    Command,
    Device,
    EventEnrollment,
    File,
    Group,
    Loop,
    MultiStateInput,
    MultiStateOutput,
    MultiStateValue,
    NotificationClass,
    Program,
    Schedule,
    Averaging,
    CharacterStringValue,
    DateTimeValue,
    IntegerValue,
    LargeAnalogValue,
    MultiStateValue2,
    PositiveIntegerValue,
    TimeValue,
    AccessPoint,
    AccessZone,
    AccessZone2,
    AckedSummarization,
    Action,
    AlarmSummary,
    AlarmSummary2,
    Annotation,
    Attachment,
    AuthParam,
    AuthPolicy,
    Cred,
    CredentialDataInput,
    Door,
    NetworkSecurity,
    NetworkPort,
    ProtocolObject,
    ProtocolServices,
    ProtocolTransaction,
    StructuredRel,
    SecurityKey,
    SecurityKeyset,
    SecurityLevel,
    Service,
    TimePatternValue,
    TimeSeries,
    Unknown(u16),
}

/// The wire code of each object type.
pub open spec fn object_type_code(t: ObjectType) -> u16 {
    match t {
        ObjectType::AnalogInput => 0,
        ObjectType::AnalogOutput => 1,
        ObjectType::AnalogValue => 2,
        ObjectType::BinaryInput => 3,
        ObjectType::BinaryOutput => 4,
        ObjectType::BinaryValue => 5,
        ObjectType::Calendar => 6,
        ObjectType::Command => 7,
        ObjectType::Device => 8,
        ObjectType::EventEnrollment => 9,
        ObjectType::File => 10,
        ObjectType::Group => 11,
        ObjectType::Loop => 12,
        ObjectType::MultiStateInput => 13,
        ObjectType::MultiStateOutput => 14,
        ObjectType::MultiStateValue => 15,
        ObjectType::NotificationClass => 16,
        ObjectType::Program => 17,
        ObjectType::Schedule => 18,
        ObjectType::Averaging => 19,
        ObjectType::CharacterStringValue => 40,
        ObjectType::DateTimeValue => 41,
        ObjectType::IntegerValue => 42,
        ObjectType::LargeAnalogValue => 43,
        ObjectType::MultiStateValue2 => 44,
        ObjectType::PositiveIntegerValue => 45,
        ObjectType::TimeValue => 46,
        ObjectType::AccessPoint => 1001,
        ObjectType::AccessZone => 1002,
        ObjectType::AccessZone2 => 1003,
        ObjectType::AckedSummarization => 1004,
        ObjectType::Action => 1005,
        ObjectType::AlarmSummary => 1006,
        ObjectType::AlarmSummary2 => 1007,
        ObjectType::Annotation => 1008,
        ObjectType::Attachment => 1009,
        ObjectType::AuthParam => 1010,
        ObjectType::AuthPolicy => 1011,
        ObjectType::Cred => 1012,
        ObjectType::CredentialDataInput => 1013,
        ObjectType::Door => 1014,
        ObjectType::NetworkSecurity => 1015,
        ObjectType::NetworkPort => 1016,
        ObjectType::ProtocolObject => 1017,
        ObjectType::ProtocolServices => 1018,
        ObjectType::ProtocolTransaction => 1019,
        ObjectType::StructuredRel => 1020,
        ObjectType::SecurityKey => 1021,
        ObjectType::SecurityKeyset => 1022,
        ObjectType::SecurityLevel => 1023,
        ObjectType::Service => 1024,
        ObjectType::TimePatternValue => 1025,
        ObjectType::TimeSeries => 1026,
        ObjectType::Unknown(v) => v,
    }
}

/// Codes that have a named variant.
pub open spec fn is_known_object_type_code(v: u16) -> bool {
    v <= 19 || (40 <= v && v <= 46) || (1001 <= v && v <= 1026)
}

/// The lower-case hyphenated name of each object type.
pub open spec fn object_type_name(t: ObjectType) -> Seq<char> {
    match t {
        ObjectType::AnalogInput => "analog-input"@,
        ObjectType::AnalogOutput => "analog-output"@,
        ObjectType::AnalogValue => "analog-value"@,
        ObjectType::BinaryInput => "binary-input"@,
        ObjectType::BinaryOutput => "binary-output"@,
        ObjectType::BinaryValue => "binary-value"@,
        ObjectType::Calendar => "calendar"@,
        ObjectType::Command => "command"@,
        ObjectType::Device => "device"@,
        ObjectType::EventEnrollment => "event-enrollment"@,
        ObjectType::File => "file"@,
        ObjectType::Group => "group"@,
        ObjectType::Loop => "loop"@,
        ObjectType::MultiStateInput => "multi-state-input"@,
        ObjectType::MultiStateOutput => "multi-state-output"@,
        ObjectType::MultiStateValue => "multi-state-value"@,
        ObjectType::NotificationClass => "notification-class"@,
        ObjectType::Program => "program"@,
        ObjectType::Schedule => "schedule"@,
        ObjectType::Averaging => "averaging"@,
        ObjectType::CharacterStringValue => "character-string-value"@,
        ObjectType::DateTimeValue => "date-time-value"@,
        ObjectType::IntegerValue => "integer-value"@,
        ObjectType::LargeAnalogValue => "large-analog-value"@,
        ObjectType::MultiStateValue2 => "multi-state-value2"@,
        ObjectType::PositiveIntegerValue => "positive-integer-value"@,
        ObjectType::TimeValue => "time-value"@,
        ObjectType::AccessPoint => "access-point"@,
        ObjectType::AccessZone => "access-zone"@,
        ObjectType::AccessZone2 => "access-zone2"@,
        ObjectType::AckedSummarization => "acked-summarization"@,
        ObjectType::Action => "action"@,
        ObjectType::AlarmSummary => "alarm-summary"@,
        ObjectType::AlarmSummary2 => "alarm-summary2"@,
        ObjectType::Annotation => "annotation"@,
        ObjectType::Attachment => "attachment"@,
        ObjectType::AuthParam => "auth-param"@,
        ObjectType::AuthPolicy => "auth-policy"@,
        ObjectType::Cred => "cred"@,
        ObjectType::CredentialDataInput => "credential-data-input"@,
        ObjectType::Door => "door"@,
        ObjectType::NetworkSecurity => "network-security"@,
        ObjectType::NetworkPort => "network-port"@,
        ObjectType::ProtocolObject => "protocol-object"@,
        ObjectType::ProtocolServices => "protocol-services"@,
        ObjectType::ProtocolTransaction => "protocol-transaction"@,
        ObjectType::StructuredRel => "structured-rel"@,
        ObjectType::SecurityKey => "security-key"@,
        ObjectType::SecurityKeyset => "security-keyset"@,
        ObjectType::SecurityLevel => "security-level"@,
        ObjectType::Service => "service"@,
        ObjectType::TimePatternValue => "time-pattern-value"@,
        ObjectType::TimeSeries => "time-series"@,
        ObjectType::Unknown(v) => "unknown("@ + decimal(v as nat) + ")"@,
    }
}

impl ObjectType {
    /// Maps a wire code to its object type; codes without a name become
    /// `Unknown(code)`.
    pub fn from_u16(value: u16) -> (r: ObjectType)
        ensures
            object_type_code(r) == value,
            r is Unknown <==> !is_known_object_type_code(value),
    {
        match value {
            0 => ObjectType::AnalogInput,
            1 => ObjectType::AnalogOutput,
            2 => ObjectType::AnalogValue,
            3 => ObjectType::BinaryInput,
            4 => ObjectType::BinaryOutput,
            5 => ObjectType::BinaryValue,
            6 => ObjectType::Calendar,
            7 => ObjectType::Command,
            8 => ObjectType::Device,
            9 => ObjectType::EventEnrollment,
            10 => ObjectType::File,
            11 => ObjectType::Group,
            12 => ObjectType::Loop,
            13 => ObjectType::MultiStateInput,
            14 => ObjectType::MultiStateOutput,
            15 => ObjectType::MultiStateValue,
            16 => ObjectType::NotificationClass,
            17 => ObjectType::Program,
            18 => ObjectType::Schedule,
            19 => ObjectType::Averaging,
            40 => ObjectType::CharacterStringValue,
            41 => ObjectType::DateTimeValue,
            42 => ObjectType::IntegerValue,
            43 => ObjectType::LargeAnalogValue,
            44 => ObjectType::MultiStateValue2,
            45 => ObjectType::PositiveIntegerValue,
            46 => ObjectType::TimeValue,
            1001 => ObjectType::AccessPoint,
            1002 => ObjectType::AccessZone,
            1003 => ObjectType::AccessZone2,
            1004 => ObjectType::AckedSummarization,
            1005 => ObjectType::Action,
            1006 => ObjectType::AlarmSummary,
            1007 => ObjectType::AlarmSummary2,
            1008 => ObjectType::Annotation,
            1009 => ObjectType::Attachment,
            1010 => ObjectType::AuthParam,
            1011 => ObjectType::AuthPolicy,
            1012 => ObjectType::Cred,
            1013 => ObjectType::CredentialDataInput,
            1014 => ObjectType::Door,
            1015 => ObjectType::NetworkSecurity,
            1016 => ObjectType::NetworkPort,
            1017 => ObjectType::ProtocolObject,
            1018 => ObjectType::ProtocolServices,
            1019 => ObjectType::ProtocolTransaction,
            1020 => ObjectType::StructuredRel,
            1021 => ObjectType::SecurityKey,
            1022 => ObjectType::SecurityKeyset,
            1023 => ObjectType::SecurityLevel,
            1024 => ObjectType::Service,
            1025 => ObjectType::TimePatternValue,
            1026 => ObjectType::TimeSeries,
            _ => ObjectType::Unknown(value),
        }
    }

    /// The wire code of this object type.
    pub fn to_u16(&self) -> (r: u16)
        ensures
            r == object_type_code(*self),
    {
        match self {
            ObjectType::AnalogInput => 0,
            ObjectType::AnalogOutput => 1,
            ObjectType::AnalogValue => 2,
            ObjectType::BinaryInput => 3,
            ObjectType::BinaryOutput => 4,
            ObjectType::BinaryValue => 5,
            ObjectType::Calendar => 6,
            ObjectType::Command => 7,
            ObjectType::Device => 8,
            ObjectType::EventEnrollment => 9,
            ObjectType::File => 10,
            ObjectType::Group => 11,
            ObjectType::Loop => 12,
            ObjectType::MultiStateInput => 13,
            ObjectType::MultiStateOutput => 14,
            ObjectType::MultiStateValue => 15,
            ObjectType::NotificationClass => 16,
            ObjectType::Program => 17,
            ObjectType::Schedule => 18,
            ObjectType::Averaging => 19,
            ObjectType::CharacterStringValue => 40,
            ObjectType::DateTimeValue => 41,
            ObjectType::IntegerValue => 42,
            ObjectType::LargeAnalogValue => 43,
            ObjectType::MultiStateValue2 => 44,
            ObjectType::PositiveIntegerValue => 45,
            ObjectType::TimeValue => 46,
            ObjectType::AccessPoint => 1001,
            ObjectType::AccessZone => 1002,
            ObjectType::AccessZone2 => 1003,
            ObjectType::AckedSummarization => 1004,
            ObjectType::Action => 1005,
            ObjectType::AlarmSummary => 1006,
            ObjectType::AlarmSummary2 => 1007,
            ObjectType::Annotation => 1008,
            ObjectType::Attachment => 1009,
            ObjectType::AuthParam => 1010,
            ObjectType::AuthPolicy => 1011,
            ObjectType::Cred => 1012,
            ObjectType::CredentialDataInput => 1013,
            ObjectType::Door => 1014,
            ObjectType::NetworkSecurity => 1015,
            ObjectType::NetworkPort => 1016,
            ObjectType::ProtocolObject => 1017,
            ObjectType::ProtocolServices => 1018,
            ObjectType::ProtocolTransaction => 1019,
            ObjectType::StructuredRel => 1020,
            ObjectType::SecurityKey => 1021,
            ObjectType::SecurityKeyset => 1022,
            ObjectType::SecurityLevel => 1023,
            ObjectType::Service => 1024,
            ObjectType::TimePatternValue => 1025,
            ObjectType::TimeSeries => 1026,
            ObjectType::Unknown(v) => *v,
        }
    }

    /// The lower-case hyphenated name of this object type (`unknown(<code>)`
    /// for codes without a name).
    pub fn to_string(&self) -> (s: String)
        ensures
            s@ == object_type_name(*self),
    {
        let name: &str = match self {
            ObjectType::AnalogInput => "analog-input",
            ObjectType::AnalogOutput => "analog-output",
            ObjectType::AnalogValue => "analog-value",
            ObjectType::BinaryInput => "binary-input",
            ObjectType::BinaryOutput => "binary-output",
            ObjectType::BinaryValue => "binary-value",
            ObjectType::Calendar => "calendar",
            ObjectType::Command => "command",
            ObjectType::Device => "device",
            ObjectType::EventEnrollment => "event-enrollment",
            ObjectType::File => "file",
            ObjectType::Group => "group",
            ObjectType::Loop => "loop",
            ObjectType::MultiStateInput => "multi-state-input",
            ObjectType::MultiStateOutput => "multi-state-output",
            ObjectType::MultiStateValue => "multi-state-value",
            ObjectType::NotificationClass => "notification-class",
            ObjectType::Program => "program",
            ObjectType::Schedule => "schedule",
            ObjectType::Averaging => "averaging",
            ObjectType::CharacterStringValue => "character-string-value",
            ObjectType::DateTimeValue => "date-time-value",
            ObjectType::IntegerValue => "integer-value",
            ObjectType::LargeAnalogValue => "large-analog-value",
            ObjectType::MultiStateValue2 => "multi-state-value2",
            ObjectType::PositiveIntegerValue => "positive-integer-value",
            ObjectType::TimeValue => "time-value",
            ObjectType::AccessPoint => "access-point",
            ObjectType::AccessZone => "access-zone",
            ObjectType::AccessZone2 => "access-zone2",
            ObjectType::AckedSummarization => "acked-summarization",
            ObjectType::Action => "action",
            ObjectType::AlarmSummary => "alarm-summary",
            ObjectType::AlarmSummary2 => "alarm-summary2",
            ObjectType::Annotation => "annotation",
            ObjectType::Attachment => "attachment",
            ObjectType::AuthParam => "auth-param",
            ObjectType::AuthPolicy => "auth-policy",
            ObjectType::Cred => "cred",
            ObjectType::CredentialDataInput => "credential-data-input",
            ObjectType::Door => "door",
            ObjectType::NetworkSecurity => "network-security",
            ObjectType::NetworkPort => "network-port",
            ObjectType::ProtocolObject => "protocol-object",
            ObjectType::ProtocolServices => "protocol-services",
            ObjectType::ProtocolTransaction => "protocol-transaction",
            ObjectType::StructuredRel => "structured-rel",
            ObjectType::SecurityKey => "security-key",
            ObjectType::SecurityKeyset => "security-keyset",
            ObjectType::SecurityLevel => "security-level",
            ObjectType::Service => "service",
            ObjectType::TimePatternValue => "time-pattern-value",
            ObjectType::TimeSeries => "time-series",
            ObjectType::Unknown(v) => {
                let digits = decimal_string(*v as u32);
                let head = join("unknown(", digits.as_str());
                return join(head.as_str(), ")");
            },
        };
        name.to_owned()
    }
}

/// An object type is canonical unless it is an `Unknown` carrying a code
/// that has a name (`from_u16` never produces such a value).
pub open spec fn is_canonical_object_type(t: ObjectType) -> bool {
    t is Unknown ==> !is_known_object_type_code(object_type_code(t))
}

/// Distinct canonical object types have distinct codes, so converting a
/// canonical object type to its code and back yields the same object type.
pub proof fn lemma_object_type_code_injective(a: ObjectType, b: ObjectType)
    requires
        is_canonical_object_type(a),
        is_canonical_object_type(b),
        object_type_code(a) == object_type_code(b),
    ensures
        a == b,
{
}

/// A named object type carrying each named code.
pub proof fn known_object_type(v: u16) -> (t: ObjectType)
    requires
        is_known_object_type_code(v),
    ensures
        object_type_code(t) == v,
        !(t is Unknown),
{
    if v == 0 {
        ObjectType::AnalogInput
    } else if v == 1 {
        ObjectType::AnalogOutput
    } else if v == 2 {
        ObjectType::AnalogValue
    } else if v == 3 {
        ObjectType::BinaryInput
    } else if v == 4 {
        ObjectType::BinaryOutput
    } else if v == 5 {
        ObjectType::BinaryValue
    } else if v == 6 {
        ObjectType::Calendar
    } else if v == 7 {
        ObjectType::Command
    } else if v == 8 {
        ObjectType::Device
    } else if v == 9 {
        ObjectType::EventEnrollment
    } else if v == 10 {
        ObjectType::File
    } else if v == 11 {
        ObjectType::Group
    } else if v == 12 {
        ObjectType::Loop
    } else if v == 13 {
        ObjectType::MultiStateInput
    } else if v == 14 {
        ObjectType::MultiStateOutput
    } else if v == 15 {
        ObjectType::MultiStateValue
    } else if v == 16 {
        ObjectType::NotificationClass
    } else if v == 17 {
        ObjectType::Program
    } else if v == 18 {
        ObjectType::Schedule
    } else if v == 19 {
        ObjectType::Averaging
    } else if v == 40 {
        ObjectType::CharacterStringValue
    } else if v == 41 {
        ObjectType::DateTimeValue
    } else if v == 42 {
        ObjectType::IntegerValue
    } else if v == 43 {
        ObjectType::LargeAnalogValue
    } else if v == 44 {
        ObjectType::MultiStateValue2
    } else if v == 45 {
        ObjectType::PositiveIntegerValue
    } else if v == 46 {
        ObjectType::TimeValue
    } else if v == 1001 {
        ObjectType::AccessPoint
    } else if v == 1002 {
        ObjectType::AccessZone
    } else if v == 1003 {
        ObjectType::AccessZone2
    } else if v == 1004 {
        ObjectType::AckedSummarization
    } else if v == 1005 {
        ObjectType::Action
    } else if v == 1006 {
        ObjectType::AlarmSummary
    } else if v == 1007 {
        ObjectType::AlarmSummary2
    } else if v == 1008 {
        ObjectType::Annotation
    } else if v == 1009 {
        ObjectType::Attachment
    } else if v == 1010 {
        ObjectType::AuthParam
    } else if v == 1011 {
        ObjectType::AuthPolicy
    } else if v == 1012 {
        ObjectType::Cred
    } else if v == 1013 {
        ObjectType::CredentialDataInput
    } else if v == 1014 {
        ObjectType::Door
    } else if v == 1015 {
        ObjectType::NetworkSecurity
    } else if v == 1016 {
        ObjectType::NetworkPort
    } else if v == 1017 {
        ObjectType::ProtocolObject
    } else if v == 1018 {
        ObjectType::ProtocolServices
    } else if v == 1019 {
        ObjectType::ProtocolTransaction
    } else if v == 1020 {
        ObjectType::StructuredRel
    } else if v == 1021 {
        ObjectType::SecurityKey
    } else if v == 1022 {
        ObjectType::SecurityKeyset
    } else if v == 1023 {
        ObjectType::SecurityLevel
    } else if v == 1024 {
        ObjectType::Service
    } else if v == 1025 {
        ObjectType::TimePatternValue
    } else if v == 1026 {
        ObjectType::TimeSeries
    } else {
        ObjectType::Unknown(v)
    }
}

} // verus!
