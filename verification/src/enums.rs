//! Standard BACnet property identifiers.
use vstd::prelude::*;

verus! {

/// A BACnet property identifier.  Identifiers without a named variant
/// (proprietary or newer ones) are kept as `Unknown(code)`.
#[derive(Debug, Clone, Copy, PartialEq, Eq, Hash, Structural)]
pub enum PropertyIdentifier {
    AckedTransitions,
    AckRequired,
    Action,
    ActionText,
    ActiveText,
    ActiveVtSessions,
    AlarmValue,
    AlarmValues,
    All,
    AllWritesSuccessful,
    ApduSegmentTimeout,
    ApduTimeout,
    ApplicationSoftwareVersion,
    Archive,
    Bias,
    ChangeOfStateCount,
    ChangeOfStateTime,
    NotificationClass,
    ControlledVariableReference,
    ControlledVariableUnits,
    ControlledVariableValue,
    CovIncrement,
    DateList,
    DaylightSavingsStatus,
    Deadband,
    DerivativeConstant,
    DerivativeConstantUnits,
    Description,
    DescriptionOfHalt,
    DeviceAddressBinding,
    DeviceType,
    EffectivePeriod,
    ElapsedActiveTime,
    ErrorLimit,
    EventEnable,
    EventState,
    EventType,
    ExceptionSchedule,
    FaultValues,
    FeedbackValue,
    FileAccessMethod,
    FileSize,
    FileType,
    FirmwareRevision,
    HighLimit,
    InactiveText,
    InProcess,
    InstanceOf,
    IntegralConstant,
    IntegralConstantUnits,
    LimitEnable,
    ListOfGroupMembers,
    ListOfObjectPropertyReferences,
    LocalDate,
    LocalTime,
    Location,
    LowLimit,
    ManipulatedVariableReference,
    MaximumOutput,
    MaxApduLengthAccepted,
    MaxInfoFrames,
    MaxMaster,
    MaxPresValue,
    MinimumOffTime,
    MinimumOnTime,
    MinimumOutput,
    MinPresValue,
    ModelName,
    ModificationDate,
    NotifyType,
    NumberOfApduRetries,
    NumberOfStates,
    ObjectIdentifier,
    ObjectList,
    ObjectName,
    ObjectPropertyReference,
    ObjectType,
    Optional,
    OutOfService,
    OutputUnits,
    EventParameters,
    Polarity,
    PresentValue,
    Priority,
    PriorityArray,
    PriorityForWriting,
    ProcessIdentifier,
    ProgramChange,
    ProgramLocation,
    ProgramState,
    ProportionalConstant,
    ProportionalConstantUnits,
    ProtocolObjectTypesSupported,
    ProtocolServicesSupported,
    ProtocolVersion,
    ReadOnly,
    ReasonForHalt,
    RecipientList,
    Reliability,
    RelinquishDefault,
    Required,
    Resolution,
    SegmentationSupported,
    Setpoint,
    SetpointReference,
    StateText,
    StatusFlags,
    SystemStatus,
    TimeDelay,
    TimeOfActiveTimeReset,
    TimeOfStateCountReset,
    TimeSynchronizationRecipients,
    Units,
    UpdateInterval,
    UtcOffset,
    VendorIdentifier,
    VendorName,
    VtClassesSupported,
    WeeklySchedule,
    AttemptedSamples,
    AverageValue,
    BufferSize,
    ClientCovIncrement,
    CovResubscriptionInterval,
    EventTimeStamps,
    LogBuffer,
    LogDeviceObjectProperty,
    Enable,
    LogInterval,
    MaximumValue,
    MinimumValue,
    NotificationThreshold,
    ProtocolRevision,
    RecordsSinceNotification,
    RecordCount,
    StartTime,
    StopTime,
    StopWhenFull,
    TotalRecordCount,
    ValidSamples,
    WindowInterval,
    WindowSamples,
    MaximumValueTimestamp,
    MinimumValueTimestamp,
    VarianceValue,
    ActiveCovSubscriptions,
    BackupFailureTimeout,
    ConfigurationFiles,
    DatabaseRevision,
    DirectReading,
    LastRestoreTime,
    MaintenanceRequired,
    MemberOf,
    Mode,
    OperationExpected,
    Setting,
    Silenced,
    TrackingValue,
    ZoneMembers,
    LifeSafetyAlarmValues,
    MaxSegmentsAccepted,
    ProfileName,
    Unknown(u32),
}

/// The numeric identifier of each property.
pub open spec fn property_code(p: PropertyIdentifier) -> u32 {
    match p {
        PropertyIdentifier::AckedTransitions => 0,
        PropertyIdentifier::AckRequired => 1,
        PropertyIdentifier::Action => 2,
        PropertyIdentifier::ActionText => 3,
        PropertyIdentifier::ActiveText => 4,
        PropertyIdentifier::ActiveVtSessions => 5,
        PropertyIdentifier::AlarmValue => 6,
        PropertyIdentifier::AlarmValues => 7,
        PropertyIdentifier::All => 8,
        PropertyIdentifier::AllWritesSuccessful => 9,
        PropertyIdentifier::ApduSegmentTimeout => 10,
        PropertyIdentifier::ApduTimeout => 11,
        PropertyIdentifier::ApplicationSoftwareVersion => 12,
        PropertyIdentifier::Archive => 13,
        PropertyIdentifier::Bias => 14,
        PropertyIdentifier::ChangeOfStateCount => 15,
        PropertyIdentifier::ChangeOfStateTime => 16,
        PropertyIdentifier::NotificationClass => 17,
        PropertyIdentifier::ControlledVariableReference => 19,
        PropertyIdentifier::ControlledVariableUnits => 20,
        PropertyIdentifier::ControlledVariableValue => 21,
        PropertyIdentifier::CovIncrement => 22,
        PropertyIdentifier::DateList => 23,
        PropertyIdentifier::DaylightSavingsStatus => 24,
        PropertyIdentifier::Deadband => 25,
        PropertyIdentifier::DerivativeConstant => 26,
        PropertyIdentifier::DerivativeConstantUnits => 27,
        PropertyIdentifier::Description => 28,
        PropertyIdentifier::DescriptionOfHalt => 29,
        PropertyIdentifier::DeviceAddressBinding => 30,
        PropertyIdentifier::DeviceType => 31,
        PropertyIdentifier::EffectivePeriod => 32,
        PropertyIdentifier::ElapsedActiveTime => 33,
        PropertyIdentifier::ErrorLimit => 34,
        PropertyIdentifier::EventEnable => 35,
        PropertyIdentifier::EventState => 36,
        PropertyIdentifier::EventType => 37,
        PropertyIdentifier::ExceptionSchedule => 38,
        PropertyIdentifier::FaultValues => 39,
        PropertyIdentifier::FeedbackValue => 40,
        PropertyIdentifier::FileAccessMethod => 41,
        PropertyIdentifier::FileSize => 42,
        PropertyIdentifier::FileType => 43,
        PropertyIdentifier::FirmwareRevision => 44,
        PropertyIdentifier::HighLimit => 45,
        PropertyIdentifier::InactiveText => 46,
        PropertyIdentifier::InProcess => 47,
        PropertyIdentifier::InstanceOf => 48,
        PropertyIdentifier::IntegralConstant => 49,
        PropertyIdentifier::IntegralConstantUnits => 50,
        PropertyIdentifier::LimitEnable => 52,
        PropertyIdentifier::ListOfGroupMembers => 53,
        PropertyIdentifier::ListOfObjectPropertyReferences => 54,
        PropertyIdentifier::LocalDate => 56,
        PropertyIdentifier::LocalTime => 57,
        PropertyIdentifier::Location => 58,
        PropertyIdentifier::LowLimit => 59,
        PropertyIdentifier::ManipulatedVariableReference => 60,
        PropertyIdentifier::MaximumOutput => 61,
        PropertyIdentifier::MaxApduLengthAccepted => 62,
        PropertyIdentifier::MaxInfoFrames => 63,
        PropertyIdentifier::MaxMaster => 64,
        PropertyIdentifier::MaxPresValue => 65,
        PropertyIdentifier::MinimumOffTime => 66,
        PropertyIdentifier::MinimumOnTime => 67,
        PropertyIdentifier::MinimumOutput => 68,
        PropertyIdentifier::MinPresValue => 69,
        PropertyIdentifier::ModelName => 70,
        PropertyIdentifier::ModificationDate => 71,
        PropertyIdentifier::NotifyType => 72,
        PropertyIdentifier::NumberOfApduRetries => 73,
        PropertyIdentifier::NumberOfStates => 74,
        PropertyIdentifier::ObjectIdentifier => 75,
        PropertyIdentifier::ObjectList => 76,
        PropertyIdentifier::ObjectName => 77,
        PropertyIdentifier::ObjectPropertyReference => 78,
        PropertyIdentifier::ObjectType => 79,
        PropertyIdentifier::Optional => 80,
        PropertyIdentifier::OutOfService => 81,
        PropertyIdentifier::OutputUnits => 82,
        PropertyIdentifier::EventParameters => 83,
        PropertyIdentifier::Polarity => 84,
        PropertyIdentifier::PresentValue => 85,
        PropertyIdentifier::Priority => 86,
        PropertyIdentifier::PriorityArray => 87,
        PropertyIdentifier::PriorityForWriting => 88,
        PropertyIdentifier::ProcessIdentifier => 89,
        PropertyIdentifier::ProgramChange => 90,
        PropertyIdentifier::ProgramLocation => 91,
        PropertyIdentifier::ProgramState => 92,
        PropertyIdentifier::ProportionalConstant => 93,
        PropertyIdentifier::ProportionalConstantUnits => 94,
        PropertyIdentifier::ProtocolObjectTypesSupported => 96,
        PropertyIdentifier::ProtocolServicesSupported => 97,
        PropertyIdentifier::ProtocolVersion => 98,
        PropertyIdentifier::ReadOnly => 99,
        PropertyIdentifier::ReasonForHalt => 100,
        PropertyIdentifier::RecipientList => 102,
        PropertyIdentifier::Reliability => 103,
        PropertyIdentifier::RelinquishDefault => 104,
        PropertyIdentifier::Required => 105,
        PropertyIdentifier::Resolution => 106,
        PropertyIdentifier::SegmentationSupported => 107,
        PropertyIdentifier::Setpoint => 108,
        PropertyIdentifier::SetpointReference => 109,
        PropertyIdentifier::StateText => 110,
        PropertyIdentifier::StatusFlags => 111,
        PropertyIdentifier::SystemStatus => 112,
        PropertyIdentifier::TimeDelay => 113,
        PropertyIdentifier::TimeOfActiveTimeReset => 114,
        PropertyIdentifier::TimeOfStateCountReset => 115,
        PropertyIdentifier::TimeSynchronizationRecipients => 116,
        PropertyIdentifier::Units => 117,
        PropertyIdentifier::UpdateInterval => 118,
        PropertyIdentifier::UtcOffset => 119,
        PropertyIdentifier::VendorIdentifier => 120,
        PropertyIdentifier::VendorName => 121,
        PropertyIdentifier::VtClassesSupported => 122,
        PropertyIdentifier::WeeklySchedule => 123,
        PropertyIdentifier::AttemptedSamples => 124,
        PropertyIdentifier::AverageValue => 125,
        PropertyIdentifier::BufferSize => 126,
        PropertyIdentifier::ClientCovIncrement => 127,
        PropertyIdentifier::CovResubscriptionInterval => 128,
        PropertyIdentifier::EventTimeStamps => 130,
        PropertyIdentifier::LogBuffer => 131,
        PropertyIdentifier::LogDeviceObjectProperty => 132,
        PropertyIdentifier::Enable => 133,
        PropertyIdentifier::LogInterval => 134,
        PropertyIdentifier::MaximumValue => 135,
        PropertyIdentifier::MinimumValue => 136,
        PropertyIdentifier::NotificationThreshold => 137,
        PropertyIdentifier::ProtocolRevision => 139,
        PropertyIdentifier::RecordsSinceNotification => 140,
        PropertyIdentifier::RecordCount => 141,
        PropertyIdentifier::StartTime => 142,
        PropertyIdentifier::StopTime => 143,
        PropertyIdentifier::StopWhenFull => 144,
        PropertyIdentifier::TotalRecordCount => 145,
        PropertyIdentifier::ValidSamples => 146,
        PropertyIdentifier::WindowInterval => 147,
        PropertyIdentifier::WindowSamples => 148,
        PropertyIdentifier::MaximumValueTimestamp => 149,
        PropertyIdentifier::MinimumValueTimestamp => 150,
        PropertyIdentifier::VarianceValue => 151,
        PropertyIdentifier::ActiveCovSubscriptions => 152,
        PropertyIdentifier::BackupFailureTimeout => 153,
        PropertyIdentifier::ConfigurationFiles => 154,
        PropertyIdentifier::DatabaseRevision => 155,
        PropertyIdentifier::DirectReading => 156,
        PropertyIdentifier::LastRestoreTime => 157,
        PropertyIdentifier::MaintenanceRequired => 158,
        PropertyIdentifier::MemberOf => 159,
        PropertyIdentifier::Mode => 160,
        PropertyIdentifier::OperationExpected => 161,
        PropertyIdentifier::Setting => 162,
        PropertyIdentifier::Silenced => 163,
        PropertyIdentifier::TrackingValue => 164,
        PropertyIdentifier::ZoneMembers => 165,
        PropertyIdentifier::LifeSafetyAlarmValues => 166,
        PropertyIdentifier::MaxSegmentsAccepted => 167,
        PropertyIdentifier::ProfileName => 168,
        PropertyIdentifier::Unknown(v) => v,
    }
}

/// Identifiers that have a named variant.
pub open spec fn is_known_property_code(v: u32) -> bool {
    (0 <= v && v <= 17) || (19 <= v && v <= 50) || (52 <= v && v <= 54) || (56 <= v && v <= 94) || (96 <= v && v <= 100) || (102 <= v && v <= 128) || (130 <= v && v <= 137) || (139 <= v && v <= 168)
}

/// A property identifier is canonical unless it is an `Unknown` carrying a
/// code that has a name (`from_u32` never produces such a value).
pub open spec fn is_canonical_property(p: PropertyIdentifier) -> bool {
    p is Unknown ==> !is_known_property_code(property_code(p))
}

/// The canonical property with identifier `v`.
pub open spec fn property_of(v: u32) -> PropertyIdentifier {
    choose|p: PropertyIdentifier| property_code(p) == v && is_canonical_property(p)
}

/// `property_of(v)` has code `v` and is canonical.
proof fn lemma_property_of(v: u32)
    requires
        exists|p: PropertyIdentifier| property_code(p) == v && is_canonical_property(p),
    ensures
        property_code(property_of(v)) == v,
        is_canonical_property(property_of(v)),
{
}

impl PropertyIdentifier {
    /// The property with identifier `value`.
    pub fn from_u32(value: u32) -> (r: PropertyIdentifier)
        ensures
            property_code(r) == value,
            r is Unknown <==> !is_known_property_code(value),
            r == property_of(value),
    {
        let r = match value {
            0 => PropertyIdentifier::AckedTransitions,
            1 => PropertyIdentifier::AckRequired,
            2 => PropertyIdentifier::Action,
            3 => PropertyIdentifier::ActionText,
            4 => PropertyIdentifier::ActiveText,
            5 => PropertyIdentifier::ActiveVtSessions,
            6 => PropertyIdentifier::AlarmValue,
            7 => PropertyIdentifier::AlarmValues,
            8 => PropertyIdentifier::All,
            9 => PropertyIdentifier::AllWritesSuccessful,
            10 => PropertyIdentifier::ApduSegmentTimeout,
            11 => PropertyIdentifier::ApduTimeout,
            12 => PropertyIdentifier::ApplicationSoftwareVersion,
            13 => PropertyIdentifier::Archive,
            14 => PropertyIdentifier::Bias,
            15 => PropertyIdentifier::ChangeOfStateCount,
            16 => PropertyIdentifier::ChangeOfStateTime,
            17 => PropertyIdentifier::NotificationClass,
            19 => PropertyIdentifier::ControlledVariableReference,
            20 => PropertyIdentifier::ControlledVariableUnits,
            21 => PropertyIdentifier::ControlledVariableValue,
            22 => PropertyIdentifier::CovIncrement,
            23 => PropertyIdentifier::DateList,
            24 => PropertyIdentifier::DaylightSavingsStatus,
            25 => PropertyIdentifier::Deadband,
            26 => PropertyIdentifier::DerivativeConstant,
            27 => PropertyIdentifier::DerivativeConstantUnits,
            28 => PropertyIdentifier::Description,
            29 => PropertyIdentifier::DescriptionOfHalt,
            30 => PropertyIdentifier::DeviceAddressBinding,
            31 => PropertyIdentifier::DeviceType,
            32 => PropertyIdentifier::EffectivePeriod,
            33 => PropertyIdentifier::ElapsedActiveTime,
            34 => PropertyIdentifier::ErrorLimit,
            35 => PropertyIdentifier::EventEnable,
            36 => PropertyIdentifier::EventState,
            37 => PropertyIdentifier::EventType,
            38 => PropertyIdentifier::ExceptionSchedule,
            39 => PropertyIdentifier::FaultValues,
            40 => PropertyIdentifier::FeedbackValue,
            41 => PropertyIdentifier::FileAccessMethod,
            42 => PropertyIdentifier::FileSize,
            43 => PropertyIdentifier::FileType,
            44 => PropertyIdentifier::FirmwareRevision,
            45 => PropertyIdentifier::HighLimit,
            46 => PropertyIdentifier::InactiveText,
            47 => PropertyIdentifier::InProcess,
            48 => PropertyIdentifier::InstanceOf,
            49 => PropertyIdentifier::IntegralConstant,
            50 => PropertyIdentifier::IntegralConstantUnits,
            52 => PropertyIdentifier::LimitEnable,
            53 => PropertyIdentifier::ListOfGroupMembers,
            54 => PropertyIdentifier::ListOfObjectPropertyReferences,
            56 => PropertyIdentifier::LocalDate,
            57 => PropertyIdentifier::LocalTime,
            58 => PropertyIdentifier::Location,
            59 => PropertyIdentifier::LowLimit,
            60 => PropertyIdentifier::ManipulatedVariableReference,
            61 => PropertyIdentifier::MaximumOutput,
            62 => PropertyIdentifier::MaxApduLengthAccepted,
            63 => PropertyIdentifier::MaxInfoFrames,
            64 => PropertyIdentifier::MaxMaster,
            65 => PropertyIdentifier::MaxPresValue,
            66 => PropertyIdentifier::MinimumOffTime,
            67 => PropertyIdentifier::MinimumOnTime,
            68 => PropertyIdentifier::MinimumOutput,
            69 => PropertyIdentifier::MinPresValue,
            70 => PropertyIdentifier::ModelName,
            71 => PropertyIdentifier::ModificationDate,
            72 => PropertyIdentifier::NotifyType,
            73 => PropertyIdentifier::NumberOfApduRetries,
            74 => PropertyIdentifier::NumberOfStates,
            75 => PropertyIdentifier::ObjectIdentifier,
            76 => PropertyIdentifier::ObjectList,
            77 => PropertyIdentifier::ObjectName,
            78 => PropertyIdentifier::ObjectPropertyReference,
            79 => PropertyIdentifier::ObjectType,
            80 => PropertyIdentifier::Optional,
            81 => PropertyIdentifier::OutOfService,
            82 => PropertyIdentifier::OutputUnits,
            83 => PropertyIdentifier::EventParameters,
            84 => PropertyIdentifier::Polarity,
            85 => PropertyIdentifier::PresentValue,
            86 => PropertyIdentifier::Priority,
            87 => PropertyIdentifier::PriorityArray,
            88 => PropertyIdentifier::PriorityForWriting,
            89 => PropertyIdentifier::ProcessIdentifier,
            90 => PropertyIdentifier::ProgramChange,
            91 => PropertyIdentifier::ProgramLocation,
            92 => PropertyIdentifier::ProgramState,
            93 => PropertyIdentifier::ProportionalConstant,
            94 => PropertyIdentifier::ProportionalConstantUnits,
            96 => PropertyIdentifier::ProtocolObjectTypesSupported,
            97 => PropertyIdentifier::ProtocolServicesSupported,
            98 => PropertyIdentifier::ProtocolVersion,
            99 => PropertyIdentifier::ReadOnly,
            100 => PropertyIdentifier::ReasonForHalt,
            102 => PropertyIdentifier::RecipientList,
            103 => PropertyIdentifier::Reliability,
            104 => PropertyIdentifier::RelinquishDefault,
            105 => PropertyIdentifier::Required,
            106 => PropertyIdentifier::Resolution,
            107 => PropertyIdentifier::SegmentationSupported,
            108 => PropertyIdentifier::Setpoint,
            109 => PropertyIdentifier::SetpointReference,
            110 => PropertyIdentifier::StateText,
            111 => PropertyIdentifier::StatusFlags,
            112 => PropertyIdentifier::SystemStatus,
            113 => PropertyIdentifier::TimeDelay,
            114 => PropertyIdentifier::TimeOfActiveTimeReset,
            115 => PropertyIdentifier::TimeOfStateCountReset,
            116 => PropertyIdentifier::TimeSynchronizationRecipients,
            117 => PropertyIdentifier::Units,
            118 => PropertyIdentifier::UpdateInterval,
            119 => PropertyIdentifier::UtcOffset,
            120 => PropertyIdentifier::VendorIdentifier,
            121 => PropertyIdentifier::VendorName,
            122 => PropertyIdentifier::VtClassesSupported,
            123 => PropertyIdentifier::WeeklySchedule,
            124 => PropertyIdentifier::AttemptedSamples,
            125 => PropertyIdentifier::AverageValue,
            126 => PropertyIdentifier::BufferSize,
            127 => PropertyIdentifier::ClientCovIncrement,
            128 => PropertyIdentifier::CovResubscriptionInterval,
            130 => PropertyIdentifier::EventTimeStamps,
            131 => PropertyIdentifier::LogBuffer,
            132 => PropertyIdentifier::LogDeviceObjectProperty,
            133 => PropertyIdentifier::Enable,
            134 => PropertyIdentifier::LogInterval,
            135 => PropertyIdentifier::MaximumValue,
            136 => PropertyIdentifier::MinimumValue,
            137 => PropertyIdentifier::NotificationThreshold,
            139 => PropertyIdentifier::ProtocolRevision,
            140 => PropertyIdentifier::RecordsSinceNotification,
            141 => PropertyIdentifier::RecordCount,
            142 => PropertyIdentifier::StartTime,
            143 => PropertyIdentifier::StopTime,
            144 => PropertyIdentifier::StopWhenFull,
            145 => PropertyIdentifier::TotalRecordCount,
            146 => PropertyIdentifier::ValidSamples,
            147 => PropertyIdentifier::WindowInterval,
            148 => PropertyIdentifier::WindowSamples,
            149 => PropertyIdentifier::MaximumValueTimestamp,
            150 => PropertyIdentifier::MinimumValueTimestamp,
            151 => PropertyIdentifier::VarianceValue,
            152 => PropertyIdentifier::ActiveCovSubscriptions,
            153 => PropertyIdentifier::BackupFailureTimeout,
            154 => PropertyIdentifier::ConfigurationFiles,
            155 => PropertyIdentifier::DatabaseRevision,
            156 => PropertyIdentifier::DirectReading,
            157 => PropertyIdentifier::LastRestoreTime,
            158 => PropertyIdentifier::MaintenanceRequired,
            159 => PropertyIdentifier::MemberOf,
            160 => PropertyIdentifier::Mode,
            161 => PropertyIdentifier::OperationExpected,
            162 => PropertyIdentifier::Setting,
            163 => PropertyIdentifier::Silenced,
            164 => PropertyIdentifier::TrackingValue,
            165 => PropertyIdentifier::ZoneMembers,
            166 => PropertyIdentifier::LifeSafetyAlarmValues,
            167 => PropertyIdentifier::MaxSegmentsAccepted,
            168 => PropertyIdentifier::ProfileName,
            _ => PropertyIdentifier::Unknown(value),
        };
        proof {
            assert(property_code(r) == value && is_canonical_property(r));
            lemma_property_of(value);
            lemma_property_code_injective(r, property_of(value));
        }
        r
    }

    /// The numeric identifier of this property.
    pub fn to_u32(&self) -> (r: u32)
        ensures
            r == property_code(*self),
    {
        match self {
            PropertyIdentifier::AckedTransitions => 0,
            PropertyIdentifier::AckRequired => 1,
            PropertyIdentifier::Action => 2,
            PropertyIdentifier::ActionText => 3,
            PropertyIdentifier::ActiveText => 4,
            PropertyIdentifier::ActiveVtSessions => 5,
            PropertyIdentifier::AlarmValue => 6,
            PropertyIdentifier::AlarmValues => 7,
            PropertyIdentifier::All => 8,
            PropertyIdentifier::AllWritesSuccessful => 9,
            PropertyIdentifier::ApduSegmentTimeout => 10,
            PropertyIdentifier::ApduTimeout => 11,
            PropertyIdentifier::ApplicationSoftwareVersion => 12,
            PropertyIdentifier::Archive => 13,
            PropertyIdentifier::Bias => 14,
            PropertyIdentifier::ChangeOfStateCount => 15,
            PropertyIdentifier::ChangeOfStateTime => 16,
            PropertyIdentifier::NotificationClass => 17,
            PropertyIdentifier::ControlledVariableReference => 19,
            PropertyIdentifier::ControlledVariableUnits => 20,
            PropertyIdentifier::ControlledVariableValue => 21,
            PropertyIdentifier::CovIncrement => 22,
            PropertyIdentifier::DateList => 23,
            PropertyIdentifier::DaylightSavingsStatus => 24,
            PropertyIdentifier::Deadband => 25,
            PropertyIdentifier::DerivativeConstant => 26,
            PropertyIdentifier::DerivativeConstantUnits => 27,
            PropertyIdentifier::Description => 28,
            PropertyIdentifier::DescriptionOfHalt => 29,
            PropertyIdentifier::DeviceAddressBinding => 30,
            PropertyIdentifier::DeviceType => 31,
            PropertyIdentifier::EffectivePeriod => 32,
            PropertyIdentifier::ElapsedActiveTime => 33,
            PropertyIdentifier::ErrorLimit => 34,
            PropertyIdentifier::EventEnable => 35,
            PropertyIdentifier::EventState => 36,
            PropertyIdentifier::EventType => 37,
            PropertyIdentifier::ExceptionSchedule => 38,
            PropertyIdentifier::FaultValues => 39,
            PropertyIdentifier::FeedbackValue => 40,
            PropertyIdentifier::FileAccessMethod => 41,
            PropertyIdentifier::FileSize => 42,
            PropertyIdentifier::FileType => 43,
            PropertyIdentifier::FirmwareRevision => 44,
            PropertyIdentifier::HighLimit => 45,
            PropertyIdentifier::InactiveText => 46,
            PropertyIdentifier::InProcess => 47,
            PropertyIdentifier::InstanceOf => 48,
            PropertyIdentifier::IntegralConstant => 49,
            PropertyIdentifier::IntegralConstantUnits => 50,
            PropertyIdentifier::LimitEnable => 52,
            PropertyIdentifier::ListOfGroupMembers => 53,
            PropertyIdentifier::ListOfObjectPropertyReferences => 54,
            PropertyIdentifier::LocalDate => 56,
            PropertyIdentifier::LocalTime => 57,
            PropertyIdentifier::Location => 58,
            PropertyIdentifier::LowLimit => 59,
            PropertyIdentifier::ManipulatedVariableReference => 60,
            PropertyIdentifier::MaximumOutput => 61,
            PropertyIdentifier::MaxApduLengthAccepted => 62,
            PropertyIdentifier::MaxInfoFrames => 63,
            PropertyIdentifier::MaxMaster => 64,
            PropertyIdentifier::MaxPresValue => 65,
            PropertyIdentifier::MinimumOffTime => 66,
            PropertyIdentifier::MinimumOnTime => 67,
            PropertyIdentifier::MinimumOutput => 68,
            PropertyIdentifier::MinPresValue => 69,
            PropertyIdentifier::ModelName => 70,
            PropertyIdentifier::ModificationDate => 71,
            PropertyIdentifier::NotifyType => 72,
            PropertyIdentifier::NumberOfApduRetries => 73,
            PropertyIdentifier::NumberOfStates => 74,
            PropertyIdentifier::ObjectIdentifier => 75,
            PropertyIdentifier::ObjectList => 76,
            PropertyIdentifier::ObjectName => 77,
            PropertyIdentifier::ObjectPropertyReference => 78,
            PropertyIdentifier::ObjectType => 79,
            PropertyIdentifier::Optional => 80,
            PropertyIdentifier::OutOfService => 81,
            PropertyIdentifier::OutputUnits => 82,
            PropertyIdentifier::EventParameters => 83,
            PropertyIdentifier::Polarity => 84,
            PropertyIdentifier::PresentValue => 85,
            PropertyIdentifier::Priority => 86,
            PropertyIdentifier::PriorityArray => 87,
            PropertyIdentifier::PriorityForWriting => 88,
            PropertyIdentifier::ProcessIdentifier => 89,
            PropertyIdentifier::ProgramChange => 90,
            PropertyIdentifier::ProgramLocation => 91,
            PropertyIdentifier::ProgramState => 92,
            PropertyIdentifier::ProportionalConstant => 93,
            PropertyIdentifier::ProportionalConstantUnits => 94,
            PropertyIdentifier::ProtocolObjectTypesSupported => 96,
            PropertyIdentifier::ProtocolServicesSupported => 97,
            PropertyIdentifier::ProtocolVersion => 98,
            PropertyIdentifier::ReadOnly => 99,
            PropertyIdentifier::ReasonForHalt => 100,
            PropertyIdentifier::RecipientList => 102,
            PropertyIdentifier::Reliability => 103,
            PropertyIdentifier::RelinquishDefault => 104,
            PropertyIdentifier::Required => 105,
            PropertyIdentifier::Resolution => 106,
            PropertyIdentifier::SegmentationSupported => 107,
            PropertyIdentifier::Setpoint => 108,
            PropertyIdentifier::SetpointReference => 109,
            PropertyIdentifier::StateText => 110,
            PropertyIdentifier::StatusFlags => 111,
            PropertyIdentifier::SystemStatus => 112,
            PropertyIdentifier::TimeDelay => 113,
            PropertyIdentifier::TimeOfActiveTimeReset => 114,
            PropertyIdentifier::TimeOfStateCountReset => 115,
            PropertyIdentifier::TimeSynchronizationRecipients => 116,
            PropertyIdentifier::Units => 117,
            PropertyIdentifier::UpdateInterval => 118,
            PropertyIdentifier::UtcOffset => 119,
            PropertyIdentifier::VendorIdentifier => 120,
            PropertyIdentifier::VendorName => 121,
            PropertyIdentifier::VtClassesSupported => 122,
            PropertyIdentifier::WeeklySchedule => 123,
            PropertyIdentifier::AttemptedSamples => 124,
            PropertyIdentifier::AverageValue => 125,
            PropertyIdentifier::BufferSize => 126,
            PropertyIdentifier::ClientCovIncrement => 127,
            PropertyIdentifier::CovResubscriptionInterval => 128,
            PropertyIdentifier::EventTimeStamps => 130,
            PropertyIdentifier::LogBuffer => 131,
            PropertyIdentifier::LogDeviceObjectProperty => 132,
            PropertyIdentifier::Enable => 133,
            PropertyIdentifier::LogInterval => 134,
            PropertyIdentifier::MaximumValue => 135,
            PropertyIdentifier::MinimumValue => 136,
            PropertyIdentifier::NotificationThreshold => 137,
            PropertyIdentifier::ProtocolRevision => 139,
            PropertyIdentifier::RecordsSinceNotification => 140,
            PropertyIdentifier::RecordCount => 141,
            PropertyIdentifier::StartTime => 142,
            PropertyIdentifier::StopTime => 143,
            PropertyIdentifier::StopWhenFull => 144,
            PropertyIdentifier::TotalRecordCount => 145,
            PropertyIdentifier::ValidSamples => 146,
            PropertyIdentifier::WindowInterval => 147,
            PropertyIdentifier::WindowSamples => 148,
            PropertyIdentifier::MaximumValueTimestamp => 149,
            PropertyIdentifier::MinimumValueTimestamp => 150,
            PropertyIdentifier::VarianceValue => 151,
            PropertyIdentifier::ActiveCovSubscriptions => 152,
            PropertyIdentifier::BackupFailureTimeout => 153,
            PropertyIdentifier::ConfigurationFiles => 154,
            PropertyIdentifier::DatabaseRevision => 155,
            PropertyIdentifier::DirectReading => 156,
            PropertyIdentifier::LastRestoreTime => 157,
            PropertyIdentifier::MaintenanceRequired => 158,
            PropertyIdentifier::MemberOf => 159,
            PropertyIdentifier::Mode => 160,
            PropertyIdentifier::OperationExpected => 161,
            PropertyIdentifier::Setting => 162,
            PropertyIdentifier::Silenced => 163,
            PropertyIdentifier::TrackingValue => 164,
            PropertyIdentifier::ZoneMembers => 165,
            PropertyIdentifier::LifeSafetyAlarmValues => 166,
            PropertyIdentifier::MaxSegmentsAccepted => 167,
            PropertyIdentifier::ProfileName => 168,
            PropertyIdentifier::Unknown(v) => *v,
        }
    }
}

/// Distinct canonical property identifiers have distinct codes, so
/// converting a canonical identifier to its code and back yields it again.
pub proof fn lemma_property_code_injective(a: PropertyIdentifier, b: PropertyIdentifier)
    requires
        is_canonical_property(a),
        is_canonical_property(b),
        property_code(a) == property_code(b),
    ensures
        a == b,
{
}

impl From<u32> for PropertyIdentifier {
    fn from(value: u32) -> (r: Self) {
        PropertyIdentifier::from_u32(value)
    }
}

impl vstd::std_specs::convert::FromSpecImpl<u32> for PropertyIdentifier {
    open spec fn obeys_from_spec() -> bool {
        true
    }

    open spec fn from_spec(v: u32) -> Self {
        property_of(v)
    }
}

impl From<PropertyIdentifier> for u32 {
    fn from(p: PropertyIdentifier) -> (r: u32) {
        p.to_u32()
    }
}

impl vstd::std_specs::convert::FromSpecImpl<PropertyIdentifier> for u32 {
    open spec fn obeys_from_spec() -> bool {
        true
    }

    open spec fn from_spec(p: PropertyIdentifier) -> u32 {
        property_code(p)
    }
}

} // verus!
