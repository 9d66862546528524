//! The closed enumerations that cross the reporting boundary: recognized
//! manifest elements, recognized attributes, and the diagnostic channel's
//! event kinds.  Each carries a stable one-byte identifier used by the wire
//! encoding.

use vstd::prelude::*;

use crate::float_bits::spec_int_to_f64_bits;
use crate::float_bits::int_to_f64_bits;
use crate::report::error_notif;
use crate::report::AttrValV;
use crate::report::NotifV;
use crate::report::Reporter;
use crate::reportable::ReportableValue;
use crate::utils::invalid_boolean_msg;
use crate::utils::invalid_duration_msg;
use crate::utils::invalid_integer_msg;
use crate::utils::invalid_number_msg;
use crate::utils::parse_bool;
use crate::utils::parse_f64;
use crate::utils::parse_iso_8601_duration;
use crate::utils::parse_u64;
use crate::utils::parse_u64_or_bool;
use crate::utils::spec_parse_bool;
use crate::utils::spec_parse_duration;
use crate::utils::spec_parse_f64;
use crate::utils::spec_parse_u64;
use crate::utils::spec_parse_u64_or_bool;

verus! {

/// Kind of a diagnostic event sent through the custom-event channel.
#[derive(Debug, Clone, Copy, PartialEq, Eq, Structural)]
pub enum CustomEventType {
    Log,
    Error,
}

impl CustomEventType {
    /// One-byte identifier of this event kind.
    pub open spec fn spec_code(&self) -> u8 {
        match self {
            CustomEventType::Log => 0,
            CustomEventType::Error => 1,
        }
    }

    /// Executable twin of [`Self::spec_code`].
    pub fn code(&self) -> (c: u8)
        ensures
            c == self.spec_code(),
    {
        match self {
            CustomEventType::Log => 0,
            CustomEventType::Error => 1,
        }
    }
}

/// Every manifest element the engine recognizes.  The identifier must fit in
/// a single byte when crossing the reporting boundary.
#[derive(Debug, Clone, Copy, PartialEq, Eq, Structural)]
pub enum TagName {
    MPD,
    Period,
    UtcTiming,
    AdaptationSet,
    EventStream,
    EventStreamElt,
    Representation,
    Accessibility,
    ContentComponent,
    ContentProtection,
    EssentialProperty,
    Role,
    SupplementalProperty,
    Initialization,
    BaseURL,
    SegmentTemplate,
    SegmentBase,
    SegmentList,
}

impl TagName {
    /// One-byte identifier of this element.
    pub open spec fn spec_code(&self) -> u8 {
        match self {
            TagName::MPD => 1,
            TagName::Period => 2,
            TagName::UtcTiming => 3,
            TagName::AdaptationSet => 4,
            TagName::EventStream => 5,
            TagName::EventStreamElt => 6,
            TagName::Representation => 7,
            TagName::Accessibility => 8,
            TagName::ContentComponent => 9,
            TagName::ContentProtection => 10,
            TagName::EssentialProperty => 11,
            TagName::Role => 12,
            TagName::SupplementalProperty => 13,
            TagName::Initialization => 14,
            TagName::BaseURL => 15,
            TagName::SegmentTemplate => 16,
            TagName::SegmentBase => 17,
            TagName::SegmentList => 18,
        }
    }

    /// Executable twin of [`Self::spec_code`].
    pub fn code(&self) -> (c: u8)
        ensures
            c == self.spec_code(),
    {
        match self {
            TagName::MPD => 1,
            TagName::Period => 2,
            TagName::UtcTiming => 3,
            TagName::AdaptationSet => 4,
            TagName::EventStream => 5,
            TagName::EventStreamElt => 6,
            TagName::Representation => 7,
            TagName::Accessibility => 8,
            TagName::ContentComponent => 9,
            TagName::ContentProtection => 10,
            TagName::EssentialProperty => 11,
            TagName::Role => 12,
            TagName::SupplementalProperty => 13,
            TagName::Initialization => 14,
            TagName::BaseURL => 15,
            TagName::SegmentTemplate => 16,
            TagName::SegmentBase => 17,
            TagName::SegmentList => 18,
        }
    }
}

/// Every attribute the engine recognizes, across all element types.  The
/// value shape each identifier implies (string, float, boolean, range,
/// timeline batch) is part of the protocol contract.
#[derive(Debug, Clone, Copy, PartialEq, Eq, Structural)]
pub enum AttributeName {
    Id,
    Duration,
    Profiles,
    AudioSamplingRate,
    Codecs,
    CodingDependency,
    FrameRate,
    Height,
    Width,
    MaxPlayoutRate,
    MaximumSAPPeriod,
    MimeType,
    SegmentProfiles,
    ContentProtectionValue,
    ContentProtectionKeyId,
    ContentProtectionCencPSSH,
    SchemeIdUri,
    SchemeValue,
    MediaRange,
    SegmentTimeline,
    StartNumber,
    SegmentBaseSegment,
    AvailabilityTimeComplete,
    IndexRangeExact,
    PresentationTimeOffset,
    EventPresentationTime,
    Element,
    TimeScale,
    Index,
    InitializationRange,
    Media,
    IndexRange,
    BitStreamSwitching,
    Type,
    AvailabilityStartTime,
    AvailabilityEndTime,
    PublishTime,
    MinimumUpdatePeriod,
    MinBufferTime,
    TimeShiftBufferDepth,
    SuggestedPresentationDelay,
    MaxSegmentDuration,
    MaxSubsegmentDuration,
    AvailabilityTimeOffset,
    BaseUrlValue,
    Start,
    XLinkHref,
    XLinkActuate,
    Group,
    MaxBitrate,
    MaxFrameRate,
    MaxHeight,
    MaxWidth,
    MinBitrate,
    MinFrameRate,
    MinHeight,
    MinWidth,
    SelectionPriority,
    SegmentAlignment,
    SubsegmentAlignment,
    Language,
    ContentType,
    Par,
    Bitrate,
    Text,
    QualityRanking,
    Location,
}

impl AttributeName {
    /// One-byte identifier of this attribute.
    pub open spec fn spec_code(&self) -> u8 {
        match self {
            AttributeName::Id => 0,
            AttributeName::Duration => 1,
            AttributeName::Profiles => 2,
            AttributeName::AudioSamplingRate => 3,
            AttributeName::Codecs => 4,
            AttributeName::CodingDependency => 5,
            AttributeName::FrameRate => 6,
            AttributeName::Height => 7,
            AttributeName::Width => 8,
            AttributeName::MaxPlayoutRate => 9,
            AttributeName::MaximumSAPPeriod => 10,
            AttributeName::MimeType => 11,
            AttributeName::SegmentProfiles => 12,
            AttributeName::ContentProtectionValue => 13,
            AttributeName::ContentProtectionKeyId => 14,
            AttributeName::ContentProtectionCencPSSH => 15,
            AttributeName::SchemeIdUri => 16,
            AttributeName::SchemeValue => 17,
            AttributeName::MediaRange => 18,
            AttributeName::SegmentTimeline => 19,
            AttributeName::StartNumber => 20,
            AttributeName::SegmentBaseSegment => 21,
            AttributeName::AvailabilityTimeComplete => 22,
            AttributeName::IndexRangeExact => 23,
            AttributeName::PresentationTimeOffset => 24,
            AttributeName::EventPresentationTime => 25,
            AttributeName::Element => 26,
            AttributeName::TimeScale => 27,
            AttributeName::Index => 28,
            AttributeName::InitializationRange => 29,
            AttributeName::Media => 30,
            AttributeName::IndexRange => 31,
            AttributeName::BitStreamSwitching => 32,
            AttributeName::Type => 33,
            AttributeName::AvailabilityStartTime => 34,
            AttributeName::AvailabilityEndTime => 35,
            AttributeName::PublishTime => 36,
            AttributeName::MinimumUpdatePeriod => 37,
            AttributeName::MinBufferTime => 38,
            AttributeName::TimeShiftBufferDepth => 39,
            AttributeName::SuggestedPresentationDelay => 40,
            AttributeName::MaxSegmentDuration => 41,
            AttributeName::MaxSubsegmentDuration => 42,
            AttributeName::AvailabilityTimeOffset => 43,
            AttributeName::BaseUrlValue => 44,
            AttributeName::Start => 45,
            AttributeName::XLinkHref => 46,
            AttributeName::XLinkActuate => 47,
            AttributeName::Group => 48,
            AttributeName::MaxBitrate => 49,
            AttributeName::MaxFrameRate => 50,
            AttributeName::MaxHeight => 51,
            AttributeName::MaxWidth => 52,
            AttributeName::MinBitrate => 53,
            AttributeName::MinFrameRate => 54,
            AttributeName::MinHeight => 55,
            AttributeName::MinWidth => 56,
            AttributeName::SelectionPriority => 57,
            AttributeName::SegmentAlignment => 58,
            AttributeName::SubsegmentAlignment => 59,
            AttributeName::Language => 60,
            AttributeName::ContentType => 61,
            AttributeName::Par => 62,
            AttributeName::Bitrate => 63,
            AttributeName::Text => 64,
            AttributeName::QualityRanking => 65,
            AttributeName::Location => 66,
        }
    }

    /// Executable twin of [`Self::spec_code`].
    pub fn code(&self) -> (c: u8)
        ensures
            c == self.spec_code(),
    {
        match self {
            AttributeName::Id => 0,
            AttributeName::Duration => 1,
            AttributeName::Profiles => 2,
            AttributeName::AudioSamplingRate => 3,
            AttributeName::Codecs => 4,
            AttributeName::CodingDependency => 5,
            AttributeName::FrameRate => 6,
            AttributeName::Height => 7,
            AttributeName::Width => 8,
            AttributeName::MaxPlayoutRate => 9,
            AttributeName::MaximumSAPPeriod => 10,
            AttributeName::MimeType => 11,
            AttributeName::SegmentProfiles => 12,
            AttributeName::ContentProtectionValue => 13,
            AttributeName::ContentProtectionKeyId => 14,
            AttributeName::ContentProtectionCencPSSH => 15,
            AttributeName::SchemeIdUri => 16,
            AttributeName::SchemeValue => 17,
            AttributeName::MediaRange => 18,
            AttributeName::SegmentTimeline => 19,
            AttributeName::StartNumber => 20,
            AttributeName::SegmentBaseSegment => 21,
            AttributeName::AvailabilityTimeComplete => 22,
            AttributeName::IndexRangeExact => 23,
            AttributeName::PresentationTimeOffset => 24,
            AttributeName::EventPresentationTime => 25,
            AttributeName::Element => 26,
            AttributeName::TimeScale => 27,
            AttributeName::Index => 28,
            AttributeName::InitializationRange => 29,
            AttributeName::Media => 30,
            AttributeName::IndexRange => 31,
            AttributeName::BitStreamSwitching => 32,
            AttributeName::Type => 33,
            AttributeName::AvailabilityStartTime => 34,
            AttributeName::AvailabilityEndTime => 35,
            AttributeName::PublishTime => 36,
            AttributeName::MinimumUpdatePeriod => 37,
            AttributeName::MinBufferTime => 38,
            AttributeName::TimeShiftBufferDepth => 39,
            AttributeName::SuggestedPresentationDelay => 40,
            AttributeName::MaxSegmentDuration => 41,
            AttributeName::MaxSubsegmentDuration => 42,
            AttributeName::AvailabilityTimeOffset => 43,
            AttributeName::BaseUrlValue => 44,
            AttributeName::Start => 45,
            AttributeName::XLinkHref => 46,
            AttributeName::XLinkActuate => 47,
            AttributeName::Group => 48,
            AttributeName::MaxBitrate => 49,
            AttributeName::MaxFrameRate => 50,
            AttributeName::MaxHeight => 51,
            AttributeName::MaxWidth => 52,
            AttributeName::MinBitrate => 53,
            AttributeName::MinFrameRate => 54,
            AttributeName::MinHeight => 55,
            AttributeName::MinWidth => 56,
            AttributeName::SelectionPriority => 57,
            AttributeName::SegmentAlignment => 58,
            AttributeName::SubsegmentAlignment => 59,
            AttributeName::Language => 60,
            AttributeName::ContentType => 61,
            AttributeName::Par => 62,
            AttributeName::Bitrate => 63,
            AttributeName::Text => 64,
            AttributeName::QualityRanking => 65,
            AttributeName::Location => 66,
        }
    }
}

impl TagName {
    /// Signals that this element opened.
    pub fn tag_open(self, rep: &mut Reporter)
        ensures
            final(rep)@ == old(rep)@.push(NotifV::TagOpen(self)),
    {
        crate::report::report_opening_tag(self, rep);
    }

    /// Signals that this previously opened element closed.
    pub fn tag_close(self, rep: &mut Reporter)
        ensures
            final(rep)@ == old(rep)@.push(NotifV::TagClose(self)),
    {
        crate::report::report_closing_tag(self, rep);
    }
}

/// Notifications produced by decoding an attribute text as a float: the
/// value on success, one error otherwise.
pub open spec fn f64_attr_notifs(a: AttributeName, v: Seq<u8>) -> Seq<NotifV> {
    match spec_parse_f64(v) {
        Some(b) => seq![NotifV::Attribute(a, AttrValV::F64(b))],
        None => seq![error_notif(invalid_number_msg())],
    }
}

/// Notifications produced by decoding an attribute text as a duration.
pub open spec fn duration_attr_notifs(a: AttributeName, v: Seq<u8>) -> Seq<NotifV> {
    match spec_parse_duration(v) {
        Some(b) => seq![NotifV::Attribute(a, AttrValV::F64(b))],
        None => seq![error_notif(invalid_duration_msg())],
    }
}

/// Notifications produced by decoding an attribute text as an unsigned
/// integer, reported as a float.
pub open spec fn u64_attr_notifs(a: AttributeName, v: Seq<u8>) -> Seq<NotifV> {
    match spec_parse_u64(v) {
        Some(n) => seq![NotifV::Attribute(a, AttrValV::F64(spec_int_to_f64_bits(n as nat)))],
        None => seq![error_notif(invalid_integer_msg())],
    }
}

/// Notifications produced by decoding the tri-state numeric-or-boolean
/// encoding.
pub open spec fn u64_or_bool_attr_notifs(a: AttributeName, v: Seq<u8>) -> Seq<NotifV> {
    match spec_parse_u64_or_bool(v) {
        Some(b) => seq![NotifV::Attribute(a, AttrValV::F64(b))],
        None => seq![error_notif(invalid_integer_msg())],
    }
}

/// Notifications produced by decoding an attribute text as a boolean.
pub open spec fn bool_attr_notifs(a: AttributeName, v: Seq<u8>) -> Seq<NotifV> {
    match spec_parse_bool(v) {
        Some(b) => seq![NotifV::Attribute(a, AttrValV::Bool(b))],
        None => seq![error_notif(invalid_boolean_msg())],
    }
}

/// The single notification reporting a raw byte-string value.
pub open spec fn str_attr_notif(a: AttributeName, v: Seq<u8>) -> NotifV {
    NotifV::Attribute(a, AttrValV::Str(v))
}

impl AttributeName {
    /// Reports a reportable value under this attribute identifier.
    pub fn report<T: ReportableValue>(self, val: &T, rep: &mut Reporter)
        ensures
            final(rep)@ == old(rep)@.push(NotifV::Attribute(self, val.attr_val())),
    {
        val.report_as_attr(self, rep);
    }

    /// Decodes an attribute text as a float and reports the value, or
    /// reports the decode failure.
    pub fn try_report_as_f64(self, value: &[u8], rep: &mut Reporter)
        ensures
            final(rep)@ == old(rep)@ + f64_attr_notifs(self, value@),
    {
        match parse_f64(value) {
            Ok(bits) => self.report(&bits, rep),
            Err(error) => error.report_err(rep),
        }
        proof {
            assert(rep@ =~= old(rep)@ + f64_attr_notifs(self, value@));
        }
    }

    /// Decodes an attribute text as an ISO 8601 duration and reports the
    /// seconds, or reports the decode failure.
    pub fn try_report_as_iso_8601_duration(self, value: &[u8], rep: &mut Reporter)
        ensures
            final(rep)@ == old(rep)@ + duration_attr_notifs(self, value@),
    {
        match parse_iso_8601_duration(value) {
            Ok(bits) => self.report(&bits, rep),
            Err(error) => error.report_err(rep),
        }
        proof {
            assert(rep@ =~= old(rep)@ + duration_attr_notifs(self, value@));
        }
    }

    /// Decodes an attribute text as an unsigned integer and reports it as
    /// a float, or reports the decode failure.
    pub fn try_report_as_u64(self, value: &[u8], rep: &mut Reporter)
        ensures
            final(rep)@ == old(rep)@ + u64_attr_notifs(self, value@),
    {
        match parse_u64(value) {
            Ok(n) => {
                let bits = int_to_f64_bits(n as u128);
                self.report(&bits, rep);
            },
            Err(error) => error.report_err(rep),
        }
        proof {
            assert(rep@ =~= old(rep)@ + u64_attr_notifs(self, value@));
        }
    }

    /// Decodes the tri-state numeric-or-boolean encoding and reports the
    /// float it denotes, or reports the decode failure.
    pub fn try_report_as_u64_or_bool(self, value: &[u8], rep: &mut Reporter)
        ensures
            final(rep)@ == old(rep)@ + u64_or_bool_attr_notifs(self, value@),
    {
        match parse_u64_or_bool(value) {
            Ok(bits) => self.report(&bits, rep),
            Err(error) => error.report_err(rep),
        }
        proof {
            assert(rep@ =~= old(rep)@ + u64_or_bool_attr_notifs(self, value@));
        }
    }

    /// Decodes an attribute text as a boolean and reports it, or reports
    /// the decode failure.
    pub fn try_report_as_bool(self, value: &[u8], rep: &mut Reporter)
        ensures
            final(rep)@ == old(rep)@ + bool_attr_notifs(self, value@),
    {
        match parse_bool(value) {
            Ok(b) => self.report(&b, rep),
            Err(error) => error.report_err(rep),
        }
        proof {
            assert(rep@ =~= old(rep)@ + bool_attr_notifs(self, value@));
        }
    }

    /// Reports a raw byte-string attribute value.
    pub fn report_str(self, value: &[u8], rep: &mut Reporter)
        ensures
            final(rep)@ == old(rep)@.push(str_attr_notif(self, value@)),
    {
        let owned = crate::reportable::copy_bytes(value);
        self.report(&owned, rep);
    }
}

} // verus!
