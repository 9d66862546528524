//! The per-element attribute tables.
//!
//! Each table maps an attribute's literal name (exact, case-sensitive,
//! namespaced names included) to the codec that decodes its text and the
//! identifier it is reported under.  Attributes are processed in lexical
//! order; unrecognized names are silently ignored; a value that fails to
//! decode is reported as one error and never blocks its siblings.

use vstd::prelude::*;

use crate::bytes_util::lit;
use crate::bytes_util::name_is;
use crate::events::bool_attr_notifs;
use crate::events::duration_attr_notifs;
use crate::events::f64_attr_notifs;
use crate::events::str_attr_notif;
use crate::events::u64_attr_notifs;
use crate::events::u64_or_bool_attr_notifs;
use crate::events::AttributeName;
use crate::float_bits::F64_INFINITY_BITS;
use crate::report::error_notif;
use crate::report::AttrValV;
use crate::report::NotifV;
use crate::report::Reporter;
use crate::xml::XmlAttr;
use crate::xml::XmlAttrV;

verus! {

/// The element types that carry an attribute table.
#[derive(Debug, Clone, Copy, PartialEq, Eq, Structural)]
pub enum AttrTable {
    Mpd,
    Period,
    AdaptationSet,
    Representation,
    BaseUrl,
    ContentComponent,
    ContentProtection,
}

/// Notifications of one recognized `MPD` attribute.
pub open spec fn mpd_entry_notifs(key: Seq<u8>, v: Seq<u8>) -> Seq<NotifV> {
    if key == lit("id") {
        seq![str_attr_notif(AttributeName::Id, v)]
    } else if key == lit("profiles") {
        seq![str_attr_notif(AttributeName::Profiles, v)]
    } else if key == lit("type") {
        seq![str_attr_notif(AttributeName::Type, v)]
    } else if key == lit("availabilityStartTime") {
        seq![str_attr_notif(AttributeName::AvailabilityStartTime, v)]
    } else if key == lit("availabilityEndTime") {
        seq![str_attr_notif(AttributeName::AvailabilityEndTime, v)]
    } else if key == lit("publishTime") {
        seq![str_attr_notif(AttributeName::PublishTime, v)]
    } else if key == lit("mediaPresentationDuration") {
        duration_attr_notifs(AttributeName::Duration, v)
    } else if key == lit("minimumUpdatePeriod") {
        duration_attr_notifs(AttributeName::MinimumUpdatePeriod, v)
    } else if key == lit("minBufferTime") {
        duration_attr_notifs(AttributeName::MinBufferTime, v)
    } else if key == lit("timeShiftBufferDepth") {
        duration_attr_notifs(AttributeName::TimeShiftBufferDepth, v)
    } else if key == lit("suggestedPresentationDelay") {
        duration_attr_notifs(AttributeName::SuggestedPresentationDelay, v)
    } else if key == lit("maxSegmentDuration") {
        duration_attr_notifs(AttributeName::MaxSegmentDuration, v)
    } else if key == lit("maxSubsegmentDuration") {
        duration_attr_notifs(AttributeName::MaxSubsegmentDuration, v)
    } else {
        Seq::empty()
    }
}

/// Notifications of one recognized `Period` attribute.
pub open spec fn period_entry_notifs(key: Seq<u8>, v: Seq<u8>) -> Seq<NotifV> {
    if key == lit("id") {
        seq![str_attr_notif(AttributeName::Id, v)]
    } else if key == lit("start") {
        duration_attr_notifs(AttributeName::Start, v)
    } else if key == lit("duration") {
        duration_attr_notifs(AttributeName::Duration, v)
    } else if key == lit("bitstreamSwitching") {
        bool_attr_notifs(AttributeName::BitStreamSwitching, v)
    } else if key == lit("xlink:href") {
        seq![str_attr_notif(AttributeName::XLinkHref, v)]
    } else if key == lit("xlink:actuate") {
        seq![str_attr_notif(AttributeName::XLinkActuate, v)]
    } else {
        Seq::empty()
    }
}

/// Notifications of one recognized `AdaptationSet` attribute.
pub open spec fn adaptation_set_entry_notifs(key: Seq<u8>, v: Seq<u8>) -> Seq<NotifV> {
    if key == lit("id") {
        seq![str_attr_notif(AttributeName::Id, v)]
    } else if key == lit("group") {
        u64_attr_notifs(AttributeName::Group, v)
    } else if key == lit("lang") {
        seq![str_attr_notif(AttributeName::Language, v)]
    } else if key == lit("contentType") {
        seq![str_attr_notif(AttributeName::ContentType, v)]
    } else if key == lit("par") {
        seq![str_attr_notif(AttributeName::Par, v)]
    } else if key == lit("minBandwidth") {
        u64_attr_notifs(AttributeName::MinBitrate, v)
    } else if key == lit("maxBandwidth") {
        u64_attr_notifs(AttributeName::MaxBitrate, v)
    } else if key == lit("minWidth") {
        u64_attr_notifs(AttributeName::MinWidth, v)
    } else if key == lit("maxWidth") {
        u64_attr_notifs(AttributeName::MaxWidth, v)
    } else if key == lit("minHeight") {
        u64_attr_notifs(AttributeName::MinHeight, v)
    } else if key == lit("maxHeight") {
        u64_attr_notifs(AttributeName::MaxHeight, v)
    } else if key == lit("minFrameRate") {
        seq![str_attr_notif(AttributeName::MinFrameRate, v)]
    } else if key == lit("maxFrameRate") {
        seq![str_attr_notif(AttributeName::MaxFrameRate, v)]
    } else if key == lit("selectionPriority") {
        u64_attr_notifs(AttributeName::SelectionPriority, v)
    } else if key == lit("segmentAlignment") {
        u64_or_bool_attr_notifs(AttributeName::SegmentAlignment, v)
    } else if key == lit("subsegmentAlignment") {
        u64_or_bool_attr_notifs(AttributeName::SubsegmentAlignment, v)
    } else if key == lit("bitstreamSwitching") {
        bool_attr_notifs(AttributeName::BitStreamSwitching, v)
    } else if key == lit("audioSamplingRate") {
        seq![str_attr_notif(AttributeName::AudioSamplingRate, v)]
    } else if key == lit("codecs") {
        seq![str_attr_notif(AttributeName::Codecs, v)]
    } else if key == lit("profiles") {
        seq![str_attr_notif(AttributeName::Profiles, v)]
    } else if key == lit("segmentProfiles") {
        seq![str_attr_notif(AttributeName::SegmentProfiles, v)]
    } else if key == lit("mimeType") {
        seq![str_attr_notif(AttributeName::MimeType, v)]
    } else if key == lit("codingDependency") {
        bool_attr_notifs(AttributeName::CodingDependency, v)
    } else if key == lit("frameRate") {
        seq![str_attr_notif(AttributeName::FrameRate, v)]
    } else if key == lit("height") {
        u64_attr_notifs(AttributeName::Height, v)
    } else if key == lit("width") {
        u64_attr_notifs(AttributeName::Width, v)
    } else if key == lit("maxPlayoutRate") {
        f64_attr_notifs(AttributeName::MaxPlayoutRate, v)
    } else if key == lit("maxSAPPeriod") {
        f64_attr_notifs(AttributeName::MaximumSAPPeriod, v)
    } else {
        Seq::empty()
    }
}

/// Notifications of one recognized `Representation` attribute.
pub open spec fn representation_entry_notifs(key: Seq<u8>, v: Seq<u8>) -> Seq<NotifV> {
    if key == lit("id") {
        seq![str_attr_notif(AttributeName::Id, v)]
    } else if key == lit("audioSamplingRate") {
        seq![str_attr_notif(AttributeName::AudioSamplingRate, v)]
    } else if key == lit("bandwidth") {
        u64_attr_notifs(AttributeName::Bitrate, v)
    } else if key == lit("codecs") {
        seq![str_attr_notif(AttributeName::Codecs, v)]
    } else if key == lit("codingDependency") {
        bool_attr_notifs(AttributeName::CodingDependency, v)
    } else if key == lit("frameRate") {
        seq![str_attr_notif(AttributeName::FrameRate, v)]
    } else if key == lit("height") {
        u64_attr_notifs(AttributeName::Height, v)
    } else if key == lit("width") {
        u64_attr_notifs(AttributeName::Width, v)
    } else if key == lit("maxPlayoutRate") {
        f64_attr_notifs(AttributeName::MaxPlayoutRate, v)
    } else if key == lit("maxSAPPeriod") {
        f64_attr_notifs(AttributeName::MaximumSAPPeriod, v)
    } else if key == lit("mimeType") {
        seq![str_attr_notif(AttributeName::MimeType, v)]
    } else if key == lit("profiles") {
        seq![str_attr_notif(AttributeName::Profiles, v)]
    } else if key == lit("qualityRanking") {
        u64_attr_notifs(AttributeName::QualityRanking, v)
    } else if key == lit("segmentProfiles") {
        seq![str_attr_notif(AttributeName::SegmentProfiles, v)]
    } else {
        Seq::empty()
    }
}

/// Notifications of one recognized `BaseURL` attribute: only the
/// availability time offset, whose literal text `INF` denotes infinity.
pub open spec fn base_url_entry_notifs(key: Seq<u8>, v: Seq<u8>) -> Seq<NotifV> {
    if key == lit("availabilityTimeOffset") {
        if v == lit("INF") {
            seq![NotifV::Attribute(AttributeName::AvailabilityTimeOffset, AttrValV::F64(F64_INFINITY_BITS))]
        } else {
            u64_attr_notifs(AttributeName::AvailabilityTimeOffset, v)
        }
    } else {
        Seq::empty()
    }
}

/// Notifications of one recognized `ContentComponent` attribute.
pub open spec fn content_component_entry_notifs(key: Seq<u8>, v: Seq<u8>) -> Seq<NotifV> {
    if key == lit("id") {
        seq![str_attr_notif(AttributeName::Id, v)]
    } else if key == lit("lang") {
        seq![str_attr_notif(AttributeName::Language, v)]
    } else if key == lit("contentType") {
        seq![str_attr_notif(AttributeName::ContentType, v)]
    } else if key == lit("par") {
        seq![str_attr_notif(AttributeName::Par, v)]
    } else {
        Seq::empty()
    }
}

/// Notifications of one recognized `ContentProtection` attribute.
pub open spec fn content_protection_entry_notifs(key: Seq<u8>, v: Seq<u8>) -> Seq<NotifV> {
    if key == lit("schemeIdUri") {
        seq![str_attr_notif(AttributeName::Id, v)]
    } else if key == lit("value") {
        seq![str_attr_notif(AttributeName::Language, v)]
    } else if key == lit("cenc:default_KID") {
        seq![str_attr_notif(AttributeName::ContentType, v)]
    } else {
        Seq::empty()
    }
}

/// Notifications of one recognized attribute of the given table.
pub open spec fn table_entry_notifs(t: AttrTable, key: Seq<u8>, v: Seq<u8>) -> Seq<NotifV> {
    match t {
        AttrTable::Mpd => mpd_entry_notifs(key, v),
        AttrTable::Period => period_entry_notifs(key, v),
        AttrTable::AdaptationSet => adaptation_set_entry_notifs(key, v),
        AttrTable::Representation => representation_entry_notifs(key, v),
        AttrTable::BaseUrl => base_url_entry_notifs(key, v),
        AttrTable::ContentComponent => content_component_entry_notifs(key, v),
        AttrTable::ContentProtection => content_protection_entry_notifs(key, v),
    }
}

/// Notifications of one attribute item: a recognized pair decodes through
/// the table, a malformed item reports its tokenizer message.
pub open spec fn attr_item_notifs(t: AttrTable, a: XmlAttrV) -> Seq<NotifV> {
    match a {
        XmlAttrV::Pair { key, value } => table_entry_notifs(t, key, value),
        XmlAttrV::Bad { msg } => seq![error_notif(msg)],
    }
}

/// Notifications of a whole attribute list, in lexical order.
pub open spec fn table_notifs(t: AttrTable, attrs: Seq<XmlAttrV>) -> Seq<NotifV>
    decreases attrs.len(),
{
    if attrs.len() == 0 {
        Seq::empty()
    } else {
        attr_item_notifs(t, attrs[0]) + table_notifs(t, attrs.skip(1))
    }
}

/// Processing one more attribute extends the notifications by that
/// attribute's own.
pub proof fn lemma_table_notifs_snoc(t: AttrTable, attrs: Seq<XmlAttrV>, i: int)
    requires
        0 <= i < attrs.len(),
    ensures
        table_notifs(t, attrs.take(i + 1)) == table_notifs(t, attrs.take(i)) + attr_item_notifs(
            t,
            attrs[i],
        ),
    decreases i + 1,
{
    if i == 0 {
        let t1 = attrs.take(1);
        assert(t1[0] == attrs[0]);
        assert(t1.skip(1) =~= Seq::<XmlAttrV>::empty());
        assert(table_notifs(t, Seq::<XmlAttrV>::empty()) == Seq::<NotifV>::empty());
        assert(table_notifs(t, t1) == attr_item_notifs(t, attrs[0]) + table_notifs(t, t1.skip(1)));
        assert(attrs.take(0) =~= Seq::<XmlAttrV>::empty());
        assert(attr_item_notifs(t, attrs[0]) + Seq::<NotifV>::empty() =~= attr_item_notifs(
            t,
            attrs[0],
        ));
        assert(Seq::<NotifV>::empty() + attr_item_notifs(t, attrs[0]) =~= attr_item_notifs(
            t,
            attrs[0],
        ));
    } else {
        let rest = attrs.skip(1);
        lemma_table_notifs_snoc(t, rest, i - 1);
        assert(attrs.take(i + 1)[0] == attrs[0]);
        assert(attrs.take(i + 1).skip(1) =~= rest.take(i));
        assert(attrs.take(i).skip(1) =~= rest.take(i - 1));
        assert(attrs.take(i)[0] == attrs[0]);
        assert(rest[i - 1] == attrs[i]);
        assert(table_notifs(t, attrs.take(i + 1)) == attr_item_notifs(t, attrs[0]) + table_notifs(
            t,
            rest.take(i),
        ));
        assert(table_notifs(t, attrs.take(i)) == attr_item_notifs(t, attrs[0]) + table_notifs(
            t,
            rest.take(i - 1),
        ));
        assert(attr_item_notifs(t, attrs[0]) + (table_notifs(t, rest.take(i - 1))
            + attr_item_notifs(t, attrs[i])) =~= (attr_item_notifs(t, attrs[0]) + table_notifs(
            t,
            rest.take(i - 1),
        )) + attr_item_notifs(t, attrs[i]));
    }
}

/// Decodes and reports one recognized attribute of the given table.
#[verifier::rlimit(60)]
#[verifier::spinoff_prover]
fn report_one_attr(t: AttrTable, key: &Vec<u8>, value: &Vec<u8>, rep: &mut Reporter)
    ensures
        final(rep)@ == old(rep)@ + table_entry_notifs(t, key@, value@),
{
    let k = key.as_slice();
    let v = value.as_slice();
    match t {
        AttrTable::Mpd => {
            if name_is(k, "id") {
                AttributeName::Id.report_str(v, rep);
            } else if name_is(k, "profiles") {
                AttributeName::Profiles.report_str(v, rep);
            } else if name_is(k, "type") {
                AttributeName::Type.report_str(v, rep);
            } else if name_is(k, "availabilityStartTime") {
                AttributeName::AvailabilityStartTime.report_str(v, rep);
            } else if name_is(k, "availabilityEndTime") {
                AttributeName::AvailabilityEndTime.report_str(v, rep);
            } else if name_is(k, "publishTime") {
                AttributeName::PublishTime.report_str(v, rep);
            } else if name_is(k, "mediaPresentationDuration") {
                AttributeName::Duration.try_report_as_iso_8601_duration(v, rep);
            } else if name_is(k, "minimumUpdatePeriod") {
                AttributeName::MinimumUpdatePeriod.try_report_as_iso_8601_duration(v, rep);
            } else if name_is(k, "minBufferTime") {
                AttributeName::MinBufferTime.try_report_as_iso_8601_duration(v, rep);
            } else if name_is(k, "timeShiftBufferDepth") {
                AttributeName::TimeShiftBufferDepth.try_report_as_iso_8601_duration(v, rep);
            } else if name_is(k, "suggestedPresentationDelay") {
                AttributeName::SuggestedPresentationDelay.try_report_as_iso_8601_duration(v, rep);
            } else if name_is(k, "maxSegmentDuration") {
                AttributeName::MaxSegmentDuration.try_report_as_iso_8601_duration(v, rep);
            } else if name_is(k, "maxSubsegmentDuration") {
                AttributeName::MaxSubsegmentDuration.try_report_as_iso_8601_duration(v, rep);
            }
        },
        AttrTable::Period => {
            if name_is(k, "id") {
                AttributeName::Id.report_str(v, rep);
            } else if name_is(k, "start") {
                AttributeName::Start.try_report_as_iso_8601_duration(v, rep);
            } else if name_is(k, "duration") {
                AttributeName::Duration.try_report_as_iso_8601_duration(v, rep);
            } else if name_is(k, "bitstreamSwitching") {
                AttributeName::BitStreamSwitching.try_report_as_bool(v, rep);
            } else if name_is(k, "xlink:href") {
                AttributeName::XLinkHref.report_str(v, rep);
            } else if name_is(k, "xlink:actuate") {
                AttributeName::XLinkActuate.report_str(v, rep);
            }
        },
        AttrTable::AdaptationSet => {
            if name_is(k, "id") {
                AttributeName::Id.report_str(v, rep);
            } else if name_is(k, "group") {
                AttributeName::Group.try_report_as_u64(v, rep);
            } else if name_is(k, "lang") {
                AttributeName::Language.report_str(v, rep);
            } else if name_is(k, "contentType") {
                AttributeName::ContentType.report_str(v, rep);
            } else if name_is(k, "par") {
                AttributeName::Par.report_str(v, rep);
            } else if name_is(k, "minBandwidth") {
                AttributeName::MinBitrate.try_report_as_u64(v, rep);
            } else if name_is(k, "maxBandwidth") {
                AttributeName::MaxBitrate.try_report_as_u64(v, rep);
            } else if name_is(k, "minWidth") {
                AttributeName::MinWidth.try_report_as_u64(v, rep);
            } else if name_is(k, "maxWidth") {
                AttributeName::MaxWidth.try_report_as_u64(v, rep);
            } else if name_is(k, "minHeight") {
                AttributeName::MinHeight.try_report_as_u64(v, rep);
            } else if name_is(k, "maxHeight") {
                AttributeName::MaxHeight.try_report_as_u64(v, rep);
            } else if name_is(k, "minFrameRate") {
                AttributeName::MinFrameRate.report_str(v, rep);
            } else if name_is(k, "maxFrameRate") {
                AttributeName::MaxFrameRate.report_str(v, rep);
            } else if name_is(k, "selectionPriority") {
                AttributeName::SelectionPriority.try_report_as_u64(v, rep);
            } else if name_is(k, "segmentAlignment") {
                AttributeName::SegmentAlignment.try_report_as_u64_or_bool(v, rep);
            } else if name_is(k, "subsegmentAlignment") {
                AttributeName::SubsegmentAlignment.try_report_as_u64_or_bool(v, rep);
            } else if name_is(k, "bitstreamSwitching") {
                AttributeName::BitStreamSwitching.try_report_as_bool(v, rep);
            } else if name_is(k, "audioSamplingRate") {
                AttributeName::AudioSamplingRate.report_str(v, rep);
            } else if name_is(k, "codecs") {
                AttributeName::Codecs.report_str(v, rep);
            } else if name_is(k, "profiles") {
                AttributeName::Profiles.report_str(v, rep);
            } else if name_is(k, "segmentProfiles") {
                AttributeName::SegmentProfiles.report_str(v, rep);
            } else if name_is(k, "mimeType") {
                AttributeName::MimeType.report_str(v, rep);
            } else if name_is(k, "codingDependency") {
                AttributeName::CodingDependency.try_report_as_bool(v, rep);
            } else if name_is(k, "frameRate") {
                AttributeName::FrameRate.report_str(v, rep);
            } else if name_is(k, "height") {
                AttributeName::Height.try_report_as_u64(v, rep);
            } else if name_is(k, "width") {
                AttributeName::Width.try_report_as_u64(v, rep);
            } else if name_is(k, "maxPlayoutRate") {
                AttributeName::MaxPlayoutRate.try_report_as_f64(v, rep);
            } else if name_is(k, "maxSAPPeriod") {
                AttributeName::MaximumSAPPeriod.try_report_as_f64(v, rep);
            }
        },
        AttrTable::Representation => {
            if name_is(k, "id") {
                AttributeName::Id.report_str(v, rep);
            } else if name_is(k, "audioSamplingRate") {
                AttributeName::AudioSamplingRate.report_str(v, rep);
            } else if name_is(k, "bandwidth") {
                AttributeName::Bitrate.try_report_as_u64(v, rep);
            } else if name_is(k, "codecs") {
                AttributeName::Codecs.report_str(v, rep);
            } else if name_is(k, "codingDependency") {
                AttributeName::CodingDependency.try_report_as_bool(v, rep);
            } else if name_is(k, "frameRate") {
                AttributeName::FrameRate.report_str(v, rep);
            } else if name_is(k, "height") {
                AttributeName::Height.try_report_as_u64(v, rep);
            } else if name_is(k, "width") {
                AttributeName::Width.try_report_as_u64(v, rep);
            } else if name_is(k, "maxPlayoutRate") {
                AttributeName::MaxPlayoutRate.try_report_as_f64(v, rep);
            } else if name_is(k, "maxSAPPeriod") {
                AttributeName::MaximumSAPPeriod.try_report_as_f64(v, rep);
            } else if name_is(k, "mimeType") {
                AttributeName::MimeType.report_str(v, rep);
            } else if name_is(k, "profiles") {
                AttributeName::Profiles.report_str(v, rep);
            } else if name_is(k, "qualityRanking") {
                AttributeName::QualityRanking.try_report_as_u64(v, rep);
            } else if name_is(k, "segmentProfiles") {
                AttributeName::SegmentProfiles.report_str(v, rep);
            }
        },
        AttrTable::BaseUrl => {
            if name_is(k, "availabilityTimeOffset") {
                if name_is(v, "INF") {
                    let bits: u64 = F64_INFINITY_BITS;
                    AttributeName::AvailabilityTimeOffset.report(&bits, rep);
                } else {
                    AttributeName::AvailabilityTimeOffset.try_report_as_u64(v, rep);
                }
            }
        },
        AttrTable::ContentComponent => {
            if name_is(k, "id") {
                AttributeName::Id.report_str(v, rep);
            } else if name_is(k, "lang") {
                AttributeName::Language.report_str(v, rep);
            } else if name_is(k, "contentType") {
                AttributeName::ContentType.report_str(v, rep);
            } else if name_is(k, "par") {
                AttributeName::Par.report_str(v, rep);
            }
        },
        AttrTable::ContentProtection => {
            if name_is(k, "schemeIdUri") {
                AttributeName::Id.report_str(v, rep);
            } else if name_is(k, "value") {
                AttributeName::Language.report_str(v, rep);
            } else if name_is(k, "cenc:default_KID") {
                AttributeName::ContentType.report_str(v, rep);
            }
        },
    }
    proof {
        assert(rep@ =~= old(rep)@ + table_entry_notifs(t, key@, value@));
    }
}

/// Walks an attribute list through the given table, reporting each
/// recognized value (or its decode failure) in lexical order.
pub fn report_table_attrs(t: AttrTable, attrs: &Vec<XmlAttr>, rep: &mut Reporter)
    ensures
        final(rep)@ == old(rep)@ + table_notifs(t, attrs@.map_values(|a: XmlAttr| a@)),
{
    let ghost av = attrs@.map_values(|a: XmlAttr| a@);
    let n = attrs.len();
    let mut i: usize = 0;
    proof {
        assert(rep@ =~= old(rep)@ + table_notifs(t, av.take(0)));
    }
    while i < n
        invariant
            i <= n == attrs@.len(),
            av == attrs@.map_values(|a: XmlAttr| a@),
            rep@ == old(rep)@ + table_notifs(t, av.take(i as int)),
        decreases n - i,
    {
        match &attrs[i] {
            XmlAttr::Pair { key, value } => {
                report_one_attr(t, key, value, rep);
            },
            XmlAttr::Bad { msg } => {
                crate::errors::ParsingError(msg.clone()).report_err(rep);
            },
        }
        proof {
            lemma_table_notifs_snoc(t, av, i as int);
            assert(av[i as int] == attrs@[i as int]@);
            assert(rep@ =~= old(rep)@ + table_notifs(t, av.take(i + 1)));
        }
        i += 1;
    }
    proof {
        assert(av.take(n as int) =~= av);
    }
}

/// Reports the recognized attributes of an `MPD` element.
pub fn report_mpd_attrs(attrs: &Vec<XmlAttr>, rep: &mut Reporter)
    ensures
        final(rep)@ == old(rep)@ + table_notifs(
            AttrTable::Mpd,
            attrs@.map_values(|a: XmlAttr| a@),
        ),
{
    report_table_attrs(AttrTable::Mpd, attrs, rep);
}

/// Reports the recognized attributes of a `Period` element.
pub fn report_period_attrs(attrs: &Vec<XmlAttr>, rep: &mut Reporter)
    ensures
        final(rep)@ == old(rep)@ + table_notifs(
            AttrTable::Period,
            attrs@.map_values(|a: XmlAttr| a@),
        ),
{
    report_table_attrs(AttrTable::Period, attrs, rep);
}

/// Reports the recognized attributes of an `AdaptationSet` element.
pub fn report_adaptation_set_attrs(attrs: &Vec<XmlAttr>, rep: &mut Reporter)
    ensures
        final(rep)@ == old(rep)@ + table_notifs(
            AttrTable::AdaptationSet,
            attrs@.map_values(|a: XmlAttr| a@),
        ),
{
    report_table_attrs(AttrTable::AdaptationSet, attrs, rep);
}

/// Reports the recognized attributes of a `Representation` element.
pub fn report_representation_attrs(attrs: &Vec<XmlAttr>, rep: &mut Reporter)
    ensures
        final(rep)@ == old(rep)@ + table_notifs(
            AttrTable::Representation,
            attrs@.map_values(|a: XmlAttr| a@),
        ),
{
    report_table_attrs(AttrTable::Representation, attrs, rep);
}

/// Reports the recognized attributes of a `BaseURL` element.
pub fn report_base_url_attrs(attrs: &Vec<XmlAttr>, rep: &mut Reporter)
    ensures
        final(rep)@ == old(rep)@ + table_notifs(
            AttrTable::BaseUrl,
            attrs@.map_values(|a: XmlAttr| a@),
        ),
{
    report_table_attrs(AttrTable::BaseUrl, attrs, rep);
}

/// Reports the recognized attributes of a `ContentComponent` element.
pub fn report_content_component_attrs(attrs: &Vec<XmlAttr>, rep: &mut Reporter)
    ensures
        final(rep)@ == old(rep)@ + table_notifs(
            AttrTable::ContentComponent,
            attrs@.map_values(|a: XmlAttr| a@),
        ),
{
    report_table_attrs(AttrTable::ContentComponent, attrs, rep);
}

/// Reports the recognized attributes of a `ContentProtection` element.
pub fn report_content_protection_attrs(attrs: &Vec<XmlAttr>, rep: &mut Reporter)
    ensures
        final(rep)@ == old(rep)@ + table_notifs(
            AttrTable::ContentProtection,
            attrs@.map_values(|a: XmlAttr| a@),
        ),
{
    report_table_attrs(AttrTable::ContentProtection, attrs, rep);
}

} // verus!
