//! End-to-end tests: whole manifests through the tokenizer and the tag
//! state machine, checked against the notification log.

use mpd_parser::parse;
use mpd_parser::AttrVal;
use mpd_parser::AttributeName;
use mpd_parser::CustomEventType;
use mpd_parser::Notification;
use mpd_parser::SElement;
use mpd_parser::TagName;

fn run(input: &str) -> Vec<Notification> {
    parse(input.as_bytes().to_vec())
}

fn errors(log: &[Notification]) -> Vec<String> {
    log.iter()
        .filter_map(|n| match n {
            Notification::Custom(CustomEventType::Error, msg) => Some(msg.clone()),
            _ => None,
        })
        .collect()
}

fn timeline(log: &[Notification]) -> Option<&Vec<SElement>> {
    log.iter().find_map(|n| match n {
        Notification::Attribute(AttributeName::SegmentTimeline, AttrVal::Timeline(es)) => Some(es),
        _ => None,
    })
}

#[test]
fn minimal_document_opens_and_closes() {
    let log = run("<MPD></MPD>");
    assert_eq!(log.len(), 2);
    assert!(matches!(log[0], Notification::TagOpen(TagName::MPD)));
    assert!(matches!(log[1], Notification::TagClose(TagName::MPD)));
}

#[test]
fn mpd_attributes_are_reported() {
    let log = run(r#"<MPD id="m1" type="static" mediaPresentationDuration="PT1H30M"></MPD>"#);
    let mut saw_id = false;
    let mut saw_type = false;
    let mut saw_duration = false;
    for n in &log {
        match n {
            Notification::Attribute(AttributeName::Id, AttrVal::Str(s)) => {
                assert_eq!(s.as_slice(), b"m1");
                saw_id = true;
            },
            Notification::Attribute(AttributeName::Type, AttrVal::Str(s)) => {
                assert_eq!(s.as_slice(), b"static");
                saw_type = true;
            },
            Notification::Attribute(AttributeName::Duration, AttrVal::F64(bits)) => {
                assert_eq!(f64::from_bits(*bits), 5400.0);
                saw_duration = true;
            },
            _ => {},
        }
    }
    assert!(saw_id && saw_type && saw_duration);
    assert!(errors(&log).is_empty());
}

#[test]
fn timeline_inheritance() {
    let log = run(
        r#"<MPD><Period><SegmentTemplate><SegmentTimeline>
             <S t="10" d="5"/><S d="5"/><S t="100" d="5"/>
           </SegmentTimeline></SegmentTemplate></Period></MPD>"#,
    );
    let es = timeline(&log).expect("timeline batch");
    let starts: Vec<u64> = es.iter().map(|e| e.start).collect();
    assert_eq!(starts, vec![10, 15, 100]);
    let durations: Vec<u64> = es.iter().map(|e| e.duration).collect();
    assert_eq!(durations, vec![5, 5, 5]);
    assert!(errors(&log).is_empty());
}

#[test]
fn new_timeline_resets_inherited_start() {
    let log = run(
        r#"<MPD><Period>
             <SegmentTemplate><SegmentTimeline><S t="1000" d="50"/></SegmentTimeline></SegmentTemplate>
             <SegmentTemplate><SegmentTimeline><S d="5"/></SegmentTimeline></SegmentTemplate>
           </Period></MPD>"#,
    );
    let batches: Vec<&Vec<SElement>> = log
        .iter()
        .filter_map(|n| match n {
            Notification::Attribute(AttributeName::SegmentTimeline, AttrVal::Timeline(es)) => {
                Some(es)
            },
            _ => None,
        })
        .collect();
    assert_eq!(batches.len(), 2);
    assert_eq!(batches[0][0].start, 1000);
    // The second timeline starts from scratch: no `t`, so it inherits 0,
    // not the previous timeline's accumulated 1050.
    assert_eq!(batches[1][0].start, 0);
}

#[test]
fn timeline_defaults_and_repeat() {
    let log = run(
        r#"<MPD><Period><SegmentTemplate><SegmentTimeline>
             <S t="7" r="3"/>
           </SegmentTimeline></SegmentTemplate></Period></MPD>"#,
    );
    let es = timeline(&log).expect("timeline batch");
    assert_eq!(es.len(), 1);
    assert_eq!(es[0].start, 7);
    assert_eq!(es[0].duration, 0);
    assert_eq!(es[0].repeat_count, 3);
}

#[test]
fn self_closing_element_opens_and_closes_once() {
    let log = run(r#"<MPD><Period><AdaptationSet><Representation id="x"/></AdaptationSet></Period></MPD>"#);
    let opens = log
        .iter()
        .filter(|n| matches!(n, Notification::TagOpen(TagName::Representation)))
        .count();
    let closes = log
        .iter()
        .filter(|n| matches!(n, Notification::TagClose(TagName::Representation)))
        .count();
    assert_eq!(opens, 1);
    assert_eq!(closes, 1);
    // Between the open and the close there are only attribute values.
    let open_at = log
        .iter()
        .position(|n| matches!(n, Notification::TagOpen(TagName::Representation)))
        .unwrap();
    let close_at = log
        .iter()
        .position(|n| matches!(n, Notification::TagClose(TagName::Representation)))
        .unwrap();
    assert!(open_at < close_at);
    for n in &log[open_at + 1..close_at] {
        assert!(matches!(n, Notification::Attribute(..)));
    }
}

#[test]
fn malformed_attribute_reports_one_error_and_spares_siblings() {
    let log = run(
        r#"<MPD><Period><AdaptationSet>
             <Representation width="abc" height="720" id="r1"/>
           </AdaptationSet></Period></MPD>"#,
    );
    assert_eq!(errors(&log).len(), 1);
    let mut saw_height = false;
    let mut saw_id = false;
    for n in &log {
        match n {
            Notification::Attribute(AttributeName::Height, AttrVal::F64(bits)) => {
                assert_eq!(f64::from_bits(*bits), 720.0);
                saw_height = true;
            },
            Notification::Attribute(AttributeName::Id, AttrVal::Str(s)) => {
                assert_eq!(s.as_slice(), b"r1");
                saw_id = true;
            },
            _ => {},
        }
    }
    assert!(saw_height && saw_id);
}

#[test]
fn truncated_input_reports_one_structural_error() {
    let log = run("<MPD><Period>");
    assert_eq!(errors(&log).len(), 1);
    assert!(errors(&log)[0].contains("Period"));
    // The parse still returned cleanly, with the MPD and Period opened.
    assert!(matches!(log[0], Notification::TagOpen(TagName::MPD)));
    assert!(matches!(log[1], Notification::TagOpen(TagName::Period)));
}

#[test]
fn unknown_elements_are_silent_and_their_subtrees_skipped() {
    let log = run(
        r#"<MPD><Period><Unknown><Representation id="x"/><AdaptationSet/></Unknown></Period></MPD>"#,
    );
    // Nothing from the unknown subtree: no Representation, no
    // AdaptationSet, no attribute, no error.
    for n in &log {
        match n {
            Notification::TagOpen(t) | Notification::TagClose(t) => {
                assert!(matches!(t, TagName::MPD | TagName::Period));
            },
            Notification::Attribute(..) => panic!("attribute from a skipped subtree"),
            Notification::Custom(..) => panic!("diagnostic from a skipped subtree"),
        }
    }
    assert_eq!(log.len(), 4);
}

#[test]
fn base_url_text_is_reported() {
    let log = run(r#"<MPD><BaseURL>http://example.com/a</BaseURL></MPD>"#);
    let mut saw_text = false;
    for n in &log {
        if let Notification::Attribute(AttributeName::Text, AttrVal::Str(s)) = n {
            assert_eq!(s.as_slice(), b"http://example.com/a");
            saw_text = true;
        }
    }
    assert!(saw_text);
    assert!(log.iter().any(|n| matches!(n, Notification::TagOpen(TagName::BaseURL))));
    assert!(log.iter().any(|n| matches!(n, Notification::TagClose(TagName::BaseURL))));
}

#[test]
fn base_url_entities_resolve() {
    let log = run(r#"<MPD><BaseURL>a&amp;b&#48;c</BaseURL></MPD>"#);
    let texts: Vec<Vec<u8>> = log
        .iter()
        .filter_map(|n| match n {
            Notification::Attribute(AttributeName::Text, AttrVal::Str(s)) => Some(s.clone()),
            _ => None,
        })
        .collect();
    let joined: Vec<u8> = texts.concat();
    assert_eq!(joined.as_slice(), b"a&b0c");
}

#[test]
fn location_text_is_reported_without_structural_events() {
    let log = run(r#"<MPD><Location>http://example.com/manifest.mpd</Location></MPD>"#);
    let mut saw = false;
    for n in &log {
        if let Notification::Attribute(AttributeName::Location, AttrVal::Str(s)) = n {
            assert_eq!(s.as_slice(), b"http://example.com/manifest.mpd");
            saw = true;
        }
    }
    assert!(saw);
}

#[test]
fn base_url_availability_time_offset_inf() {
    let log = run(r#"<MPD><BaseURL availabilityTimeOffset="INF"></BaseURL></MPD>"#);
    let mut saw = false;
    for n in &log {
        if let Notification::Attribute(AttributeName::AvailabilityTimeOffset, AttrVal::F64(bits)) =
            n
        {
            assert_eq!(f64::from_bits(*bits), f64::INFINITY);
            saw = true;
        }
    }
    assert!(saw);
}

#[test]
fn content_protection_leaf_reports_its_table() {
    let log = run(
        r#"<MPD><Period><AdaptationSet>
             <ContentProtection schemeIdUri="urn:uuid:1234" value="cenc"/>
           </AdaptationSet></Period></MPD>"#,
    );
    assert!(log.iter().any(|n| matches!(n, Notification::TagOpen(TagName::ContentProtection))));
    assert!(log.iter().any(|n| matches!(n, Notification::TagClose(TagName::ContentProtection))));
    let mut saw_scheme = false;
    for n in &log {
        if let Notification::Attribute(AttributeName::Id, AttrVal::Str(s)) = n {
            if s.as_slice() == b"urn:uuid:1234" {
                saw_scheme = true;
            }
        }
    }
    assert!(saw_scheme);
}

#[test]
fn max_subsegment_duration_keeps_its_own_identifier() {
    let log = run(r#"<MPD maxSegmentDuration="PT1S" maxSubsegmentDuration="PT2S"></MPD>"#);
    let mut seg = None;
    let mut subseg = None;
    for n in &log {
        match n {
            Notification::Attribute(AttributeName::MaxSegmentDuration, AttrVal::F64(bits)) => {
                seg = Some(f64::from_bits(*bits));
            },
            Notification::Attribute(AttributeName::MaxSubsegmentDuration, AttrVal::F64(bits)) => {
                subseg = Some(f64::from_bits(*bits));
            },
            _ => {},
        }
    }
    assert_eq!(seg, Some(1.0));
    assert_eq!(subseg, Some(2.0));
}

#[test]
fn utc_timing_leaf_opens_and_closes_without_attributes() {
    let log = run(r#"<MPD><UTCTiming schemeIdUri="urn:x" value="y"/></MPD>"#);
    let opens = log
        .iter()
        .filter(|n| matches!(n, Notification::TagOpen(TagName::UtcTiming)))
        .count();
    let closes = log
        .iter()
        .filter(|n| matches!(n, Notification::TagClose(TagName::UtcTiming)))
        .count();
    assert_eq!(opens, 1);
    assert_eq!(closes, 1);
    assert!(!log.iter().any(|n| matches!(n, Notification::Attribute(..))));

    // The opening form's subtree is skipped.
    let log = run(r#"<MPD><UTCTiming><Period id="p"/></UTCTiming><Period id="q"></Period></MPD>"#);
    let period_opens = log
        .iter()
        .filter(|n| matches!(n, Notification::TagOpen(TagName::Period)))
        .count();
    assert_eq!(period_opens, 1);
}

#[test]
fn self_closing_location_does_not_swallow_siblings() {
    let log = run(r#"<MPD><Location/><Period id="p"></Period></MPD>"#);
    assert!(log.iter().any(|n| matches!(n, Notification::TagOpen(TagName::Period))));
    assert!(log.iter().any(|n| matches!(n, Notification::TagClose(TagName::MPD))));
    assert!(errors(&log).is_empty());
}

#[test]
fn self_closing_timeline_reports_an_empty_batch_and_spares_siblings() {
    let log = run(
        r#"<MPD><Period><SegmentTemplate><SegmentTimeline/><SegmentTimeline><S t="1" d="2"/></SegmentTimeline></SegmentTemplate></Period></MPD>"#,
    );
    let batches: Vec<&Vec<SElement>> = log
        .iter()
        .filter_map(|n| match n {
            Notification::Attribute(AttributeName::SegmentTimeline, AttrVal::Timeline(es)) => {
                Some(es)
            },
            _ => None,
        })
        .collect();
    assert_eq!(batches.len(), 2);
    assert!(batches[0].is_empty());
    assert_eq!(batches[1][0].start, 1);
    assert!(errors(&log).is_empty());
}

#[test]
fn process_mpd_drains_a_byte_source() {
    let mut src = mpd_parser::MPDReader::new(b"<MPD></MPD>".to_vec());
    let log = mpd_parser::process_mpd(&mut src);
    assert_eq!(log.len(), 2);
    assert!(matches!(log[0], Notification::TagOpen(TagName::MPD)));
    assert!(matches!(log[1], Notification::TagClose(TagName::MPD)));
}

#[test]
fn empty_input_is_a_clean_parse() {
    let log = run("");
    assert!(log.is_empty());
}

#[test]
fn tri_state_alignment_attribute() {
    let log = run(r#"<MPD><Period><AdaptationSet segmentAlignment="true" subsegmentAlignment="7"/></Period></MPD>"#);
    let mut seg = None;
    let mut subseg = None;
    for n in &log {
        match n {
            Notification::Attribute(AttributeName::SegmentAlignment, AttrVal::F64(bits)) => {
                seg = Some(f64::from_bits(*bits));
            },
            Notification::Attribute(AttributeName::SubsegmentAlignment, AttrVal::F64(bits)) => {
                subseg = Some(f64::from_bits(*bits));
            },
            _ => {},
        }
    }
    assert_eq!(seg, Some(f64::INFINITY));
    assert_eq!(subseg, Some(7.0));
}
