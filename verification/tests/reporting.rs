//! Tests of the reporting channel: identifiers, wire encodings and the
//! byte source adapter.

use mpd_parser::reportable::attr_payload_bytes;
use mpd_parser::reportable::ReportableValue;
use mpd_parser::AttrVal;
use mpd_parser::AttributeName;
use mpd_parser::CustomEventType;
use mpd_parser::MPDReader;
use mpd_parser::Notification;
use mpd_parser::Reporter;
use mpd_parser::SElement;
use mpd_parser::TagName;

#[test]
fn element_identifiers_fit_one_byte() {
    assert_eq!(TagName::MPD.code(), 1);
    assert_eq!(TagName::Period.code(), 2);
    assert_eq!(TagName::Representation.code(), 7);
    assert_eq!(TagName::SegmentList.code(), 18);
    assert_eq!(AttributeName::Id.code(), 0);
    assert_eq!(AttributeName::SegmentTimeline.code(), 19);
    assert_eq!(AttributeName::Location.code(), 66);
    assert_eq!(CustomEventType::Log.code(), 0);
    assert_eq!(CustomEventType::Error.code(), 1);
}

#[test]
fn bool_payload_is_one_byte() {
    assert_eq!(attr_payload_bytes(&AttrVal::Bool(true)), vec![1u8]);
    assert_eq!(attr_payload_bytes(&AttrVal::Bool(false)), vec![0u8]);
}

#[test]
fn float_payload_is_eight_little_endian_bytes() {
    let bits = 5400.0f64.to_bits();
    assert_eq!(attr_payload_bytes(&AttrVal::F64(bits)), 5400.0f64.to_le_bytes().to_vec());
}

#[test]
fn string_payload_is_the_raw_span() {
    assert_eq!(
        attr_payload_bytes(&AttrVal::Str(b"hello".to_vec())),
        b"hello".to_vec()
    );
}

#[test]
fn timeline_payload_is_a_run_of_24_byte_records() {
    let es = vec![
        SElement { start: 10, duration: 5, repeat_count: 0 },
        SElement { start: 15, duration: 5, repeat_count: 2 },
    ];
    let bytes = attr_payload_bytes(&AttrVal::Timeline(es));
    assert_eq!(bytes.len(), 48);
    let mut expect: Vec<u8> = Vec::new();
    for (s, d, r) in [(10.0f64, 5.0f64, 0.0f64), (15.0, 5.0, 2.0)] {
        expect.extend_from_slice(&s.to_le_bytes());
        expect.extend_from_slice(&d.to_le_bytes());
        expect.extend_from_slice(&r.to_le_bytes());
    }
    assert_eq!(bytes, expect);
}

#[test]
fn reporter_keeps_notifications_in_order() {
    let mut rep = Reporter::new();
    TagName::MPD.tag_open(&mut rep);
    AttributeName::Height.report(&720.0f64.to_bits(), &mut rep);
    TagName::MPD.tag_close(&mut rep);
    let log = rep.into_log();
    assert_eq!(log.len(), 3);
    assert!(matches!(log[0], Notification::TagOpen(TagName::MPD)));
    assert!(matches!(
        log[1],
        Notification::Attribute(AttributeName::Height, AttrVal::F64(_))
    ));
    assert!(matches!(log[2], Notification::TagClose(TagName::MPD)));
}

#[test]
fn byte_source_fills_buffers_and_signals_the_end() {
    let mut src = MPDReader::new(b"abcdefgh".to_vec());
    let mut buf = vec![0u8; 3];
    assert_eq!(src.read(&mut buf), 3);
    assert_eq!(&buf, b"abc");
    assert_eq!(src.read(&mut buf), 3);
    assert_eq!(&buf, b"def");
    assert_eq!(src.read(&mut buf), 2);
    assert_eq!(&buf[..2], b"gh");
    assert_eq!(src.read(&mut buf), 0);
    assert_eq!(src.read(&mut buf), 0);
}

#[test]
fn tokenize_always_ends_with_eof() {
    let events = mpd_parser::tokenize(b"<a><b/></a>".to_vec());
    assert!(matches!(events.last().unwrap(), mpd_parser::XmlEvent::Eof));
    let events = mpd_parser::tokenize(Vec::new());
    assert!(matches!(events.last().unwrap(), mpd_parser::XmlEvent::Eof));
}
