//! Streaming decoder for DASH MPD manifests.
//!
//! The crate turns a byte buffer holding an MPD document into a flat log of
//! notifications: tag openings and closings, decoded attribute values, and
//! error diagnostics.  The XML tokenizing itself is delegated to the
//! `quick_xml` crate; everything the tokenizer's events are subjected to --
//! the grammar of recognized manifest elements, the per-element attribute
//! tables, the value codecs and the segment-timeline decoding -- is verified
//! code with explicit contracts.

use vstd::prelude::*;

pub mod bignum;
pub mod bytes_util;
pub mod errors;
pub mod events;
pub mod float_bits;
pub mod mpd_reader;
pub mod processor;
pub mod report;
pub mod reportable;
pub mod utils;
pub mod xml;

pub use errors::ParsingError;
pub use events::AttributeName;
pub use events::CustomEventType;
pub use events::TagName;
pub use mpd_reader::MPDReader;
pub use processor::MPDProcessor;
pub use processor::SElement;
pub use report::AttrVal;
pub use report::Notification;
pub use report::Reporter;
pub use reportable::ReportableValue;
pub use utils::parse_bool;
pub use utils::parse_f64;
pub use utils::parse_iso_8601_duration;
pub use utils::parse_u64;
pub use utils::parse_u64_or_bool;
pub use xml::XmlAttr;
pub use xml::XmlEvent;

verus! {

/// Turns a manifest's bytes into its lexical events: exactly the stream
/// `events_of` names, in order, ending with its single `Eof`.
pub fn tokenize(input: Vec<u8>) -> (events: Vec<XmlEvent>)
    ensures
        events@.map_values(|e: XmlEvent| e@) == xml::events_of(input@),
        events@.len() >= 1,
{
    let ghost src_bytes = input@;
    let mut s = xml::new_event_source(input);
    let ghost total = xml::events_of(src_bytes).len() as int;
    let mut events: Vec<XmlEvent> = Vec::new();
    proof {
        assert(events@.map_values(|e: XmlEvent| e@) =~= xml::events_of(src_bytes).take(0));
    }
    loop
        invariant_except_break
            events@.len() < total,
        invariant
            s@.source == src_bytes,
            s@.consumed == events@.len(),
            total == xml::events_of(src_bytes).len(),
            1 <= total,
            xml::events_of(src_bytes).last() is Eof,
            forall|i: int|
                0 <= i < total - 1 ==> !((#[trigger] xml::events_of(src_bytes)[i]) is Eof),
            events@.map_values(|e: XmlEvent| e@) == xml::events_of(src_bytes).take(
                events@.len() as int,
            ),
        ensures
            events@.map_values(|e: XmlEvent| e@) == xml::events_of(src_bytes),
        decreases total - s@.consumed,
    {
        let ghost before = events@.map_values(|e: XmlEvent| e@);
        let ev = xml::next_event(&mut s);
        let is_eof = matches!(ev, XmlEvent::Eof);
        events.push(ev);
        proof {
            let stream = xml::events_of(src_bytes);
            assert(ev@ == stream[before.len() as int]);
            assert(events@.map_values(|e: XmlEvent| e@) =~= before.push(ev@));
            assert(events@.map_values(|e: XmlEvent| e@) =~= stream.take(events@.len() as int));
            if is_eof {
                assert(events@.len() == total);
                assert(stream.take(total) =~= stream);
            }
        }
        if is_eof {
            break ;
        }
    }
    events
}

/// Decodes a whole manifest: drives the byte source through the tokenizer
/// and the tag state machine, and returns every notification the document
/// produced, in order: exactly one run of the verified state machine over
/// the event stream the input's bytes name.
pub fn parse(input: Vec<u8>) -> (log: Vec<Notification>)
    ensures
        log@.map_values(|n: Notification| n@) == processor::spec_run(
            processor::initial_state(),
            xml::events_of(input@),
        ).1,
{
    let ghost in_bytes = input@;
    let mut src = MPDReader::new(input);
    let log = process_mpd(&mut src);
    proof {
        assert(in_bytes.skip(0) =~= in_bytes);
    }
    log
}

/// Decodes a whole manifest pulled from a byte source, draining the
/// source to its end; the log is the state machine's run over the event
/// stream the remaining bytes name.
pub fn process_mpd(reader: &mut MPDReader) -> (log: Vec<Notification>)
    requires
        old(reader)@.pos <= old(reader)@.data.len(),
    ensures
        final(reader)@.pos == final(reader)@.data.len(),
        log@.map_values(|n: Notification| n@) == processor::spec_run(
            processor::initial_state(),
            xml::events_of(old(reader)@.data.skip(old(reader)@.pos as int)),
        ).1,
{
    let bytes = mpd_reader::read_all(reader);
    let events = tokenize(bytes);
    let mut p = MPDProcessor::new();
    let mut rep = Reporter::new();
    p.process_mpd_from_root(&events, &mut rep);
    proof {
        let evs = events@.map_values(|e: XmlEvent| e@);
        assert(rep@ =~= Seq::<report::NotifV>::empty() + processor::spec_run(
            processor::initial_state(),
            evs,
        ).1);
        assert(rep@ == processor::spec_run(processor::initial_state(), evs).1);
    }
    rep.into_log()
}

} // verus!
