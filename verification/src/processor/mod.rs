//! The tag state machine: the driver that walks the tokenizer's event
//! stream, tracks which manifest element is open, applies the per-element
//! attribute tables, and delegates runs of `<S>` children to the
//! segment-timeline decoder.

use vstd::prelude::*;

pub mod attributes;

use crate::bytes_util::lit;
use crate::bytes_util::name_is;
use crate::errors::ParsingError;
use crate::events::str_attr_notif;
use crate::events::AttributeName;
use crate::events::TagName;
use crate::report::error_notif;
use crate::report::AttrValV;
use crate::report::NotifV;
use crate::report::Reporter;
use crate::utils::invalid_integer_msg;
use crate::utils::parse_u64;
use crate::utils::spec_parse_u64;
use crate::xml::XmlAttr;
use crate::xml::XmlAttrV;
use crate::xml::XmlEvent;
use crate::xml::XmlEventV;

verus! {

/// One decoded `<S>` entry of a segment timeline: start, duration and
/// repeat count as non-negative integers.  The wire encoding widens each
/// field to a 64-bit float when the batch is reported.
#[derive(Debug, Clone, Copy, PartialEq, Eq, Structural)]
pub struct SElement {
    pub start: u64,
    pub duration: u64,
    pub repeat_count: u64,
}

/// One open parse context.  The bottom of the stack is the document root;
/// the current context decides which child element names are recognized
/// and what happens to everything else.
#[derive(Debug, Clone, Copy, PartialEq, Eq, Structural)]
pub enum Ctx {
    InMPD,
    InPeriod,
    InAdaptationSet,
    InRepresentation,
    InSegmentTemplate,
    /// Inside a `SegmentTimeline`, carrying the running end timestamp of
    /// the previous `<S>` entry.
    InSegmentTimeline { prev_base: u64 },
    InBaseURL,
    InLocation,
    /// Inside an element the enclosing context does not recognize: its
    /// whole subtree is skipped without notifications.
    Skipped,
}

/// Specification state of the tag state machine: the open contexts (root
/// at the bottom), the timeline entries accumulated so far, and whether
/// the parse has terminated.
pub struct ProcState {
    pub stack: Seq<Ctx>,
    pub entries: Seq<SElement>,
    pub done: bool,
}

/// Diagnostic reported when the input ends while the given context is
/// still open.
pub open spec fn eof_msg(c: Ctx) -> Seq<char> {
    match c {
        Ctx::InMPD => "Unexpected end of file in a MPD."@,
        Ctx::InPeriod => "Unexpected end of file in a Period."@,
        Ctx::InAdaptationSet => "Unexpected end of file in an AdaptationSet."@,
        Ctx::InRepresentation => "Unexpected end of file in a Representation."@,
        Ctx::InSegmentTemplate => "Unexpected end of file in a SegmentTemplate."@,
        Ctx::InSegmentTimeline { .. } => "Unexpected end of file in a SegmentTimeline."@,
        Ctx::InBaseURL => "Unexpected end of file in a BaseURL."@,
        Ctx::InLocation => "Unexpected end of file in a Location tag."@,
        Ctx::Skipped => "Unexpected end of file in an unrecognized element."@,
    }
}

/// Emits the end-of-input diagnostic for a context.
fn report_eof_in(c: Ctx, rep: &mut Reporter)
    ensures
        final(rep)@ == old(rep)@.push(error_notif(eof_msg(c))),
{
    let e = match c {
        Ctx::InMPD => ParsingError::new("Unexpected end of file in a MPD."),
        Ctx::InPeriod => ParsingError::new("Unexpected end of file in a Period."),
        Ctx::InAdaptationSet => ParsingError::new("Unexpected end of file in an AdaptationSet."),
        Ctx::InRepresentation => ParsingError::new("Unexpected end of file in a Representation."),
        Ctx::InSegmentTemplate => ParsingError::new("Unexpected end of file in a SegmentTemplate."),
        Ctx::InSegmentTimeline { .. } => ParsingError::new(
            "Unexpected end of file in a SegmentTimeline.",
        ),
        Ctx::InBaseURL => ParsingError::new("Unexpected end of file in a BaseURL."),
        Ctx::InLocation => ParsingError::new("Unexpected end of file in a Location tag."),
        Ctx::Skipped => ParsingError::new("Unexpected end of file in an unrecognized element."),
    };
    e.report_err(rep);
}

/// Diagnostic for a general reference naming no known entity.
pub open spec fn unknown_entity_msg() -> Seq<char> {
    "Unrecognized entity reference"@
}

/// UTF-8 encoding of a code point (assumed valid).
pub open spec fn utf8_enc(cp: nat) -> Seq<u8> {
    if cp < 0x80 {
        seq![cp as u8]
    } else if cp < 0x800 {
        seq![(0xc0 + cp / 64) as u8, (0x80 + cp % 64) as u8]
    } else if cp < 0x10000 {
        seq![(0xe0 + cp / 4096) as u8, (0x80 + (cp / 64) % 64) as u8, (0x80 + cp % 64) as u8]
    } else {
        seq![
            (0xf0 + cp / 262144) as u8,
            (0x80 + (cp / 4096) % 64) as u8,
            (0x80 + (cp / 64) % 64) as u8,
            (0x80 + cp % 64) as u8,
        ]
    }
}

/// Whether a code point may appear in character data (non-zero, inside
/// the Unicode range, not a surrogate).
pub open spec fn valid_char_ref(cp: nat) -> bool {
    cp != 0 && cp <= 0x10ffff && !(0xd800 <= cp < 0xe000)
}

/// The value of a hexadecimal digit string.
pub open spec fn hex_val(s: Seq<u8>) -> int
    decreases s.len(),
{
    if s.len() == 0 {
        0
    } else {
        hex_val(s.drop_last()) * 16 + hex_digit(s.last())
    }
}

/// The value a single hexadecimal digit denotes (-1 for a non-digit).
pub open spec fn hex_digit(b: u8) -> int {
    if 48 <= b <= 57 {
        b - 48
    } else if 65 <= b <= 70 {
        b - 55
    } else if 97 <= b <= 102 {
        b - 87
    } else {
        -1
    }
}

/// Whether every byte is a hexadecimal digit.
pub open spec fn all_hex_digits(s: Seq<u8>) -> bool {
    forall|i: int| 0 <= i < s.len() ==> hex_digit(#[trigger] s[i]) >= 0
}

/// A hex string's value is non-negative and below `16^length`.
proof fn lemma_hex_val_bound(s: Seq<u8>)
    requires
        all_hex_digits(s),
    ensures
        0 <= hex_val(s),
        hex_val(s) < vstd::arithmetic::power2::pow2(4 * s.len()),
    decreases s.len(),
{
    vstd::arithmetic::power2::lemma2_to64();
    if s.len() > 0 {
        let d = s.drop_last();
        assert(all_hex_digits(d)) by {
            assert(forall|i: int| 0 <= i < d.len() ==> d[i] == #[trigger] s[i]);
        }
        lemma_hex_val_bound(d);
        vstd::arithmetic::power2::lemma_pow2_adds(4 * d.len(), 4);
        assert(hex_val(d) * 16 + 15 < vstd::arithmetic::power2::pow2(4 * s.len()))
            by (nonlinear_arith)
            requires
                0 <= hex_val(d),
                hex_val(d) < vstd::arithmetic::power2::pow2(4 * d.len()),
                vstd::arithmetic::power2::pow2(4 * s.len()) == 16 * vstd::arithmetic::power2::pow2(
                    4 * d.len(),
                ),
        ;
        assert(hex_digit(s.last()) <= 15);
    }
}

/// What a general reference resolves to: the five predefined entities,
/// or a decimal / hexadecimal character reference encoding a valid code
/// point.
pub open spec fn spec_resolve_ref(name: Seq<u8>) -> Option<Seq<u8>> {
    if name == lit("amp") {
        Some(seq![38u8])
    } else if name == lit("lt") {
        Some(seq![60u8])
    } else if name == lit("gt") {
        Some(seq![62u8])
    } else if name == lit("apos") {
        Some(seq![39u8])
    } else if name == lit("quot") {
        Some(seq![34u8])
    } else if name.len() >= 2 && name[0] == 35 {
        if name[1] == 120 {
            let digits = name.skip(2);
            if digits.len() >= 1 && digits.len() <= 6 && all_hex_digits(digits) && valid_char_ref(
                hex_val(digits) as nat,
            ) {
                Some(utf8_enc(hex_val(digits) as nat))
            } else {
                None
            }
        } else {
            let digits = name.skip(1);
            match spec_parse_u64(digits) {
                Some(n) => if valid_char_ref(n as nat) {
                    Some(utf8_enc(n as nat))
                } else {
                    None
                },
                None => None,
            }
        }
    } else {
        None
    }
}

/// Encodes a valid code point as UTF-8.
fn utf8_encode(cp: u32) -> (out: Vec<u8>)
    requires
        cp <= 0x10ffff,
    ensures
        out@ == utf8_enc(cp as nat),
{
    let mut out: Vec<u8> = Vec::new();
    if cp < 0x80 {
        out.push(cp as u8);
        proof {
            assert(out@ =~= utf8_enc(cp as nat));
        }
    } else if cp < 0x800 {
        out.push((0xc0 + cp / 64) as u8);
        out.push((0x80 + cp % 64) as u8);
        proof {
            assert(out@ =~= utf8_enc(cp as nat));
        }
    } else if cp < 0x10000 {
        out.push((0xe0 + cp / 4096) as u8);
        out.push((0x80 + (cp / 64) % 64) as u8);
        out.push((0x80 + cp % 64) as u8);
        proof {
            assert(out@ =~= utf8_enc(cp as nat));
        }
    } else {
        out.push((0xf0 + cp / 262144) as u8);
        out.push((0x80 + (cp / 4096) % 64) as u8);
        out.push((0x80 + (cp / 64) % 64) as u8);
        out.push((0x80 + cp % 64) as u8);
        proof {
            assert(out@ =~= utf8_enc(cp as nat));
        }
    }
    out
}

/// Resolves a general reference to the bytes it stands for.
fn resolve_ref(name: &[u8]) -> (r: Option<Vec<u8>>)
    ensures
        match r {
            Some(bytes) => spec_resolve_ref(name@) == Some(bytes@),
            None => spec_resolve_ref(name@) is None,
        },
{
    if name_is(name, "amp") {
        let mut v: Vec<u8> = Vec::new();
        v.push(38);
        proof {
            assert(v@ =~= seq![38u8]);
        }
        Some(v)
    } else if name_is(name, "lt") {
        let mut v: Vec<u8> = Vec::new();
        v.push(60);
        proof {
            assert(v@ =~= seq![60u8]);
        }
        Some(v)
    } else if name_is(name, "gt") {
        let mut v: Vec<u8> = Vec::new();
        v.push(62);
        proof {
            assert(v@ =~= seq![62u8]);
        }
        Some(v)
    } else if name_is(name, "apos") {
        let mut v: Vec<u8> = Vec::new();
        v.push(39);
        proof {
            assert(v@ =~= seq![39u8]);
        }
        Some(v)
    } else if name_is(name, "quot") {
        let mut v: Vec<u8> = Vec::new();
        v.push(34);
        proof {
            assert(v@ =~= seq![34u8]);
        }
        Some(v)
    } else if name.len() >= 2 && name[0] == 35 {
        if name[1] == 120 {
            let digits = vstd::slice::slice_subrange(name, 2, name.len());
            proof {
                assert(digits@ =~= name@.skip(2));
            }
            if digits.len() < 1 || digits.len() > 6 {
                return None;
            }
            let mut cp: u32 = 0;
            let m = digits.len();
            let mut i: usize = 0;
            proof {
                assert(digits@.take(0) =~= Seq::<u8>::empty());
            }
            while i < m
                invariant
                    i <= m,
                    m == digits@.len(),
                    1 <= m <= 6,
                    name@.len() >= 2,
                    name@[0] == 35,
                    name@[1] == 120,
                    digits@ == name@.skip(2),
                    name@ != lit("amp"),
                    name@ != lit("lt"),
                    name@ != lit("gt"),
                    name@ != lit("apos"),
                    name@ != lit("quot"),
                    all_hex_digits(digits@.take(i as int)),
                    cp == hex_val(digits@.take(i as int)),
                    cp < 0x1000000,
                decreases m - i,
            {
                let b = digits[i];
                let d: u32 = if 48 <= b && b <= 57 {
                    (b - 48) as u32
                } else if 65 <= b && b <= 70 {
                    (b - 55) as u32
                } else if 97 <= b && b <= 102 {
                    (b - 87) as u32
                } else {
                    proof {
                        assert(!all_hex_digits(digits@));
                    }
                    return None;
                };
                proof {
                    let nx = digits@.take(i + 1);
                    assert(nx.drop_last() =~= digits@.take(i as int));
                    assert(nx.last() == digits@[i as int]);
                    lemma_hex_val_bound(nx);
                    if 4 * nx.len() < 24 {
                        vstd::arithmetic::power2::lemma_pow2_strictly_increases(
                            4 * nx.len(),
                            24,
                        );
                    }
                    vstd::arithmetic::power2::lemma2_to64();
                }
                cp = cp * 16 + d;
                i += 1;
            }
            proof {
                assert(digits@.take(m as int) =~= digits@);
            }
            if cp == 0 || cp > 0x10ffff || (0xd800 <= cp && cp < 0xe000) {
                return None;
            }
            Some(utf8_encode(cp))
        } else {
            let digits = vstd::slice::slice_subrange(name, 1, name.len());
            proof {
                assert(digits@ =~= name@.skip(1));
            }
            match parse_u64(digits) {
                Err(_) => None,
                Ok(n) => {
                    if n == 0 || n > 0x10ffff || (0xd800 <= n && n < 0xe000) {
                        None
                    } else {
                        Some(utf8_encode(n as u32))
                    }
                },
            }
        }
    } else {
        None
    }
}

/// Walks the attributes of an `<S>` element from the front, accumulating
/// the entry's fields.  A malformed attribute item contributes one error
/// notification and decoding continues; a value that fails the integer
/// codec aborts the whole element, dropping the items after it.
pub open spec fn s_attrs_fold(attrs: Seq<XmlAttrV>, cur: SElement, has_t: bool) -> (Result<
    (SElement, bool),
    Seq<char>,
>, Seq<NotifV>)
    decreases attrs.len(),
{
    if attrs.len() == 0 {
        (Ok((cur, has_t)), Seq::empty())
    } else {
        match attrs[0] {
            XmlAttrV::Bad { msg } => {
                let (r, ns) = s_attrs_fold(attrs.skip(1), cur, has_t);
                (r, seq![error_notif(msg)] + ns)
            },
            XmlAttrV::Pair { key, value } => {
                if key == lit("t") {
                    match spec_parse_u64(value) {
                        None => (Err(invalid_integer_msg()), Seq::empty()),
                        Some(n) => s_attrs_fold(
                            attrs.skip(1),
                            SElement { start: n, duration: cur.duration, repeat_count: cur.repeat_count },
                            true,
                        ),
                    }
                } else if key == lit("d") {
                    match spec_parse_u64(value) {
                        None => (Err(invalid_integer_msg()), Seq::empty()),
                        Some(n) => s_attrs_fold(
                            attrs.skip(1),
                            SElement { start: cur.start, duration: n, repeat_count: cur.repeat_count },
                            has_t,
                        ),
                    }
                } else if key == lit("r") {
                    match spec_parse_u64(value) {
                        None => (Err(invalid_integer_msg()), Seq::empty()),
                        Some(n) => s_attrs_fold(
                            attrs.skip(1),
                            SElement { start: cur.start, duration: cur.duration, repeat_count: n },
                            has_t,
                        ),
                    }
                } else {
                    s_attrs_fold(attrs.skip(1), cur, has_t)
                }
            },
        }
    }
}

/// What decoding one `<S>` element yields: the entry (with the start
/// inherited from `previous_s_base` where no `t` attribute was present),
/// or the decode failure; and the error notifications its malformed
/// attribute items produced on the way.
pub open spec fn spec_s_element(attrs: Seq<XmlAttrV>, previous_s_base: u64) -> (Result<
    SElement,
    Seq<char>,
>, Seq<NotifV>) {
    let (r, ns) = s_attrs_fold(
        attrs,
        SElement { start: 0, duration: 0, repeat_count: 0 },
        false,
    );
    match r {
        Err(m) => (Err(m), ns),
        Ok((e, has_t)) => (
            Ok(
                if has_t {
                    e
                } else {
                    SElement { start: previous_s_base, duration: e.duration, repeat_count: e.repeat_count }
                },
            ),
            ns,
        ),
    }
}

impl SElement {
    /// Decodes one `<S>` element from its attribute list.
    pub fn from_xml(attrs: &Vec<XmlAttr>, previous_s_base: u64, rep: &mut Reporter) -> (r: Result<
        SElement,
        ParsingError,
    >)
        ensures
            ({
                let (sr, ns) = spec_s_element(attrs@.map_values(|a: XmlAttr| a@), previous_s_base);
                &&& final(rep)@ == old(rep)@ + ns
                &&& match r {
                    Ok(e) => sr == Ok::<SElement, Seq<char>>(e),
                    Err(pe) => sr is Err && sr == Err::<SElement, Seq<char>>(pe@),
                }
            }),
    {
        let ghost av = attrs@.map_values(|a: XmlAttr| a@);
        let mut cur = SElement { start: 0, duration: 0, repeat_count: 0 };
        let mut has_t = false;
        let n = attrs.len();
        let mut i: usize = 0;
        let ghost mut emitted: Seq<NotifV> = Seq::empty();
        proof {
            assert(av.skip(0) =~= av);
            assert(old(rep)@ + emitted =~= old(rep)@);
        }
        while i < n
            invariant
                i <= n == av.len(),
                av == attrs@.map_values(|a: XmlAttr| a@),
                rep@ == old(rep)@ + emitted,
                ({
                    let full = s_attrs_fold(
                        av,
                        SElement { start: 0, duration: 0, repeat_count: 0 },
                        false,
                    );
                    let rest = s_attrs_fold(av.skip(i as int), cur, has_t);
                    full.0 == rest.0 && full.1 == emitted + rest.1
                }),
            decreases n - i,
        {
            proof {
                assert(av.skip(i as int)[0] == av[i as int]);
                assert(av.skip(i as int).skip(1) =~= av.skip(i + 1));
                assert(av[i as int] == attrs@[i as int]@);
            }
            match &attrs[i] {
                XmlAttr::Bad { msg } => {
                    ParsingError(msg.clone()).report_err(rep);
                    proof {
                        let rest0 = s_attrs_fold(av.skip(i as int), cur, has_t);
                        let rest1 = s_attrs_fold(av.skip(i + 1), cur, has_t);
                        assert(rest0.1 == seq![error_notif(msg@)] + rest1.1);
                        emitted = emitted + seq![error_notif(msg@)];
                        assert(rep@ =~= old(rep)@ + emitted);
                        assert(emitted + (seq![error_notif(msg@)] + rest1.1) =~= (emitted + seq![
                            error_notif(msg@),
                        ]) + rest1.1);
                    }
                },
                XmlAttr::Pair { key, value } => {
                    if name_is(key.as_slice(), "t") {
                        match parse_u64(value.as_slice()) {
                            Ok(v) => {
                                cur = SElement {
                                    start: v,
                                    duration: cur.duration,
                                    repeat_count: cur.repeat_count,
                                };
                                has_t = true;
                            },
                            Err(e) => {
                                return Err(e);
                            },
                        }
                    } else if name_is(key.as_slice(), "d") {
                        match parse_u64(value.as_slice()) {
                            Ok(v) => {
                                cur = SElement {
                                    start: cur.start,
                                    duration: v,
                                    repeat_count: cur.repeat_count,
                                };
                            },
                            Err(e) => {
                                return Err(e);
                            },
                        }
                    } else if name_is(key.as_slice(), "r") {
                        match parse_u64(value.as_slice()) {
                            Ok(v) => {
                                cur = SElement {
                                    start: cur.start,
                                    duration: cur.duration,
                                    repeat_count: v,
                                };
                            },
                            Err(e) => {
                                return Err(e);
                            },
                        }
                    }
                    proof {
                        let rest1 = s_attrs_fold(av.skip(i + 1), cur, has_t);
                        assert(emitted + (Seq::<NotifV>::empty() + rest1.1) =~= emitted + rest1.1);
                    }
                },
            }
            i += 1;
        }
        proof {
            assert(av.skip(n as int) =~= Seq::<XmlAttrV>::empty());
        }
        if has_t {
            Ok(cur)
        } else {
            Ok(
                SElement {
                    start: previous_s_base,
                    duration: cur.duration,
                    repeat_count: cur.repeat_count,
                },
            )
        }
    }
}

/// `st` with one more context opened.
pub open spec fn st_push(st: ProcState, c: Ctx) -> ProcState {
    ProcState { stack: st.stack.push(c), entries: st.entries, done: st.done }
}

/// `st` with the innermost context closed.
pub open spec fn st_pop(st: ProcState) -> ProcState {
    ProcState { stack: st.stack.drop_last(), entries: st.entries, done: st.done }
}

/// Notifications of a recognized opening tag: the structural open, then
/// its attribute table.
pub open spec fn open_notifs(tag: TagName, t: attributes::AttrTable, attrs: Seq<XmlAttrV>) -> Seq<
    NotifV,
> {
    seq![NotifV::TagOpen(tag)] + attributes::table_notifs(t, attrs)
}

/// Notifications of a recognized self-closing tag: open, attribute table,
/// close, with no difference to the opening form but the close.
pub open spec fn empty_notifs(tag: TagName, t: attributes::AttrTable, attrs: Seq<XmlAttrV>) -> Seq<
    NotifV,
> {
    seq![NotifV::TagOpen(tag)] + attributes::table_notifs(t, attrs) + seq![NotifV::TagClose(tag)]
}

/// Dispatch at the document root: only `MPD` is recognized.
pub open spec fn spec_root_step(st: ProcState, ev: XmlEventV) -> (ProcState, Seq<NotifV>) {
    match ev {
        XmlEventV::Open { name, attrs } => if name == lit("MPD") {
            (st_push(st, Ctx::InMPD), open_notifs(TagName::MPD, attributes::AttrTable::Mpd, attrs))
        } else {
            (st_push(st, Ctx::Skipped), Seq::empty())
        },
        XmlEventV::Empty { name, attrs } => if name == lit("MPD") {
            (st, empty_notifs(TagName::MPD, attributes::AttrTable::Mpd, attrs))
        } else {
            (st, Seq::empty())
        },
        XmlEventV::Close { name } => if name == lit("MPD") {
            (st, seq![NotifV::TagClose(TagName::MPD)])
        } else {
            (st, Seq::empty())
        },
        _ => (st, Seq::empty()),
    }
}

/// Dispatch inside `MPD`: `BaseURL`, `Location` and `Period` are
/// recognized children; `UTCTiming` is a self-contained leaf whose open
/// and close are forwarded but whose attributes are intentionally not
/// decoded; everything else is skipped.
pub open spec fn spec_mpd_step(st: ProcState, ev: XmlEventV) -> (ProcState, Seq<NotifV>) {
    match ev {
        XmlEventV::Open { name, attrs } => if name == lit("BaseURL") {
            (
                st_push(st, Ctx::InBaseURL),
                open_notifs(TagName::BaseURL, attributes::AttrTable::BaseUrl, attrs),
            )
        } else if name == lit("Location") {
            (st_push(st, Ctx::InLocation), Seq::empty())
        } else if name == lit("Period") {
            (
                st_push(st, Ctx::InPeriod),
                open_notifs(TagName::Period, attributes::AttrTable::Period, attrs),
            )
        } else if name == lit("UTCTiming") {
            (
                st_push(st, Ctx::Skipped),
                seq![NotifV::TagOpen(TagName::UtcTiming), NotifV::TagClose(TagName::UtcTiming)],
            )
        } else {
            (st_push(st, Ctx::Skipped), Seq::empty())
        },
        XmlEventV::Empty { name, attrs } => if name == lit("BaseURL") {
            (st, empty_notifs(TagName::BaseURL, attributes::AttrTable::BaseUrl, attrs))
        } else if name == lit("Period") {
            (st, empty_notifs(TagName::Period, attributes::AttrTable::Period, attrs))
        } else if name == lit("UTCTiming") {
            (
                st,
                seq![NotifV::TagOpen(TagName::UtcTiming), NotifV::TagClose(TagName::UtcTiming)],
            )
        } else {
            (st, Seq::empty())
        },
        XmlEventV::Close { name } => if name == lit("MPD") {
            (st_pop(st), seq![NotifV::TagClose(TagName::MPD)])
        } else {
            (st, Seq::empty())
        },
        _ => (st, Seq::empty()),
    }
}

/// Dispatch inside `Period`.
pub open spec fn spec_period_step(st: ProcState, ev: XmlEventV) -> (ProcState, Seq<NotifV>) {
    match ev {
        XmlEventV::Open { name, attrs } => if name == lit("BaseURL") {
            (
                st_push(st, Ctx::InBaseURL),
                open_notifs(TagName::BaseURL, attributes::AttrTable::BaseUrl, attrs),
            )
        } else if name == lit("AdaptationSet") {
            (
                st_push(st, Ctx::InAdaptationSet),
                open_notifs(TagName::AdaptationSet, attributes::AttrTable::AdaptationSet, attrs),
            )
        } else if name == lit("SegmentTemplate") {
            (st_push(st, Ctx::InSegmentTemplate), seq![NotifV::TagOpen(TagName::SegmentTemplate)])
        } else {
            (st_push(st, Ctx::Skipped), Seq::empty())
        },
        XmlEventV::Empty { name, attrs } => if name == lit("AdaptationSet") {
            (st, empty_notifs(TagName::AdaptationSet, attributes::AttrTable::AdaptationSet, attrs))
        } else if name == lit("BaseURL") {
            (st, empty_notifs(TagName::BaseURL, attributes::AttrTable::BaseUrl, attrs))
        } else if name == lit("SegmentTemplate") {
            (
                st,
                seq![
                    NotifV::TagOpen(TagName::SegmentTemplate),
                    NotifV::TagClose(TagName::SegmentTemplate),
                ],
            )
        } else {
            (st, Seq::empty())
        },
        XmlEventV::Close { name } => if name == lit("Period") {
            (st_pop(st), seq![NotifV::TagClose(TagName::Period)])
        } else {
            (st, Seq::empty())
        },
        _ => (st, Seq::empty()),
    }
}

/// Dispatch inside `AdaptationSet`.  `ContentComponent` and
/// `ContentProtection` are self-contained leaves: their attribute table is
/// applied and the element closes immediately; the opening form's subtree
/// is skipped.
pub open spec fn spec_adaptation_set_step(st: ProcState, ev: XmlEventV) -> (ProcState, Seq<
    NotifV,
>) {
    match ev {
        XmlEventV::Open { name, attrs } => if name == lit("BaseURL") {
            (
                st_push(st, Ctx::InBaseURL),
                open_notifs(TagName::BaseURL, attributes::AttrTable::BaseUrl, attrs),
            )
        } else if name == lit("Representation") {
            (
                st_push(st, Ctx::InRepresentation),
                open_notifs(TagName::Representation, attributes::AttrTable::Representation, attrs),
            )
        } else if name == lit("SegmentTemplate") {
            (st_push(st, Ctx::InSegmentTemplate), seq![NotifV::TagOpen(TagName::SegmentTemplate)])
        } else if name == lit("ContentComponent") {
            (
                st_push(st, Ctx::Skipped),
                empty_notifs(
                    TagName::ContentComponent,
                    attributes::AttrTable::ContentComponent,
                    attrs,
                ),
            )
        } else if name == lit("ContentProtection") {
            (
                st_push(st, Ctx::Skipped),
                empty_notifs(
                    TagName::ContentProtection,
                    attributes::AttrTable::ContentProtection,
                    attrs,
                ),
            )
        } else {
            (st_push(st, Ctx::Skipped), Seq::empty())
        },
        XmlEventV::Empty { name, attrs } => if name == lit("BaseURL") {
            (st, empty_notifs(TagName::BaseURL, attributes::AttrTable::BaseUrl, attrs))
        } else if name == lit("Representation") {
            (st, empty_notifs(TagName::Representation, attributes::AttrTable::Representation, attrs))
        } else if name == lit("SegmentTemplate") {
            (
                st,
                seq![
                    NotifV::TagOpen(TagName::SegmentTemplate),
                    NotifV::TagClose(TagName::SegmentTemplate),
                ],
            )
        } else if name == lit("ContentComponent") {
            (
                st,
                empty_notifs(
                    TagName::ContentComponent,
                    attributes::AttrTable::ContentComponent,
                    attrs,
                ),
            )
        } else if name == lit("ContentProtection") {
            (
                st,
                empty_notifs(
                    TagName::ContentProtection,
                    attributes::AttrTable::ContentProtection,
                    attrs,
                ),
            )
        } else {
            (st, Seq::empty())
        },
        XmlEventV::Close { name } => if name == lit("AdaptationSet") {
            (st_pop(st), seq![NotifV::TagClose(TagName::AdaptationSet)])
        } else {
            (st, Seq::empty())
        },
        _ => (st, Seq::empty()),
    }
}

/// Dispatch inside `Representation`.
pub open spec fn spec_representation_step(st: ProcState, ev: XmlEventV) -> (ProcState, Seq<
    NotifV,
>) {
    match ev {
        XmlEventV::Open { name, attrs } => if name == lit("BaseURL") {
            (
                st_push(st, Ctx::InBaseURL),
                open_notifs(TagName::BaseURL, attributes::AttrTable::BaseUrl, attrs),
            )
        } else if name == lit("SegmentTemplate") {
            (st_push(st, Ctx::InSegmentTemplate), seq![NotifV::TagOpen(TagName::SegmentTemplate)])
        } else {
            (st_push(st, Ctx::Skipped), Seq::empty())
        },
        XmlEventV::Empty { name, attrs } => if name == lit("BaseURL") {
            (st, empty_notifs(TagName::BaseURL, attributes::AttrTable::BaseUrl, attrs))
        } else if name == lit("SegmentTemplate") {
            (
                st,
                seq![
                    NotifV::TagOpen(TagName::SegmentTemplate),
                    NotifV::TagClose(TagName::SegmentTemplate),
                ],
            )
        } else {
            (st, Seq::empty())
        },
        XmlEventV::Close { name } => if name == lit("Representation") {
            (st_pop(st), seq![NotifV::TagClose(TagName::Representation)])
        } else {
            (st, Seq::empty())
        },
        _ => (st, Seq::empty()),
    }
}

/// Dispatch inside `SegmentTemplate`: only `SegmentTimeline` is
/// recognized; entering it resets the inherited start to zero and clears
/// the entry buffer, and its self-closing form reports an empty batch
/// without entering the context.
pub open spec fn spec_segment_template_step(st: ProcState, ev: XmlEventV) -> (ProcState, Seq<
    NotifV,
>) {
    match ev {
        XmlEventV::Open { name, attrs } => if name == lit("SegmentTimeline") {
            (
                ProcState {
                    stack: st.stack.push(Ctx::InSegmentTimeline { prev_base: 0 }),
                    entries: Seq::empty(),
                    done: st.done,
                },
                Seq::empty(),
            )
        } else {
            (st_push(st, Ctx::Skipped), Seq::empty())
        },
        XmlEventV::Empty { name, attrs } => if name == lit("SegmentTimeline") {
            (
                st,
                seq![
                    NotifV::Attribute(
                        AttributeName::SegmentTimeline,
                        AttrValV::Timeline(Seq::empty()),
                    ),
                ],
            )
        } else {
            (st, Seq::empty())
        },
        XmlEventV::Close { name } => if name == lit("SegmentTemplate") {
            (st_pop(st), seq![NotifV::TagClose(TagName::SegmentTemplate)])
        } else {
            (st, Seq::empty())
        },
        _ => (st, Seq::empty()),
    }
}

/// `a + b`, clamped to the 64-bit range.
pub open spec fn sat_add(a: u64, b: u64) -> u64 {
    if a + b > u64::MAX {
        u64::MAX
    } else {
        (a + b) as u64
    }
}

/// One `<S>` child: decode it, append the entry and move the running base
/// to the entry's end, or report the decode failure and keep the state.
pub open spec fn spec_s_child(st: ProcState, attrs: Seq<XmlAttrV>, pb: u64) -> (ProcState, Seq<
    NotifV,
>) {
    let (r, ns) = spec_s_element(attrs, pb);
    match r {
        Err(m) => (st, ns + seq![error_notif(m)]),
        Ok(e) => (
            ProcState {
                stack: st.stack.drop_last().push(
                    Ctx::InSegmentTimeline { prev_base: sat_add(e.start, e.duration) },
                ),
                entries: st.entries.push(e),
                done: st.done,
            },
            ns,
        ),
    }
}

/// Dispatch inside `SegmentTimeline`: a run of `<S>` children, closed by
/// reporting the whole batch as one value and clearing the buffer.
pub open spec fn spec_segment_timeline_step(st: ProcState, ev: XmlEventV, pb: u64) -> (ProcState, Seq<
    NotifV,
>) {
    match ev {
        XmlEventV::Open { name, attrs } => if name == lit("S") {
            spec_s_child(st, attrs, pb)
        } else {
            (st_push(st, Ctx::Skipped), Seq::empty())
        },
        XmlEventV::Empty { name, attrs } => if name == lit("S") {
            spec_s_child(st, attrs, pb)
        } else {
            (st, Seq::empty())
        },
        XmlEventV::Close { name } => if name == lit("SegmentTimeline") {
            (
                ProcState { stack: st.stack.drop_last(), entries: Seq::empty(), done: st.done },
                seq![
                    NotifV::Attribute(
                        AttributeName::SegmentTimeline,
                        AttrValV::Timeline(st.entries),
                    ),
                ],
            )
        } else {
            (st, Seq::empty())
        },
        _ => (st, Seq::empty()),
    }
}

/// Dispatch inside `BaseURL`: its text (references resolved) is reported
/// under the text-value identifier; the close emits the structural close.
pub open spec fn spec_base_url_step(st: ProcState, ev: XmlEventV) -> (ProcState, Seq<NotifV>) {
    match ev {
        XmlEventV::Text { text } => if text.len() > 0 {
            (st, seq![str_attr_notif(AttributeName::Text, text)])
        } else {
            (st, Seq::empty())
        },
        XmlEventV::Reference { name } => match spec_resolve_ref(name) {
            Some(b) => (st, seq![str_attr_notif(AttributeName::Text, b)]),
            None => (st, seq![error_notif(unknown_entity_msg())]),
        },
        XmlEventV::Close { name } => if name == lit("BaseURL") {
            (st_pop(st), seq![NotifV::TagClose(TagName::BaseURL)])
        } else {
            (st, Seq::empty())
        },
        XmlEventV::Open { .. } => (st_push(st, Ctx::Skipped), Seq::empty()),
        _ => (st, Seq::empty()),
    }
}

/// Dispatch inside `Location`: like `BaseURL`, but the text is reported
/// under the location identifier and the element itself produces no
/// structural notifications.
pub open spec fn spec_location_step(st: ProcState, ev: XmlEventV) -> (ProcState, Seq<NotifV>) {
    match ev {
        XmlEventV::Text { text } => if text.len() > 0 {
            (st, seq![str_attr_notif(AttributeName::Location, text)])
        } else {
            (st, Seq::empty())
        },
        XmlEventV::Reference { name } => match spec_resolve_ref(name) {
            Some(b) => (st, seq![str_attr_notif(AttributeName::Location, b)]),
            None => (st, seq![error_notif(unknown_entity_msg())]),
        },
        XmlEventV::Close { name } => if name == lit("Location") {
            (st_pop(st), Seq::empty())
        } else {
            (st, Seq::empty())
        },
        XmlEventV::Open { .. } => (st_push(st, Ctx::Skipped), Seq::empty()),
        _ => (st, Seq::empty()),
    }
}

/// Dispatch inside an unrecognized element: nothing is reported, nesting
/// is tracked so the whole subtree is skipped.
pub open spec fn spec_skipped_step(st: ProcState, ev: XmlEventV) -> (ProcState, Seq<NotifV>) {
    match ev {
        XmlEventV::Open { .. } => (st_push(st, Ctx::Skipped), Seq::empty()),
        XmlEventV::Close { .. } => (st_pop(st), Seq::empty()),
        _ => (st, Seq::empty()),
    }
}

/// One step of the tag state machine: the next state and the
/// notifications the event produces.
pub open spec fn spec_step(st: ProcState, ev: XmlEventV) -> (ProcState, Seq<NotifV>) {
    if st.done {
        (st, Seq::empty())
    } else {
        match ev {
            XmlEventV::TokError { msg } => (st, seq![error_notif(msg)]),
            XmlEventV::Other => (st, Seq::empty()),
            XmlEventV::Eof => if st.stack.len() == 0 {
                (ProcState { stack: st.stack, entries: st.entries, done: true }, Seq::empty())
            } else {
                (
                    ProcState { stack: Seq::empty(), entries: Seq::empty(), done: true },
                    seq![error_notif(eof_msg(st.stack.last()))],
                )
            },
            _ => if st.stack.len() == 0 {
                spec_root_step(st, ev)
            } else {
                match st.stack.last() {
                    Ctx::InMPD => spec_mpd_step(st, ev),
                    Ctx::InPeriod => spec_period_step(st, ev),
                    Ctx::InAdaptationSet => spec_adaptation_set_step(st, ev),
                    Ctx::InRepresentation => spec_representation_step(st, ev),
                    Ctx::InSegmentTemplate => spec_segment_template_step(st, ev),
                    Ctx::InSegmentTimeline { prev_base } => spec_segment_timeline_step(
                        st,
                        ev,
                        prev_base,
                    ),
                    Ctx::InBaseURL => spec_base_url_step(st, ev),
                    Ctx::InLocation => spec_location_step(st, ev),
                    Ctx::Skipped => spec_skipped_step(st, ev),
                }
            },
        }
    }
}

/// The run of the machine over a whole event sequence.
pub open spec fn spec_run(st: ProcState, evs: Seq<XmlEventV>) -> (ProcState, Seq<NotifV>)
    decreases evs.len(),
{
    if evs.len() == 0 {
        (st, Seq::empty())
    } else {
        let stepped = spec_step(st, evs[0]);
        let rest = spec_run(stepped.0, evs.skip(1));
        (rest.0, stepped.1 + rest.1)
    }
}

/// Running one more event extends the run by one step.
pub proof fn lemma_run_snoc(st: ProcState, evs: Seq<XmlEventV>, i: int)
    requires
        0 <= i < evs.len(),
    ensures
        ({
            let prefix = spec_run(st, evs.take(i));
            let stepped = spec_step(prefix.0, evs[i]);
            spec_run(st, evs.take(i + 1)) == (stepped.0, prefix.1 + stepped.1)
        }),
    decreases i + 1,
{
    if i == 0 {
        let t1 = evs.take(1);
        assert(t1[0] == evs[0]);
        assert(t1.skip(1) =~= Seq::<XmlEventV>::empty());
        assert(evs.take(0) =~= Seq::<XmlEventV>::empty());
        let stepped = spec_step(st, evs[0]);
        assert(spec_run(stepped.0, t1.skip(1)) == (stepped.0, Seq::<NotifV>::empty()));
        assert(spec_run(st, t1) == (stepped.0, stepped.1 + Seq::<NotifV>::empty()));
        assert(stepped.1 + Seq::<NotifV>::empty() =~= stepped.1);
        assert(Seq::<NotifV>::empty() + stepped.1 =~= stepped.1);
    } else {
        let stepped0 = spec_step(st, evs[0]);
        let rest = evs.skip(1);
        lemma_run_snoc(stepped0.0, rest, i - 1);
        assert(evs.take(i + 1)[0] == evs[0]);
        assert(evs.take(i + 1).skip(1) =~= rest.take(i));
        assert(evs.take(i).skip(1) =~= rest.take(i - 1));
        assert(evs.take(i)[0] == evs[0]);
        assert(rest[i - 1] == evs[i]);
        let prefix_r = spec_run(stepped0.0, rest.take(i - 1));
        let stepped_i = spec_step(prefix_r.0, evs[i]);
        assert(spec_run(st, evs.take(i + 1)) == (
            spec_run(stepped0.0, rest.take(i)).0,
            stepped0.1 + spec_run(stepped0.0, rest.take(i)).1,
        ));
        assert(spec_run(st, evs.take(i)) == (prefix_r.0, stepped0.1 + prefix_r.1));
        assert(stepped0.1 + (prefix_r.1 + stepped_i.1) =~= (stepped0.1 + prefix_r.1)
            + stepped_i.1);
    }
}

/// The running base of a timeline context (zero for any other context).
pub open spec fn tl_prev_base(c: Ctx) -> u64 {
    match c {
        Ctx::InSegmentTimeline { prev_base } => prev_base,
        _ => 0,
    }
}

/// The state a fresh processor starts in.
pub open spec fn initial_state() -> ProcState {
    ProcState { stack: Seq::empty(), entries: Seq::empty(), done: false }
}

/// The tag state machine.  It consumes owned lexical events one at a
/// time, tracks the open contexts on an explicit stack, and emits every
/// notification through the reporting channel it is handed.
pub struct MPDProcessor {
    stack: Vec<Ctx>,
    ss_buf: Vec<SElement>,
    done: bool,
}

impl View for MPDProcessor {
    type V = ProcState;

    closed spec fn view(&self) -> ProcState {
        ProcState { stack: self.stack@, entries: self.ss_buf@, done: self.done }
    }
}

impl MPDProcessor {
    /// A processor at the document root with an empty timeline buffer.
    pub fn new() -> (p: MPDProcessor)
        ensures
            p@ == initial_state(),
    {
        let p = MPDProcessor { stack: Vec::new(), ss_buf: Vec::new(), done: false };
        proof {
            assert(p@.stack =~= initial_state().stack);
            assert(p@.entries =~= initial_state().entries);
        }
        p
    }

    /// Handles one event at the document root.
    fn process_root(&mut self, ev: &XmlEvent, rep: &mut Reporter)
        requires
            !old(self)@.done,
            old(self)@.stack.len() == 0,
        ensures
            ({
                let r = spec_root_step(old(self)@, ev@);
                final(self)@ == r.0 && final(rep)@ == old(rep)@ + r.1
            }),
    {
        match ev {
            XmlEvent::Open { name, attrs } => {
                if name_is(name.as_slice(), "MPD") {
                    TagName::MPD.tag_open(rep);
                    attributes::report_mpd_attrs(attrs, rep);
                    self.stack.push(Ctx::InMPD);
                } else {
                    self.stack.push(Ctx::Skipped);
                }
            },
            XmlEvent::Empty { name, attrs } => {
                if name_is(name.as_slice(), "MPD") {
                    TagName::MPD.tag_open(rep);
                    attributes::report_mpd_attrs(attrs, rep);
                    TagName::MPD.tag_close(rep);
                }
            },
            XmlEvent::Close { name } => {
                if name_is(name.as_slice(), "MPD") {
                    TagName::MPD.tag_close(rep);
                }
            },
            _ => {},
        }
        proof {
            let r = spec_root_step(old(self)@, ev@);
            assert(rep@ =~= old(rep)@ + r.1);
        }
    }

    /// Handles one event inside `MPD`.
    fn process_mpd_inner(&mut self, ev: &XmlEvent, rep: &mut Reporter)
        requires
            !old(self)@.done,
            old(self)@.stack.len() > 0,
            old(self)@.stack.last() == Ctx::InMPD,
        ensures
            ({
                let r = spec_mpd_step(old(self)@, ev@);
                final(self)@ == r.0 && final(rep)@ == old(rep)@ + r.1
            }),
    {
        match ev {
            XmlEvent::Open { name, attrs } => {
                if name_is(name.as_slice(), "BaseURL") {
                    TagName::BaseURL.tag_open(rep);
                    attributes::report_base_url_attrs(attrs, rep);
                    self.stack.push(Ctx::InBaseURL);
                } else if name_is(name.as_slice(), "Location") {
                    self.stack.push(Ctx::InLocation);
                } else if name_is(name.as_slice(), "Period") {
                    TagName::Period.tag_open(rep);
                    attributes::report_period_attrs(attrs, rep);
                    self.stack.push(Ctx::InPeriod);
                } else if name_is(name.as_slice(), "UTCTiming") {
                    TagName::UtcTiming.tag_open(rep);
                    TagName::UtcTiming.tag_close(rep);
                    self.stack.push(Ctx::Skipped);
                } else {
                    self.stack.push(Ctx::Skipped);
                }
            },
            XmlEvent::Empty { name, attrs } => {
                if name_is(name.as_slice(), "BaseURL") {
                    TagName::BaseURL.tag_open(rep);
                    attributes::report_base_url_attrs(attrs, rep);
                    TagName::BaseURL.tag_close(rep);
                } else if name_is(name.as_slice(), "Period") {
                    TagName::Period.tag_open(rep);
                    attributes::report_period_attrs(attrs, rep);
                    TagName::Period.tag_close(rep);
                } else if name_is(name.as_slice(), "UTCTiming") {
                    TagName::UtcTiming.tag_open(rep);
                    TagName::UtcTiming.tag_close(rep);
                }
            },
            XmlEvent::Close { name } => {
                if name_is(name.as_slice(), "MPD") {
                    TagName::MPD.tag_close(rep);
                    let _ = self.stack.pop();
                }
            },
            _ => {},
        }
        proof {
            let r = spec_mpd_step(old(self)@, ev@);
            assert(rep@ =~= old(rep)@ + r.1);
        }
    }

    /// Handles one event inside `Period`.
    fn process_period_children(&mut self, ev: &XmlEvent, rep: &mut Reporter)
        requires
            !old(self)@.done,
            old(self)@.stack.len() > 0,
            old(self)@.stack.last() == Ctx::InPeriod,
        ensures
            ({
                let r = spec_period_step(old(self)@, ev@);
                final(self)@ == r.0 && final(rep)@ == old(rep)@ + r.1
            }),
    {
        match ev {
            XmlEvent::Open { name, attrs } => {
                if name_is(name.as_slice(), "BaseURL") {
                    TagName::BaseURL.tag_open(rep);
                    attributes::report_base_url_attrs(attrs, rep);
                    self.stack.push(Ctx::InBaseURL);
                } else if name_is(name.as_slice(), "AdaptationSet") {
                    TagName::AdaptationSet.tag_open(rep);
                    attributes::report_adaptation_set_attrs(attrs, rep);
                    self.stack.push(Ctx::InAdaptationSet);
                } else if name_is(name.as_slice(), "SegmentTemplate") {
                    TagName::SegmentTemplate.tag_open(rep);
                    self.stack.push(Ctx::InSegmentTemplate);
                } else {
                    self.stack.push(Ctx::Skipped);
                }
            },
            XmlEvent::Empty { name, attrs } => {
                if name_is(name.as_slice(), "AdaptationSet") {
                    TagName::AdaptationSet.tag_open(rep);
                    attributes::report_adaptation_set_attrs(attrs, rep);
                    TagName::AdaptationSet.tag_close(rep);
                } else if name_is(name.as_slice(), "BaseURL") {
                    TagName::BaseURL.tag_open(rep);
                    attributes::report_base_url_attrs(attrs, rep);
                    TagName::BaseURL.tag_close(rep);
                } else if name_is(name.as_slice(), "SegmentTemplate") {
                    TagName::SegmentTemplate.tag_open(rep);
                    TagName::SegmentTemplate.tag_close(rep);
                }
            },
            XmlEvent::Close { name } => {
                if name_is(name.as_slice(), "Period") {
                    TagName::Period.tag_close(rep);
                    let _ = self.stack.pop();
                }
            },
            _ => {},
        }
        proof {
            let r = spec_period_step(old(self)@, ev@);
            assert(rep@ =~= old(rep)@ + r.1);
        }
    }

    /// Handles one event inside `AdaptationSet`.
    fn process_adaptation_set_children(&mut self, ev: &XmlEvent, rep: &mut Reporter)
        requires
            !old(self)@.done,
            old(self)@.stack.len() > 0,
            old(self)@.stack.last() == Ctx::InAdaptationSet,
        ensures
            ({
                let r = spec_adaptation_set_step(old(self)@, ev@);
                final(self)@ == r.0 && final(rep)@ == old(rep)@ + r.1
            }),
    {
        match ev {
            XmlEvent::Open { name, attrs } => {
                if name_is(name.as_slice(), "BaseURL") {
                    TagName::BaseURL.tag_open(rep);
                    attributes::report_base_url_attrs(attrs, rep);
                    self.stack.push(Ctx::InBaseURL);
                } else if name_is(name.as_slice(), "Representation") {
                    TagName::Representation.tag_open(rep);
                    attributes::report_representation_attrs(attrs, rep);
                    self.stack.push(Ctx::InRepresentation);
                } else if name_is(name.as_slice(), "SegmentTemplate") {
                    TagName::SegmentTemplate.tag_open(rep);
                    self.stack.push(Ctx::InSegmentTemplate);
                } else if name_is(name.as_slice(), "ContentComponent") {
                    TagName::ContentComponent.tag_open(rep);
                    attributes::report_content_component_attrs(attrs, rep);
                    TagName::ContentComponent.tag_close(rep);
                    self.stack.push(Ctx::Skipped);
                } else if name_is(name.as_slice(), "ContentProtection") {
                    TagName::ContentProtection.tag_open(rep);
                    attributes::report_content_protection_attrs(attrs, rep);
                    TagName::ContentProtection.tag_close(rep);
                    self.stack.push(Ctx::Skipped);
                } else {
                    self.stack.push(Ctx::Skipped);
                }
            },
            XmlEvent::Empty { name, attrs } => {
                if name_is(name.as_slice(), "BaseURL") {
                    TagName::BaseURL.tag_open(rep);
                    attributes::report_base_url_attrs(attrs, rep);
                    TagName::BaseURL.tag_close(rep);
                } else if name_is(name.as_slice(), "Representation") {
                    TagName::Representation.tag_open(rep);
                    attributes::report_representation_attrs(attrs, rep);
                    TagName::Representation.tag_close(rep);
                } else if name_is(name.as_slice(), "SegmentTemplate") {
                    TagName::SegmentTemplate.tag_open(rep);
                    TagName::SegmentTemplate.tag_close(rep);
                } else if name_is(name.as_slice(), "ContentComponent") {
                    TagName::ContentComponent.tag_open(rep);
                    attributes::report_content_component_attrs(attrs, rep);
                    TagName::ContentComponent.tag_close(rep);
                } else if name_is(name.as_slice(), "ContentProtection") {
                    TagName::ContentProtection.tag_open(rep);
                    attributes::report_content_protection_attrs(attrs, rep);
                    TagName::ContentProtection.tag_close(rep);
                }
            },
            XmlEvent::Close { name } => {
                if name_is(name.as_slice(), "AdaptationSet") {
                    TagName::AdaptationSet.tag_close(rep);
                    let _ = self.stack.pop();
                }
            },
            _ => {},
        }
        proof {
            let r = spec_adaptation_set_step(old(self)@, ev@);
            assert(rep@ =~= old(rep)@ + r.1);
        }
    }

    /// Handles one event inside `Representation`.
    fn process_representation_children(&mut self, ev: &XmlEvent, rep: &mut Reporter)
        requires
            !old(self)@.done,
            old(self)@.stack.len() > 0,
            old(self)@.stack.last() == Ctx::InRepresentation,
        ensures
            ({
                let r = spec_representation_step(old(self)@, ev@);
                final(self)@ == r.0 && final(rep)@ == old(rep)@ + r.1
            }),
    {
        match ev {
            XmlEvent::Open { name, attrs } => {
                if name_is(name.as_slice(), "BaseURL") {
                    TagName::BaseURL.tag_open(rep);
                    attributes::report_base_url_attrs(attrs, rep);
                    self.stack.push(Ctx::InBaseURL);
                } else if name_is(name.as_slice(), "SegmentTemplate") {
                    TagName::SegmentTemplate.tag_open(rep);
                    self.stack.push(Ctx::InSegmentTemplate);
                } else {
                    self.stack.push(Ctx::Skipped);
                }
            },
            XmlEvent::Empty { name, attrs } => {
                if name_is(name.as_slice(), "BaseURL") {
                    TagName::BaseURL.tag_open(rep);
                    attributes::report_base_url_attrs(attrs, rep);
                    TagName::BaseURL.tag_close(rep);
                } else if name_is(name.as_slice(), "SegmentTemplate") {
                    TagName::SegmentTemplate.tag_open(rep);
                    TagName::SegmentTemplate.tag_close(rep);
                }
            },
            XmlEvent::Close { name } => {
                if name_is(name.as_slice(), "Representation") {
                    TagName::Representation.tag_close(rep);
                    let _ = self.stack.pop();
                }
            },
            _ => {},
        }
        proof {
            let r = spec_representation_step(old(self)@, ev@);
            assert(rep@ =~= old(rep)@ + r.1);
        }
    }

    /// Handles one event inside `SegmentTemplate`.
    fn process_segment_template_children(&mut self, ev: &XmlEvent, rep: &mut Reporter)
        requires
            !old(self)@.done,
            old(self)@.stack.len() > 0,
            old(self)@.stack.last() == Ctx::InSegmentTemplate,
        ensures
            ({
                let r = spec_segment_template_step(old(self)@, ev@);
                final(self)@ == r.0 && final(rep)@ == old(rep)@ + r.1
            }),
    {
        match ev {
            XmlEvent::Open { name, attrs: _ } => {
                if name_is(name.as_slice(), "SegmentTimeline") {
                    self.stack.push(Ctx::InSegmentTimeline { prev_base: 0 });
                    self.ss_buf.clear();
                } else {
                    self.stack.push(Ctx::Skipped);
                }
            },
            XmlEvent::Empty { name, attrs: _ } => {
                if name_is(name.as_slice(), "SegmentTimeline") {
                    let no_entries: Vec<SElement> = Vec::new();
                    AttributeName::SegmentTimeline.report(&no_entries, rep);
                }
            },
            XmlEvent::Close { name } => {
                if name_is(name.as_slice(), "SegmentTemplate") {
                    TagName::SegmentTemplate.tag_close(rep);
                    let _ = self.stack.pop();
                }
            },
            _ => {},
        }
        proof {
            let r = spec_segment_template_step(old(self)@, ev@);
            assert(rep@ =~= old(rep)@ + r.1);
        }
    }

    /// Decodes one `<S>` child of the current timeline.
    fn handle_s_element(&mut self, attrs: &Vec<XmlAttr>, rep: &mut Reporter)
        requires
            old(self)@.stack.len() > 0,
            old(self)@.stack.last() is InSegmentTimeline,
        ensures
            ({
                let r = spec_s_child(
                    old(self)@,
                    attrs@.map_values(|a: XmlAttr| a@),
                    tl_prev_base(old(self)@.stack.last()),
                );
                final(self)@ == r.0 && final(rep)@ == old(rep)@ + r.1
            }),
    {
        let idx = self.stack.len() - 1;
        let top = self.stack[idx];
        let pb: u64 = match top {
            Ctx::InSegmentTimeline { prev_base } => prev_base,
            _ => 0,
        };
        match SElement::from_xml(attrs, pb, rep) {
            Ok(e) => {
                let nb: u64 = match e.start.checked_add(e.duration) {
                    Some(s) => s,
                    None => u64::MAX,
                };
                let _ = self.stack.pop();
                self.stack.push(Ctx::InSegmentTimeline { prev_base: nb });
                self.ss_buf.push(e);
            },
            Err(err) => {
                err.report_err(rep);
                proof {
                    let r = spec_s_child(
                        old(self)@,
                        attrs@.map_values(|a: XmlAttr| a@),
                        tl_prev_base(old(self)@.stack.last()),
                    );
                    assert(rep@ =~= old(rep)@ + r.1);
                }
            },
        }
    }

    /// Handles one event inside `SegmentTimeline`.
    fn process_segment_timeline(&mut self, ev: &XmlEvent, rep: &mut Reporter)
        requires
            !old(self)@.done,
            old(self)@.stack.len() > 0,
            old(self)@.stack.last() is InSegmentTimeline,
        ensures
            ({
                let r = spec_segment_timeline_step(
                    old(self)@,
                    ev@,
                    tl_prev_base(old(self)@.stack.last()),
                );
                final(self)@ == r.0 && final(rep)@ == old(rep)@ + r.1
            }),
    {
        match ev {
            XmlEvent::Open { name, attrs } => {
                if name_is(name.as_slice(), "S") {
                    self.handle_s_element(attrs, rep);
                } else {
                    self.stack.push(Ctx::Skipped);
                }
            },
            XmlEvent::Empty { name, attrs } => {
                if name_is(name.as_slice(), "S") {
                    self.handle_s_element(attrs, rep);
                }
            },
            XmlEvent::Close { name } => {
                if name_is(name.as_slice(), "SegmentTimeline") {
                    AttributeName::SegmentTimeline.report(&self.ss_buf, rep);
                    self.ss_buf.clear();
                    let _ = self.stack.pop();
                }
            },
            _ => {},
        }
        proof {
            let r = spec_segment_timeline_step(
                old(self)@,
                ev@,
                tl_prev_base(old(self)@.stack.last()),
            );
            assert(rep@ =~= old(rep)@ + r.1);
        }
    }

    /// Handles one event inside `BaseURL`.
    fn process_base_url(&mut self, ev: &XmlEvent, rep: &mut Reporter)
        requires
            !old(self)@.done,
            old(self)@.stack.len() > 0,
            old(self)@.stack.last() == Ctx::InBaseURL,
        ensures
            ({
                let r = spec_base_url_step(old(self)@, ev@);
                final(self)@ == r.0 && final(rep)@ == old(rep)@ + r.1
            }),
    {
        match ev {
            XmlEvent::Text { text } => {
                if text.len() > 0 {
                    AttributeName::Text.report_str(text.as_slice(), rep);
                }
            },
            XmlEvent::Reference { name } => {
                match resolve_ref(name.as_slice()) {
                    Some(b) => {
                        AttributeName::Text.report(&b, rep);
                    },
                    None => {
                        ParsingError::new("Unrecognized entity reference").report_err(rep);
                    },
                }
            },
            XmlEvent::Close { name } => {
                if name_is(name.as_slice(), "BaseURL") {
                    TagName::BaseURL.tag_close(rep);
                    let _ = self.stack.pop();
                }
            },
            XmlEvent::Open { .. } => {
                self.stack.push(Ctx::Skipped);
            },
            _ => {},
        }
        proof {
            let r = spec_base_url_step(old(self)@, ev@);
            assert(rep@ =~= old(rep)@ + r.1);
        }
    }

    /// Handles one event inside `Location`.
    fn process_location_tag(&mut self, ev: &XmlEvent, rep: &mut Reporter)
        requires
            !old(self)@.done,
            old(self)@.stack.len() > 0,
            old(self)@.stack.last() == Ctx::InLocation,
        ensures
            ({
                let r = spec_location_step(old(self)@, ev@);
                final(self)@ == r.0 && final(rep)@ == old(rep)@ + r.1
            }),
    {
        match ev {
            XmlEvent::Text { text } => {
                if text.len() > 0 {
                    AttributeName::Location.report_str(text.as_slice(), rep);
                }
            },
            XmlEvent::Reference { name } => {
                match resolve_ref(name.as_slice()) {
                    Some(b) => {
                        AttributeName::Location.report(&b, rep);
                    },
                    None => {
                        ParsingError::new("Unrecognized entity reference").report_err(rep);
                    },
                }
            },
            XmlEvent::Close { name } => {
                if name_is(name.as_slice(), "Location") {
                    let _ = self.stack.pop();
                }
            },
            XmlEvent::Open { .. } => {
                self.stack.push(Ctx::Skipped);
            },
            _ => {},
        }
        proof {
            let r = spec_location_step(old(self)@, ev@);
            assert(rep@ =~= old(rep)@ + r.1);
        }
    }

    /// Handles one event inside an unrecognized element.
    fn process_skipped_children(&mut self, ev: &XmlEvent, rep: &mut Reporter)
        requires
            !old(self)@.done,
            old(self)@.stack.len() > 0,
            old(self)@.stack.last() == Ctx::Skipped,
        ensures
            ({
                let r = spec_skipped_step(old(self)@, ev@);
                final(self)@ == r.0 && final(rep)@ == old(rep)@ + r.1
            }),
    {
        match ev {
            XmlEvent::Open { .. } => {
                self.stack.push(Ctx::Skipped);
            },
            XmlEvent::Close { .. } => {
                let _ = self.stack.pop();
            },
            _ => {},
        }
        proof {
            let r = spec_skipped_step(old(self)@, ev@);
            assert(rep@ =~= old(rep)@ + r.1);
        }
    }

    /// Feeds one lexical event to the machine.
    pub fn step(&mut self, ev: &XmlEvent, rep: &mut Reporter)
        ensures
            ({
                let r = spec_step(old(self)@, ev@);
                final(self)@ == r.0 && final(rep)@ == old(rep)@ + r.1
            }),
    {
        if self.done {
            return ;
        }
        match ev {
            XmlEvent::TokError { msg } => {
                ParsingError(msg.clone()).report_err(rep);
            },
            XmlEvent::Other => {},
            XmlEvent::Eof => {
                if self.stack.len() == 0 {
                    self.done = true;
                } else {
                    let top = self.stack[self.stack.len() - 1];
                    report_eof_in(top, rep);
                    self.stack.clear();
                    self.ss_buf.clear();
                    self.done = true;
                }
            },
            _ => {
                if self.stack.len() == 0 {
                    self.process_root(ev, rep);
                } else {
                    let top = self.stack[self.stack.len() - 1];
                    match top {
                        Ctx::InMPD => self.process_mpd_inner(ev, rep),
                        Ctx::InPeriod => self.process_period_children(ev, rep),
                        Ctx::InAdaptationSet => self.process_adaptation_set_children(ev, rep),
                        Ctx::InRepresentation => self.process_representation_children(ev, rep),
                        Ctx::InSegmentTemplate => self.process_segment_template_children(ev, rep),
                        Ctx::InSegmentTimeline { .. } => self.process_segment_timeline(ev, rep),
                        Ctx::InBaseURL => self.process_base_url(ev, rep),
                        Ctx::InLocation => self.process_location_tag(ev, rep),
                        Ctx::Skipped => self.process_skipped_children(ev, rep),
                    }
                }
            },
        }
        proof {
            let r = spec_step(old(self)@, ev@);
            assert(rep@ =~= old(rep)@ + r.1);
        }
    }

    /// Drives the machine over a whole event sequence, from the document
    /// root to its end.
    pub fn process_mpd_from_root(&mut self, events: &Vec<XmlEvent>, rep: &mut Reporter)
        ensures
            ({
                let r = spec_run(old(self)@, events@.map_values(|e: XmlEvent| e@));
                final(self)@ == r.0 && final(rep)@ == old(rep)@ + r.1
            }),
    {
        let ghost evs = events@.map_values(|e: XmlEvent| e@);
        let n = events.len();
        let mut i: usize = 0;
        let ghost mut emitted: Seq<NotifV> = Seq::empty();
        proof {
            assert(evs.take(0) =~= Seq::<XmlEventV>::empty());
            assert(old(rep)@ + emitted =~= old(rep)@);
        }
        while i < n
            invariant
                i <= n == events@.len(),
                evs == events@.map_values(|e: XmlEvent| e@),
                rep@ == old(rep)@ + emitted,
                ({
                    let r = spec_run(old(self)@, evs.take(i as int));
                    self@ == r.0 && emitted == r.1
                }),
            decreases n - i,
        {
            let ghost pre = self@;
            self.step(&events[i], rep);
            proof {
                lemma_run_snoc(old(self)@, evs, i as int);
                assert(evs[i as int] == events@[i as int]@);
                let stepped = spec_step(pre, evs[i as int]);
                emitted = emitted + stepped.1;
                assert(rep@ =~= old(rep)@ + emitted);
            }
            i += 1;
        }
        proof {
            assert(evs.take(n as int) =~= evs);
        }
    }
}

/// Law: entering a `SegmentTimeline` resets the inherited start to zero
/// and empties the entry buffer, whatever state any earlier timeline's
/// decoding left behind.  (The self-closing form never enters the
/// context: it reports an empty batch and leaves the state alone.)
pub proof fn lemma_timeline_reset(st: ProcState, ev: XmlEventV)
    requires
        !st.done,
        st.stack.len() > 0,
        st.stack.last() == Ctx::InSegmentTemplate,
        match ev {
            XmlEventV::Open { name, .. } => name == lit("SegmentTimeline"),
            _ => false,
        },
    ensures
        spec_step(st, ev).0.stack.len() > 0,
        spec_step(st, ev).0.stack.last() == (Ctx::InSegmentTimeline { prev_base: 0 }),
        spec_step(st, ev).0.entries == Seq::<SElement>::empty(),
{
}

/// Where no `t` attribute occurs, decoding an `<S>` element never raises
/// the inherited-start flag.
proof fn lemma_no_t_keeps_flag(attrs: Seq<XmlAttrV>, cur: SElement)
    requires
        forall|k: int|
            0 <= k < attrs.len() ==> match #[trigger] attrs[k] {
                XmlAttrV::Pair { key, .. } => key != lit("t"),
                _ => true,
            },
    ensures
        match s_attrs_fold(attrs, cur, false).0 {
            Ok((_, has_t)) => !has_t,
            Err(_) => true,
        },
    decreases attrs.len(),
{
    if attrs.len() > 0 {
        let rest = attrs.skip(1);
        assert(forall|k: int| 0 <= k < rest.len() ==> rest[k] == #[trigger] attrs[k + 1]);
        match attrs[0] {
            XmlAttrV::Bad { .. } => {
                lemma_no_t_keeps_flag(rest, cur);
            },
            XmlAttrV::Pair { key, value } => {
                if key == lit("d") {
                    match spec_parse_u64(value) {
                        Some(n) => lemma_no_t_keeps_flag(
                            rest,
                            SElement {
                                start: cur.start,
                                duration: n,
                                repeat_count: cur.repeat_count,
                            },
                        ),
                        None => {},
                    }
                } else if key == lit("r") {
                    match spec_parse_u64(value) {
                        Some(n) => lemma_no_t_keeps_flag(
                            rest,
                            SElement { start: cur.start, duration: cur.duration, repeat_count: n },
                        ),
                        None => {},
                    }
                } else {
                    lemma_no_t_keeps_flag(rest, cur);
                }
            },
        }
    }
}

/// Law: segment-timeline inheritance: an `<S>` element without a `t`
/// attribute starts exactly where the previous entry ended, the decoded
/// entry joins the batch, and the running end advances to the new entry's
/// start plus its duration.
pub proof fn lemma_timeline_inheritance(st: ProcState, attrs: Seq<XmlAttrV>, pb: u64)
    requires
        st.stack.len() > 0,
        st.stack.last() == (Ctx::InSegmentTimeline { prev_base: pb }),
        forall|k: int|
            0 <= k < attrs.len() ==> match #[trigger] attrs[k] {
                XmlAttrV::Pair { key, .. } => key != lit("t"),
                _ => true,
            },
    ensures
        match spec_s_element(attrs, pb).0 {
            Ok(e) => {
                &&& e.start == pb
                &&& spec_s_child(st, attrs, pb).0.entries == st.entries.push(e)
                &&& spec_s_child(st, attrs, pb).0.stack.last() == (Ctx::InSegmentTimeline {
                    prev_base: sat_add(e.start, e.duration),
                })
            },
            Err(_) => spec_s_child(st, attrs, pb).0 == st,
        },
{
    lemma_no_t_keeps_flag(attrs, SElement { start: 0, duration: 0, repeat_count: 0 });
}

/// Law: once the parse has terminated, no further event changes the state
/// or produces a notification.
pub proof fn lemma_done_is_final(st: ProcState, ev: XmlEventV)
    requires
        st.done,
    ensures
        spec_step(st, ev) == (st, Seq::<NotifV>::empty()),
{
}

/// Attribute tables emit only attribute values and diagnostics, never
/// structural open or close notifications.
#[verifier::rlimit(60)]
#[verifier::spinoff_prover]
pub proof fn lemma_table_notifs_no_tags(t: attributes::AttrTable, attrs: Seq<XmlAttrV>)
    ensures
        forall|k: int|
            0 <= k < attributes::table_notifs(t, attrs).len() ==> !((
            #[trigger] attributes::table_notifs(t, attrs)[k]) is TagOpen) && !(
            attributes::table_notifs(t, attrs)[k] is TagClose),
    decreases attrs.len(),
{
    if attrs.len() > 0 {
        lemma_table_notifs_no_tags(t, attrs.skip(1));
        let head = attributes::attr_item_notifs(t, attrs[0]);
        assert(forall|k: int|
            0 <= k < head.len() ==> !((#[trigger] head[k]) is TagOpen) && !(head[k] is TagClose));
    }
}

/// Law: a self-closing recognized element produces exactly one open and
/// one close notification; everything between them is its own attribute
/// values and diagnostics, never another structural notification.
pub proof fn lemma_self_closing_shape(tag: TagName, t: attributes::AttrTable, attrs: Seq<XmlAttrV>)
    ensures
        ({
            let ns = empty_notifs(tag, t, attrs);
            &&& ns.len() >= 2
            &&& ns[0] == NotifV::TagOpen(tag)
            &&& ns.last() == NotifV::TagClose(tag)
            &&& forall|k: int|
                0 < k < ns.len() - 1 ==> !((#[trigger] ns[k]) is TagOpen) && !(ns[k] is TagClose)
        }),
{
    lemma_table_notifs_no_tags(t, attrs);
    let ns = empty_notifs(tag, t, attrs);
    let table = attributes::table_notifs(t, attrs);
    assert(ns.len() == 2 + table.len());
    assert(ns[0] == NotifV::TagOpen(tag));
    assert(ns.last() == NotifV::TagClose(tag));
    assert(forall|k: int| 0 < k < ns.len() - 1 ==> ns[k] == #[trigger] table[k - 1]);
}

/// Law: a self-closing `Representation` inside an `AdaptationSet` emits
/// exactly one open and one close with no structural notification in
/// between, and leaves the context stack as it was.
pub proof fn lemma_self_closing_representation(st: ProcState, ev: XmlEventV, attrs: Seq<XmlAttrV>)
    requires
        !st.done,
        st.stack.len() > 0,
        st.stack.last() == Ctx::InAdaptationSet,
        ev == (XmlEventV::Empty { name: lit("Representation"), attrs: attrs }),
    ensures
        spec_step(st, ev).0 == st,
        ({
            let ns = spec_step(st, ev).1;
            &&& ns.len() >= 2
            &&& ns[0] == NotifV::TagOpen(TagName::Representation)
            &&& ns.last() == NotifV::TagClose(TagName::Representation)
            &&& forall|k: int|
                0 < k < ns.len() - 1 ==> !((#[trigger] ns[k]) is TagOpen) && !(ns[k] is TagClose)
        }),
{
    reveal_strlit("Representation");
    reveal_strlit("BaseURL");
    crate::bytes_util::lemma_ascii_lit("Representation");
    crate::bytes_util::lemma_ascii_lit("BaseURL");
    assert(lit("Representation").len() == 14);
    assert(lit("BaseURL").len() == 7);
    lemma_self_closing_shape(
        TagName::Representation,
        attributes::AttrTable::Representation,
        attrs,
    );
}

/// Law: the attributes of an element are decoded independently: the
/// notifications of an attribute list are the concatenation of every
/// item's own, so one malformed value never blocks its siblings.
pub proof fn lemma_attrs_decoded_independently(
    t: attributes::AttrTable,
    attrs: Seq<XmlAttrV>,
    i: int,
)
    requires
        0 <= i <= attrs.len(),
    ensures
        attributes::table_notifs(t, attrs) == attributes::table_notifs(t, attrs.take(i))
            + attributes::table_notifs(t, attrs.skip(i)),
    decreases i,
{
    if i == 0 {
        assert(attrs.take(0) =~= Seq::<XmlAttrV>::empty());
        assert(attrs.skip(0) =~= attrs);
        assert(Seq::<NotifV>::empty() + attributes::table_notifs(t, attrs) =~= attributes::table_notifs(
            t,
            attrs,
        ));
    } else {
        lemma_attrs_decoded_independently(t, attrs, i - 1);
        attributes::lemma_table_notifs_snoc(t, attrs, i - 1);
        let a = attributes::table_notifs(t, attrs.take(i - 1));
        let b = attributes::attr_item_notifs(t, attrs[i - 1]);
        let c = attributes::table_notifs(t, attrs.skip(i));
        assert(attrs.skip(i - 1)[0] == attrs[i - 1]);
        assert(attrs.skip(i - 1).skip(1) =~= attrs.skip(i));
        assert(attributes::table_notifs(t, attrs.skip(i - 1)) == b + c);
        assert(a + (b + c) =~= (a + b) + c);
    }
}

/// Law: a recognized attribute whose value fails its codec contributes
/// exactly one error notification (the `width` column of the
/// `Representation` table, here: any non-integer text).
pub proof fn lemma_malformed_width_one_error(v: Seq<u8>)
    requires
        crate::utils::spec_parse_u64(v) is None,
    ensures
        attributes::representation_entry_notifs(lit("width"), v) == seq![
            error_notif(invalid_integer_msg()),
        ],
        attributes::representation_entry_notifs(lit("width"), v).len() == 1,
{
    bytes_util_lits_differ();
}

/// The attribute names before the `width` column of the `Representation`
/// table all differ from `width`, so `width` selects exactly its own
/// column.
proof fn bytes_util_lits_differ()
    ensures
        lit("width") != lit("id"),
        lit("width") != lit("audioSamplingRate"),
        lit("width") != lit("bandwidth"),
        lit("width") != lit("codecs"),
        lit("width") != lit("codingDependency"),
        lit("width") != lit("frameRate"),
        lit("width") != lit("height"),
{
    reveal_strlit("width");
    reveal_strlit("id");
    reveal_strlit("audioSamplingRate");
    reveal_strlit("bandwidth");
    reveal_strlit("codecs");
    reveal_strlit("codingDependency");
    reveal_strlit("frameRate");
    reveal_strlit("height");
    crate::bytes_util::lemma_ascii_lit("width");
    crate::bytes_util::lemma_ascii_lit("id");
    crate::bytes_util::lemma_ascii_lit("audioSamplingRate");
    crate::bytes_util::lemma_ascii_lit("bandwidth");
    crate::bytes_util::lemma_ascii_lit("codecs");
    crate::bytes_util::lemma_ascii_lit("codingDependency");
    crate::bytes_util::lemma_ascii_lit("frameRate");
    crate::bytes_util::lemma_ascii_lit("height");
    assert(lit("width").len() == 5);
    assert(lit("id").len() == 2);
    assert(lit("audioSamplingRate").len() == 17);
    assert(lit("bandwidth").len() == 9);
    assert(lit("codecs").len() == 6);
    assert(lit("codingDependency").len() == 16);
    assert(lit("frameRate").len() == 9);
    assert(lit("height").len() == 6);
    assert(lit("width")[0] == 119);
    assert(lit("bandwidth")[0] == 98);
    assert(lit("frameRate")[0] == 102);
}

/// Law: reaching end of input while any element is still open yields
/// exactly one structural error notification, and the parse terminates
/// cleanly with every context abandoned.
pub proof fn lemma_truncated_input(st: ProcState)
    requires
        !st.done,
        st.stack.len() > 0,
    ensures
        spec_step(st, XmlEventV::Eof).1 == seq![error_notif(eof_msg(st.stack.last()))],
        spec_step(st, XmlEventV::Eof).0.done,
        spec_step(st, XmlEventV::Eof).0.stack.len() == 0,
{
}

/// Law: reaching end of input at the document root is the normal
/// termination: no notification at all.
pub proof fn lemma_eof_at_root(st: ProcState)
    requires
        !st.done,
        st.stack.len() == 0,
    ensures
        spec_step(st, XmlEventV::Eof).1 == Seq::<NotifV>::empty(),
        spec_step(st, XmlEventV::Eof).0.done,
{
}

/// Law: opening an element the current context does not recognize
/// produces no notification and enters the skipping context (stated here
/// for `Period`, whose recognized children are `BaseURL`,
/// `AdaptationSet` and `SegmentTemplate`).
pub proof fn lemma_unknown_in_period_silent(st: ProcState, name: Seq<u8>, attrs: Seq<XmlAttrV>)
    requires
        !st.done,
        st.stack.len() > 0,
        st.stack.last() == Ctx::InPeriod,
        name != lit("BaseURL"),
        name != lit("AdaptationSet"),
        name != lit("SegmentTemplate"),
    ensures
        spec_step(st, XmlEventV::Open { name: name, attrs: attrs }).1 == Seq::<NotifV>::empty(),
        spec_step(st, XmlEventV::Open { name: name, attrs: attrs }).0.stack == st.stack.push(
            Ctx::Skipped,
        ),
{
}

/// Law: inside a skipped subtree no event but a tokenizer failure or the
/// end of input produces a notification; nested elements only deepen or
/// unwind the skip, so recognized names inside an unrecognized element
/// are skipped too and sibling parsing resumes exactly where it left off.
pub proof fn lemma_skipped_subtree_silent(st: ProcState, ev: XmlEventV)
    requires
        !st.done,
        st.stack.len() > 0,
        st.stack.last() == Ctx::Skipped,
        !(ev is TokError),
        !(ev is Eof),
    ensures
        spec_step(st, ev).1 == Seq::<NotifV>::empty(),
        spec_step(st, ev).0.entries == st.entries,
        ev is Open ==> spec_step(st, ev).0.stack == st.stack.push(Ctx::Skipped),
        ev is Close ==> spec_step(st, ev).0.stack == st.stack.drop_last(),
{
}

/// What one notification does to the stack of structurally open
/// elements: an open pushes its tag, a close matching the innermost
/// unmatched open pops it, everything else leaves it alone.
pub open spec fn open_push(stk: Seq<TagName>, n: NotifV) -> Seq<TagName> {
    match n {
        NotifV::TagOpen(t) => stk.push(t),
        NotifV::TagClose(t) => if stk.len() > 0 && stk.last() == t {
            stk.drop_last()
        } else {
            stk
        },
        _ => stk,
    }
}

/// The unmatched structural opens left by a notification sequence.
pub open spec fn open_run(stk: Seq<TagName>, ns: Seq<NotifV>) -> Seq<TagName>
    decreases ns.len(),
{
    if ns.len() == 0 {
        stk
    } else {
        open_run(open_push(stk, ns[0]), ns.skip(1))
    }
}

/// The structural tag a context emitted when it opened, if any: the
/// timeline, location and skipping contexts produce no structural
/// notifications of their own.
pub open spec fn frame_tags(c: Ctx) -> Seq<TagName> {
    match c {
        Ctx::InMPD => seq![TagName::MPD],
        Ctx::InPeriod => seq![TagName::Period],
        Ctx::InAdaptationSet => seq![TagName::AdaptationSet],
        Ctx::InRepresentation => seq![TagName::Representation],
        Ctx::InSegmentTemplate => seq![TagName::SegmentTemplate],
        Ctx::InBaseURL => seq![TagName::BaseURL],
        Ctx::InSegmentTimeline { .. } => Seq::empty(),
        Ctx::InLocation => Seq::empty(),
        Ctx::Skipped => Seq::empty(),
    }
}

/// The structural opens a context stack stands for, outermost first.
pub open spec fn open_tags(stack: Seq<Ctx>) -> Seq<TagName>
    decreases stack.len(),
{
    if stack.len() == 0 {
        Seq::empty()
    } else {
        open_tags(stack.drop_last()) + frame_tags(stack.last())
    }
}

/// A notification sequence free of structural notifications leaves the
/// open stack alone.
proof fn lemma_open_run_no_tags(stk: Seq<TagName>, ns: Seq<NotifV>)
    requires
        forall|k: int|
            0 <= k < ns.len() ==> !((#[trigger] ns[k]) is TagOpen) && !(ns[k] is TagClose),
    ensures
        open_run(stk, ns) == stk,
    decreases ns.len(),
{
    if ns.len() > 0 {
        let rest = ns.skip(1);
        assert(forall|k: int| 0 <= k < rest.len() ==> rest[k] == #[trigger] ns[k + 1]);
        lemma_open_run_no_tags(stk, rest);
    }
}

/// Walking a concatenation walks its two halves in turn.
proof fn lemma_open_run_append(stk: Seq<TagName>, a: Seq<NotifV>, b: Seq<NotifV>)
    ensures
        open_run(stk, a + b) == open_run(open_run(stk, a), b),
    decreases a.len(),
{
    if a.len() == 0 {
        assert(a + b =~= b);
    } else {
        assert((a + b)[0] == a[0]);
        assert((a + b).skip(1) =~= a.skip(1) + b);
        lemma_open_run_append(open_push(stk, a[0]), a.skip(1), b);
    }
}

/// The error notifications of a malformed `<S>` element are not
/// structural.
proof fn lemma_s_fold_no_tags(attrs: Seq<XmlAttrV>, cur: SElement, has_t: bool)
    ensures
        forall|k: int|
            0 <= k < s_attrs_fold(attrs, cur, has_t).1.len() ==> !((#[trigger] s_attrs_fold(
                attrs,
                cur,
                has_t,
            ).1[k]) is TagOpen) && !(s_attrs_fold(attrs, cur, has_t).1[k] is TagClose),
    decreases attrs.len(),
{
    if attrs.len() > 0 {
        match attrs[0] {
            XmlAttrV::Bad { msg } => {
                lemma_s_fold_no_tags(attrs.skip(1), cur, has_t);
            },
            XmlAttrV::Pair { key, value } => {
                if key == lit("t") {
                    match spec_parse_u64(value) {
                        Some(n) => lemma_s_fold_no_tags(
                            attrs.skip(1),
                            SElement {
                                start: n,
                                duration: cur.duration,
                                repeat_count: cur.repeat_count,
                            },
                            true,
                        ),
                        None => {},
                    }
                } else if key == lit("d") {
                    match spec_parse_u64(value) {
                        Some(n) => lemma_s_fold_no_tags(
                            attrs.skip(1),
                            SElement {
                                start: cur.start,
                                duration: n,
                                repeat_count: cur.repeat_count,
                            },
                            has_t,
                        ),
                        None => {},
                    }
                } else if key == lit("r") {
                    match spec_parse_u64(value) {
                        Some(n) => lemma_s_fold_no_tags(
                            attrs.skip(1),
                            SElement { start: cur.start, duration: cur.duration, repeat_count: n },
                            has_t,
                        ),
                        None => {},
                    }
                } else {
                    lemma_s_fold_no_tags(attrs.skip(1), cur, has_t);
                }
            },
        }
    }
}

/// Walking a single notification takes one step.
proof fn lemma_open_run_one(stk: Seq<TagName>, n: NotifV)
    ensures
        open_run(stk, seq![n]) == open_push(stk, n),
{
    let one = seq![n];
    assert(one[0] == n);
    assert(one.skip(1) =~= Seq::<NotifV>::empty());
    assert(open_run(open_push(stk, n), Seq::<NotifV>::empty()) == open_push(stk, n));
}

/// Walking two notifications takes two steps.
proof fn lemma_open_run_two(stk: Seq<TagName>, a: NotifV, b: NotifV)
    ensures
        open_run(stk, seq![a, b]) == open_push(open_push(stk, a), b),
{
    let two = seq![a, b];
    assert(two[0] == a);
    assert(two.skip(1) =~= seq![b]);
    lemma_open_run_one(open_push(stk, a), b);
}

/// Pushing a frame appends its structural tag.
proof fn lemma_open_tags_push(stack: Seq<Ctx>, c: Ctx)
    ensures
        open_tags(stack.push(c)) == open_tags(stack) + frame_tags(c),
{
    assert(stack.push(c).drop_last() =~= stack);
    assert(stack.push(c).last() == c);
}

/// The open stack a non-empty context stack stands for ends in the
/// innermost frame's tag.
proof fn lemma_open_tags_unfold(stack: Seq<Ctx>)
    requires
        stack.len() > 0,
    ensures
        open_tags(stack) == open_tags(stack.drop_last()) + frame_tags(stack.last()),
        frame_tags(stack.last()).len() > 0 ==> open_tags(stack).len() > 0 && open_tags(
            stack,
        ).last() == frame_tags(stack.last())[0] && open_tags(stack).drop_last() == open_tags(
            stack.drop_last(),
        ),
{
    let below = open_tags(stack.drop_last());
    let f = frame_tags(stack.last());
    if f.len() > 0 {
        assert(f.len() == 1);
        assert((below + f).last() == f[0]);
        assert((below + f).drop_last() =~= below);
    }
}

/// An open followed by its attribute table pushes exactly one tag, and a
/// self-closing form leaves the open stack as it was.
proof fn lemma_open_notifs_nesting(
    stk: Seq<TagName>,
    tag: TagName,
    t: attributes::AttrTable,
    attrs: Seq<XmlAttrV>,
)
    ensures
        open_run(stk, open_notifs(tag, t, attrs)) == stk.push(tag),
        open_run(stk, empty_notifs(tag, t, attrs)) == stk,
{
    let ns = open_notifs(tag, t, attrs);
    let table = attributes::table_notifs(t, attrs);
    lemma_table_notifs_no_tags(t, attrs);
    assert(ns[0] == NotifV::TagOpen(tag));
    assert(ns.skip(1) =~= table);
    lemma_open_run_no_tags(stk.push(tag), table);
    let ens = empty_notifs(tag, t, attrs);
    assert(ens =~= ns + seq![NotifV::TagClose(tag)]);
    lemma_open_run_append(stk, ns, seq![NotifV::TagClose(tag)]);
    lemma_open_run_one(stk.push(tag), NotifV::TagClose(tag));
    assert(stk.push(tag).last() == tag);
    assert(stk.push(tag).drop_last() =~= stk);
}

/// A recognized child that opens a tagged context preserves the
/// open-stack correspondence.
proof fn lemma_tagged_child_open(
    st: ProcState,
    tag: TagName,
    t: attributes::AttrTable,
    attrs: Seq<XmlAttrV>,
    c: Ctx,
)
    requires
        frame_tags(c) == seq![tag],
    ensures
        open_run(open_tags(st.stack), open_notifs(tag, t, attrs)) == open_tags(st.stack.push(c)),
{
    let stk = open_tags(st.stack);
    lemma_open_notifs_nesting(stk, tag, t, attrs);
    lemma_open_tags_push(st.stack, c);
    assert(stk + seq![tag] =~= stk.push(tag));
}

/// A pushed context without a structural tag preserves the open stack.
proof fn lemma_untagged_child_open(st: ProcState, c: Ctx)
    requires
        frame_tags(c) == Seq::<TagName>::empty(),
    ensures
        open_tags(st.stack.push(c)) == open_tags(st.stack),
{
    lemma_open_tags_push(st.stack, c);
    assert(open_tags(st.stack) + Seq::<TagName>::empty() =~= open_tags(st.stack));
}

/// A matching close pops exactly the innermost open.
proof fn lemma_matching_close(st: ProcState, tag: TagName)
    requires
        st.stack.len() > 0,
        frame_tags(st.stack.last()) == seq![tag],
    ensures
        open_run(open_tags(st.stack), seq![NotifV::TagClose(tag)]) == open_tags(
            st.stack.drop_last(),
        ),
{
    lemma_open_tags_unfold(st.stack);
    lemma_open_run_one(open_tags(st.stack), NotifV::TagClose(tag));
}

/// One step of the machine keeps the unmatched opens equal to the open
/// contexts, except at the step that aborts on a truncated document.
#[verifier::rlimit(100)]
#[verifier::spinoff_prover]
proof fn lemma_step_nesting(st: ProcState, ev: XmlEventV)
    requires
        !st.done,
    ensures
        ({
            let (st2, ns) = spec_step(st, ev);
            (st2.done && st.stack.len() > 0) || open_run(open_tags(st.stack), ns) == open_tags(
                st2.stack,
            )
        }),
{
    let (st2, ns) = spec_step(st, ev);
    let stk = open_tags(st.stack);
    match ev {
        XmlEventV::TokError { msg } => {
            lemma_open_run_no_tags(stk, ns);
        },
        XmlEventV::Other => {},
        XmlEventV::Eof => {},
        XmlEventV::Open { name, attrs } => {
            if st.stack.len() == 0 {
                if name == lit("MPD") {
                    lemma_tagged_child_open(
                        st,
                        TagName::MPD,
                        attributes::AttrTable::Mpd,
                        attrs,
                        Ctx::InMPD,
                    );
                } else {
                    lemma_untagged_child_open(st, Ctx::Skipped);
                }
            } else {
                match st.stack.last() {
                    Ctx::InMPD => {
                        if name == lit("BaseURL") {
                            lemma_tagged_child_open(
                                st,
                                TagName::BaseURL,
                                attributes::AttrTable::BaseUrl,
                                attrs,
                                Ctx::InBaseURL,
                            );
                        } else if name == lit("Location") {
                            lemma_untagged_child_open(st, Ctx::InLocation);
                        } else if name == lit("Period") {
                            lemma_tagged_child_open(
                                st,
                                TagName::Period,
                                attributes::AttrTable::Period,
                                attrs,
                                Ctx::InPeriod,
                            );
                        } else if name == lit("UTCTiming") {
                            lemma_open_run_two(
                                stk,
                                NotifV::TagOpen(TagName::UtcTiming),
                                NotifV::TagClose(TagName::UtcTiming),
                            );
                            assert(stk.push(TagName::UtcTiming).last() == TagName::UtcTiming);
                            assert(stk.push(TagName::UtcTiming).drop_last() =~= stk);
                            lemma_untagged_child_open(st, Ctx::Skipped);
                        } else {
                            lemma_untagged_child_open(st, Ctx::Skipped);
                        }
                    },
                    Ctx::InPeriod => {
                        if name == lit("BaseURL") {
                            lemma_tagged_child_open(
                                st,
                                TagName::BaseURL,
                                attributes::AttrTable::BaseUrl,
                                attrs,
                                Ctx::InBaseURL,
                            );
                        } else if name == lit("AdaptationSet") {
                            lemma_tagged_child_open(
                                st,
                                TagName::AdaptationSet,
                                attributes::AttrTable::AdaptationSet,
                                attrs,
                                Ctx::InAdaptationSet,
                            );
                        } else if name == lit("SegmentTemplate") {
                            lemma_open_run_one(stk, NotifV::TagOpen(TagName::SegmentTemplate));
                            lemma_open_tags_push(st.stack, Ctx::InSegmentTemplate);
                            assert(stk + seq![TagName::SegmentTemplate] =~= stk.push(
                                TagName::SegmentTemplate,
                            ));
                        } else {
                            lemma_untagged_child_open(st, Ctx::Skipped);
                        }
                    },
                    Ctx::InAdaptationSet => {
                        if name == lit("BaseURL") {
                            lemma_tagged_child_open(
                                st,
                                TagName::BaseURL,
                                attributes::AttrTable::BaseUrl,
                                attrs,
                                Ctx::InBaseURL,
                            );
                        } else if name == lit("Representation") {
                            lemma_tagged_child_open(
                                st,
                                TagName::Representation,
                                attributes::AttrTable::Representation,
                                attrs,
                                Ctx::InRepresentation,
                            );
                        } else if name == lit("SegmentTemplate") {
                            lemma_open_run_one(stk, NotifV::TagOpen(TagName::SegmentTemplate));
                            lemma_open_tags_push(st.stack, Ctx::InSegmentTemplate);
                            assert(stk + seq![TagName::SegmentTemplate] =~= stk.push(
                                TagName::SegmentTemplate,
                            ));
                        } else if name == lit("ContentComponent") {
                            lemma_open_notifs_nesting(
                                stk,
                                TagName::ContentComponent,
                                attributes::AttrTable::ContentComponent,
                                attrs,
                            );
                            lemma_untagged_child_open(st, Ctx::Skipped);
                        } else if name == lit("ContentProtection") {
                            lemma_open_notifs_nesting(
                                stk,
                                TagName::ContentProtection,
                                attributes::AttrTable::ContentProtection,
                                attrs,
                            );
                            lemma_untagged_child_open(st, Ctx::Skipped);
                        } else {
                            lemma_untagged_child_open(st, Ctx::Skipped);
                        }
                    },
                    Ctx::InRepresentation => {
                        if name == lit("BaseURL") {
                            lemma_tagged_child_open(
                                st,
                                TagName::BaseURL,
                                attributes::AttrTable::BaseUrl,
                                attrs,
                                Ctx::InBaseURL,
                            );
                        } else if name == lit("SegmentTemplate") {
                            lemma_open_run_one(stk, NotifV::TagOpen(TagName::SegmentTemplate));
                            lemma_open_tags_push(st.stack, Ctx::InSegmentTemplate);
                            assert(stk + seq![TagName::SegmentTemplate] =~= stk.push(
                                TagName::SegmentTemplate,
                            ));
                        } else {
                            lemma_untagged_child_open(st, Ctx::Skipped);
                        }
                    },
                    Ctx::InSegmentTemplate => {
                        if name == lit("SegmentTimeline") {
                            lemma_untagged_child_open(
                                st,
                                Ctx::InSegmentTimeline { prev_base: 0 },
                            );
                        } else {
                            lemma_untagged_child_open(st, Ctx::Skipped);
                        }
                    },
                    Ctx::InSegmentTimeline { prev_base } => {
                        if name == lit("S") {
                            lemma_s_child_nesting(st, attrs, prev_base);
                        } else {
                            lemma_untagged_child_open(st, Ctx::Skipped);
                        }
                    },
                    Ctx::InBaseURL => {
                        lemma_untagged_child_open(st, Ctx::Skipped);
                    },
                    Ctx::InLocation => {
                        lemma_untagged_child_open(st, Ctx::Skipped);
                    },
                    Ctx::Skipped => {
                        lemma_untagged_child_open(st, Ctx::Skipped);
                    },
                }
            }
        },
        XmlEventV::Empty { name, attrs } => {
            lemma_step_nesting_empty(st, name, attrs);
        },
        XmlEventV::Close { name } => {
            lemma_step_nesting_close(st, name);
        },
        XmlEventV::Text { text } => {
            lemma_open_run_no_tags(stk, ns);
        },
        XmlEventV::Reference { name } => {
            lemma_open_run_no_tags(stk, ns);
        },
    }
}

/// Decoding one `<S>` child leaves the open stack alone.
proof fn lemma_s_child_nesting(st: ProcState, attrs: Seq<XmlAttrV>, pb: u64)
    requires
        st.stack.len() > 0,
        st.stack.last() == (Ctx::InSegmentTimeline { prev_base: pb }),
    ensures
        ({
            let (st2, ns) = spec_s_child(st, attrs, pb);
            open_run(open_tags(st.stack), ns) == open_tags(st2.stack)
        }),
{
    let (st2, ns) = spec_s_child(st, attrs, pb);
    let stk = open_tags(st.stack);
    let (r, sns) = spec_s_element(attrs, pb);
    lemma_s_fold_no_tags(attrs, SElement { start: 0, duration: 0, repeat_count: 0 }, false);
    match r {
        Err(m) => {
            assert(forall|k: int|
                0 <= k < ns.len() ==> !((#[trigger] ns[k]) is TagOpen) && !(ns[k] is TagClose));
            lemma_open_run_no_tags(stk, ns);
        },
        Ok(e) => {
            lemma_open_run_no_tags(stk, ns);
            let c2 = Ctx::InSegmentTimeline { prev_base: sat_add(e.start, e.duration) };
            lemma_open_tags_push(st.stack.drop_last(), c2);
            lemma_open_tags_unfold(st.stack);
            assert(open_tags(st2.stack) =~= stk);
        },
    }
}

/// Case analysis of [`lemma_step_nesting`] for self-closing tags.
#[verifier::rlimit(100)]
#[verifier::spinoff_prover]
proof fn lemma_step_nesting_empty(st: ProcState, name: Seq<u8>, attrs: Seq<XmlAttrV>)
    requires
        !st.done,
    ensures
        ({
            let ev = XmlEventV::Empty { name: name, attrs: attrs };
            let (st2, ns) = spec_step(st, ev);
            open_run(open_tags(st.stack), ns) == open_tags(st2.stack)
        }),
{
    let ev = XmlEventV::Empty { name: name, attrs: attrs };
    let (st2, ns) = spec_step(st, ev);
    let stk = open_tags(st.stack);
    lemma_open_notifs_nesting(stk, TagName::MPD, attributes::AttrTable::Mpd, attrs);
    lemma_open_notifs_nesting(stk, TagName::BaseURL, attributes::AttrTable::BaseUrl, attrs);
    lemma_open_notifs_nesting(stk, TagName::Period, attributes::AttrTable::Period, attrs);
    lemma_open_notifs_nesting(
        stk,
        TagName::AdaptationSet,
        attributes::AttrTable::AdaptationSet,
        attrs,
    );
    lemma_open_notifs_nesting(
        stk,
        TagName::Representation,
        attributes::AttrTable::Representation,
        attrs,
    );
    lemma_open_notifs_nesting(
        stk,
        TagName::ContentComponent,
        attributes::AttrTable::ContentComponent,
        attrs,
    );
    lemma_open_notifs_nesting(
        stk,
        TagName::ContentProtection,
        attributes::AttrTable::ContentProtection,
        attrs,
    );
    lemma_open_run_two(
        stk,
        NotifV::TagOpen(TagName::SegmentTemplate),
        NotifV::TagClose(TagName::SegmentTemplate),
    );
    assert(stk.push(TagName::SegmentTemplate).last() == TagName::SegmentTemplate);
    assert(stk.push(TagName::SegmentTemplate).drop_last() =~= stk);
    lemma_open_run_two(
        stk,
        NotifV::TagOpen(TagName::UtcTiming),
        NotifV::TagClose(TagName::UtcTiming),
    );
    assert(stk.push(TagName::UtcTiming).last() == TagName::UtcTiming);
    assert(stk.push(TagName::UtcTiming).drop_last() =~= stk);
    if st.stack.len() > 0 {
        match st.stack.last() {
            Ctx::InSegmentTemplate => {
                if name == lit("SegmentTimeline") {
                    lemma_open_run_one(
                        stk,
                        NotifV::Attribute(
                            AttributeName::SegmentTimeline,
                            AttrValV::Timeline(Seq::empty()),
                        ),
                    );
                }
            },
            Ctx::InSegmentTimeline { prev_base } => {
                if name == lit("S") {
                    lemma_s_child_nesting(st, attrs, prev_base);
                }
            },
            _ => {},
        }
    }
}

/// Case analysis of [`lemma_step_nesting`] for closing tags: the machine
/// emits a structural close only for the innermost unmatched open, or at
/// the root for an input-level stray close, which it leaves unmatched.
#[verifier::rlimit(100)]
#[verifier::spinoff_prover]
proof fn lemma_step_nesting_close(st: ProcState, name: Seq<u8>)
    requires
        !st.done,
    ensures
        ({
            let ev = XmlEventV::Close { name: name };
            let (st2, ns) = spec_step(st, ev);
            open_run(open_tags(st.stack), ns) == open_tags(st2.stack)
        }),
{
    let ev = XmlEventV::Close { name: name };
    let (st2, ns) = spec_step(st, ev);
    let stk = open_tags(st.stack);
    lemma_open_run_one(stk, NotifV::TagClose(TagName::MPD));
    if st.stack.len() == 0 {
        assert(stk.len() == 0);
    } else {
        lemma_open_tags_unfold(st.stack);
        match st.stack.last() {
            Ctx::InMPD => {
                if name == lit("MPD") {
                    lemma_matching_close(st, TagName::MPD);
                }
            },
            Ctx::InPeriod => {
                if name == lit("Period") {
                    lemma_matching_close(st, TagName::Period);
                }
            },
            Ctx::InAdaptationSet => {
                if name == lit("AdaptationSet") {
                    lemma_matching_close(st, TagName::AdaptationSet);
                }
            },
            Ctx::InRepresentation => {
                if name == lit("Representation") {
                    lemma_matching_close(st, TagName::Representation);
                }
            },
            Ctx::InSegmentTemplate => {
                if name == lit("SegmentTemplate") {
                    lemma_matching_close(st, TagName::SegmentTemplate);
                }
            },
            Ctx::InSegmentTimeline { .. } => {
                if name == lit("SegmentTimeline") {
                    lemma_open_run_one(stk, ns[0]);
                    lemma_open_tags_unfold(st.stack);
                    assert(open_tags(st2.stack) =~= open_tags(st.stack.drop_last()));
                    assert(open_tags(st.stack.drop_last()) + Seq::<TagName>::empty() =~= open_tags(
                        st.stack.drop_last(),
                    ));
                }
            },
            Ctx::InBaseURL => {
                if name == lit("BaseURL") {
                    lemma_matching_close(st, TagName::BaseURL);
                }
            },
            Ctx::InLocation => {
                if name == lit("Location") {
                    assert(open_tags(st2.stack) =~= open_tags(st.stack.drop_last()));
                    assert(open_tags(st.stack) =~= open_tags(st.stack.drop_last()));
                }
            },
            Ctx::Skipped => {
                assert(open_tags(st2.stack) =~= open_tags(st.stack.drop_last()));
                assert(open_tags(st.stack) =~= open_tags(st.stack.drop_last()));
            },
        }
    }
}

/// Law: the structural notifications of a live run nest: every close the
/// engine emits matches the innermost unmatched open, and the unmatched
/// opens are exactly the contexts still open.  The end of the input adds
/// no structural notification, so a parse that terminates at the
/// document root has closed every element it opened; only the
/// malformed-input abort leaves opens behind, which is the documented
/// exception to the nesting guarantee.
pub proof fn lemma_notifications_well_nested(st: ProcState, evs: Seq<XmlEventV>)
    requires
        !st.done,
    ensures
        ({
            let (st2, ns) = spec_run(st, evs);
            !st2.done ==> open_run(open_tags(st.stack), ns) == open_tags(st2.stack)
        }),
    decreases evs.len(),
{
    if evs.len() > 0 {
        let (s1, n1) = spec_step(st, evs[0]);
        let (s2, n2) = spec_run(s1, evs.skip(1));
        lemma_open_run_append(open_tags(st.stack), n1, n2);
        if s1.done {
            lemma_run_done_stays(s1, evs.skip(1));
        } else {
            lemma_step_nesting(st, evs[0]);
            lemma_notifications_well_nested(s1, evs.skip(1));
        }
    }
}

/// After termination a run adds nothing.
proof fn lemma_run_done_stays(st: ProcState, evs: Seq<XmlEventV>)
    requires
        st.done,
    ensures
        spec_run(st, evs) == (st, Seq::<NotifV>::empty()),
    decreases evs.len(),
{
    if evs.len() > 0 {
        lemma_run_done_stays(st, evs.skip(1));
        assert(Seq::<NotifV>::empty() + Seq::<NotifV>::empty() =~= Seq::<NotifV>::empty());
    }
}

} // verus!
