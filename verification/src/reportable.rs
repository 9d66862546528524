//! Reportable values and their wire shapes.
//!
//! A reportable value is one the engine can hand to the host as an
//! attribute's value.  Internally the log keeps the typed form; the
//! functions here also produce the byte image each value takes when it
//! crosses a pointer-and-length boundary: booleans as one byte, floats as
//! their 8-byte little-endian bit pattern, timeline batches as a contiguous
//! run of 24-byte records, byte strings as their raw span.

use vstd::prelude::*;

use crate::events::AttributeName;
use crate::float_bits::spec_int_to_f64_bits;
use crate::float_bits::int_to_f64_bits;
use crate::processor::SElement;
use crate::report::AttrVal;
use crate::report::AttrValV;
use crate::report::NotifV;
use crate::report::Notification;
use crate::report::Reporter;

verus! {

/// The eight little-endian bytes of a 64-bit value.
pub open spec fn le64_bytes(x: u64) -> Seq<u8> {
    seq![
        (x & 0xff) as u8,
        ((x >> 8) & 0xff) as u8,
        ((x >> 16) & 0xff) as u8,
        ((x >> 24) & 0xff) as u8,
        ((x >> 32) & 0xff) as u8,
        ((x >> 40) & 0xff) as u8,
        ((x >> 48) & 0xff) as u8,
        ((x >> 56) & 0xff) as u8,
    ]
}

/// Appends the little-endian bytes of `x`.
fn push_le64(out: &mut Vec<u8>, x: u64)
    ensures
        final(out)@ == old(out)@ + le64_bytes(x),
{
    out.push((x & 0xff) as u8);
    out.push(((x >> 8) & 0xff) as u8);
    out.push(((x >> 16) & 0xff) as u8);
    out.push(((x >> 24) & 0xff) as u8);
    out.push(((x >> 32) & 0xff) as u8);
    out.push(((x >> 40) & 0xff) as u8);
    out.push(((x >> 48) & 0xff) as u8);
    out.push(((x >> 56) & 0xff) as u8);
    proof {
        assert(out@ =~= old(out)@ + le64_bytes(x));
    }
}

/// Wire record of one timeline entry: the three fields as doubles.
pub open spec fn s_element_bytes(e: SElement) -> Seq<u8> {
    le64_bytes(spec_int_to_f64_bits(e.start as nat)) + le64_bytes(
        spec_int_to_f64_bits(e.duration as nat),
    ) + le64_bytes(spec_int_to_f64_bits(e.repeat_count as nat))
}

/// Wire image of a timeline batch: its entries' records, in order.
pub open spec fn timeline_bytes(es: Seq<SElement>) -> Seq<u8>
    decreases es.len(),
{
    if es.len() == 0 {
        Seq::empty()
    } else {
        s_element_bytes(es[0]) + timeline_bytes(es.skip(1))
    }
}

/// Wire image of an attribute value.
pub open spec fn attr_payload(v: AttrValV) -> Seq<u8> {
    match v {
        AttrValV::Str(s) => s,
        AttrValV::F64(b) => le64_bytes(b),
        AttrValV::Bool(b) => seq![if b { 1u8 } else { 0u8 }],
        AttrValV::Timeline(es) => timeline_bytes(es),
    }
}

/// Produces the byte image of a decoded attribute value.
pub fn attr_payload_bytes(v: &AttrVal) -> (out: Vec<u8>)
    ensures
        out@ == attr_payload(v@),
{
    match v {
        AttrVal::Str(s) => {
            let out = copy_bytes(s);
            out
        },
        AttrVal::F64(b) => {
            let mut out: Vec<u8> = Vec::new();
            push_le64(&mut out, *b);
            proof {
                assert(out@ =~= le64_bytes(*b));
            }
            out
        },
        AttrVal::Bool(b) => {
            let mut out: Vec<u8> = Vec::new();
            out.push(if *b {
                1
            } else {
                0
            });
            proof {
                assert(out@ =~= attr_payload(v@));
            }
            out
        },
        AttrVal::Timeline(es) => {
            let mut out: Vec<u8> = Vec::new();
            let n = es.len();
            let mut i: usize = 0;
            proof {
                assert(out@ =~= timeline_bytes(es@.take(0)));
            }
            while i < n
                invariant
                    i <= n == es@.len(),
                    out@ == timeline_bytes(es@.take(i as int)),
                decreases n - i,
            {
                let e = es[i];
                push_le64(&mut out, int_to_f64_bits(e.start as u128));
                push_le64(&mut out, int_to_f64_bits(e.duration as u128));
                push_le64(&mut out, int_to_f64_bits(e.repeat_count as u128));
                proof {
                    lemma_timeline_bytes_snoc(es@, i as int);
                }
                i += 1;
            }
            proof {
                assert(es@.take(n as int) =~= es@);
            }
            out
        },
    }
}

/// Appending one entry extends the batch image by that entry's record.
proof fn lemma_timeline_bytes_snoc(es: Seq<SElement>, i: int)
    requires
        0 <= i < es.len(),
    ensures
        timeline_bytes(es.take(i + 1)) == timeline_bytes(es.take(i)) + s_element_bytes(es[i]),
    decreases i + 1,
{
    if i == 0 {
        let t1 = es.take(1);
        assert(t1[0] == es[0]);
        assert(t1.skip(1) =~= Seq::<SElement>::empty());
        assert(timeline_bytes(Seq::<SElement>::empty()) == Seq::<u8>::empty());
        assert(timeline_bytes(t1) == s_element_bytes(es[0]) + timeline_bytes(t1.skip(1)));
        assert(es.take(0) =~= Seq::<SElement>::empty());
        assert(s_element_bytes(es[0]) + Seq::<u8>::empty() =~= s_element_bytes(es[0]));
        assert(Seq::<u8>::empty() + s_element_bytes(es[0]) =~= s_element_bytes(es[0]));
    } else {
        let t = es.skip(1);
        lemma_timeline_bytes_snoc(t, i - 1);
        assert(es.take(i + 1)[0] == es[0]);
        assert(es.take(i + 1).skip(1) =~= t.take(i));
        assert(es.take(i).skip(1) =~= t.take(i - 1));
        assert(es.take(i)[0] == es[0]);
        assert(t[i - 1] == es[i]);
        assert(timeline_bytes(es.take(i + 1)) == s_element_bytes(es[0]) + timeline_bytes(t.take(i)));
        assert(timeline_bytes(t.take(i)) == timeline_bytes(t.take(i - 1)) + s_element_bytes(es[i]));
        assert(s_element_bytes(es[0]) + (timeline_bytes(t.take(i - 1)) + s_element_bytes(es[i]))
            =~= (s_element_bytes(es[0]) + timeline_bytes(t.take(i - 1))) + s_element_bytes(es[i]));
    }
}

/// Copies a byte slice into an owned vector.
pub fn copy_bytes(src: &[u8]) -> (r: Vec<u8>)
    ensures
        r@ == src@,
{
    let n = src.len();
    let mut r: Vec<u8> = Vec::new();
    let mut i: usize = 0;
    while i < n
        invariant
            i <= n == src@.len(),
            r@ == src@.take(i as int),
        decreases n - i,
    {
        r.push(src[i]);
        proof {
            assert(src@.take(i + 1) =~= src@.take(i as int).push(src@[i as int]));
        }
        i += 1;
    }
    proof {
        assert(src@.take(n as int) =~= src@);
    }
    r
}

/// Copies a timeline buffer into an owned vector.
pub fn copy_elements(src: &Vec<SElement>) -> (r: Vec<SElement>)
    ensures
        r@ == src@,
{
    let n = src.len();
    let mut r: Vec<SElement> = Vec::new();
    let mut i: usize = 0;
    while i < n
        invariant
            i <= n == src@.len(),
            r@ == src@.take(i as int),
        decreases n - i,
    {
        r.push(src[i]);
        proof {
            assert(src@.take(i + 1) =~= src@.take(i as int).push(src@[i as int]));
        }
        i += 1;
    }
    proof {
        assert(src@.take(n as int) =~= src@);
    }
    r
}

/// A value the engine can report as an attribute, together with its typed
/// form in the log.
pub trait ReportableValue {
    /// The typed value this reportable turns into.
    spec fn attr_val(&self) -> AttrValV;

    /// Reports this value under the given attribute identifier.
    fn report_as_attr(&self, attr_name: AttributeName, rep: &mut Reporter)
        ensures
            final(rep)@ == old(rep)@.push(NotifV::Attribute(attr_name, self.attr_val()));
}

impl ReportableValue for bool {
    open spec fn attr_val(&self) -> AttrValV {
        AttrValV::Bool(*self)
    }

    fn report_as_attr(&self, attr_name: AttributeName, rep: &mut Reporter) {
        rep.notify(Notification::Attribute(attr_name, AttrVal::Bool(*self)));
    }
}

/// A `u64` is reported as a float: it carries the bit pattern of a double,
/// which is how every numeric value travels through the engine.
impl ReportableValue for u64 {
    open spec fn attr_val(&self) -> AttrValV {
        AttrValV::F64(*self)
    }

    fn report_as_attr(&self, attr_name: AttributeName, rep: &mut Reporter) {
        rep.notify(Notification::Attribute(attr_name, AttrVal::F64(*self)));
    }
}

impl ReportableValue for Vec<u8> {
    open spec fn attr_val(&self) -> AttrValV {
        AttrValV::Str(self@)
    }

    fn report_as_attr(&self, attr_name: AttributeName, rep: &mut Reporter) {
        rep.notify(Notification::Attribute(attr_name, AttrVal::Str(copy_bytes(self.as_slice()))));
    }
}

impl ReportableValue for Vec<SElement> {
    open spec fn attr_val(&self) -> AttrValV {
        AttrValV::Timeline(self@)
    }

    fn report_as_attr(&self, attr_name: AttributeName, rep: &mut Reporter) {
        rep.notify(Notification::Attribute(attr_name, AttrVal::Timeline(copy_elements(self))));
    }
}

} // verus!
