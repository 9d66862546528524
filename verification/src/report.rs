//! The reporting channel: an ordered log of every notification the engine
//! emits while decoding a manifest.
//!
//! Each notification is kept as a tagged value; the byte-level wire shape
//! each value takes when it crosses a foreign boundary is produced by the
//! encoders in `reportable`.

use vstd::prelude::*;

use crate::errors::ParsingError;
use crate::events::AttributeName;
use crate::events::CustomEventType;
use crate::events::TagName;
use crate::processor::SElement;

verus! {

/// A decoded attribute value, in its typed form.
pub enum AttrVal {
    /// A raw byte string (element text or a string-typed attribute).
    Str(Vec<u8>),
    /// A 64-bit float, held as its bit pattern.
    F64(u64),
    /// A boolean.
    Bool(bool),
    /// A batch of decoded segment-timeline entries.
    Timeline(Vec<SElement>),
}

/// Specification twin of [`AttrVal`].
pub enum AttrValV {
    Str(Seq<u8>),
    F64(u64),
    Bool(bool),
    Timeline(Seq<SElement>),
}

impl View for AttrVal {
    type V = AttrValV;

    open spec fn view(&self) -> AttrValV {
        match self {
            AttrVal::Str(s) => AttrValV::Str(s@),
            AttrVal::F64(b) => AttrValV::F64(*b),
            AttrVal::Bool(b) => AttrValV::Bool(*b),
            AttrVal::Timeline(es) => AttrValV::Timeline(es@),
        }
    }
}

/// One notification crossing the engine-to-host boundary.
pub enum Notification {
    /// A recognized element opened.
    TagOpen(TagName),
    /// A previously opened recognized element closed.
    TagClose(TagName),
    /// One decoded attribute value of the currently open element.
    Attribute(AttributeName, AttrVal),
    /// A diagnostic, almost always an error description.
    Custom(CustomEventType, String),
}

/// Specification twin of [`Notification`].
pub enum NotifV {
    TagOpen(TagName),
    TagClose(TagName),
    Attribute(AttributeName, AttrValV),
    Custom(CustomEventType, Seq<char>),
}

impl View for Notification {
    type V = NotifV;

    open spec fn view(&self) -> NotifV {
        match self {
            Notification::TagOpen(t) => NotifV::TagOpen(*t),
            Notification::TagClose(t) => NotifV::TagClose(*t),
            Notification::Attribute(a, v) => NotifV::Attribute(*a, v@),
            Notification::Custom(k, s) => NotifV::Custom(*k, s@),
        }
    }
}

/// The single error notification a diagnostic message turns into.
pub open spec fn error_notif(msg: Seq<char>) -> NotifV {
    NotifV::Custom(CustomEventType::Error, msg)
}

/// The reporting channel.  Notifications accumulate in order; nothing is
/// ever removed or reordered.
pub struct Reporter {
    log: Vec<Notification>,
}

impl View for Reporter {
    type V = Seq<NotifV>;

    closed spec fn view(&self) -> Seq<NotifV> {
        self.log@.map_values(|n: Notification| n@)
    }
}

impl Reporter {
    /// A channel with an empty log.
    pub fn new() -> (r: Reporter)
        ensures
            r@ == Seq::<NotifV>::empty(),
    {
        let r = Reporter { log: Vec::new() };
        proof {
            assert(r@ =~= Seq::<NotifV>::empty());
        }
        r
    }

    /// Appends one notification.
    pub fn notify(&mut self, n: Notification)
        ensures
            final(self)@ == old(self)@.push(n@),
    {
        let ghost nv = n@;
        self.log.push(n);
        proof {
            assert(self@ =~= old(self)@.push(nv));
        }
    }

    /// Gives the accumulated notifications away, in emission order.
    pub fn into_log(self) -> (log: Vec<Notification>)
        ensures
            log@.map_values(|n: Notification| n@) == self@,
    {
        self.log
    }

    /// Read-only access to the accumulated notifications.
    pub fn log(&self) -> (log: &Vec<Notification>)
        ensures
            log@.map_values(|n: Notification| n@) == self@,
    {
        &self.log
    }
}

/// Emits the structural notification for an opening tag.
pub fn report_opening_tag(tag_name: TagName, rep: &mut Reporter)
    ensures
        final(rep)@ == old(rep)@.push(NotifV::TagOpen(tag_name)),
{
    rep.notify(Notification::TagOpen(tag_name));
}

/// Emits the structural notification for a closing tag.
pub fn report_closing_tag(tag_name: TagName, rep: &mut Reporter)
    ensures
        final(rep)@ == old(rep)@.push(NotifV::TagClose(tag_name)),
{
    rep.notify(Notification::TagClose(tag_name));
}

impl ParsingError {
    /// Reports this error on the diagnostic channel.
    pub fn report_err(&self, rep: &mut Reporter)
        ensures
            final(rep)@ == old(rep)@.push(error_notif(self@)),
    {
        rep.notify(Notification::Custom(CustomEventType::Error, self.0.clone()));
    }
}

} // verus!
