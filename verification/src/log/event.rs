//! What is recorded of a run, one event after the other.
use crate::text;
use crate::ts;
use crate::ts::iso8601;
use vstd::prelude::*;

verus! {

/// One event; what does not apply to it is absent.
#[derive(Debug)]
pub struct Event {
    pub ts: String,
    pub ts_ms: u64,
    pub event: String,
    pub proto: String,
    pub listener: Option<String>,
    pub conn: Option<u64>,
    pub local: Option<String>,
    pub peer: Option<String>,
    /// the destination that the peer asked for, when it was redirected
    pub orig_dst: Option<String>,
    pub dir: Option<String>,
    pub hint: Option<String>,
    /// always the true length
    pub len: Option<u64>,
    pub rule: Option<String>,
    pub note: Option<String>,
    pub data: Option<String>,
    /// set when `data` holds only the front of the payload
    pub data_truncated: Option<bool>,
}

/// What an event says.
pub struct EventModel {
    pub ts: Seq<char>,
    pub ts_ms: u64,
    pub event: Seq<char>,
    pub proto: Seq<char>,
    pub listener: Option<Seq<char>>,
    pub conn: Option<u64>,
    pub local: Option<Seq<char>>,
    pub peer: Option<Seq<char>>,
    pub orig_dst: Option<Seq<char>>,
    pub dir: Option<Seq<char>>,
    pub hint: Option<Seq<char>>,
    pub len: Option<u64>,
    pub rule: Option<Seq<char>>,
    pub note: Option<Seq<char>>,
    pub data: Option<Seq<char>>,
    pub data_truncated: Option<bool>,
}

impl View for Event {
    type V = EventModel;

    open spec fn view(&self) -> EventModel {
        EventModel {
            ts: self.ts@,
            ts_ms: self.ts_ms,
            event: self.event@,
            proto: self.proto@,
            listener: text::shown(self.listener),
            conn: self.conn,
            local: text::shown(self.local),
            peer: text::shown(self.peer),
            orig_dst: text::shown(self.orig_dst),
            dir: text::shown(self.dir),
            hint: text::shown(self.hint),
            len: self.len,
            rule: text::shown(self.rule),
            note: text::shown(self.note),
            data: text::shown(self.data),
            data_truncated: self.data_truncated,
        }
    }
}

/// An event of a kind at a time, of a listener, with nothing else said.
pub open spec fn bare(now: u64, event: Seq<char>, proto: Seq<char>, name: Seq<char>) -> EventModel {
    EventModel {
        ts: ts::iso8601_text(now as int),
        ts_ms: now,
        event,
        proto,
        listener: Some(name),
        conn: None,
        local: None,
        peer: None,
        orig_dst: None,
        dir: None,
        hint: None,
        len: None,
        rule: None,
        note: None,
        data: None,
        data_truncated: None,
    }
}

/// What an optional event says.
pub open spec fn recorded(e: Option<Event>) -> Option<EventModel> {
    match e {
        Some(e) => Some(e@),
        None => None,
    }
}

impl Event {
    /// An event of a kind at a time, of a listener, with nothing else said.
    pub fn new(now: u64, event: &str, proto: &str, name: &str) -> (e: Self)
        ensures
            e@ == bare(now, event@, proto@, name@),
    {
        Event {
            ts: iso8601(now),
            ts_ms: now,
            event: text::own(event),
            proto: text::own(proto),
            listener: Some(text::own(name)),
            conn: None,
            local: None,
            peer: None,
            orig_dst: None,
            dir: None,
            hint: None,
            len: None,
            rule: None,
            note: None,
            data: None,
            data_truncated: None,
        }
    }
}

} // verus!
