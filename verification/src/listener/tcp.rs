//! Connections that are answered by a profile, or relayed to an upstream.
//!
//! Rules match per read, not per message of a protocol: a stream has no message
//! boundaries.
use super::{reply, Reply};
use crate::profile::Compiled;
use crate::text;
use crate::text::own;
use vstd::prelude::*;

verus! {

/// What a connection reads at once.
pub const BUF: usize = 0x1_0000;

/// What a listener does, in a word: the upstream wins over the profile.
pub open spec fn mode_of(upstream: Option<Seq<char>>, profile: Option<&Compiled>) -> Seq<char> {
    match upstream {
        Some(up) => "forward->"@ + up,
        None => super::profile_name_of(profile),
    }
}

/// What a listener does, in a word.
pub fn mode(upstream: Option<&str>, profile: Option<&Compiled>) -> (out: String)
    ensures
        out@ == mode_of(text::shown_str(upstream), profile),
{
    match upstream {
        Some(up) => {
            let mut out = String::new();
            out.append("forward->");
            out.append(up);
            assert(out@ =~= mode_of(text::shown_str(upstream), profile));
            out
        },
        None => own(super::profile_name(profile)),
    }
}

/// What is said of a listener whose profile would answer but never gets to, as
/// there is an upstream.
pub open spec fn shadowed_of() -> Seq<char> {
    "an upstream and a responding profile are both set; the upstream wins and the profile's rules will not fire"@
}

/// What is said of a listener whose profile would answer but never gets to.
pub fn shadowed(upstream: bool, profile: Option<&Compiled>) -> (warning: Option<&'static str>)
    ensures
        match warning {
            Some(w) => {
                &&& upstream
                &&& profile matches Some(p)
                &&& p.may_respond()
                &&& w@ == shadowed_of()
            },
            None => !upstream || (profile matches Some(p) ==> !p.may_respond()),
        },
{
    if !upstream {
        return None;
    }
    match profile {
        Some(p) => if p.responds() {
            Some(
                "an upstream and a responding profile are both set; the upstream wins and the profile's rules will not fire",
            )
        } else {
            None
        },
        None => None,
    }
}

/// How a connection came to its end.
#[derive(Clone, Copy, Debug, PartialEq, Eq, Structural)]
pub enum Outcome {
    PeerEof,
    ProfileClose,
    UpstreamUnreachable,
    BothClosed,
    Failed,
}

impl Outcome {
    /// How a connection came to its end, in words.
    pub open spec fn words(self) -> Seq<char> {
        match self {
            Outcome::PeerEof => "peer eof"@,
            Outcome::ProfileClose => "profile close"@,
            Outcome::UpstreamUnreachable => "upstream unreachable"@,
            Outcome::BothClosed => "both directions closed"@,
            Outcome::Failed => "error"@,
        }
    }

    /// How a connection came to its end, in words.
    pub fn why(self) -> (out: &'static str)
        ensures
            out@ == self.words(),
    {
        match self {
            Outcome::PeerEof => "peer eof",
            Outcome::ProfileClose => "profile close",
            Outcome::UpstreamUnreachable => "upstream unreachable",
            Outcome::BothClosed => "both directions closed",
            Outcome::Failed => "error",
        }
    }
}

/// A connection that is answered by a profile.
pub struct Session {
    first: bool,
}

impl View for Session {
    type V = bool;

    /// Whether nothing has been read yet.
    closed spec fn view(&self) -> bool {
        self.first
    }
}

/// What a read comes to.
pub enum Turn {
    /// the peer has closed its side
    Eof,
    /// no rule matches
    Quiet,
    /// a rule answers
    Answer { rule: String, reply: Reply },
}

impl Turn {
    /// How the connection ends, if it does.
    pub open spec fn end(self) -> Option<Outcome> {
        match self {
            Turn::Eof => Some(Outcome::PeerEof),
            Turn::Quiet => None,
            Turn::Answer { rule: _, reply } => if reply.close {
                Some(Outcome::ProfileClose)
            } else {
                None
            },
        }
    }

    /// How the connection ends, if it does.
    pub fn outcome(&self) -> (end: Option<Outcome>)
        ensures
            end == self.end(),
    {
        match self {
            Turn::Eof => Some(Outcome::PeerEof),
            Turn::Quiet => None,
            Turn::Answer { rule: _, reply } => if reply.close {
                Some(Outcome::ProfileClose)
            } else {
                None
            },
        }
    }
}

impl Session {
    /// A connection of which nothing has been read.
    pub fn new() -> (s: Self)
        ensures
            s@,
    {
        Session { first: true }
    }

    /// What is sent before anything is read: the banner, where there is one.
    pub fn greet(&self, profile: Option<&Compiled>) -> (turn: Turn)
        ensures
            match turn {
                Turn::Eof => false,
                Turn::Quiet => profile matches Some(p) ==> p.on_connect is None,
                Turn::Answer { rule, reply } => {
                    &&& profile matches Some(p)
                    &&& p.on_connect matches Some(a)
                    &&& rule@ == "on_connect"@
                    &&& reply@ == super::reply_of(a@, Seq::empty(), true)
                },
            },
    {
        match profile {
            None => Turn::Quiet,
            Some(p) => match &p.on_connect {
                None => Turn::Quiet,
                Some(a) => {
                    let nothing: Vec<u8> = Vec::new();
                    assert(nothing@ =~= Seq::<u8>::empty());
                    Turn::Answer {
                        rule: own("on_connect"),
                        reply: reply(a, nothing.as_slice(), true),
                    }
                },
            },
        }
    }

    /// Whether nothing has been read yet.
    pub fn is_first(&self) -> (b: bool)
        ensures
            b == self@,
    {
        self.first
    }

    /// What a read comes to. The first rule that matches answers; what is read
    /// later is not the first message any more.
    pub fn read(&mut self, profile: Option<&Compiled>, data: &[u8]) -> (turn: Turn)
        requires
            data@.len() > 0 ==> (profile matches Some(p) ==> p.ready(data@, old(self)@)),
        ensures
            final(self)@ == (old(self)@ && data@.len() == 0),
            match turn {
                Turn::Eof => data@.len() == 0,
                Turn::Quiet => data@.len() > 0 && (profile matches Some(p) ==> p.rule_for(
                    data@,
                    old(self)@,
                ) is None),
                Turn::Answer { rule, reply } => {
                    &&& data@.len() > 0
                    &&& profile matches Some(p)
                    &&& p.rule_for(data@, old(self)@) matches Some(i)
                    &&& 0 <= i < p.rules@.len()
                    &&& rule@ == p.rules@[i].name@
                    &&& reply@ == super::reply_of(p.rules@[i].action@, data@, true)
                },
            },
    {
        if data.len() == 0 {
            return Turn::Eof;
        }
        let first = self.first;
        self.first = false;
        match profile {
            None => Turn::Quiet,
            Some(p) => match p.eval(data, first) {
                None => Turn::Quiet,
                Some((rule, action)) => Turn::Answer {
                    rule: own(rule),
                    reply: reply(action, data, true),
                },
            },
        }
    }
}

/// What one direction of a relay does next.
#[derive(Clone, Copy, Debug, PartialEq, Eq, Structural)]
pub enum Relay {
    /// log what was read under the rule `forward` and write it, as it is, to the
    /// other side
    Pass,
    /// close the writing half of the other side, and end
    HalfClose,
}

/// What one direction of a relay does after a read, by how many bytes were read.
/// A peer that shuts down writing still receives the rest of the response, and a
/// reset in the middle of a stream is a normal end.
pub fn relay(read: Option<usize>) -> (step: Relay)
    ensures
        step == match read {
            Some(n) => if n > 0 {
                Relay::Pass
            } else {
                Relay::HalfClose
            },
            None => Relay::HalfClose,
        },
{
    match read {
        Some(n) => if n > 0 {
            Relay::Pass
        } else {
            Relay::HalfClose
        },
        None => Relay::HalfClose,
    }
}

} // verus!
