//! What a listener does with what arrives.
pub mod laws;
pub mod tcp;
pub mod udp;

use crate::bytes::copy_of;
use crate::dns;
use crate::profile::{Action, ActionModel, Compiled};
use vstd::prelude::*;

verus! {

/// What an action comes to.
#[derive(Debug)]
pub struct Reply {
    /// how long to wait before anything is sent
    pub wait_ms: u64,
    /// what is sent; nothing where it is empty
    pub payload: Vec<u8>,
    /// whether the connection is shut down in an orderly way
    pub shutdown: bool,
    /// whether the connection ends
    pub close: bool,
}

/// What an action comes to.
pub struct ReplyModel {
    pub wait_ms: u64,
    pub payload: Seq<u8>,
    pub shutdown: bool,
    pub close: bool,
}

impl View for Reply {
    type V = ReplyModel;

    open spec fn view(&self) -> ReplyModel {
        ReplyModel {
            wait_ms: self.wait_ms,
            payload: self.payload@,
            shutdown: self.shutdown,
            close: self.close,
        }
    }
}

/// The bytes that an action answers with: the message itself, an answer to the
/// query that the message is, or fixed bytes. A message that is no query gets no
/// answer. Over a stream a query has its length in front.
pub open spec fn bytes_of(a: ActionModel, received: Seq<u8>, framed: bool) -> Option<Seq<u8>> {
    if a.echo {
        Some(received)
    } else {
        match a.dns {
            Some(ans) => if framed {
                dns::reply_tcp_of(received, ans)
            } else {
                dns::reply_of(received, ans)
            },
            None => Some(a.payload),
        }
    }
}

/// What an action comes to. One that sends nothing does not wait either.
pub open spec fn reply_of(a: ActionModel, received: Seq<u8>, framed: bool) -> ReplyModel {
    if a.silent() {
        ReplyModel { wait_ms: 0, payload: Seq::empty(), shutdown: false, close: a.close }
    } else {
        match bytes_of(a, received, framed) {
            None => ReplyModel {
                wait_ms: a.delay_ms,
                payload: Seq::empty(),
                shutdown: false,
                close: a.close,
            },
            Some(payload) => ReplyModel {
                wait_ms: a.delay_ms,
                payload,
                shutdown: a.close,
                close: a.close,
            },
        }
    }
}

/// What an action comes to.
pub fn reply(action: &Action, received: &[u8], framed: bool) -> (r: Reply)
    ensures
        r@ == reply_of(action@, received@, framed),
{
    if action.is_silent() {
        let r = Reply { wait_ms: 0, payload: Vec::new(), shutdown: false, close: action.close };
        assert(r.payload@ =~= Seq::<u8>::empty());
        return r;
    }
    let payload = if action.echo {
        Some(copy_of(received))
    } else if let Some(ans) = &action.dns {
        if framed {
            dns::reply_tcp(received, ans)
        } else {
            dns::reply(received, ans)
        }
    } else {
        Some(copy_of(action.payload.as_slice()))
    };
    match payload {
        None => {
            let r = Reply {
                wait_ms: action.delay_ms,
                payload: Vec::new(),
                shutdown: false,
                close: action.close,
            };
            assert(r.payload@ =~= Seq::<u8>::empty());
            r
        },
        Some(payload) => Reply {
            wait_ms: action.delay_ms,
            payload,
            shutdown: action.close,
            close: action.close,
        },
    }
}

/// The name of a profile, or that there is none.
pub open spec fn profile_name_of(profile: Option<&Compiled>) -> Seq<char> {
    match profile {
        Some(p) => p.name@,
        None => "none"@,
    }
}

/// The name of a profile, or that there is none.
pub fn profile_name<'a>(profile: Option<&'a Compiled>) -> (name: &'a str)
    ensures
        name@ == profile_name_of(profile),
{
    match profile {
        Some(p) => p.name.as_str(),
        None => "none",
    }
}

// ------------------------------------------------------------- laws

/// A profile that never responds sends nothing, whatever arrives.
pub proof fn silence_sends_nothing(c: Compiled, a: ActionModel, received: Seq<u8>, framed: bool)
    requires
        !c.may_respond(),
        c.may_take(a),
    ensures
        reply_of(a, received, framed).payload.len() == 0,
{
}

/// An echo sends back exactly what was received.
pub proof fn an_echo_is_exact(a: ActionModel, received: Seq<u8>, framed: bool)
    requires
        a.echo,
    ensures
        reply_of(a, received, framed).payload == received,
{
}

/// A reply that does not depend on the message is the payload of its action.
pub proof fn a_fixed_reply_is_its_payload(a: ActionModel, received: Seq<u8>, framed: bool)
    requires
        !a.mirrors(),
    ensures
        reply_of(a, received, framed).payload == a.payload,
{
    if a.silent() {
        assert(a.payload =~= Seq::<u8>::empty());
    }
}

/// The connection ends when the action says so, and only then.
pub proof fn an_action_closes_when_it_says_so(a: ActionModel, received: Seq<u8>, framed: bool)
    ensures
        reply_of(a, received, framed).close == a.close,
        reply_of(a, received, framed).shutdown ==> a.close,
{
}

} // verus!
