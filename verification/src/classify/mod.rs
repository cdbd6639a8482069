//! What a message is, from its opening bytes.
//!
//! Deliberately shallow: the goal is one line that says where to look next, not
//! to decode the protocol.
pub mod dns;
pub mod hellos;
pub mod http;
pub mod laws;
pub mod other;
pub mod others;
pub mod requests;
pub mod tls;

use crate::text;
use vstd::prelude::*;
use vstd::utf8::*;

verus! {

/// The guess for a message: TLS, then HTTP, then DNS, then what is left.
pub open spec fn guess(d: Seq<u8>) -> Option<Seq<char>> {
    if d.len() == 0 {
        None
    } else if tls::tls_of(d) is Some {
        tls::tls_of(d)
    } else if http::http_of(d) is Some {
        http::http_of(d)
    } else if dns::dns_of(d) is Some {
        dns::dns_of(d)
    } else {
        other::other_of(d)
    }
}

/// A short human-readable guess, or nothing when nothing is recognisable.
pub fn classify(data: &[u8]) -> (out: Option<String>)
    ensures
        text::shown(out) == guess(data@),
        data@.len() > 0 && tls::tls_of(data@) is None && valid_utf8(http::head_of(data@))
            && http::plain_of(data@) is Some ==> text::shown(out) == http::plain_of(data@),
{
    if data.len() == 0 {
        return None;
    }
    if let Some(line) = tls::tls(data) {
        return Some(line);
    }
    if let Some(line) = http::http(data) {
        return Some(line);
    }
    if let Some(line) = dns::dns(data) {
        return Some(line);
    }
    other::other(data)
}

} // verus!
