//! Enough DNS to answer a query.
//!
//! A reply has to echo the transaction id and the question of the query or the
//! client discards it, so it is built from the request. The point is not to be a
//! resolver but to keep a device working while it is watched.
use crate::bytes;
use crate::bytes::{be16, push_be16, push_be32, push_bytes};
use vstd::prelude::*;

verus! {

pub const TYPE_A: u16 = 1;

pub const TYPE_AAAA: u16 = 28;

pub const CLASS_IN: u16 = 1;

pub const HEADER_LEN: usize = 12;

/// The addresses that every name resolves to.
#[derive(Debug, Clone, Copy)]
pub struct Answer {
    /// the octets of an IPv4 address
    pub a: Option<[u8; 4]>,
    /// the octets of an IPv6 address
    pub aaaa: Option<[u8; 16]>,
    pub ttl: u32,
}

/// A query with a single question.
pub struct Query {
    pub id: u16,
    pub flags: u16,
    pub qtype: u16,
    pub qclass: u16,
    /// byte range of the question section within the message
    pub question: std::ops::Range<usize>,
}

/// What a query says; the question section runs from `start` to `end`.
pub struct QueryModel {
    pub id: u16,
    pub flags: u16,
    pub qtype: u16,
    pub qclass: u16,
    pub start: int,
    pub end: int,
}

impl View for Query {
    type V = QueryModel;

    open spec fn view(&self) -> QueryModel {
        QueryModel {
            id: self.id,
            flags: self.flags,
            qtype: self.qtype,
            qclass: self.qclass,
            start: self.question.start as int,
            end: self.question.end as int,
        }
    }
}

/// A response has the topmost flag set.
pub open spec fn is_response(flags: u16) -> bool {
    flags & 0x8000 != 0
}

/// The four bits that say what kind of request it is; zero is a standard query.
pub open spec fn opcode(flags: u16) -> u16 {
    (flags >> 11) & 0x0f
}

/// Where a name ends that goes on at `at` behind `labels` labels: just past its
/// empty label. A name is refused when it is cut off, when it holds a compression
/// pointer, and when a label follows the 128th.
pub open spec fn name_end(msg: Seq<u8>, at: int, labels: nat) -> Option<int>
    decreases msg.len() - at,
{
    if at < 0 || at >= msg.len() {
        None
    } else if msg[at] == 0 {
        Some(at + 1)
    } else if msg[at] >= 0x40 || labels > 127 || at + 1 + msg[at] > msg.len() {
        None
    } else {
        name_end(msg, at + 1 + msg[at], labels + 1)
    }
}

/// The query that a message is: at least a header, the response flag clear, the
/// standard opcode, exactly one question, and that question whole.
pub open spec fn query_of(msg: Seq<u8>) -> Option<QueryModel> {
    if msg.len() < HEADER_LEN {
        None
    } else {
        let flags = bytes::be16_at(msg, 2)->0;
        if is_response(flags) || opcode(flags) != 0 || bytes::be16_at(msg, 4) != Some(1u16) {
            None
        } else {
            match name_end(msg, HEADER_LEN as int, 0) {
                None => None,
                Some(p) => match (bytes::be16_at(msg, p), bytes::be16_at(msg, p + 2)) {
                    (Some(qtype), Some(qclass)) => Some(
                        QueryModel {
                            id: bytes::be16_at(msg, 0)->0,
                            flags,
                            qtype,
                            qclass,
                            start: HEADER_LEN as int,
                            end: p + 4,
                        },
                    ),
                    _ => None,
                },
            }
        }
    }
}

/// Parses a single-question query. Anything else is refused, responses included,
/// so that an answer is never answered.
pub fn parse(msg: &[u8]) -> (q: Option<Query>)
    ensures
        q is Some <==> query_of(msg@) is Some,
        q matches Some(query) ==> query_of(msg@) == Some(query@),
        q matches Some(query) ==> query.question.start <= query.question.end <= msg.len(),
{
    if msg.len() < HEADER_LEN {
        return None;
    }
    let id = be16(msg, 0)?;
    let flags = be16(msg, 2)?;
    if flags & 0x8000 != 0 || (flags >> 11) & 0x0f != 0 || be16(msg, 4)? != 1 {
        return None;
    }
    let start: usize = HEADER_LEN;
    let mut p: usize = start;
    let mut labels: usize = 0;
    loop
        invariant_except_break
            start <= p,
            labels <= 128,
            name_end(msg@, HEADER_LEN as int, 0) == name_end(msg@, p as int, labels as nat),
        invariant
            query_of(msg@) is Some ==> name_end(msg@, HEADER_LEN as int, 0) is Some,
        ensures
            start <= p <= msg.len(),
            name_end(msg@, HEADER_LEN as int, 0) == Some(p as int),
        decreases 129 - labels,
    {
        if p >= msg.len() {
            return None;
        }
        let len: u8 = msg[p];
        assert((len & 0xc0 != 0) == (len >= 0x40)) by (bit_vector);
        if len == 0 {
            p += 1;
            break;
        }
        if len & 0xc0 != 0 || labels > 127 {
            return None;
        }
        if len as usize > msg.len() - p - 1 {
            return None;
        }
        labels += 1;
        p += 1 + len as usize;
    }
    let qtype = be16(msg, p)?;
    if msg.len() - p < 4 {
        return None;
    }
    let qclass = be16(msg, p + 2)?;
    Some(Query { id, flags, qtype, qclass, question: start..p + 4 })
}

/// The address configured for a question, if the question asks for one.
pub open spec fn record_for(q: QueryModel, ans: Answer) -> Option<Seq<u8>> {
    if q.qclass != CLASS_IN {
        None
    } else if q.qtype == TYPE_A {
        match ans.a {
            Some(octets) => Some(octets@),
            None => None,
        }
    } else if q.qtype == TYPE_AAAA {
        match ans.aaaa {
            Some(octets) => Some(octets@),
            None => None,
        }
    } else {
        None
    }
}

/// The flags of a reply: a response, opcode and recursion-desired as in the
/// query, recursion available, no error.
pub open spec fn reply_flags(flags: u16) -> u16 {
    0x8000 | (flags & 0x7800) | (flags & 0x0100) | 0x0080
}

/// The reply to a query: the header, the question as it was asked, and one
/// record where an address is configured.
pub open spec fn reply_to(msg: Seq<u8>, q: QueryModel, ans: Answer) -> Seq<u8> {
    let record = record_for(q, ans);
    let count: u16 = if record is Some {
        1
    } else {
        0
    };
    let head = bytes::be16_bytes(q.id) + bytes::be16_bytes(reply_flags(q.flags))
        + bytes::be16_bytes(1) + bytes::be16_bytes(count) + bytes::be16_bytes(0)
        + bytes::be16_bytes(0) + msg.subrange(q.start, q.end);
    match record {
        // the name is a pointer back to the question
        Some(data) => head + seq![0xc0u8, 0x0cu8] + bytes::be16_bytes(q.qtype)
            + bytes::be16_bytes(CLASS_IN) + bytes::be32_bytes(ans.ttl) + bytes::be16_bytes(data.len() as u16) + data,
        None => head,
    }
}

/// The reply to a message, if it is a query.
pub open spec fn reply_of(msg: Seq<u8>, ans: Answer) -> Option<Seq<u8>> {
    match query_of(msg) {
        Some(q) => Some(reply_to(msg, q, ans)),
        None => None,
    }
}

/// Builds a reply to `msg`, or nothing when it is not a query.
///
/// A query without a record gets NOERROR and zero answers rather than NXDOMAIN:
/// that stops the client retrying without telling it that the name is absent.
pub fn reply(msg: &[u8], ans: &Answer) -> (out: Option<Vec<u8>>)
    ensures
        out is Some <==> reply_of(msg@, *ans) is Some,
        out matches Some(bytes) ==> reply_of(msg@, *ans) == Some(bytes@),
{
    let q = match parse(msg) {
        Some(q) => q,
        None => {
            return None;
        },
    };
    let mut data: Vec<u8> = Vec::new();
    let mut known = false;
    if q.qclass == CLASS_IN {
        if q.qtype == TYPE_A {
            if let Some(octets) = &ans.a {
                push_bytes(&mut data, octets.as_slice());
                known = true;
                assert(data@ =~= octets@);
            }
        } else if q.qtype == TYPE_AAAA {
            if let Some(octets) = &ans.aaaa {
                push_bytes(&mut data, octets.as_slice());
                known = true;
                assert(data@ =~= octets@);
            }
        }
    }
    assert(record_for(q@, *ans) == if known {
        Some(data@)
    } else {
        None
    });
    let mut out: Vec<u8> = Vec::new();
    push_be16(&mut out, q.id);
    assert(out@ =~= bytes::be16_bytes(q.id));
    let flags: u16 = 0x8000 | (q.flags & 0x7800) | (q.flags & 0x0100) | 0x0080;
    push_be16(&mut out, flags);
    push_be16(&mut out, 1);
    push_be16(&mut out, if known { 1 } else { 0 });
    push_be16(&mut out, 0);
    push_be16(&mut out, 0);
    push_bytes(&mut out, vstd::slice::slice_subrange(msg, q.question.start, q.question.end));
    if known {
        out.push(0xc0);
        out.push(0x0c);
        proof {
            let before = bytes::be16_bytes(q.id) + bytes::be16_bytes(flags) + bytes::be16_bytes(1) + bytes::be16_bytes(1)
                + bytes::be16_bytes(0) + bytes::be16_bytes(0) + msg@.subrange(q@.start, q@.end);
            assert(out@ =~= before + seq![0xc0u8, 0x0cu8]);
        }
        push_be16(&mut out, q.qtype);
        push_be16(&mut out, CLASS_IN);
        push_be32(&mut out, ans.ttl);
        push_be16(&mut out, data.len() as u16);
        push_bytes(&mut out, data.as_slice());
    }
    Some(out)
}

/// The part of a frame that holds the message: what the two-byte prefix
/// declares, or all that has arrived when that is less.
pub open spec fn framed_body(msg: Seq<u8>) -> Seq<u8> {
    let declared = bytes::be16_at(msg, 0)->0 as int;
    msg.subrange(2, 2 + if declared < msg.len() - 2 {
        declared
    } else {
        msg.len() - 2
    })
}

/// The framed reply to a framed message, if it holds a query.
pub open spec fn reply_tcp_of(msg: Seq<u8>, ans: Answer) -> Option<Seq<u8>> {
    if msg.len() < 2 {
        None
    } else {
        match reply_of(framed_body(msg), ans) {
            Some(inner) => Some(bytes::be16_bytes(inner.len() as u16) + inner),
            None => None,
        }
    }
}

/// DNS over tcp frames each message with a two-byte length prefix.
pub fn reply_tcp(msg: &[u8], ans: &Answer) -> (out: Option<Vec<u8>>)
    ensures
        out is Some <==> reply_tcp_of(msg@, *ans) is Some,
        out matches Some(bytes) ==> reply_tcp_of(msg@, *ans) == Some(bytes@),
{
    let declared: usize = be16(msg, 0)? as usize;
    let arrived: usize = msg.len() - 2;
    let n: usize = if declared < arrived { declared } else { arrived };
    let body = vstd::slice::slice_subrange(msg, 2, 2 + n);
    assert(body@ == framed_body(msg@));
    let inner = match reply(body, ans) {
        Some(inner) => inner,
        None => {
            return None;
        },
    };
    let mut out: Vec<u8> = Vec::new();
    #[verifier::truncate]
    let len: u16 = inner.len() as u16;
    push_be16(&mut out, len);
    assert(out@ =~= bytes::be16_bytes(len));
    push_bytes(&mut out, inner.as_slice());
    Some(out)
}

// ------------------------------------------------------------- laws

proof fn name_end_bounds(msg: Seq<u8>, at: int, labels: nat)
    requires
        labels <= 128,
    ensures
        name_end(msg, at, labels) matches Some(end) ==> at < end <= msg.len() && end - at <= 1 + 64
            * (128 - labels),
    decreases msg.len() - at,
{
    if 0 <= at < msg.len() && msg[at] != 0 && msg[at] < 0x40 && labels <= 127 && at + 1 + msg[at]
        <= msg.len() {
        name_end_bounds(msg, at + 1 + msg[at], labels + 1);
    }
}

/// The question section of a query starts behind the header, lies within the
/// message and is never longer than 128 labels allow.
pub proof fn question_lies_in_the_message(msg: Seq<u8>)
    ensures
        query_of(msg) matches Some(q) ==> {
            &&& q.start == HEADER_LEN
            &&& q.start < q.end <= msg.len()
            &&& q.end - q.start <= 8197
        },
{
    name_end_bounds(msg, HEADER_LEN as int, 0);
}

/// A response is never answered, over udp or over tcp.
pub proof fn a_response_is_never_answered(msg: Seq<u8>, ans: Answer)
    ensures
        bytes::be16_at(msg, 2) matches Some(flags) ==> is_response(flags) ==> query_of(msg) is None
            && reply_of(msg, ans) is None,
        bytes::be16_at(msg, 4) matches Some(flags) ==> is_response(flags) ==> reply_tcp_of(msg, ans)
            is None,
{
    if msg.len() >= 6 {
        let body = framed_body(msg);
        if body.len() >= HEADER_LEN {
            assert(bytes::be16_at(body, 2) == bytes::be16_at(msg, 4));
        }
    }
}

/// Every reply echoes the transaction id and the question of its query, is
/// itself a response without an error, asks what was asked, and counts at most
/// one answer, which is there exactly when an address is configured.
pub proof fn a_reply_echoes_its_query(msg: Seq<u8>, ans: Answer)
    ensures
        query_of(msg) matches Some(q) ==> {
            let out = reply_of(msg, ans)->0;
            let n = q.end;
            &&& reply_of(msg, ans) is Some
            &&& out.take(2) == msg.take(2)
            &&& is_response(bytes::be16_at(out, 2)->0)
            &&& opcode(bytes::be16_at(out, 2)->0) == 0
            &&& bytes::be16_at(out, 2)->0 & 0x0f == 0
            &&& bytes::be16_at(out, 2)->0 & 0x0100 == q.flags & 0x0100
            &&& bytes::be16_at(out, 4) == Some(1u16)
            &&& bytes::be16_at(out, 6) == Some(
                if record_for(q, ans) is Some {
                    1u16
                } else {
                    0u16
                },
            )
            &&& out.subrange(12, n) == msg.subrange(12, n)
            &&& (record_for(q, ans) is None ==> out.len() == n)
            &&& (record_for(q, ans) matches Some(data) ==> out.len() == n + 12 + data.len()
                && out.skip(n + 12) == data)
        },
{
    if let Some(q) = query_of(msg) {
        question_lies_in_the_message(msg);
        let out = reply_to(msg, q, ans);
        let flags = q.flags;
        assert({
            let f = 0x8000 | (flags & 0x7800) | (flags & 0x0100) | 0x0080;
            &&& f & 0x8000 != 0
            &&& ((flags >> 11) & 0x0f == 0 ==> (f >> 11) & 0x0f == 0)
            &&& f & 0x0f == 0
            &&& f & 0x0100 == flags & 0x0100
        }) by (bit_vector);
        assert(bytes::be16_at(out, 2) == Some(reply_flags(flags)));
        assert(out.take(2) =~= msg.take(2));
        assert(out.subrange(12, q.end) =~= msg.subrange(12, q.end));
        if let Some(data) = record_for(q, ans) {
            assert(out.skip(q.end + 12) =~= data);
        }
    }
}

/// Replies do not set off replies: a reply is never taken for a query.
pub proof fn a_reply_is_never_answered(msg: Seq<u8>, ans: Answer, again: Answer)
    ensures
        reply_of(msg, ans) matches Some(out) ==> reply_of(out, again) is None,
{
    a_reply_echoes_its_query(msg, ans);
    if let Some(out) = reply_of(msg, ans) {
        question_lies_in_the_message(msg);
        a_response_is_never_answered(out, again);
    }
}

/// The length prefix of a framed reply is the length of what follows it, and
/// what follows is the reply to the message inside the frame.
pub proof fn a_framed_reply_declares_its_length(msg: Seq<u8>, ans: Answer)
    ensures
        reply_tcp_of(msg, ans) matches Some(out) ==> {
            &&& bytes::be16_at(out, 0) == Some((out.len() - 2) as u16)
            &&& bytes::be16_at(out, 0)->0 == out.len() - 2
            &&& reply_of(framed_body(msg), ans) == Some(out.skip(2))
        },
{
    if let Some(out) = reply_tcp_of(msg, ans) {
        let body = framed_body(msg);
        let inner = reply_of(body, ans)->0;
        question_lies_in_the_message(body);
        a_reply_echoes_its_query(body, ans);
        let q = query_of(body)->0;
        assert(record_for(q, ans) matches Some(data) ==> data.len() <= 16);
        assert(out.skip(2) =~= inner);
        assert(bytes::be16_at(out, 0) == Some(inner.len() as u16));
    }
}

/// A query framed whole draws, framed, the reply that it draws on its own.
pub proof fn framing_changes_nothing(inner: Seq<u8>, ans: Answer)
    requires
        inner.len() <= 0xffff,
    ensures
        ({
            let framed = bytes::be16_bytes(inner.len() as u16) + inner;
            match reply_of(inner, ans) {
                Some(out) => reply_tcp_of(framed, ans) == Some(
                    bytes::be16_bytes(out.len() as u16) + out,
                ),
                None => reply_tcp_of(framed, ans) is None,
            }
        }),
{
    let framed = bytes::be16_bytes(inner.len() as u16) + inner;
    assert(framed_body(framed) =~= inner);
}

/// What follows the message that a frame declares is no part of it.
pub proof fn what_follows_a_frame_is_ignored(inner: Seq<u8>, more: Seq<u8>, ans: Answer)
    requires
        inner.len() <= 0xffff,
    ensures
        ({
            let framed = bytes::be16_bytes(inner.len() as u16) + inner;
            reply_tcp_of(framed + more, ans) == reply_tcp_of(framed, ans)
        }),
{
    let framed = bytes::be16_bytes(inner.len() as u16) + inner;
    assert(framed_body(framed) =~= inner);
    assert(framed_body(framed + more) =~= inner);
}

} // verus!
