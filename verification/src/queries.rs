//! What holds of every DNS query that goes over the wire: how it is reported and how
//! it is answered.
use crate::bytes;
use crate::classify;
use crate::classify::dns as names;
use crate::classify::http;
use crate::classify::laws;
use crate::classify::requests;
use crate::classify::tls;
use crate::dns;
use crate::dns::{parse, reply, reply_tcp, Answer, Query, QueryModel};
use crate::text;
use vstd::prelude::*;

verus! {

// ------------------------------------------------------------- record types

/// The number of a record type by its name.
pub open spec fn type_code(name: Seq<char>) -> Option<nat> {
    if name == "A"@ {
        Some(1)
    } else if name == "NS"@ {
        Some(2)
    } else if name == "CNAME"@ {
        Some(5)
    } else if name == "SOA"@ {
        Some(6)
    } else if name == "PTR"@ {
        Some(12)
    } else if name == "MX"@ {
        Some(15)
    } else if name == "TXT"@ {
        Some(16)
    } else if name == "AAAA"@ {
        Some(28)
    } else if name == "SRV"@ {
        Some(33)
    } else if name == "HTTPS"@ {
        Some(65)
    } else if name.len() > 4 && name.take(4) == "TYPE"@ {
        Some(text::digits_value(name.skip(4)))
    } else {
        None
    }
}

/// A record type is told by its name: no two share one, the usual ones have their
/// usual names, and the others are called by their number.
#[verifier::rlimit(50)]
pub proof fn a_type_is_told_by_its_name(t: u16)
    ensures
        type_code(names::qtype_of(t)) == Some(t as nat),
{
    reveal_strlit("A");
    reveal_strlit("NS");
    reveal_strlit("CNAME");
    reveal_strlit("SOA");
    reveal_strlit("PTR");
    reveal_strlit("MX");
    reveal_strlit("TXT");
    reveal_strlit("AAAA");
    reveal_strlit("SRV");
    reveal_strlit("HTTPS");
    reveal_strlit("TYPE");
    let name = "TYPE"@ + text::decimal(t as nat);
    text::decimal_reads_back(t as nat);
    assert(name.take(4) =~= "TYPE"@);
    assert(name.skip(4) =~= text::decimal(t as nat));
    assert(name[0] == 'T' && name[1] == 'Y');
    assert("NS"@[0] == 'N' && "CNAME"@[0] == 'C' && "SOA"@[1] == 'O' && "PTR"@[0] == 'P');
    assert("MX"@[0] == 'M' && "TXT"@[1] == 'X' && "AAAA"@[1] == 'A' && "SRV"@[1] == 'R');
    assert("HTTPS"@[0] == 'H' && "A"@.len() == 1);
}

// ------------------------------------------------------------- reports

/// Whether the first twelve bytes open a query: the response flag clear, the
/// standard opcode and exactly one question.
pub open spec fn opens_query(head: Seq<u8>) -> bool {
    head.len() >= 12 && head[2] < 8 && head[4] == 0 && head[5] == 1
}

proof fn flags_of_a_query(head: Seq<u8>)
    requires
        head.len() >= 12,
    ensures
        opens_query(head) <==> {
            let flags = bytes::be16_at(head, 2)->0;
            !dns::is_response(flags) && dns::opcode(flags) == 0 && bytes::be16_at(head, 4) == Some(
                1u16,
            )
        },
{
    let hi = head[2];
    let lo = head[3];
    let flags = bytes::be16_at(head, 2)->0;
    assert(flags == hi as u16 * 256 + lo as u16);
    assert((flags & 0x8000 == 0 && (flags >> 11) & 0x0f == 0) <==> hi < 8) by (bit_vector)
        requires
            flags == hi * 256 + lo,
    ;
}

proof fn no_request_is_a_query(d: Seq<u8>)
    requires
        opens_query(d),
    ensures
        http::http_of(d) is None,
{
    requests::a_request_begins_with_a_method(d);
}

/// A query is reported with the type and the name that it asks for, whatever its
/// id, its other flags and what follows; only one whose id makes it look like the
/// opening of a TLS record is not.
#[verifier::rlimit(50)]
pub proof fn a_query_is_named(
    head: Seq<u8>,
    labels: Seq<Seq<u8>>,
    qtype: u16,
    rest: Seq<u8>,
)
    requires
        head.len() == 12,
        opens_query(head),
        head[6] == 0 && head[7] == 0,
        head[0] != 0x16 || head[1] != 0x03,
        0 < labels.len() <= 64,
        forall|i: int| 0 <= i < labels.len() ==> laws::is_label(#[trigger] labels[i]),
    ensures
        classify::guess(head + laws::name_bytes(labels) + bytes::be16_bytes(qtype) + rest) == Some(
            "DNS query "@ + names::qtype_of(qtype) + " "@ + text::joined(
                Seq::new(
                    labels.len(),
                    |i: int| Seq::new(labels[i].len(), |k: int| labels[i][k] as char),
                ),
                "."@,
            ),
        ),
{
    let d = head + laws::name_bytes(labels) + bytes::be16_bytes(qtype) + rest;
    flags_of_a_query(head);
    assert(bytes::be16_at(head, 6) == Some(0u16));
    laws::a_query_is_reported(head, labels, qtype, rest);
    assert(d[0] == head[0] && d[1] == head[1] && d[2] == head[2] && d[4] == head[4] && d[5]
        == head[5]);
    no_request_is_a_query(d);
    assert(tls::tls_of(d) is None);
    let texts = Seq::new(
        labels.len(),
        |i: int| Seq::new(labels[i].len(), |k: int| labels[i][k] as char),
    );
    assert forall|i: int| 0 <= i < labels.len() implies laws::label_texts(labels)[i]
        == texts[i] by {
        assert(laws::label_texts(labels)[i] =~= texts[i]);
    }
    assert(laws::label_texts(labels) =~= texts);
}

proof fn labels_were_there(d: Seq<u8>, at: int, n: nat) -> (labels: Seq<Seq<u8>>)
    requires
        names::labels_from(d, at, n) is Some,
        0 <= at,
        n <= 64,
    ensures
        ({
            let (texts, end) = names::labels_from(d, at, n)->0;
            &&& n + labels.len() <= 64
            &&& texts.len() == labels.len()
            &&& forall|i: int| 0 <= i < labels.len() ==> laws::is_label(#[trigger] labels[i])
            &&& at < end <= d.len()
            &&& d.subrange(at, end) == laws::name_bytes(labels)
        }),
    decreases d.len() - at,
{
    if d[at] == 0 {
        let labels = Seq::<Seq<u8>>::empty();
        assert(d.subrange(at, at + 1) =~= seq![0u8]);
        labels
    } else {
        let next = at + 1 + d[at];
        let label = d.subrange(at + 1, next);
        let rest = labels_were_there(d, next, n + 1);
        let (_, end) = names::labels_from(d, at, n)->0;
        let labels = seq![label] + rest;
        assert(labels.skip(1) =~= rest);
        assert(d.subrange(at, end) =~= seq![d[at]] + label + d.subrange(next, end));
        assert forall|i: int| 0 <= i < label.len() implies names::is_graphic(
            #[trigger] label[i],
        ) by {
        }
        assert(laws::is_label(label));
        assert forall|i: int| 0 <= i < labels.len() implies laws::is_label(
            #[trigger] labels[i],
        ) by {
            if i > 0 {
                assert(labels[i] == rest[i - 1]);
            }
        }
        labels
    }
}

/// Nothing but a query is reported as one: there are at most 64 visible labels and
/// at least one, a type behind them, and no answers.
pub proof fn nothing_else_is_a_query(d: Seq<u8>)
    ensures
        names::dns_of(d) is Some ==> {
            &&& opens_query(d)
            &&& d[6] == 0 && d[7] == 0
            &&& exists|labels: Seq<Seq<u8>>, rest: Seq<u8>|
                0 < labels.len() <= 64 && rest.len() >= 2 && d == #[trigger] (d.take(12)
                    + laws::name_bytes(labels) + rest) && forall|i: int|
                    0 <= i < labels.len() ==> laws::is_label(#[trigger] labels[i])
        },
{
    if names::dns_of(d) is Some {
        flags_of_a_query(d);
        let labels = labels_were_there(d, 12, 0);
        let (_, end) = names::labels_from(d, 12, 0)->0;
        assert(d =~= d.take(12) + d.subrange(12, end) + d.skip(end));
        assert(d == d.take(12) + laws::name_bytes(labels) + d.skip(end));
    }
}

// ------------------------------------------------------------- answers

/// Whether a message is a query for a name with these labels, of this type and
/// class.
pub open spec fn is_query(
    msg: Seq<u8>,
    labels: Seq<Seq<u8>>,
    qtype: u16,
    qclass: u16,
    rest: Seq<u8>,
) -> bool {
    &&& opens_query(msg)
    &&& labels.len() <= 128
    &&& forall|i: int| 0 <= i < labels.len() ==> 0 < (#[trigger] labels[i]).len() < 0x40
    &&& msg.skip(12) == laws::name_bytes(labels) + bytes::be16_bytes(qtype) + bytes::be16_bytes(
        qclass,
    ) + rest
}

/// Where the question of such a query ends: the header, the name, and four bytes for
/// type and class.
pub open spec fn question_end(labels: Seq<Seq<u8>>) -> int {
    12 + laws::name_bytes(labels).len() as int + 4
}

/// The octets that are configured for a type and a class: the IPv4 address for
/// addresses of the internet, the IPv6 address for the longer ones, and nothing
/// else.
pub open spec fn configured(qtype: u16, qclass: u16, ans: Answer) -> Option<Seq<u8>> {
    if qtype == 1 && qclass == 1 && ans.a is Some {
        Some(ans.a->0@)
    } else if qtype == 28 && qclass == 1 && ans.aaaa is Some {
        Some(ans.aaaa->0@)
    } else {
        None
    }
}

/// Whether `out` is, from `n` on, one record: named by a pointer to the question, of
/// that type, of the class of the internet, with that time to live and that data.
pub open spec fn is_record(out: Seq<u8>, n: int, qtype: u16, ttl: u32, data: Seq<u8>) -> bool {
    &&& out.len() == n + 12 + data.len()
    &&& out[n] == 0xc0 && out[n + 1] == 12
    &&& out[n + 2] * 0x100 + out[n + 3] == qtype
    &&& out[n + 4] == 0 && out[n + 5] == 1
    &&& out[n + 6] * 0x100_0000 + out[n + 7] * 0x1_0000 + out[n + 8] * 0x100 + out[n + 9] == ttl
    &&& out[n + 10] * 0x100 + out[n + 11] == data.len()
    &&& out.skip(n + 12) == data
}

/// Whether `out` answers a query: it has its id and its question, is a response
/// without an error that does recursion and wants it if the query did, and carries
/// one record where an address is configured, and else none.
pub open spec fn is_answer(
    out: Seq<u8>,
    msg: Seq<u8>,
    labels: Seq<Seq<u8>>,
    qtype: u16,
    qclass: u16,
    ans: Answer,
) -> bool {
    let n = question_end(labels);
    &&& out.len() >= n
    &&& out[0] == msg[0] && out[1] == msg[1]
    &&& out[2] == 0x80 + msg[2] % 2 && out[3] == 0x80
    &&& out[4] == 0 && out[5] == 1
    &&& out[6] == 0 && out[8] == 0 && out[9] == 0 && out[10] == 0 && out[11] == 0
    &&& out.subrange(12, n) == msg.subrange(12, n)
    &&& match configured(qtype, qclass, ans) {
        Some(data) => out[7] == 1 && is_record(out, n, qtype, ans.ttl, data),
        None => out[7] == 0 && out.len() == n,
    }
}

proof fn the_name_is_passed(msg: Seq<u8>, at: int, n: nat, labels: Seq<Seq<u8>>, rest: Seq<u8>)
    requires
        0 <= at <= msg.len(),
        msg.skip(at) == laws::name_bytes(labels) + rest,
        forall|i: int| 0 <= i < labels.len() ==> 0 < (#[trigger] labels[i]).len() < 0x40,
        n + labels.len() <= 128,
    ensures
        dns::name_end(msg, at, n) == Some(at + laws::name_bytes(labels).len()),
    decreases labels.len(),
{
    let name = laws::name_bytes(labels);
    let all = name + rest;
    assert forall|k: int| 0 <= k < all.len() implies msg[at + k] == all[k] by {
        assert(msg.skip(at)[k] == msg[at + k]);
    }
    assert(all.len() == msg.len() - at);
    assert(name.len() > 0);
    assert(msg[at + 0] == all[0]);
    if labels.len() > 0 {
        let len = labels[0].len() as int;
        let more = laws::name_bytes(labels.skip(1));
        assert(0 < labels[0].len() < 0x40);
        assert(all[0] == len as u8);
        let next = at + 1 + len;
        assert(msg.skip(next) =~= more + rest) by {
            assert forall|k: int| 0 <= k < (more + rest).len() implies msg[next + k] == (more
                + rest)[k] by {
                assert(msg[at + (1 + len + k)] == all[1 + len + k]);
            }
        }
        assert forall|i: int| 0 <= i < labels.skip(1).len() implies 0 < (#[trigger] labels.skip(
            1,
        )[i]).len() < 0x40 by {
            assert(labels.skip(1)[i] == labels[i + 1]);
        }
        the_name_is_passed(msg, next, n + 1, labels.skip(1), rest);
    }
}

/// A query is read as what it says: its id, its flags, its type, its class, and
/// where its question stands.
pub proof fn a_query_is_read(
    msg: Seq<u8>,
    labels: Seq<Seq<u8>>,
    qtype: u16,
    qclass: u16,
    rest: Seq<u8>,
)
    requires
        is_query(msg, labels, qtype, qclass, rest),
    ensures
        dns::query_of(msg) == Some(
            QueryModel {
                id: (msg[0] * 0x100 + msg[1]) as u16,
                flags: (msg[2] * 0x100 + msg[3]) as u16,
                qtype,
                qclass,
                start: 12,
                end: question_end(labels),
            },
        ),
        question_end(labels) <= msg.len(),
{
    flags_of_a_query(msg);
    let name = laws::name_bytes(labels);
    let tail = bytes::be16_bytes(qtype) + bytes::be16_bytes(qclass) + rest;
    assert(msg.skip(12) =~= name + tail);
    the_name_is_passed(msg, 12, 0, labels, tail);
    let p = 12 + name.len() as int;
    assert forall|k: int| 0 <= k < 4 implies msg[p + k] == tail[k] by {
        assert(msg.skip(12)[name.len() + k] == msg[p + k]);
    }
    assert(msg[p + 0] == tail[0] && msg[p + 1] == tail[1]);
    assert(msg[p + 2] == tail[2] && msg[p + 3] == tail[3]);
    assert(tail[0] == bytes::be16_bytes(qtype)[0] && tail[1] == bytes::be16_bytes(qtype)[1]);
    assert(tail[2] == bytes::be16_bytes(qclass)[0] && tail[3] == bytes::be16_bytes(qclass)[1]);
    assert(msg.skip(12).len() == msg.len() - 12);
}

/// The twelve bytes of the header of a reply.
spec fn header_bytes(id: u16, flags: u16, count: u16) -> Seq<u8> {
    bytes::be16_bytes(id) + bytes::be16_bytes(flags) + bytes::be16_bytes(1) + bytes::be16_bytes(count)
        + bytes::be16_bytes(0) + bytes::be16_bytes(0)
}

/// The bytes of a record.
spec fn record_bytes(qtype: u16, ttl: u32, data: Seq<u8>) -> Seq<u8> {
    seq![0xc0u8, 0x0cu8] + bytes::be16_bytes(qtype) + bytes::be16_bytes(1) + bytes::be32_bytes(ttl)
        + bytes::be16_bytes(data.len() as u16) + data
}

proof fn a_header_reads_back(hi: u8, lo: u8, id: u16, count: u16)
    requires
        hi < 8,
        count <= 1,
    ensures
        ({
            let h = header_bytes(id, dns::reply_flags((hi * 256 + lo) as u16), count);
            &&& h.len() == 12
            &&& h[0] * 256 + h[1] == id
            &&& h[2] == 0x80 + hi % 2 && h[3] == 0x80
            &&& h[4] == 0 && h[5] == 1 && h[6] == 0 && h[7] == count
            &&& h[8] == 0 && h[9] == 0 && h[10] == 0 && h[11] == 0
        }),
{
    let flags = (hi * 256 + lo) as u16;
    let f = dns::reply_flags(flags);
    assert(0x8000 | (flags & 0x7800) | (flags & 0x0100) | 0x0080 == 0x8080 + (hi % 2) * 256)
        by (bit_vector)
        requires
            flags == hi * 256 + lo,
            hi < 8,
    ;
    assert(f == 0x8080 + (hi % 2) * 256);
    assert(bytes::be16_bytes(f)[0] == 0x80 + hi % 2);
    assert(bytes::be16_bytes(f)[1] == 0x80);
}

#[verifier::rlimit(50)]
proof fn a_record_reads_back(front: Seq<u8>, qtype: u16, ttl: u32, data: Seq<u8>)
    requires
        data.len() <= 16,
    ensures
        is_record(
            front + record_bytes(qtype, ttl, data),
            front.len() as int,
            qtype,
            ttl,
            data,
        ),
{
    let r = record_bytes(qtype, ttl, data);
    let out = front + r;
    let n = front.len() as int;
    let t = bytes::be16_bytes(qtype);
    let four = bytes::be32_bytes(ttl);
    let size = bytes::be16_bytes(data.len() as u16);
    bytes::the_first_byte_weighs_most(qtype, ttl, out, n);
    assert(r.len() == 12 + data.len());
    assert forall|k: int| 0 <= k < r.len() implies #[trigger] out[n + k] == r[k] by {
    }
    assert(out[n + 0] == r[0] && out[n + 1] == r[1]);
    assert(out[n + 2] == r[2] && out[n + 3] == r[3] && r[2] == t[0] && r[3] == t[1]);
    assert(out[n + 4] == r[4] && out[n + 5] == r[5]);
    assert(r[4] == bytes::be16_bytes(1)[0] && r[5] == bytes::be16_bytes(1)[1]);
    assert(out[n + 6] == r[6] && out[n + 7] == r[7] && out[n + 8] == r[8] && out[n + 9] == r[9]);
    assert(r[6] == four[0] && r[7] == four[1] && r[8] == four[2] && r[9] == four[3]);
    assert(out[n + 10] == r[10] && out[n + 11] == r[11] && r[10] == size[0] && r[11] == size[1]);
    assert(out.skip(n + 12) =~= data);
}

/// Every query is answered, by a reply that its sender takes for an answer to the
/// question: with the address that is configured for what was asked, as a record of
/// the type and the class asked for, and without a record where none is.
#[verifier::rlimit(50)]
pub proof fn a_query_is_answered(
    msg: Seq<u8>,
    labels: Seq<Seq<u8>>,
    qtype: u16,
    qclass: u16,
    rest: Seq<u8>,
    ans: Answer,
)
    requires
        is_query(msg, labels, qtype, qclass, rest),
    ensures
        dns::reply_of(msg, ans) matches Some(out) && is_answer(
            out,
            msg,
            labels,
            qtype,
            qclass,
            ans,
        ),
{
    a_query_is_read(msg, labels, qtype, qclass, rest);
    let q = dns::query_of(msg)->0;
    let out = dns::reply_of(msg, ans)->0;
    let n = q.end;
    let data = configured(qtype, qclass, ans);
    let count: u16 = if data is Some {
        1
    } else {
        0
    };
    let h = header_bytes(q.id, dns::reply_flags(q.flags), count);
    let front = h + msg.subrange(12, n);
    a_header_reads_back(msg[2], msg[3], q.id, count);
    assert(dns::record_for(q, ans) == data);
    assert(front.len() == n);
    assert(front.subrange(12, n) =~= msg.subrange(12, n));
    match data {
        Some(data) => {
            assert(data.len() <= 16);
            a_record_reads_back(front, qtype, ans.ttl, data);
            assert(out =~= front + record_bytes(qtype, ans.ttl, data));
        },
        None => {
            assert(out =~= front);
        },
    }
    assert(out.subrange(12, n) =~= front.subrange(12, n));
    assert forall|k: int| 0 <= k < 12 implies #[trigger] out[k] == h[k] by {
        assert(out[k] == front[k]);
    }
    assert(q.id == msg[0] * 256 + msg[1]);
}

/// So is every query that `reply` is given, over udp and, behind its length and
/// whatever follows it, over tcp: there the answer stands behind its own length.
#[verifier::rlimit(50)]
pub proof fn every_query_is_replied_to(
    msg: &[u8],
    framed: &[u8],
    ans: &Answer,
    out: Option<Vec<u8>>,
    framed_out: Option<Vec<u8>>,
    labels: Seq<Seq<u8>>,
    qtype: u16,
    qclass: u16,
    rest: Seq<u8>,
    more: Seq<u8>,
)
    requires
        call_ensures(reply, (msg, ans), out),
        call_ensures(reply_tcp, (framed, ans), framed_out),
        is_query(msg@, labels, qtype, qclass, rest),
        msg@.len() <= 0xffff,
        framed@ == bytes::be16_bytes(msg@.len() as u16) + msg@ + more,
    ensures
        out matches Some(o) && is_answer(o@, msg@, labels, qtype, qclass, *ans),
        framed_out matches Some(o) && o@.len() >= 2 && o@[0] * 0x100 + o@[1] == o@.len() - 2
            && is_answer(o@.skip(2), msg@, labels, qtype, qclass, *ans),
{
    a_query_is_answered(msg@, labels, qtype, qclass, rest, *ans);
    let inner = dns::reply_of(msg@, *ans)->0;
    assert(dns::framed_body(framed@) =~= msg@) by {
        assert(framed@[0] == bytes::be16_bytes(msg@.len() as u16)[0]);
        assert(framed@[1] == bytes::be16_bytes(msg@.len() as u16)[1]);
    }
    dns::a_framed_reply_declares_its_length(framed@, *ans);
    let o = framed_out->0@;
    assert(o.skip(2) == inner);
}

/// A message whose length says more than has arrived is answered by what has
/// arrived.
pub proof fn what_has_arrived_is_answered(body: Seq<u8>, declared: u16, ans: Answer)
    requires
        declared >= body.len(),
    ensures
        dns::reply_tcp_of(bytes::be16_bytes(declared) + body, ans) is Some <==> dns::reply_of(
            body,
            ans,
        ) is Some,
        dns::reply_tcp_of(bytes::be16_bytes(declared) + body, ans) matches Some(out)
            ==> dns::reply_of(body, ans) == Some(out.skip(2)),
{
    let framed = bytes::be16_bytes(declared) + body;
    assert(framed[0] == bytes::be16_bytes(declared)[0]);
    assert(framed[1] == bytes::be16_bytes(declared)[1]);
    assert(dns::framed_body(framed) =~= body);
    dns::a_framed_reply_declares_its_length(framed, ans);
}

proof fn the_name_was_there(msg: Seq<u8>, at: int, n: nat) -> (labels: Seq<Seq<u8>>)
    requires
        dns::name_end(msg, at, n) is Some,
        0 <= at,
        n <= 128,
    ensures
        ({
            let end = dns::name_end(msg, at, n)->0;
            &&& n + labels.len() <= 128
            &&& forall|i: int| 0 <= i < labels.len() ==> 0 < (#[trigger] labels[i]).len() < 0x40
            &&& at < end <= msg.len()
            &&& msg.subrange(at, end) == laws::name_bytes(labels)
        }),
    decreases msg.len() - at,
{
    if msg[at] == 0 {
        assert(msg.subrange(at, at + 1) =~= seq![0u8]);
        Seq::empty()
    } else {
        let next = at + 1 + msg[at];
        let label = msg.subrange(at + 1, next);
        let rest = the_name_was_there(msg, next, n + 1);
        let end = dns::name_end(msg, at, n)->0;
        let labels = seq![label] + rest;
        assert(labels.skip(1) =~= rest);
        assert(msg.subrange(at, end) =~= seq![msg[at]] + label + msg.subrange(next, end));
        assert forall|i: int| 0 <= i < labels.len() implies 0 < (#[trigger] labels[i]).len()
            < 0x40 by {
            if i > 0 {
                assert(labels[i] == rest[i - 1]);
            }
        }
        labels
    }
}

/// Nothing but a query is answered.
pub proof fn nothing_else_is_answered(msg: Seq<u8>, ans: Answer)
    ensures
        dns::reply_of(msg, ans) is Some ==> exists|
            labels: Seq<Seq<u8>>,
            qtype: u16,
            qclass: u16,
            rest: Seq<u8>,
        | #[trigger] is_query(msg, labels, qtype, qclass, rest),
{
    if dns::reply_of(msg, ans) is Some {
        flags_of_a_query(msg);
        let labels = the_name_was_there(msg, 12, 0);
        let p = dns::name_end(msg, 12, 0)->0;
        let q = dns::query_of(msg)->0;
        let rest = msg.skip(p + 4);
        let name = laws::name_bytes(labels);
        let t = bytes::be16_bytes(q.qtype);
        let c = bytes::be16_bytes(q.qclass);
        assert(t[0] == msg[p] && t[1] == msg[p + 1]);
        assert(c[0] == msg[p + 2] && c[1] == msg[p + 3]);
        assert(msg.skip(12) =~= msg.subrange(12, p) + t + c + rest);
        assert(is_query(msg, labels, q.qtype, q.qclass, rest));
    }
}

/// `parse` reads a query as what it says.
pub proof fn a_query_is_parsed(
    msg: &[u8],
    out: Option<Query>,
    labels: Seq<Seq<u8>>,
    qtype: u16,
    qclass: u16,
    rest: Seq<u8>,
)
    requires
        call_ensures(parse, (msg,), out),
        is_query(msg@, labels, qtype, qclass, rest),
    ensures
        out matches Some(q) && {
            &&& q.id == msg@[0] * 0x100 + msg@[1]
            &&& q.flags == msg@[2] * 0x100 + msg@[3]
            &&& q.qtype == qtype
            &&& q.qclass == qclass
            &&& q.question.start == 12
            &&& q.question.end == question_end(labels)
        },
{
    a_query_is_read(msg@, labels, qtype, qclass, rest);
    if let Some(q) = out {
        assert(q@.id == q.id && q@.flags == q.flags);
    }
}

} // verus!
