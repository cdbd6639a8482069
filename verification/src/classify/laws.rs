//! What holds of every guess.
use super::dns;
use super::http;
use super::tls;
use super::tls::HelloModel;
use crate::bytes;
use crate::text;
use vstd::prelude::*;

verus! {

// ------------------------------------------------------------- TLS

/// An extension as it goes over the wire: type, length and body.
pub open spec fn extension_bytes(e: (u16, Seq<u8>)) -> Seq<u8> {
    bytes::be16_bytes(e.0) + bytes::be16_bytes(e.1.len() as u16) + e.1
}

/// Extensions as they go over the wire.
pub open spec fn extensions_bytes(exts: Seq<(u16, Seq<u8>)>) -> Seq<u8>
    decreases exts.len(),
{
    if exts.len() == 0 {
        Seq::empty()
    } else {
        extension_bytes(exts[0]) + extensions_bytes(exts.skip(1))
    }
}

/// Whether a body fits an extension.
pub open spec fn bodies_fit(exts: Seq<(u16, Seq<u8>)>) -> bool {
    forall|i: int| 0 <= i < exts.len() ==> (#[trigger] exts[i]).1.len() <= 0xffff
}

/// A ClientHello as it goes over the wire. `minor` is the second byte of the
/// record's version, `record` the length of the record and `length` that of the
/// message, neither of which is read.
pub open spec fn hello_bytes(
    minor: u8,
    record: Seq<u8>,
    length: Seq<u8>,
    legacy: u16,
    random: Seq<u8>,
    session: Seq<u8>,
    ciphers: Seq<u8>,
    compression: Seq<u8>,
    exts: Seq<(u16, Seq<u8>)>,
) -> Seq<u8> {
    let e = extensions_bytes(exts);
    seq![0x16u8, 0x03, minor] + record + seq![0x01u8] + length + bytes::be16_bytes(legacy) + random
        + seq![session.len() as u8] + session + bytes::be16_bytes(ciphers.len() as u16) + ciphers
        + seq![compression.len() as u8] + compression + bytes::be16_bytes(e.len() as u16) + e
}

proof fn number_at(d: Seq<u8>, at: int, v: u16)
    requires
        0 <= at,
        at + 2 <= d.len(),
        d.subrange(at, at + 2) == bytes::be16_bytes(v),
    ensures
        bytes::be16_at(d, at) == Some(v),
{
    let b = bytes::be16_bytes(v);
    assert(d.subrange(at, at + 2)[0] == d[at]);
    assert(d.subrange(at, at + 2)[1] == d[at + 1]);
    bytes::be16_round_trip(v, Seq::empty());
    assert((b + Seq::<u8>::empty())[0] == b[0]);
    assert((b + Seq::<u8>::empty())[1] == b[1]);
}

/// Extensions that stand between two places are read back, whatever follows them.
pub proof fn extensions_read_back(d: Seq<u8>, p: int, end: int, exts: Seq<(u16, Seq<u8>)>)
    requires
        0 <= p,
        bodies_fit(exts),
        p + extensions_bytes(exts).len() == end <= d.len(),
        d.subrange(p, end) == extensions_bytes(exts),
    ensures
        tls::extensions(d, p, end) == Some(exts),
    decreases exts.len(),
{
    if exts.len() == 0 {
        assert(exts =~= Seq::empty());
    } else {
        an_extension_is_passed(d, p, end, exts);
        let e = exts[0];
        let next = p + 4 + e.1.len();
        extensions_read_back(d, next, end, exts.skip(1));
        assert(seq![e] + exts.skip(1) =~= exts);
    }
}

/// The first of several extensions that stand between two places, and what follows
/// it.
#[verifier::rlimit(50)]
pub proof fn an_extension_is_passed(d: Seq<u8>, p: int, end: int, exts: Seq<(u16, Seq<u8>)>)
    requires
        0 <= p,
        bodies_fit(exts),
        exts.len() > 0,
        p + extensions_bytes(exts).len() <= end <= d.len(),
        d.subrange(p, p + extensions_bytes(exts).len()) == extensions_bytes(exts),
    ensures
        ({
            let e = exts[0];
            let next = p + 4 + e.1.len();
            let rest = extensions_bytes(exts.skip(1));
            &&& extensions_bytes(exts).len() == 4 + e.1.len() + rest.len()
            &&& bytes::be16_at(d, p) == Some(e.0)
            &&& bytes::be16_at(d, p + 2) == Some(e.1.len() as u16)
            &&& d.subrange(p + 4, next) == e.1
            &&& d.subrange(next, next + rest.len()) == rest
            &&& bodies_fit(exts.skip(1))
        }),
{
    let e = exts[0];
    let one = extension_bytes(e);
    let rest = extensions_bytes(exts.skip(1));
    let all = extensions_bytes(exts);
    let n = e.1.len() as int;
    let next = p + 4 + n;
    assert(one.len() == 4 + n);
    assert(all == one + rest);
    assert forall|k: int| 0 <= k < all.len() implies d[p + k] == all[k] by {
        assert(d.subrange(p, p + all.len())[k] == d[p + k]);
    }
    assert(all[0] == one[0] && all[1] == one[1] && all[2] == one[2] && all[3] == one[3]);
    assert(d[p + 0] == one[0] && d[p + 1] == one[1]);
    assert(d.subrange(p, p + 2) =~= bytes::be16_bytes(e.0));
    assert(d[p + 2] == one[2] && d[p + 3] == one[3]);
    assert(d.subrange(p + 2, p + 4) =~= bytes::be16_bytes(e.1.len() as u16));
    number_at(d, p, e.0);
    number_at(d, p + 2, e.1.len() as u16);
    assert(d.subrange(p + 4, next) =~= e.1) by {
        assert forall|k: int| 0 <= k < n implies d[p + 4 + k] == e.1[k] by {
            assert(d[p + (4 + k)] == all[4 + k]);
            assert(all[4 + k] == one[4 + k]);
        }
    }
    assert(d.subrange(next, next + rest.len()) =~= rest) by {
        assert forall|k: int| 0 <= k < rest.len() implies d[next + k] == rest[k] by {
            assert(d[p + (4 + n + k)] == all[4 + n + k]);
        }
    }
    assert forall|i: int| 0 <= i < exts.skip(1).len() implies (#[trigger] exts.skip(1)[i]).1.len()
        <= 0xffff by {
        assert(exts.skip(1)[i] == exts[i + 1]);
    }
}

/// A ClientHello that goes over the wire is read back, whatever follows it: its
/// extensions, and the number of its cipher suites.
#[verifier::rlimit(50)]
pub proof fn a_hello_reads_back(
    minor: u8,
    record: Seq<u8>,
    length: Seq<u8>,
    legacy: u16,
    random: Seq<u8>,
    session: Seq<u8>,
    ciphers: Seq<u8>,
    compression: Seq<u8>,
    exts: Seq<(u16, Seq<u8>)>,
    more: Seq<u8>,
)
    requires
        record.len() == 2,
        length.len() == 3,
        random.len() == 32,
        session.len() <= 0xff,
        ciphers.len() <= 0xffff,
        compression.len() <= 0xff,
        bodies_fit(exts),
        extensions_bytes(exts).len() <= 0xffff,
    ensures
        tls::hello_of(
            hello_bytes(
                minor,
                record,
                length,
                legacy,
                random,
                session,
                ciphers,
                compression,
                exts,
            ) + more,
        ) == Some(
            HelloModel {
                version: tls::version_of(exts, legacy),
                sni: match tls::last_body(exts, 0x0000) {
                    Some(b) => tls::sni_in(b),
                    None => None,
                },
                alpn: match tls::last_body(exts, 0x0010) {
                    Some(b) => tls::alpn_in(b),
                    None => Seq::empty(),
                },
                ciphers: ciphers.len() as int / 2,
            },
        ),
{
    let e = extensions_bytes(exts);
    let fixed = seq![0x16u8, 0x03, minor] + record + seq![0x01u8] + length;
    let a = fixed + bytes::be16_bytes(legacy) + random;
    let b = a + seq![session.len() as u8] + session;
    let c = b + bytes::be16_bytes(ciphers.len() as u16) + ciphers;
    let f = c + seq![compression.len() as u8] + compression;
    let d = f + bytes::be16_bytes(e.len() as u16) + e + more;
    assert(f + bytes::be16_bytes(e.len() as u16) + e == hello_bytes(
        minor,
        record,
        length,
        legacy,
        random,
        session,
        ciphers,
        compression,
        exts,
    ));
    assert(fixed.len() == 9);
    assert(a.len() == 43);
    assert(d[0] == 0x16 && d[1] == 0x03 && d[5] == 0x01);
    assert(d.subrange(9, 11) =~= bytes::be16_bytes(legacy));
    number_at(d, 9, legacy);
    assert(d[43] == session.len() as u8);
    let p = b.len() as int;
    assert(tls::ciphers_at(d) == p);
    assert(d.subrange(p, p + 2) =~= bytes::be16_bytes(ciphers.len() as u16));
    number_at(d, p, ciphers.len() as u16);
    let q = c.len() as int;
    assert(tls::compression_at(d) == q);
    assert(d[q] == compression.len() as u8);
    let r = f.len() as int;
    assert(tls::extensions_at(d) == r);
    assert(d.subrange(r, r + 2) =~= bytes::be16_bytes(e.len() as u16));
    number_at(d, r, e.len() as u16);
    let end = r + 2 + e.len();
    assert(d.subrange(r + 2, end) =~= e);
    extensions_read_back(d, r + 2, end, exts);
}

/// The body of a server_name extension that names one host.
pub open spec fn sni_bytes(name: Seq<u8>) -> Seq<u8> {
    bytes::be16_bytes((name.len() + 3) as u16) + seq![0u8] + bytes::be16_bytes(name.len() as u16)
        + name
}

/// The host that a client names is read back from its extension.
pub proof fn the_host_reads_back(name: Seq<u8>)
    requires
        name.len() <= 0xffff,
    ensures
        tls::sni_in(sni_bytes(name)) == Some(name),
{
    let b = sni_bytes(name);
    assert(b[2] == 0);
    assert(b.subrange(3, 5) =~= bytes::be16_bytes(name.len() as u16));
    number_at(b, 3, name.len() as u16);
    assert(b.subrange(5, b.len() as int) =~= name);
}

/// Protocol names as they go over the wire, each behind its length.
pub open spec fn names_bytes(names: Seq<Seq<u8>>) -> Seq<u8>
    decreases names.len(),
{
    if names.len() == 0 {
        Seq::empty()
    } else {
        seq![names[0].len() as u8] + names[0] + names_bytes(names.skip(1))
    }
}

/// The body of an alpn extension.
pub open spec fn alpn_bytes(names: Seq<Seq<u8>>) -> Seq<u8> {
    bytes::be16_bytes(names_bytes(names).len() as u16) + names_bytes(names)
}

proof fn names_read_back(b: Seq<u8>, p: int, names: Seq<Seq<u8>>)
    requires
        0 <= p,
        forall|i: int| 0 <= i < names.len() ==> (#[trigger] names[i]).len() <= 0xff,
        p + names_bytes(names).len() == b.len(),
        b.skip(p) == names_bytes(names),
    ensures
        tls::alpn_from(b, p) == names,
    decreases names.len(),
{
    if names.len() == 0 {
        assert(names =~= Seq::empty());
    } else {
        let name = names[0];
        let n = name.len() as int;
        let all = names_bytes(names);
        let rest = names_bytes(names.skip(1));
        assert(all == seq![n as u8] + name + rest);
        assert forall|k: int| 0 <= k < all.len() implies b[p + k] == all[k] by {
            assert(b.skip(p)[k] == b[p + k]);
        }
        assert(all[0] == n as u8);
        assert(b[p + 0] == n as u8);
        assert(b.subrange(p + 1, p + 1 + n) =~= name) by {
            assert forall|k: int| 0 <= k < n implies b[p + 1 + k] == name[k] by {
                assert(b[p + (1 + k)] == all[1 + k]);
            }
        }
        assert(b.skip(p + 1 + n) =~= rest) by {
            assert forall|k: int| 0 <= k < rest.len() implies b[p + 1 + n + k] == rest[k] by {
                assert(b[p + (1 + n + k)] == all[1 + n + k]);
            }
        }
        assert forall|i: int| 0 <= i < names.skip(1).len() implies (#[trigger] names.skip(
            1,
        )[i]).len() <= 0xff by {
            assert(names.skip(1)[i] == names[i + 1]);
        }
        names_read_back(b, p + 1 + n, names.skip(1));
        assert(seq![name] + names.skip(1) =~= names);
    }
}

/// The protocols that a client offers are read back from its extension.
pub proof fn the_protocols_read_back(names: Seq<Seq<u8>>)
    requires
        forall|i: int| 0 <= i < names.len() ==> (#[trigger] names[i]).len() <= 0xff,
    ensures
        tls::alpn_in(alpn_bytes(names)) == names,
{
    let b = alpn_bytes(names);
    assert(b.skip(2) =~= names_bytes(names));
    names_read_back(b, 2, names);
}

/// Whether a list of versions, between `i` and `end`, offers one that is not
/// reserved.
pub open spec fn offers(b: Seq<u8>, i: int, end: int, v: u16) -> bool {
    exists|k: int|
        0 <= k && i + 2 * k + 2 <= end && (#[trigger] bytes::be16_at(b, i + 2 * k)) == Some(v)
            && !tls::is_grease(v)
}

/// The version that is taken from a list is one that the list offers, or what it
/// was at the outset; none that the list offers is higher, and reserved values are
/// passed over.
pub proof fn the_highest_version_is_taken(b: Seq<u8>, i: int, end: int, floor: u16)
    requires
        0 <= i,
        end <= b.len(),
    ensures
        ({
            let top = tls::highest_from(b, i, end, floor);
            &&& top >= floor
            &&& top == floor || offers(b, i, end, top)
            &&& forall|v: u16| offers(b, i, end, v) ==> v <= top
        }),
    decreases end - i,
{
    if i + 2 <= end {
        let v = bytes::be16_at(b, i)->0;
        let next = if !tls::is_grease(v) && v > floor {
            v
        } else {
            floor
        };
        the_highest_version_is_taken(b, i + 2, end, next);
        let top = tls::highest_from(b, i, end, floor);
        assert(bytes::be16_at(b, i + 2 * 0) == Some(v));
        if top != next {
            let k = choose|k: int|
                0 <= k && i + 2 + 2 * k + 2 <= end && (#[trigger] bytes::be16_at(b, i + 2 + 2 * k))
                    == Some(top) && !tls::is_grease(top);
            assert(i + 2 + 2 * k == i + 2 * (k + 1));
            assert(offers(b, i, end, top));
        } else if top != floor {
            assert(offers(b, i, end, top));
        }
        assert forall|w: u16| offers(b, i, end, w) implies w <= top by {
            let k = choose|k: int|
                0 <= k && i + 2 * k + 2 <= end && (#[trigger] bytes::be16_at(b, i + 2 * k)) == Some(
                    w,
                ) && !tls::is_grease(w);
            if k > 0 {
                assert(i + 2 * k == i + 2 + 2 * (k - 1));
                assert(bytes::be16_at(b, i + 2 + 2 * (k - 1)) == Some(w));
                assert(offers(b, i + 2, end, w));
            }
        }
    }
}

// ------------------------------------------------------------- HTTP

proof fn methods_are_words()
    ensures
        http::methods().len() == 9,
        forall|i: int, j: int|
            #![trigger http::methods()[i][j]]
            0 <= i < 9 && 0 <= j < http::methods()[i].len() ==> !text::is_white_space(
                http::methods()[i][j],
            ),
        forall|i: int| 0 <= i < 9 ==> (#[trigger] http::methods()[i]).len() > 0,
{
    reveal_strlit("GET");
    reveal_strlit("POST");
    reveal_strlit("PUT");
    reveal_strlit("HEAD");
    reveal_strlit("DELETE");
    reveal_strlit("OPTIONS");
    reveal_strlit("PATCH");
    reveal_strlit("TRACE");
    reveal_strlit("CONNECT");
}

/// Whether a text is one word: not empty and without white space.
pub open spec fn is_word(s: Seq<char>) -> bool {
    s.len() > 0 && forall|i: int| 0 <= i < s.len() ==> !text::is_white_space(#[trigger] s[i])
}

proof fn a_word_is_read(front: Seq<char>, rest: Seq<char>)
    requires
        forall|i: int| 0 <= i < front.len() ==> !text::is_white_space(#[trigger] front[i]),
        rest.len() > 0,
        text::is_white_space(rest[0]),
    ensures
        text::word(front + rest) == front,
    decreases front.len(),
{
    let s = front + rest;
    if front.len() > 0 {
        assert(s[0] == front[0]);
        assert(s.drop_first() =~= front.drop_first() + rest);
        a_word_is_read(front.drop_first(), rest);
        assert(seq![front[0]] + front.drop_first() =~= front);
    } else {
        assert(s =~= rest);
        assert(front =~= Seq::empty());
    }
}

proof fn the_method_is_found(line: Seq<char>, k: int, i: int)
    requires
        0 <= i <= k < 9,
        text::occurs_at(line, http::methods()[k].push(' '), 0),
    ensures
        http::method_from(line, i) == Some(http::methods()[k]),
    decreases k - i,
{
    methods_are_words();
    let m = http::methods()[k];
    let n = http::methods()[i];
    assert(line.subrange(0, m.len() as int + 1) == m.push(' '));
    assert forall|j: int| 0 <= j <= m.len() implies line[j] == m.push(' ')[j] by {
        assert(line.subrange(0, m.len() as int + 1)[j] == line[j]);
    }
    if text::occurs_at(line, n.push(' '), 0) {
        assert forall|j: int| 0 <= j <= n.len() implies line[j] == n.push(' ')[j] by {
            assert(line.subrange(0, n.len() as int + 1)[j] == line[j]);
        }
        if n.len() < m.len() {
            let j = n.len() as int;
            assert(line[j] == n.push(' ')[j] && line[j] == m.push(' ')[j]);
            assert(!text::is_white_space(http::methods()[k][j]));
        } else if m.len() < n.len() {
            let j = m.len() as int;
            assert(line[j] == n.push(' ')[j] && line[j] == m.push(' ')[j]);
            assert(!text::is_white_space(http::methods()[i][j]));
        }
        assert forall|j: int| 0 <= j < m.len() implies n[j] == m[j] by {
            assert(line[j] == m.push(' ')[j]);
            assert(line[j] == n.push(' ')[j]);
        }
        assert(n =~= m);
    } else {
        assert(i < k);
        the_method_is_found(line, k, i + 1);
    }
}

/// A request line is reported with its method and the front of its target.
pub proof fn a_request_is_reported(k: int, target: Seq<char>, version: Seq<char>)
    requires
        0 <= k < http::methods().len(),
        is_word(target),
    ensures
        http::request_of(http::methods()[k] + seq![' '] + target + " HTTP/"@ + version) == Some(
            "HTTP "@ + http::methods()[k] + " "@ + text::clipped(target, 80),
        ),
{
    reveal_strlit("HTTP/");
    reveal_strlit(" HTTP/");
    methods_are_words();
    let m = http::methods()[k];
    let tail = " HTTP/"@ + version;
    let line = m + seq![' '] + target + " HTTP/"@ + version;
    assert(line.subrange(0, m.len() as int + 1) =~= m.push(' '));
    the_method_is_found(line, k, 0);
    let at = m.len() as int + 2 + target.len();
    assert(line.subrange(at, at + 5) =~= "HTTP/"@);
    assert(text::occurs_at(line, "HTTP/"@, at));
    text::search_finds_the_first(line, "HTTP/"@, 0);
    assert(!text::is_white_space(m[0]));
    assert(line[0] == m[0]);
    let behind = seq![' '] + (target + tail);
    assert(line =~= m + behind);
    a_word_is_read(m, behind);
    assert(line.skip(m.len() as int) =~= behind);
    assert(behind.drop_first() =~= target + tail);
    assert(!text::is_white_space(target[0]));
    assert((target + tail)[0] == target[0]);
    reveal_with_fuel(text::trim_start, 2);
    assert(text::trim_start(behind) == target + tail);
    a_word_is_read(target, tail);
}

/// Header lines as they go over the wire.
pub open spec fn header_text(headers: Seq<(Seq<char>, Seq<char>)>) -> Seq<char>
    decreases headers.len(),
{
    if headers.len() == 0 {
        Seq::empty()
    } else {
        headers[0].0 + seq![':'] + headers[0].1 + "\r\n"@ + header_text(headers.skip(1))
    }
}

/// The value of the first header of a name, in any case, among the first `left`.
pub open spec fn header_named(
    headers: Seq<(Seq<char>, Seq<char>)>,
    name: Seq<char>,
    left: nat,
) -> Option<Seq<char>>
    decreases headers.len(),
{
    if headers.len() == 0 || left == 0 {
        None
    } else if text::lower(text::trim(headers[0].0)) == text::lower(name) {
        Some(text::trim(headers[0].1))
    } else {
        header_named(headers.skip(1), name, (left - 1) as nat)
    }
}

/// Whether a header can go over the wire: a key without a colon, and no line ends.
pub open spec fn is_header(h: (Seq<char>, Seq<char>)) -> bool {
    !h.0.contains(':') && !h.0.contains('\r') && !h.1.contains('\r')
}

proof fn headers_read_back(
    headers: Seq<(Seq<char>, Seq<char>)>,
    body: Seq<char>,
    name: Seq<char>,
    left: nat,
)
    requires
        forall|i: int| 0 <= i < headers.len() ==> is_header(#[trigger] headers[i]),
    ensures
        http::header_among(header_text(headers) + "\r\n"@ + body, name, left) == header_named(
            headers,
            name,
            left,
        ),
    decreases headers.len(),
{
    reveal_strlit("\r\n");
    let crlf = "\r\n"@;
    let all = header_text(headers) + crlf + body;
    if headers.len() == 0 {
        assert(all =~= Seq::<char>::empty() + crlf + body);
        text::a_needle_is_found(Seq::<char>::empty(), crlf, body);
    } else {
        let h = headers[0];
        assert(is_header(h));
        let line = h.0 + seq![':'] + h.1;
        let rest = header_text(headers.skip(1)) + crlf + body;
        assert(all =~= line + crlf + rest);
        assert forall|i: int| 0 <= i < line.len() implies line[i] != '\r' by {
            if i < h.0.len() {
                assert(h.0.contains(h.0[i]));
            } else if i > h.0.len() {
                assert(line[i] == h.1[i - h.0.len() - 1]);
                assert(h.1.contains(h.1[i - h.0.len() - 1]));
            }
        }
        text::a_needle_is_found(line, crlf, rest);
        assert(all.take(line.len() as int) =~= line);
        assert(all.skip(line.len() as int + 2) =~= rest);
        text::a_needle_is_found(h.0, seq![':'], h.1);
        assert(line.take(h.0.len() as int) =~= h.0);
        assert(line.skip(h.0.len() as int + 1) =~= h.1);
        assert forall|i: int| 0 <= i < headers.skip(1).len() implies is_header(
            #[trigger] headers.skip(1)[i],
        ) by {
            assert(headers.skip(1)[i] == headers[i + 1]);
        }
        if left > 0 {
            headers_read_back(headers.skip(1), body, name, (left - 1) as nat);
        }
    }
}

/// A header of a request is found by its name, in any case and whatever stands in
/// front of it or follows; of several with that name the first counts.
pub proof fn a_header_is_found(
    first: Seq<char>,
    headers: Seq<(Seq<char>, Seq<char>)>,
    body: Seq<char>,
    name: Seq<char>,
)
    requires
        !first.contains('\r'),
        forall|i: int| 0 <= i < headers.len() ==> is_header(#[trigger] headers[i]),
    ensures
        http::header_of(first + "\r\n"@ + header_text(headers) + "\r\n"@ + body, name)
            == header_named(headers, name, http::HEADER_LINES as nat),
{
    reveal_strlit("\r\n");
    let crlf = "\r\n"@;
    let rest = header_text(headers) + crlf + body;
    let all = first + crlf + header_text(headers) + crlf + body;
    assert(all =~= first + crlf + rest);
    text::a_needle_is_found(first, crlf, rest);
    assert(all.skip(first.len() as int + 2) =~= rest);
    headers_read_back(headers, body, name, http::HEADER_LINES as nat);
}

// ------------------------------------------------------------- DNS

/// A message with the response flag set is never reported as a query.
pub proof fn a_response_is_no_query(d: Seq<u8>)
    requires
        d.len() >= 4,
        crate::dns::is_response(bytes::be16_at(d, 2)->0),
    ensures
        dns::dns_of(d) is None,
{
}

/// A name as it goes over the wire: each label behind its length, and a zero.
pub open spec fn name_bytes(labels: Seq<Seq<u8>>) -> Seq<u8>
    decreases labels.len(),
{
    if labels.len() == 0 {
        seq![0u8]
    } else {
        seq![labels[0].len() as u8] + labels[0] + name_bytes(labels.skip(1))
    }
}

/// Whether a label can be shown: visible characters, and not too many.
pub open spec fn is_label(label: Seq<u8>) -> bool {
    &&& 0 < label.len() < 0x40
    &&& forall|i: int| 0 <= i < label.len() ==> 0x21 <= #[trigger] label[i] <= 0x7e
}

/// The texts of several labels.
pub open spec fn label_texts(labels: Seq<Seq<u8>>) -> Seq<Seq<char>> {
    labels.map_values(|label: Seq<u8>| dns::as_chars(label))
}

proof fn labels_read_back(d: Seq<u8>, at: int, n: nat, labels: Seq<Seq<u8>>, rest: Seq<u8>)
    requires
        0 <= at <= d.len(),
        d.skip(at) == name_bytes(labels) + rest,
        forall|i: int| 0 <= i < labels.len() ==> is_label(#[trigger] labels[i]),
        n + labels.len() <= 64,
    ensures
        dns::labels_from(d, at, n) == Some(
            (label_texts(labels), at + name_bytes(labels).len()),
        ),
    decreases labels.len(),
{
    let all = name_bytes(labels) + rest;
    assert forall|k: int| 0 <= k < all.len() implies d[at + k] == all[k] by {
        assert(d.skip(at)[k] == d[at + k]);
    }
    assert(all.len() == d.len() - at);
    assert(name_bytes(labels).len() > 0);
    assert(d[at + 0] == all[0]);
    if labels.len() == 0 {
        assert(label_texts(labels) =~= Seq::empty());
    } else {
        let label = labels[0];
        assert(is_label(label));
        let len = label.len() as int;
        let more = name_bytes(labels.skip(1));
        assert(all[0] == len as u8);
        let next = at + 1 + len;
        assert(d.subrange(at + 1, next) =~= label) by {
            assert forall|k: int| 0 <= k < len implies d[at + 1 + k] == label[k] by {
                assert(d[at + (1 + k)] == all[1 + k]);
            }
        }
        assert(d.skip(next) =~= more + rest) by {
            assert forall|k: int| 0 <= k < (more + rest).len() implies d[next + k] == (more
                + rest)[k] by {
                assert(d[at + (1 + len + k)] == all[1 + len + k]);
            }
        }
        assert forall|i: int| 0 <= i < labels.skip(1).len() implies is_label(
            #[trigger] labels.skip(1)[i],
        ) by {
            assert(labels.skip(1)[i] == labels[i + 1]);
        }
        labels_read_back(d, next, n + 1, labels.skip(1), rest);
        assert(label_texts(labels) =~= seq![dns::as_chars(label)] + label_texts(labels.skip(1)));
    }
}

/// A query that goes over the wire is reported with the type and the name that it
/// asks for, whatever its id, its other flags and what follows.
pub proof fn a_query_is_reported(
    head: Seq<u8>,
    labels: Seq<Seq<u8>>,
    qtype: u16,
    rest: Seq<u8>,
)
    requires
        head.len() == 12,
        !crate::dns::is_response(bytes::be16_at(head, 2)->0),
        crate::dns::opcode(bytes::be16_at(head, 2)->0) == 0,
        bytes::be16_at(head, 4) == Some(1u16),
        bytes::be16_at(head, 6) == Some(0u16),
        0 < labels.len() <= 64,
        forall|i: int| 0 <= i < labels.len() ==> is_label(#[trigger] labels[i]),
    ensures
        dns::dns_of(head + name_bytes(labels) + bytes::be16_bytes(qtype) + rest) == Some(
            "DNS query "@ + dns::qtype_of(qtype) + " "@ + text::joined(label_texts(labels), "."@),
        ),
{
    let name = name_bytes(labels);
    let tail = bytes::be16_bytes(qtype) + rest;
    let d = head + name + bytes::be16_bytes(qtype) + rest;
    assert(d.skip(12) =~= name + tail);
    labels_read_back(d, 12, 0, labels, tail);
    let end = 12 + name.len() as int;
    assert(d.subrange(end, end + 2) =~= bytes::be16_bytes(qtype));
    number_at(d, end, qtype);
    assert(d[2] == head[2] && d[3] == head[3] && d[4] == head[4] && d[5] == head[5]);
    assert(d[6] == head[6] && d[7] == head[7]);
}

} // verus!
