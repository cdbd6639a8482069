//! TLS: an unknown program names the host it wants in its ClientHello, before
//! any key exchange.
use crate::bytes;
use crate::bytes::{be16, copy_of};
use crate::text;
use crate::text::{lossy, push_decimal, push_joined};
use vstd::prelude::*;

verus! {

/// What is read of a ClientHello.
pub struct ClientHello {
    /// the highest version offered
    pub version: u16,
    /// the host that the client names
    pub sni: Option<Vec<u8>>,
    /// the application protocols that the client offers
    pub alpn: Vec<Vec<u8>>,
    /// how many cipher suites the client offers
    pub ciphers: usize,
}

/// What a ClientHello says.
pub struct HelloModel {
    pub version: u16,
    pub sni: Option<Seq<u8>>,
    pub alpn: Seq<Seq<u8>>,
    pub ciphers: int,
}

impl View for ClientHello {
    type V = HelloModel;

    open spec fn view(&self) -> HelloModel {
        HelloModel {
            version: self.version,
            sni: optional_bytes(self.sni),
            alpn: all_bytes(self.alpn@),
            ciphers: self.ciphers as int,
        }
    }
}

/// What an optional run of bytes holds.
pub open spec fn optional_bytes(o: Option<Vec<u8>>) -> Option<Seq<u8>> {
    match o {
        Some(v) => Some(v@),
        None => None,
    }
}

/// What each of several runs of bytes holds.
pub open spec fn all_bytes(v: Seq<Vec<u8>>) -> Seq<Seq<u8>> {
    v.map_values(|b: Vec<u8>| b@)
}

/// The name of a protocol version.
pub open spec fn version_name(v: u16) -> Seq<char> {
    if v == 0x0300 {
        "SSL 3.0"@
    } else if v == 0x0301 {
        "TLS 1.0"@
    } else if v == 0x0302 {
        "TLS 1.1"@
    } else if v == 0x0303 {
        "TLS 1.2"@
    } else if v == 0x0304 {
        "TLS 1.3"@
    } else {
        "TLS ?"@
    }
}

/// The extensions that stand between `p` and `end`, each with its type and body.
/// A body may reach beyond `end` but not beyond the message; there is no result
/// when one does.
pub open spec fn extensions(d: Seq<u8>, p: int, end: int) -> Option<Seq<(u16, Seq<u8>)>>
    decreases d.len() - p,
{
    if p < 0 || end > d.len() || p + 4 > end {
        Some(Seq::empty())
    } else {
        let next = p + 4 + bytes::be16_at(d, p + 2)->0;
        if next > d.len() {
            None
        } else {
            match extensions(d, next, end) {
                Some(rest) => Some(seq![(bytes::be16_at(d, p)->0, d.subrange(p + 4, next))] + rest),
                None => None,
            }
        }
    }
}

/// The body of the last extension of a type.
pub open spec fn last_body(exts: Seq<(u16, Seq<u8>)>, kind: u16) -> Option<Seq<u8>>
    decreases exts.len(),
{
    if exts.len() == 0 {
        None
    } else if exts.last().0 == kind {
        Some(exts.last().1)
    } else {
        last_body(exts.drop_last(), kind)
    }
}

/// The first host name among the entries from `p` on; entries of other types
/// are passed over, and one that is cut off ends the search.
pub open spec fn sni_from(b: Seq<u8>, p: int) -> Option<Seq<u8>>
    decreases b.len() - p,
{
    if p < 0 || p + 3 > b.len() {
        None
    } else {
        let next = p + 3 + bytes::be16_at(b, p + 1)->0;
        if next > b.len() {
            None
        } else if b[p] == 0 {
            Some(b.subrange(p + 3, next))
        } else {
            sni_from(b, next)
        }
    }
}

/// The host name in a server_name body; the list's own length is not read.
pub open spec fn sni_in(b: Seq<u8>) -> Option<Seq<u8>> {
    sni_from(b, 2)
}

/// The protocol names from `p` on, up to one that is cut off.
pub open spec fn alpn_from(b: Seq<u8>, p: int) -> Seq<Seq<u8>>
    decreases b.len() - p,
{
    if p < 0 || p >= b.len() || p + 1 + b[p] > b.len() {
        Seq::empty()
    } else {
        seq![b.subrange(p + 1, p + 1 + b[p])] + alpn_from(b, p + 1 + b[p])
    }
}

/// The protocol names in an alpn body; the list's own length is not read.
pub open spec fn alpn_in(b: Seq<u8>) -> Seq<Seq<u8>> {
    alpn_from(b, 2)
}

/// Values reserved to keep peers tolerant of unknown ones.
pub open spec fn is_grease(v: u16) -> bool {
    v & 0x0f0f == 0x0a0a
}

/// The highest version among `floor` and those that a list offers between `i`
/// and `end`, reserved values aside.
pub open spec fn highest_from(b: Seq<u8>, i: int, end: int, floor: u16) -> u16
    decreases end - i,
{
    if i < 0 || end > b.len() || i + 2 > end {
        floor
    } else {
        let v = bytes::be16_at(b, i)->0;
        highest_from(
            b,
            i + 2,
            end,
            if !is_grease(v) && v > floor {
                v
            } else {
                floor
            },
        )
    }
}

/// Where the list in a supported_versions body ends.
pub open spec fn versions_end(b: Seq<u8>) -> int {
    if 1 + b[0] < b.len() {
        1 + b[0]
    } else {
        b.len() as int
    }
}

/// The highest version among `floor` and those that a supported_versions body
/// offers.
pub open spec fn highest_in(b: Seq<u8>, floor: u16) -> u16 {
    if b.len() == 0 {
        floor
    } else {
        highest_from(b, 1, versions_end(b), floor)
    }
}

/// The highest version among `floor` and all that the extensions offer.
pub open spec fn highest_offered(exts: Seq<(u16, Seq<u8>)>, floor: u16) -> u16
    decreases exts.len(),
{
    if exts.len() == 0 {
        floor
    } else {
        let below = highest_offered(exts.drop_last(), floor);
        if exts.last().0 == 0x002b {
            highest_in(exts.last().1, below)
        } else {
            below
        }
    }
}

/// The version of a hello: the highest that its extensions offer, and the one in
/// its legacy field only where they offer none.
pub open spec fn version_of(exts: Seq<(u16, Seq<u8>)>, legacy: u16) -> u16 {
    let top = highest_offered(exts, 0);
    if top == 0 {
        legacy
    } else {
        top
    }
}

/// Where the cipher suites start: behind version, random and session id.
pub open spec fn ciphers_at(d: Seq<u8>) -> int {
    44 + d[43]
}

/// Where the compression methods start.
pub open spec fn compression_at(d: Seq<u8>) -> int {
    ciphers_at(d) + 2 + bytes::be16_at(d, ciphers_at(d))->0
}

/// Where the extensions start.
pub open spec fn extensions_at(d: Seq<u8>) -> int {
    compression_at(d) + 1 + d[compression_at(d)]
}

/// The extensions of a hello whose fixed part is whole; a hello may have none.
pub open spec fn hello_extensions(d: Seq<u8>) -> Option<Seq<(u16, Seq<u8>)>> {
    let p = extensions_at(d);
    match bytes::be16_at(d, p) {
        None => Some(Seq::empty()),
        Some(total) => extensions(
            d,
            p + 2,
            if p + 2 + total < d.len() {
                p + 2 + total
            } else {
                d.len() as int
            },
        ),
    }
}

/// Whether the message opens a handshake record that holds a ClientHello.
pub open spec fn opens_hello(d: Seq<u8>) -> bool {
    d.len() > 5 && d[0] == 0x16 && d[1] == 0x03 && d[5] == 0x01
}

/// What a ClientHello says, unless it is cut off before or within the extensions.
pub open spec fn hello_of(d: Seq<u8>) -> Option<HelloModel> {
    if !opens_hello(d) || d.len() <= 43 || ciphers_at(d) + 2 > d.len() || compression_at(d)
        >= d.len() {
        None
    } else {
        match hello_extensions(d) {
            None => None,
            Some(exts) => Some(
                HelloModel {
                    version: version_of(exts, bytes::be16_at(d, 9)->0),
                    sni: match last_body(exts, 0x0000) {
                        Some(b) => sni_in(b),
                        None => None,
                    },
                    alpn: match last_body(exts, 0x0010) {
                        Some(b) => alpn_in(b),
                        None => Seq::empty(),
                    },
                    ciphers: bytes::be16_at(d, ciphers_at(d))->0 as int / 2,
                },
            ),
        }
    }
}

/// The text that is made of each of several names.
pub open spec fn lossy_all(names: Seq<Seq<u8>>) -> Seq<Seq<char>> {
    names.map_values(|name: Seq<u8>| text::utf8_lossy(name))
}

/// The line for a ClientHello.
pub open spec fn hello_line_of(
    version: u16,
    sni: Option<Seq<char>>,
    alpn: Seq<Seq<char>>,
    ciphers: nat,
) -> Seq<char> {
    version_name(version) + " ClientHello"@ + (match sni {
        Some(name) => " sni="@ + name,
        None => Seq::empty(),
    }) + (if alpn.len() > 0 {
        " alpn="@ + text::joined(alpn, ","@)
    } else {
        Seq::empty()
    }) + " ciphers="@ + text::decimal(ciphers)
}

/// The line for a message that opens a TLS handshake record.
pub open spec fn tls_of(d: Seq<u8>) -> Option<Seq<char>> {
    if d.len() <= 5 || d[0] != 0x16 || d[1] != 0x03 {
        None
    } else if d[5] != 0x01 {
        Some(version_name(bytes::be16_at(d, 1)->0) + " handshake"@)
    } else {
        match hello_of(d) {
            None => None,
            Some(h) => Some(
                hello_line_of(
                    h.version,
                    match h.sni {
                        Some(name) => Some(text::utf8_lossy(name)),
                        None => None,
                    },
                    lossy_all(h.alpn),
                    h.ciphers as nat,
                ),
            ),
        }
    }
}

/// The name of a protocol version.
pub fn tls_version(v: u16) -> (name: &'static str)
    ensures
        name@ == version_name(v),
{
    match v {
        0x0300 => "SSL 3.0",
        0x0301 => "TLS 1.0",
        0x0302 => "TLS 1.1",
        0x0303 => "TLS 1.2",
        0x0304 => "TLS 1.3",
        _ => "TLS ?",
    }
}

/// The host name in a server_name body.
pub fn parse_sni(b: &[u8]) -> (name: Option<Vec<u8>>)
    ensures
        optional_bytes(name) == sni_in(b@),
{
    let mut p: usize = 2;
    while p <= b.len() && 3 <= b.len() - p
        invariant
            2 <= p <= b.len() + 2,
            sni_in(b@) == sni_from(b@, p as int),
        decreases b.len() + 2 - p,
    {
        let kind: u8 = b[p];
        let n: usize = b[p + 1] as usize * 256 + b[p + 2] as usize;
        assert(bytes::be16_at(b@, p + 1)->0 == n);
        if n > b.len() - p - 3 {
            return None;
        }
        if kind == 0 {
            return Some(copy_of(vstd::slice::slice_subrange(b, p + 3, p + 3 + n)));
        }
        p += 3 + n;
    }
    None
}

/// The protocol names in an alpn body.
pub fn parse_alpn(b: &[u8]) -> (names: Vec<Vec<u8>>)
    ensures
        all_bytes(names@) == alpn_in(b@),
{
    let mut names: Vec<Vec<u8>> = Vec::new();
    let mut p: usize = 2;
    assert(all_bytes(names@) =~= Seq::empty());
    while p < b.len()
        invariant
            2 <= p <= b.len() + 2,
            alpn_in(b@) == all_bytes(names@) + alpn_from(b@, p as int),
        ensures
            alpn_from(b@, p as int) == Seq::<Seq<u8>>::empty(),
        decreases b.len() + 2 - p,
    {
        let n: usize = b[p] as usize;
        if n > b.len() - p - 1 {
            break;
        }
        let name = copy_of(vstd::slice::slice_subrange(b, p + 1, p + 1 + n));
        let ghost before = all_bytes(names@);
        names.push(name);
        proof {
            assert(all_bytes(names@) =~= before.push(name@));
            assert(before + (seq![name@] + alpn_from(b@, p + 1 + n)) =~= before.push(name@)
                + alpn_from(b@, p + 1 + n));
        }
        p += 1 + n;
    }
    assert(all_bytes(names@) + Seq::<Seq<u8>>::empty() =~= all_bytes(names@));
    names
}

/// The highest version among `floor` and those that a supported_versions body
/// offers.
pub fn highest_version(b: &[u8], floor: u16) -> (top: u16)
    ensures
        top == highest_in(b@, floor),
{
    if b.len() == 0 {
        return floor;
    }
    let listed: usize = 1 + b[0] as usize;
    let end: usize = if listed < b.len() { listed } else { b.len() };
    let mut top: u16 = floor;
    let mut i: usize = 1;
    while 2 <= end - i
        invariant
            1 <= i <= end <= b.len(),
            highest_in(b@, floor) == highest_from(b@, i as int, end as int, top),
        decreases end - i,
    {
        let v: u16 = b[i] as u16 * 256 + b[i + 1] as u16;
        assert(bytes::be16_at(b@, i as int)->0 == v);
        if v & 0x0f0f != 0x0a0a && v > top {
            top = v;
        }
        i += 2;
    }
    top
}

/// Reads a ClientHello.
pub fn client_hello(d: &[u8]) -> (hello: Option<ClientHello>)
    ensures
        hello is Some <==> hello_of(d@) is Some,
        hello matches Some(h) ==> hello_of(d@) == Some(h@),
{
    if d.len() <= 43 || d[0] != 0x16 || d[1] != 0x03 || d[5] != 0x01 {
        return None;
    }
    let legacy = be16(d, 9)?;
    let mut p: usize = 44 + d[43] as usize;
    let listed: usize = be16(d, p)? as usize;
    let ciphers: usize = listed / 2;
    p += 2 + listed;
    if p >= d.len() {
        return None;
    }
    p += 1 + d[p] as usize;
    let mut sni: Option<Vec<u8>> = None;
    let mut alpn: Vec<Vec<u8>> = Vec::new();
    let mut top: u16 = 0;
    let ghost at = p as int;
    let ghost mut done: Seq<(u16, Seq<u8>)> = Seq::empty();
    assert(all_bytes(alpn@) =~= Seq::empty());
    if let Some(total) = be16(d, p) {
        p += 2;
        let end: usize = if total as usize <= d.len() - p { p + total as usize } else { d.len() };
        assert(hello_extensions(d@) == extensions(d@, p as int, end as int));
        assert(extensions(d@, p as int, end as int) matches Some(rest) ==> done + rest =~= rest);
        while p <= end && 4 <= end - p
            invariant
                end <= d.len(),
                d.len() > 43,
                hello_extensions(d@) == (match extensions(d@, p as int, end as int) {
                    Some(rest) => Some(done + rest),
                    None => None,
                }),
                top == highest_offered(done, 0),
                optional_bytes(sni) == (match last_body(done, 0x0000) {
                    Some(b) => sni_in(b),
                    None => None,
                }),
                all_bytes(alpn@) == (match last_body(done, 0x0010) {
                    Some(b) => alpn_in(b),
                    None => Seq::empty(),
                }),
                opens_hello(d@),
                hello_of(d@) is Some ==> hello_extensions(d@) is Some,
            decreases d.len() + 1 - p,
        {
            let kind: u16 = be16(d, p)?;
            let len: usize = be16(d, p + 2)? as usize;
            if len > d.len() - p - 4 {
                return None;
            }
            let body = vstd::slice::slice_subrange(d, p + 4, p + 4 + len);
            let ghost before = done;
            proof {
                done = done.push((kind, body@));
                assert(done.drop_last() =~= before);
                let rest = extensions(d@, p + 4 + len, end as int);
                assert(rest matches Some(r) ==> before + (seq![(kind, body@)] + r) =~= done + r);
            }
            if kind == 0x0000 {
                sni = parse_sni(body);
            } else if kind == 0x0010 {
                alpn = parse_alpn(body);
            } else if kind == 0x002b {
                top = highest_version(body, top);
            }
            p += 4 + len;
        }
        assert(done + Seq::<(u16, Seq<u8>)>::empty() =~= done);
    }
    assert(hello_extensions(d@) == Some(done));
    let version: u16 = if top == 0 {
        legacy
    } else {
        top
    };
    Some(ClientHello { version, sni, alpn, ciphers })
}

/// The line for a ClientHello, from the texts of its names.
pub fn hello_line(version: u16, sni: Option<&str>, alpn: &Vec<String>, ciphers: usize) -> (out:
    String)
    ensures
        out@ == hello_line_of(
            version,
            text::shown_str(sni),
            text::shown_all(alpn@),
            ciphers as nat,
        ),
{
    let mut out = String::new();
    out.append(tls_version(version));
    out.append(" ClientHello");
    if let Some(name) = sni {
        out.append(" sni=");
        out.append(name);
    }
    if alpn.len() > 0 {
        out.append(" alpn=");
        push_joined(&mut out, alpn, ",");
    }
    out.append(" ciphers=");
    push_decimal(&mut out, ciphers as u64);
    assert(out@ =~= hello_line_of(
        version,
        text::shown_str(sni),
        text::shown_all(alpn@),
        ciphers as nat,
    ));
    out
}

/// The line for a message that opens a TLS handshake record.
pub fn tls(d: &[u8]) -> (out: Option<String>)
    ensures
        text::shown(out) == tls_of(d@),
{
    if d.len() <= 5 || d[0] != 0x16 || d[1] != 0x03 {
        return None;
    }
    if d[5] != 0x01 {
        let mut out = String::new();
        out.append(tls_version(be16(d, 1)?));
        out.append(" handshake");
        assert(out@ =~= version_name(bytes::be16_at(d@, 1)->0) + " handshake"@);
        return Some(out);
    }
    let hello = match client_hello(d) {
        Some(hello) => hello,
        None => {
            return None;
        },
    };
    let mut alpn: Vec<String> = Vec::new();
    let mut i: usize = 0;
    while i < hello.alpn.len()
        invariant
            i <= hello.alpn.len(),
            text::shown_all(alpn@) == lossy_all(hello@.alpn.take(i as int)),
        decreases hello.alpn.len() - i,
    {
        let name = lossy(hello.alpn[i].as_slice());
        alpn.push(name);
        i += 1;
        proof {
            let now = hello@.alpn.take(i as int);
            assert(now =~= hello@.alpn.take(i - 1).push(hello.alpn@[i - 1]@));
            assert(lossy_all(now) =~= lossy_all(hello@.alpn.take(i - 1)).push(name@));
            assert(text::shown_all(alpn@) =~= lossy_all(now));
        }
    }
    assert(hello@.alpn.take(i as int) =~= hello@.alpn);
    match &hello.sni {
        Some(name) => {
            let name = lossy(name.as_slice());
            Some(hello_line(hello.version, Some(name.as_str()), &alpn, hello.ciphers))
        },
        None => Some(hello_line(hello.version, None, &alpn, hello.ciphers)),
    }
}

} // verus!
