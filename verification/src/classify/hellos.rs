//! What holds of every ClientHello that goes over the wire.
use super::laws;
use super::tls;
use crate::bytes;
use crate::text;
use super::classify;
use super::tls::{client_hello, ClientHello};
use vstd::prelude::*;

verus! {

// ------------------------------------------------------------- versions

/// Whether a version is reserved: both its bytes end in the hex digit `a`.
pub open spec fn is_reserved(v: u16) -> bool {
    v % 16 == 10 && v / 256 % 16 == 10
}

proof fn reserved_is_reserved(v: u16)
    ensures
        tls::is_grease(v) == is_reserved(v),
{
    assert((v & 0x0f0f == 0x0a0a) == (v % 16 == 10 && v / 256 % 16 == 10)) by (bit_vector);
}

/// Versions as they go over the wire, two bytes each.
pub open spec fn versions_list(vs: Seq<u16>) -> Seq<u8> {
    Seq::new(
        2 * vs.len(),
        |i: int|
            if i % 2 == 0 {
                (vs[i / 2] / 256) as u8
            } else {
                (vs[i / 2] % 256) as u8
            },
    )
}

/// The body of a supported_versions extension: how many bytes the list has, and the
/// list.
pub open spec fn versions_bytes(vs: Seq<u16>) -> Seq<u8> {
    seq![(2 * vs.len()) as u8] + versions_list(vs)
}

/// Whether a version is on a list and is not reserved.
pub open spec fn is_offered(vs: Seq<u16>, v: u16) -> bool {
    !is_reserved(v) && vs.contains(v)
}

/// Whether `top` is the highest among `floor` and the versions on a list that are
/// not reserved.
pub open spec fn is_highest(vs: Seq<u16>, floor: u16, top: u16) -> bool {
    &&& floor <= top
    &&& forall|i: int| 0 <= i < vs.len() && !is_reserved(#[trigger] vs[i]) ==> vs[i] <= top
    &&& top == floor || is_offered(vs, top)
}

proof fn a_list_reads_back(b: Seq<u8>, vs: Seq<u16>, floor: u16)
    requires
        b.len() >= 1 + 2 * vs.len(),
        b.subrange(1, 1 + 2 * vs.len() as int) == versions_list(vs),
        1 + 2 * vs.len() <= tls::versions_end(b) <= b.len(),
        tls::versions_end(b) < 3 + 2 * vs.len(),
    ensures
        is_highest(vs, floor, tls::highest_in(b, floor)),
{
    let end = tls::versions_end(b);
    let top = tls::highest_in(b, floor);
    let list = versions_list(vs);
    laws::the_highest_version_is_taken(b, 1, end, floor);
    assert forall|k: int| 0 <= k < vs.len() implies #[trigger] bytes::be16_at(b, 1 + 2 * k) == Some(
        vs[k],
    ) by {
        assert(b.subrange(1, 1 + 2 * vs.len() as int)[2 * k] == b[1 + 2 * k]);
        assert(b.subrange(1, 1 + 2 * vs.len() as int)[2 * k + 1] == b[2 + 2 * k]);
        assert(list[2 * k] == (vs[k] / 256) as u8) by {
            assert((2 * k) / 2 == k && (2 * k) % 2 == 0);
        }
        assert(list[2 * k + 1] == (vs[k] % 256) as u8) by {
            assert((2 * k + 1) / 2 == k && (2 * k + 1) % 2 == 1);
        }
    }
    assert forall|i: int| 0 <= i < vs.len() && !is_reserved(#[trigger] vs[i]) implies vs[i]
        <= top by {
        reserved_is_reserved(vs[i]);
        assert(bytes::be16_at(b, 1 + 2 * i) == Some(vs[i]));
        assert(laws::offers(b, 1, end, vs[i]));
    }
    if top != floor {
        let k = choose|k: int|
            0 <= k && 1 + 2 * k + 2 <= end && (#[trigger] bytes::be16_at(b, 1 + 2 * k)) == Some(top)
                && !tls::is_grease(top);
        assert(k < vs.len());
        assert(bytes::be16_at(b, 1 + 2 * k) == Some(vs[k]));
        reserved_is_reserved(top);
        assert(vs.contains(vs[k]));
    }
}

/// Every version on a list counts, from the first to the last, and reserved ones
/// aside the highest is taken. What follows the list does not count, and of a list
/// that is cut off the whole versions do.
pub proof fn the_versions_read_back(vs: Seq<u16>, floor: u16, rest: Seq<u8>, declared: u8, odd: Seq<u8>)
    requires
        2 * vs.len() <= 255,
        2 * vs.len() <= declared,
        odd.len() <= 1,
    ensures
        is_highest(vs, floor, tls::highest_in(versions_bytes(vs) + rest, floor)),
        is_highest(
            vs,
            floor,
            tls::highest_in(seq![declared] + versions_list(vs) + odd, floor),
        ),
{
    let b = versions_bytes(vs) + rest;
    assert(b.subrange(1, 1 + 2 * vs.len() as int) =~= versions_list(vs));
    assert(b[0] == 2 * vs.len());
    a_list_reads_back(b, vs, floor);
    let c = seq![declared] + versions_list(vs) + odd;
    assert(c.subrange(1, 1 + 2 * vs.len() as int) =~= versions_list(vs));
    assert(c[0] == declared);
    a_list_reads_back(c, vs, floor);
}

/// Whether `lists[i]` is what the `i`-th extension offers, where it is one that
/// offers versions.
pub open spec fn lists_versions(exts: Seq<(u16, Seq<u8>)>, lists: Seq<Seq<u16>>) -> bool {
    &&& lists.len() == exts.len()
    &&& forall|i: int|
        0 <= i < exts.len() ==> {
            let list = #[trigger] lists[i];
            if exts[i].0 == 0x002b {
                2 * list.len() <= 255 && exts[i].1 == versions_bytes(list)
            } else {
                list.len() == 0
            }
        }
}

/// Whether some extension offers a version.
pub open spec fn some_offers(lists: Seq<Seq<u16>>, v: u16) -> bool {
    exists|i: int| 0 <= i < lists.len() && is_offered(#[trigger] lists[i], v)
}

#[verifier::rlimit(50)]
proof fn every_extension_counts(exts: Seq<(u16, Seq<u8>)>, lists: Seq<Seq<u16>>, floor: u16)
    requires
        lists_versions(exts, lists),
    ensures
        ({
            let top = tls::highest_offered(exts, floor);
            &&& floor <= top
            &&& top == floor || some_offers(lists, top)
            &&& forall|v: u16| some_offers(lists, v) ==> v <= top
        }),
    decreases exts.len(),
{
    if exts.len() > 0 {
        let n = exts.len() - 1;
        let front = lists.drop_last();
        assert(lists_versions(exts.drop_last(), front)) by {
            assert forall|i: int| 0 <= i < exts.drop_last().len() implies {
                let list = #[trigger] front[i];
                if exts.drop_last()[i].0 == 0x002b {
                    2 * list.len() <= 255 && exts.drop_last()[i].1 == versions_bytes(list)
                } else {
                    list.len() == 0
                }
            } by {
                assert(front[i] == lists[i]);
            }
        }
        every_extension_counts(exts.drop_last(), front, floor);
        let below = tls::highest_offered(exts.drop_last(), floor);
        let top = tls::highest_offered(exts, floor);
        let list = lists[n];
        if exts.last().0 == 0x002b {
            let none = Seq::<u8>::empty();
            the_versions_read_back(list, below, none, (2 * list.len()) as u8, none);
            assert(versions_bytes(list) + none =~= versions_bytes(list));
        }
        if top != below {
            assert(is_offered(lists[n], top));
        } else if below != floor {
            let i = choose|i: int| 0 <= i < front.len() && is_offered(#[trigger] front[i], below);
            assert(is_offered(lists[i], top));
        }
        assert forall|v: u16| some_offers(lists, v) implies v <= top by {
            let i = choose|i: int| 0 <= i < lists.len() && is_offered(#[trigger] lists[i], v);
            if i < n {
                assert(is_offered(front[i], v));
                assert(some_offers(front, v));
            } else {
                let k = choose|k: int| 0 <= k < list.len() && list[k] == v;
                assert(list[k] == v);
            }
        }
    }
}

/// Whether a hello has a version: the highest that its extensions offer, reserved
/// ones aside, and the legacy one only where they offer none.
pub open spec fn has_version(lists: Seq<Seq<u16>>, legacy: u16, version: u16) -> bool {
    &&& forall|v: u16| v > 0 && some_offers(lists, v) ==> v <= version && some_offers(lists, version)
    &&& (forall|v: u16| v > 0 ==> !some_offers(lists, v)) ==> version == legacy
}

/// The version of a hello is the highest that is offered; a version that stands
/// anywhere on any list is never passed over for a lower one.
pub proof fn the_highest_offer_is_the_version(
    exts: Seq<(u16, Seq<u8>)>,
    lists: Seq<Seq<u16>>,
    legacy: u16,
)
    requires
        lists_versions(exts, lists),
    ensures
        has_version(lists, legacy, tls::version_of(exts, legacy)),
{
    every_extension_counts(exts, lists, 0);
    let top = tls::highest_offered(exts, 0);
    if top > 0 {
        assert(some_offers(lists, top));
    }
}

/// The versions that are known have their usual names, and no other has one.
pub proof fn versions_are_named(v: u16)
    ensures
        v == 0x0300 ==> tls::version_name(v) == "SSL 3.0"@,
        0x0301 <= v <= 0x0304 ==> tls::version_name(v) == "TLS 1."@ + text::decimal(
            (v - 0x0301) as nat,
        ),
        v < 0x0300 || v > 0x0304 ==> tls::version_name(v) == "TLS ?"@,
{
    reveal_strlit("TLS 1.");
    reveal_strlit("TLS 1.0");
    reveal_strlit("TLS 1.1");
    reveal_strlit("TLS 1.2");
    reveal_strlit("TLS 1.3");
    if 0x0301 <= v <= 0x0304 {
        let n = (v - 0x0301) as nat;
        let s = "TLS 1."@ + text::decimal(n);
        assert(text::decimal(n) == seq![text::digit(n)]);
        if v == 0x0301 {
            assert(s =~= "TLS 1.0"@);
        } else if v == 0x0302 {
            assert(s =~= "TLS 1.1"@);
        } else if v == 0x0303 {
            assert(s =~= "TLS 1.2"@);
        } else {
            assert(s =~= "TLS 1.3"@);
        }
    }
}

// ------------------------------------------------------------- hosts

/// The entries of a server_name list as they go over the wire: type, length and
/// name.
pub open spec fn entries_bytes(entries: Seq<(u8, Seq<u8>)>) -> Seq<u8>
    decreases entries.len(),
{
    if entries.len() == 0 {
        Seq::empty()
    } else {
        seq![entries[0].0] + bytes::be16_bytes(entries[0].1.len() as u16) + entries[0].1
            + entries_bytes(entries.skip(1))
    }
}

proof fn an_entry_is_passed(b: Seq<u8>, p: int, entries: Seq<(u8, Seq<u8>)>)
    requires
        0 <= p <= b.len(),
        entries.len() > 0,
        entries[0].1.len() <= 0xffff,
        b.skip(p) == entries_bytes(entries),
    ensures
        ({
            let next = p + 3 + entries[0].1.len();
            &&& next <= b.len()
            &&& b[p] == entries[0].0
            &&& bytes::be16_at(b, p + 1) == Some(entries[0].1.len() as u16)
            &&& b.subrange(p + 3, next) == entries[0].1
            &&& b.skip(next) == entries_bytes(entries.skip(1))
        }),
{
    let e = entries[0];
    let n = e.1.len() as int;
    let all = entries_bytes(entries);
    let rest = entries_bytes(entries.skip(1));
    let size = bytes::be16_bytes(e.1.len() as u16);
    assert(all == seq![e.0] + size + e.1 + rest);
    assert forall|k: int| 0 <= k < all.len() implies b[p + k] == all[k] by {
        assert(b.skip(p)[k] == b[p + k]);
    }
    assert(b[p + 0] == all[0] && all[0] == e.0);
    assert(b[p + 1] == all[1] && b[p + 2] == all[2]);
    assert(all[1] == size[0] && all[2] == size[1]);
    assert(b.subrange(p + 3, p + 3 + n) =~= e.1) by {
        assert forall|k: int| 0 <= k < n implies b[p + 3 + k] == e.1[k] by {
            assert(b[p + (3 + k)] == all[3 + k]);
        }
    }
    assert(b.skip(p + 3 + n) =~= rest) by {
        assert forall|k: int| 0 <= k < rest.len() implies b[p + 3 + n + k] == rest[k] by {
            assert(b[p + (3 + n + k)] == all[3 + n + k]);
        }
    }
}

proof fn entries_read_back(b: Seq<u8>, p: int, entries: Seq<(u8, Seq<u8>)>, i: int)
    requires
        0 <= p <= b.len(),
        b.skip(p) == entries_bytes(entries),
        forall|j: int| 0 <= j < entries.len() ==> (#[trigger] entries[j]).1.len() <= 0xffff,
        0 <= i <= entries.len(),
        forall|j: int| 0 <= j < i ==> (#[trigger] entries[j]).0 != 0,
        i < entries.len() ==> entries[i].0 == 0,
    ensures
        tls::sni_from(b, p) == if i < entries.len() {
            Some(entries[i].1)
        } else {
            None
        },
    decreases entries.len(),
{
    if entries.len() > 0 {
        an_entry_is_passed(b, p, entries);
        if i > 0 {
            let rest = entries.skip(1);
            assert forall|j: int| 0 <= j < rest.len() implies (#[trigger] rest[j]).1.len()
                <= 0xffff by {
                assert(rest[j] == entries[j + 1]);
            }
            assert forall|j: int| 0 <= j < i - 1 implies (#[trigger] rest[j]).0 != 0 by {
                assert(rest[j] == entries[j + 1]);
            }
            entries_read_back(b, p + 3 + entries[0].1.len(), rest, i - 1);
        }
    } else {
        assert(b.skip(p).len() == 0);
    }
}

/// Of the names that a client gives, the first that is a host name is read, and
/// names of other types are passed over. Where `i` is the number of the names there
/// is no host name among them.
pub proof fn the_first_host_is_read(entries: Seq<(u8, Seq<u8>)>, i: int, size: u16)
    requires
        forall|j: int| 0 <= j < entries.len() ==> (#[trigger] entries[j]).1.len() <= 0xffff,
        0 <= i <= entries.len(),
        forall|j: int| 0 <= j < i ==> (#[trigger] entries[j]).0 != 0,
        i < entries.len() ==> entries[i].0 == 0,
    ensures
        tls::sni_in(bytes::be16_bytes(size) + entries_bytes(entries)) == if i < entries.len() {
            Some(entries[i].1)
        } else {
            None
        },
{
    let b = bytes::be16_bytes(size) + entries_bytes(entries);
    assert(b.skip(2) =~= entries_bytes(entries));
    entries_read_back(b, 2, entries, i);
}

// ------------------------------------------------------------- lines

/// Whether the last extension of a type, if there is any, has that body.
pub open spec fn says(exts: Seq<(u16, Seq<u8>)>, kind: u16, body: Option<Seq<u8>>) -> bool {
    match body {
        None => forall|i: int| 0 <= i < exts.len() ==> (#[trigger] exts[i]).0 != kind,
        Some(b) => exists|i: int|
            0 <= i < exts.len() && #[trigger] exts[i] == (kind, b) && forall|j: int|
                i < j < exts.len() ==> (#[trigger] exts[j]).0 != kind,
    }
}

proof fn the_last_counts(exts: Seq<(u16, Seq<u8>)>, kind: u16, body: Option<Seq<u8>>)
    requires
        says(exts, kind, body),
    ensures
        tls::last_body(exts, kind) == body,
    decreases exts.len(),
{
    if exts.len() > 0 {
        let n = exts.len() - 1;
        let front = exts.drop_last();
        match body {
            None => {
                assert(exts[n].0 != kind);
                assert forall|i: int| 0 <= i < front.len() implies (#[trigger] front[i]).0 != kind by {
                    assert(front[i] == exts[i]);
                }
                the_last_counts(front, kind, body);
            },
            Some(b) => {
                let i = choose|i: int|
                    0 <= i < exts.len() && #[trigger] exts[i] == (kind, b) && forall|j: int|
                        i < j < exts.len() ==> (#[trigger] exts[j]).0 != kind;
                if i < n {
                    assert(exts[n].0 != kind);
                    assert(front[i] == exts[i]);
                    assert forall|j: int| i < j < front.len() implies (#[trigger] front[j]).0
                        != kind by {
                        assert(front[j] == exts[j]);
                    }
                    the_last_counts(front, kind, body);
                }
            },
        }
    }
}

/// What is said of the host that a client names.
pub open spec fn host_part(host: Option<Seq<u8>>) -> Seq<char> {
    match host {
        Some(name) => " sni="@ + text::utf8_lossy(name),
        None => Seq::empty(),
    }
}

/// What is said of the protocols that a client offers.
pub open spec fn protocols_part(names: Seq<Seq<u8>>) -> Seq<char> {
    if names.len() == 0 {
        Seq::empty()
    } else {
        " alpn="@ + text::joined(
            Seq::new(names.len(), |i: int| text::utf8_lossy(names[i])),
            ","@,
        )
    }
}

/// A ClientHello is reported with the highest version that it offers, the host that
/// it names, the protocols that it offers and the number of its cipher suites, each
/// of them whether or not the others are there, and whatever other extensions
/// stand around them or bytes follow.
#[verifier::rlimit(50)]
pub proof fn a_hello_is_reported(
    minor: u8,
    record: Seq<u8>,
    length: Seq<u8>,
    legacy: u16,
    random: Seq<u8>,
    session: Seq<u8>,
    ciphers: Seq<u8>,
    compression: Seq<u8>,
    exts: Seq<(u16, Seq<u8>)>,
    lists: Seq<Seq<u16>>,
    version: u16,
    host: Option<Seq<u8>>,
    names: Seq<Seq<u8>>,
    more: Seq<u8>,
)
    requires
        record.len() == 2,
        length.len() == 3,
        random.len() == 32,
        session.len() <= 0xff,
        ciphers.len() <= 0xffff,
        compression.len() <= 0xff,
        laws::bodies_fit(exts),
        laws::extensions_bytes(exts).len() <= 0xffff,
        lists_versions(exts, lists),
        has_version(lists, legacy, version),
        match host {
            Some(name) => name.len() <= 0xffff && says(exts, 0x0000, Some(laws::sni_bytes(name))),
            None => says(exts, 0x0000, None),
        },
        forall|i: int| 0 <= i < names.len() ==> (#[trigger] names[i]).len() <= 0xff,
        says(exts, 0x0010, Some(laws::alpn_bytes(names))) || names.len() == 0 && says(
            exts,
            0x0010,
            None,
        ),
    ensures
        super::guess(
            laws::hello_bytes(
                minor,
                record,
                length,
                legacy,
                random,
                session,
                ciphers,
                compression,
                exts,
            ) + more,
        ) == Some(
            tls::version_name(version) + " ClientHello"@ + host_part(host) + protocols_part(names)
                + " ciphers="@ + text::decimal((ciphers.len() as int / 2) as nat),
        ),
{
    let d = laws::hello_bytes(
        minor,
        record,
        length,
        legacy,
        random,
        session,
        ciphers,
        compression,
        exts,
    ) + more;
    laws::a_hello_reads_back(
        minor,
        record,
        length,
        legacy,
        random,
        session,
        ciphers,
        compression,
        exts,
        more,
    );
    the_highest_offer_is_the_version(exts, lists, legacy);
    one_version(lists, legacy, version, tls::version_of(exts, legacy));
    match host {
        Some(name) => {
            the_last_counts(exts, 0x0000, Some(laws::sni_bytes(name)));
            laws::the_host_reads_back(name);
        },
        None => {
            the_last_counts(exts, 0x0000, None);
        },
    }
    laws::the_protocols_read_back(names);
    if says(exts, 0x0010, Some(laws::alpn_bytes(names))) {
        the_last_counts(exts, 0x0010, Some(laws::alpn_bytes(names)));
    } else {
        the_last_counts(exts, 0x0010, None);
        assert(names =~= Seq::empty());
    }
    let h = tls::hello_of(d)->0;
    assert(h.version == version);
    assert(h.sni == host);
    assert(h.alpn == names);
    assert(tls::lossy_all(names) =~= Seq::new(names.len(), |i: int| text::utf8_lossy(names[i])));
    opens(minor, record, length, legacy, random, session, ciphers, compression, exts);
    assert(tls::tls_of(d) is Some);
}

proof fn opens(
    minor: u8,
    record: Seq<u8>,
    length: Seq<u8>,
    legacy: u16,
    random: Seq<u8>,
    session: Seq<u8>,
    ciphers: Seq<u8>,
    compression: Seq<u8>,
    exts: Seq<(u16, Seq<u8>)>,
)
    requires
        record.len() == 2,
        length.len() == 3,
        random.len() == 32,
    ensures
        ({
            let d = laws::hello_bytes(
                minor,
                record,
                length,
                legacy,
                random,
                session,
                ciphers,
                compression,
                exts,
            );
            d.len() > 43 && d[0] == 0x16 && d[1] == 0x03 && d[5] == 0x01
        }),
{
}

proof fn one_version(lists: Seq<Seq<u16>>, legacy: u16, a: u16, b: u16)
    requires
        has_version(lists, legacy, a),
        has_version(lists, legacy, b),
    ensures
        a == b,
{
    if exists|v: u16| v > 0 && some_offers(lists, v) {
        let v = choose|v: u16| v > 0 && some_offers(lists, v);
        assert(some_offers(lists, a) && some_offers(lists, b));
        assert(a >= v && b >= v);
    } else {
        assert(a == legacy && b == legacy);
    }
}

/// A handshake record that opens with anything but a ClientHello is named by the
/// version of the record, and what is no handshake record is no TLS.
pub proof fn other_records_are_told_apart(d: Seq<u8>)
    ensures
        d.len() > 5 && d[0] == 0x16 && d[1] == 0x03 && d[5] != 0x01 ==> super::guess(d) == Some(
            tls::version_name((0x0300 + d[2]) as u16) + " handshake"@,
        ),
        d.len() <= 5 || d[0] != 0x16 || d[1] != 0x03 ==> tls::tls_of(d) is None,
{
}

/// The fixed part of a ClientHello as it goes over the wire, up to and with the
/// compression methods.
pub open spec fn fixed_bytes(
    minor: u8,
    record: Seq<u8>,
    length: Seq<u8>,
    legacy: u16,
    random: Seq<u8>,
    session: Seq<u8>,
    ciphers: Seq<u8>,
    compression: Seq<u8>,
) -> Seq<u8> {
    seq![0x16u8, 0x03, minor] + record + seq![0x01u8] + length + bytes::be16_bytes(legacy) + random
        + seq![session.len() as u8] + session + bytes::be16_bytes(ciphers.len() as u16) + ciphers
        + seq![compression.len() as u8] + compression
}

#[verifier::rlimit(50)]
proof fn the_fixed_part_is_read(
    minor: u8,
    record: Seq<u8>,
    length: Seq<u8>,
    legacy: u16,
    random: Seq<u8>,
    session: Seq<u8>,
    ciphers: Seq<u8>,
    compression: Seq<u8>,
    rest: Seq<u8>,
)
    requires
        record.len() == 2,
        length.len() == 3,
        random.len() == 32,
        session.len() <= 0xff,
        ciphers.len() <= 0xffff,
        compression.len() <= 0xff,
    ensures
        ({
            let f = fixed_bytes(
                minor,
                record,
                length,
                legacy,
                random,
                session,
                ciphers,
                compression,
            );
            let d = f + rest;
            let q = 46 + session.len() as int + ciphers.len();
            &&& f.len() == q + 1 + compression.len()
            &&& d[0] == 0x16 && d[1] == 0x03 && d[5] == 0x01
            &&& bytes::be16_at(d, 9) == Some(legacy)
            &&& d[43] == session.len()
            &&& d[44 + session.len() as int] * 256 + d[45 + session.len() as int] == ciphers.len()
            &&& bytes::be16_at(d, 44 + session.len() as int) == Some(ciphers.len() as u16)
            &&& d[q] == compression.len()
        }),
{
    let f = fixed_bytes(minor, record, length, legacy, random, session, ciphers, compression);
    let fixed = seq![0x16u8, 0x03, minor] + record + seq![0x01u8] + length;
    let a = fixed + bytes::be16_bytes(legacy) + random;
    let b = a + seq![session.len() as u8] + session;
    let c = b + bytes::be16_bytes(ciphers.len() as u16) + ciphers;
    let size = bytes::be16_bytes(ciphers.len() as u16);
    assert(fixed.len() == 9);
    assert(a.len() == 43);
    assert(f == c + seq![compression.len() as u8] + compression);
    let d = f + rest;
    assert(d[9] == bytes::be16_bytes(legacy)[0] && d[10] == bytes::be16_bytes(legacy)[1]);
    assert(d[43] == session.len() as u8);
    assert(d[b.len() as int] == size[0] && d[b.len() as int + 1] == size[1]);
    assert(d[c.len() as int] == compression.len() as u8);
}

/// A ClientHello that ends behind its compression methods is whole: it has the
/// legacy version, names nobody and offers no protocol. One that ends before them
/// is none.
#[verifier::rlimit(50)]
pub proof fn a_hello_needs_its_fixed_part(
    minor: u8,
    record: Seq<u8>,
    length: Seq<u8>,
    legacy: u16,
    random: Seq<u8>,
    session: Seq<u8>,
    ciphers: Seq<u8>,
    compression: Seq<u8>,
    n: int,
)
    requires
        record.len() == 2,
        length.len() == 3,
        random.len() == 32,
        session.len() <= 0xff,
        ciphers.len() <= 0xffff,
        compression.len() <= 0xff,
        0 <= n <= 46 + session.len() + ciphers.len(),
    ensures
        ({
            let f = fixed_bytes(
                minor,
                record,
                length,
                legacy,
                random,
                session,
                ciphers,
                compression,
            );
            &&& super::guess(f) == Some(
                tls::version_name(legacy) + " ClientHello"@ + " ciphers="@ + text::decimal(
                    (ciphers.len() as int / 2) as nat,
                ),
            )
            &&& tls::hello_of(f.take(n)) is None
            &&& tls::tls_of(f.take(n)) is None
        }),
{
    let none = Seq::<u8>::empty();
    let f = fixed_bytes(minor, record, length, legacy, random, session, ciphers, compression);
    the_fixed_part_is_read(
        minor,
        record,
        length,
        legacy,
        random,
        session,
        ciphers,
        compression,
        none,
    );
    assert(f + none =~= f);
    let h = tls::hello_of(f)->0;
    assert(tls::hello_extensions(f) == Some(Seq::<(u16, Seq<u8>)>::empty()));
    assert(tls::hello_of(f) is Some);
    assert(h.version == legacy);
    assert(h.sni is None && h.alpn.len() == 0);
    assert(tls::lossy_all(h.alpn).len() == 0);
    assert(tls::tls_of(f)->0 =~= tls::version_name(legacy) + " ClientHello"@ + " ciphers="@
        + text::decimal((ciphers.len() as int / 2) as nat));
    let d = f.take(n);
    if n > 43 {
        assert(d[43] == f[43]);
        if 46 + session.len() <= n {
            assert(d[44 + session.len() as int] == f[44 + session.len() as int]);
            assert(d[45 + session.len() as int] == f[45 + session.len() as int]);
        }
    }
}

#[verifier::rlimit(50)]
proof fn a_cut_extension_ends_it(
    d: Seq<u8>,
    p: int,
    end: int,
    exts: Seq<(u16, Seq<u8>)>,
    kind: u16,
    len: u16,
    part: Seq<u8>,
)
    requires
        0 <= p <= d.len(),
        laws::bodies_fit(exts),
        d.skip(p) == laws::extensions_bytes(exts) + bytes::be16_bytes(kind) + bytes::be16_bytes(len)
            + part,
        part.len() < len,
        p + laws::extensions_bytes(exts).len() + 4 <= end <= d.len(),
    ensures
        tls::extensions(d, p, end) is None,
    decreases exts.len(),
{
    let all = laws::extensions_bytes(exts);
    let k = bytes::be16_bytes(kind);
    let l = bytes::be16_bytes(len);
    let whole = all + k + l + part;
    assert(d.skip(p).len() == d.len() - p);
    assert forall|i: int| 0 <= i < whole.len() implies d[p + i] == whole[i] by {
        assert(d.skip(p)[i] == d[p + i]);
    }
    if exts.len() == 0 {
        assert(whole =~= k + l + part);
        assert(d[p + 2] == whole[2] && d[p + 3] == whole[3]);
        assert(whole[2] == l[0] && whole[3] == l[1]);
        assert(bytes::be16_at(d, p + 2) == Some(len));
    } else {
        assert(d.subrange(p, p + all.len()) =~= all);
        laws::an_extension_is_passed(d, p, end, exts);
        let next = p + 4 + exts[0].1.len();
        let rest = laws::extensions_bytes(exts.skip(1));
        assert(d.skip(next) =~= rest + k + l + part) by {
            assert(d.skip(p).skip(4 + exts[0].1.len() as int) =~= d.skip(next));
            assert(all.skip(4 + exts[0].1.len() as int) =~= rest) by {
                assert forall|i: int| 0 <= i < rest.len() implies all[4 + exts[0].1.len() + i]
                    == rest[i] by {
                    assert(d.subrange(next, next + rest.len())[i] == d[next + i]);
                    assert(d[p + (4 + exts[0].1.len() + i)] == whole[4 + exts[0].1.len() + i]);
                }
            }
            assert(whole.skip(4 + exts[0].1.len() as int) =~= all.skip(4 + exts[0].1.len() as int)
                + k + l + part);
        }
        a_cut_extension_ends_it(d, next, end, exts.skip(1), kind, len, part);
    }
}

/// A ClientHello that ends within the body of an extension is not reported.
#[verifier::rlimit(50)]
pub proof fn a_cut_hello_is_not_reported(
    minor: u8,
    record: Seq<u8>,
    length: Seq<u8>,
    legacy: u16,
    random: Seq<u8>,
    session: Seq<u8>,
    ciphers: Seq<u8>,
    compression: Seq<u8>,
    exts: Seq<(u16, Seq<u8>)>,
    total: u16,
    kind: u16,
    len: u16,
    part: Seq<u8>,
)
    requires
        record.len() == 2,
        length.len() == 3,
        random.len() == 32,
        session.len() <= 0xff,
        ciphers.len() <= 0xffff,
        compression.len() <= 0xff,
        laws::bodies_fit(exts),
        part.len() < len,
        laws::extensions_bytes(exts).len() + 4 <= total,
    ensures
        tls::tls_of(
            fixed_bytes(minor, record, length, legacy, random, session, ciphers, compression)
                + bytes::be16_bytes(total) + laws::extensions_bytes(exts) + bytes::be16_bytes(kind)
                + bytes::be16_bytes(len) + part,
        ) is None,
{
    let f = fixed_bytes(minor, record, length, legacy, random, session, ciphers, compression);
    let e = laws::extensions_bytes(exts);
    let t = bytes::be16_bytes(total);
    let tail = e + bytes::be16_bytes(kind) + bytes::be16_bytes(len) + part;
    let rest = t + tail;
    let d = f + t + e + bytes::be16_bytes(kind) + bytes::be16_bytes(len) + part;
    assert(d =~= f + rest);
    the_fixed_part_is_read(
        minor,
        record,
        length,
        legacy,
        random,
        session,
        ciphers,
        compression,
        rest,
    );
    let r = f.len() as int;
    assert(tls::ciphers_at(d) == 44 + session.len());
    assert(tls::compression_at(d) == 46 + session.len() + ciphers.len());
    assert(tls::extensions_at(d) == r);
    assert(d[r] == t[0] && d[r + 1] == t[1]);
    assert(bytes::be16_at(d, r) == Some(total));
    assert(d.skip(r + 2) =~= tail);
    let end = if r + 2 + total < d.len() {
        r + 2 + total
    } else {
        d.len() as int
    };
    a_cut_extension_ends_it(d, r + 2, end, exts, kind, len, part);
    assert(tls::hello_extensions(d) is None);
    assert(tls::hello_of(d) is None);
}

/// What `classify` says is the guess, and `client_hello` reads what the hello says.
pub proof fn a_hello_is_classified(d: &[u8], out: Option<String>, hello: Option<ClientHello>)
    requires
        call_ensures(classify, (d,), out),
        call_ensures(client_hello, (d,), hello),
    ensures
        match super::guess(d@) {
            Some(said) => out matches Some(line) && line@ == said,
            None => out is None,
        },
        match tls::hello_of(d@) {
            Some(h) => hello matches Some(c) && c.version == h.version && c.ciphers == h.ciphers
                && tls::optional_bytes(c.sni) == h.sni && tls::all_bytes(c.alpn@) == h.alpn,
            None => hello is None,
        },
{
    assert(text::shown(out) == super::guess(d@));
    if let Some(c) = hello {
        assert(c@.version == c.version);
    }
}

proof fn versions_end_at_the_end(a: Seq<u8>, b: Seq<u8>, i: int, end: int, floor: u16)
    requires
        0 <= i,
        end <= a.len(),
        end <= b.len(),
        forall|k: int| 0 <= k < end ==> a[k] == b[k],
    ensures
        tls::highest_from(a, i, end, floor) == tls::highest_from(b, i, end, floor),
    decreases end - i,
{
    if i + 2 <= end {
        let v = bytes::be16_at(a, i)->0;
        assert(bytes::be16_at(b, i) == bytes::be16_at(a, i));
        versions_end_at_the_end(
            a,
            b,
            i + 2,
            end,
            if !tls::is_grease(v) && v > floor {
                v
            } else {
                floor
            },
        );
    }
}

/// What follows the list that a supported_versions extension declares is no part of
/// it, whether the list is one of whole versions or not.
pub proof fn what_follows_the_versions_is_ignored(list: Seq<u8>, more: Seq<u8>, floor: u16)
    requires
        list.len() <= 0xff,
    ensures
        tls::highest_in(seq![list.len() as u8] + list + more, floor) == tls::highest_in(
            seq![list.len() as u8] + list,
            floor,
        ),
{
    let a = seq![list.len() as u8] + list + more;
    let b = seq![list.len() as u8] + list;
    assert(a[0] == list.len() && b[0] == list.len());
    assert(tls::versions_end(a) == 1 + list.len() && tls::versions_end(b) == 1 + list.len());
    assert(forall|k: int| 0 <= k < b.len() ==> a[k] == b[k]);
    versions_end_at_the_end(a, b, 1, (1 + list.len()) as int, floor);
}

/// An extension that begins within the declared extensions is read whole, also where
/// it ends beyond them; it is the last one then.
pub proof fn the_last_extension_may_run_over(
    front: Seq<u8>,
    kind: u16,
    body: Seq<u8>,
    more: Seq<u8>,
    end: int,
)
    requires
        body.len() <= 0xffff,
        front.len() + 4 <= end <= front.len() + 4 + body.len(),
    ensures
        tls::extensions(
            front + bytes::be16_bytes(kind) + bytes::be16_bytes(body.len() as u16) + body + more,
            front.len() as int,
            end,
        ) == Some(seq![(kind, body)]),
{
    let d = front + bytes::be16_bytes(kind) + bytes::be16_bytes(body.len() as u16) + body + more;
    let p = front.len() as int;
    let next = p + 4 + body.len();
    let k = bytes::be16_bytes(kind);
    let n = bytes::be16_bytes(body.len() as u16);
    assert(d[p] == k[0] && d[p + 1] == k[1] && d[p + 2] == n[0] && d[p + 3] == n[1]);
    assert(bytes::be16_at(d, p) == Some(kind));
    assert(bytes::be16_at(d, p + 2) == Some(body.len() as u16));
    assert(d.subrange(p + 4, next) =~= body);
    assert(tls::extensions(d, next, end) == Some(Seq::<(u16, Seq<u8>)>::empty()));
    assert(seq![(kind, body)] + Seq::<(u16, Seq<u8>)>::empty() =~= seq![(kind, body)]);
}

} // verus!
