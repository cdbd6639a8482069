//! DNS: the name and the type that a query asks for.
use crate::bytes;
use crate::bytes::be16;
use crate::dns;
use crate::text;
use crate::text::{push_decimal, push_joined};
use vstd::prelude::*;

verus! {

/// The name of a record type.
pub open spec fn qtype_of(t: u16) -> Seq<char> {
    if t == 1 {
        "A"@
    } else if t == 2 {
        "NS"@
    } else if t == 5 {
        "CNAME"@
    } else if t == 6 {
        "SOA"@
    } else if t == 12 {
        "PTR"@
    } else if t == 15 {
        "MX"@
    } else if t == 16 {
        "TXT"@
    } else if t == 28 {
        "AAAA"@
    } else if t == 33 {
        "SRV"@
    } else if t == 65 {
        "HTTPS"@
    } else {
        "TYPE"@ + text::decimal(t as nat)
    }
}

/// A visible ascii character.
pub open spec fn is_graphic(b: u8) -> bool {
    0x21 <= b <= 0x7e
}

/// Bytes read as one character each.
pub open spec fn as_chars(b: Seq<u8>) -> Seq<char> {
    b.map_values(|x: u8| x as char)
}

/// The labels of a name that goes on at `at` behind `n` labels, and where the
/// name ends. A name is refused when it is cut off, when it holds a compression
/// pointer or an invisible character, and when a label follows the 64th.
pub open spec fn labels_from(d: Seq<u8>, at: int, n: nat) -> Option<(Seq<Seq<char>>, int)>
    decreases d.len() - at,
{
    if at < 0 || at >= d.len() {
        None
    } else if d[at] == 0 {
        Some((Seq::empty(), at + 1))
    } else if d[at] >= 0x40 || n > 63 || at + 1 + d[at] > d.len() {
        None
    } else {
        let next = at + 1 + d[at];
        let label = d.subrange(at + 1, next);
        if exists|i: int| 0 <= i < label.len() && !is_graphic(#[trigger] label[i]) {
            None
        } else {
            match labels_from(d, next, n + 1) {
                Some((rest, end)) => Some((seq![as_chars(label)] + rest, end)),
                None => None,
            }
        }
    }
}

/// The line for a message that is a query: the response flag clear, the standard
/// opcode, exactly one question, no answers, and a name of at least one label.
pub open spec fn dns_of(d: Seq<u8>) -> Option<Seq<char>> {
    if d.len() < 12 {
        None
    } else {
        let flags = bytes::be16_at(d, 2)->0;
        if dns::is_response(flags) || dns::opcode(flags) != 0 || bytes::be16_at(d, 4) != Some(1u16)
            || bytes::be16_at(d, 6) != Some(0u16) {
            None
        } else {
            match labels_from(d, 12, 0) {
                None => None,
                Some((labels, end)) => match bytes::be16_at(d, end) {
                    Some(qtype) if labels.len() > 0 => Some(
                        "DNS query "@ + qtype_of(qtype) + " "@ + text::joined(labels, "."@),
                    ),
                    _ => None,
                },
            }
        }
    }
}

/// The name of a record type.
pub fn qtype_name(t: u16) -> (name: String)
    ensures
        name@ == qtype_of(t),
{
    let mut out = String::new();
    match t {
        1 => out.append("A"),
        2 => out.append("NS"),
        5 => out.append("CNAME"),
        6 => out.append("SOA"),
        12 => out.append("PTR"),
        15 => out.append("MX"),
        16 => out.append("TXT"),
        28 => out.append("AAAA"),
        33 => out.append("SRV"),
        65 => out.append("HTTPS"),
        _ => {
            out.append("TYPE");
            push_decimal(&mut out, t as u64);
        },
    }
    assert(out@ =~= qtype_of(t));
    out
}

/// Bytes read as one character each, if all of them are visible.
fn visible(label: &[u8]) -> (out: Option<String>)
    ensures
        out is Some <==> !(exists|i: int|
            0 <= i < label@.len() && !is_graphic(#[trigger] label@[i])),
        out matches Some(text) ==> text@ == as_chars(label@),
{
    let mut out = String::new();
    let mut i: usize = 0;
    while i < label.len()
        invariant
            i <= label.len(),
            out@ == as_chars(label@.take(i as int)),
            forall|j: int| 0 <= j < i ==> is_graphic(#[trigger] label@[j]),
        decreases label.len() - i,
    {
        let b: u8 = label[i];
        if b < 0x21 || b > 0x7e {
            assert(!is_graphic(label@[i as int]));
            return None;
        }
        out.push(b as char);
        i += 1;
        assert(out@ =~= as_chars(label@.take(i as int)));
    }
    assert(label@.take(i as int) =~= label@);
    Some(out)
}

/// The line for a message that is a query.
pub fn dns(d: &[u8]) -> (out: Option<String>)
    ensures
        text::shown(out) == dns_of(d@),
{
    if d.len() < 12 {
        return None;
    }
    let flags = be16(d, 2)?;
    if flags & 0x8000 != 0 || (flags >> 11) & 0x0f != 0 || be16(d, 4)? != 1 || be16(d, 6)? != 0 {
        return None;
    }
    let mut p: usize = 12;
    let mut labels: Vec<String> = Vec::new();
    proof {
        let none = text::shown_all(labels@);
        assert(labels_from(d@, 12, 0) matches Some((rest, end)) ==> none + rest =~= rest);
    }
    loop
        invariant_except_break
            labels@.len() <= 64,
            labels_from(d@, 12, 0) == (match labels_from(d@, p as int, labels@.len()) {
                Some((rest, end)) => Some((text::shown_all(labels@) + rest, end)),
                None => None,
            }),
        invariant
            dns_of(d@) is Some ==> labels_from(d@, 12, 0) is Some,
        ensures
            labels_from(d@, 12, 0) == Some((text::shown_all(labels@), p as int)),
        decreases 65 - labels@.len(),
    {
        if p >= d.len() {
            return None;
        }
        let len: u8 = d[p];
        assert((len & 0xc0 != 0) == (len >= 0x40)) by (bit_vector);
        if len == 0 {
            assert(text::shown_all(labels@) + Seq::<Seq<char>>::empty() =~= text::shown_all(labels@));
            p += 1;
            break;
        }
        if len & 0xc0 != 0 || labels.len() > 63 {
            return None;
        }
        if len as usize > d.len() - p - 1 {
            return None;
        }
        let label = vstd::slice::slice_subrange(d, p + 1, p + 1 + len as usize);
        let text = match visible(label) {
            Some(text) => text,
            None => {
                return None;
            },
        };
        let ghost before = text::shown_all(labels@);
        labels.push(text);
        proof {
            assert(text::shown_all(labels@) =~= before.push(text@));
            let rest = labels_from(d@, p + 1 + len, labels@.len());
            assert(rest matches Some((r, end)) ==> before + (seq![text@] + r) =~= before.push(text@)
                + r);
        }
        p += 1 + len as usize;
    }
    if labels.len() == 0 {
        return None;
    }
    let qtype = be16(d, p)?;
    let mut out = String::new();
    out.append("DNS query ");
    out.append(qtype_name(qtype).as_str());
    out.append(" ");
    push_joined(&mut out, &labels, ".");
    assert(out@ =~= "DNS query "@ + qtype_of(qtype) + " "@ + text::joined(text::shown_all(labels@), "."@));
    Some(out)
}

} // verus!
