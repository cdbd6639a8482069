//! Bytes on the wire: big-endian numbers, comparison and searching.
use crate::text;
use vstd::prelude::*;

verus! {

/// The number that two bytes stand for, most significant first.
pub open spec fn be16_of(hi: u8, lo: u8) -> u16 {
    (hi * 256 + lo) as u16
}

/// The big-endian number at a place, if both its bytes are there.
pub open spec fn be16_at(b: Seq<u8>, at: int) -> Option<u16> {
    if 0 <= at && at + 2 <= b.len() {
        Some(be16_of(b[at], b[at + 1]))
    } else {
        None
    }
}

/// The two bytes of a number, most significant first.
pub open spec fn be16_bytes(v: u16) -> Seq<u8> {
    seq![(v / 256) as u8, (v % 256) as u8]
}

/// The four bytes of a number, most significant first.
pub open spec fn be32_bytes(v: u32) -> Seq<u8> {
    seq![
        (v / 0x100_0000) as u8,
        (v / 0x1_0000 % 256) as u8,
        (v / 0x100 % 256) as u8,
        (v % 256) as u8,
    ]
}

/// A number read back from its two bytes is the number.
pub proof fn be16_round_trip(v: u16, rest: Seq<u8>)
    ensures
        be16_at(be16_bytes(v) + rest, 0) == Some(v),
{
}

/// The big-endian number at a place, if both its bytes are there.
pub fn be16(b: &[u8], at: usize) -> (v: Option<u16>)
    ensures
        v == be16_at(b@, at as int),
{
    if at >= b.len() || b.len() - at < 2 {
        None
    } else {
        Some(b[at] as u16 * 256 + b[at + 1] as u16)
    }
}

/// Appends bytes.
pub fn push_bytes(out: &mut Vec<u8>, b: &[u8])
    ensures
        final(out)@ == old(out)@ + b@,
{
    out.extend_from_slice(b);
    assert(out@ =~= old(out)@ + b@);
}

/// Appends a number as two bytes, most significant first.
pub fn push_be16(out: &mut Vec<u8>, v: u16)
    ensures
        final(out)@ == old(out)@ + be16_bytes(v),
{
    out.push((v / 256) as u8);
    out.push((v % 256) as u8);
    assert(out@ =~= old(out)@ + be16_bytes(v));
}

/// Appends a number as four bytes, most significant first.
pub fn push_be32(out: &mut Vec<u8>, v: u32)
    ensures
        final(out)@ == old(out)@ + be32_bytes(v),
{
    out.push((v / 0x100_0000) as u8);
    out.push((v / 0x1_0000 % 256) as u8);
    out.push((v / 0x100 % 256) as u8);
    out.push((v % 256) as u8);
    assert(out@ =~= old(out)@ + be32_bytes(v));
}

/// A copy of some bytes.
pub fn copy_of(b: &[u8]) -> (out: Vec<u8>)
    ensures
        out@ == b@,
{
    let mut out: Vec<u8> = Vec::new();
    push_bytes(&mut out, b);
    assert(out@ =~= b@);
    out
}

/// Whether two runs of bytes are equal.
pub fn same_bytes(a: &[u8], b: &[u8]) -> (same: bool)
    ensures
        same == (a@ == b@),
{
    if a.len() != b.len() {
        return false;
    }
    let mut i: usize = 0;
    while i < a.len()
        invariant
            i <= a.len(),
            a.len() == b.len(),
            a@.take(i as int) == b@.take(i as int),
        decreases a.len() - i,
    {
        if a[i] != b[i] {
            assert(a@[i as int] != b@[i as int]);
            return false;
        }
        i += 1;
        assert(a@.take(i as int) == a@.take(i - 1).push(a@[i - 1]));
        assert(b@.take(i as int) == b@.take(i - 1).push(b@[i - 1]));
    }
    assert(a@.take(a@.len() as int) == a@);
    assert(b@.take(b@.len() as int) == b@);
    true
}

/// Whether `needle` stands in `hay` at `at`.
pub fn bytes_at(hay: &[u8], needle: &[u8], at: usize) -> (here: bool)
    requires
        at <= hay.len(),
    ensures
        here == text::occurs_at(hay@, needle@, at as int),
{
    if needle.len() > hay.len() - at {
        return false;
    }
    same_bytes(vstd::slice::slice_subrange(hay, at, at + needle.len()), needle)
}

/// Whether the bytes begin with `needle`.
pub open spec fn has_prefix(hay: Seq<u8>, needle: Seq<u8>) -> bool {
    text::occurs_at(hay, needle, 0)
}

/// Whether the bytes end with `needle`.
pub open spec fn has_suffix(hay: Seq<u8>, needle: Seq<u8>) -> bool {
    text::occurs_at(hay, needle, hay.len() - needle.len())
}

/// Where a needle that is not empty first stands in `hay`; an empty needle is
/// found nowhere.
pub open spec fn found_at(hay: Seq<u8>, needle: Seq<u8>) -> Option<int> {
    if needle.len() == 0 {
        None
    } else {
        text::first_occurrence(hay, needle)
    }
}

/// Where a needle that is not empty first stands in `hay`.
pub fn find(hay: &[u8], needle: &[u8]) -> (found: Option<usize>)
    ensures
        match found {
            Some(at) => found_at(hay@, needle@) == Some(at as int) && at + needle.len() <= hay.len(),
            None => found_at(hay@, needle@) is None,
        },
{
    if needle.len() == 0 || needle.len() > hay.len() {
        return None;
    }
    let last: usize = hay.len() - needle.len();
    let mut at: usize = 0;
    while at <= last
        invariant
            last + needle.len() == hay.len(),
            needle.len() > 0,
            at <= last + 1,
            text::first_occurrence(hay@, needle@) == text::search_from(hay@, needle@, at as int),
        decreases last + 1 - at,
    {
        if bytes_at(hay, needle, at) {
            return Some(at);
        }
        at += 1;
    }
    None
}

// ------------------------------------------------------------- laws

/// Numbers go over the wire with the most significant byte first: the bytes of a
/// number weigh 256 each against the one behind them, and are read as such.
pub proof fn the_first_byte_weighs_most(v: u16, w: u32, b: Seq<u8>, at: int)
    ensures
        be16_bytes(v).len() == 2,
        be16_bytes(v)[0] * 0x100 + be16_bytes(v)[1] == v,
        be32_bytes(w).len() == 4,
        be32_bytes(w)[0] * 0x100_0000 + be32_bytes(w)[1] * 0x1_0000 + be32_bytes(w)[2] * 0x100
            + be32_bytes(w)[3] == w,
        be16_at(b, at) is Some <==> 0 <= at && at + 2 <= b.len(),
        be16_at(b, at) matches Some(n) ==> n == b[at] * 0x100 + b[at + 1],
{
}

/// Bytes begin with a needle exactly if something makes the needle up to them, and
/// end with it likewise.
pub proof fn an_end_is_made_up(hay: Seq<u8>, needle: Seq<u8>)
    ensures
        has_prefix(hay, needle) <==> exists|rest: Seq<u8>| hay == #[trigger] (needle + rest),
        has_suffix(hay, needle) <==> exists|front: Seq<u8>| hay == #[trigger] (front + needle),
{
    let n = needle.len() as int;
    let m = hay.len() - n;
    if has_prefix(hay, needle) {
        assert(hay =~= needle + hay.skip(n));
    }
    if exists|rest: Seq<u8>| hay == #[trigger] (needle + rest) {
        let rest = choose|rest: Seq<u8>| hay == #[trigger] (needle + rest);
        assert(hay.subrange(0, n) =~= needle);
    }
    if has_suffix(hay, needle) {
        assert(hay =~= hay.take(m) + needle);
    }
    if exists|front: Seq<u8>| hay == #[trigger] (front + needle) {
        let front = choose|front: Seq<u8>| hay == #[trigger] (front + needle);
        assert(hay.subrange(m, m + n) =~= needle);
    }
}

/// A needle that is not empty is found exactly if the bytes are some front, the
/// needle and some back, whatever the front and the back are. An empty one is
/// found nowhere.
pub proof fn a_needle_is_found_anywhere(hay: Seq<u8>, needle: Seq<u8>)
    ensures
        found_at(hay, needle) is Some <==> needle.len() > 0 && exists|front: Seq<u8>, back: Seq<u8>|
            hay == #[trigger] (front + needle + back),
{
    if found_at(hay, needle) is Some {
        text::a_search_parts_the_hay(hay, needle);
        let at = found_at(hay, needle)->0;
        assert(hay == hay.take(at) + needle + hay.skip(at + needle.len() as int));
    }
    if needle.len() > 0 && exists|front: Seq<u8>, back: Seq<u8>|
        hay == #[trigger] (front + needle + back) {
        let (front, back) = choose|front: Seq<u8>, back: Seq<u8>|
            hay == #[trigger] (front + needle + back);
        text::a_search_finds_what_is_there(front, needle, back);
    }
}

} // verus!
