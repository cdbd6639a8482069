//! What is left: banners, markup and plain text.
use crate::classify::dns;
use crate::text;
use crate::text::own;
use vstd::prelude::*;

verus! {

/// The ascii white space.
pub open spec fn is_blank(b: u8) -> bool {
    b == 0x20 || b == 0x09 || b == 0x0a || b == 0x0c || b == 0x0d
}

/// What passes for text: visible characters, space, tab and line ends.
pub open spec fn is_plain(b: u8) -> bool {
    dns::is_graphic(b) || b == 0x20 || b == 0x0d || b == 0x0a || b == 0x09
}

/// How many of the bytes pass for text.
pub open spec fn plain_count(b: Seq<u8>) -> nat
    decreases b.len(),
{
    if b.len() == 0 {
        0
    } else {
        plain_count(b.drop_last()) + if is_plain(b.last()) {
            1nat
        } else {
            0nat
        }
    }
}

/// The bytes up to the first line end.
pub open spec fn line(b: Seq<u8>) -> Seq<u8>
    decreases b.len(),
{
    if b.len() == 0 || b[0] == 0x0d || b[0] == 0x0a {
        Seq::empty()
    } else {
        seq![b[0]] + line(b.drop_first())
    }
}

/// The first byte that is not white space.
pub open spec fn first_solid(b: Seq<u8>) -> Option<u8>
    decreases b.len(),
{
    if b.len() == 0 {
        None
    } else if is_blank(b[0]) {
        first_solid(b.drop_first())
    } else {
        Some(b[0])
    }
}

/// At most `n` bytes from the front.
pub open spec fn sample(d: Seq<u8>, n: int) -> Seq<u8> {
    if d.len() < n {
        d
    } else {
        d.take(n)
    }
}

/// Whether the bytes open an SSH banner.
pub open spec fn opens_ssh(d: Seq<u8>) -> bool {
    d.len() >= 4 && d[0] == 0x53 && d[1] == 0x53 && d[2] == 0x48 && d[3] == 0x2d
}

/// The line for what no protocol claims: an SSH banner up to 64 bytes of its
/// first line, JSON or markup by the first character, or text when nine tenths
/// of the first 512 bytes pass for it.
pub open spec fn other_of(d: Seq<u8>) -> Option<Seq<char>> {
    if opens_ssh(d) {
        Some("SSH banner "@ + dns::as_chars(line(sample(d, 64))))
    } else {
        match first_solid(d) {
            None => None,
            Some(b) => if b == 0x7b || b == 0x5b {
                Some("JSON-ish"@)
            } else if b == 0x3c {
                Some("XML/markup-ish"@)
            } else if plain_count(sample(d, 512)) * 10 >= sample(d, 512).len() * 9 {
                Some("text/ascii"@)
            } else {
                None
            },
        }
    }
}

/// The line for what no protocol claims.
pub fn other(d: &[u8]) -> (out: Option<String>)
    ensures
        text::shown(out) == other_of(d@),
{
    if d.len() >= 4 && d[0] == 0x53 && d[1] == 0x53 && d[2] == 0x48 && d[3] == 0x2d {
        let n: usize = if d.len() < 64 { d.len() } else { 64 };
        let ghost front = sample(d@, 64);
        let mut out = own("SSH banner ");
        let mut i: usize = 0;
        assert(front.skip(0) =~= front);
        assert(dns::as_chars(front.take(0)) =~= Seq::empty());
        assert("SSH banner "@ + dns::as_chars(front.take(0)) =~= "SSH banner "@);
        assert(front.take(0) + line(front) =~= line(front));
        while i < n && d[i] != 0x0d && d[i] != 0x0a
            invariant
                i <= n <= d.len(),
                front == d@.take(n as int),
                out@ == "SSH banner "@ + dns::as_chars(front.take(i as int)),
                line(front) == front.take(i as int) + line(front.skip(i as int)),
            decreases n - i,
        {
            out.push(d[i] as char);
            proof {
                assert(front.skip(i as int).drop_first() =~= front.skip(i + 1));
                assert(front.take(i + 1) =~= front.take(i as int) + seq![front[i as int]]);
                assert(front.take(i as int) + (seq![front[i as int]] + line(front.skip(i + 1)))
                    =~= front.take(i + 1) + line(front.skip(i + 1)));
                assert(dns::as_chars(front.take(i + 1)) =~= dns::as_chars(front.take(i as int)).push(
                    d@[i as int] as char,
                ));
                assert(out@ =~= "SSH banner "@ + dns::as_chars(front.take(i + 1)));
            }
            i += 1;
        }
        assert(line(front) =~= front.take(i as int));
        return Some(out);
    }
    let mut start: usize = 0;
    assert(d@.skip(0) =~= d@);
    while start < d.len() && (d[start] == 0x20 || d[start] == 0x09 || d[start] == 0x0a || d[start]
        == 0x0c || d[start] == 0x0d)
        invariant
            start <= d.len(),
            first_solid(d@) == first_solid(d@.skip(start as int)),
        decreases d.len() - start,
    {
        assert(d@.skip(start as int).drop_first() =~= d@.skip(start + 1));
        start += 1;
    }
    if start >= d.len() {
        return None;
    }
    let b: u8 = d[start];
    if b == 0x7b || b == 0x5b {
        return Some(own("JSON-ish"));
    }
    if b == 0x3c {
        return Some(own("XML/markup-ish"));
    }
    let n: usize = if d.len() < 512 { d.len() } else { 512 };
    let ghost front = sample(d@, 512);
    let mut plain: usize = 0;
    let mut i: usize = 0;
    while i < n
        invariant
            i <= n <= d.len(),
            n <= 512,
            front == d@.take(n as int),
            plain <= i,
            plain == plain_count(front.take(i as int)),
        decreases n - i,
    {
        let c: u8 = d[i];
        if 0x21 <= c && c <= 0x7e || c == 0x20 || c == 0x0d || c == 0x0a || c == 0x09 {
            plain += 1;
        }
        i += 1;
        assert(front.take(i as int).drop_last() =~= front.take(i - 1));
    }
    assert(front.take(n as int) =~= front);
    if plain * 10 >= n * 9 {
        Some(own("text/ascii"))
    } else {
        None
    }
}

} // verus!
