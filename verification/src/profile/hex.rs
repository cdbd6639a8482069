//! Bytes written as hex digits.
use crate::text;
use crate::text::{chars_at, chars_of, text_of};
use vstd::prelude::*;
use vstd::utf8::*;

verus! {

/// What may stand between hex digits: ascii white space and a few separators.
pub open spec fn is_separator(c: char) -> bool {
    c == ' ' || c == '\t' || c == '\n' || c == '\u{c}' || c == '\r' || c == ':' || c == '-' || c
        == ','
}

/// A text without its separators.
pub open spec fn cleaned(s: Seq<char>) -> Seq<char>
    decreases s.len(),
{
    if s.len() == 0 {
        Seq::empty()
    } else if is_separator(s.last()) {
        cleaned(s.drop_last())
    } else {
        cleaned(s.drop_last()).push(s.last())
    }
}

/// The digits of a hex text: no separators, and no `0x` in front.
pub open spec fn hex_digits(s: Seq<char>) -> Seq<char> {
    let t = cleaned(s);
    if text::occurs_at(t, "0x"@, 0) {
        t.skip(2)
    } else {
        t
    }
}

/// The value of a hex digit.
pub open spec fn hex_value(c: char) -> Option<u8> {
    if '0' <= c <= '9' {
        Some((c as u8 - 0x30) as u8)
    } else if 'a' <= c <= 'f' {
        Some((c as u8 - 0x61 + 10) as u8)
    } else if 'A' <= c <= 'F' {
        Some((c as u8 - 0x41 + 10) as u8)
    } else {
        None
    }
}

/// The byte that two characters stand for: two hex digits, or a plus sign and
/// one.
pub open spec fn pair_value(hi: char, lo: char) -> Option<u8> {
    match (hex_value(hi), hex_value(lo)) {
        (Some(h), Some(l)) => Some((h * 16 + l) as u8),
        (None, Some(l)) if hi == '+' => Some(l),
        _ => None,
    }
}

/// An ascii character, one byte long in UTF-8.
pub open spec fn is_ascii_char(c: char) -> bool {
    c <= '\u{7f}'
}

/// Whether digits can be cut into pieces of two bytes without cutting a
/// character in half, up to the first piece that is no byte.
pub open spec fn pairs_align(t: Seq<char>) -> bool
    decreases t.len(),
{
    if t.len() == 0 {
        true
    } else if is_ascii_char(t[0]) {
        &&& t.len() >= 2
        &&& is_ascii_char(t[1])
        &&& pair_value(t[0], t[1]) is Some ==> pairs_align(t.skip(2))
    } else {
        t[0] <= '\u{7ff}'
    }
}

/// Why a hex text cannot be read.
pub enum HexFault {
    /// an odd number of digits
    Odd,
    /// the piece of two bytes that is no hex byte
    BadByte(Seq<char>),
}

/// The bytes that pairs of digits stand for, or the first pair that stands for
/// none.
pub open spec fn hex_pairs(t: Seq<char>) -> Result<Seq<u8>, Seq<char>>
    decreases t.len(),
{
    if t.len() == 0 {
        Ok(Seq::empty())
    } else if t.len() == 1 || !is_ascii_char(t[0]) {
        Err(t.take(1))
    } else {
        match pair_value(t[0], t[1]) {
            None => Err(t.take(2)),
            Some(v) => match hex_pairs(t.skip(2)) {
                Ok(rest) => Ok(seq![v] + rest),
                Err(pair) => Err(pair),
            },
        }
    }
}

/// Whether a text has an odd number of hex digits, counted in bytes.
pub open spec fn is_odd_hex(s: Seq<char>) -> bool {
    encode_utf8(hex_digits(s)).len() % 2 != 0
}

/// Whether a hex text can be cut into pieces of two bytes where that is tried.
pub open spec fn hex_aligns(s: Seq<char>) -> bool {
    is_odd_hex(s) || pairs_align(hex_digits(s))
}

/// The bytes that a hex text stands for.
pub open spec fn hex_of(s: Seq<char>) -> Result<Seq<u8>, HexFault> {
    if is_odd_hex(s) {
        Err(HexFault::Odd)
    } else {
        match hex_pairs(hex_digits(s)) {
            Ok(bytes) => Ok(bytes),
            Err(pair) => Err(HexFault::BadByte(pair)),
        }
    }
}

/// Why a hex text cannot be read.
#[derive(Debug)]
pub enum HexError {
    Odd,
    BadByte(String),
}

impl View for HexError {
    type V = HexFault;

    open spec fn view(&self) -> HexFault {
        match self {
            HexError::Odd => HexFault::Odd,
            HexError::BadByte(pair) => HexFault::BadByte(pair@),
        }
    }
}

fn separates(c: char) -> (b: bool)
    ensures
        b == is_separator(c),
{
    c == ' ' || c == '\t' || c == '\n' || c == '\u{c}' || c == '\r' || c == ':' || c == '-' || c
        == ','
}

fn clean_chars(s: &str) -> (out: Vec<char>)
    ensures
        out@ == hex_digits(s@),
{
    let chars = chars_of(s);
    let mut out: Vec<char> = Vec::new();
    let mut i: usize = 0;
    while i < chars.len()
        invariant
            i <= chars.len(),
            out@ == cleaned(chars@.take(i as int)),
        decreases chars.len() - i,
    {
        assert(chars@.take(i + 1).drop_last() =~= chars@.take(i as int));
        if !separates(chars[i]) {
            out.push(chars[i]);
        }
        i += 1;
    }
    assert(chars@.take(i as int) =~= chars@);
    let lead = chars_of("0x");
    proof {
        reveal_strlit("0x");
    }
    if chars_at(out.as_slice(), lead.as_slice(), 0) {
        let ghost t = out@;
        let mut rest: Vec<char> = Vec::new();
        let mut k: usize = 2;
        while k < out.len()
            invariant
                2 <= k <= out.len(),
                rest@ == out@.subrange(2, k as int),
            decreases out.len() - k,
        {
            rest.push(out[k]);
            k += 1;
            assert(rest@ =~= out@.subrange(2, k as int));
        }
        assert(rest@ =~= t.skip(2));
        rest
    } else {
        out
    }
}

/// The value of a hex digit.
pub fn hex_digit(c: char) -> (v: Option<u8>)
    ensures
        v == hex_value(c),
        v matches Some(d) ==> d < 16,
{
    if '0' <= c && c <= '9' {
        Some(c as u8 - 0x30)
    } else if 'a' <= c && c <= 'f' {
        Some(c as u8 - 0x61 + 10)
    } else if 'A' <= c && c <= 'F' {
        Some(c as u8 - 0x41 + 10)
    } else {
        None
    }
}

/// The byte that two characters stand for.
pub fn hex_pair(hi: char, lo: char) -> (v: Option<u8>)
    ensures
        v == pair_value(hi, lo),
{
    match (hex_digit(hi), hex_digit(lo)) {
        (Some(h), Some(l)) => Some(h * 16 + l),
        (None, Some(l)) => if hi == '+' {
            Some(l)
        } else {
            None
        },
        _ => None,
    }
}

fn is_odd(t: &Vec<char>) -> (b: bool)
    ensures
        b == (encode_utf8(t@).len() % 2 != 0),
{
    text_of(t.as_slice()).as_str().as_bytes().len() % 2 != 0
}

/// Whether a hex text can be cut into pieces of two bytes where that is tried.
pub fn aligned_hex(s: &str) -> (b: bool)
    ensures
        b == hex_aligns(s@),
{
    let t = clean_chars(s);
    if is_odd(&t) {
        return true;
    }
    let mut i: usize = 0;
    assert(t@.skip(0) =~= t@);
    while i < t.len()
        invariant
            i <= t.len(),
            pairs_align(t@) == pairs_align(t@.skip(i as int)),
            hex_aligns(s@) == pairs_align(t@),
        decreases t.len() - i,
    {
        if t[i] > '\u{7f}' {
            return t[i] <= '\u{7ff}';
        }
        if t.len() - i < 2 || t[i + 1] > '\u{7f}' {
            return false;
        }
        if hex_pair(t[i], t[i + 1]).is_none() {
            return true;
        }
        assert(t@.skip(i as int).skip(2) =~= t@.skip(i + 2));
        i += 2;
    }
    true
}

/// Reads hex bytes; white space and separators are ignored, and so is a `0x` in
/// front.
pub fn parse_hex(s: &str) -> (bytes: Result<Vec<u8>, HexError>)
    requires
        hex_aligns(s@),
    ensures
        match bytes {
            Ok(b) => hex_of(s@) == Ok::<Seq<u8>, HexFault>(b@),
            Err(e) => hex_of(s@) == Err::<Seq<u8>, HexFault>(e@),
        },
{
    let t = clean_chars(s);
    if is_odd(&t) {
        return Err(HexError::Odd);
    }
    let mut out: Vec<u8> = Vec::new();
    let mut i: usize = 0;
    assert(t@.skip(0) =~= t@);
    assert(hex_pairs(t@) matches Ok(rest) ==> out@ + rest =~= rest);
    while i < t.len()
        invariant
            i <= t.len(),
            t@ == hex_digits(s@),
            !is_odd_hex(s@),
            pairs_align(t@.skip(i as int)),
            hex_pairs(t@) == (match hex_pairs(t@.skip(i as int)) {
                Ok(rest) => Ok::<Seq<u8>, Seq<char>>(out@ + rest),
                Err(pair) => Err(pair),
            }),
        decreases t.len() - i,
    {
        let ghost left = t@.skip(i as int);
        if t[i] > '\u{7f}' {
            let pair = text_of(vstd::slice::slice_subrange(t.as_slice(), i, i + 1));
            assert(pair@ =~= left.take(1));
            return Err(HexError::BadByte(pair));
        }
        match hex_pair(t[i], t[i + 1]) {
            None => {
                let pair = text_of(vstd::slice::slice_subrange(t.as_slice(), i, i + 2));
                assert(pair@ =~= left.take(2));
                return Err(HexError::BadByte(pair));
            },
            Some(v) => {
                let ghost before = out@;
                out.push(v);
                proof {
                    assert(left.skip(2) =~= t@.skip(i + 2));
                    assert(hex_pairs(left.skip(2)) matches Ok(rest) ==> before + (seq![v] + rest)
                        =~= out@ + rest);
                }
            },
        }
        i += 2;
    }
    assert(t@.skip(i as int).len() == 0);
    assert(out@ + Seq::<u8>::empty() =~= out@);
    Ok(out)
}

} // verus!
