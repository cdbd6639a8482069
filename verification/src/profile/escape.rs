//! Bytes written as text with escapes.
use super::hex;
use super::hex::hex_pair;
use crate::bytes::push_bytes;
use crate::text::chars_of;
use vstd::prelude::*;
use vstd::utf8::*;

verus! {

/// Why an escaped text cannot be read.
#[derive(Clone, Copy, Debug)]
pub enum EscapeFault {
    /// a hex escape that ends too early
    Truncated,
    /// a hex escape whose two characters are no byte
    BadHex(char, char),
    /// an escape that is not known
    Unknown(char),
    /// a backslash at the very end
    Trailing,
}

/// The byte that a one-character escape stands for.
pub open spec fn escape_value(c: char) -> Option<u8> {
    if c == 'n' {
        Some(10)
    } else if c == 'r' {
        Some(13)
    } else if c == 't' {
        Some(9)
    } else if c == '0' {
        Some(0)
    } else if c == '\\' {
        Some(0x5c)
    } else if c == '"' {
        Some(0x22)
    } else {
        None
    }
}

/// Bytes in front of bytes that may not be there.
pub open spec fn in_front<E>(front: Seq<u8>, rest: Result<Seq<u8>, E>) -> Result<Seq<u8>, E> {
    match rest {
        Ok(bytes) => Ok(front + bytes),
        Err(e) => Err(e),
    }
}

/// The bytes that an escaped text stands for; characters that are not escaped
/// stand for their UTF-8 encoding.
pub open spec fn unescape_of(s: Seq<char>) -> Result<Seq<u8>, EscapeFault>
    decreases s.len(),
{
    if s.len() == 0 {
        Ok(Seq::empty())
    } else if s[0] != '\\' {
        in_front(encode_scalar(s[0] as u32), unescape_of(s.skip(1)))
    } else if s.len() == 1 {
        Err(EscapeFault::Trailing)
    } else if s[1] == 'x' {
        if s.len() < 4 {
            Err(EscapeFault::Truncated)
        } else {
            match hex::pair_value(s[2], s[3]) {
                Some(v) => in_front(seq![v], unescape_of(s.skip(4))),
                None => Err(EscapeFault::BadHex(s[2], s[3])),
            }
        }
    } else {
        match escape_value(s[1]) {
            Some(v) => in_front(seq![v], unescape_of(s.skip(2))),
            None => Err(EscapeFault::Unknown(s[1])),
        }
    }
}

fn push_utf8(out: &mut Vec<u8>, c: char)
    ensures
        final(out)@ == old(out)@ + encode_scalar(c as u32),
{
    let mut one = String::new();
    one.push(c);
    assert(one@ =~= seq![c]);
    assert(one@.drop_first() =~= Seq::<char>::empty());
    assert(encode_utf8(one@.drop_first()) =~= Seq::<u8>::empty());
    assert(encode_utf8(one@) =~= encode_scalar(c as u32));
    push_bytes(out, one.as_str().as_bytes());
}

fn escape_byte(c: char) -> (v: Option<u8>)
    ensures
        v == escape_value(c),
{
    if c == 'n' {
        Some(10)
    } else if c == 'r' {
        Some(13)
    } else if c == 't' {
        Some(9)
    } else if c == '0' {
        Some(0)
    } else if c == '\\' {
        Some(0x5c)
    } else if c == '"' {
        Some(0x22)
    } else {
        None
    }
}

/// Reads a text with the escapes \n \r \t \0 \\ \" and \xNN.
pub fn unescape(s: &str) -> (bytes: Result<Vec<u8>, EscapeFault>)
    ensures
        match bytes {
            Ok(b) => unescape_of(s@) == Ok::<Seq<u8>, EscapeFault>(b@),
            Err(e) => unescape_of(s@) == Err::<Seq<u8>, EscapeFault>(e),
        },
{
    let t = chars_of(s);
    let mut out: Vec<u8> = Vec::new();
    let mut i: usize = 0;
    assert(t@.skip(0) =~= t@);
    assert(unescape_of(t@) matches Ok(rest) ==> out@ + rest =~= rest);
    while i < t.len()
        invariant
            i <= t.len(),
            t@ == s@,
            unescape_of(s@) == in_front(out@, unescape_of(t@.skip(i as int))),
        decreases t.len() - i,
    {
        let ghost left = t@.skip(i as int);
        let ghost before = out@;
        let c = t[i];
        if c != '\\' {
            push_utf8(&mut out, c);
            proof {
                assert(left.skip(1) =~= t@.skip(i + 1));
                let rest = unescape_of(left.skip(1));
                assert(rest matches Ok(r) ==> before + (encode_scalar(c as u32) + r) =~= out@ + r);
            }
            i += 1;
            continue ;
        }
        if t.len() - i == 1 {
            return Err(EscapeFault::Trailing);
        }
        let e = t[i + 1];
        if e == 'x' {
            if t.len() - i < 4 {
                return Err(EscapeFault::Truncated);
            }
            match hex_pair(t[i + 2], t[i + 3]) {
                None => {
                    return Err(EscapeFault::BadHex(t[i + 2], t[i + 3]));
                },
                Some(v) => {
                    out.push(v);
                    proof {
                        assert(left.skip(4) =~= t@.skip(i + 4));
                        let rest = unescape_of(left.skip(4));
                        assert(rest matches Ok(r) ==> before + (seq![v] + r) =~= out@ + r);
                    }
                    i += 4;
                },
            }
        } else {
            match escape_byte(e) {
                None => {
                    return Err(EscapeFault::Unknown(e));
                },
                Some(v) => {
                    out.push(v);
                    proof {
                        assert(left.skip(2) =~= t@.skip(i + 2));
                        let rest = unescape_of(left.skip(2));
                        assert(rest matches Ok(r) ==> before + (seq![v] + r) =~= out@ + r);
                    }
                    i += 2;
                },
            }
        }
    }
    assert(t@.skip(i as int).len() == 0);
    assert(out@ + Seq::<u8>::empty() =~= out@);
    Ok(out)
}

} // verus!
