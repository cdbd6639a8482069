//! Payloads as base64.
use base64::Engine as _;
use base64::engine::general_purpose::STANDARD;
use vstd::prelude::*;

verus! {

/// The character of a number below 64 in the standard alphabet.
pub open spec fn base64_char(v: int) -> char {
    if v < 26 {
        ('A' as int + v) as char
    } else if v < 52 {
        ('a' as int + v - 26) as char
    } else if v < 62 {
        ('0' as int + v - 52) as char
    } else if v == 62 {
        '+'
    } else {
        '/'
    }
}

/// Bytes in base64: four characters for three bytes, six bits in each, and equals
/// signs where the last group is short.
pub open spec fn base64_of(data: Seq<u8>) -> Seq<char>
    decreases data.len(),
{
    if data.len() == 0 {
        Seq::empty()
    } else {
        let a = data[0] as int;
        let b = if data.len() > 1 {
            data[1] as int
        } else {
            0
        };
        let c = if data.len() > 2 {
            data[2] as int
        } else {
            0
        };
        let group = seq![
            base64_char(a / 4),
            base64_char(a % 4 * 16 + b / 16),
            if data.len() > 1 {
                base64_char(b % 16 * 4 + c / 64)
            } else {
                '='
            },
            if data.len() > 2 {
                base64_char(c % 64)
            } else {
                '='
            },
        ];
        if data.len() > 3 {
            group + base64_of(data.skip(3))
        } else {
            group
        }
    }
}

/// `base64`'s `Engine::encode` of the `STANDARD` engine: the standard alphabet,
/// padded. It cannot make a text longer than a vector can be.
#[verifier::external_body]
pub(crate) fn encode(data: &[u8]) -> (out: String)
    requires
        (data@.len() + 2) / 3 * 4 <= isize::MAX,
    ensures
        out@ == base64_of(data@),
{
    STANDARD.encode(data)
}

/// How long the text of a payload is, where a vector can be that long.
pub fn base64_len(len: usize) -> (n: Option<usize>)
    ensures
        match n {
            Some(n) => n == (len + 2) / 3 * 4 && n <= isize::MAX,
            None => (len + 2) / 3 * 4 > isize::MAX,
        },
{
    let groups: usize = if len % 3 == 0 {
        len / 3
    } else {
        len / 3 + 1
    };
    match groups.checked_mul(4) {
        Some(n) => if n <= isize::MAX as usize {
            Some(n)
        } else {
            None
        },
        None => None,
    }
}

proof fn base64_chars_differ(v: int, w: int)
    requires
        0 <= v < 64,
        0 <= w < 64,
        base64_char(v) == base64_char(w),
    ensures
        v == w,
        base64_char(v) != '=',
{
}

/// No two payloads have the same base64 text, so a payload can be recovered from
/// its text.
pub proof fn base64_loses_nothing(x: Seq<u8>, y: Seq<u8>)
    requires
        base64_of(x) == base64_of(y),
    ensures
        x == y,
    decreases x.len(),
{
    let s = base64_of(x);
    let t = base64_of(y);
    if x.len() == 0 || y.len() == 0 {
        assert(x.len() == 0 <==> s.len() == 0);
        assert(y.len() == 0 <==> t.len() == 0);
        assert(x =~= y);
    } else {
        let a = x[0] as int;
        let b = if x.len() > 1 {
            x[1] as int
        } else {
            0
        };
        let c = if x.len() > 2 {
            x[2] as int
        } else {
            0
        };
        let d = y[0] as int;
        let e = if y.len() > 1 {
            y[1] as int
        } else {
            0
        };
        let f = if y.len() > 2 {
            y[2] as int
        } else {
            0
        };
        assert(s[0] == base64_char(a / 4) && s[1] == base64_char(a % 4 * 16 + b / 16));
        assert(t[0] == base64_char(d / 4) && t[1] == base64_char(d % 4 * 16 + e / 16));
        base64_chars_differ(a / 4, d / 4);
        base64_chars_differ(a % 4 * 16 + b / 16, d % 4 * 16 + e / 16);
        base64_chars_differ(b % 16 * 4 + c / 64, b % 16 * 4 + c / 64);
        base64_chars_differ(e % 16 * 4 + f / 64, e % 16 * 4 + f / 64);
        base64_chars_differ(c % 64, c % 64);
        base64_chars_differ(f % 64, f % 64);
        assert(s[2] == t[2] && s[3] == t[3]);
        assert(x.len() > 1 <==> s[2] != '=');
        assert(y.len() > 1 <==> t[2] != '=');
        assert(x.len() > 2 <==> s[3] != '=');
        assert(y.len() > 2 <==> t[3] != '=');
        if x.len() > 1 {
            base64_chars_differ(b % 16 * 4 + c / 64, e % 16 * 4 + f / 64);
        }
        if x.len() > 2 {
            base64_chars_differ(c % 64, f % 64);
        }
        assert(a == d && b == e && c == f);
        assert(s.len() > 4 <==> x.len() > 3) by {
            assert(x.len() > 3 ==> base64_of(x.skip(3)).len() > 0);
        }
        assert(t.len() > 4 <==> y.len() > 3) by {
            assert(y.len() > 3 ==> base64_of(y.skip(3)).len() > 0);
        }
        if x.len() > 3 {
            assert(s.skip(4) =~= base64_of(x.skip(3)));
            assert(t.skip(4) =~= base64_of(y.skip(3)));
            base64_loses_nothing(x.skip(3), y.skip(3));
            assert(x =~= x.take(3) + x.skip(3));
            assert(y =~= y.take(3) + y.skip(3));
            assert(x.take(3) =~= y.take(3));
        } else {
            assert(x =~= y);
        }
    }
}

} // verus!
