//! What a profile means, in terms of the messages that it is held against and the
//! bytes that it sends.
use super::compile;
use super::compile::{Contents, LoadError, RespondFault};
use super::escape;
use super::escape::EscapeFault;
use super::hex;
use super::hex::HexFault;
use super::laws;
use super::{
    load, parse_hex, resolve, unescape, Action, ActionModel, Compiled, HexError, Match, Place, Profile,
    Respond,
};
use crate::bytes;
use crate::text;
use vstd::prelude::*;
use vstd::utf8::*;

verus! {

// ------------------------------------------------------------- matching

/// Whether two bytes are the same, up to ascii case where it is ignored.
pub open spec fn alike_byte(a: u8, b: u8, ignore_case: bool) -> bool {
    a == b || ignore_case && (0x41 <= a <= 0x5a && b == a + 32 || 0x41 <= b <= 0x5a && a == b + 32)
}

/// Whether two runs of bytes are the same, up to ascii case where it is ignored.
pub open spec fn alike(a: Seq<u8>, b: Seq<u8>, ignore_case: bool) -> bool {
    a.len() == b.len() && forall|i: int|
        0 <= i < a.len() ==> alike_byte(#[trigger] a[i], b[i], ignore_case)
}

/// Whether a message is something, then the needle, then something.
pub open spec fn holds_somewhere(data: Seq<u8>, needle: Seq<u8>, ignore_case: bool) -> bool {
    exists|a: Seq<u8>, t: Seq<u8>, b: Seq<u8>|
        data == #[trigger] (a + t + b) && alike(t, needle, ignore_case)
}

/// Whether a message is the needle, then something.
pub open spec fn begins_with(data: Seq<u8>, needle: Seq<u8>, ignore_case: bool) -> bool {
    exists|t: Seq<u8>, b: Seq<u8>| data == #[trigger] (t + b) && alike(t, needle, ignore_case)
}

/// Whether a message is something, then the needle.
pub open spec fn ends_with(data: Seq<u8>, needle: Seq<u8>, ignore_case: bool) -> bool {
    exists|a: Seq<u8>, t: Seq<u8>| data == #[trigger] (a + t) && alike(t, needle, ignore_case)
}

/// What a matcher asks of a message: every condition that it has, and no other.
pub open spec fn fulfils(m: Match, data: Seq<u8>, first: bool) -> bool {
    &&& m.any != Some(false)
    &&& m.first_only == Some(true) ==> first
    &&& m.len matches Some(n) ==> data.len() == n
    &&& m.min_len matches Some(n) ==> n <= data.len()
    &&& m.max_len matches Some(n) ==> data.len() <= n
    &&& m.starts_with matches Some(s) ==> begins_with(data, encode_utf8(s@), m.ignore_case)
    &&& m.ends_with matches Some(s) ==> ends_with(data, encode_utf8(s@), m.ignore_case)
    &&& m.contains matches Some(s) ==> encode_utf8(s@).len() > 0 && holds_somewhere(
        data,
        encode_utf8(s@),
        m.ignore_case,
    )
    &&& m.prefix_hex matches Some(h) ==> hex::hex_of(h@) matches Ok(needle) && begins_with(
        data,
        needle,
        false,
    )
    &&& m.contains_hex matches Some(h) ==> hex::hex_of(h@) matches Ok(needle) && needle.len() > 0
        && holds_somewhere(data, needle, false)
}

proof fn folding_is_alike(m: Match, a: Seq<u8>, b: Seq<u8>)
    ensures
        m.fold(a) == m.fold(b) <==> alike(a, b, m.ignore_case),
        m.fold(a).len() == a.len(),
{
    if m.ignore_case {
        let x = text::lower_bytes(a);
        let y = text::lower_bytes(b);
        if x == y {
            assert(x.len() == a.len() && y.len() == b.len());
            assert forall|i: int| 0 <= i < a.len() implies alike_byte(#[trigger] a[i], b[i], true) by {
                assert(x[i] == y[i]);
            }
        }
        if alike(a, b, true) {
            assert forall|i: int| 0 <= i < a.len() implies x[i] == y[i] by {
                assert(alike_byte(a[i], b[i], true));
            }
            assert(x =~= y);
        }
    } else {
        if alike(a, b, false) {
            assert forall|i: int| 0 <= i < a.len() implies a[i] == b[i] by {
                assert(alike_byte(a[i], b[i], false));
            }
            assert(a =~= b);
        }
    }
}

proof fn folding_keeps_places(m: Match, data: Seq<u8>, i: int, j: int)
    requires
        0 <= i <= j <= data.len(),
    ensures
        m.fold(data).subrange(i, j) == m.fold(data.subrange(i, j)),
{
    if m.ignore_case {
        assert(text::lower_bytes(data).subrange(i, j) =~= text::lower_bytes(data.subrange(i, j)));
    }
}

proof fn a_place_is_a_split(m: Match, data: Seq<u8>, needle: Seq<u8>, at: int)
    requires
        0 <= at,
        at + needle.len() <= data.len(),
    ensures
        text::occurs_at(m.fold(data), m.fold(needle), at) <==> alike(
            data.subrange(at, at + needle.len()),
            needle,
            m.ignore_case,
        ),
{
    let t = data.subrange(at, at + needle.len());
    folding_is_alike(m, data, data);
    folding_is_alike(m, needle, needle);
    folding_keeps_places(m, data, at, at + needle.len());
    folding_is_alike(m, t, needle);
}

proof fn fronts_are_fronts(m: Match, data: Seq<u8>, needle: Seq<u8>)
    ensures
        bytes::has_prefix(m.fold(data), m.fold(needle)) <==> begins_with(
            data,
            needle,
            m.ignore_case,
        ),
{
    let n = needle.len() as int;
    folding_is_alike(m, data, data);
    folding_is_alike(m, needle, needle);
    if n <= data.len() {
        a_place_is_a_split(m, data, needle, 0);
        if bytes::has_prefix(m.fold(data), m.fold(needle)) {
            assert(data =~= data.subrange(0, n) + data.skip(n));
        }
    }
    if begins_with(data, needle, m.ignore_case) {
        let (t, b) = choose|t: Seq<u8>, b: Seq<u8>|
            data == #[trigger] (t + b) && alike(t, needle, m.ignore_case);
        assert(data.subrange(0, n) =~= t);
    }
}

proof fn backs_are_backs(m: Match, data: Seq<u8>, needle: Seq<u8>)
    ensures
        bytes::has_suffix(m.fold(data), m.fold(needle)) <==> ends_with(data, needle, m.ignore_case),
{
    let n = needle.len() as int;
    let at = data.len() - n;
    folding_is_alike(m, data, data);
    folding_is_alike(m, needle, needle);
    if n <= data.len() {
        a_place_is_a_split(m, data, needle, at);
        if bytes::has_suffix(m.fold(data), m.fold(needle)) {
            assert(data =~= data.take(at) + data.subrange(at, at + n));
        }
    }
    if ends_with(data, needle, m.ignore_case) {
        let (a, t) = choose|a: Seq<u8>, t: Seq<u8>|
            data == #[trigger] (a + t) && alike(t, needle, m.ignore_case);
        assert(data.subrange(at, at + n) =~= t);
    }
}

proof fn places_are_places(m: Match, data: Seq<u8>, needle: Seq<u8>)
    ensures
        bytes::found_at(m.fold(data), m.fold(needle)) is Some <==> needle.len() > 0
            && holds_somewhere(data, needle, m.ignore_case),
{
    let n = needle.len() as int;
    let hay = m.fold(data);
    let want = m.fold(needle);
    folding_is_alike(m, data, data);
    folding_is_alike(m, needle, needle);
    text::search_finds_the_first(hay, want, 0);
    if bytes::found_at(hay, want) is Some {
        let at = bytes::found_at(hay, want)->0;
        a_place_is_a_split(m, data, needle, at);
        assert(data =~= data.take(at) + data.subrange(at, at + n) + data.skip(at + n));
    }
    if needle.len() > 0 && holds_somewhere(data, needle, m.ignore_case) {
        let (a, t, b) = choose|a: Seq<u8>, t: Seq<u8>, b: Seq<u8>|
            data == #[trigger] (a + t + b) && alike(t, needle, m.ignore_case);
        let at = a.len() as int;
        assert(data.subrange(at, at + n) =~= t);
        a_place_is_a_split(m, data, needle, at);
    }
}

/// A matcher holds for exactly the messages that fulfil what it asks: a text that
/// is to be contained may stand anywhere, behind any front, and one that is to begin
/// or to end the message stands there; hex bytes are compared as they are.
pub proof fn a_matcher_means_what_it_says(m: Match, data: Seq<u8>, first: bool)
    ensures
        m.holds(data, first) <==> fulfils(m, data, first),
{
    let exact = Match { ignore_case: false, ..m };
    if let Some(s) = m.starts_with {
        fronts_are_fronts(m, data, encode_utf8(s@));
    }
    if let Some(s) = m.ends_with {
        backs_are_backs(m, data, encode_utf8(s@));
    }
    if let Some(s) = m.contains {
        places_are_places(m, data, encode_utf8(s@));
    }
    if let Some(h) = m.prefix_hex {
        if let Ok(needle) = hex::hex_of(h@) {
            fronts_are_fronts(exact, data, needle);
        }
    }
    if let Some(h) = m.contains_hex {
        if let Ok(needle) = hex::hex_of(h@) {
            places_are_places(exact, data, needle);
        }
    }
}

/// A matcher whose only condition is that a text is contained holds for every
/// message that has the text behind any front and in front of any back.
pub proof fn a_text_is_found_behind_any_front(
    m: Match,
    s: String,
    a: Seq<u8>,
    b: Seq<u8>,
    first: bool,
)
    requires
        m.contains == Some(s),
        m == (Match {
            any: None,
            starts_with: None,
            contains: m.contains,
            ends_with: None,
            prefix_hex: None,
            contains_hex: None,
            min_len: None,
            max_len: None,
            len: None,
            first_only: None,
            ignore_case: m.ignore_case,
        }),
        encode_utf8(s@).len() > 0,
    ensures
        m.holds(a + encode_utf8(s@) + b, first),
{
    let t = encode_utf8(s@);
    let data = a + t + b;
    assert(alike(t, t, m.ignore_case));
    assert(holds_somewhere(data, t, m.ignore_case));
    a_matcher_means_what_it_says(m, data, first);
}

/// `matches` says of every message whether it fulfils what the matcher asks.
pub proof fn a_match_is_told(m: &Match, data: &[u8], first: bool, b: bool)
    requires
        call_ensures(Match::matches, (m, data, first), b),
    ensures
        b <==> fulfils(*m, data@, first),
{
    a_matcher_means_what_it_says(*m, data@, first);
}

/// `eval` answers with the first rule whose matcher the message fulfils, and with
/// none only where it fulfils none.
pub proof fn the_first_rule_answers(
    c: &Compiled,
    data: &[u8],
    first: bool,
    hit: Option<(&str, &Action)>,
)
    requires
        call_ensures(Compiled::eval, (c, data, first), hit),
    ensures
        match hit {
            Some((name, action)) => exists|i: int|
                0 <= i < c.rules@.len() && name@ == (#[trigger] c.rules@[i]).name@ && *action
                    == c.rules@[i].action && fulfils(c.rules@[i].matcher, data@, first)
                    && forall|j: int|
                    0 <= j < i ==> !fulfils((#[trigger] c.rules@[j]).matcher, data@, first),
            None => forall|j: int|
                0 <= j < c.rules@.len() ==> !fulfils(
                    (#[trigger] c.rules@[j]).matcher,
                    data@,
                    first,
                ),
        },
{
    laws::the_first_match_wins(*c, data@, first);
    assert forall|j: int| 0 <= j < c.rules@.len() implies fulfils(
        (#[trigger] c.rules@[j]).matcher,
        data@,
        first,
    ) == c.rules@[j].matcher.holds(data@, first) by {
        a_matcher_means_what_it_says(c.rules@[j].matcher, data@, first);
    }
    if let Some(i) = c.rule_for(data@, first) {
        assert(fulfils(c.rules@[i].matcher, data@, first));
    }
}

/// A matcher without hex fields can be asked about any message, and so can one
/// whose hex fields are bytes written as hex digits.
pub proof fn hex_bytes_can_be_asked_for(
    m: Match,
    front: Seq<u8>,
    part: Seq<u8>,
    data: Seq<u8>,
    first: bool,
)
    requires
        m.prefix_hex matches Some(h) ==> h@ == laws::in_hex(front),
        m.contains_hex matches Some(h) ==> h@ == laws::in_hex(part),
    ensures
        m.ready(data, first),
        m.prefix_hex is Some && m.holds(data, first) ==> begins_with(data, front, false),
        m.contains_hex is Some && m.holds(data, first) ==> holds_somewhere(data, part, false),
{
    laws::hex_reads_back(front);
    laws::hex_reads_back(part);
    a_matcher_means_what_it_says(m, data, first);
}

// ------------------------------------------------------------- escapes

/// A byte as it is escaped: the short escapes for those that have one.
pub open spec fn short_escape(b: u8) -> Seq<char> {
    if b == 10 {
        "\\n"@
    } else if b == 13 {
        "\\r"@
    } else if b == 9 {
        "\\t"@
    } else if b == 0 {
        "\\0"@
    } else if b == 0x5c {
        "\\\\"@
    } else if b == 0x22 {
        "\\\""@
    } else {
        "\\x"@ + seq!["0123456789abcdef"@[b as int / 16], "0123456789abcdef"@[b as int % 16]]
    }
}

/// Bytes, all of them escaped.
pub open spec fn short_escapes(b: Seq<u8>) -> Seq<char>
    decreases b.len(),
{
    if b.len() == 0 {
        Seq::empty()
    } else {
        short_escape(b[0]) + short_escapes(b.skip(1))
    }
}

#[verifier::rlimit(50)]
proof fn an_escape_reads_back(b: u8, rest: Seq<char>)
    ensures
        escape::unescape_of(short_escape(b) + rest) == escape::in_front(
            seq![b],
            escape::unescape_of(rest),
        ),
{
    reveal_strlit("\\n");
    reveal_strlit("\\r");
    reveal_strlit("\\t");
    reveal_strlit("\\0");
    reveal_strlit("\\\\");
    reveal_strlit("\\\"");
    reveal_strlit("\\x");
    let e = short_escape(b);
    let s = e + rest;
    if b == 10 || b == 13 || b == 9 || b == 0 || b == 0x5c || b == 0x22 {
        assert(e.len() == 2);
        assert(s.skip(2) =~= rest);
        assert(s[0] == e[0] && s[1] == e[1]);
    } else {
        text::numerals_are_positional(0, (b / 16) as nat);
        text::numerals_are_positional(0, (b % 16) as nat);
        let hi = "0123456789abcdef"@[b as int / 16];
        let lo = "0123456789abcdef"@[b as int % 16];
        assert(text::hexadecimal((b / 16) as nat)[0] == hi);
        assert(text::hexadecimal((b % 16) as nat)[0] == lo);
        assert(text::digit((b / 16) as nat) == hi && text::digit((b % 16) as nat) == lo);
        assert(e.len() == 4);
        assert(s.skip(4) =~= rest);
        assert(s[0] == '\\' && s[1] == 'x' && s[2] == hi && s[3] == lo);
        assert(hex::hex_value(hi) == Some((b / 16) as u8));
        assert(hex::hex_value(lo) == Some((b % 16) as u8));
        assert((b / 16) * 16 + b % 16 == b);
    }
}

/// Any bytes can be written with escapes and are read back: a newline as `\n`, and
/// so on, and each other byte by two hex digits.
pub proof fn escapes_read_back(b: Seq<u8>)
    ensures
        escape::unescape_of(short_escapes(b)) == Ok::<Seq<u8>, EscapeFault>(b),
    decreases b.len(),
{
    if b.len() > 0 {
        an_escape_reads_back(b[0], short_escapes(b.skip(1)));
        escapes_read_back(b.skip(1));
        assert(seq![b[0]] + b.skip(1) =~= b);
    } else {
        assert(b =~= Seq::empty());
    }
}

/// Text and escapes can be mixed: plain text in front of an escaped text stands for
/// its own bytes in front of what that stands for.
pub proof fn text_and_escapes_mix(plain: Seq<char>, rest: Seq<char>)
    requires
        forall|i: int| 0 <= i < plain.len() ==> #[trigger] plain[i] != '\\',
    ensures
        escape::unescape_of(plain + rest) == match escape::unescape_of(rest) {
            Ok(b) => Ok::<Seq<u8>, EscapeFault>(encode_utf8(plain) + b),
            Err(fault) => Err(fault),
        },
    decreases plain.len(),
{
    let s = plain + rest;
    if plain.len() > 0 {
        let more = plain.drop_first();
        assert(s[0] == plain[0]);
        assert(s.skip(1) =~= more + rest);
        assert forall|i: int| 0 <= i < more.len() implies #[trigger] more[i] != '\\' by {
            assert(more[i] == plain[i + 1]);
        }
        text_and_escapes_mix(more, rest);
        if let Ok(b) = escape::unescape_of(rest) {
            assert(encode_scalar(plain[0] as u32) + (encode_utf8(more) + b) =~= encode_utf8(plain)
                + b);
        }
    } else {
        assert(s =~= rest);
        if let Ok(b) = escape::unescape_of(rest) {
            assert(encode_utf8(plain) + b =~= b);
        }
    }
}

/// What is no escape is refused, and why: a backslash at the very end, one in front
/// of a character that makes no escape, and one in front of an `x` without two hex
/// digits behind it.
pub proof fn other_escapes_are_refused(c: char, d: char, rest: Seq<char>)
    ensures
        escape::unescape_of(seq!['\\']) == Err::<Seq<u8>, EscapeFault>(EscapeFault::Trailing),
        c != 'n' && c != 'r' && c != 't' && c != '0' && c != '\\' && c != '"' && c != 'x'
            ==> escape::unescape_of(seq!['\\', c] + rest) == Err::<Seq<u8>, EscapeFault>(
            EscapeFault::Unknown(c),
        ),
        rest.len() < 2 ==> escape::unescape_of(seq!['\\', 'x'] + rest) == Err::<Seq<u8>, EscapeFault>(
            EscapeFault::Truncated,
        ),
        hex::hex_value(d) is None ==> escape::unescape_of(seq!['\\', 'x', c, d] + rest) == Err::<
            Seq<u8>,
            EscapeFault,
        >(EscapeFault::BadHex(c, d)),
{
    let s = seq!['\\', c] + rest;
    assert(s[0] == '\\' && s[1] == c);
    let x = seq!['\\', 'x'] + rest;
    assert(x[0] == '\\' && x[1] == 'x');
    let y = seq!['\\', 'x', c, d] + rest;
    assert(y[0] == '\\' && y[1] == 'x' && y[2] == c && y[3] == d);
}

// ------------------------------------------------------------- hex

/// The hex digit of a character in capital letters is that of the small ones.
pub open spec fn capital(c: char) -> char {
    if 'a' <= c <= 'f' {
        (c as u8 - 32) as char
    } else {
        c
    }
}

/// Hex digits have their usual values, in small letters and in capitals.
pub proof fn hex_digits_have_their_values(c: char)
    ensures
        '0' <= c <= '9' ==> hex::hex_value(c) == Some((c as int - '0' as int) as u8),
        'a' <= c <= 'f' ==> hex::hex_value(c) == Some((c as int - 'a' as int + 10) as u8)
            && hex::hex_value(capital(c)) == hex::hex_value(c),
        hex::hex_value(c) is Some ==> '0' <= c <= '9' || 'a' <= c <= 'f' || 'A' <= c <= 'F',
{
}

proof fn digits_are_kept(s: Seq<char>)
    requires
        forall|i: int| 0 <= i < s.len() ==> !hex::is_separator(#[trigger] s[i]),
    ensures
        hex::cleaned(s) == s,
    decreases s.len(),
{
    if s.len() > 0 {
        assert(!hex::is_separator(s[s.len() - 1]));
        assert forall|i: int| 0 <= i < s.drop_last().len() implies !hex::is_separator(
            #[trigger] s.drop_last()[i],
        ) by {
            assert(!hex::is_separator(s[i]));
        }
        digits_are_kept(s.drop_last());
        assert(s.drop_last().push(s.last()) =~= s);
    } else {
        assert(s =~= Seq::empty());
    }
}

/// The separators between hex digits are ascii white space, colons, hyphens and
/// commas.
pub proof fn separators_are_few(c: char)
    ensures
        hex::is_separator(c) <==> c == ' ' || c == '\t' || c == '\n' || c == '\u{c}' || c == '\r'
            || c == ':' || c == '-' || c == ',',
{
}

proof fn hex_text_is_plain(b: Seq<u8>)
    ensures
        laws::in_hex(b).len() == 2 * b.len(),
        forall|i: int|
            0 <= i < laws::in_hex(b).len() ==> hex::hex_value(#[trigger] laws::in_hex(b)[i]) is Some,
    decreases b.len(),
{
    if b.len() > 0 {
        let s = laws::in_hex(b);
        let d = laws::two_digits(b[0]);
        hex_text_is_plain(b.skip(1));
        let h = (b[0] / 16) as nat;
        let l = (b[0] % 16) as nat;
        assert(h < 16 && l < 16);
        assert(hex::hex_value(text::digit(h)) == Some(h as u8));
        assert(hex::hex_value(text::digit(l)) == Some(l as u8));
        assert forall|i: int| 0 <= i < s.len() implies hex::hex_value(#[trigger] s[i]) is Some by {
            if i < 2 {
                assert(s[i] == d[i]);
            } else {
                assert(s[i] == laws::in_hex(b.skip(1))[i - 2]);
            }
        }
    }
}

/// A `0x` in front of hex digits makes no difference, and a digit too many is
/// refused.
#[verifier::rlimit(50)]
pub proof fn a_prefix_is_ignored_and_an_odd_digit_refused(b: Seq<u8>)
    ensures
        hex::hex_of("0x"@ + laws::in_hex(b)) == Ok::<Seq<u8>, HexFault>(b),
        hex::hex_of(laws::in_hex(b).push('0')) == Err::<Seq<u8>, HexFault>(HexFault::Odd),
{
    let s = laws::in_hex(b);
    laws::hex_reads_back(b);
    hex_text_is_plain(b);
    reveal_strlit("0x");
    let t = "0x"@ + s;
    assert forall|i: int| 0 <= i < t.len() implies !hex::is_separator(#[trigger] t[i]) by {
        if i >= 2 {
            assert(hex::hex_value(s[i - 2]) is Some);
            assert(t[i] == s[i - 2]);
        }
    }
    digits_are_kept(t);
    assert forall|i: int| 0 <= i < s.len() implies !hex::is_separator(#[trigger] s[i]) by {
        assert(hex::hex_value(s[i]) is Some);
    }
    digits_are_kept(s);
    assert(t.subrange(0, 2) =~= "0x"@);
    assert(t.skip(2) =~= s);
    assert(hex::hex_digits(s) == s) by {
        if text::occurs_at(s, "0x"@, 0) {
            assert(s.subrange(0, 2)[1] == s[1]);
            assert(hex::hex_value(s[1]) is Some);
        }
    }
    let o = s.push('0');
    assert forall|i: int| 0 <= i < o.len() implies !hex::is_separator(#[trigger] o[i]) by {
        if i < s.len() {
            assert(hex::hex_value(s[i]) is Some);
        }
    }
    digits_are_kept(o);
    assert(hex::hex_digits(o) == o) by {
        if text::occurs_at(o, "0x"@, 0) {
            assert(o.subrange(0, 2)[1] == o[1]);
            if s.len() > 1 {
                assert(o[1] == s[1]);
                assert(hex::hex_value(s[1]) is Some);
            }
        }
    }
    assert(is_ascii_chars(o)) by {
        assert forall|i: int| 0 <= i < o.len() implies (#[trigger] o[i]) as nat <= 127 by {
            if i < s.len() {
                assert(hex::hex_value(s[i]) is Some);
            }
        }
    }
    is_ascii_chars_encode_utf8(o);
}

// ------------------------------------------------------------- responses

/// A payload is its body over and over: the byte at any place is that of the body at
/// the same place of its turn.
pub proof fn a_payload_is_its_body_over_and_over(s: Seq<u8>, n: nat, i: int)
    requires
        0 <= i < compile::repeated(s, n).len(),
    ensures
        compile::repeated(s, n).len() == s.len() * n,
        s.len() > 0,
        compile::repeated(s, n)[i] == s[i % s.len() as int],
    decreases n,
{
    laws::repeating_multiplies(s, n);
    if n > 0 {
        let m = (n - 1) as nat;
        let before = compile::repeated(s, m);
        laws::repeating_multiplies(s, m);
        if i < before.len() {
            a_payload_is_its_body_over_and_over(s, m, i);
        } else {
            let k = s.len() as int;
            let j = i - before.len();
            assert(0 <= j < k);
            assert(before.len() == k * m);
            vstd::arithmetic::div_mod::lemma_mod_multiples_vanish(m as int, j, k);
            assert(k * m + j == i);
            vstd::arithmetic::div_mod::lemma_small_mod(j as nat, k as nat);
        }
    }
}

/// A response is flattened into its text, its hex bytes and its file, in that order
/// and as often as it says, once if it does not say; and everything else that it
/// says is kept.
pub proof fn a_response_is_flattened(r: Respond, t: Seq<u8>, h: Seq<u8>, f: Seq<u8>)
    requires
        match r.text {
            Some(s) => s@ == short_escapes(t),
            None => t.len() == 0,
        },
        match r.hex {
            Some(s) => s@ == laws::in_hex(h),
            None => h.len() == 0,
        },
        r.file is None ==> f.len() == 0,
    ensures
        r.action_of(Some(f)) matches Ok(a) && {
            &&& a.payload == compile::repeated(
                t + h + f,
                match r.repeat {
                    Some(n) => n as nat,
                    None => 1,
                },
            )
            &&& a.echo == r.echo
            &&& a.dns == r.dns
            &&& a.delay_ms == r.delay_ms
            &&& a.close == r.close
        },
        r.repeat is None ==> r.action_of(Some(f))->Ok_0.payload == t + h + f,
        r.file is Some ==> r.action_of(None) == Err::<ActionModel, RespondFault>(
            RespondFault::File,
        ),
        r.file is None ==> r.action_of(None) == r.action_of(Some(f)),
{
    escapes_read_back(t);
    laws::hex_reads_back(h);
    if r.text is None {
        assert(t =~= Seq::empty());
    }
    if r.hex is None {
        assert(h =~= Seq::empty());
    }
    if r.file is None {
        assert(f =~= Seq::empty());
    }
    reveal_with_fuel(compile::repeated, 2);
    assert(compile::repeated(t + h + f, 1) =~= t + h + f);
}

/// What `load` hands out is the profile as it is written down: its name, its
/// banner if there is one, and its rules in their order, each with its matcher and
/// with its name or, failing that, its place.
pub proof fn a_profile_is_kept(
    p: Profile,
    files: &Contents,
    out: Result<Compiled, LoadError>,
    i: int,
)
    requires
        call_ensures(load, (p, files), out),
    ensures
        out matches Ok(c) ==> {
            &&& c.name@ == p.name@
            &&& c.description@ == p.description@
            &&& c.on_connect is Some <==> p.on_connect is Some
            &&& c.rules@.len() == p.rules@.len()
            &&& 0 <= i < p.rules@.len() ==> {
                &&& c.rules@[i].matcher == p.rules@[i].matcher
                &&& c.rules@[i].name@ == match p.rules@[i].name {
                    Some(name) => name@,
                    None => "rule["@ + text::decimal(i as nat) + "]"@,
                }
                &&& p.rules@[i].respond is None ==> {
                    let a = c.rules@[i].action@;
                    a.payload.len() == 0 && !a.echo && a.dns is None && !a.close
                }
                &&& p.rules@[i].respond matches Some(r) ==> r.action_of(files.of_rule(i)) == Ok::<
                    ActionModel,
                    RespondFault,
                >(c.rules@[i].action@)
            }
            &&& p.on_connect matches Some(r) ==> r.action_of(compile::held(files.on_connect))
                == Ok::<ActionModel, RespondFault>(c.on_connect->0@)
        },
{
    if let Ok(c) = out {
        if 0 <= i < p.rules@.len() {
            assert(c.rules@[i].matcher == p.rules@[i].matcher);
            assert(p.rule_action(*files, i) == Ok::<ActionModel, RespondFault>(c.rules@[i].action@));
        }
    }
}

/// A profile loads exactly if every response in it can be compiled; if not, the
/// banner is blamed before any rule, and of the rules the first.
pub proof fn the_first_fault_is_blamed(
    p: Profile,
    files: &Contents,
    out: Result<Compiled, LoadError>,
)
    requires
        call_ensures(load, (p, files), out),
    ensures
        out is Ok <==> p.banner_of(*files) is Ok && forall|j: int|
            0 <= j < p.rules@.len() ==> #[trigger] p.rule_action(*files, j) is Ok,
        out matches Err(e) ==> match e.rule {
            None => p.banner_of(*files) is Err,
            Some(i) => i < p.rules@.len() && p.banner_of(*files) is Ok && p.rule_action(
                *files,
                i as int,
            ) is Err && forall|j: int| 0 <= j < i ==> #[trigger] p.rule_action(*files, j) is Ok,
        },
{
    match out {
        Ok(c) => {
            assert forall|j: int| 0 <= j < p.rules@.len() implies #[trigger] p.rule_action(*files, j)
                is Ok by {
                assert(p.rule_action(*files, j) == Ok::<ActionModel, RespondFault>(
                    c.rules@[j].action@,
                ));
            }
        },
        Err(e) => {
            if let Some(i) = e.rule {
                assert(p.rule_action(*files, i as int) is Err);
            }
        },
    }
}

/// What the fields of a profile come to: a banner that is not there is no fault, nor
/// is a rule without a response.
pub proof fn only_responses_are_at_fault(p: Profile, files: Contents, i: int)
    requires
        0 <= i < p.rules@.len(),
    ensures
        p.on_connect is None ==> p.banner_of(files) is Ok,
        p.on_connect matches Some(r) ==> (p.banner_of(files) is Ok <==> r.action_of(
            compile::held(files.on_connect),
        ) is Ok),
        p.rules@[i].respond is None ==> p.rule_action(files, i) is Ok,
        p.rules@[i].respond matches Some(r) ==> p.rule_action(files, i) == r.action_of(
            files.of_rule(i),
        ),
{
}

/// `unescape` and `parse_hex` read what was written with escapes and in hex digits.
pub proof fn what_is_written_is_read(
    s: &str,
    h: &str,
    text: Result<Vec<u8>, EscapeFault>,
    digits: Result<Vec<u8>, HexError>,
    b: Seq<u8>,
)
    requires
        call_ensures(unescape, (s,), text),
        call_ensures(parse_hex, (h,), digits),
        s@ == short_escapes(b),
        h@ == laws::in_hex(b),
    ensures
        text matches Ok(t) && t@ == b,
        digits matches Ok(d) && d@ == b,
{
    escapes_read_back(b);
    laws::hex_reads_back(b);
}

/// A profile is looked up as a path first and then by its name in the directory, where
/// its file has the name with `.toml` behind it.
pub proof fn a_path_comes_before_a_name(direct: bool, named: bool, place: Option<Place>, spec: Seq<char>)
    requires
        call_ensures(resolve, (direct, named), place),
    ensures
        direct ==> place == Some(Place::Direct),
        !direct && named ==> place == Some(Place::Named),
        !direct && !named ==> place is None,
        compile::file_name_of(spec) == spec + ".toml"@,
{
}

/// Two characters stand for a byte exactly if they are hex digits, or a plus sign
/// and a hex digit.
pub proof fn two_characters_are_a_byte(hi: char, lo: char, h: u8, l: u8)
    ensures
        hex::hex_value(hi) == Some(h) && hex::hex_value(lo) == Some(l) ==> h < 16 && l < 16
            && hex::pair_value(hi, lo) == Some((16 * h + l) as u8),
        hex::hex_value(lo) == Some(l) ==> hex::pair_value('+', lo) == Some(l),
        hex::hex_value(lo) is None ==> hex::pair_value(hi, lo) is None,
        hex::hex_value(hi) is None && hi != '+' ==> hex::pair_value(hi, lo) is None,
{
}

proof fn pairs_go_on(b: Seq<u8>, t: Seq<char>)
    ensures
        hex::hex_pairs(laws::in_hex(b) + t) == (match hex::hex_pairs(t) {
            Ok(rest) => Ok::<Seq<u8>, Seq<char>>(b + rest),
            Err(pair) => Err(pair),
        }),
    decreases b.len(),
{
    let s = laws::in_hex(b) + t;
    if b.len() > 0 {
        let h = (b[0] / 16) as nat;
        let l = (b[0] % 16) as nat;
        assert(h < 16 && l < 16 && h * 16 + l == b[0]);
        assert(hex::hex_value(text::digit(h)) == Some(h as u8));
        assert(hex::hex_value(text::digit(l)) == Some(l as u8));
        assert(s[0] == text::digit(h) && s[1] == text::digit(l));
        pairs_go_on(b.skip(1), t);
        assert(s.skip(2) =~= laws::in_hex(b.skip(1)) + t);
        if let Ok(rest) = hex::hex_pairs(t) {
            assert(seq![b[0]] + (b.skip(1) + rest) =~= b + rest);
        }
    } else {
        assert(s =~= t);
        if let Ok(rest) = hex::hex_pairs(t) {
            assert(b + rest =~= rest);
        }
    }
}

/// The first two characters that stand for no byte are blamed, whatever bytes stand
/// in front of them and behind.
#[verifier::rlimit(50)]
pub proof fn the_first_bad_byte_is_blamed(b: Seq<u8>, hi: char, lo: char, more: Seq<u8>)
    requires
        hi <= '\u{7f}' && lo <= '\u{7f}',
        !hex::is_separator(hi) && !hex::is_separator(lo),
        hex::pair_value(hi, lo) is None,
        b.len() > 0 || hi != '0' || lo != 'x',
    ensures
        hex::hex_of(laws::in_hex(b) + seq![hi, lo] + laws::in_hex(more)) == Err::<
            Seq<u8>,
            HexFault,
        >(HexFault::BadByte(seq![hi, lo])),
{
    let x = laws::in_hex(b);
    let y = laws::in_hex(more);
    let s = x + seq![hi, lo] + y;
    hex_text_is_plain(b);
    hex_text_is_plain(more);
    assert forall|i: int| 0 <= i < s.len() implies !hex::is_separator(#[trigger] s[i]) && s[i]
        <= '\u{7f}' by {
        if i < x.len() {
            assert(hex::hex_value(x[i]) is Some);
        } else if i >= x.len() + 2 {
            assert(hex::hex_value(y[i - x.len() - 2]) is Some);
        }
    }
    digits_are_kept(s);
    reveal_strlit("0x");
    assert(hex::hex_digits(s) == s) by {
        if text::occurs_at(s, "0x"@, 0) {
            assert(s.subrange(0, 2)[0] == s[0] && s.subrange(0, 2)[1] == s[1]);
            if b.len() > 0 {
                assert(hex::hex_value(x[1]) is Some);
            }
        }
    }
    assert(is_ascii_chars(s));
    is_ascii_chars_encode_utf8(s);
    let t = seq![hi, lo] + y;
    assert(s =~= x + t);
    assert(t[0] == hi && t[1] == lo && t.take(2) =~= seq![hi, lo]);
    pairs_go_on(b, t);
}

/// What is said where something is amiss shows what was asked for, and where it was
/// looked for.
pub proof fn what_is_amiss_is_said(
    spec: &str,
    direct: &str,
    named: &str,
    out: String,
    byte: Seq<char>,
    quoted: Seq<char>,
)
    requires
        call_ensures(compile::not_found, (spec, direct, named), out),
    ensures
        out@ == "profile "@ + text::quoted(spec@) + " not found (looked at "@ + direct@ + " and "@
            + named@ + ")"@,
        HexFault::Odd.message_of(quoted, byte) == "hex string has an odd number of digits: "@
            + quoted,
        HexFault::BadByte(byte).message_of(quoted, byte) == "bad hex byte "@ + byte + " in "@
            + quoted,
{
}

} // verus!
