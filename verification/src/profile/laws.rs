//! What holds of every profile.
use super::compile;
use super::escape;
use super::escape::EscapeFault;
use super::hex;
use super::hex::HexFault;
use super::{Compiled, Match};
use crate::text;
use vstd::prelude::*;
use vstd::utf8::*;

verus! {

// ------------------------------------------------------------- matching

/// An empty matcher matches everything.
pub proof fn an_empty_matcher_matches_everything(m: Match, data: Seq<u8>, first: bool)
    requires
        m.is_empty(),
    ensures
        m.holds(data, first),
{
}

/// `any = true` says nothing that an absent `any` does not say.
pub proof fn any_true_changes_nothing(m: Match, data: Seq<u8>, first: bool)
    requires
        m.any == Some(true),
    ensures
        m.holds(data, first) == (Match { any: None, ..m }).holds(data, first),
{
}

/// `any = false` matches nothing, whatever else the matcher says.
pub proof fn any_false_matches_nothing(m: Match, data: Seq<u8>, first: bool)
    requires
        m.any == Some(false),
    ensures
        !m.holds(data, first),
{
}

/// Every field that is present must hold: a message that matches still matches
/// when a condition is taken away, and a matcher is the conjunction of what it
/// says with and without that condition.
pub proof fn conditions_are_anded(m: Match, data: Seq<u8>, first: bool)
    ensures
        m.holds(data, first) == {
            let only = Match {
                any: None,
                starts_with: None,
                contains: None,
                ends_with: None,
                prefix_hex: None,
                contains_hex: None,
                min_len: None,
                max_len: None,
                len: None,
                first_only: None,
                ignore_case: m.ignore_case,
            };
            &&& (Match { any: m.any, ..only }).holds(data, first)
            &&& (Match { starts_with: m.starts_with, ..only }).holds(data, first)
            &&& (Match { contains: m.contains, ..only }).holds(data, first)
            &&& (Match { ends_with: m.ends_with, ..only }).holds(data, first)
            &&& (Match { prefix_hex: m.prefix_hex, ..only }).holds(data, first)
            &&& (Match { contains_hex: m.contains_hex, ..only }).holds(data, first)
            &&& (Match { min_len: m.min_len, ..only }).holds(data, first)
            &&& (Match { max_len: m.max_len, ..only }).holds(data, first)
            &&& (Match { len: m.len, ..only }).holds(data, first)
            &&& (Match { first_only: m.first_only, ..only }).holds(data, first)
        },
{
}

/// With `ignore_case` and no hex field, messages that differ in ascii case alone
/// are treated alike.
pub proof fn case_of_the_message_is_ignored(m: Match, a: Seq<u8>, b: Seq<u8>, first: bool)
    requires
        m.ignore_case,
        m.prefix_hex is None,
        m.contains_hex is None,
        text::lower_bytes(a) == text::lower_bytes(b),
    ensures
        m.holds(a, first) == m.holds(b, first),
{
    assert(a.len() == text::lower_bytes(a).len());
    assert(b.len() == text::lower_bytes(b).len());
}

/// The same two needles up to ascii case.
pub open spec fn same_needle(a: Option<String>, b: Option<String>) -> bool {
    match (a, b) {
        (None, None) => true,
        (Some(s), Some(t)) => text::lower_bytes(encode_utf8(s@)) == text::lower_bytes(
            encode_utf8(t@),
        ),
        _ => false,
    }
}

/// With `ignore_case`, needles that differ in ascii case alone match the same
/// messages.
pub proof fn case_of_the_needle_is_ignored(m: Match, n: Match, data: Seq<u8>, first: bool)
    requires
        m.ignore_case,
        same_needle(m.starts_with, n.starts_with),
        same_needle(m.contains, n.contains),
        same_needle(m.ends_with, n.ends_with),
        m == (Match {
            starts_with: m.starts_with,
            contains: m.contains,
            ends_with: m.ends_with,
            ..n
        }),
    ensures
        m.holds(data, first) == n.holds(data, first),
{
}

/// `first_only` lets a message through only if it is the first one, and makes no
/// difference to the first.
pub proof fn first_only_gates_on_the_first_message(m: Match, data: Seq<u8>)
    requires
        m.first_only == Some(true),
    ensures
        !m.holds(data, false),
        m.holds(data, true) == (Match { first_only: None, ..m }).holds(data, true),
{
}

proof fn match_from_is_the_first(c: Compiled, data: Seq<u8>, first: bool, from: int)
    requires
        0 <= from <= c.rules@.len(),
    ensures
        match super::match_from(c.rules@, data, first, from) {
            Some(i) => {
                &&& from <= i < c.rules@.len()
                &&& c.rules@[i].matcher.holds(data, first)
                &&& forall|j: int|
                    from <= j < i ==> !(#[trigger] c.rules@[j]).matcher.holds(data, first)
            },
            None => forall|j: int|
                from <= j < c.rules@.len() ==> !(#[trigger] c.rules@[j]).matcher.holds(data, first),
        },
    decreases c.rules@.len() - from,
{
    if from < c.rules@.len() && !c.rules@[from].matcher.holds(data, first) {
        match_from_is_the_first(c, data, first, from + 1);
    }
}

/// The rule that answers is the first that matches; no rule answers only where
/// none matches.
pub proof fn the_first_match_wins(c: Compiled, data: Seq<u8>, first: bool)
    ensures
        match c.rule_for(data, first) {
            Some(i) => {
                &&& 0 <= i < c.rules@.len()
                &&& c.rules@[i].matcher.holds(data, first)
                &&& forall|j: int| 0 <= j < i ==> !(#[trigger] c.rules@[j]).matcher.holds(data, first)
            },
            None => forall|j: int|
                0 <= j < c.rules@.len() ==> !(#[trigger] c.rules@[j]).matcher.holds(data, first),
        },
{
    match_from_is_the_first(c, data, first, 0);
}

// ------------------------------------------------------------- payloads

/// A payload is as long as its body, as often as it is repeated.
pub proof fn repeating_multiplies(s: Seq<u8>, n: nat)
    ensures
        compile::repeated(s, n).len() == s.len() * n,
    decreases n,
{
    if n == 0 {
        assert(s.len() * n == 0) by (nonlinear_arith)
            requires
                n == 0,
        ;
    } else {
        let m = (n - 1) as nat;
        repeating_multiplies(s, m);
        assert(s.len() * n == s.len() * m + s.len()) by (nonlinear_arith)
            requires
                n == m + 1,
        ;
    }
}

/// A text without backslashes stands for its UTF-8 encoding.
pub proof fn plain_text_stands_for_itself(s: Seq<char>)
    requires
        forall|i: int| 0 <= i < s.len() ==> #[trigger] s[i] != '\\',
    ensures
        escape::unescape_of(s) == Ok::<Seq<u8>, EscapeFault>(encode_utf8(s)),
    decreases s.len(),
{
    if s.len() > 0 {
        assert(s.skip(1) =~= s.drop_first());
        plain_text_stands_for_itself(s.skip(1));
    }
}

/// Two hex digits, in lower case.
pub open spec fn two_digits(b: u8) -> Seq<char> {
    seq![text::digit((b / 16) as nat), text::digit((b % 16) as nat)]
}

/// Bytes, each as a `\xNN` escape.
pub open spec fn escaped(bytes: Seq<u8>) -> Seq<char>
    decreases bytes.len(),
{
    if bytes.len() == 0 {
        Seq::empty()
    } else {
        seq!['\\', 'x'] + two_digits(bytes[0]) + escaped(bytes.skip(1))
    }
}

/// Bytes as hex digits.
pub open spec fn in_hex(bytes: Seq<u8>) -> Seq<char>
    decreases bytes.len(),
{
    if bytes.len() == 0 {
        Seq::empty()
    } else {
        two_digits(bytes[0]) + in_hex(bytes.skip(1))
    }
}

proof fn two_digits_read_back(b: u8)
    ensures
        hex::pair_value(two_digits(b)[0], two_digits(b)[1]) == Some(b),
        forall|i: int|
            0 <= i < 2 ==> hex::hex_value(#[trigger] two_digits(b)[i]) is Some && two_digits(b)[i]
                <= '\u{7f}',
{
    let h = (b / 16) as nat;
    let l = (b % 16) as nat;
    assert(h < 16 && l < 16);
    assert(hex::hex_value(text::digit(h)) == Some(h as u8));
    assert(hex::hex_value(text::digit(l)) == Some(l as u8));
    assert(h * 16 + l == b);
}

/// Any bytes, each escaped by its hex digits, are read back.
pub proof fn hex_escapes_read_back(bytes: Seq<u8>)
    ensures
        escape::unescape_of(escaped(bytes)) == Ok::<Seq<u8>, EscapeFault>(bytes),
    decreases bytes.len(),
{
    if bytes.len() > 0 {
        let s = escaped(bytes);
        two_digits_read_back(bytes[0]);
        hex_escapes_read_back(bytes.skip(1));
        assert(s.skip(4) =~= escaped(bytes.skip(1)));
        assert(s[2] == two_digits(bytes[0])[0]);
        assert(s[3] == two_digits(bytes[0])[1]);
        assert(seq![bytes[0]] + bytes.skip(1) =~= bytes);
    } else {
        assert(bytes =~= Seq::empty());
    }
}

proof fn hex_text_is_hex(bytes: Seq<u8>)
    ensures
        in_hex(bytes).len() == 2 * bytes.len(),
        forall|i: int|
            0 <= i < in_hex(bytes).len() ==> hex::hex_value(#[trigger] in_hex(bytes)[i]) is Some
                && in_hex(bytes)[i] <= '\u{7f}',
        hex::pairs_align(in_hex(bytes)),
        hex::hex_pairs(in_hex(bytes)) == Ok::<Seq<u8>, Seq<char>>(bytes),
    decreases bytes.len(),
{
    if bytes.len() > 0 {
        let s = in_hex(bytes);
        let d = two_digits(bytes[0]);
        two_digits_read_back(bytes[0]);
        hex_text_is_hex(bytes.skip(1));
        assert(s.skip(2) =~= in_hex(bytes.skip(1)));
        assert(s[0] == d[0] && s[1] == d[1]);
        assert forall|i: int| 0 <= i < s.len() implies hex::hex_value(#[trigger] s[i]) is Some
            && s[i] <= '\u{7f}' by {
            if i < 2 {
                assert(s[i] == d[i]);
            } else {
                assert(s[i] == in_hex(bytes.skip(1))[i - 2]);
            }
        }
        assert(seq![bytes[0]] + bytes.skip(1) =~= bytes);
    } else {
        assert(bytes =~= Seq::empty());
    }
}

proof fn digits_are_kept(s: Seq<char>)
    requires
        forall|i: int| 0 <= i < s.len() ==> hex::hex_value(#[trigger] s[i]) is Some,
    ensures
        hex::cleaned(s) == s,
    decreases s.len(),
{
    if s.len() > 0 {
        assert(hex::hex_value(s.last()) is Some);
        assert forall|i: int| 0 <= i < s.drop_last().len() implies hex::hex_value(
            #[trigger] s.drop_last()[i],
        ) is Some by {
            assert(s.drop_last()[i] == s[i]);
        }
        digits_are_kept(s.drop_last());
        assert(s.drop_last().push(s.last()) =~= s);
    } else {
        assert(s =~= Seq::empty());
    }
}

/// Any bytes, written as hex digits, are read back.
pub proof fn hex_reads_back(bytes: Seq<u8>)
    ensures
        hex::hex_aligns(in_hex(bytes)),
        hex::hex_of(in_hex(bytes)) == Ok::<Seq<u8>, HexFault>(bytes),
{
    let s = in_hex(bytes);
    hex_text_is_hex(bytes);
    digits_are_kept(s);
    reveal_strlit("0x");
    assert(hex::hex_digits(s) == s) by {
        if text::occurs_at(s, "0x"@, 0) {
            assert(s.subrange(0, 2)[1] == 'x');
            assert(s[1] == 'x');
            assert(hex::hex_value(s[1]) is Some);
        }
    }
    assert(is_ascii_chars(s));
    is_ascii_chars_encode_utf8(s);
}

proof fn cleaning_distributes(a: Seq<char>, b: Seq<char>)
    ensures
        hex::cleaned(a + b) == hex::cleaned(a) + hex::cleaned(b),
    decreases b.len(),
{
    if b.len() == 0 {
        assert(a + b =~= a);
        assert(hex::cleaned(a) + hex::cleaned(b) =~= hex::cleaned(a));
    } else {
        cleaning_distributes(a, b.drop_last());
        assert((a + b).drop_last() =~= a + b.drop_last());
        assert((a + b).last() == b.last());
        assert(hex::cleaned(a) + hex::cleaned(b.drop_last()).push(b.last()) =~= (hex::cleaned(a)
            + hex::cleaned(b.drop_last())).push(b.last()));
    }
}

/// A separator between hex digits, wherever it stands, makes no difference.
pub proof fn separators_are_ignored(a: Seq<char>, c: char, b: Seq<char>)
    requires
        hex::is_separator(c),
    ensures
        hex::hex_of(a + seq![c] + b) == hex::hex_of(a + b),
        hex::hex_aligns(a + seq![c] + b) == hex::hex_aligns(a + b),
{
    cleaning_distributes(a + seq![c], b);
    cleaning_distributes(a, seq![c]);
    cleaning_distributes(a, b);
    reveal_with_fuel(hex::cleaned, 2);
    assert(seq![c].drop_last() =~= Seq::<char>::empty());
    assert(seq![c].last() == c);
    assert(hex::cleaned(seq![c]) =~= Seq::<char>::empty());
    assert(hex::cleaned(a) + hex::cleaned(seq![c]) =~= hex::cleaned(a));
}

} // verus!
