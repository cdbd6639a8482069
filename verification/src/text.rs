//! Text as a sequence of characters: numerals, padding, trimming and the few
//! conversions between bytes and text.
use vstd::prelude::*;
use vstd::utf8::*;

verus! {

/// `String::push`: the character is appended and nothing else changes.
pub assume_specification[ String::push ](s: &mut String, c: char)
    ensures
        final(s)@ == old(s)@.push(c),
;

/// The characters with the Unicode property White_Space.
pub open spec fn is_white_space(c: char) -> bool {
    ||| '\u{9}' <= c <= '\u{d}'
    ||| c == '\u{20}' || c == '\u{85}' || c == '\u{a0}' || c == '\u{1680}'
    ||| '\u{2000}' <= c <= '\u{200a}'
    ||| c == '\u{2028}' || c == '\u{2029}' || c == '\u{202f}' || c == '\u{205f}' || c == '\u{3000}'
}

/// `char::is_whitespace`: it holds of the characters with the Unicode property
/// White_Space and of no others.
pub assume_specification[ char::is_whitespace ](c: char) -> (b: bool)
    ensures
        b == is_white_space(c),
;

/// What `{:?}` prints for a text: the text in double quotes, with its escapes.
pub uninterp spec fn quoted(text: Seq<char>) -> Seq<char>;

/// `str`'s `Debug`: what is printed depends on the text alone. Which characters
/// are escaped, and how, is left unsaid.
#[verifier::external_body]
pub(crate) fn quote(text: &str) -> (out: String)
    ensures
        out@ == quoted(text@),
{
    format!("{text:?}")
}

/// The text that `String::from_utf8_lossy` makes of bytes.
pub uninterp spec fn utf8_lossy(bytes: Seq<u8>) -> Seq<char>;

/// `String::from_utf8_lossy`: the text depends on the bytes alone, and valid
/// UTF-8 is decoded as it stands. How many replacement characters an invalid
/// sequence turns into is left unsaid.
#[verifier::external_body]
pub(crate) fn lossy(bytes: &[u8]) -> (out: String)
    ensures
        out@ == utf8_lossy(bytes@),
        valid_utf8(bytes@) ==> out@ == decode_utf8(bytes@),
{
    String::from_utf8_lossy(bytes).into_owned()
}

/// `std::str::from_utf8`: it succeeds on valid UTF-8 and on nothing else, and
/// the text it hands out has exactly the bytes it was given.
#[verifier::external_body]
pub(crate) fn utf8(bytes: &[u8]) -> (out: Option<&str>)
    ensures
        out is Some <==> valid_utf8(bytes@),
        out matches Some(text) ==> text@ == decode_utf8(bytes@),
{
    std::str::from_utf8(bytes).ok()
}

/// A text of one's own.
pub fn own(text: &str) -> (out: String)
    ensures
        out@ == text@,
{
    let mut out = String::new();
    out.append(text);
    assert(out@ =~= text@);
    out
}

/// The characters of a text.
pub fn chars_of(text: &str) -> (out: Vec<char>)
    ensures
        out@ == text@,
{
    let mut out: Vec<char> = Vec::new();
    for c in it: text.chars()
        invariant
            it.seq() == text@,
            out@ == text@.take(it.index() as int),
    {
        out.push(c);
    }
    assert(text@.take(text@.len() as int) == text@);
    out
}

/// Appends characters to a text.
pub fn push_chars(out: &mut String, chars: &[char])
    ensures
        final(out)@ == old(out)@ + chars@,
{
    let mut i: usize = 0;
    while i < chars.len()
        invariant
            i <= chars.len(),
            out@ == old(out)@ + chars@.take(i as int),
        decreases chars.len() - i,
    {
        out.push(chars[i]);
        i += 1;
        assert(chars@.take(i as int) == chars@.take(i - 1).push(chars@[i - 1]));
    }
    assert(chars@.take(chars@.len() as int) == chars@);
}

/// Whether two texts have the same characters.
pub fn same_text(a: &str, b: &str) -> (same: bool)
    ensures
        same == (a@ == b@),
{
    same_chars(chars_of(a).as_slice(), chars_of(b).as_slice())
}

/// Whether two runs of characters are equal.
pub fn same_chars(a: &[char], b: &[char]) -> (same: bool)
    ensures
        same == (a@ == b@),
{
    if a.len() != b.len() {
        return false;
    }
    let mut i: usize = 0;
    while i < a.len()
        invariant
            i <= a.len(),
            a.len() == b.len(),
            a@.take(i as int) == b@.take(i as int),
        decreases a.len() - i,
    {
        if a[i] != b[i] {
            assert(a@[i as int] != b@[i as int]);
            return false;
        }
        i += 1;
        assert(a@.take(i as int) == a@.take(i - 1).push(a@[i - 1]));
        assert(b@.take(i as int) == b@.take(i - 1).push(b@[i - 1]));
    }
    assert(a@.take(a@.len() as int) == a@);
    assert(b@.take(b@.len() as int) == b@);
    true
}

/// What an optional text holds.
pub open spec fn shown(o: Option<String>) -> Option<Seq<char>> {
    match o {
        Some(s) => Some(s@),
        None => None,
    }
}

/// What an optional borrowed text holds.
pub open spec fn shown_str(o: Option<&str>) -> Option<Seq<char>> {
    match o {
        Some(s) => Some(s@),
        None => None,
    }
}

/// What each of several texts holds.
pub open spec fn shown_all(v: Seq<String>) -> Seq<Seq<char>> {
    v.map_values(|s: String| s@)
}

/// The parts one after the other, with a separator between them.
pub open spec fn joined(parts: Seq<Seq<char>>, sep: Seq<char>) -> Seq<char>
    decreases parts.len(),
{
    if parts.len() == 0 {
        Seq::empty()
    } else if parts.len() == 1 {
        parts[0]
    } else {
        joined(parts.drop_last(), sep) + sep + parts.last()
    }
}

/// A text without the newlines that end it.
pub open spec fn without_newlines(s: Seq<char>) -> Seq<char>
    decreases s.len(),
{
    if s.len() > 0 && s.last() == '\n' {
        without_newlines(s.drop_last())
    } else {
        s
    }
}

/// Appends a text without the newlines that end it.
pub fn push_without_newlines(out: &mut String, s: &str)
    ensures
        final(out)@ == old(out)@ + without_newlines(s@),
{
    let chars = chars_of(s);
    let mut n: usize = chars.len();
    assert(s@.take(n as int) =~= s@);
    while n > 0 && chars[n - 1] == '\n'
        invariant
            n <= chars.len(),
            chars@ == s@,
            without_newlines(s@) == without_newlines(s@.take(n as int)),
        decreases n,
    {
        n -= 1;
        assert(s@.take(n + 1).drop_last() =~= s@.take(n as int));
    }
    assert(n > 0 ==> s@.take(n as int).last() == chars@[n - 1]);
    push_chars(out, vstd::slice::slice_subrange(chars.as_slice(), 0, n));
    assert(chars@.subrange(0, n as int) =~= s@.take(n as int));
}

/// At most `n` characters from the front.
pub open spec fn clipped(s: Seq<char>, n: int) -> Seq<char> {
    if s.len() > n {
        s.take(n)
    } else {
        s
    }
}

/// Appends the parts with a separator between them.
pub fn push_joined(out: &mut String, parts: &Vec<String>, sep: &str)
    ensures
        final(out)@ == old(out)@ + joined(shown_all(parts@), sep@),
{
    let ghost all = shown_all(parts@);
    let mut i: usize = 0;
    while i < parts.len()
        invariant
            i <= parts.len(),
            all == shown_all(parts@),
            out@ == old(out)@ + joined(all.take(i as int), sep@),
        decreases parts.len() - i,
    {
        if i > 0 {
            out.append(sep);
        }
        out.append(parts[i].as_str());
        i += 1;
        proof {
            let now = all.take(i as int);
            assert(now.drop_last() =~= all.take(i - 1));
            assert(now.last() == parts@[i - 1]@);
            assert(out@ =~= old(out)@ + joined(now, sep@));
        }
    }
    assert(all.take(all.len() as int) =~= all);
}

/// Appends at most `n` characters from the front.
pub fn push_clipped(out: &mut String, chars: &[char], n: usize)
    ensures
        final(out)@ == old(out)@ + clipped(chars@, n as int),
{
    if chars.len() > n {
        push_chars(out, vstd::slice::slice_subrange(chars, 0, n));
        assert(chars@.subrange(0, n as int) == chars@.take(n as int));
    } else {
        push_chars(out, chars);
    }
}

/// A text made of characters.
pub fn text_of(chars: &[char]) -> (out: String)
    ensures
        out@ == chars@,
{
    let mut out = String::new();
    push_chars(&mut out, chars);
    assert(out@ =~= chars@);
    out
}

// ------------------------------------------------------------- numerals

/// The character of a digit below sixteen.
pub open spec fn digit(d: nat) -> char {
    if d < 10 {
        ('0' as nat + d) as char
    } else {
        ('a' as nat + d - 10) as char
    }
}

/// The decimal numeral of a number.
pub open spec fn decimal(n: nat) -> Seq<char>
    decreases n,
{
    if n < 10 {
        seq![digit(n)]
    } else {
        decimal(n / 10).push(digit(n % 10))
    }
}

/// The hexadecimal numeral of a number, in lower case.
pub open spec fn hexadecimal(n: nat) -> Seq<char>
    decreases n,
{
    if n < 16 {
        seq![digit(n)]
    } else {
        hexadecimal(n / 16).push(digit(n % 16))
    }
}

/// A run of one character.
pub open spec fn run_of(c: char, n: nat) -> Seq<char> {
    Seq::new(n, |i: int| c)
}

/// A text brought up to a width from the left.
pub open spec fn pad_left(s: Seq<char>, width: nat, fill: char) -> Seq<char> {
    if s.len() >= width {
        s
    } else {
        run_of(fill, (width - s.len()) as nat) + s
    }
}

/// A text brought up to a width from the right.
pub open spec fn pad_right(s: Seq<char>, width: nat, fill: char) -> Seq<char> {
    if s.len() >= width {
        s
    } else {
        s + run_of(fill, (width - s.len()) as nat)
    }
}

fn digit_char(d: u8) -> (c: char)
    requires
        d < 16,
    ensures
        c == digit(d as nat),
{
    if d < 10 {
        (0x30 + d) as char
    } else {
        (0x61 + (d - 10)) as char
    }
}

/// The decimal numeral of a number, character by character.
pub fn decimal_chars(n: u64) -> (out: Vec<char>)
    ensures
        out@ == decimal(n as nat),
    decreases n,
{
    if n < 10 {
        let mut out: Vec<char> = Vec::new();
        out.push(digit_char(n as u8));
        assert(out@ =~= seq![digit(n as nat)]);
        out
    } else {
        let mut out = decimal_chars(n / 10);
        out.push(digit_char((n % 10) as u8));
        out
    }
}

/// The hexadecimal numeral of a number, character by character.
pub fn hexadecimal_chars(n: u64) -> (out: Vec<char>)
    ensures
        out@ == hexadecimal(n as nat),
    decreases n,
{
    if n < 16 {
        let mut out: Vec<char> = Vec::new();
        out.push(digit_char(n as u8));
        assert(out@ =~= seq![digit(n as nat)]);
        out
    } else {
        let mut out = hexadecimal_chars(n / 16);
        out.push(digit_char((n % 16) as u8));
        out
    }
}

/// Appends a decimal numeral.
pub fn push_decimal(out: &mut String, n: u64)
    ensures
        final(out)@ == old(out)@ + decimal(n as nat),
{
    push_chars(out, decimal_chars(n).as_slice());
}

/// Appends one character `n` times.
pub fn push_run(out: &mut String, c: char, n: usize)
    ensures
        final(out)@ == old(out)@ + run_of(c, n as nat),
{
    let mut i: usize = 0;
    while i < n
        invariant
            i <= n,
            out@ == old(out)@ + run_of(c, i as nat),
        decreases n - i,
    {
        out.push(c);
        i += 1;
        assert(run_of(c, i as nat) == run_of(c, (i - 1) as nat).push(c));
    }
}

/// Appends a text brought up to a width from the left.
pub fn push_padded(out: &mut String, chars: &[char], width: usize, fill: char)
    ensures
        final(out)@ == old(out)@ + pad_left(chars@, width as nat, fill),
{
    if chars.len() < width {
        push_run(out, fill, width - chars.len());
    }
    push_chars(out, chars);
    assert(out@ =~= old(out)@ + pad_left(chars@, width as nat, fill));
}

/// Appends a decimal numeral of at least `width` digits.
pub fn push_decimal_padded(out: &mut String, n: u64, width: usize)
    ensures
        final(out)@ == old(out)@ + pad_left(decimal(n as nat), width as nat, '0'),
{
    push_padded(out, decimal_chars(n).as_slice(), width, '0');
}

/// Appends a hexadecimal numeral of at least `width` digits.
pub fn push_hexadecimal_padded(out: &mut String, n: u64, width: usize)
    ensures
        final(out)@ == old(out)@ + pad_left(hexadecimal(n as nat), width as nat, '0'),
{
    push_padded(out, hexadecimal_chars(n).as_slice(), width, '0');
}

/// A decimal digit.
pub open spec fn is_digit(c: char) -> bool {
    '0' <= c <= '9'
}

/// Whether all characters are decimal digits.
pub open spec fn all_digits(s: Seq<char>) -> bool {
    forall|i: int| 0 <= i < s.len() ==> is_digit(#[trigger] s[i])
}

/// The number that decimal digits stand for.
pub open spec fn digits_value(s: Seq<char>) -> nat
    decreases s.len(),
{
    if s.len() == 0 {
        0
    } else {
        digits_value(s.drop_last()) * 10 + (s.last() as nat - '0' as nat) as nat
    }
}

/// A numeral without the plus sign it may begin with.
pub open spec fn unsigned_part(s: Seq<char>) -> Seq<char> {
    if s.len() > 0 && s[0] == '+' {
        s.drop_first()
    } else {
        s
    }
}

/// The number that a numeral stands for: digits, at least one, a plus sign in
/// front of them or not, and no more than 64 bits hold.
pub open spec fn unsigned_of(s: Seq<char>) -> Option<nat> {
    let digits = unsigned_part(s);
    if digits.len() > 0 && all_digits(digits) && digits_value(digits) <= u64::MAX {
        Some(digits_value(digits))
    } else {
        None
    }
}

proof fn digits_grow(s: Seq<char>, n: int)
    requires
        all_digits(s),
        0 <= n <= s.len(),
    ensures
        digits_value(s.take(n)) <= digits_value(s),
    decreases s.len() - n,
{
    if n < s.len() {
        digits_grow(s, n + 1);
        assert(s.take(n + 1).drop_last() =~= s.take(n));
        assert(is_digit(s[n]));
        assert(digits_value(s.take(n)) <= digits_value(s.take(n + 1)));
    } else {
        assert(s.take(n) =~= s);
    }
}

/// Reads an unsigned decimal numeral.
pub fn parse_unsigned(s: &[char]) -> (v: Option<u64>)
    ensures
        match v {
            Some(n) => unsigned_of(s@) == Some(n as nat),
            None => unsigned_of(s@) is None,
        },
{
    let digits: &[char] = if s.len() > 0 && s[0] == '+' {
        vstd::slice::slice_subrange(s, 1, s.len())
    } else {
        s
    };
    assert(digits@ =~= unsigned_part(s@));
    if digits.len() == 0 {
        return None;
    }
    let mut n: u64 = 0;
    let mut i: usize = 0;
    while i < digits.len()
        invariant
            i <= digits.len(),
            digits@ == unsigned_part(s@),
            n == digits_value(digits@.take(i as int)),
            forall|j: int| 0 <= j < i ==> is_digit(#[trigger] digits@[j]),
        decreases digits.len() - i,
    {
        let c = digits[i];
        if c < '0' || c > '9' {
            assert(!is_digit(digits@[i as int]));
            return None;
        }
        let d: u64 = (c as u8 - 0x30) as u64;
        let ghost next = digits@.take(i + 1);
        proof {
            assert(next.drop_last() =~= digits@.take(i as int));
            assert(digits_value(next) == n * 10 + d);
            if all_digits(digits@) {
                digits_grow(digits@, i + 1);
            }
        }
        n = match n.checked_mul(10) {
            Some(m) => match m.checked_add(d) {
                Some(m) => m,
                None => {
                    return None;
                },
            },
            None => {
                return None;
            },
        };
        i += 1;
    }
    assert(digits@.take(i as int) =~= digits@);
    Some(n)
}

/// The decimal numeral of a number consists of digits and stands for the number.
pub proof fn decimal_reads_back(n: nat)
    ensures
        decimal(n).len() > 0,
        all_digits(decimal(n)),
        digits_value(decimal(n)) == n,
        n <= u64::MAX ==> unsigned_of(decimal(n)) == Some(n),
    decreases n,
{
    if n < 10 {
        let s = decimal(n);
        assert(s =~= seq![digit(n)]);
        assert(s.drop_last() =~= Seq::<char>::empty());
        assert(digits_value(s.drop_last()) == 0);
    } else {
        decimal_reads_back(n / 10);
        let s = decimal(n);
        assert(s.drop_last() =~= decimal(n / 10));
        assert(all_digits(s)) by {
            assert forall|i: int| 0 <= i < s.len() implies is_digit(#[trigger] s[i]) by {
                if i < s.len() - 1 {
                    assert(is_digit(decimal(n / 10)[i]));
                }
            }
        }
    }
    assert(is_digit(decimal(n)[0]));
}

// ------------------------------------------------------------- searching

/// Whether `needle` stands in `hay` at `at`.
pub open spec fn occurs_at<A>(hay: Seq<A>, needle: Seq<A>, at: int) -> bool {
    &&& 0 <= at
    &&& at + needle.len() <= hay.len()
    &&& hay.subrange(at, at + needle.len()) == needle
}

/// Where `needle` first stands in `hay` at or after `from`.
pub open spec fn search_from<A>(hay: Seq<A>, needle: Seq<A>, from: int) -> Option<int>
    decreases hay.len() - from,
{
    if from + needle.len() > hay.len() {
        None
    } else if occurs_at(hay, needle, from) {
        Some(from)
    } else if from < hay.len() {
        search_from(hay, needle, from + 1)
    } else {
        None
    }
}

/// Where `needle` first stands in `hay`.
pub open spec fn first_occurrence<A>(hay: Seq<A>, needle: Seq<A>) -> Option<int> {
    search_from(hay, needle, 0)
}

/// What a search reports is an occurrence, no earlier place is one, and a search
/// that reports nothing has missed nothing.
pub proof fn search_finds_the_first<A>(hay: Seq<A>, needle: Seq<A>, from: int)
    requires
        0 <= from,
    ensures
        match search_from(hay, needle, from) {
            Some(at) => {
                &&& from <= at
                &&& occurs_at(hay, needle, at)
                &&& forall|i: int| from <= i < at ==> !occurs_at(hay, needle, i)
            },
            None => forall|i: int| from <= i ==> !occurs_at(hay, needle, i),
        },
    decreases hay.len() - from,
{
    if from + needle.len() > hay.len() {
    } else if occurs_at(hay, needle, from) {
    } else if from < hay.len() {
        search_finds_the_first(hay, needle, from + 1);
    }
}

proof fn a_search_reaches<A>(hay: Seq<A>, needle: Seq<A>, from: int, at: int)
    requires
        0 <= from <= at,
        needle.len() > 0,
        occurs_at(hay, needle, at),
        forall|i: int| from <= i < at ==> hay[i] != needle[0],
    ensures
        search_from(hay, needle, from) == Some(at),
    decreases at - from,
{
    if from < at {
        if occurs_at(hay, needle, from) {
            assert(hay.subrange(from, from + needle.len())[0] == hay[from]);
        }
        a_search_reaches(hay, needle, from + 1, at);
    }
}

/// A needle whose first character does not stand in front of it is found where it
/// stands.
pub proof fn a_needle_is_found<A>(front: Seq<A>, needle: Seq<A>, back: Seq<A>)
    requires
        needle.len() > 0,
        !front.contains(needle[0]),
    ensures
        first_occurrence(front + needle + back, needle) == Some(front.len() as int),
{
    let hay = front + needle + back;
    let at = front.len() as int;
    assert(hay.subrange(at, at + needle.len()) =~= needle);
    assert forall|i: int| 0 <= i < at implies hay[i] != needle[0] by {
        assert(hay[i] == front[i]);
        assert(front.contains(front[i]));
    }
    a_search_reaches(hay, needle, 0, at);
}

/// Whether `needle` stands in `hay` at `at`.
pub fn chars_at(hay: &[char], needle: &[char], at: usize) -> (here: bool)
    requires
        at <= hay.len(),
    ensures
        here == occurs_at(hay@, needle@, at as int),
{
    if needle.len() > hay.len() - at {
        return false;
    }
    same_chars(vstd::slice::slice_subrange(hay, at, at + needle.len()), needle)
}

/// Where `needle` first stands in `hay`.
pub fn find_chars(hay: &[char], needle: &[char]) -> (found: Option<usize>)
    ensures
        match found {
            Some(at) => first_occurrence(hay@, needle@) == Some(at as int) && at + needle.len()
                <= hay.len(),
            None => first_occurrence(hay@, needle@) is None,
        },
{
    let mut at: usize = 0;
    while at <= hay.len() && needle.len() <= hay.len() - at
        invariant
            at <= hay.len() + 1,
            first_occurrence(hay@, needle@) == search_from(hay@, needle@, at as int),
        decreases hay.len() + 1 - at,
    {
        if chars_at(hay, needle, at) {
            return Some(at);
        }
        if at == hay.len() {
            return None;
        }
        at += 1;
    }
    None
}

/// Where a character first stands in a text.
pub fn find_char(hay: &[char], c: char) -> (found: Option<usize>)
    ensures
        match found {
            Some(at) => first_occurrence(hay@, seq![c]) == Some(at as int) && at < hay.len(),
            None => first_occurrence(hay@, seq![c]) is None,
        },
{
    let mut needle: Vec<char> = Vec::new();
    needle.push(c);
    assert(needle@ =~= seq![c]);
    proof {
        search_finds_the_first(hay@, needle@, 0);
    }
    find_chars(hay, needle.as_slice())
}

// ------------------------------------------------------------- trimming

/// A text without the white space at its front.
pub open spec fn trim_start(s: Seq<char>) -> Seq<char>
    decreases s.len(),
{
    if s.len() > 0 && is_white_space(s[0]) {
        trim_start(s.drop_first())
    } else {
        s
    }
}

/// A text without the white space at its end.
pub open spec fn trim_end(s: Seq<char>) -> Seq<char>
    decreases s.len(),
{
    if s.len() > 0 && is_white_space(s.last()) {
        trim_end(s.drop_last())
    } else {
        s
    }
}

/// A text without the white space around it.
pub open spec fn trim(s: Seq<char>) -> Seq<char> {
    trim_end(trim_start(s))
}

/// The characters up to the first white space.
pub open spec fn word(s: Seq<char>) -> Seq<char>
    decreases s.len(),
{
    if s.len() > 0 && !is_white_space(s[0]) {
        seq![s[0]] + word(s.drop_first())
    } else {
        Seq::empty()
    }
}

/// The second of the words that white space separates, empty when there is none.
pub open spec fn second_word(s: Seq<char>) -> Seq<char> {
    let t = trim_start(s);
    word(trim_start(t.skip(word(t).len() as int)))
}

/// The characters left once white space is dropped from the front.
pub fn trim_start_of(s: &[char]) -> (out: &[char])
    ensures
        out@ == trim_start(s@),
{
    let mut i: usize = 0;
    assert(s@.skip(0) == s@);
    while i < s.len() && s[i].is_whitespace()
        invariant
            i <= s.len(),
            trim_start(s@) == trim_start(s@.skip(i as int)),
        decreases s.len() - i,
    {
        assert(s@.skip(i as int).drop_first() == s@.skip(i + 1));
        i += 1;
    }
    let out = vstd::slice::slice_subrange(s, i, s.len());
    assert(out@ == s@.skip(i as int));
    out
}

/// The characters left once white space is dropped from both ends.
pub fn trim_of(s: &[char]) -> (out: &[char])
    ensures
        out@ == trim(s@),
{
    let t = trim_start_of(s);
    let mut n: usize = t.len();
    assert(t@.take(n as int) == t@);
    while n > 0 && t[n - 1].is_whitespace()
        invariant
            n <= t.len(),
            trim_end(t@) == trim_end(t@.take(n as int)),
        decreases n,
    {
        assert(t@.take(n as int).drop_last() == t@.take(n - 1));
        n -= 1;
    }
    let out = vstd::slice::slice_subrange(t, 0, n);
    assert(out@ == t@.take(n as int));
    out
}

/// The characters up to the first white space.
pub fn word_of(s: &[char]) -> (out: &[char])
    ensures
        out@ == word(s@),
        out.len() <= s.len(),
{
    let mut i: usize = 0;
    assert(s@.skip(0) == s@);
    while i < s.len() && !s[i].is_whitespace()
        invariant
            i <= s.len(),
            word(s@) == s@.take(i as int) + word(s@.skip(i as int)),
        decreases s.len() - i,
    {
        assert(s@.skip(i as int).drop_first() == s@.skip(i + 1));
        assert(s@.take(i + 1) == s@.take(i as int) + seq![s@[i as int]]);
        assert(s@.take(i + 1) + word(s@.skip(i + 1)) == s@.take(i as int) + (seq![s@[i as int]]
            + word(s@.skip(i + 1))));
        i += 1;
    }
    let out = vstd::slice::slice_subrange(s, 0, i);
    assert(out@ == s@.take(i as int));
    out
}

/// The second of the words that white space separates.
pub fn second_word_of(s: &[char]) -> (out: &[char])
    ensures
        out@ == second_word(s@),
{
    let t = trim_start_of(s);
    let first = word_of(t);
    let rest = vstd::slice::slice_subrange(t, first.len(), t.len());
    assert(rest@ == t@.skip(first@.len() as int));
    word_of(trim_start_of(rest))
}

// ------------------------------------------------------------- ascii

/// A byte in ascii lower case.
pub open spec fn lower_byte(b: u8) -> u8 {
    if 0x41 <= b <= 0x5a {
        (b + 32) as u8
    } else {
        b
    }
}

/// A character in ascii lower case.
pub open spec fn lower_char(c: char) -> char {
    if 'A' <= c <= 'Z' {
        (c as u8 + 32) as char
    } else {
        c
    }
}

/// A text in ascii lower case.
pub open spec fn lower(s: Seq<char>) -> Seq<char> {
    s.map_values(|c: char| lower_char(c))
}

/// Bytes in ascii lower case.
pub open spec fn lower_bytes(s: Seq<u8>) -> Seq<u8> {
    s.map_values(|b: u8| lower_byte(b))
}

/// A text in ascii lower case.
pub fn lower_chars_of(s: &[char]) -> (out: Vec<char>)
    ensures
        out@ == lower(s@),
{
    let mut out: Vec<char> = Vec::new();
    let mut i: usize = 0;
    while i < s.len()
        invariant
            i <= s.len(),
            out@ == lower(s@.take(i as int)),
        decreases s.len() - i,
    {
        let c = s[i];
        out.push(if 'A' <= c && c <= 'Z' { (c as u8 + 32) as char } else { c });
        i += 1;
        assert(s@.take(i as int) == s@.take(i - 1).push(c));
        assert(out@ =~= lower(s@.take(i as int)));
    }
    assert(s@.take(s@.len() as int) == s@);
    out
}

/// Bytes in ascii lower case.
pub fn lower_bytes_of(s: &[u8]) -> (out: Vec<u8>)
    ensures
        out@ == lower_bytes(s@),
{
    let mut out: Vec<u8> = Vec::new();
    let mut i: usize = 0;
    while i < s.len()
        invariant
            i <= s.len(),
            out@ == lower_bytes(s@.take(i as int)),
        decreases s.len() - i,
    {
        let b = s[i];
        out.push(if 0x41 <= b && b <= 0x5a { b + 32 } else { b });
        i += 1;
        assert(s@.take(i as int) == s@.take(i - 1).push(b));
        assert(out@ =~= lower_bytes(s@.take(i as int)));
    }
    assert(s@.take(s@.len() as int) == s@);
    out
}

// ------------------------------------------------------------- laws

/// Numerals are positional: the last digit counts ones and the digits in front of
/// it count tens, or sixteens. The digits are the usual ones.
pub proof fn numerals_are_positional(n: nat, d: nat)
    ensures
        d < 10 ==> decimal(d) == seq!["0123456789"@[d as int]],
        d < 10 && n > 0 ==> decimal(10 * n + d) == decimal(n).push("0123456789"@[d as int]),
        d < 16 ==> hexadecimal(d) == seq!["0123456789abcdef"@[d as int]],
        d < 16 && n > 0 ==> hexadecimal(16 * n + d) == hexadecimal(n).push(
            "0123456789abcdef"@[d as int],
        ),
{
    reveal_strlit("0123456789");
    reveal_strlit("0123456789abcdef");
    if d < 10 {
        assert(digit(d) == "0123456789"@[d as int]) by {
            let s = "0123456789"@;
            if d == 0 {
            } else if d == 1 {
            } else if d == 2 {
            } else if d == 3 {
            } else if d == 4 {
            } else if d == 5 {
            } else if d == 6 {
            } else if d == 7 {
            } else if d == 8 {
            } else {
                assert(d == 9);
            }
        }
        assert((10 * n + d) / 10 == n && (10 * n + d) % 10 == d);
    }
    if d < 16 {
        assert(digit(d) == "0123456789abcdef"@[d as int]) by {
            if d == 0 {
            } else if d == 1 {
            } else if d == 2 {
            } else if d == 3 {
            } else if d == 4 {
            } else if d == 5 {
            } else if d == 6 {
            } else if d == 7 {
            } else if d == 8 {
            } else if d == 9 {
            } else if d == 10 {
            } else if d == 11 {
            } else if d == 12 {
            } else if d == 13 {
            } else if d == 14 {
            } else {
                assert(d == 15);
            }
        }
        assert((16 * n + d) / 16 == n && (16 * n + d) % 16 == d);
    }
}

/// Padding fills up to a width, on one side only, and never cuts.
pub proof fn padding_fills_up(s: Seq<char>, width: nat, fill: char)
    ensures
        ({
            let gap = if s.len() < width {
                width - s.len()
            } else {
                0
            };
            let left = pad_left(s, width, fill);
            let right = pad_right(s, width, fill);
            &&& left.len() == right.len() == s.len() + gap
            &&& left.skip(gap) == s
            &&& right.take(s.len() as int) == s
            &&& forall|i: int| 0 <= i < gap ==> #[trigger] left[i] == fill
            &&& forall|i: int| s.len() <= i < right.len() ==> #[trigger] right[i] == fill
        }),
{
    let gap = if s.len() < width {
        width - s.len()
    } else {
        0
    };
    assert(pad_left(s, width, fill).skip(gap) =~= s);
    assert(pad_right(s, width, fill).take(s.len() as int) =~= s);
}

/// Clipping keeps the front, as much of it as there is and no more than asked for.
pub proof fn clipping_keeps_the_front(s: Seq<char>, n: int)
    requires
        0 <= n,
    ensures
        clipped(s, n).len() == s.len() || clipped(s, n).len() == n,
        clipped(s, n).len() <= n,
        s.len() <= n ==> clipped(s, n).len() == s.len(),
        forall|i: int| 0 <= i < clipped(s, n).len() ==> #[trigger] clipped(s, n)[i] == s[i],
{
}

/// Joining puts the separator between the parts and nowhere else.
pub proof fn joining_separates(parts: Seq<Seq<char>>, last: Seq<char>, sep: Seq<char>)
    ensures
        joined(Seq::<Seq<char>>::empty(), sep).len() == 0,
        joined(seq![last], sep) == last,
        parts.len() > 0 ==> joined(parts.push(last), sep) == joined(parts, sep) + sep + last,
{
    assert(parts.push(last).drop_last() =~= parts);
}

/// Whether all characters are white space.
pub open spec fn all_white(s: Seq<char>) -> bool {
    forall|i: int| 0 <= i < s.len() ==> is_white_space(#[trigger] s[i])
}

proof fn leading_white_goes(a: Seq<char>, s: Seq<char>)
    requires
        all_white(a),
        s.len() > 0 ==> !is_white_space(s[0]),
    ensures
        trim_start(a + s) == s,
    decreases a.len(),
{
    if a.len() > 0 {
        assert((a + s)[0] == a[0]);
        assert(is_white_space(a[0]));
        assert((a + s).drop_first() =~= a.drop_first() + s);
        assert forall|i: int| 0 <= i < a.drop_first().len() implies is_white_space(
            #[trigger] a.drop_first()[i],
        ) by {
            assert(is_white_space(a[i + 1]));
        }
        leading_white_goes(a.drop_first(), s);
    } else {
        assert(a + s =~= s);
    }
}

proof fn trailing_white_goes(s: Seq<char>, b: Seq<char>)
    requires
        all_white(b),
        s.len() > 0 ==> !is_white_space(s.last()),
    ensures
        trim_end(s + b) == s,
    decreases b.len(),
{
    if b.len() > 0 {
        assert((s + b).last() == b.last());
        assert(is_white_space(b[b.len() - 1]));
        assert((s + b).drop_last() =~= s + b.drop_last());
        assert forall|i: int| 0 <= i < b.drop_last().len() implies is_white_space(
            #[trigger] b.drop_last()[i],
        ) by {
            assert(is_white_space(b[i]));
        }
        trailing_white_goes(s, b.drop_last());
    } else {
        assert(s + b =~= s);
    }
}

proof fn all_white_goes(a: Seq<char>)
    requires
        all_white(a),
    ensures
        trim(a).len() == 0,
{
    assert(a + Seq::<char>::empty() =~= a);
    leading_white_goes(a, Seq::empty());
}

/// Trimming takes the white space from both ends and leaves what stands between.
pub proof fn trimming_leaves_the_middle(a: Seq<char>, s: Seq<char>, b: Seq<char>)
    requires
        all_white(a),
        all_white(b),
        s.len() > 0 ==> !is_white_space(s[0]) && !is_white_space(s.last()),
    ensures
        trim(a + s + b) == s,
{
    if s.len() == 0 {
        let all = a + s + b;
        assert forall|i: int| 0 <= i < all.len() implies is_white_space(#[trigger] all[i]) by {
            if i < a.len() {
                assert(is_white_space(a[i]));
            } else {
                assert(is_white_space(b[i - a.len()]));
            }
        }
        all_white_goes(all);
        assert(trim(all) =~= s);
    } else {
        assert(a + s + b =~= a + (s + b));
        leading_white_goes(a, s + b);
        trailing_white_goes(s, b);
    }
}

/// Lower case is ascii: a capital letter is moved to its small one and everything
/// else stays, in texts and in bytes.
pub proof fn lower_case_is_ascii(s: Seq<char>, b: Seq<u8>)
    ensures
        lower(s).len() == s.len(),
        forall|i: int|
            0 <= i < s.len() ==> #[trigger] lower(s)[i] as int == s[i] as int + (if 0x41 <= s[i] as int
                <= 0x5a {
                32int
            } else {
                0
            }),
        lower_bytes(b).len() == b.len(),
        forall|i: int|
            0 <= i < b.len() ==> #[trigger] lower_bytes(b)[i] == b[i] + (if 0x41 <= b[i] <= 0x5a {
                32int
            } else {
                0
            }),
{
}

/// All newlines at the end go, and nothing else does.
pub proof fn only_last_newlines_go(s: Seq<char>, n: nat)
    requires
        s.len() > 0 ==> s.last() != '\n',
    ensures
        without_newlines(s + run_of('\n', n)) == s,
    decreases n,
{
    let all = s + run_of('\n', n);
    if n > 0 {
        only_last_newlines_go(s, (n - 1) as nat);
        assert(all.drop_last() =~= s + run_of('\n', (n - 1) as nat));
        assert(all.last() == '\n');
    } else {
        assert(all =~= s);
    }
}

/// A search finds what is there: a needle that stands behind some front is found,
/// and no later than there.
pub proof fn a_search_finds_what_is_there<A>(front: Seq<A>, needle: Seq<A>, back: Seq<A>)
    ensures
        first_occurrence(front + needle + back, needle) matches Some(at) && 0 <= at <= front.len(),
{
    let whole = front + needle + back;
    let n = front.len() as int;
    assert(whole.subrange(n, n + needle.len()) =~= needle);
    assert(occurs_at(whole, needle, n));
    search_finds_the_first(whole, needle, 0);
}

/// What a search finds parts the hay in three.
pub proof fn a_search_parts_the_hay<A>(hay: Seq<A>, needle: Seq<A>)
    ensures
        first_occurrence(hay, needle) matches Some(at) ==> 0 <= at && at + needle.len() <= hay.len()
            && hay == hay.take(at) + needle + hay.skip(at + needle.len() as int),
{
    search_finds_the_first(hay, needle, 0);
    if let Some(at) = first_occurrence(hay, needle) {
        assert(occurs_at(hay, needle, at));
        a_place_parts_the_hay(hay, needle, at);
    }
}

proof fn a_place_parts_the_hay<A>(hay: Seq<A>, needle: Seq<A>, at: int)
    requires
        occurs_at(hay, needle, at),
    ensures
        hay == hay.take(at) + needle + hay.skip(at + needle.len() as int),
{
    let end = at + needle.len() as int;
    let middle = hay.subrange(at, end);
    assert(hay =~= hay.take(at) + middle + hay.skip(end));
}

/// A numeral is read as its number, a plus sign in front or not; one that 64 bits
/// cannot hold is not read, nor is a text with anything but digits behind the sign.
pub proof fn numerals_are_read(n: nat, s: Seq<char>)
    ensures
        unsigned_of(decimal(n)) == if n <= 0xffff_ffff_ffff_ffff {
            Some(n)
        } else {
            None
        },
        unsigned_of(seq!['+'] + decimal(n)) == unsigned_of(decimal(n)),
        unsigned_of(s) is Some ==> s.len() > 0 && forall|i: int|
            0 <= i < s.len() ==> '0' <= #[trigger] s[i] <= '9' || i == 0 && s[i] == '+',
{
    decimal_reads_back(n);
    assert(is_digit(decimal(n)[0]));
    assert((seq!['+'] + decimal(n)).drop_first() =~= decimal(n));
    if unsigned_of(s) is Some {
        let t = unsigned_part(s);
        assert forall|i: int| 0 <= i < s.len() implies '0' <= #[trigger] s[i] <= '9' || i == 0
            && s[i] == '+' by {
            if s[0] == '+' {
                if i > 0 {
                    assert(t[i - 1] == s[i]);
                    assert(is_digit(t[i - 1]));
                }
            } else {
                assert(is_digit(t[i]));
            }
        }
    }
}

proof fn a_word_ends_at_white_space(w: Seq<char>, rest: Seq<char>)
    requires
        forall|i: int| 0 <= i < w.len() ==> !is_white_space(#[trigger] w[i]),
        rest.len() == 0 || is_white_space(rest[0]),
    ensures
        word(w + rest) == w,
    decreases w.len(),
{
    let s = w + rest;
    if w.len() > 0 {
        assert(s[0] == w[0]);
        a_word_ends_at_white_space(w.drop_first(), rest);
        assert(s.drop_first() =~= w.drop_first() + rest);
        assert(seq![w[0]] + w.drop_first() =~= w);
    } else {
        assert(s =~= rest);
    }
}

/// The second word of a line is what stands between white space and white space, or
/// the end, behind the first; how much white space there is makes no difference.
pub proof fn words_are_parted_by_white_space(
    a: Seq<char>,
    first: Seq<char>,
    b: Seq<char>,
    second: Seq<char>,
    rest: Seq<char>,
)
    requires
        all_white(a),
        all_white(b),
        b.len() > 0,
        first.len() > 0 && second.len() > 0,
        forall|i: int| 0 <= i < first.len() ==> !is_white_space(#[trigger] first[i]),
        forall|i: int| 0 <= i < second.len() ==> !is_white_space(#[trigger] second[i]),
        rest.len() == 0 || is_white_space(rest[0]),
    ensures
        second_word(a + first + b + second + rest) == second,
{
    let behind = b + (second + rest);
    let s = first + behind;
    let t = second + rest;
    assert(a + first + b + second + rest =~= a + s);
    leading_white_goes(a, s);
    assert(s[0] == first[0] && t[0] == second[0] && behind[0] == b[0]);
    assert(trim_start(s) == s);
    a_word_ends_at_white_space(first, behind);
    assert(s.skip(first.len() as int) =~= behind);
    leading_white_goes(b, t);
    assert(trim_start(t) == t);
    a_word_ends_at_white_space(second, rest);
}

} // verus!
