//! HTTP/1: the request line, the host and the user agent.
use crate::bytes;
use crate::bytes::find;
use crate::text;
use crate::text::{
    chars_at, chars_of, find_char, find_chars, lossy, lower_chars_of, push_clipped,
    same_chars, second_word_of, text_of, trim_of, utf8,
};
use vstd::prelude::*;
use vstd::utf8::*;

verus! {

/// How much of a message is looked at.
pub const HEAD_LEN: usize = 8192;

/// How many header lines are looked at.
pub const HEADER_LINES: usize = 64;

/// The methods that are known, in the order in which they are tried.
pub open spec fn methods() -> Seq<Seq<char>> {
    seq![
        "GET"@,
        "POST"@,
        "PUT"@,
        "HEAD"@,
        "DELETE"@,
        "OPTIONS"@,
        "PATCH"@,
        "TRACE"@,
        "CONNECT"@,
    ]
}

/// The first method from the `i`-th on that the line begins with, a space behind
/// it.
pub open spec fn method_from(line: Seq<char>, i: int) -> Option<Seq<char>>
    decreases methods().len() - i,
{
    if i < 0 || i >= methods().len() {
        None
    } else if text::occurs_at(line, methods()[i].push(' '), 0) {
        Some(methods()[i])
    } else {
        method_from(line, i + 1)
    }
}

/// What is said of a request line: its method and at most 80 characters of its
/// target. A line that names no protocol version is none.
pub open spec fn request_of(line: Seq<char>) -> Option<Seq<char>> {
    match method_from(line, 0) {
        None => None,
        Some(method) => if text::first_occurrence(line, "HTTP/"@) is None {
            None
        } else {
            Some("HTTP "@ + method + " "@ + text::clipped(text::second_word(line), 80))
        },
    }
}

/// The value of a header among the lines that a text holds, of which at most
/// `left` are looked at. An empty line or one without a colon ends the search.
pub open spec fn header_among(text: Seq<char>, name: Seq<char>, left: nat) -> Option<Seq<char>>
    decreases left,
{
    let end = text::first_occurrence(text, "\r\n"@);
    let line = match end {
        Some(e) => text.take(e),
        None => text,
    };
    if left == 0 || line.len() == 0 {
        None
    } else {
        match text::first_occurrence(line, seq![':']) {
            None => None,
            Some(colon) => if text::lower(text::trim(line.take(colon))) == text::lower(name) {
                Some(text::trim(line.skip(colon + 1)))
            } else {
                match end {
                    Some(e) => header_among(text.skip(e + 2), name, (left - 1) as nat),
                    None => None,
                }
            },
        }
    }
}

/// The value of a header in a request; its first line is passed over.
pub open spec fn header_of(text: Seq<char>, name: Seq<char>) -> Option<Seq<char>> {
    match text::first_occurrence(text, "\r\n"@) {
        Some(e) => header_among(text.skip(e + 2), name, HEADER_LINES as nat),
        None => None,
    }
}

/// The part of a message that is looked at.
pub open spec fn head_of(d: Seq<u8>) -> Seq<u8> {
    if d.len() < HEAD_LEN {
        d
    } else {
        d.take(HEAD_LEN as int)
    }
}

/// Where the first line ends: at the first CR LF, or else at the first LF.
pub open spec fn line_end(head: Seq<u8>) -> Option<int> {
    match bytes::found_at(head, seq![0x0du8, 0x0au8]) {
        Some(e) => Some(e),
        None => bytes::found_at(head, seq![0x0au8]),
    }
}

/// What is said of the first line of a message.
pub open spec fn first_line_of(head: Seq<u8>) -> Option<Seq<char>> {
    match line_end(head) {
        None => None,
        Some(e) => if valid_utf8(head.take(e)) {
            request_of(decode_utf8(head.take(e)))
        } else {
            None
        },
    }
}

/// What is said of a request whose header text is `text`.
pub open spec fn with_headers(request: Seq<char>, text: Seq<char>) -> Seq<char> {
    request + (match header_of(text, "host"@) {
        Some(host) => " host="@ + host,
        None => Seq::empty(),
    }) + (match header_of(text, "user-agent"@) {
        Some(agent) => " ua="@ + text::clipped(agent, 60),
        None => Seq::empty(),
    })
}

/// The line for a message that begins with a request line.
pub open spec fn http_of(d: Seq<u8>) -> Option<Seq<char>> {
    match first_line_of(head_of(d)) {
        Some(request) => Some(with_headers(request, text::utf8_lossy(head_of(d)))),
        None => None,
    }
}

/// The line for a message that begins with a request line, where the part that is
/// looked at is valid UTF-8.
pub open spec fn plain_of(d: Seq<u8>) -> Option<Seq<char>> {
    match first_line_of(head_of(d)) {
        Some(request) => Some(with_headers(request, decode_utf8(head_of(d)))),
        None => None,
    }
}

fn method_name(i: usize) -> (name: &'static str)
    requires
        i < 9,
    ensures
        name@ == methods()[i as int],
{
    match i {
        0 => "GET",
        1 => "POST",
        2 => "PUT",
        3 => "HEAD",
        4 => "DELETE",
        5 => "OPTIONS",
        6 => "PATCH",
        7 => "TRACE",
        _ => "CONNECT",
    }
}

/// What is said of a request line.
pub fn request(line: &str) -> (out: Option<String>)
    ensures
        text::shown(out) == request_of(line@),
{
    let chars = chars_of(line);
    let mut i: usize = 0;
    while i < 9
        invariant
            i <= 9,
            chars@ == line@,
            method_from(line@, 0) == method_from(line@, i as int),
        decreases 9 - i,
    {
        let name = method_name(i);
        let mut lead = chars_of(name);
        lead.push(' ');
        if chars_at(chars.as_slice(), lead.as_slice(), 0) {
            let version = chars_of("HTTP/");
            if find_chars(chars.as_slice(), version.as_slice()).is_none() {
                return None;
            }
            let mut out = String::new();
            out.append("HTTP ");
            out.append(name);
            out.append(" ");
            push_clipped(&mut out, second_word_of(chars.as_slice()), 80);
            assert(out@ =~= "HTTP "@ + name@ + " "@ + text::clipped(text::second_word(line@), 80));
            return Some(out);
        }
        i += 1;
    }
    None
}

/// The value of a header in a request, whatever the case of its name.
pub fn header(text: &str, name: &str) -> (value: Option<String>)
    ensures
        text::shown(value) == header_of(text@, name@),
{
    let chars = chars_of(text);
    let wanted = lower_chars_of(chars_of(name).as_slice());
    let crlf = chars_of("\r\n");
    proof {
        reveal_strlit("\r\n");
        text::search_finds_the_first(text@, "\r\n"@, 0);
    }
    let mut rest: &[char] = match find_chars(chars.as_slice(), crlf.as_slice()) {
        Some(e) => vstd::slice::slice_subrange(chars.as_slice(), e + 2, chars.len()),
        None => {
            return None;
        },
    };
    assert(rest@ == text@.skip(text::first_occurrence(text@, "\r\n"@)->0 + 2));
    let mut left: usize = HEADER_LINES;
    while left > 0
        invariant
            crlf@ == "\r\n"@,
            "\r\n"@.len() == 2,
            wanted@ == text::lower(name@),
            header_of(text@, name@) == header_among(rest@, name@, left as nat),
        decreases left,
    {
        proof {
            text::search_finds_the_first(rest@, "\r\n"@, 0);
        }
        let end = find_chars(rest, crlf.as_slice());
        let line: &[char] = match end {
            Some(e) => vstd::slice::slice_subrange(rest, 0, e),
            None => rest,
        };
        if line.len() == 0 {
            return None;
        }
        let colon: usize = match find_char(line, ':') {
            Some(colon) => colon,
            None => {
                return None;
            },
        };
        let key = vstd::slice::slice_subrange(line, 0, colon);
        assert(key@ == line@.take(colon as int));
        if same_chars(lower_chars_of(trim_of(key)).as_slice(), wanted.as_slice()) {
            let after = vstd::slice::slice_subrange(line, colon + 1, line.len());
            assert(after@ == line@.skip(colon + 1));
            return Some(text_of(trim_of(after)));
        }
        match end {
            Some(e) => {
                let ghost before = rest@;
                rest = vstd::slice::slice_subrange(rest, e + 2, rest.len());
                assert(rest@ == before.skip(e + 2));
            },
            None => {
                return None;
            },
        }
        left -= 1;
    }
    None
}

/// Adds the host and the user agent to what is said of a request.
pub fn add_headers(request: &str, text: &str) -> (out: String)
    ensures
        out@ == with_headers(request@, text@),
{
    let mut out = String::new();
    out.append(request);
    if let Some(host) = header(text, "host") {
        out.append(" host=");
        out.append(host.as_str());
    }
    if let Some(agent) = header(text, "user-agent") {
        out.append(" ua=");
        push_clipped(&mut out, chars_of(agent.as_str()).as_slice(), 60);
    }
    assert(out@ =~= with_headers(request@, text@));
    out
}

/// What is said of the first line of a message.
pub fn first_line(head: &[u8]) -> (out: Option<String>)
    ensures
        text::shown(out) == first_line_of(head@),
{
    let mut crlf: Vec<u8> = Vec::new();
    crlf.push(0x0d);
    crlf.push(0x0a);
    let mut lf: Vec<u8> = Vec::new();
    lf.push(0x0a);
    assert(crlf@ =~= seq![0x0du8, 0x0au8]);
    assert(lf@ =~= seq![0x0au8]);
    let end: usize = match find(head, crlf.as_slice()) {
        Some(e) => e,
        None => match find(head, lf.as_slice()) {
            Some(e) => e,
            None => {
                return None;
            },
        },
    };
    let line = vstd::slice::slice_subrange(head, 0, end);
    assert(line@ == head@.take(end as int));
    match utf8(line) {
        Some(line) => request(line),
        None => None,
    }
}

/// The line for a message that begins with a request line.
pub fn http(d: &[u8]) -> (out: Option<String>)
    ensures
        text::shown(out) == http_of(d@),
        valid_utf8(head_of(d@)) ==> text::shown(out) == plain_of(d@),
{
    let n: usize = if d.len() < HEAD_LEN { d.len() } else { HEAD_LEN };
    let head = vstd::slice::slice_subrange(d, 0, n);
    assert(head@ == head_of(d@));
    match first_line(head) {
        Some(request) => {
            let text = lossy(head);
            Some(add_headers(request.as_str(), text.as_str()))
        },
        None => None,
    }
}

} // verus!
