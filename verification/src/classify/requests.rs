//! What holds of every request that goes over the wire.
use super::classify;
use super::http;
use super::laws;
use super::tls;
use crate::bytes;
use crate::text;
use vstd::prelude::*;
use vstd::utf8::*;

verus! {

/// The methods of requests.
pub open spec fn is_method(m: Seq<char>) -> bool {
    m == "GET"@ || m == "POST"@ || m == "PUT"@ || m == "HEAD"@ || m == "DELETE"@ || m == "OPTIONS"@
        || m == "PATCH"@ || m == "TRACE"@ || m == "CONNECT"@
}

proof fn a_method_is_known(m: Seq<char>) -> (k: int)
    requires
        is_method(m),
    ensures
        0 <= k < http::methods().len(),
        http::methods()[k] == m,
{
    let all = http::methods();
    assert(all[0] == "GET"@ && all[1] == "POST"@ && all[2] == "PUT"@ && all[3] == "HEAD"@);
    assert(all[4] == "DELETE"@ && all[5] == "OPTIONS"@ && all[6] == "PATCH"@);
    assert(all[7] == "TRACE"@ && all[8] == "CONNECT"@);
    choose|k: int| 0 <= k < http::methods().len() && http::methods()[k] == m
}

/// Whatever its method, a request line is reported with the method and at most 80
/// characters of the target.
pub proof fn a_request_line_is_reported(m: Seq<char>, target: Seq<char>, version: Seq<char>)
    requires
        is_method(m),
        laws::is_word(target),
    ensures
        http::request_of(m + seq![' '] + target + " HTTP/"@ + version) == Some(
            "HTTP "@ + m + " "@ + target.take(
                if target.len() > 80 {
                    80
                } else {
                    target.len() as int
                },
            ),
        ),
{
    let k = a_method_is_known(m);
    laws::a_request_is_reported(k, target, version);
    assert(target.take(target.len() as int) =~= target);
}

proof fn only_methods_begin_a_request(line: Seq<char>, i: int)
    requires
        0 <= i,
    ensures
        http::method_from(line, i) matches Some(m) ==> is_method(m) && text::occurs_at(
            line,
            m.push(' '),
            0,
        ),
    decreases http::methods().len() - i,
{
    if i < http::methods().len() && !text::occurs_at(line, http::methods()[i].push(' '), 0) {
        only_methods_begin_a_request(line, i + 1);
    }
}

/// A line is reported as a request only if it begins with a method and a space and
/// names the protocol.
pub proof fn nothing_else_is_a_request(line: Seq<char>)
    ensures
        http::request_of(line) is Some ==> {
            &&& exists|m: Seq<char>, rest: Seq<char>|
                is_method(m) && line == #[trigger] (m + seq![' '] + rest)
            &&& exists|front: Seq<char>, rest: Seq<char>|
                line == #[trigger] (front + "HTTP/"@ + rest)
        },
{
    if http::request_of(line) is Some {
        only_methods_begin_a_request(line, 0);
        let m = http::method_from(line, 0)->0;
        let n = m.len() as int + 1;
        assert(line.subrange(0, n) == m.push(' '));
        assert(line =~= line.subrange(0, n) + line.skip(n));
        assert(m.push(' ') =~= m + seq![' ']);
        assert(line == m + seq![' '] + line.skip(n));
        text::a_search_parts_the_hay(line, "HTTP/"@);
        let at = text::first_occurrence(line, "HTTP/"@)->0;
        assert(line == line.take(at) + "HTTP/"@ + line.skip(at + "HTTP/"@.len() as int));
    }
}

/// What is said of a request with a host header, one with a user agent header, one
/// with both and one with neither: each is said on its own, whether or not the
/// other is there, and of a user agent at most 60 characters.
pub proof fn each_header_is_said_on_its_own(
    request: Seq<char>,
    first: Seq<char>,
    headers: Seq<(Seq<char>, Seq<char>)>,
    body: Seq<char>,
)
    requires
        !first.contains('\r'),
        forall|i: int| 0 <= i < headers.len() ==> laws::is_header(#[trigger] headers[i]),
    ensures
        http::with_headers(
            request,
            first + "\r\n"@ + laws::header_text(headers) + "\r\n"@ + body,
        ) == request + host_part(headers) + agent_part(headers),
{
    let text = first + "\r\n"@ + laws::header_text(headers) + "\r\n"@ + body;
    laws::a_header_is_found(first, headers, body, "host"@);
    laws::a_header_is_found(first, headers, body, "user-agent"@);
    if let Some(agent) = laws::header_named(headers, "user-agent"@, 64) {
        assert(agent.take(agent.len() as int) =~= agent);
    }
    assert(http::with_headers(request, text) =~= request + host_part(headers) + agent_part(
        headers,
    ));
}

/// What is said of the first host header among the first 64 headers, if there is
/// one.
pub open spec fn host_part(headers: Seq<(Seq<char>, Seq<char>)>) -> Seq<char> {
    match laws::header_named(headers, "host"@, 64) {
        Some(host) => " host="@ + host,
        None => Seq::empty(),
    }
}

/// What is said of the first user agent header among the first 64 headers, if there
/// is one.
pub open spec fn agent_part(headers: Seq<(Seq<char>, Seq<char>)>) -> Seq<char> {
    match laws::header_named(headers, "user-agent"@, 64) {
        Some(agent) => " ua="@ + agent.take(
            if agent.len() > 60 {
                60
            } else {
                agent.len() as int
            },
        ),
        None => Seq::empty(),
    }
}

/// The first header of a name is the one that counts, in any case of the name and
/// whatever headers of other names stand in front of it: the value is what stands
/// behind the colon, without the white space around it.
pub proof fn the_first_of_a_name_counts(
    front: Seq<(Seq<char>, Seq<char>)>,
    key: Seq<char>,
    gap: Seq<char>,
    value: Seq<char>,
    end: Seq<char>,
    back: Seq<(Seq<char>, Seq<char>)>,
    name: Seq<char>,
    left: nat,
)
    requires
        front.len() < left,
        forall|i: int|
            0 <= i < front.len() ==> text::lower(text::trim((#[trigger] front[i]).0)) != text::lower(
                name,
            ),
        text::lower(key) == text::lower(name),
        key.len() > 0 ==> !text::is_white_space(key[0]) && !text::is_white_space(key.last()),
        text::all_white(gap),
        text::all_white(end),
        value.len() > 0 ==> !text::is_white_space(value[0]) && !text::is_white_space(value.last()),
    ensures
        laws::header_named(front + seq![(key, gap + value + end)] + back, name, left) == Some(value),
    decreases front.len(),
{
    let one = (key, gap + value + end);
    let all = front + seq![one] + back;
    if front.len() == 0 {
        assert(all[0] == one);
        let none = Seq::<char>::empty();
        text::trimming_leaves_the_middle(none, key, none);
        assert(none + key + none =~= key);
        text::trimming_leaves_the_middle(gap, value, end);
    } else {
        assert(all[0] == front[0]);
        let rest = front.skip(1);
        assert(all.skip(1) =~= rest + seq![one] + back);
        assert forall|i: int| 0 <= i < rest.len() implies text::lower(
            text::trim((#[trigger] rest[i]).0),
        ) != text::lower(name) by {
            assert(rest[i] == front[i + 1]);
        }
        the_first_of_a_name_counts(rest, key, gap, value, end, back, name, (left - 1) as nat);
    }
}

/// Where there is no header of a name among those that are looked at, none is found.
pub proof fn no_header_is_made_up(headers: Seq<(Seq<char>, Seq<char>)>, name: Seq<char>, left: nat)
    requires
        forall|i: int|
            0 <= i < headers.len() && i < left ==> text::lower(
                text::trim((#[trigger] headers[i]).0),
            ) != text::lower(name),
    ensures
        laws::header_named(headers, name, left) is None,
    decreases headers.len(),
{
    if headers.len() > 0 && left > 0 {
        let rest = headers.skip(1);
        assert(text::lower(text::trim(headers[0].0)) != text::lower(name));
        assert forall|i: int| 0 <= i < rest.len() && i < left - 1 implies text::lower(
            text::trim((#[trigger] rest[i]).0),
        ) != text::lower(name) by {
            assert(rest[i] == headers[i + 1]);
        }
        no_header_is_made_up(rest, name, (left - 1) as nat);
    }
}

/// The first 8192 bytes of a message are looked at, and no byte behind them.
pub proof fn the_front_is_looked_at(d: Seq<u8>)
    ensures
        d.len() <= 8192 ==> http::head_of(d) == d,
        d.len() >= 8192 ==> http::head_of(d) == d.take(8192),
{
    if d.len() == 8192 {
        assert(d.take(8192) =~= d);
    }
}

/// The first line of a message ends at its first CR LF, and at its first LF where
/// there is no CR LF.
pub proof fn the_first_line_ends_at_its_end(line: Seq<u8>, rest: Seq<u8>)
    ensures
        !line.contains(0x0d) ==> http::line_end(line + seq![0x0du8, 0x0a] + rest) == Some(
            line.len() as int,
        ),
        !line.contains(0x0a) && !(line + seq![0x0au8] + rest).contains(0x0d) ==> http::line_end(
            line + seq![0x0au8] + rest,
        ) == Some(line.len() as int),
{
    let crlf = seq![0x0du8, 0x0a];
    let lf = seq![0x0au8];
    if !line.contains(0x0d) {
        text::a_needle_is_found(line, crlf, rest);
    }
    let d = line + lf + rest;
    if !line.contains(0x0a) && !d.contains(0x0d) {
        text::a_needle_is_found(line, lf, rest);
        text::search_finds_the_first(d, crlf, 0);
        if let Some(i) = text::first_occurrence(d, crlf) {
            assert(d.subrange(i, i + 2)[0] == d[i]);
            assert(d.contains(d[i]));
        }
    }
}

proof fn no_method_opens_a_record(line: Seq<u8>, m: Seq<char>, rest: Seq<char>)
    requires
        valid_utf8(line),
        is_method(m),
        decode_utf8(line) == m + rest,
    ensures
        line.len() > 0,
        line[0] != 0x16,
{
    reveal_strlit("GET");
    reveal_strlit("POST");
    reveal_strlit("PUT");
    reveal_strlit("HEAD");
    reveal_strlit("DELETE");
    reveal_strlit("OPTIONS");
    reveal_strlit("PATCH");
    reveal_strlit("TRACE");
    reveal_strlit("CONNECT");
    assert((m + rest)[0] == m[0]);
    if line.len() > 0 && line[0] == 0x16 {
        let b = line[0];
        assert(b & 0x80 == 0) by (bit_vector)
            requires
                b == 0x16u8,
        ;
        assert(b & 0x7f == 0x16) by (bit_vector)
            requires
                b == 0x16u8,
        ;
        assert(decode_first_scalar(line) == 0x16u32);
        assert(decode_utf8(line)[0] == decode_first_scalar(line) as char);
    }
}

/// Whether a message is a request whose parts are these, as far as the first 8192
/// bytes go, which have that text.
pub open spec fn is_request(
    d: Seq<u8>,
    text: Seq<char>,
    line: Seq<u8>,
    m: Seq<char>,
    target: Seq<char>,
    version: Seq<char>,
    headers: Seq<(Seq<char>, Seq<char>)>,
    body: Seq<char>,
) -> bool {
    &&& line.len() + 2 <= 8192
    &&& !line.contains(0x0d)
    &&& line.len() + 2 <= d.len() && d.take(line.len() as int + 2) == line + seq![0x0du8, 0x0a]
    &&& valid_utf8(line)
    &&& decode_utf8(line) == m + seq![' '] + target + " HTTP/"@ + version
    &&& is_method(m)
    &&& laws::is_word(target)
    &&& !version.contains('\r')
    &&& forall|i: int| 0 <= i < headers.len() ==> laws::is_header(#[trigger] headers[i])
    &&& text == decode_utf8(line) + "\r\n"@ + laws::header_text(headers) + "\r\n"@ + body
}

/// The line for a request: the method, at most 80 characters of the target, the
/// host and at most 60 characters of the user agent.
pub open spec fn request_line(
    m: Seq<char>,
    target: Seq<char>,
    headers: Seq<(Seq<char>, Seq<char>)>,
) -> Seq<char> {
    "HTTP "@ + m + " "@ + target.take(
        if target.len() > 80 {
            80
        } else {
            target.len() as int
        },
    ) + host_part(headers) + agent_part(headers)
}

#[verifier::rlimit(50)]
proof fn a_request_is_read(
    d: Seq<u8>,
    text: Seq<char>,
    line: Seq<u8>,
    m: Seq<char>,
    target: Seq<char>,
    version: Seq<char>,
    headers: Seq<(Seq<char>, Seq<char>)>,
    body: Seq<char>,
)
    requires
        is_request(d, text, line, m, target, version, headers, body),
    ensures
        tls::tls_of(d) is None,
        http::first_line_of(http::head_of(d)) matches Some(request) && http::with_headers(
            request,
            text,
        ) == request_line(m, target, headers),
{
    let crlf = seq![0x0du8, 0x0a];
    let head = http::head_of(d);
    let first = decode_utf8(line);
    let n = line.len() as int;
    the_front_is_looked_at(d);
    assert(d.take(d.len() as int) =~= d);
    let seen = head.skip(n + 2);
    assert(head.take(n + 2) =~= d.take(n + 2));
    assert(head =~= head.take(n + 2) + seen);
    assert(head == line + crlf + seen);
    the_first_line_ends_at_its_end(line, seen);
    assert(head.take(n) =~= line);
    a_request_line_is_reported(m, target, version);
    let request = http::request_of(first)->0;
    assert forall|i: int| 0 <= i < first.len() implies first[i] != '\r' by {
        methods_have_no_line_end(m);
        reveal_strlit(" HTTP/");
        let a = m.len() as int;
        let b = a + 1 + target.len();
        if i < a {
            assert(first[i] == m[i]);
        } else if i == a {
        } else if i < b {
            assert(first[i] == target[i - a - 1]);
            assert(!text::is_white_space(target[i - a - 1]));
        } else if i < b + 6 {
            assert(first[i] == " HTTP/"@[i - b]);
        } else {
            assert(first[i] == version[i - b - 6]);
            assert(version.contains(version[i - b - 6]));
        }
    }
    each_header_is_said_on_its_own(request, first, headers, body);
    assert(first =~= m + (seq![' '] + target + " HTTP/"@ + version));
    no_method_opens_a_record(line, m, seq![' '] + target + " HTTP/"@ + version);
    assert(d[0] == d.take(n + 2)[0]);
}

/// A request is reported with its method, at most 80 characters of its target, the
/// host, and at most 60 characters of the user agent: the host whenever there is a
/// host header, the user agent whenever there is one, and neither for want of the
/// other.
pub proof fn a_request_is_named(
    d: Seq<u8>,
    line: Seq<u8>,
    m: Seq<char>,
    target: Seq<char>,
    version: Seq<char>,
    headers: Seq<(Seq<char>, Seq<char>)>,
    body: Seq<char>,
)
    requires
        is_request(
            d,
            text::utf8_lossy(
                d.take(
                    if d.len() > 8192 {
                        8192
                    } else {
                        d.len() as int
                    },
                ),
            ),
            line,
            m,
            target,
            version,
            headers,
            body,
        ),
    ensures
        super::guess(d) == Some(request_line(m, target, headers)),
{
    the_front_is_looked_at(d);
    assert(d.take(d.len() as int) =~= d);
    a_request_is_read(d, text::utf8_lossy(http::head_of(d)), line, m, target, version, headers, body);
}

/// So is every request in valid UTF-8 that `classify` is given.
pub proof fn a_request_is_classified(
    d: &[u8],
    out: Option<String>,
    line: Seq<u8>,
    m: Seq<char>,
    target: Seq<char>,
    version: Seq<char>,
    headers: Seq<(Seq<char>, Seq<char>)>,
    body: Seq<char>,
)
    requires
        call_ensures(classify, (d,), out),
        d@.len() <= 8192,
        valid_utf8(d@),
        is_request(d@, decode_utf8(d@), line, m, target, version, headers, body),
    ensures
        out matches Some(said) && said@ == request_line(m, target, headers),
{
    the_front_is_looked_at(d@);
    a_request_is_read(d@, decode_utf8(d@), line, m, target, version, headers, body);
}

proof fn one_in_ascii(c: char)
    requires
        c <= '\u{7f}',
    ensures
        encode_scalar(c as u32) == seq![c as u8],
{
    let v = c as u32;
    char_u32_cast(c, v);
    assert(v & 0x7f == v) by (bit_vector)
        requires
            v <= 0x7f,
    ;
    assert(encode_scalar(v) =~= seq![c as u8]);
}

proof fn a_front_in_ascii(chars: Seq<char>)
    requires
        chars.len() >= 3,
        chars[0] <= '\u{7f}' && chars[1] <= '\u{7f}' && chars[2] <= '\u{7f}',
    ensures
        encode_utf8(chars).len() >= 3,
        encode_utf8(chars)[0] == chars[0] as u8,
        encode_utf8(chars)[2] == chars[2] as u8,
{
    let one = chars.drop_first();
    let two = one.drop_first();
    assert(one[0] == chars[1] && two[0] == chars[2]);
    one_in_ascii(chars[0]);
    one_in_ascii(chars[1]);
    one_in_ascii(chars[2]);
    assert(encode_utf8(chars) == seq![chars[0] as u8] + encode_utf8(one));
    assert(encode_utf8(one) == seq![chars[1] as u8] + encode_utf8(two));
    assert(encode_utf8(two) == seq![chars[2] as u8] + encode_utf8(two.drop_first()));
}

/// A message that is reported as a request begins with capital letters, the first
/// of which begins a method.
#[verifier::rlimit(50)]
pub proof fn a_request_begins_with_a_method(d: Seq<u8>)
    ensures
        http::http_of(d) is Some ==> d.len() >= 3 && 0x41 <= d[2] <= 0x5a && (d[0] == 0x43 || d[0]
            == 0x44 || d[0] == 0x47 || d[0] == 0x48 || d[0] == 0x4f || d[0] == 0x50 || d[0]
            == 0x54),
{
    let head = http::head_of(d);
    if http::http_of(d) is Some {
        let e = http::line_end(head)->0;
        let line = head.take(e);
        let chars = decode_utf8(line);
        nothing_else_is_a_request(chars);
        let (m, rest) = choose|m: Seq<char>, rest: Seq<char>|
            is_method(m) && chars == #[trigger] (m + seq![' '] + rest);
        reveal_strlit("GET");
        reveal_strlit("POST");
        reveal_strlit("PUT");
        reveal_strlit("HEAD");
        reveal_strlit("DELETE");
        reveal_strlit("OPTIONS");
        reveal_strlit("PATCH");
        reveal_strlit("TRACE");
        reveal_strlit("CONNECT");
        assert(chars[0] == m[0] && chars[1] == m[1] && chars[2] == m[2]);
        a_front_in_ascii(chars);
        decode_utf8_encode_utf8(line);
        assert(line[0] == chars[0] as u8 && line[2] == chars[2] as u8);
        text::search_finds_the_first(head, seq![0x0du8, 0x0au8], 0);
        text::search_finds_the_first(head, seq![0x0au8], 0);
        assert(line[2] == head[2] && head[2] == d[2]);
        assert(line[0] == head[0] && head[0] == d[0]);
    }
}

proof fn methods_have_no_line_end(m: Seq<char>)
    requires
        is_method(m),
    ensures
        forall|i: int| 0 <= i < m.len() ==> #[trigger] m[i] != '\r',
{
    reveal_strlit("GET");
    reveal_strlit("POST");
    reveal_strlit("PUT");
    reveal_strlit("HEAD");
    reveal_strlit("DELETE");
    reveal_strlit("OPTIONS");
    reveal_strlit("PATCH");
    reveal_strlit("TRACE");
    reveal_strlit("CONNECT");
}

/// The search for a header ends at a line without a colon: what stands in front of
/// it counts, and nothing behind it.
pub proof fn a_line_without_a_colon_ends_the_search(
    headers: Seq<(Seq<char>, Seq<char>)>,
    line: Seq<char>,
    rest: Seq<char>,
    name: Seq<char>,
    left: nat,
)
    requires
        forall|i: int| 0 <= i < headers.len() ==> laws::is_header(#[trigger] headers[i]),
        !line.contains(':'),
        !line.contains('\r'),
    ensures
        http::header_among(laws::header_text(headers) + line + "\r\n"@ + rest, name, left)
            == laws::header_named(headers, name, left),
    decreases headers.len(),
{
    reveal_strlit("\r\n");
    let crlf = "\r\n"@;
    let all = laws::header_text(headers) + line + crlf + rest;
    if headers.len() == 0 {
        assert(all =~= line + crlf + rest);
        text::a_needle_is_found(line, crlf, rest);
        assert(all.take(line.len() as int) =~= line);
        text::search_finds_the_first(line, seq![':'], 0);
        if let Some(i) = text::first_occurrence(line, seq![':']) {
            assert(line.subrange(i, i + 1)[0] == line[i]);
            assert(line.contains(line[i]));
        }
    } else {
        a_header_line_is_taken(headers, line + crlf + rest, name, left);
        let more = laws::header_text(headers.skip(1)) + (line + crlf + rest);
        assert(more =~= laws::header_text(headers.skip(1)) + line + crlf + rest);
        assert(all =~= laws::header_text(headers) + (line + crlf + rest));
        assert forall|i: int| 0 <= i < headers.skip(1).len() implies laws::is_header(
            #[trigger] headers.skip(1)[i],
        ) by {
            assert(headers.skip(1)[i] == headers[i + 1]);
        }
        if left > 0 {
            a_line_without_a_colon_ends_the_search(
                headers.skip(1),
                line,
                rest,
                name,
                (left - 1) as nat,
            );
        }
    }
}

/// A header on the last line counts though no line end follows it.
pub proof fn the_last_line_needs_no_end(
    headers: Seq<(Seq<char>, Seq<char>)>,
    last: (Seq<char>, Seq<char>),
    name: Seq<char>,
    left: nat,
)
    requires
        forall|i: int| 0 <= i < headers.len() ==> laws::is_header(#[trigger] headers[i]),
        laws::is_header(last),
    ensures
        http::header_among(
            laws::header_text(headers) + (last.0 + seq![':'] + last.1),
            name,
            left,
        ) == laws::header_named(headers.push(last), name, left),
    decreases headers.len(),
{
    reveal_strlit("\r\n");
    let crlf = "\r\n"@;
    let line = last.0 + seq![':'] + last.1;
    let all = laws::header_text(headers) + line;
    let named = headers.push(last);
    if headers.len() == 0 {
        assert(all =~= line);
        text::search_finds_the_first(line, crlf, 0);
        if let Some(i) = text::first_occurrence(line, crlf) {
            assert(line.subrange(i, i + 2)[0] == line[i]);
            if i < last.0.len() {
                assert(line[i] == last.0[i]);
                assert(last.0.contains(last.0[i]));
            } else if i > last.0.len() {
                assert(line[i] == last.1[i - last.0.len() - 1]);
                assert(last.1.contains(last.1[i - last.0.len() - 1]));
            }
        }
        text::a_needle_is_found(last.0, seq![':'], last.1);
        assert(line.take(last.0.len() as int) =~= last.0);
        assert(line.skip(last.0.len() as int + 1) =~= last.1);
        assert(named[0] == last);
        assert(named.skip(1).len() == 0);
        if left > 0 {
            assert(laws::header_named(named.skip(1), name, (left - 1) as nat) is None);
        }
    } else {
        a_header_line_is_taken(headers, line, name, left);
        assert(named[0] == headers[0]);
        assert(named.skip(1) =~= headers.skip(1).push(last));
        assert forall|i: int| 0 <= i < headers.skip(1).len() implies laws::is_header(
            #[trigger] headers.skip(1)[i],
        ) by {
            assert(headers.skip(1)[i] == headers[i + 1]);
        }
        if left > 0 {
            the_last_line_needs_no_end(headers.skip(1), last, name, (left - 1) as nat);
        }
    }
}

proof fn a_header_line_is_taken(
    headers: Seq<(Seq<char>, Seq<char>)>,
    rest: Seq<char>,
    name: Seq<char>,
    left: nat,
)
    requires
        headers.len() > 0,
        laws::is_header(headers[0]),
    ensures
        http::header_among(laws::header_text(headers) + rest, name, left) == if left == 0 {
            None
        } else if text::lower(text::trim(headers[0].0)) == text::lower(name) {
            Some(text::trim(headers[0].1))
        } else {
            http::header_among(
                laws::header_text(headers.skip(1)) + rest,
                name,
                (left - 1) as nat,
            )
        },
{
    reveal_strlit("\r\n");
    let crlf = "\r\n"@;
    let h = headers[0];
    let line = h.0 + seq![':'] + h.1;
    let more = laws::header_text(headers.skip(1)) + rest;
    let all = laws::header_text(headers) + rest;
    assert(all =~= line + crlf + more);
    assert forall|i: int| 0 <= i < line.len() implies line[i] != '\r' by {
        if i < h.0.len() {
            assert(h.0.contains(h.0[i]));
        } else if i > h.0.len() {
            assert(line[i] == h.1[i - h.0.len() - 1]);
            assert(h.1.contains(h.1[i - h.0.len() - 1]));
        }
    }
    text::a_needle_is_found(line, crlf, more);
    assert(all.take(line.len() as int) =~= line);
    assert(all.skip(line.len() as int + 2) =~= more);
    text::a_needle_is_found(h.0, seq![':'], h.1);
    assert(line.take(h.0.len() as int) =~= h.0);
    assert(line.skip(h.0.len() as int + 1) =~= h.1);
}

/// A text without a CR LF has no headers.
pub proof fn no_line_end_no_headers(text: Seq<char>, name: Seq<char>)
    requires
        !text.contains('\r'),
    ensures
        http::header_of(text, name) is None,
{
    reveal_strlit("\r\n");
    text::search_finds_the_first(text, "\r\n"@, 0);
    if let Some(i) = text::first_occurrence(text, "\r\n"@) {
        assert(text.subrange(i, i + 2)[0] == text[i]);
        assert(text.contains(text[i]));
    }
}

} // verus!
