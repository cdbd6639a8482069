//! What holds of what no protocol claims.
use super::other;
use super::requests;
use super::tls;
use crate::queries;
use vstd::prelude::*;

verus! {

/// A byte that ends a line.
pub open spec fn ends_line(b: u8) -> bool {
    b == 0x0d || b == 0x0a
}

proof fn a_line_is_cut(b: Seq<u8>, e: int)
    requires
        0 <= e <= b.len(),
        forall|i: int| 0 <= i < e ==> !ends_line(#[trigger] b[i]),
        e < b.len() ==> ends_line(b[e]),
    ensures
        other::line(b) == b.take(e),
    decreases b.len(),
{
    if e > 0 {
        let rest = b.drop_first();
        assert(!ends_line(b[0]));
        assert forall|i: int| 0 <= i < e - 1 implies !ends_line(#[trigger] rest[i]) by {
            assert(rest[i] == b[i + 1]);
        }
        a_line_is_cut(rest, e - 1);
        assert(b.take(e) =~= seq![b[0]] + rest.take(e - 1));
    } else {
        assert(b.take(0) =~= Seq::empty());
    }
}

/// An SSH banner is shown up to the end of its line, and up to 64 bytes of it.
pub proof fn an_ssh_banner_is_shown(d: Seq<u8>, e: int)
    requires
        4 <= e <= d.len(),
        d[0] == 0x53 && d[1] == 0x53 && d[2] == 0x48 && d[3] == 0x2d,
        forall|i: int| 0 <= i < e ==> !ends_line(#[trigger] d[i]),
        e == 64 || e < 64 && (e == d.len() || ends_line(d[e])),
    ensures
        super::guess(d) == Some("SSH banner "@ + Seq::new(e as nat, |i: int| d[i] as char)),
{
    let front = other::sample(d, 64);
    if e < 64 && e < d.len() {
        assert(front[e] == d[e]);
    }
    assert forall|i: int| 0 <= i < e implies !ends_line(#[trigger] front[i]) by {
        assert(front[i] == d[i]);
    }
    a_line_is_cut(front, e);
    let shown = Seq::new(e as nat, |i: int| d[i] as char);
    assert(super::dns::as_chars(front.take(e)) =~= shown);
    requests::a_request_begins_with_a_method(d);
    queries::nothing_else_is_a_query(d);
    assert(tls::tls_of(d) is None);
}

/// The white space that is passed over.
pub open spec fn is_blank(b: u8) -> bool {
    b == 0x20 || b == 0x09 || b == 0x0a || b == 0x0c || b == 0x0d
}

proof fn blanks_are_passed(blanks: Seq<u8>, rest: Seq<u8>)
    requires
        forall|i: int| 0 <= i < blanks.len() ==> is_blank(#[trigger] blanks[i]),
        rest.len() > 0 ==> !is_blank(rest[0]),
    ensures
        other::first_solid(blanks + rest) == if rest.len() > 0 {
            Some(rest[0])
        } else {
            None
        },
    decreases blanks.len(),
{
    let d = blanks + rest;
    if blanks.len() > 0 {
        let more = blanks.drop_first();
        assert(is_blank(blanks[0]));
        assert forall|i: int| 0 <= i < more.len() implies is_blank(#[trigger] more[i]) by {
            assert(more[i] == blanks[i + 1]);
        }
        assert(d.drop_first() =~= more + rest);
        blanks_are_passed(more, rest);
    } else {
        assert(d =~= rest);
    }
}

/// What opens with a bracket or a brace, behind white space or not, is JSON, and
/// what opens with an angle bracket is markup, unless it happens to be a DNS query.
pub proof fn brackets_tell(blanks: Seq<u8>, b: u8, rest: Seq<u8>)
    requires
        forall|i: int| 0 <= i < blanks.len() ==> is_blank(#[trigger] blanks[i]),
        super::dns::dns_of(blanks + seq![b] + rest) is None,
    ensures
        b == 0x7b || b == 0x5b ==> super::guess(blanks + seq![b] + rest) == Some("JSON-ish"@),
        b == 0x3c ==> super::guess(blanks + seq![b] + rest) == Some("XML/markup-ish"@),
{
    let d = blanks + seq![b] + rest;
    if b == 0x7b || b == 0x5b || b == 0x3c {
        assert(d =~= blanks + (seq![b] + rest));
        blanks_are_passed(blanks, seq![b] + rest);
        requests::a_request_begins_with_a_method(d);
        assert(blanks.len() > 0 ==> d[0] == blanks[0] && is_blank(blanks[0]));
        assert(blanks.len() == 0 ==> d[0] == b);
        assert(tls::tls_of(d) is None);
    }
}

/// What passes for text: the visible characters of ascii, space, tab and line ends.
pub open spec fn is_text(b: u8) -> bool {
    0x20 <= b <= 0x7e || b == 0x09 || b == 0x0a || b == 0x0d
}

proof fn text_is_counted(b: Seq<u8>)
    ensures
        other::plain_count(b) == b.filter(|x: u8| is_text(x)).len(),
    decreases b.len(),
{
    reveal(Seq::filter);
    if b.len() > 0 {
        text_is_counted(b.drop_last());
    }
}

/// What is left is text if nine bytes in ten of the first 512 pass for it, and
/// nothing is said of white space alone or of what is less than that.
pub proof fn nine_in_ten_make_text(blanks: Seq<u8>, rest: Seq<u8>)
    requires
        forall|i: int| 0 <= i < blanks.len() ==> is_blank(#[trigger] blanks[i]),
        rest.len() > 0 ==> !is_blank(rest[0]) && rest[0] != 0x7b && rest[0] != 0x5b && rest[0]
            != 0x3c,
        ({
            let d = blanks + rest;
            !(d.len() >= 4 && d[0] == 0x53 && d[1] == 0x53 && d[2] == 0x48 && d[3] == 0x2d)
        }),
    ensures
        ({
            let d = blanks + rest;
            let n = if d.len() < 512 {
                d.len() as int
            } else {
                512
            };
            other::other_of(d) == if rest.len() > 0 && d.take(n).filter(|x: u8| is_text(x)).len() * 10
                >= n * 9 {
                Some("text/ascii"@)
            } else {
                None
            }
        }),
{
    let d = blanks + rest;
    let n = if d.len() < 512 {
        d.len() as int
    } else {
        512
    };
    blanks_are_passed(blanks, rest);
    text_is_counted(d.take(n));
    assert(d.take(d.len() as int) =~= d);
    assert(other::sample(d, 512) == d.take(n));
}

/// Each recogniser is asked in turn, and what the first of them says is the guess:
/// TLS before HTTP, HTTP before DNS, and DNS before what is left.
pub proof fn the_first_to_know_is_heard(d: Seq<u8>)
    requires
        d.len() > 0,
    ensures
        tls::tls_of(d) is Some ==> super::guess(d) == tls::tls_of(d),
        super::guess(d) is None ==> tls::tls_of(d) is None && super::http::http_of(d) is None
            && super::dns::dns_of(d) is None && other::other_of(d) is None,
        tls::tls_of(d) is None && super::http::http_of(d) is Some ==> super::guess(d)
            == super::http::http_of(d),
        tls::tls_of(d) is None && super::http::http_of(d) is None && super::dns::dns_of(d) is Some
            ==> super::guess(d) == super::dns::dns_of(d),
        tls::tls_of(d) is None && super::http::http_of(d) is None && super::dns::dns_of(d) is None
            ==> super::guess(d) == other::other_of(d),
        super::guess(Seq::<u8>::empty()) is None,
{
}

} // verus!
