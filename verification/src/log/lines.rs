//! What the console says.
use super::{ConsoleMode, Dir};
use crate::hexdump;
use crate::hexdump::{ascii_line, render};
use crate::stream;
use crate::stream::{human, Limits, Summary};
use crate::text;
use crate::text::push_decimal;
use crate::ts;
use crate::ts::clock;
use vstd::prelude::*;

verus! {

/// The time in front of a line.
pub open spec fn gutter_of(now: u64) -> Seq<char> {
    "["@ + ts::clock_text(now as int) + "] "@
}

/// A number with a hash sign in front.
pub open spec fn conn_of(conn: u64) -> Seq<char> {
    "#"@ + text::decimal(conn as nat)
}

fn start(now: u64) -> (out: String)
    ensures
        out@ == gutter_of(now),
{
    let mut out = String::new();
    out.append("[");
    out.append(clock(now).as_str());
    out.append("] ");
    assert(out@ =~= gutter_of(now));
    out
}

fn push_conn(out: &mut String, conn: u64)
    ensures
        final(out)@ == old(out)@ + conn_of(conn),
{
    out.append("#");
    push_decimal(out, conn);
    assert(out@ =~= old(out)@ + conn_of(conn));
}

/// A listener has come up.
pub open spec fn listen_of(
    now: u64,
    proto: Seq<char>,
    name: Seq<char>,
    local: Seq<char>,
    profile: Seq<char>,
) -> Seq<char> {
    gutter_of(now) + "listen  "@ + proto + "/"@ + local + "  listener="@ + name + " profile="@
        + profile
}

/// A listener has come up.
pub fn listen(now: u64, proto: &str, name: &str, local: &str, profile: &str) -> (out: String)
    ensures
        out@ == listen_of(now, proto@, name@, local@, profile@),
{
    let mut out = start(now);
    out.append("listen  ");
    out.append(proto);
    out.append("/");
    out.append(local);
    out.append("  listener=");
    out.append(name);
    out.append(" profile=");
    out.append(profile);
    assert(out@ =~= listen_of(now, proto@, name@, local@, profile@));
    out
}

/// A connection was opened. Where it was redirected, the destination that the peer
/// wanted stands in place of the local address.
pub open spec fn open_of(
    now: u64,
    conn: u64,
    proto: Seq<char>,
    peer: Seq<char>,
    local: Seq<char>,
    orig: Option<Seq<char>>,
) -> Seq<char> {
    gutter_of(now) + "open    "@ + conn_of(conn) + " "@ + proto + " "@ + peer + match orig {
        Some(o) => " WANTED "@ + o,
        None => " -> "@ + local,
    }
}

/// A connection was opened.
pub fn open(now: u64, conn: u64, proto: &str, peer: &str, local: &str, orig: Option<&str>) -> (out:
    String)
    ensures
        out@ == open_of(now, conn, proto@, peer@, local@, text::shown_str(orig)),
{
    let mut out = start(now);
    out.append("open    ");
    push_conn(&mut out, conn);
    out.append(" ");
    out.append(proto);
    out.append(" ");
    out.append(peer);
    match orig {
        Some(o) => {
            out.append(" WANTED ");
            out.append(o);
        },
        None => {
            out.append(" -> ");
            out.append(local);
        },
    }
    assert(out@ =~= open_of(now, conn, proto@, peer@, local@, text::shown_str(orig)));
    out
}

/// The rule that answered and what the bytes look like.
pub open spec fn tags_of(rule: Option<Seq<char>>, hint: Option<Seq<char>>) -> Seq<char> {
    (match rule {
        Some(r) => " ["@ + r + "]"@,
        None => Seq::empty(),
    }) + (match hint {
        Some(h) => "  "@ + h,
        None => Seq::empty(),
    })
}

/// Some bytes went one way or the other.
pub open spec fn data_head_of(
    now: u64,
    dir: Dir,
    conn: u64,
    proto: Seq<char>,
    peer: Seq<char>,
    len: nat,
    tags: Seq<char>,
) -> Seq<char> {
    gutter_of(now) + dir.shape() + " "@ + conn_of(conn) + " "@ + proto + " "@ + peer + " "@
        + text::decimal(len) + " bytes"@ + tags
}

/// The bytes themselves, as the console mode shows them.
pub open spec fn data_body_of(mode: ConsoleMode, data: Seq<u8>, max: int) -> Seq<char> {
    match mode {
        ConsoleMode::Summary | ConsoleMode::Off => Seq::empty(),
        ConsoleMode::Ascii => "\n  "@ + hexdump::ascii_line_of(data, max),
        ConsoleMode::Hex => "\n"@ + text::without_newlines(
            hexdump::render_of(data, max, "  "@),
        ),
    }
}

/// Some bytes went one way or the other: the head line and the bytes.
pub fn data(
    now: u64,
    dir: Dir,
    conn: u64,
    proto: &str,
    peer: &str,
    bytes: &[u8],
    rule: Option<&str>,
    hint: Option<&str>,
    mode: ConsoleMode,
    max: usize,
) -> (out: String)
    ensures
        out@ == data_head_of(
            now,
            dir,
            conn,
            proto@,
            peer@,
            bytes@.len(),
            tags_of(text::shown_str(rule), text::shown_str(hint)),
        ) + data_body_of(mode, bytes@, max as int),
{
    let mut out = start(now);
    out.append(dir.arrow());
    out.append(" ");
    push_conn(&mut out, conn);
    out.append(" ");
    out.append(proto);
    out.append(" ");
    out.append(peer);
    out.append(" ");
    push_decimal(&mut out, bytes.len() as u64);
    out.append(" bytes");
    let ghost before = out@;
    if let Some(r) = rule {
        out.append(" [");
        out.append(r);
        out.append("]");
    }
    if let Some(h) = hint {
        out.append("  ");
        out.append(h);
    }
    let ghost tags = tags_of(text::shown_str(rule), text::shown_str(hint));
    assert(out@ =~= before + tags);
    let ghost head = data_head_of(now, dir, conn, proto@, peer@, bytes@.len(), tags);
    assert(out@ =~= head);
    match mode {
        ConsoleMode::Summary | ConsoleMode::Off => {},
        ConsoleMode::Ascii => {
            out.append("\n  ");
            out.append(ascii_line(bytes, max).as_str());
        },
        ConsoleMode::Hex => {
            out.append("\n");
            text::push_without_newlines(&mut out, render(bytes, max, "  ").as_str());
        },
    }
    assert(out@ =~= head + data_body_of(mode, bytes@, max as int));
    out
}

/// A connection was closed.
pub open spec fn close_of(
    now: u64,
    conn: u64,
    proto: Seq<char>,
    peer: Seq<char>,
    why: Seq<char>,
) -> Seq<char> {
    gutter_of(now) + "close   "@ + conn_of(conn) + " "@ + proto + " "@ + peer + " ("@ + why + ")"@
}

/// A connection was closed.
pub fn close(now: u64, conn: u64, proto: &str, peer: &str, why: &str) -> (out: String)
    ensures
        out@ == close_of(now, conn, proto@, peer@, why@),
{
    let mut out = start(now);
    out.append("close   ");
    push_conn(&mut out, conn);
    out.append(" ");
    out.append(proto);
    out.append(" ");
    out.append(peer);
    out.append(" (");
    out.append(why);
    out.append(")");
    assert(out@ =~= close_of(now, conn, proto@, peer@, why@));
    out
}

/// A warning; the name of a listener already carries its transport.
pub open spec fn warning_of(now: u64, name: Seq<char>, msg: Seq<char>) -> Seq<char> {
    gutter_of(now) + "WARNING "@ + name + ": "@ + msg
}

/// A warning.
pub fn warning(now: u64, name: &str, msg: &str) -> (out: String)
    ensures
        out@ == warning_of(now, name@, msg@),
{
    let mut out = start(now);
    out.append("WARNING ");
    out.append(name);
    out.append(": ");
    out.append(msg);
    assert(out@ =~= warning_of(now, name@, msg@));
    out
}

/// An error.
pub open spec fn error_of(now: u64, proto: Seq<char>, name: Seq<char>, msg: Seq<char>) -> Seq<char> {
    gutter_of(now) + "error   "@ + proto + " "@ + name + " "@ + msg
}

/// An error.
pub fn error(now: u64, proto: &str, name: &str, msg: &str) -> (out: String)
    ensures
        out@ == error_of(now, proto@, name@, msg@),
{
    let mut out = start(now);
    out.append("error   ");
    out.append(proto);
    out.append(" ");
    out.append(name);
    out.append(" ");
    out.append(msg);
    assert(out@ =~= error_of(now, proto@, name@, msg@));
    out
}

/// The cap of the run was hit.
pub open spec fn limit_of(now: u64, cap: nat) -> Seq<char> {
    gutter_of(now) + "LIMIT   run cap of "@ + stream::human_of(cap)
        + " reached: disk writes stopped, console continues. raise it with --max-run-bytes (0 disables)"@
}

/// The cap of the run was hit.
pub fn limit(now: u64, cap: u64) -> (out: String)
    ensures
        out@ == limit_of(now, cap as nat),
{
    let mut out = start(now);
    out.append("LIMIT   run cap of ");
    out.append(human(cap).as_str());
    out.append(
        " reached: disk writes stopped, console continues. raise it with --max-run-bytes (0 disables)",
    );
    assert(out@ =~= limit_of(now, cap as nat));
    out
}

/// What is kept of a stream over its cap.
pub open spec fn policy_of(limits: Limits) -> Seq<char> {
    "keeping the first "@ + stream::human_of(limits.head as nat) + (if limits.tail == 0 {
        Seq::empty()
    } else {
        " and last "@ + stream::human_of(limits.tail as nat)
    })
}

/// A stream has outgrown its head: what follows is kept only as far as its tail
/// reaches.
pub open spec fn exceeded_of(now: u64, conn: u64, dir: Dir, limits: Limits) -> Seq<char> {
    gutter_of(now) + "TRUNC   "@ + conn_of(conn) + " "@ + dir.name()
        + " exceeded the stream cap, "@ + policy_of(limits)
}

/// A stream has outgrown its head.
pub fn exceeded(now: u64, conn: u64, dir: Dir, limits: Limits) -> (out: String)
    ensures
        out@ == exceeded_of(now, conn, dir, limits),
{
    let mut out = start(now);
    out.append("TRUNC   ");
    push_conn(&mut out, conn);
    out.append(" ");
    out.append(dir.tag());
    out.append(" exceeded the stream cap, ");
    let ghost before = out@;
    out.append("keeping the first ");
    out.append(human(limits.head).as_str());
    if limits.tail != 0 {
        out.append(" and last ");
        out.append(human(limits.tail as u64).as_str());
    }
    assert(out@ =~= before + policy_of(limits));
    assert(out@ =~= exceeded_of(now, conn, dir, limits));
    out
}

/// What is missing of a stream, and where its end is.
pub open spec fn gap_of(dir: Dir, sum: Summary) -> Seq<char> {
    dir.name() + " truncated: "@ + stream::human_of((sum.head + sum.tail) as nat) + " of "@
        + stream::human_of(sum.total as nat) + " kept ("@ + stream::human_of(sum.head as nat)
        + " head + "@ + stream::human_of(sum.tail as nat) + " tail), "@ + stream::human_of(
        sum.dropped as nat,
    ) + " dropped"@ + (match sum.tail_path {
        Some(path) => ", tail in "@ + path@,
        None => Seq::empty(),
    })
}

/// What is missing of a stream, if anything is.
pub fn gap(dir: Dir, sum: &Summary) -> (note: Option<String>)
    requires
        sum.head + sum.tail <= u64::MAX,
    ensures
        match note {
            Some(note) => sum.dropped > 0 && note@ == gap_of(dir, *sum),
            None => sum.dropped == 0,
        },
{
    if sum.dropped == 0 {
        return None;
    }
    let mut out = String::new();
    out.append(dir.tag());
    out.append(" truncated: ");
    out.append(human(sum.head + sum.tail as u64).as_str());
    out.append(" of ");
    out.append(human(sum.total).as_str());
    out.append(" kept (");
    out.append(human(sum.head).as_str());
    out.append(" head + ");
    out.append(human(sum.tail as u64).as_str());
    out.append(" tail), ");
    out.append(human(sum.dropped).as_str());
    out.append(" dropped");
    if let Some(path) = &sum.tail_path {
        out.append(", tail in ");
        out.append(path.as_str());
    }
    assert(out@ =~= gap_of(dir, *sum));
    Some(out)
}

/// A stream was closed with something missing.
pub open spec fn truncated_of(now: u64, conn: u64, note: Seq<char>) -> Seq<char> {
    gutter_of(now) + "TRUNC   "@ + conn_of(conn) + " "@ + note
}

/// A stream was closed with something missing.
pub fn truncated(now: u64, conn: u64, note: &str) -> (out: String)
    ensures
        out@ == truncated_of(now, conn, note@),
{
    let mut out = start(now);
    out.append("TRUNC   ");
    push_conn(&mut out, conn);
    out.append(" ");
    out.append(note);
    assert(out@ =~= truncated_of(now, conn, note@));
    out
}

/// What is missing of a stream that was still open at the end of the run.
pub open spec fn open_gap_of(dir: Dir, sum: Summary) -> Seq<char> {
    dir.name() + " truncated: "@ + stream::human_of((sum.head + sum.tail) as nat) + " of "@
        + stream::human_of(sum.total as nat) + " kept, "@ + stream::human_of(sum.dropped as nat)
        + " dropped"@
}

/// What is missing of a stream that was still open at the end of the run, if
/// anything is.
pub fn open_gap(dir: Dir, sum: &Summary) -> (note: Option<String>)
    requires
        sum.head + sum.tail <= u64::MAX,
    ensures
        match note {
            Some(note) => sum.dropped > 0 && note@ == open_gap_of(dir, *sum),
            None => sum.dropped == 0,
        },
{
    if sum.dropped == 0 {
        return None;
    }
    let mut note = String::new();
    note.append(dir.tag());
    note.append(" truncated: ");
    note.append(human(sum.head + sum.tail as u64).as_str());
    note.append(" of ");
    note.append(human(sum.total).as_str());
    note.append(" kept, ");
    note.append(human(sum.dropped).as_str());
    note.append(" dropped");
    assert(note@ =~= open_gap_of(dir, *sum));
    Some(note)
}

} // verus!
