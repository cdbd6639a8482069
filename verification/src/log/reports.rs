//! What every step of a run says, counts and keeps.
use super::budget::Verdict;
use super::event::{Event, EventModel};
use super::lines;
use super::logger;
use super::logger::{head_file, tail_file, LoggerModel, Logger, Options, RawStart, Report, Stats};
use super::table;
use super::table::{Held, HeldModel};
use super::{ConsoleMode, Dir};
use crate::classify;
use crate::encoding;
use crate::hexdump;
use crate::stream;
use crate::stream::{Limits, Stream, Summary};
use crate::text;
use crate::ts;
use vstd::prelude::*;

verus! {

// ------------------------------------------------------------- lines

/// The time in front of every line.
pub open spec fn time(now: u64) -> Seq<char> {
    "["@ + ts::clock_text(now as int) + "] "@
}

/// The number of a connection.
pub open spec fn number(conn: u64) -> Seq<char> {
    "#"@ + text::decimal(conn as nat)
}

/// The name of a direction.
pub open spec fn way(dir: Dir) -> Seq<char> {
    match dir {
        Dir::Rx => "rx"@,
        Dir::Tx => "tx"@,
    }
}

/// Directions have their names and their arrows: what is received points inwards.
pub proof fn directions_point_their_way(dir: Dir)
    ensures
        dir.name() == way(dir),
        dir.shape() == (match dir {
            Dir::Rx => "-->"@,
            Dir::Tx => "<--"@,
        }),
{
}

/// What is said of a listener names its transport, its address, itself and what it
/// does; of a connection, its number, its transport and its peer, and where it was
/// headed: to the destination that was wanted where it was redirected, and else to
/// the listener; of its end, why.
pub proof fn connections_are_spoken_of(
    now: u64,
    conn: u64,
    proto: Seq<char>,
    name: Seq<char>,
    peer: Seq<char>,
    local: Seq<char>,
    what: Seq<char>,
)
    ensures
        lines::listen_of(now, proto, name, local, what) == time(now) + "listen  "@ + proto + "/"@
            + local + "  listener="@ + name + " profile="@ + what,
        lines::open_of(now, conn, proto, peer, local, None) == time(now) + "open    "@ + number(conn)
            + " "@ + proto + " "@ + peer + (" -> "@ + local),
        lines::open_of(now, conn, proto, peer, local, Some(what)) == time(now) + "open    "@
            + number(conn) + " "@ + proto + " "@ + peer + (" WANTED "@ + what),
        lines::close_of(now, conn, proto, peer, what) == time(now) + "close   "@ + number(conn)
            + " "@ + proto + " "@ + peer + " ("@ + what + ")"@,
        lines::warning_of(now, name, what) == time(now) + "WARNING "@ + name + ": "@ + what,
        lines::error_of(now, proto, name, what) == time(now) + "error   "@ + proto + " "@ + name
            + " "@ + what,
        lines::truncated_of(now, conn, what) == time(now) + "TRUNC   "@ + number(conn) + " "@ + what,
{
}

/// What is said of a message names its direction, its connection, its transport, its
/// peer and its true length, then the rule that it answers by and what it looks
/// like, each where there is one. The bytes follow as the console shows them: as a
/// dump, on one line, or not at all.
pub proof fn messages_are_spoken_of(
    now: u64,
    dir: Dir,
    conn: u64,
    proto: Seq<char>,
    peer: Seq<char>,
    len: nat,
    rule: Option<Seq<char>>,
    hint: Option<Seq<char>>,
    data: Seq<u8>,
    max: int,
)
    ensures
        lines::data_head_of(now, dir, conn, proto, peer, len, lines::tags_of(rule, hint)) == time(now)
            + (match dir {
            Dir::Rx => "-->"@,
            Dir::Tx => "<--"@,
        }) + " "@ + number(conn) + " "@ + proto + " "@ + peer + " "@ + text::decimal(len) + " bytes"@
            + ((match rule {
            Some(r) => " ["@ + r + "]"@,
            None => Seq::empty(),
        }) + (match hint {
            Some(h) => "  "@ + h,
            None => Seq::empty(),
        })),
        lines::data_body_of(ConsoleMode::Hex, data, max) == "\n"@ + text::without_newlines(
            hexdump::render_of(data, max, "  "@),
        ),
        lines::data_body_of(ConsoleMode::Ascii, data, max) == "\n  "@ + hexdump::ascii_line_of(
            data,
            max,
        ),
        lines::data_body_of(ConsoleMode::Summary, data, max).len() == 0,
        lines::data_body_of(ConsoleMode::Off, data, max).len() == 0,
{
}

/// What is said of a gap says how much was kept, of how much, what of it is in the
/// head and in the tail, how much was lost, and where the tail is if there is one;
/// what is said of a cap says how large it is.
pub proof fn gaps_are_spoken_of(now: u64, conn: u64, dir: Dir, sum: Summary, limits: Limits, cap: nat)
    ensures
        lines::gap_of(dir, sum) == way(dir) + " truncated: "@ + stream::human_of(
            (sum.head + sum.tail) as nat,
        ) + " of "@ + stream::human_of(sum.total as nat) + " kept ("@ + stream::human_of(
            sum.head as nat,
        ) + " head + "@ + stream::human_of(sum.tail as nat) + " tail), "@ + stream::human_of(
            sum.dropped as nat,
        ) + " dropped"@ + (match sum.tail_path {
            Some(path) => ", tail in "@ + path@,
            None => Seq::empty(),
        }),
        lines::open_gap_of(dir, sum) == way(dir) + " truncated: "@ + stream::human_of(
            (sum.head + sum.tail) as nat,
        ) + " of "@ + stream::human_of(sum.total as nat) + " kept, "@ + stream::human_of(
            sum.dropped as nat,
        ) + " dropped"@,
        lines::exceeded_of(now, conn, dir, limits) == time(now) + "TRUNC   "@ + number(conn) + " "@
            + way(dir) + " exceeded the stream cap, "@ + ("keeping the first "@ + stream::human_of(
            limits.head as nat,
        ) + (if limits.tail == 0 {
            Seq::empty()
        } else {
            " and last "@ + stream::human_of(limits.tail as nat)
        })),
        lines::limit_of(now, cap) == time(now) + "LIMIT   run cap of "@ + stream::human_of(cap)
            + " reached: disk writes stopped, console continues. raise it with --max-run-bytes (0 disables)"@,
{
}

// ------------------------------------------------------------- names

/// A console mode has one name, in any case, and the silent one has two.
pub proof fn modes_have_their_names(name: Seq<char>)
    ensures
        super::mode_named(name) == Some(ConsoleMode::Hex) <==> name == "hex"@,
        super::mode_named(name) == Some(ConsoleMode::Ascii) <==> name == "ascii"@,
        super::mode_named(name) == Some(ConsoleMode::Summary) <==> name == "summary"@,
        super::mode_named(name) == Some(ConsoleMode::Off) <==> name == "none"@ || name == "off"@,
{
    reveal_strlit("hex");
    reveal_strlit("ascii");
    reveal_strlit("summary");
    reveal_strlit("none");
    reveal_strlit("off");
    assert("hex"@[0] == 'h' && "off"@[0] == 'o' && "none"@.len() == 4);
    assert("ascii"@.len() == 5 && "summary"@.len() == 7);
}

/// The files of a stream are named by its connection in four digits or more, its
/// transport, its peer and its direction; of the peer only letters and digits are
/// kept.
pub proof fn files_are_named_by_their_stream(
    conn: u64,
    proto: Seq<char>,
    peer: Seq<char>,
    dir: Dir,
)
    ensures
        ({
            let safe = Seq::new(
                peer.len(),
                |i: int|
                    {
                        let c = peer[i];
                        if '0' <= c <= '9' || 'A' <= c <= 'Z' || 'a' <= c <= 'z' {
                            c
                        } else {
                            '_'
                        }
                    },
            );
            let stem = text::pad_left(text::decimal(conn as nat), 4, '0') + "-"@ + proto + "-"@ + safe
                + "."@ + way(dir);
            &&& logger::stem_of(conn, proto, peer, dir) == stem
            &&& logger::head_file_of(stem) == stem + ".bin"@
            &&& logger::tail_file_of(stem) == stem + ".tail.bin"@
        }),
{
    let safe = Seq::new(
        peer.len(),
        |i: int|
            {
                let c = peer[i];
                if '0' <= c <= '9' || 'A' <= c <= 'Z' || 'a' <= c <= 'z' {
                    c
                } else {
                    '_'
                }
            },
    );
    assert(logger::safe_of(peer) =~= safe);
}

/// A run has a directory named after the time at which it began, within the
/// directory for all of them, where there is one.
pub proof fn a_run_has_its_directory(opts: Options, now: u64, log: Logger)
    requires
        call_ensures(Logger::new, (opts, now), log),
    ensures
        log@.opts == opts,
        log@.name == ts::stamp_text(now as int),
        opts.dir@.len() == 0 ==> log@.run_dir() == log@.name,
        opts.dir@.len() > 0 && opts.dir@.last() == '/' ==> log@.run_dir() == opts.dir@ + log@.name,
        opts.dir@.len() > 0 && opts.dir@.last() != '/' ==> log@.run_dir() == opts.dir@ + "/"@
            + log@.name,
        log@.next_conn == 1,
        log@.budget.used == 0 && !log@.budget.stopped && log@.budget.cap == opts.max_run_bytes,
        forall|key: (u64, Dir)| !(#[trigger] log@.streams.contains_key(key)),
        log@.stats.conns == 0 && log@.stats.rx_msgs == 0 && log@.stats.rx_bytes == 0
            && log@.stats.tx_msgs == 0 && log@.stats.tx_bytes == 0,
{
}

/// Whether two states of a run differ in nothing but their streams.
pub open spec fn only_streams_differ(a: LoggerModel, b: LoggerModel) -> bool {
    a.opts == b.opts && a.name == b.name && a.budget == b.budget && a.next_conn == b.next_conn
        && a.stats == b.stats
}

/// Whether two states of a run differ in nothing but their counters.
pub open spec fn only_counters_differ(a: LoggerModel, b: LoggerModel) -> bool {
    a.opts == b.opts && a.name == b.name && a.budget == b.budget && a.next_conn == b.next_conn
        && a.streams == b.streams
}

// ------------------------------------------------------------- counters

/// Whether a counter has gone on by so many, starting over when it is full.
pub open spec fn went_on(before: u64, after: u64, more: int) -> bool {
    (after - before - more) % 0x1_0000_0000_0000_0000 == 0
}

/// Connections are numbered from one on, each with the next number.
pub proof fn connections_are_numbered(log: &mut Logger, id: u64)
    requires
        call_ensures(Logger::next_conn_id, (log,), id),
    ensures
        id == old(log)@.next_conn,
        went_on(id, final(log)@.next_conn, 1),
        final(log)@.streams == old(log)@.streams && final(log)@.stats == old(log)@.stats,
        final(log)@.budget == old(log)@.budget,
{
}

/// An event that is written counts against the cap with its newline.
pub proof fn an_event_counts_with_its_newline(log: &mut Logger, len: usize, verdict: Verdict)
    requires
        call_ensures(Logger::emit, (log, len), verdict),
        old(log)@.budget.cap > 0,
    ensures
        verdict == Verdict::Granted <==> !old(log)@.budget.stopped && old(log)@.budget.used + len + 1
            <= old(log)@.budget.cap,
        verdict == Verdict::Granted ==> final(log)@.budget.used == old(log)@.budget.used + len + 1,
        verdict != Verdict::Granted ==> final(log)@.budget.used == old(log)@.budget.used
            && final(log)@.budget.stopped,
{
}

// ------------------------------------------------------------- events

/// An event of a kind, with nothing said but when it was, over which transport and
/// at which listener.
pub open spec fn is_event(
    e: EventModel,
    now: u64,
    kind: Seq<char>,
    proto: Seq<char>,
    name: Seq<char>,
) -> bool {
    &&& e.ts == ts::iso8601_text(now as int)
    &&& e.ts_ms == now
    &&& e.event == kind
    &&& e.proto == proto
    &&& e.listener == Some(name)
}

/// Opening a connection is counted, said unless the console is silent, and recorded
/// where events are: with its number, both ends, and where it was headed.
pub proof fn an_opening_is_recorded(
    log: &mut Logger,
    proto: &str,
    name: &str,
    conn: u64,
    local: &str,
    peer: &str,
    orig: Option<&str>,
    now: u64,
    report: Report,
)
    requires
        call_ensures(Logger::open, (log, proto, name, conn, local, peer, orig, now), report),
    ensures
        went_on(old(log)@.stats.conns, final(log)@.stats.conns, 1),
        final(log)@.stats == (Stats { conns: final(log)@.stats.conns, ..old(log)@.stats }),
        only_counters_differ(old(log)@, final(log)@),
        report.line is Some <==> old(log)@.opts.console != ConsoleMode::Off,
        report.line matches Some(line) ==> line@ == lines::open_of(
            now,
            conn,
            proto@,
            peer@,
            local@,
            text::shown_str(orig),
        ),
        report.event is Some <==> old(log)@.opts.jsonl,
        report.event matches Some(e) ==> {
            &&& is_event(e@, now, "open"@, proto@, name@)
            &&& e@.conn == Some(conn) && e@.local == Some(local@) && e@.peer == Some(peer@)
            &&& e@.orig_dst == text::shown_str(orig)
            &&& e@.dir is None && e@.hint is None && e@.len is None && e@.rule is None && e@.note
                is None && e@.data is None && e@.data_truncated is None
        },
{
    if let Some(e) = report.event {
        assert(super::event::recorded(report.event) == Some(e@));
    }
    if let Some(line) = report.line {
        assert(text::shown(report.line) == Some(line@));
    }
}

proof fn counting_goes_on(n: u64, more: int)
    requires
        0 <= more,
    ensures
        went_on(n, logger::counted(n, more), more),
{
    let c = logger::counted(n, more) as int;
    assert(c == (n + more) % 0x1_0000_0000_0000_0000);
    assert((c - n - more) % 0x1_0000_0000_0000_0000 == 0);
}

/// A message is counted by its direction, with all its bytes, and changes nothing
/// else of the run.
pub proof fn a_message_is_counted(
    log: &mut Logger,
    proto: &str,
    name: &str,
    conn: u64,
    peer: &str,
    dir: Dir,
    bytes: &[u8],
    rule: Option<&str>,
    now: u64,
    report: Report,
)
    requires
        call_ensures(Logger::data, (log, proto, name, conn, peer, dir, bytes, rule, now), report),
    ensures
        ({
            let a = old(log)@.stats;
            let b = final(log)@.stats;
            let n = bytes@.len() as int;
            &&& a.conns == b.conns
            &&& dir == Dir::Rx ==> went_on(a.rx_msgs, b.rx_msgs, 1) && went_on(
                a.rx_bytes,
                b.rx_bytes,
                n,
            ) && a.tx_msgs == b.tx_msgs && a.tx_bytes == b.tx_bytes
            &&& dir == Dir::Tx ==> went_on(a.tx_msgs, b.tx_msgs, 1) && went_on(
                a.tx_bytes,
                b.tx_bytes,
                n,
            ) && a.rx_msgs == b.rx_msgs && a.rx_bytes == b.rx_bytes
        }),
        only_counters_differ(old(log)@, final(log)@),
{
    let a = old(log)@.stats;
    let n = bytes@.len() as int;
    counting_goes_on(a.rx_msgs, 1);
    counting_goes_on(a.rx_bytes, n);
    counting_goes_on(a.tx_msgs, 1);
    counting_goes_on(a.tx_bytes, n);
}

/// A message is said unless the console is silent, with what it looks like.
pub proof fn a_message_is_said(
    log: &mut Logger,
    proto: &str,
    name: &str,
    conn: u64,
    peer: &str,
    dir: Dir,
    bytes: &[u8],
    rule: Option<&str>,
    now: u64,
    report: Report,
)
    requires
        call_ensures(Logger::data, (log, proto, name, conn, peer, dir, bytes, rule, now), report),
    ensures
        report.line is Some <==> old(log)@.opts.console != ConsoleMode::Off,
        report.line matches Some(line) ==> line@ == lines::data_head_of(
            now,
            dir,
            conn,
            proto@,
            peer@,
            bytes@.len(),
            lines::tags_of(text::shown_str(rule), classify::guess(bytes@)),
        ) + lines::data_body_of(
            old(log)@.opts.console,
            bytes@,
            old(log)@.opts.max_console_bytes as int,
        ),
{
    if let Some(line) = report.line {
        assert(text::shown(report.line) == Some(line@));
    }
}

/// A message is recorded where events are: with its true length, what it looks like,
/// the rule, and its front in base64, which is marked where something was left out.
#[verifier::rlimit(50)]
pub proof fn a_message_is_recorded(
    log: &mut Logger,
    proto: &str,
    name: &str,
    conn: u64,
    peer: &str,
    dir: Dir,
    bytes: &[u8],
    rule: Option<&str>,
    now: u64,
    report: Report,
)
    requires
        call_ensures(Logger::data, (log, proto, name, conn, peer, dir, bytes, rule, now), report),
    ensures
        report.event is Some <==> old(log)@.opts.jsonl,
        report.event matches Some(e) ==> {
            let max = old(log)@.opts.jsonl_max_data;
            let cut = 0 < max < bytes@.len();
            &&& is_event(e@, now, "data"@, proto@, name@)
            &&& e@.conn == Some(conn) && e@.peer == Some(peer@) && e@.dir == Some(way(dir))
            &&& e@.len == Some(bytes@.len() as u64)
            &&& e@.hint == classify::guess(bytes@)
            &&& e@.rule == text::shown_str(rule)
            &&& e@.data == Some(
                encoding::base64_of(
                    bytes@.take(
                        if cut {
                            max as int
                        } else {
                            bytes@.len() as int
                        },
                    ),
                ),
            )
            &&& e@.data_truncated == if cut {
                Some(true)
            } else {
                None
            }
            &&& e@.local is None && e@.orig_dst is None && e@.note is None
        },
{
    assert(bytes@.take(bytes@.len() as int) =~= bytes@);
    let max = old(log)@.opts.jsonl_max_data;
    let said = logger::data_event(
        now,
        proto@,
        name@,
        conn,
        peer@,
        dir,
        bytes@,
        text::shown_str(rule),
        max,
    );
    if let Some(e) = report.event {
        assert(super::event::recorded(report.event) == Some(e@));
        assert(e@ == said);
    }
}

/// A listener that comes up, a warning and an error are said whatever the console
/// is, the end of a connection unless it is silent, and each is recorded where
/// events are, with what it says.
#[verifier::rlimit(50)]
pub proof fn the_rest_is_recorded(
    log: &Logger,
    proto: &str,
    name: &str,
    conn: u64,
    maybe: Option<u64>,
    peer: &str,
    what: &str,
    now: u64,
    up: Report,
    end: Report,
    warning: Report,
    failure: Report,
)
    requires
        call_ensures(Logger::listening, (log, proto, name, peer, what, now), up),
        call_ensures(Logger::close, (log, proto, name, conn, peer, what, now), end),
        call_ensures(Logger::warn, (log, proto, name, what, now), warning),
        call_ensures(Logger::error, (log, proto, name, maybe, what, now), failure),
    ensures
        up.line matches Some(line) && line@ == lines::listen_of(now, proto@, name@, peer@, what@),
        warning.line matches Some(line) && line@ == lines::warning_of(now, name@, what@),
        failure.line matches Some(line) && line@ == lines::error_of(now, proto@, name@, what@),
        end.line is Some <==> log@.opts.console != ConsoleMode::Off,
        end.line matches Some(line) ==> line@ == lines::close_of(now, conn, proto@, peer@, what@),
        up.event is Some <==> log@.opts.jsonl,
        end.event is Some <==> log@.opts.jsonl,
        warning.event is Some <==> log@.opts.jsonl,
        failure.event is Some <==> log@.opts.jsonl,
        up.event matches Some(e) ==> is_event(e@, now, "listen"@, proto@, name@) && e@.local == Some(
            peer@,
        ) && e@.note == Some(what@) && e@.conn is None,
        end.event matches Some(e) ==> is_event(e@, now, "close"@, proto@, name@) && e@.conn == Some(
            conn,
        ) && e@.peer == Some(peer@) && e@.note == Some(what@),
        warning.event matches Some(e) ==> is_event(e@, now, "warning"@, proto@, name@) && e@.note
            == Some(what@) && e@.conn is None,
        failure.event matches Some(e) ==> is_event(e@, now, "error"@, proto@, name@) && e@.note
            == Some(what@) && e@.conn == maybe,
{
    assert(super::event::recorded(up.event) is Some <==> up.event is Some);
    assert(super::event::recorded(end.event) is Some <==> end.event is Some);
    assert(super::event::recorded(warning.event) is Some <==> warning.event is Some);
    assert(super::event::recorded(failure.event) is Some <==> failure.event is Some);
    assert(text::shown(up.line) == Some(up.line->0@));
    assert(text::shown(warning.line) == Some(warning.line->0@));
    assert(text::shown(failure.line) == Some(failure.line->0@));
    if let Some(line) = end.line {
        assert(text::shown(end.line) == Some(line@));
    }
    if let Some(e) = up.event {
        assert(super::event::recorded(up.event) == Some(e@));
    }
    if let Some(e) = end.event {
        assert(super::event::recorded(end.event) == Some(e@));
    }
    if let Some(e) = warning.event {
        assert(super::event::recorded(warning.event) == Some(e@));
    }
    if let Some(e) = failure.event {
        assert(super::event::recorded(failure.event) == Some(e@));
    }
}

/// Whether a report says that something is missing of a stream, on the console and
/// in the events where there are any.
pub open spec fn tells_of_gap(
    r: Report,
    jsonl: bool,
    now: u64,
    proto: Seq<char>,
    name: Seq<char>,
    conn: u64,
    peer: Seq<char>,
    dir: Dir,
    total: u64,
    note: Seq<char>,
) -> bool {
    &&& r.line matches Some(line) && line@ == lines::truncated_of(now, conn, note)
    &&& r.event is Some <==> jsonl
    &&& r.event matches Some(e) ==> is_event(e@, now, "truncated"@, proto, name) && e@.conn == Some(
        conn,
    ) && e@.peer == Some(peer) && e@.dir == Some(way(dir)) && e@.len == Some(total) && e@.note
        == Some(note)
}

/// A stream that lost bytes is never closed without a word, whether its connection
/// ended or the run did, and nothing is said of one that lost none.
pub proof fn no_byte_is_lost_without_a_word(
    log: &Logger,
    proto: &str,
    name: &str,
    conn: u64,
    peer: &str,
    dir: Dir,
    sum: &Summary,
    now: u64,
    closed: Option<Report>,
    flushed: Option<Report>,
)
    requires
        call_ensures(Logger::truncated, (log, proto, name, conn, peer, dir, sum, now), closed),
        call_ensures(Logger::flushed, (log, proto, name, conn, peer, dir, sum, now), flushed),
    ensures
        closed is Some <==> sum.dropped > 0,
        flushed is Some <==> sum.dropped > 0,
        closed matches Some(r) ==> tells_of_gap(
            r,
            log@.opts.jsonl,
            now,
            proto@,
            name@,
            conn,
            peer@,
            dir,
            sum.total,
            lines::gap_of(dir, *sum),
        ),
        flushed matches Some(r) ==> tells_of_gap(
            r,
            log@.opts.jsonl,
            now,
            proto@,
            name@,
            conn,
            peer@,
            dir,
            sum.total,
            lines::open_gap_of(dir, *sum),
        ),
{
    if let Some(r) = closed {
        assert(text::shown(r.line) == Some(r.line->0@));
        if let Some(e) = r.event {
            assert(super::event::recorded(r.event) == Some(e@));
        }
    }
    if let Some(r) = flushed {
        assert(text::shown(r.line) == Some(r.line->0@));
        if let Some(e) = r.event {
            assert(super::event::recorded(r.event) == Some(e@));
        }
    }
}

// ------------------------------------------------------------- streams

/// Bytes go to disk only where they are dumped, there are any, and the cap allows
/// it; the files of a stream are opened with its first bytes, under its name.
pub proof fn a_dump_is_started(
    log: &mut Logger,
    conn: u64,
    proto: &str,
    peer: &str,
    dir: Dir,
    bytes: &[u8],
    start: RawStart,
)
    requires
        call_ensures(Logger::raw_write, (log, conn, proto, peer, dir, bytes), start),
    ensures
        ({
            let m = old(log)@;
            let n = bytes@.len() as int;
            let fits = m.budget.cap == 0 || !m.budget.stopped && m.budget.used + n <= m.budget.cap;
            &&& start is Skip <==> !m.opts.raw || n == 0
            &&& start is Refused <==> m.opts.raw && n > 0 && !fits
            &&& start matches RawStart::Refused { announce } ==> announce == !m.budget.stopped
            &&& start is Open <==> m.opts.raw && n > 0 && fits && !m.streams.contains_key(
                (conn, dir),
            )
            &&& start is Ready <==> m.opts.raw && n > 0 && fits && m.streams.contains_key(
                (conn, dir),
            )
            &&& start matches RawStart::Open(stem) ==> stem@ == logger::stem_of(
                conn,
                proto@,
                peer@,
                dir,
            )
            &&& final(log)@.streams == m.streams && final(log)@.stats == m.stats
            &&& final(log)@.next_conn == m.next_conn && final(log)@.opts == m.opts
            &&& final(log)@.budget.cap == m.budget.cap
            &&& final(log)@.budget.used == m.budget.used + (if m.budget.cap != 0 && (start is Open
                || start is Ready) {
                n
            } else {
                0
            })
            &&& final(log)@.budget.stopped <==> m.budget.stopped || start is Refused
        }),
{
}

/// A stream whose files were opened is captured from nothing on, under its owner's
/// name, within the limits of the run; no other stream changes.
pub proof fn a_stream_is_opened(
    log: &mut Logger,
    proto: &str,
    name: &str,
    conn: u64,
    peer: &str,
    dir: Dir,
    stem: &str,
)
    requires
        call_ensures(Logger::raw_opened, (log, proto, name, conn, peer, dir, stem), ()),
    ensures
        ({
            let all = final(log)@.streams;
            let one = all[(conn, dir)];
            &&& all.contains_key((conn, dir))
            &&& one.proto == proto@ && one.name == name@ && one.peer == peer@
            &&& one.stream.limits == old(log)@.opts.stream_limits
            &&& one.stream.tail_path == stem@ + ".tail.bin"@
            &&& stream::is_left_of(one.stream, Seq::empty())
            &&& only_streams_differ(old(log)@, final(log)@)
            &&& forall|key: (u64, Dir)| #![trigger all.contains_key(key)]
                key != (conn, dir) ==> all.contains_key(key) == old(log)@.streams.contains_key(key)
                    && all[key] == old(log)@.streams[key]
        }),
{
    let none = Seq::<u8>::empty();
    assert(none.skip(0) =~= none);
}

/// Bytes of a stream are captured behind those that it has: the head file gets what
/// belongs to it, and a notice goes out when the stream first outgrows its head. No
/// other stream changes, nor does the owner.
pub proof fn bytes_are_captured(
    log: &mut Logger,
    conn: u64,
    dir: Dir,
    bytes: &[u8],
    head: &mut Vec<u8>,
    now: u64,
    notice: Option<String>,
    h: Seq<u8>,
)
    requires
        call_ensures(Logger::raw_append, (log, conn, dir, bytes, head, now), notice),
        old(log)@.wf(),
        old(log)@.streams.contains_key((conn, dir)),
        stream::is_left_of(old(log)@.streams[(conn, dir)].stream, h),
    ensures
        ({
            let limits = old(log)@.opts.stream_limits;
            let all = h + bytes@;
            let a = stream::in_head(limits, h.len() as int);
            let b = stream::in_head(limits, all.len() as int);
            let one = final(log)@.streams[(conn, dir)];
            let was = old(log)@.streams[(conn, dir)];
            &&& final(log)@.streams.contains_key((conn, dir))
            &&& stream::is_left_of(one.stream, all)
            &&& only_streams_differ(old(log)@, final(log)@)
            &&& one.proto == was.proto && one.name == was.name && one.peer == was.peer
            &&& final(head)@ == old(head)@ + all.subrange(a, b)
            &&& notice is Some <==> a == h.len() && b < all.len()
            &&& notice matches Some(line) ==> line@ == lines::exceeded_of(now, conn, dir, limits)
            &&& forall|key: (u64, Dir)| #![trigger final(log)@.streams.contains_key(key)]
                key != (conn, dir) ==> final(log)@.streams.contains_key(key)
                    == old(log)@.streams.contains_key(key) && final(log)@.streams[key]
                    == old(log)@.streams[key]
        }),
{
    let m = old(log)@.streams[(conn, dir)].stream;
    stream::a_kept_write_is_what_is_left(m, h, bytes@);
    if let Some(line) = notice {
        assert(text::shown(notice) == Some(line@));
    }
}

/// A stream that is closed is handed out as it was captured and is not there any
/// more; the others are.
pub proof fn a_closed_stream_is_handed_out(
    log: &mut Logger,
    conn: u64,
    dir: Dir,
    out: Option<Stream>,
)
    requires
        call_ensures(Logger::close_raw, (log, conn, dir), out),
    ensures
        out is Some <==> old(log)@.streams.contains_key((conn, dir)),
        out matches Some(s) ==> s@ == old(log)@.streams[(conn, dir)].stream,
        !final(log)@.streams.contains_key((conn, dir)),
        only_streams_differ(old(log)@, final(log)@),
        forall|key: (u64, Dir)| #![trigger final(log)@.streams.contains_key(key)]
            key != (conn, dir) ==> final(log)@.streams.contains_key(key)
                == old(log)@.streams.contains_key(key) && final(log)@.streams[key]
                == old(log)@.streams[key],
{
}

/// At the end of the run every stream that is open is handed out, with its owner,
/// and none stays.
#[verifier::rlimit(50)]
pub proof fn every_open_stream_is_handed_out(log: &mut Logger, out: Vec<Held>, key: (u64, Dir))
    requires
        call_ensures(Logger::flush, (log,), out),
    ensures
        !final(log)@.streams.contains_key(key),
        only_streams_differ(old(log)@, final(log)@),
        old(log)@.streams.contains_key(key) <==> exists|i: int|
            0 <= i < out@.len() && (#[trigger] out@[i]).conn == key.0 && out@[i].dir == key.1,
        forall|i: int, j: int|
            0 <= i < j < out@.len() ==> (#[trigger] out@[i]).conn != (#[trigger] out@[j]).conn
                || out@[i].dir != out@[j].dir,
        forall|i: int|
            0 <= i < out@.len() ==> {
                let was = old(log)@.streams[((#[trigger] out@[i]).conn, out@[i].dir)];
                &&& out@[i].proto@ == was.proto && out@[i].name@ == was.name && out@[i].peer@
                    == was.peer
                &&& out@[i].stream@ == was.stream
            },
{
    let m = table::as_map(out@);
    assert(m == old(log)@.streams);
    assert(m.contains_key(key) <==> table::lists(out@, key));
    if table::lists(out@, key) {
        let i = table::place(out@, key);
        assert(table::is_at(out@, key, i));
        assert(out@[i].conn == key.0);
    }
    if exists|i: int|
        0 <= i < out@.len() && (#[trigger] out@[i]).conn == key.0 && out@[i].dir == key.1 {
        let i = choose|i: int|
            0 <= i < out@.len() && (#[trigger] out@[i]).conn == key.0 && out@[i].dir == key.1;
        assert(table::is_at(out@, key, i));
    }
    assert forall|i: int, j: int| 0 <= i < j < out@.len() implies (#[trigger] out@[i]).conn != (
    #[trigger] out@[j]).conn || out@[i].dir != out@[j].dir by {
        let k = (out@[i].conn, out@[i].dir);
        assert(table::is_at(out@, k, i));
        if out@[i].conn == out@[j].conn && out@[i].dir == out@[j].dir {
            assert(table::is_at(out@, k, j));
        }
    }
    assert forall|i: int| 0 <= i < out@.len() implies {
        let was = old(log)@.streams[((#[trigger] out@[i]).conn, out@[i].dir)];
        &&& out@[i].proto@ == was.proto && out@[i].name@ == was.name && out@[i].peer@ == was.peer
        &&& out@[i].stream@ == was.stream
    } by {
        let k = (out@[i].conn, out@[i].dir);
        assert(table::is_at(out@, k, i));
        assert(table::is_at(out@, k, table::place(out@, k)));
        assert(m[k] == out@[i]@);
    }
}

/// What is said at the end of a run counts its connections, messages and bytes, and
/// says where the capture is and how much was written where anything was, and that
/// it is incomplete where the cap was hit.
pub proof fn the_end_is_summed_up(log: &Logger, out: String)
    requires
        call_ensures(Logger::summary, (log,), out),
    ensures
        ({
            let m = log@;
            out@ == "\nconns "@ + text::decimal(m.stats.conns as nat) + "  rx "@ + text::decimal(
                m.stats.rx_msgs as nat,
            ) + " msgs / "@ + text::decimal(m.stats.rx_bytes as nat) + " bytes  tx "@
                + text::decimal(m.stats.tx_msgs as nat) + " msgs / "@ + text::decimal(
                m.stats.tx_bytes as nat,
            ) + " bytes"@ + (if m.opts.jsonl || m.opts.raw {
                "\ncapture: "@ + m.run_dir() + " ("@ + stream::human_of(m.budget.used as nat)
                    + " written)"@
            } else {
                Seq::empty()
            }) + (if m.budget.stopped {
                "\nWARNING: the "@ + stream::human_of(m.opts.max_run_bytes as nat)
                    + " run cap was hit, so this capture is incomplete on disk"@
            } else {
                Seq::empty()
            })
        }),
{
}

/// What a run is asked about itself it answers as it is: whether anything goes to
/// disk, whether a stream can take so many bytes more, whether a message can be
/// recorded, and what is said when the cap is hit.
pub proof fn a_run_knows_itself(
    log: &Logger,
    conn: u64,
    dir: Dir,
    more: usize,
    now: u64,
    writes: bool,
    room: bool,
    fits: bool,
    limit: String,
)
    requires
        call_ensures(Logger::writes_files, (log,), writes),
        call_ensures(Logger::has_room, (log, conn, dir, more), room),
        call_ensures(Logger::can_record, (log, more), fits),
        call_ensures(Logger::limit_line, (log, now), limit),
    ensures
        writes <==> log@.opts.jsonl || log@.opts.raw,
        room <==> log@.streams.contains_key((conn, dir)) && log@.streams[(conn, dir)].stream.total
            + more <= 0xffff_ffff_ffff_ffff,
        !log@.opts.jsonl ==> fits,
        log@.opts.jsonl && more <= 0x1000_0000 ==> fits,
        limit@ == lines::limit_of(now, log@.opts.max_run_bytes as nat),
{
}

} // verus!
