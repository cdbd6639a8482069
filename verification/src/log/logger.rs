//! The state of a run, and what is said and written at each step of it.
use super::budget::{Budget, BudgetModel, Verdict};
use super::event;
use super::event::{Event, EventModel};
use super::lines;
use super::table;
use super::table::{Held, HeldModel, Table};
use super::{ConsoleMode, Dir};
use crate::classify;
use crate::encoding;
use crate::stream;
use crate::stream::{human, Limits, Stream, StreamModel, Summary};
use crate::text;
use crate::text::{chars_of, own, push_decimal, push_decimal_padded};
use crate::ts;
use crate::ts::stamp;
use vstd::prelude::*;

verus! {

/// How a run is recorded.
#[derive(Debug)]
pub struct Options {
    /// the directory that holds the runs, as it is shown
    pub dir: String,
    pub console: ConsoleMode,
    pub jsonl: bool,
    pub raw: bool,
    /// how much of a message the console shows, 0 = all of it
    pub max_console_bytes: usize,
    /// how much payload goes into each event, 0 = all of it; events are an index
    /// and no second copy of the capture
    pub jsonl_max_data: usize,
    /// head and tail limits of every raw stream
    pub stream_limits: Limits,
    /// stop writing to disk once the run has produced this many bytes, 0 = no cap
    pub max_run_bytes: u64,
}

/// What has happened so far.
#[derive(Clone, Copy, Debug, PartialEq, Eq, Structural)]
pub struct Stats {
    pub conns: u64,
    pub rx_msgs: u64,
    pub rx_bytes: u64,
    pub tx_msgs: u64,
    pub tx_bytes: u64,
}

impl Default for Stats {
    fn default() -> (s: Self)
        ensures
            s == Stats::zero(),
    {
        Stats { conns: 0, rx_msgs: 0, rx_bytes: 0, tx_msgs: 0, tx_bytes: 0 }
    }
}

/// A counter one further on or more; it starts over when it is full.
pub open spec fn counted(n: u64, more: int) -> u64 {
    ((n + more) % 0x1_0000_0000_0000_0000) as u64
}

fn count(n: u64, more: u64) -> (out: u64)
    ensures
        out == counted(n, more as int),
{
    n.wrapping_add(more)
}

impl Stats {
    /// Nothing has happened.
    pub open spec fn zero() -> Stats {
        Stats { conns: 0, rx_msgs: 0, rx_bytes: 0, tx_msgs: 0, tx_bytes: 0 }
    }

    /// One more connection.
    pub open spec fn with_conn(self) -> Stats {
        Stats { conns: counted(self.conns, 1), ..self }
    }

    /// One more message of a direction.
    pub open spec fn with_message(self, dir: Dir, len: int) -> Stats {
        match dir {
            Dir::Rx => Stats {
                rx_msgs: counted(self.rx_msgs, 1),
                rx_bytes: counted(self.rx_bytes, len),
                ..self
            },
            Dir::Tx => Stats {
                tx_msgs: counted(self.tx_msgs, 1),
                tx_bytes: counted(self.tx_bytes, len),
                ..self
            },
        }
    }
}

/// The run: its options, its budget, its counters and the streams being captured.
pub struct Logger {
    opts: Options,
    name: String,
    run_dir: String,
    budget: Budget,
    next_conn: u64,
    table: Table,
    stats: Stats,
}

/// What is known of a run.
pub struct LoggerModel {
    pub opts: Options,
    /// the name of the run's directory
    pub name: Seq<char>,
    pub budget: BudgetModel,
    /// the id of the next connection
    pub next_conn: u64,
    /// the streams being captured, and whose they are
    pub streams: Map<(u64, Dir), HeldModel>,
    pub stats: Stats,
}

impl View for Logger {
    type V = LoggerModel;

    closed spec fn view(&self) -> LoggerModel {
        LoggerModel {
            opts: self.opts,
            name: self.name@,
            budget: self.budget@,
            next_conn: self.next_conn,
            streams: self.table@,
            stats: self.stats,
        }
    }
}

impl LoggerModel {
    /// The budget is that of the options and is kept, and every stream is kept
    /// within the limits of the options.
    pub open spec fn wf(self) -> bool {
        &&& self.budget.wf()
        &&& self.budget.cap == self.opts.max_run_bytes
        &&& forall|key: (u64, Dir)| #[trigger]
            self.streams.contains_key(key) ==> self.streams[key].stream.wf()
                && self.streams[key].stream.limits == self.opts.stream_limits
    }

    /// The path of the run's directory, as it is shown.
    pub open spec fn run_dir(self) -> Seq<char> {
        join_of(self.opts.dir@, self.name)
    }
}

/// A path within a directory.
pub open spec fn join_of(dir: Seq<char>, name: Seq<char>) -> Seq<char> {
    if dir.len() == 0 {
        name
    } else if dir.last() == '/' {
        dir + name
    } else {
        dir + "/"@ + name
    }
}

fn join(dir: &str, name: &str) -> (out: String)
    ensures
        out@ == join_of(dir@, name@),
{
    let chars = chars_of(dir);
    let mut out = own(dir);
    if chars.len() > 0 && chars[chars.len() - 1] != '/' {
        out.append("/");
    }
    out.append(name);
    assert(out@ =~= join_of(dir@, name@));
    out
}

/// A character that is safe in a file name.
pub open spec fn safe_char(c: char) -> char {
    if ('0' <= c <= '9') || ('A' <= c <= 'Z') || ('a' <= c <= 'z') {
        c
    } else {
        '_'
    }
}

/// A text that is safe in a file name.
pub open spec fn safe_of(s: Seq<char>) -> Seq<char> {
    Seq::new(s.len(), |i: int| safe_char(s[i]))
}

/// What the names of the files of a stream begin with.
pub open spec fn stem_of(conn: u64, proto: Seq<char>, peer: Seq<char>, dir: Dir) -> Seq<char> {
    text::pad_left(text::decimal(conn as nat), 4, '0') + "-"@ + proto + "-"@ + safe_of(peer) + "."@
        + dir.name()
}

/// The file with the front of a stream.
pub open spec fn head_file_of(stem: Seq<char>) -> Seq<char> {
    stem + ".bin"@
}

/// The file with the end of a stream.
pub open spec fn tail_file_of(stem: Seq<char>) -> Seq<char> {
    stem + ".tail.bin"@
}

fn push_safe(out: &mut String, s: &str)
    ensures
        final(out)@ == old(out)@ + safe_of(s@),
{
    let chars = chars_of(s);
    let mut i: usize = 0;
    assert(out@ =~= old(out)@ + safe_of(s@).take(0));
    while i < chars.len()
        invariant
            i <= chars.len(),
            chars@ == s@,
            out@ == old(out)@ + safe_of(s@).take(i as int),
        decreases chars.len() - i,
    {
        let c = chars[i];
        let safe = ('0' <= c && c <= '9') || ('A' <= c && c <= 'Z') || ('a' <= c && c <= 'z');
        out.push(
            if safe {
                c
            } else {
                '_'
            },
        );
        i += 1;
        assert(safe_of(s@).take(i as int) =~= safe_of(s@).take(i - 1).push(safe_of(s@)[i - 1]));
    }
    assert(safe_of(s@).take(i as int) =~= safe_of(s@));
}

fn stem(conn: u64, proto: &str, peer: &str, dir: Dir) -> (out: String)
    ensures
        out@ == stem_of(conn, proto@, peer@, dir),
{
    let mut out = String::new();
    push_decimal_padded(&mut out, conn, 4);
    out.append("-");
    out.append(proto);
    out.append("-");
    push_safe(&mut out, peer);
    out.append(".");
    out.append(dir.tag());
    assert(out@ =~= stem_of(conn, proto@, peer@, dir));
    out
}

/// The file with the front of a stream.
pub fn head_file(stem: &str) -> (out: String)
    ensures
        out@ == head_file_of(stem@),
{
    let mut out = own(stem);
    out.append(".bin");
    out
}

/// The file with the end of a stream.
pub fn tail_file(stem: &str) -> (out: String)
    ensures
        out@ == tail_file_of(stem@),
{
    let mut out = own(stem);
    out.append(".tail.bin");
    out
}

/// What a step says: a line for the console and an event to record, where there
/// is one.
pub struct Report {
    pub line: Option<String>,
    pub event: Option<Event>,
}

/// What a raw write comes to before any byte is written.
pub enum RawStart {
    /// there is nothing to write
    Skip,
    /// the budget refuses the write; the first time this is to be announced
    Refused { announce: bool },
    /// the files of the stream are to be opened, under this stem
    Open(String),
    /// the stream is open
    Ready,
}

/// The part of a payload that goes into an event.
pub open spec fn clip_of(data: Seq<u8>, max: usize) -> Seq<u8> {
    if max > 0 && data.len() > max {
        data.take(max as int)
    } else {
        data
    }
}

/// How long the part of a payload is that goes into an event.
pub open spec fn clip_len(len: int, max: usize) -> int {
    if max > 0 && len > max {
        max as int
    } else {
        len
    }
}

/// The event of some bytes.
pub open spec fn data_event(
    now: u64,
    proto: Seq<char>,
    name: Seq<char>,
    conn: u64,
    peer: Seq<char>,
    dir: Dir,
    data: Seq<u8>,
    rule: Option<Seq<char>>,
    max: usize,
) -> EventModel {
    EventModel {
        conn: Some(conn),
        peer: Some(peer),
        dir: Some(dir.name()),
        hint: classify::guess(data),
        len: Some(data.len() as u64),
        rule,
        data: Some(encoding::base64_of(clip_of(data, max))),
        data_truncated: if max > 0 && data.len() > max {
            Some(true)
        } else {
            None
        },
        ..event::bare(now, "data"@, proto, name)
    }
}

impl Logger {
    /// The table holds no stream twice.
    pub closed spec fn wf(self) -> bool {
        &&& self@.wf()
        &&& self.table.wf()
        &&& self.run_dir@ == self@.run_dir()
    }

    /// A run that begins now, in a directory named after the time.
    pub fn new(opts: Options, now: u64) -> (log: Self)
        ensures
            log.wf(),
            log@ == (LoggerModel {
                opts,
                name: ts::stamp_text(now as int),
                budget: BudgetModel::fresh(opts.max_run_bytes as int),
                next_conn: 1,
                streams: Map::empty(),
                stats: Stats::zero(),
            }),
    {
        let name = stamp(now);
        let run_dir = join(opts.dir.as_str(), name.as_str());
        let budget = Budget::new(opts.max_run_bytes);
        Logger {
            opts,
            name,
            run_dir,
            budget,
            next_conn: 1,
            table: Table::new(),
            stats: Stats::default(),
        }
    }

    /// How the run is recorded.
    pub fn options(&self) -> (opts: &Options)
        ensures
            *opts == self@.opts,
    {
        &self.opts
    }

    /// What has happened so far.
    pub fn stats(&self) -> (stats: Stats)
        ensures
            stats == self@.stats,
    {
        self.stats
    }

    /// The name of the run's directory.
    pub fn run_name(&self) -> (name: &str)
        ensures
            name@ == self@.name,
    {
        self.name.as_str()
    }

    /// The path of the run's directory, as it is shown.
    pub fn run_dir(&self) -> (dir: &str)
        requires
            self.wf(),
        ensures
            dir@ == self@.run_dir(),
    {
        self.run_dir.as_str()
    }

    /// Whether anything goes to disk.
    pub fn writes_files(&self) -> (b: bool)
        ensures
            b == (self@.opts.jsonl || self@.opts.raw),
    {
        self.opts.jsonl || self.opts.raw
    }

    /// The id of a new connection.
    pub fn next_conn_id(&mut self) -> (id: u64)
        requires
            old(self).wf(),
        ensures
            final(self).wf(),
            id == old(self)@.next_conn,
            final(self)@ == (LoggerModel { next_conn: counted(id, 1), ..old(self)@ }),
    {
        let id: u64 = self.next_conn;
        self.next_conn = count(id, 1);
        id
    }

    /// Charges bytes against the budget of the run.
    pub fn charge(&mut self, n: u64) -> (verdict: Verdict)
        requires
            old(self).wf(),
        ensures
            final(self).wf(),
            verdict == old(self)@.budget.verdict(n as int),
            final(self)@ == (LoggerModel {
                budget: old(self)@.budget.after(n as int),
                ..old(self)@
            }),
    {
        self.budget.charge(n)
    }

    /// Charges an event of `len` bytes and the newline behind it.
    pub fn emit(&mut self, len: usize) -> (verdict: Verdict)
        requires
            old(self).wf(),
            len < usize::MAX,
        ensures
            final(self).wf(),
            verdict == old(self)@.budget.verdict(len + 1),
            final(self)@ == (LoggerModel { budget: old(self)@.budget.after(len + 1), ..old(self)@ }),
    {
        self.budget.charge(len as u64 + 1)
    }

    /// What is said when the budget is used up.
    pub fn limit_line(&self, now: u64) -> (line: String)
        requires
            self.wf(),
        ensures
            line@ == lines::limit_of(now, self@.opts.max_run_bytes as nat),
    {
        lines::limit(now, self.opts.max_run_bytes)
    }

    /// A listener has come up; this is always said.
    pub fn listening(&self, proto: &str, name: &str, local: &str, profile: &str, now: u64) -> (report:
        Report)
        ensures
            text::shown(report.line) == Some(
                lines::listen_of(now, proto@, name@, local@, profile@),
            ),
            event::recorded(report.event) == if self@.opts.jsonl {
                Some(
                    EventModel {
                        local: Some(local@),
                        note: Some(profile@),
                        ..event::bare(now, "listen"@, proto@, name@)
                    },
                )
            } else {
                None
            },
    {
        let line = Some(lines::listen(now, proto, name, local, profile));
        let event = if self.opts.jsonl {
            let mut e = Event::new(now, "listen", proto, name);
            e.local = Some(own(local));
            e.note = Some(own(profile));
            Some(e)
        } else {
            None
        };
        Report { line, event }
    }

    /// A connection was opened; `orig` is where it was headed before it was
    /// redirected.
    pub fn open(
        &mut self,
        proto: &str,
        name: &str,
        conn: u64,
        local: &str,
        peer: &str,
        orig: Option<&str>,
        now: u64,
    ) -> (report: Report)
        requires
            old(self).wf(),
        ensures
            final(self).wf(),
            final(self)@ == (LoggerModel { stats: old(self)@.stats.with_conn(), ..old(self)@ }),
            text::shown(report.line) == if old(self)@.opts.console == ConsoleMode::Off {
                None
            } else {
                Some(lines::open_of(now, conn, proto@, peer@, local@, text::shown_str(orig)))
            },
            event::recorded(report.event) == if old(self)@.opts.jsonl {
                Some(
                    EventModel {
                        conn: Some(conn),
                        local: Some(local@),
                        peer: Some(peer@),
                        orig_dst: text::shown_str(orig),
                        ..event::bare(now, "open"@, proto@, name@)
                    },
                )
            } else {
                None
            },
    {
        self.stats.conns = count(self.stats.conns, 1);
        let line = if self.opts.console != ConsoleMode::Off {
            Some(lines::open(now, conn, proto, peer, local, orig))
        } else {
            None
        };
        let event = if self.opts.jsonl {
            let mut e = Event::new(now, "open", proto, name);
            e.conn = Some(conn);
            e.local = Some(own(local));
            e.peer = Some(own(peer));
            e.orig_dst = match orig {
                Some(o) => Some(own(o)),
                None => None,
            };
            Some(e)
        } else {
            None
        };
        Report { line, event }
    }

    /// Whether a message of that length can be recorded: a vector can hold the text
    /// of what goes into its event, where there is one.
    pub fn can_record(&self, len: usize) -> (b: bool)
        ensures
            b == (self@.opts.jsonl ==> (clip_len(len as int, self@.opts.jsonl_max_data) + 2) / 3 * 4
                <= isize::MAX),
    {
        if !self.opts.jsonl {
            return true;
        }
        let max: usize = self.opts.jsonl_max_data;
        encoding::base64_len(
            if max > 0 && len > max {
                max
            } else {
                len
            },
        ).is_some()
    }

    /// Some bytes went one way or the other. Both directions are classified.
    pub fn data(
        &mut self,
        proto: &str,
        name: &str,
        conn: u64,
        peer: &str,
        dir: Dir,
        bytes: &[u8],
        rule: Option<&str>,
        now: u64,
    ) -> (report: Report)
        requires
            old(self).wf(),
            old(self)@.opts.jsonl ==> (clip_of(bytes@, old(self)@.opts.jsonl_max_data).len() + 2)
                / 3 * 4 <= isize::MAX,
        ensures
            final(self).wf(),
            final(self)@ == (LoggerModel {
                stats: old(self)@.stats.with_message(dir, bytes@.len() as int),
                ..old(self)@
            }),
            text::shown(report.line) == if old(self)@.opts.console == ConsoleMode::Off {
                None
            } else {
                Some(
                    lines::data_head_of(
                        now,
                        dir,
                        conn,
                        proto@,
                        peer@,
                        bytes@.len(),
                        lines::tags_of(text::shown_str(rule), classify::guess(bytes@)),
                    ) + lines::data_body_of(
                        old(self)@.opts.console,
                        bytes@,
                        old(self)@.opts.max_console_bytes as int,
                    ),
                )
            },
            event::recorded(report.event) == if old(self)@.opts.jsonl {
                Some(
                    data_event(
                        now,
                        proto@,
                        name@,
                        conn,
                        peer@,
                        dir,
                        bytes@,
                        text::shown_str(rule),
                        old(self)@.opts.jsonl_max_data,
                    ),
                )
            } else {
                None
            },
    {
        match dir {
            Dir::Rx => {
                self.stats.rx_msgs = count(self.stats.rx_msgs, 1);
                self.stats.rx_bytes = count(self.stats.rx_bytes, bytes.len() as u64);
            },
            Dir::Tx => {
                self.stats.tx_msgs = count(self.stats.tx_msgs, 1);
                self.stats.tx_bytes = count(self.stats.tx_bytes, bytes.len() as u64);
            },
        }
        let hint = classify::classify(bytes);
        let line = if self.opts.console != ConsoleMode::Off {
            Some(
                lines::data(
                    now,
                    dir,
                    conn,
                    proto,
                    peer,
                    bytes,
                    rule,
                    match &hint {
                        Some(h) => Some(h.as_str()),
                        None => None,
                    },
                    self.opts.console,
                    self.opts.max_console_bytes,
                ),
            )
        } else {
            None
        };
        let event = if self.opts.jsonl {
            let max: usize = self.opts.jsonl_max_data;
            let clipped = max > 0 && bytes.len() > max;
            let payload = if clipped {
                vstd::slice::slice_subrange(bytes, 0, max)
            } else {
                bytes
            };
            assert(payload@ =~= clip_of(bytes@, max));
            let mut e = Event::new(now, "data", proto, name);
            e.conn = Some(conn);
            e.peer = Some(own(peer));
            e.dir = Some(own(dir.tag()));
            e.hint = hint;
            e.len = Some(bytes.len() as u64);
            e.rule = match rule {
                Some(r) => Some(own(r)),
                None => None,
            };
            e.data = Some(encoding::encode(payload));
            e.data_truncated = if clipped {
                Some(true)
            } else {
                None
            };
            Some(e)
        } else {
            None
        };
        Report { line, event }
    }

    /// What a raw write comes to: the budget is charged, and where the write is
    /// granted its stream is open or is to be opened.
    pub fn raw_write(&mut self, conn: u64, proto: &str, peer: &str, dir: Dir, bytes: &[u8]) -> (start:
        RawStart)
        requires
            old(self).wf(),
        ensures
            final(self).wf(),
            ({
                let verdict = old(self)@.budget.verdict(bytes@.len() as int);
                let charged = LoggerModel {
                    budget: old(self)@.budget.after(bytes@.len() as int),
                    ..old(self)@
                };
                if !old(self)@.opts.raw || bytes@.len() == 0 {
                    start is Skip && final(self)@ == old(self)@
                } else {
                    &&& final(self)@ == charged
                    &&& match start {
                        RawStart::Skip => false,
                        RawStart::Refused { announce } => verdict != Verdict::Granted && announce
                            == (verdict == Verdict::Stopped),
                        RawStart::Open(stem) => {
                            &&& verdict == Verdict::Granted
                            &&& !old(self)@.streams.contains_key((conn, dir))
                            &&& stem@ == stem_of(conn, proto@, peer@, dir)
                        },
                        RawStart::Ready => verdict == Verdict::Granted
                            && old(self)@.streams.contains_key((conn, dir)),
                    }
                }
            }),
    {
        if !self.opts.raw || bytes.len() == 0 {
            return RawStart::Skip;
        }
        match self.budget.charge(bytes.len() as u64) {
            Verdict::Granted => {
                if self.table.contains(conn, dir) {
                    RawStart::Ready
                } else {
                    RawStart::Open(stem(conn, proto, peer, dir))
                }
            },
            Verdict::Stopped => RawStart::Refused { announce: true },
            Verdict::Refused => RawStart::Refused { announce: false },
        }
    }

    /// The files of a stream were opened: the stream is captured from here on. Whose
    /// it is is kept with it, so that a gap can be reported whenever the stream ends.
    pub fn raw_opened(
        &mut self,
        proto: &str,
        name: &str,
        conn: u64,
        peer: &str,
        dir: Dir,
        stem: &str,
    )
        requires
            old(self).wf(),
            !old(self)@.streams.contains_key((conn, dir)),
        ensures
            final(self).wf(),
            final(self)@ == (LoggerModel {
                streams: old(self)@.streams.insert(
                    (conn, dir),
                    HeldModel {
                        proto: proto@,
                        name: name@,
                        peer: peer@,
                        stream: StreamModel {
                            tail_path: tail_file_of(stem@),
                            limits: old(self)@.opts.stream_limits,
                            head: 0,
                            tail: Seq::empty(),
                            dropped: 0,
                            total: 0,
                            truncating: false,
                        },
                    },
                ),
                ..old(self)@
            }),
    {
        let stream = Stream::create(tail_file(stem), self.opts.stream_limits);
        self.table.insert(
            Held { conn, dir, proto: own(proto), name: own(name), peer: own(peer), stream },
        );
    }

    /// Whether a stream is being captured and can count that many bytes more.
    pub fn has_room(&self, conn: u64, dir: Dir, more: usize) -> (b: bool)
        requires
            self.wf(),
        ensures
            b == (self@.streams.contains_key((conn, dir)) && self@.streams[(
                conn,
                dir,
            )].stream.total + more <= u64::MAX),
    {
        match self.table.total(conn, dir) {
            Some(n) => more as u64 <= u64::MAX - n,
            None => false,
        }
    }

    /// Captures bytes of a stream: what belongs to its head file is appended to
    /// `head`, and what does not goes to the tail, which gives up its oldest bytes.
    /// Says so when the stream has just outgrown its head.
    pub fn raw_append(
        &mut self,
        conn: u64,
        dir: Dir,
        bytes: &[u8],
        head: &mut Vec<u8>,
        now: u64,
    ) -> (notice: Option<String>)
        requires
            old(self).wf(),
            old(self)@.streams.contains_key((conn, dir)),
            old(self)@.streams[(conn, dir)].stream.total + bytes@.len() <= u64::MAX,
        ensures
            final(self).wf(),
            ({
                let held = old(self)@.streams[(conn, dir)];
                let before = held.stream;
                &&& final(self)@ == (LoggerModel {
                    streams: old(self)@.streams.insert(
                        (conn, dir),
                        HeldModel { stream: before.after(bytes@), ..held },
                    ),
                    ..old(self)@
                })
                &&& final(head)@ == old(head)@ + bytes@.take(before.kept(bytes@))
                &&& text::shown(notice) == if before.announces(bytes@) {
                    Some(lines::exceeded_of(now, conn, dir, old(self)@.opts.stream_limits))
                } else {
                    None
                }
            }),
    {
        let ghost before = self@.streams;
        match self.table.remove(conn, dir) {
            Some(h) => {
                let Held { conn, dir, proto, name, peer, stream } = h;
                let mut stream = stream;
                let announce = stream.write(bytes, head);
                self.table.insert(Held { conn, dir, proto, name, peer, stream });
                assert(self@.streams =~= before.insert(
                    (conn, dir),
                    HeldModel {
                        stream: before[(conn, dir)].stream.after(bytes@),
                        ..before[(conn, dir)]
                    },
                ));
                if announce {
                    Some(lines::exceeded(now, conn, dir, self.opts.stream_limits))
                } else {
                    None
                }
            },
            None => None,
        }
    }

    /// A connection was closed, and why.
    pub fn close(&self, proto: &str, name: &str, conn: u64, peer: &str, why: &str, now: u64) -> (report:
        Report)
        ensures
            text::shown(report.line) == if self@.opts.console == ConsoleMode::Off {
                None
            } else {
                Some(lines::close_of(now, conn, proto@, peer@, why@))
            },
            event::recorded(report.event) == if self@.opts.jsonl {
                Some(
                    EventModel {
                        conn: Some(conn),
                        peer: Some(peer@),
                        note: Some(why@),
                        ..event::bare(now, "close"@, proto@, name@)
                    },
                )
            } else {
                None
            },
    {
        let line = if self.opts.console != ConsoleMode::Off {
            Some(lines::close(now, conn, proto, peer, why))
        } else {
            None
        };
        let event = if self.opts.jsonl {
            let mut e = Event::new(now, "close", proto, name);
            e.conn = Some(conn);
            e.peer = Some(own(peer));
            e.note = Some(own(why));
            Some(e)
        } else {
            None
        };
        Report { line, event }
    }

    /// Gives up a stream of a connection that was closed.
    pub fn close_raw(&mut self, conn: u64, dir: Dir) -> (stream: Option<Stream>)
        requires
            old(self).wf(),
        ensures
            final(self).wf(),
            match stream {
                Some(s) => {
                    &&& old(self)@.streams.contains_key((conn, dir))
                    &&& s@ == old(self)@.streams[(conn, dir)].stream
                    &&& s@.wf()
                    &&& s@.limits == old(self)@.opts.stream_limits
                    &&& final(self)@ == (LoggerModel {
                        streams: old(self)@.streams.remove((conn, dir)),
                        ..old(self)@
                    })
                },
                None => {
                    &&& !old(self)@.streams.contains_key((conn, dir))
                    &&& final(self)@ == old(self)@
                },
            },
    {
        match self.table.remove(conn, dir) {
            Some(h) => Some(h.stream),
            None => None,
        }
    }

    /// What is said of a stream that was closed with something missing: a capture
    /// that does not say so reads as complete.
    pub fn truncated(
        &self,
        proto: &str,
        name: &str,
        conn: u64,
        peer: &str,
        dir: Dir,
        sum: &Summary,
        now: u64,
    ) -> (report: Option<Report>)
        requires
            sum.head + sum.tail <= u64::MAX,
        ensures
            match report {
                None => sum.dropped == 0,
                Some(r) => {
                    let note = lines::gap_of(dir, *sum);
                    &&& sum.dropped > 0
                    &&& text::shown(r.line) == Some(lines::truncated_of(now, conn, note))
                    &&& event::recorded(r.event) == if self@.opts.jsonl {
                        Some(
                            EventModel {
                                conn: Some(conn),
                                peer: Some(peer@),
                                dir: Some(dir.name()),
                                len: Some(sum.total),
                                note: Some(note),
                                ..event::bare(now, "truncated"@, proto@, name@)
                            },
                        )
                    } else {
                        None
                    }
                },
            },
    {
        match lines::gap(dir, sum) {
            Some(note) => Some(self.gap_report(proto, name, conn, peer, dir, sum.total, note, now)),
            None => None,
        }
    }

    fn gap_report(
        &self,
        proto: &str,
        name: &str,
        conn: u64,
        peer: &str,
        dir: Dir,
        total: u64,
        note: String,
        now: u64,
    ) -> (r: Report)
        ensures
            text::shown(r.line) == Some(lines::truncated_of(now, conn, note@)),
            event::recorded(r.event) == if self@.opts.jsonl {
                Some(
                    EventModel {
                        conn: Some(conn),
                        peer: Some(peer@),
                        dir: Some(dir.name()),
                        len: Some(total),
                        note: Some(note@),
                        ..event::bare(now, "truncated"@, proto@, name@)
                    },
                )
            } else {
                None
            },
    {
        let line = Some(lines::truncated(now, conn, note.as_str()));
        let event = if self.opts.jsonl {
            let mut e = Event::new(now, "truncated", proto, name);
            e.conn = Some(conn);
            e.peer = Some(own(peer));
            e.dir = Some(own(dir.tag()));
            e.len = Some(total);
            e.note = Some(note);
            Some(e)
        } else {
            None
        };
        Report { line, event }
    }

    /// An operational warning; nothing stops.
    pub fn warn(&self, proto: &str, name: &str, msg: &str, now: u64) -> (report: Report)
        ensures
            text::shown(report.line) == Some(lines::warning_of(now, name@, msg@)),
            event::recorded(report.event) == if self@.opts.jsonl {
                Some(
                    EventModel {
                        note: Some(msg@),
                        ..event::bare(now, "warning"@, proto@, name@)
                    },
                )
            } else {
                None
            },
    {
        let line = Some(lines::warning(now, name, msg));
        let event = if self.opts.jsonl {
            let mut e = Event::new(now, "warning", proto, name);
            e.note = Some(own(msg));
            Some(e)
        } else {
            None
        };
        Report { line, event }
    }

    /// An error of a listener or of one of its connections.
    pub fn error(&self, proto: &str, name: &str, conn: Option<u64>, msg: &str, now: u64) -> (report:
        Report)
        ensures
            text::shown(report.line) == Some(lines::error_of(now, proto@, name@, msg@)),
            event::recorded(report.event) == if self@.opts.jsonl {
                Some(
                    EventModel {
                        conn,
                        note: Some(msg@),
                        ..event::bare(now, "error"@, proto@, name@)
                    },
                )
            } else {
                None
            },
    {
        let line = Some(lines::error(now, proto, name, msg));
        let event = if self.opts.jsonl {
            let mut e = Event::new(now, "error", proto, name);
            e.conn = conn;
            e.note = Some(own(msg));
            Some(e)
        } else {
            None
        };
        Report { line, event }
    }

    /// Gives up every stream that is still open at the end of the run, each once, so
    /// that it can be finished. None stays open.
    pub fn flush(&mut self) -> (open: Vec<Held>)
        requires
            old(self).wf(),
        ensures
            final(self).wf(),
            final(self)@ == (LoggerModel {
                streams: Map::<(u64, Dir), HeldModel>::empty(),
                ..old(self)@
            }),
            table::distinct(open@),
            table::as_map(open@) == old(self)@.streams,
            forall|i: int|
                0 <= i < open@.len() ==> (#[trigger] open@[i]).stream@.wf()
                    && open@[i].stream@.limits == old(self)@.opts.stream_limits,
    {
        let open = self.table.drain();
        assert forall|i: int| 0 <= i < open@.len() implies (#[trigger] open@[i]).stream@.wf()
            && open@[i].stream@.limits == old(self)@.opts.stream_limits by {
            assert(old(self)@.streams.contains_key((open@[i].conn, open@[i].dir)));
        }
        open
    }

    /// What is said of a stream that was still open at the end of the run with
    /// something missing. The loudest truncations are those of streams that run long,
    /// so they are announced like any other.
    pub fn flushed(
        &self,
        proto: &str,
        name: &str,
        conn: u64,
        peer: &str,
        dir: Dir,
        sum: &Summary,
        now: u64,
    ) -> (report: Option<Report>)
        requires
            sum.head + sum.tail <= u64::MAX,
        ensures
            match report {
                None => sum.dropped == 0,
                Some(r) => {
                    let note = lines::open_gap_of(dir, *sum);
                    &&& sum.dropped > 0
                    &&& text::shown(r.line) == Some(lines::truncated_of(now, conn, note))
                    &&& event::recorded(r.event) == if self@.opts.jsonl {
                        Some(
                            EventModel {
                                conn: Some(conn),
                                peer: Some(peer@),
                                dir: Some(dir.name()),
                                len: Some(sum.total),
                                note: Some(note),
                                ..event::bare(now, "truncated"@, proto@, name@)
                            },
                        )
                    } else {
                        None
                    }
                },
            },
    {
        match lines::open_gap(dir, sum) {
            Some(note) => Some(self.gap_report(proto, name, conn, peer, dir, sum.total, note, now)),
            None => None,
        }
    }

    /// What is said at the end of the run.
    pub fn summary(&self) -> (out: String)
        requires
            self.wf(),
        ensures
            out@ == self@.summary_of(),
    {
        let s = self.stats;
        let mut out = String::new();
        out.append("\nconns ");
        push_decimal(&mut out, s.conns);
        out.append("  rx ");
        push_decimal(&mut out, s.rx_msgs);
        out.append(" msgs / ");
        push_decimal(&mut out, s.rx_bytes);
        out.append(" bytes  tx ");
        push_decimal(&mut out, s.tx_msgs);
        out.append(" msgs / ");
        push_decimal(&mut out, s.tx_bytes);
        out.append(" bytes");
        let ghost counters = self@.counters_of();
        assert(out@ =~= counters);
        if self.writes_files() {
            out.append("\ncapture: ");
            out.append(self.run_dir.as_str());
            out.append(" (");
            out.append(human(self.budget.used()).as_str());
            out.append(" written)");
        }
        assert(out@ =~= counters + self@.capture_of());
        if self.budget.stopped() {
            out.append("\nWARNING: the ");
            out.append(human(self.opts.max_run_bytes).as_str());
            out.append(" run cap was hit, so this capture is incomplete on disk");
        }
        assert(out@ =~= self@.summary_of());
        out
    }
}

impl LoggerModel {
    /// The counters at the end of the run.
    pub open spec fn counters_of(self) -> Seq<char> {
        "\nconns "@ + text::decimal(self.stats.conns as nat) + "  rx "@ + text::decimal(
            self.stats.rx_msgs as nat,
        ) + " msgs / "@ + text::decimal(self.stats.rx_bytes as nat) + " bytes  tx "@
            + text::decimal(self.stats.tx_msgs as nat) + " msgs / "@ + text::decimal(
            self.stats.tx_bytes as nat,
        ) + " bytes"@
    }

    /// Where the capture is and how much was written, where anything is.
    pub open spec fn capture_of(self) -> Seq<char> {
        if self.opts.jsonl || self.opts.raw {
            "\ncapture: "@ + self.run_dir() + " ("@ + stream::human_of(self.budget.used as nat)
                + " written)"@
        } else {
            Seq::empty()
        }
    }

    /// What is said at the end of the run.
    pub open spec fn summary_of(self) -> Seq<char> {
        self.counters_of() + self.capture_of() + (if self.budget.stopped {
            "\nWARNING: the "@ + stream::human_of(self.opts.max_run_bytes as nat)
                + " run cap was hit, so this capture is incomplete on disk"@
        } else {
            Seq::empty()
        })
    }
}

} // verus!
