//! Head-plus-tail capture.
//!
//! Banners, handshakes and framing headers live at the front of a stream, and
//! whatever happened last lives at its end. Both ends are kept and the middle is
//! dropped. The two ends go to two files and are never joined: a single file with
//! a hole in it would be read as contiguous.
use crate::text;
use crate::text::{chars_of, parse_unsigned, push_decimal, quote, trim_of};
use std::collections::VecDeque;
use vstd::prelude::*;

verus! {

/// How much of a stream is kept.
#[derive(Clone, Copy, Debug)]
pub struct Limits {
    /// bytes kept at the front of the stream; 0 means unlimited
    pub head: u64,
    /// bytes kept at the end of the stream; 0 disables the tail file
    pub tail: usize,
}

impl Default for Limits {
    fn default() -> (limits: Self)
        ensures
            limits.head == 0,
            limits.tail == 0,
    {
        Limits { head: 0, tail: 0 }
    }
}

impl Limits {
    /// Whether the whole stream is kept.
    pub fn unlimited(&self) -> (b: bool)
        ensures
            b == (self.head == 0),
    {
        self.head == 0
    }
}

/// One direction of one connection, as far as it has been captured.
pub struct Stream {
    tail_path: String,
    head_written: u64,
    tail: VecDeque<u8>,
    limits: Limits,
    total: u64,
    dropped: u64,
    truncating: bool,
}

/// What is known of a stream.
pub struct StreamModel {
    pub tail_path: Seq<char>,
    pub limits: Limits,
    /// how many bytes have gone to the head file
    pub head: int,
    /// the bytes held for the tail file
    pub tail: Seq<u8>,
    /// how many bytes have been lost
    pub dropped: int,
    /// how many bytes have arrived
    pub total: int,
    /// whether the stream has outgrown its head
    pub truncating: bool,
}

impl View for Stream {
    type V = StreamModel;

    closed spec fn view(&self) -> StreamModel {
        StreamModel {
            tail_path: self.tail_path@,
            limits: self.limits,
            head: self.head_written as int,
            tail: self.tail@,
            dropped: self.dropped as int,
            total: self.total as int,
            truncating: self.truncating,
        }
    }
}

/// What landed on disk for one direction of one connection.
pub struct Summary {
    pub total: u64,
    pub head: u64,
    pub tail: usize,
    pub dropped: u64,
    /// present only when bytes actually landed in the tail file
    pub tail_path: Option<String>,
}

/// At most the last `n` bytes.
pub open spec fn last_bytes(s: Seq<u8>, n: int) -> Seq<u8> {
    if s.len() > n {
        s.skip(s.len() - n)
    } else {
        s
    }
}

impl StreamModel {
    /// Every byte that has arrived is in the head file, held for the tail file
    /// or lost, and neither end is over its limit.
    pub open spec fn wf(self) -> bool {
        &&& 0 <= self.head
        &&& 0 <= self.dropped
        &&& self.total == self.head + self.tail.len() + self.dropped
        &&& self.total <= u64::MAX
        &&& self.limits.head == 0 ==> self.tail.len() == 0 && self.dropped == 0 && !self.truncating
        &&& self.limits.head > 0 ==> self.head <= self.limits.head && self.tail.len()
            <= self.limits.tail
    }

    /// How many bytes of a write still belong to the head.
    pub open spec fn kept(self, data: Seq<u8>) -> int {
        if self.limits.head == 0 || data.len() <= self.limits.head - self.head {
            data.len() as int
        } else {
            self.limits.head - self.head
        }
    }

    /// The stream after a write: what does not fit the head is put behind the
    /// tail, and the tail gives up its oldest bytes.
    pub open spec fn after(self, data: Seq<u8>) -> StreamModel {
        let kept = self.kept(data);
        let both = self.tail + data.skip(kept);
        let tail = last_bytes(both, self.limits.tail as int);
        StreamModel {
            head: self.head + kept,
            tail: if kept == data.len() {
                self.tail
            } else {
                tail
            },
            dropped: self.dropped + if kept == data.len() {
                0
            } else {
                both.len() - tail.len()
            },
            total: self.total + data.len(),
            truncating: self.truncating || kept < data.len(),
            ..self
        }
    }

    /// Whether a write is the first that the head cannot hold.
    pub open spec fn announces(self, data: Seq<u8>) -> bool {
        !self.truncating && self.kept(data) < data.len()
    }

    /// Whether this is what capturing `h`, and nothing else, leaves: the front up
    /// to the head's limit in the head file, the end up to the tail's limit held
    /// for the tail file, and the rest lost.
    pub open spec fn captures(self, h: Seq<u8>) -> bool {
        let over = if self.limits.head == 0 || h.len() <= self.limits.head {
            Seq::empty()
        } else {
            h.skip(self.limits.head as int)
        };
        &&& self.total == h.len()
        &&& self.head == h.len() - over.len()
        &&& self.tail == last_bytes(over, self.limits.tail as int)
        &&& self.dropped == over.len() - self.tail.len()
        &&& self.truncating == (over.len() > 0)
    }
}

impl Stream {
    /// A stream of which nothing has arrived.
    pub fn create(tail_path: String, limits: Limits) -> (s: Self)
        ensures
            s@.wf(),
            s@ == (StreamModel {
                tail_path: tail_path@,
                limits,
                head: 0,
                tail: Seq::empty(),
                dropped: 0,
                total: 0,
                truncating: false,
            }),
    {
        Stream {
            tail_path,
            head_written: 0,
            tail: VecDeque::new(),
            limits,
            total: 0,
            dropped: 0,
            truncating: false,
        }
    }

    /// Captures `data`: what belongs to the head file is appended to `head`.
    /// Returns true exactly once, on the write that first exceeds the head, so
    /// that the truncation can be announced.
    pub fn write(&mut self, data: &[u8], head: &mut Vec<u8>) -> (announce: bool)
        requires
            old(self)@.wf(),
            old(self)@.total + data.len() <= u64::MAX,
        ensures
            final(self)@.wf(),
            final(self)@ == old(self)@.after(data@),
            final(head)@ == old(head)@ + data@.take(old(self)@.kept(data@)),
            announce == old(self)@.announces(data@),
    {
        let ghost before = self@;
        self.total = self.total + data.len() as u64;
        let n: usize = if self.limits.head == 0 || data.len() as u64 <= self.limits.head
            - self.head_written {
            data.len()
        } else {
            (self.limits.head - self.head_written) as usize
        };
        assert(n == before.kept(data@));
        crate::bytes::push_bytes(head, vstd::slice::slice_subrange(data, 0, n));
        assert(data@.subrange(0, n as int) =~= data@.take(n as int));
        self.head_written = self.head_written + n as u64;
        if n == data.len() {
            return false;
        }
        let first = !self.truncating;
        self.truncating = true;
        let ghost over = data@.skip(n as int);
        let cap: usize = self.limits.tail;
        let mut i: usize = n;
        let more: usize = data.len() - n;
        if more >= cap {
            // this write alone overruns the tail: only its last bytes stay
            self.dropped = self.dropped + self.tail.len() as u64 + (more - cap) as u64;
            self.tail.clear();
            i = data.len() - cap;
            assert(last_bytes(before.tail + over, cap as int) =~= data@.skip(i as int));
        } else {
            let room: usize = cap - self.tail.len();
            let overflow: usize = if more > room { more - room } else { 0 };
            self.dropped = self.dropped + overflow as u64;
            let mut k: usize = 0;
            assert(before.tail.skip(0) =~= before.tail);
            while k < overflow
                invariant
                    k <= overflow <= before.tail.len(),
                    self.tail@ == before.tail.skip(k as int),
                    self.tail_path == old(self).tail_path,
                    self.limits == old(self).limits,
                    self.head_written == old(self).head_written + n,
                    self.total == old(self).total + data.len(),
                    self.dropped == old(self).dropped + overflow,
                    self.truncating,
                decreases overflow - k,
            {
                self.tail.pop_front();
                k += 1;
                assert(self.tail@ =~= before.tail.skip(k as int));
            }
            assert(last_bytes(before.tail + over, cap as int) =~= before.tail.skip(overflow as int)
                + data@.skip(i as int));
        }
        let ghost start = i as int;
        let ghost base = self.tail@;
        let ghost dropped = self.dropped;
        assert(base + data@.subrange(start, start) =~= base);
        while i < data.len()
            invariant
                start <= i <= data.len(),
                0 <= start,
                self.tail@ == base + data@.subrange(start, i as int),
                self.tail_path == old(self).tail_path,
                self.limits == old(self).limits,
                self.head_written == old(self).head_written + n,
                self.total == old(self).total + data.len(),
                self.dropped == dropped,
                self.truncating,
            decreases data.len() - i,
        {
            self.tail.push_back(data[i]);
            i += 1;
            assert(self.tail@ =~= base + data@.subrange(start, i as int));
        }
        assert(self.tail@ =~= last_bytes(before.tail + over, cap as int));
        first
    }

    /// How many bytes have arrived.
    pub fn total(&self) -> (n: u64)
        ensures
            n == self@.total,
    {
        self.total
    }

    /// The name of the tail file.
    pub fn tail_path(&self) -> (path: &str)
        ensures
            path@ == self@.tail_path,
    {
        self.tail_path.as_str()
    }

    /// The bytes for the tail file.
    pub fn tail_bytes(&self) -> (out: Vec<u8>)
        ensures
            out@ == self@.tail,
    {
        let mut out: Vec<u8> = Vec::new();
        let mut i: usize = 0;
        while i < self.tail.len()
            invariant
                i <= self.tail.len(),
                out@ == self.tail@.take(i as int),
            decreases self.tail.len() - i,
        {
            out.push(self.tail[i]);
            i += 1;
            assert(out@ =~= self.tail@.take(i as int));
        }
        assert(self.tail@.take(i as int) =~= self.tail@);
        out
    }

    /// Closes the stream; `landed` says whether the tail file could be created.
    pub fn finish(self, landed: bool) -> (sum: Summary)
        ensures
            sum.total == self@.total,
            sum.head == self@.head,
            sum.tail == self@.tail.len(),
            sum.dropped == self@.dropped,
            sum.tail_path is Some <==> self@.tail.len() > 0 && landed,
            sum.tail_path matches Some(path) ==> path@ == self@.tail_path,
    {
        let tail: usize = self.tail.len();
        Summary {
            total: self.total,
            head: self.head_written,
            tail,
            dropped: self.dropped,
            tail_path: if tail > 0 && landed {
                Some(self.tail_path)
            } else {
                None
            },
        }
    }
}

// ------------------------------------------------------------- laws

/// A capture goes on being a capture of all that has arrived, whatever the sizes
/// of the writes: the head file holds the front, the tail holds the end.
pub proof fn a_write_extends_the_capture(m: StreamModel, h: Seq<u8>, file: Seq<u8>, data: Seq<u8>)
    requires
        m.wf(),
        m.captures(h),
        file == h.take(m.head),
    ensures
        m.after(data).captures(h + data),
        file + data.take(m.kept(data)) == (h + data).take(m.after(data).head),
{
    let all = h + data;
    let kept = m.kept(data);
    let n = m.after(data);
    if m.limits.head == 0 || all.len() <= m.limits.head {
        assert(m.tail =~= Seq::empty());
    } else {
        let over = all.skip(m.limits.head as int);
        if h.len() <= m.limits.head {
            assert(m.tail + data.skip(kept) =~= over);
        } else {
            let had = h.skip(m.limits.head as int);
            assert(over =~= had + data);
            assert(data.skip(0) =~= data);
            if data.len() > 0 {
                assert(last_bytes(m.tail + data, m.limits.tail as int) =~= last_bytes(
                    over,
                    m.limits.tail as int,
                ));
            } else {
                assert(over =~= had);
            }
        }
    }
    assert(file + data.take(kept) =~= all.take(n.head));
}

/// The stream after several writes.
pub open spec fn after_all(m: StreamModel, writes: Seq<Seq<u8>>) -> StreamModel
    decreases writes.len(),
{
    if writes.len() == 0 {
        m
    } else {
        after_all(m, writes.drop_last()).after(writes.last())
    }
}

/// What the head file holds after several writes.
pub open spec fn head_after(m: StreamModel, writes: Seq<Seq<u8>>) -> Seq<u8>
    decreases writes.len(),
{
    if writes.len() == 0 {
        Seq::empty()
    } else {
        let before = after_all(m, writes.drop_last());
        head_after(m, writes.drop_last()) + writes.last().take(before.kept(writes.last()))
    }
}

/// How many of several writes announce a truncation.
pub open spec fn announcements(m: StreamModel, writes: Seq<Seq<u8>>) -> nat
    decreases writes.len(),
{
    if writes.len() == 0 {
        0
    } else {
        let before = after_all(m, writes.drop_last());
        announcements(m, writes.drop_last()) + if before.announces(writes.last()) {
            1nat
        } else {
            0nat
        }
    }
}

/// The bytes of several writes, one behind the other.
pub open spec fn written(writes: Seq<Seq<u8>>) -> Seq<u8>
    decreases writes.len(),
{
    if writes.len() == 0 {
        Seq::empty()
    } else {
        written(writes.drop_last()) + writes.last()
    }
}

/// A stream that nothing has been written to.
pub open spec fn is_fresh(m: StreamModel) -> bool {
    m.head == 0 && m.tail.len() == 0 && m.dropped == 0 && m.total == 0 && !m.truncating
}

/// However a stream is cut into writes, the head file ends up holding its first
/// bytes up to the head's limit, the tail its last bytes up to the tail's limit,
/// and every byte is counted. The truncation is announced once, and only when
/// the stream outgrows its head, so no byte is lost without a word. A stream without
/// a limit goes to the head file as it is.
pub proof fn both_ends_are_kept(m: StreamModel, writes: Seq<Seq<u8>>)
    requires
        is_fresh(m),
        written(writes).len() <= u64::MAX,
    ensures
        ({
            let end = after_all(m, writes);
            let h = written(writes);
            &&& end.wf()
            &&& end.captures(h)
            &&& head_after(m, writes) == h.take(end.head)
            &&& announcements(m, writes) == if m.limits.head > 0 && h.len() > m.limits.head {
                1nat
            } else {
                0nat
            }
            &&& end.dropped > 0 ==> announcements(m, writes) == 1
            &&& m.limits.head == 0 ==> head_after(m, writes) == h && end.dropped == 0
        }),
    decreases writes.len(),
{
    if writes.len() == 0 {
        assert(m.tail =~= Seq::empty());
        assert(written(writes).take(0) =~= Seq::empty());
    } else {
        both_ends_are_kept(m, writes.drop_last());
        limits_stay(m, writes.drop_last());
        let before = after_all(m, writes.drop_last());
        a_write_extends_the_capture(
            before,
            written(writes.drop_last()),
            head_after(m, writes.drop_last()),
            writes.last(),
        );
        limits_stay(m, writes);
    }
    let h = written(writes);
    assert(h.take(h.len() as int) =~= h);
}

proof fn limits_stay(m: StreamModel, writes: Seq<Seq<u8>>)
    ensures
        after_all(m, writes).limits == m.limits,
    decreases writes.len(),
{
    if writes.len() > 0 {
        limits_stay(m, writes.drop_last());
    }
}

/// Nothing is lost from a stream that fits its two ends, and a stream that fits
/// its head leaves nothing for the tail file.
pub proof fn a_stream_that_fits_is_kept_whole(m: StreamModel, h: Seq<u8>)
    requires
        m.captures(h),
    ensures
        m.limits.head == 0 || h.len() <= m.limits.head ==> m.head == h.len() && m.tail.len() == 0
            && m.dropped == 0,
        m.dropped == 0 <==> m.limits.head == 0 || h.len() <= m.limits.head + m.limits.tail,
{
}

// ------------------------------------------------------------- sizes

/// A size in a unit, with one decimal unless it is zero.
pub open spec fn in_units(n: nat, scale: nat, suffix: Seq<char>) -> Seq<char> {
    let tenths = n % scale * 10 / scale;
    text::decimal(n / scale) + (if tenths == 0 {
        Seq::empty()
    } else {
        "."@ + text::decimal(tenths)
    }) + suffix
}

/// A size in the largest unit that it reaches, cut off after one decimal.
pub open spec fn human_of(n: nat) -> Seq<char> {
    if n >= 0x4000_0000 {
        in_units(n, 0x4000_0000, "G"@)
    } else if n >= 0x10_0000 {
        in_units(n, 0x10_0000, "M"@)
    } else if n >= 0x400 {
        in_units(n, 0x400, "K"@)
    } else {
        text::decimal(n) + "B"@
    }
}

fn push_units(out: &mut String, n: u64, scale: u64, suffix: &str)
    requires
        0 < scale <= 0x4000_0000,
    ensures
        final(out)@ == old(out)@ + in_units(n as nat, scale as nat, suffix@),
{
    push_decimal(out, n / scale);
    assert(n % scale * 10 <= 0x4000_0000 * 10);
    let tenths: u64 = n % scale * 10 / scale;
    if tenths != 0 {
        out.append(".");
        push_decimal(out, tenths);
    }
    out.append(suffix);
    assert(out@ =~= old(out)@ + in_units(n as nat, scale as nat, suffix@));
}

/// A size for a log line, so it stays short: 1536 is "1.5K".
pub fn human(n: u64) -> (out: String)
    ensures
        out@ == human_of(n as nat),
{
    let mut out = String::new();
    if n >= 0x4000_0000 {
        push_units(&mut out, n, 0x4000_0000, "G");
    } else if n >= 0x10_0000 {
        push_units(&mut out, n, 0x10_0000, "M");
    } else if n >= 0x400 {
        push_units(&mut out, n, 0x400, "K");
    } else {
        push_decimal(&mut out, n);
        out.append("B");
    }
    assert(out@ =~= human_of(n as nat));
    out
}

/// Why a size cannot be read.
#[derive(Clone, Copy, Debug, PartialEq, Eq, Structural)]
pub enum SizeFault {
    Empty,
    Bad,
    Overflow,
}

/// A size without the `b` that may end it.
pub open spec fn without_b(t: Seq<char>) -> Seq<char> {
    if t.len() > 0 && (t.last() == 'b' || t.last() == 'B') {
        t.drop_last()
    } else {
        t
    }
}

/// The factor that the last character of a size stands for.
pub open spec fn factor_of(t: Seq<char>) -> nat {
    if t.len() == 0 {
        1
    } else if t.last() == 'k' || t.last() == 'K' {
        0x400
    } else if t.last() == 'm' || t.last() == 'M' {
        0x10_0000
    } else if t.last() == 'g' || t.last() == 'G' {
        0x4000_0000
    } else {
        1
    }
}

/// The part of a size in front of its unit.
pub open spec fn count_of(t: Seq<char>) -> Seq<char> {
    if factor_of(t) == 1 {
        t
    } else {
        t.drop_last()
    }
}

/// The size that a text names: a number, a unit or none, a `b` or none, white
/// space around the whole and behind the number.
pub open spec fn size_of(s: Seq<char>) -> Result<nat, SizeFault> {
    let t = without_b(text::trim(s));
    if text::trim(s).len() == 0 {
        Err(SizeFault::Empty)
    } else {
        match text::unsigned_of(text::trim(count_of(t))) {
            None => Err(SizeFault::Bad),
            Some(n) => if n * factor_of(t) > u64::MAX {
                Err(SizeFault::Overflow)
            } else {
                Ok(n * factor_of(t))
            },
        }
    }
}

/// What is said of a size that cannot be read, from its quoted text.
pub open spec fn size_message_of(fault: SizeFault, quoted: Seq<char>) -> Seq<char> {
    match fault {
        SizeFault::Empty => "empty size"@,
        SizeFault::Bad => "bad size "@ + quoted + ", want something like 8M or 512K"@,
        SizeFault::Overflow => "size "@ + quoted + " overflows"@,
    }
}

/// Reads a size.
pub fn read_size(s: &str) -> (size: Result<u64, SizeFault>)
    ensures
        match size {
            Ok(n) => size_of(s@) == Ok::<nat, SizeFault>(n as nat),
            Err(fault) => size_of(s@) == Err::<nat, SizeFault>(fault),
        },
{
    let chars = chars_of(s);
    let trimmed: &[char] = trim_of(chars.as_slice());
    let len: usize = trimmed.len();
    if len == 0 {
        return Err(SizeFault::Empty);
    }
    let t: &[char] = if trimmed[len - 1] == 'b' || trimmed[len - 1] == 'B' {
        vstd::slice::slice_subrange(trimmed, 0, len - 1)
    } else {
        trimmed
    };
    assert(t@ =~= without_b(text::trim(s@)));
    let mut factor: u64 = 1;
    if t.len() > 0 {
        let c = t[t.len() - 1];
        if c == 'k' || c == 'K' {
            factor = 0x400;
        } else if c == 'm' || c == 'M' {
            factor = 0x10_0000;
        } else if c == 'g' || c == 'G' {
            factor = 0x4000_0000;
        }
    }
    assert(factor == factor_of(t@));
    let count: &[char] = if factor == 1 {
        t
    } else {
        vstd::slice::slice_subrange(t, 0, t.len() - 1)
    };
    assert(count@ =~= count_of(t@));
    match parse_unsigned(trim_of(count)) {
        None => Err(SizeFault::Bad),
        Some(n) => match n.checked_mul(factor) {
            None => Err(SizeFault::Overflow),
            Some(size) => Ok(size),
        },
    }
}

/// What is said of a size that cannot be read, from its quoted text.
pub fn size_message(fault: SizeFault, quoted: &str) -> (out: String)
    ensures
        out@ == size_message_of(fault, quoted@),
{
    let mut out = String::new();
    match fault {
        SizeFault::Empty => {
            out.append("empty size");
        },
        SizeFault::Bad => {
            out.append("bad size ");
            out.append(quoted);
            out.append(", want something like 8M or 512K");
        },
        SizeFault::Overflow => {
            out.append("size ");
            out.append(quoted);
            out.append(" overflows");
        },
    }
    assert(out@ =~= size_message_of(fault, quoted@));
    out
}

/// "8M", "512K", "1G", "4096": case-insensitive, with an optional trailing B.
pub fn parse_size(s: &str) -> (size: Result<u64, String>)
    ensures
        match size {
            Ok(n) => size_of(s@) == Ok::<nat, SizeFault>(n as nat),
            Err(message) => size_of(s@) is Err && message@ == size_message_of(
                size_of(s@)->Err_0,
                text::quoted(s@),
            ),
        },
{
    match read_size(s) {
        Ok(n) => Ok(n),
        Err(fault) => Err(size_message(fault, quote(s).as_str())),
    }
}

proof fn digits_are_not_trimmed(s: Seq<char>)
    requires
        s.len() > 0,
        text::all_digits(s),
    ensures
        text::trim(s) == s,
{
    assert(text::is_digit(s[0]));
    assert(text::is_digit(s.last()));
}

/// A numeral of digits, with a unit behind it or not, names that many units.
pub proof fn a_numeral_names_its_size(n: nat, unit: char)
    requires
        n <= u64::MAX,
        unit == 'K' || unit == 'M' || unit == 'G' || unit == 'k' || unit == 'm' || unit == 'g',
    ensures
        size_of(text::decimal(n)) == Ok::<nat, SizeFault>(n),
        size_of(text::decimal(n).push('B')) == Ok::<nat, SizeFault>(n),
        ({
            let s = text::decimal(n).push(unit);
            let bytes = n * factor_of(s);
            size_of(s) == if bytes <= u64::MAX {
                Ok::<nat, SizeFault>(bytes)
            } else {
                Err(SizeFault::Overflow)
            }
        }),
{
    text::decimal_reads_back(n);
    let d = text::decimal(n);
    digits_are_not_trimmed(d);
    assert(text::is_digit(d[0]));
    assert(text::is_digit(d.last()));
    assert(without_b(d) == d && factor_of(d) == 1 && count_of(d) == d);
    assert(n * factor_of(d) == n) by (nonlinear_arith)
        requires
            factor_of(d) == 1,
    ;
    let b = d.push('B');
    assert(text::trim(b) == b);
    assert(without_b(b) =~= d);
    let u = d.push(unit);
    assert(text::trim(u) == u);
    assert(u.drop_last() =~= d);
}

/// A size that is a whole number of the unit it is shown in reads back as itself.
pub proof fn whole_units_read_back(n: nat)
    requires
        n <= u64::MAX,
        n >= 0x4000_0000 ==> n % 0x4000_0000 == 0,
        0x10_0000 <= n < 0x4000_0000 ==> n % 0x10_0000 == 0,
        0x400 <= n < 0x10_0000 ==> n % 0x400 == 0,
    ensures
        size_of(human_of(n)) == Ok::<nat, SizeFault>(n),
{
    if n >= 0x4000_0000 {
        whole_in_units(n, 0x4000_0000, 'G', "G"@);
    } else if n >= 0x10_0000 {
        whole_in_units(n, 0x10_0000, 'M', "M"@);
    } else if n >= 0x400 {
        whole_in_units(n, 0x400, 'K', "K"@);
    } else {
        a_numeral_names_its_size(n, 'K');
        reveal_strlit("B");
        assert("B"@ =~= seq!['B']);
        assert(text::decimal(n) + seq!['B'] =~= text::decimal(n).push('B'));
    }
}

proof fn whole_in_units(n: nat, scale: nat, unit: char, suffix: Seq<char>)
    requires
        n <= u64::MAX,
        n % scale == 0,
        (scale == 0x400 && unit == 'K' && suffix == "K"@) || (scale == 0x10_0000 && unit == 'M'
            && suffix == "M"@) || (scale == 0x4000_0000 && unit == 'G' && suffix == "G"@),
    ensures
        size_of(in_units(n, scale, suffix)) == Ok::<nat, SizeFault>(n),
{
    let k = n / scale;
    assert(k <= n && k * scale == n) by {
        if scale == 0x400 {
        } else if scale == 0x10_0000 {
        } else {
        }
    }
    a_numeral_names_its_size(k, unit);
    assert(suffix =~= seq![unit]) by {
        reveal_strlit("G");
        reveal_strlit("M");
        reveal_strlit("K");
    }
    let s = text::decimal(k).push(unit);
    assert(factor_of(s) == scale);
    assert(in_units(n, scale, suffix) =~= s);
}

// ------------------------------------------------------------- what is kept

/// How many of `n` bytes go to the head file.
pub open spec fn in_head(limits: Limits, n: int) -> int {
    if limits.head == 0 || n <= limits.head {
        n
    } else {
        limits.head as int
    }
}

/// How many of `n` bytes are held for the tail file: as many as it may hold of those
/// that the head file does not.
pub open spec fn in_tail(limits: Limits, n: int) -> int {
    let over = n - in_head(limits, n);
    if over <= limits.tail {
        over
    } else {
        limits.tail as int
    }
}

/// Whether this is what is left of a stream that was `h`.
pub open spec fn is_left_of(m: StreamModel, h: Seq<u8>) -> bool {
    let n = h.len() as int;
    &&& m.total == n
    &&& m.head == in_head(m.limits, n)
    &&& m.tail == h.skip(n - in_tail(m.limits, n))
    &&& m.dropped == n - in_head(m.limits, n) - in_tail(m.limits, n)
    &&& m.truncating <==> in_head(m.limits, n) < n
}

proof fn a_capture_is_what_is_left(m: StreamModel, h: Seq<u8>)
    ensures
        m.captures(h) <==> is_left_of(m, h),
{
    let n = h.len() as int;
    let k = in_head(m.limits, n);
    let t = in_tail(m.limits, n);
    let over = if m.limits.head == 0 || h.len() <= m.limits.head {
        Seq::empty()
    } else {
        h.skip(m.limits.head as int)
    };
    assert(over =~= h.skip(k));
    assert(last_bytes(over, m.limits.tail as int) =~= h.skip(n - t));
}

/// However a stream is cut into writes, its front is in the head file, its end is
/// held for the tail file, the bytes between them are counted as lost, and that it
/// outgrew its head was announced once, if it did.
pub proof fn both_ends_are_left(m: StreamModel, writes: Seq<Seq<u8>>)
    requires
        is_fresh(m),
        written(writes).len() <= u64::MAX,
    ensures
        ({
            let h = written(writes);
            let n = h.len() as int;
            &&& after_all(m, writes).limits == m.limits
            &&& is_left_of(after_all(m, writes), h)
            &&& head_after(m, writes) == h.take(in_head(m.limits, n))
            &&& announcements(m, writes) == if in_head(m.limits, n) < n {
                1nat
            } else {
                0nat
            }
        }),
{
    both_ends_are_kept(m, writes);
    limits_stay(m, writes);
    a_capture_is_what_is_left(after_all(m, writes), written(writes));
}

/// A `write` goes on with what is left of a stream: the head file gets the bytes
/// that still belong to it, in their order, and the write that first passes the
/// head is announced.
pub proof fn a_write_is_kept(
    s: &mut Stream,
    data: &[u8],
    head: &mut Vec<u8>,
    announce: bool,
    h: Seq<u8>,
)
    requires
        call_ensures(Stream::write, (s, data, head), announce),
        old(s)@.wf(),
        is_left_of(old(s)@, h),
    ensures
        ({
            let limits = old(s)@.limits;
            let all = h + data@;
            let before = in_head(limits, h.len() as int);
            let after = in_head(limits, all.len() as int);
            &&& final(s)@.limits == limits
            &&& final(s)@.tail_path == old(s)@.tail_path
            &&& is_left_of(final(s)@, all)
            &&& final(head)@ == old(head)@ + all.subrange(before, after)
            &&& announce <==> before == h.len() && after < all.len()
        }),
{
    a_kept_write_is_what_is_left(old(s)@, h, data@);
}

/// A new stream has nothing behind it, and one that is finished says what became of
/// its bytes; a tail file is named only if there is something in it.
pub proof fn a_stream_begins_and_ends(
    path: String,
    limits: Limits,
    s: Stream,
    t: Stream,
    landed: bool,
    sum: Summary,
)
    requires
        call_ensures(Stream::create, (path, limits), s),
        call_ensures(Stream::finish, (t, landed), sum),
    ensures
        s@.limits == limits,
        s@.tail_path == path@,
        is_left_of(s@, Seq::empty()),
        sum.total == t@.total,
        sum.head == t@.head,
        sum.tail == t@.tail.len(),
        sum.dropped == t@.dropped,
        sum.tail_path is Some <==> t@.tail.len() > 0 && landed,
        sum.tail_path matches Some(p) ==> p@ == t@.tail_path,
{
    let none = Seq::<u8>::empty();
    assert(none.skip(0) =~= none);
}

// ------------------------------------------------------------- what sizes say

/// Whether `text` is a size in a unit of that many bytes: `q` whole units, and `t`
/// tenths unless there are none, both rounded down.
pub open spec fn is_tenths(
    text: Seq<char>,
    n: nat,
    scale: nat,
    suffix: Seq<char>,
    q: nat,
    t: nat,
) -> bool {
    &&& t < 10
    &&& (10 * q + t) * scale <= 10 * n < (10 * q + t + 1) * scale
    &&& text == text::decimal(q) + (if t == 0 {
        Seq::empty()
    } else {
        "."@ + text::decimal(t)
    }) + suffix
}

/// Whether `text` is a size in a unit of that many bytes, to a tenth and rounded
/// down.
pub open spec fn is_in_units(text: Seq<char>, n: nat, scale: nat, suffix: Seq<char>) -> bool {
    exists|q: nat, t: nat| #[trigger] is_tenths(text, n, scale, suffix, q, t)
}

proof fn units_are_rounded_down(n: nat, scale: nat, suffix: Seq<char>)
    requires
        scale == 0x400 || scale == 0x10_0000 || scale == 0x4000_0000,
    ensures
        is_in_units(in_units(n, scale, suffix), n, scale, suffix),
{
    let q = n / scale;
    let t = n % scale * 10 / scale;
    if scale == 0x400 {
        assert((10 * q + t) * 0x400 <= 10 * n < (10 * q + t + 1) * 0x400);
    } else if scale == 0x10_0000 {
        assert((10 * q + t) * 0x10_0000 <= 10 * n < (10 * q + t + 1) * 0x10_0000);
    } else {
        assert((10 * q + t) * 0x4000_0000 <= 10 * n < (10 * q + t + 1) * 0x4000_0000);
    }
    assert(t < 10);
    assert(is_tenths(in_units(n, scale, suffix), n, scale, suffix, q, t));
}

/// A size is shown in the largest unit of 1024, 1024 times 1024 or 1024 times that
/// which it reaches, to a tenth and rounded down, and in bytes below all of them.
pub proof fn sizes_are_shown_in_units(n: nat)
    ensures
        n < 1024 ==> human_of(n) == text::decimal(n) + "B"@,
        1024 <= n < 1024 * 1024 ==> is_in_units(human_of(n), n, 1024, "K"@),
        1024 * 1024 <= n < 1024 * 1024 * 1024 ==> is_in_units(human_of(n), n, 1024 * 1024, "M"@),
        1024 * 1024 * 1024 <= n ==> is_in_units(human_of(n), n, 1024 * 1024 * 1024, "G"@),
{
    units_are_rounded_down(n, 0x400, "K"@);
    units_are_rounded_down(n, 0x10_0000, "M"@);
    units_are_rounded_down(n, 0x4000_0000, "G"@);
}

/// How many bytes a unit has.
pub open spec fn unit_bytes(unit: char) -> nat {
    if unit == 'K' || unit == 'k' {
        1024
    } else if unit == 'M' || unit == 'm' {
        1024 * 1024
    } else {
        1024 * 1024 * 1024
    }
}

/// A size is a number, in units of 1024 and its powers or in bytes, with a `b`
/// behind it or not, in any case and with white space around the number or the whole;
/// what 64 bits cannot hold is refused.
#[verifier::rlimit(50)]
pub proof fn sizes_are_read_in_units(
    n: nat,
    unit: char,
    b: char,
    front: Seq<char>,
    gap: Seq<char>,
    back: Seq<char>,
)
    requires
        n <= u64::MAX,
        unit == 'K' || unit == 'M' || unit == 'G' || unit == 'k' || unit == 'm' || unit == 'g',
        b == 'B' || b == 'b',
        text::all_white(front),
        text::all_white(gap),
        text::all_white(back),
    ensures
        ({
            let d = text::decimal(n);
            let bytes = n * unit_bytes(unit);
            let size = if bytes <= u64::MAX {
                Ok::<nat, SizeFault>(bytes)
            } else {
                Err(SizeFault::Overflow)
            };
            &&& size_of(front + d + back) == Ok::<nat, SizeFault>(n)
            &&& size_of(front + (d + gap + seq![b]) + back) == Ok::<nat, SizeFault>(n)
            &&& size_of(front + (d + gap + seq![unit]) + back) == size
            &&& size_of(front + (d + gap + seq![unit, b]) + back) == size
        }),
        size_of(front) == Err::<nat, SizeFault>(SizeFault::Empty),
{
    let d = text::decimal(n);
    text::decimal_reads_back(n);
    assert(text::is_digit(d[0]));
    assert(text::is_digit(d.last()));
    let none = Seq::<char>::empty();
    assert(text::all_white(none));
    // the number on its own
    text::trimming_leaves_the_middle(front, d, back);
    text::trimming_leaves_the_middle(none, d, none);
    assert(none + d + none =~= d);
    assert(without_b(d) == d && factor_of(d) == 1 && count_of(d) == d);
    assert(n * 1 == n) by (nonlinear_arith);
    // with a `b`
    let db = d + gap + seq![b];
    assert(db[0] == d[0] && db.last() == b);
    text::trimming_leaves_the_middle(front, db, back);
    text::trimming_leaves_the_middle(none, d, gap);
    assert(none + d + gap =~= d + gap);
    let dg = d + gap;
    assert(db.drop_last() =~= dg);
    assert(dg.last() == if gap.len() > 0 {
        gap.last()
    } else {
        d.last()
    });
    assert(factor_of(dg) == 1) by {
        if gap.len() > 0 {
            assert(text::is_white_space(gap[gap.len() - 1]));
        }
    }
    assert(count_of(dg) == dg);
    // with a unit
    let du = d + gap + seq![unit];
    assert(du[0] == d[0] && du.last() == unit);
    text::trimming_leaves_the_middle(front, du, back);
    assert(without_b(du) == du);
    assert(factor_of(du) == unit_bytes(unit));
    assert(du.drop_last() =~= dg);
    assert(count_of(du) == dg);
    // with both
    let dub = d + gap + seq![unit, b];
    assert(dub[0] == d[0] && dub.last() == b);
    text::trimming_leaves_the_middle(front, dub, back);
    assert(dub.drop_last() =~= du);
    assert(without_b(dub) == du);
    // nothing at all
    text::trimming_leaves_the_middle(front, none, none);
    assert(front + none + none =~= front);
}

/// A size whose number is no numeral is refused.
pub proof fn other_sizes_are_refused(s: Seq<char>)
    ensures
        size_of(s) is Ok ==> exists|i: int|
            0 <= i < s.len() && '0' <= #[trigger] s[i] <= '9',
{
    if size_of(s) is Ok {
        let t = without_b(text::trim(s));
        let c = text::trim(count_of(t));
        text::numerals_are_read(0, c);
        let digits = text::unsigned_part(c);
        let k = if c[0] == '+' {
            1int
        } else {
            0
        };
        assert(digits[0] == c[k]);
        assert(text::is_digit(digits[0]));
        trimmed_is_there(count_of(t), k);
        let j = choose|j: int| 0 <= j < count_of(t).len() && #[trigger] count_of(t)[j] == c[k];
        assert(text::trim(s)[j] == c[k]);
        trimmed_is_there(s, j);
        let i = choose|i: int| 0 <= i < s.len() && #[trigger] s[i] == text::trim(s)[j];
        assert('0' <= s[i] <= '9');
    }
}

proof fn trimmed_is_there(s: Seq<char>, k: int)
    requires
        0 <= k < text::trim(s).len(),
    ensures
        exists|i: int| 0 <= i < s.len() && #[trigger] s[i] == text::trim(s)[k],
{
    let t = text::trim_start(s);
    front_is_there(t, k);
    back_is_there(s, k);
}

proof fn front_is_there(s: Seq<char>, k: int)
    requires
        0 <= k < text::trim_end(s).len(),
    ensures
        k < s.len(),
        s[k] == text::trim_end(s)[k],
    decreases s.len(),
{
    if s.len() > 0 && text::is_white_space(s.last()) {
        front_is_there(s.drop_last(), k);
    }
}

proof fn back_is_there(s: Seq<char>, k: int)
    requires
        0 <= k < text::trim_start(s).len(),
    ensures
        exists|i: int| 0 <= i < s.len() && #[trigger] s[i] == text::trim_start(s)[k],
    decreases s.len(),
{
    if s.len() > 0 && text::is_white_space(s[0]) {
        back_is_there(s.drop_first(), k);
        let i = choose|i: int|
            0 <= i < s.drop_first().len() && #[trigger] s.drop_first()[i] == text::trim_start(s)[k];
        assert(s[i + 1] == text::trim_start(s)[k]);
    } else {
        assert(s[k] == text::trim_start(s)[k]);
    }
}

/// What a write adds to what is left of a stream.
pub proof fn a_kept_write_is_what_is_left(m: StreamModel, h: Seq<u8>, data: Seq<u8>)
    requires
        m.wf(),
        is_left_of(m, h),
    ensures
        ({
            let all = h + data;
            let before = in_head(m.limits, h.len() as int);
            let after = in_head(m.limits, all.len() as int);
            &&& m.after(data).limits == m.limits
            &&& is_left_of(m.after(data), all)
            &&& data.take(m.kept(data)) == all.subrange(before, after)
            &&& m.announces(data) <==> before == h.len() && after < all.len()
        }),
{
    let all = h + data;
    a_capture_is_what_is_left(m, h);
    a_write_extends_the_capture(m, h, h.take(m.head), data);
    a_capture_is_what_is_left(m.after(data), all);
    let before = in_head(m.limits, h.len() as int);
    let after = in_head(m.limits, all.len() as int);
    assert(data.take(m.kept(data)) =~= all.subrange(before, after));
}

/// `human` and `parse_size` write and read sizes as they are shown.
pub proof fn sizes_are_written_and_read(n: u64, out: String, s: &str, size: Result<u64, String>)
    requires
        call_ensures(human, (n,), out),
        call_ensures(parse_size, (s,), size),
    ensures
        out@ == human_of(n as nat),
        match size_of(s@) {
            Ok(m) => size matches Ok(k) && k == m,
            Err(_) => size is Err,
        },
{
}

/// What is said of a size that cannot be read shows it, and why.
pub proof fn bad_sizes_are_spoken_of(quoted: Seq<char>)
    ensures
        size_message_of(SizeFault::Empty, quoted) == "empty size"@,
        size_message_of(SizeFault::Bad, quoted) == "bad size "@ + quoted
            + ", want something like 8M or 512K"@,
        size_message_of(SizeFault::Overflow, quoted) == "size "@ + quoted + " overflows"@,
{
}

} // verus!
