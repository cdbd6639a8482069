//! Datagrams, by the source they claim to be from.
//!
//! There are no connections here, so one is made up for each source and retired
//! after some silence. That gives every source a stable id without leaking state on
//! a long run. The source of a datagram is whatever its sender wrote, so a flood of
//! forged sources must not grow the table: past a cap, datagrams are still captured
//! but their sources are neither tracked nor answered.
use super::{reply, Reply, ReplyModel};
use crate::endpoint::{Endpoint, EndpointModel};
use crate::log::Logger;
use crate::log::logger;
use crate::log::logger::LoggerModel;
use crate::profile::{ActionModel, Compiled};
use crate::text;
use crate::text::{own, push_decimal, quote};
use vstd::prelude::*;

verus! {

/// What a listener reads at once.
pub const BUF: usize = 65_535;

/// How many seconds pass between two sweeps.
pub const SWEEP_SECS: u64 = 5;

/// A source that is tracked.
#[derive(Clone, Copy, Debug)]
pub struct Peer {
    pub addr: Endpoint,
    pub conn: u64,
    pub last_seen: u64,
}

/// What is known of a source.
pub struct PeerModel {
    pub addr: EndpointModel,
    pub conn: u64,
    pub last_seen: u64,
}

impl View for Peer {
    type V = PeerModel;

    open spec fn view(&self) -> PeerModel {
        PeerModel { addr: self.addr@, conn: self.conn, last_seen: self.last_seen }
    }
}

/// The sources that are tracked, and what came from others.
pub struct Peers {
    peers: Vec<Peer>,
    overflow: Option<u64>,
    untracked: u64,
    idle_ms: u64,
    max: usize,
}

/// What is known of the sources of a listener.
pub struct PeersModel {
    pub peers: Seq<PeerModel>,
    /// the connection that stands for all other sources, while there is one
    pub overflow: Option<u64>,
    /// how many datagrams came from them
    pub untracked: u64,
    /// how long a source may be silent
    pub idle_ms: u64,
    /// how many sources are tracked at most
    pub max: usize,
}

/// What is known of several sources.
pub open spec fn seen(peers: Seq<Peer>) -> Seq<PeerModel> {
    peers.map_values(|p: Peer| p@)
}

impl View for Peers {
    type V = PeersModel;

    closed spec fn view(&self) -> PeersModel {
        PeersModel {
            peers: seen(self.peers@),
            overflow: self.overflow,
            untracked: self.untracked,
            idle_ms: self.idle_ms,
            max: self.max,
        }
    }
}

/// Where a source stands among those tracked, from the `i`-th on.
pub open spec fn place_from(peers: Seq<PeerModel>, addr: EndpointModel, i: int) -> Option<int>
    decreases peers.len() - i,
{
    if i < 0 || i >= peers.len() {
        None
    } else if peers[i].addr == addr {
        Some(i)
    } else {
        place_from(peers, addr, i + 1)
    }
}

/// What a datagram comes to.
#[derive(Clone, Copy, Debug, PartialEq, Eq, Structural)]
pub enum Received {
    /// its source is tracked; `first` if it was not before
    Known { conn: u64, first: bool },
    /// its source is not tracked; `opened` if the connection that stands for such
    /// sources is new
    Overflow { conn: u64, opened: bool },
}

impl PeersModel {
    /// No source is tracked twice, and no more than the cap allows.
    pub open spec fn wf(self) -> bool {
        &&& self.peers.len() <= self.max
        &&& forall|i: int, j: int|
            0 <= i < j < self.peers.len() ==> (#[trigger] self.peers[i]).addr != (
            #[trigger] self.peers[j]).addr
        &&& self.overflow is None ==> self.untracked == 0
    }

    /// Where a source stands among those tracked.
    pub open spec fn place(self, addr: EndpointModel) -> Option<int> {
        place_from(self.peers, addr, 0)
    }

    /// What a datagram comes to; `id` is the id that a new connection gets.
    pub open spec fn verdict(self, addr: EndpointModel, id: u64) -> Received {
        match self.place(addr) {
            Some(i) => Received::Known { conn: self.peers[i].conn, first: false },
            None => if self.peers.len() < self.max {
                Received::Known { conn: id, first: true }
            } else {
                match self.overflow {
                    Some(conn) => Received::Overflow { conn, opened: false },
                    None => Received::Overflow { conn: id, opened: true },
                }
            },
        }
    }

    /// The sources after a datagram.
    pub open spec fn after(self, addr: EndpointModel, now: u64, id: u64) -> PeersModel {
        match self.place(addr) {
            Some(i) => PeersModel {
                peers: self.peers.update(i, PeerModel { last_seen: now, ..self.peers[i] }),
                ..self
            },
            None => if self.peers.len() < self.max {
                PeersModel {
                    peers: self.peers.push(PeerModel { addr, conn: id, last_seen: now }),
                    ..self
                }
            } else {
                PeersModel {
                    overflow: match self.overflow {
                        Some(conn) => Some(conn),
                        None => Some(id),
                    },
                    untracked: (self.untracked + 1) as u64,
                    ..self
                }
            },
        }
    }

    /// Whether a source has not been silent for too long. One heard after `now`, as a
    /// clock that was set back has it, has not been silent at all.
    pub open spec fn stays(self, p: PeerModel, now: u64) -> bool {
        (if now < p.last_seen {
            0
        } else {
            now - p.last_seen
        }) < self.idle_ms
    }
}

/// Whether a datagram opens a connection.
pub open spec fn opens(r: Received) -> bool {
    match r {
        Received::Known { conn: _, first } => first,
        Received::Overflow { conn: _, opened } => opened,
    }
}

/// What is left after a sweep, of the first `n` sources.
pub open spec fn left(m: PeersModel, now: u64, n: nat) -> Seq<PeerModel>
    decreases n,
{
    if n == 0 {
        Seq::empty()
    } else {
        let p = m.peers[n - 1];
        if m.stays(p, now) {
            left(m, now, (n - 1) as nat).push(p)
        } else {
            left(m, now, (n - 1) as nat)
        }
    }
}

/// What a sweep retires, of the first `n` sources.
pub open spec fn gone(m: PeersModel, now: u64, n: nat) -> Seq<PeerModel>
    decreases n,
{
    if n == 0 {
        Seq::empty()
    } else {
        let p = m.peers[n - 1];
        if m.stays(p, now) {
            gone(m, now, (n - 1) as nat)
        } else {
            gone(m, now, (n - 1) as nat).push(p)
        }
    }
}

/// What a sweep comes to.
pub struct Swept {
    /// the sources that were silent for too long
    pub retired: Vec<Peer>,
    /// the connection that stood for sources not tracked, and how many datagrams
    /// it saw; it ends when the table has room again
    pub overflow: Option<(u64, u64)>,
}

proof fn place_is_the_first(peers: Seq<PeerModel>, addr: EndpointModel, from: int)
    requires
        0 <= from <= peers.len(),
    ensures
        match place_from(peers, addr, from) {
            Some(i) => from <= i < peers.len() && peers[i].addr == addr,
            None => forall|i: int| from <= i < peers.len() ==> (#[trigger] peers[i]).addr != addr,
        },
    decreases peers.len() - from,
{
    if from < peers.len() && peers[from].addr != addr {
        place_is_the_first(peers, addr, from + 1);
    }
}

proof fn left_are_some(m: PeersModel, now: u64, n: nat)
    requires
        m.wf(),
        n <= m.peers.len(),
    ensures
        left(m, now, n).len() <= n,
        forall|i: int|
            0 <= i < left(m, now, n).len() ==> exists|j: int|
                0 <= j < n && (#[trigger] left(m, now, n)[i]) == #[trigger] m.peers[j],
        forall|i: int, j: int|
            0 <= i < j < left(m, now, n).len() ==> (#[trigger] left(m, now, n)[i]).addr != (
            #[trigger] left(m, now, n)[j]).addr,
    decreases n,
{
    if n > 0 {
        left_are_some(m, now, (n - 1) as nat);
    }
}

impl Peers {
    /// A listener of which nothing has been heard; a source is retired after
    /// `idle_secs` of silence, and `max` are tracked at most.
    pub fn new(idle_secs: u64, max: usize) -> (p: Self)
        ensures
            p@.wf(),
            p@.peers == Seq::<PeerModel>::empty(),
            p@.overflow is None,
            p@.untracked == 0,
            p@.max == max,
            p@.idle_ms == if idle_secs * 1000 > u64::MAX {
                u64::MAX
            } else {
                (idle_secs * 1000) as u64
            },
    {
        let idle_ms: u64 = if idle_secs > 18_446_744_073_709_551 {
            u64::MAX
        } else {
            idle_secs * 1000
        };
        let p = Peers { peers: Vec::new(), overflow: None, untracked: 0, idle_ms, max };
        assert(p@.peers =~= Seq::<PeerModel>::empty());
        p
    }

    /// How many datagrams came from sources that are not tracked.
    pub fn untracked(&self) -> (n: u64)
        ensures
            n == self@.untracked,
    {
        self.untracked
    }

    fn find(&self, addr: &Endpoint) -> (place: Option<usize>)
        ensures
            match place {
                Some(i) => i < self.peers@.len() && self@.place(addr@) == Some(i as int),
                None => self@.place(addr@) is None,
            },
    {
        let mut i: usize = 0;
        while i < self.peers.len()
            invariant
                i <= self.peers.len(),
                self@.place(addr@) == place_from(self@.peers, addr@, i as int),
                self@.peers == seen(self.peers@),
            decreases self.peers.len() - i,
        {
            assert(self@.peers[i as int] == self.peers@[i as int]@);
            if self.peers[i].addr.is_same(addr) {
                return Some(i);
            }
            i += 1;
        }
        None
    }

    /// A datagram has arrived. A new connection gets its id from the log.
    pub fn receive(&mut self, addr: Endpoint, now: u64, log: &mut Logger) -> (got: Received)
        requires
            old(self)@.wf(),
            old(self)@.untracked < u64::MAX,
            old(log).wf(),
        ensures
            final(self)@.wf(),
            final(log).wf(),
            got == old(self)@.verdict(addr@, old(log)@.next_conn),
            final(self)@ == old(self)@.after(addr@, now, old(log)@.next_conn),
            final(log)@ == if opens(got) {
                LoggerModel {
                    next_conn: logger::counted(old(log)@.next_conn, 1),
                    ..old(log)@
                }
            } else {
                old(log)@
            },
    {
        proof {
            place_is_the_first(self@.peers, addr@, 0);
        }
        match self.find(&addr) {
            Some(i) => {
                let ghost before = self@;
                let old_peer: Peer = self.peers[i];
                let peer = Peer { addr: old_peer.addr, conn: old_peer.conn, last_seen: now };
                self.peers.set(i, peer);
                assert(before.peers[i as int] == old_peer@);
                assert(self@.peers =~= before.peers.update(
                    i as int,
                    PeerModel { last_seen: now, ..before.peers[i as int] },
                ));
                Received::Known { conn: old_peer.conn, first: false }
            },
            None => if self.peers.len() < self.max {
                let ghost before = self@;
                let conn: u64 = log.next_conn_id();
                self.peers.push(Peer { addr, conn, last_seen: now });
                assert(self@.peers =~= before.peers.push(
                    PeerModel { addr: addr@, conn, last_seen: now },
                ));
                Received::Known { conn, first: true }
            } else {
                self.untracked = self.untracked + 1;
                match self.overflow {
                    Some(conn) => Received::Overflow { conn, opened: false },
                    None => {
                        let conn: u64 = log.next_conn_id();
                        self.overflow = Some(conn);
                        Received::Overflow { conn, opened: true }
                    },
                }
            },
        }
    }

    /// Retires the sources that were silent for too long. Once the table has room,
    /// the connection that stands for the others ends, so that a later burst is
    /// reported again rather than folded into it.
    pub fn sweep(&mut self, now: u64) -> (swept: Swept)
        requires
            old(self)@.wf(),
        ensures
            final(self)@.wf(),
            ({
                let m = old(self)@;
                let peers = left(m, now, m.peers.len());
                let drained = peers.len() < m.max && m.overflow is Some;
                &&& seen(swept.retired@) == gone(m, now, m.peers.len())
                &&& swept.overflow == if drained {
                    Some((m.overflow->0, m.untracked))
                } else {
                    None
                }
                &&& final(self)@ == (PeersModel {
                    peers,
                    overflow: if drained {
                        None
                    } else {
                        m.overflow
                    },
                    untracked: if drained {
                        0
                    } else {
                        m.untracked
                    },
                    ..m
                })
            }),
    {
        let ghost m = self@;
        let mut keep: Vec<Peer> = Vec::new();
        let mut retired: Vec<Peer> = Vec::new();
        let mut i: usize = 0;
        assert(seen(keep@) =~= left(m, now, 0));
        assert(seen(retired@) =~= gone(m, now, 0));
        while i < self.peers.len()
            invariant
                i <= self.peers.len(),
                m == self@,
                m == old(self)@,
                m.peers == seen(self.peers@),
                m.idle_ms == self.idle_ms,
                seen(keep@) == left(m, now, i as nat),
                seen(retired@) == gone(m, now, i as nat),
            decreases self.peers.len() - i,
        {
            let p: Peer = self.peers[i];
            assert(m.peers[i as int] == p@);
            let ghost kept = keep@;
            let ghost lost = retired@;
            let silent: u64 = if now < p.last_seen {
                0
            } else {
                now - p.last_seen
            };
            if silent < self.idle_ms {
                keep.push(p);
                assert(seen(keep@) =~= seen(kept).push(p@));
            } else {
                retired.push(p);
                assert(seen(retired@) =~= seen(lost).push(p@));
            }
            i += 1;
        }
        proof {
            left_are_some(m, now, m.peers.len());
        }
        self.peers = keep;
        let mut overflow: Option<(u64, u64)> = None;
        if self.peers.len() < self.max {
            if let Some(conn) = self.overflow {
                overflow = Some((conn, self.untracked));
                self.overflow = None;
                self.untracked = 0;
            }
        }
        Swept { retired, overflow }
    }
}

// ------------------------------------------------------------- answers

/// What is sent to a source, and the rule by which.
#[derive(Debug)]
pub struct Outgoing {
    pub rule: String,
    pub reply: Reply,
}

/// What is sent to a source, and the rule by which.
pub struct OutgoingModel {
    pub rule: Seq<char>,
    pub reply: ReplyModel,
}

impl View for Outgoing {
    type V = OutgoingModel;

    open spec fn view(&self) -> OutgoingModel {
        OutgoingModel { rule: self.rule@, reply: self.reply@ }
    }
}

/// What several answers are.
pub open spec fn sent(out: Seq<Outgoing>) -> Seq<OutgoingModel> {
    out.map_values(|o: Outgoing| o@)
}

/// The banner, to a source that is new.
pub open spec fn banner_for(p: Compiled, first: bool, data: Seq<u8>) -> Seq<OutgoingModel> {
    match p.on_connect {
        Some(a) => if first {
            seq![OutgoingModel { rule: "on_connect"@, reply: super::reply_of(a@, data, false) }]
        } else {
            Seq::empty()
        },
        None => Seq::empty(),
    }
}

/// What the first rule that matches answers.
pub open spec fn answer_for(p: Compiled, first: bool, data: Seq<u8>) -> Seq<OutgoingModel> {
    match p.rule_for(data, first) {
        Some(i) => seq![
            OutgoingModel {
                rule: p.rules@[i].name@,
                reply: super::reply_of(p.rules@[i].action@, data, false),
            },
        ],
        None => Seq::empty(),
    }
}

/// What is sent in answer to a datagram: a new source gets the banner, then the
/// first rule that matches answers. A source that is not tracked gets nothing.
pub open spec fn answers_of(profile: Option<&Compiled>, got: Received, data: Seq<u8>) -> Seq<
    OutgoingModel,
> {
    match (profile, got) {
        (Some(p), Received::Known { conn: _, first }) => banner_for(*p, first, data) + answer_for(
            *p,
            first,
            data,
        ),
        _ => Seq::empty(),
    }
}

/// What is sent in answer to a datagram, in that order.
pub fn answers(profile: Option<&Compiled>, got: Received, data: &[u8]) -> (out: Vec<Outgoing>)
    requires
        (profile, got) matches (Some(p), Received::Known { conn: _, first }) ==> p.ready(
            data@,
            first,
        ),
    ensures
        sent(out@) == answers_of(profile, got, data@),
{
    let mut out: Vec<Outgoing> = Vec::new();
    if let Some(p) = profile {
        if let Received::Known { conn: _, first } = got {
            if first {
                if let Some(a) = &p.on_connect {
                    out.push(Outgoing { rule: own("on_connect"), reply: reply(a, data, false) });
                }
            }
            assert(sent(out@) =~= banner_for(*p, first, data@));
            let ghost before = out@;
            if let Some((rule, action)) = p.eval(data, first) {
                out.push(Outgoing { rule: own(rule), reply: reply(action, data, false) });
            }
            assert(sent(out@) =~= sent(before) + answer_for(*p, first, data@));
        }
    }
    assert(sent(out@) =~= answers_of(profile, got, data@));
    out
}

// ------------------------------------------------------------- messages

/// How much a datagram can draw.
pub open spec fn ratio_of(max: Option<usize>) -> Seq<char> {
    match max {
        Some(n) => "a 1-byte datagram draws up to "@ + text::decimal(n as nat) + " bytes"@,
        None => "replies mirror the request size"@,
    }
}

/// What is said of a profile, by its quoted name, that answers sources which
/// nothing verifies.
pub open spec fn reflector_of(quoted: Seq<char>, ratio: Seq<char>) -> Seq<char> {
    "profile "@ + quoted
        + " replies to unverified source addresses on a non-loopback bind. udp sources are trivially forged, so this is an open reflector: "@
        + ratio
        + ", sent wherever the sender claimed to be. bind loopback or an isolated interface unless that is intended"@
}

/// What is said of a profile, by its quoted name, that answers sources which
/// nothing verifies.
pub fn reflector_line(quoted: &str, max: Option<usize>) -> (out: String)
    ensures
        out@ == reflector_of(quoted@, ratio_of(max)),
{
    let mut ratio = String::new();
    match max {
        Some(n) => {
            ratio.append("a 1-byte datagram draws up to ");
            push_decimal(&mut ratio, n as u64);
            ratio.append(" bytes");
        },
        None => {
            ratio.append("replies mirror the request size");
        },
    }
    assert(ratio@ =~= ratio_of(max));
    let mut out = String::new();
    out.append("profile ");
    out.append(quoted);
    out.append(
        " replies to unverified source addresses on a non-loopback bind. udp sources are trivially forged, so this is an open reflector: ",
    );
    out.append(ratio.as_str());
    out.append(
        ", sent wherever the sender claimed to be. bind loopback or an isolated interface unless that is intended",
    );
    assert(out@ =~= reflector_of(quoted@, ratio_of(max)));
    out
}

/// The warning at the start: a profile that answers, on an address that is not
/// loopback, is an open reflector.
pub fn reflector(profile: Option<&Compiled>, local: &Endpoint) -> (warning: Option<String>)
    ensures
        match warning {
            Some(w) => {
                &&& !local.address.loopback()
                &&& profile matches Some(p)
                &&& p.may_respond()
                &&& w@ == reflector_of(text::quoted(p.name@), ratio_of(p.max_reply()))
            },
            None => local.address.loopback() || (profile matches Some(p) ==> !p.may_respond()),
        },
{
    if local.address.is_loopback() {
        return None;
    }
    match profile {
        Some(p) => if p.responds() {
            let max = p.max_response_bytes();
            Some(reflector_line(quote(p.name.as_str()).as_str(), max))
        } else {
            None
        },
        None => None,
    }
}

/// What is said when the table is full.
pub open spec fn full_of(max: usize) -> Seq<char> {
    "peer table hit "@ + text::decimal(max as nat)
        + " entries. further new sources are captured under one overflow stream, untracked and unanswered. raise --udp-max-peers if this is legitimate traffic"@
}

/// What is said when the table is full.
pub fn full(max: usize) -> (out: String)
    ensures
        out@ == full_of(max),
{
    let mut out = String::new();
    out.append("peer table hit ");
    push_decimal(&mut out, max as u64);
    out.append(
        " entries. further new sources are captured under one overflow stream, untracked and unanswered. raise --udp-max-peers if this is legitimate traffic",
    );
    assert(out@ =~= full_of(max));
    out
}

/// Why the connection of the sources that were not tracked ends.
pub open spec fn drained_of(count: u64) -> Seq<char> {
    text::decimal(count as nat) + " untracked datagrams"@
}

/// Why the connection of the sources that were not tracked ends.
pub fn drained(count: u64) -> (out: String)
    ensures
        out@ == drained_of(count),
{
    let mut out = String::new();
    push_decimal(&mut out, count);
    out.append(" untracked datagrams");
    assert(out@ =~= drained_of(count));
    out
}

// ------------------------------------------------------------- laws

/// How many bytes several answers send.
pub open spec fn total_bytes(out: Seq<OutgoingModel>) -> int
    decreases out.len(),
{
    if out.len() == 0 {
        0
    } else {
        total_bytes(out.drop_last()) + out.last().reply.payload.len()
    }
}

proof fn one_answer(o: OutgoingModel)
    ensures
        total_bytes(seq![o]) == o.reply.payload.len(),
{
    assert(seq![o].drop_last() =~= Seq::<OutgoingModel>::empty());
    assert(total_bytes(Seq::<OutgoingModel>::empty()) == 0);
}

proof fn bytes_add_up(a: Seq<OutgoingModel>, b: Seq<OutgoingModel>)
    ensures
        total_bytes(a + b) == total_bytes(a) + total_bytes(b),
    decreases b.len(),
{
    if b.len() == 0 {
        assert(a + b =~= a);
    } else {
        assert((a + b).drop_last() =~= a + b.drop_last());
        bytes_add_up(a, b.drop_last());
    }
}

proof fn largest_is_largest(p: Compiled, n: int, i: int)
    requires
        0 <= i < n <= p.rules@.len(),
    ensures
        p.rules@[i].action@.payload.len() <= p.largest_reply(n),
    decreases n,
{
    if i < n - 1 {
        largest_is_largest(p, n - 1, i);
    }
}

/// No datagram draws more bytes than the profile says: the banner and the largest
/// reply of a rule, where no reply depends on the message.
pub proof fn a_datagram_draws_no_more_than_said(p: &Compiled, got: Received, data: Seq<u8>)
    requires
        forall|a: ActionModel| #[trigger] p.may_take(a) ==> !a.mirrors(),
    ensures
        total_bytes(answers_of(Some(p), got, data)) <= p.banner_len() + p.largest_reply(
            p.rules@.len() as int,
        ),
{
    let n = p.rules@.len() as int;
    no_largest_below_zero(*p, n);
    if let Received::Known { conn: _, first } = got {
        let banner = banner_for(*p, first, data);
        let answer = answer_for(*p, first, data);
        bytes_add_up(banner, answer);
        assert(total_bytes(banner) <= p.banner_len()) by {
            if let Some(a) = p.on_connect {
                assert(p.may_take(a@));
                super::a_fixed_reply_is_its_payload(a@, data, false);
                if first {
                    one_answer(banner[0]);
                }
            }
        }
        assert(total_bytes(answer) <= p.largest_reply(n)) by {
            crate::profile::laws::the_first_match_wins(*p, data, first);
            if let Some(i) = p.rule_for(data, first) {
                assert(p.may_take(p.rules@[i].action@));
                super::a_fixed_reply_is_its_payload(p.rules@[i].action@, data, false);
                largest_is_largest(*p, n, i);
                one_answer(answer[0]);
            }
        }
    }
}

proof fn no_largest_below_zero(p: Compiled, n: int)
    ensures
        p.largest_reply(n) >= 0,
    decreases n,
{
    if n > 0 {
        no_largest_below_zero(p, n - 1);
    }
}

/// A source that is not tracked is not answered.
pub proof fn overflow_is_unanswered(
    profile: Option<&Compiled>,
    conn: u64,
    opened: bool,
    data: Seq<u8>,
)
    ensures
        answers_of(profile, Received::Overflow { conn, opened }, data).len() == 0,
{
}

/// A source keeps its connection for as long as it is tracked.
pub proof fn a_source_keeps_its_connection(
    m: PeersModel,
    addr: EndpointModel,
    now: u64,
    id: u64,
    next: u64,
)
    requires
        m.wf(),
        m.verdict(addr, id) is Known,
    ensures
        m.after(addr, now, id).verdict(addr, next) == (Received::Known {
            conn: m.verdict(addr, id)->Known_conn,
            first: false,
        }),
{
    let after = m.after(addr, now, id);
    place_is_the_first(m.peers, addr, 0);
    place_is_the_first(after.peers, addr, 0);
    match m.place(addr) {
        Some(i) => {
            assert(after.peers[i].addr == addr);
            let j = after.place(addr)->0;
            if i != j {
                assert(after.peers[j].addr == m.peers[j].addr);
                assert(m.peers[i].addr == m.peers[j].addr);
            }
        },
        None => {
            let last = m.peers.len() as int;
            assert(after.peers[last].addr == addr);
            let j = after.place(addr)->0;
            if j != last {
                assert(after.peers[j] == m.peers[j]);
            }
        },
    }
}

/// A source heard within the idle time survives a sweep.
pub proof fn a_recent_source_survives(m: PeersModel, now: u64, i: int, n: nat)
    requires
        0 <= i < n <= m.peers.len(),
        m.stays(m.peers[i], now),
    ensures
        left(m, now, n).contains(m.peers[i]),
        !gone(m, now, n).contains(m.peers[i]),
    decreases n,
{
    let rest = left(m, now, (n - 1) as nat);
    if i < n - 1 {
        a_recent_source_survives(m, now, i, (n - 1) as nat);
        let k = choose|k: int| 0 <= k < rest.len() && rest[k] == m.peers[i];
        assert(left(m, now, n)[k] == m.peers[i]);
    } else {
        let all = left(m, now, n);
        assert(all[all.len() - 1] == m.peers[i]);
    }
    only_the_silent_are_gone(m, now, n);
}

/// A sweep retires only sources that were silent for too long.
pub proof fn only_the_silent_are_gone(m: PeersModel, now: u64, n: nat)
    requires
        n <= m.peers.len(),
    ensures
        forall|k: int|
            0 <= k < gone(m, now, n).len() ==> !m.stays(#[trigger] gone(m, now, n)[k], now),
    decreases n,
{
    if n > 0 {
        only_the_silent_are_gone(m, now, (n - 1) as nat);
        let before = gone(m, now, (n - 1) as nat);
        let all = gone(m, now, n);
        assert forall|k: int| 0 <= k < all.len() implies !m.stays(#[trigger] all[k], now) by {
            if k < before.len() {
                assert(all[k] == before[k]);
            }
        }
    }
}

} // verus!
