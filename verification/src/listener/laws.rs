//! What holds of every listener, in terms of what arrives and what is sent back.
use super::tcp;
use super::tcp::{relay, Outcome, Relay, Session, Turn};
use super::udp;
use super::udp::{
    answers, reflector, Outgoing, OutgoingModel, Peer, PeerModel, Peers, PeersModel, Received, Swept,
};
use super::ReplyModel;
use crate::dns;
use crate::endpoint::{Address, Endpoint, EndpointModel};
use crate::log::Logger;
use crate::profile::{ActionModel, Compiled};
use crate::profile::laws;
use crate::profile::meaning;
use crate::text;
use vstd::prelude::*;

verus! {

// ------------------------------------------------------------- actions

/// Whether an action has nothing to say to a message: it is to answer queries, and
/// the message is none.
pub open spec fn is_stumped(a: ActionModel, received: Seq<u8>, framed: bool) -> bool {
    !a.echo && a.dns is Some && (if framed {
        dns::reply_tcp_of(received, a.dns->0) is None
    } else {
        dns::reply_of(received, a.dns->0) is None
    })
}

/// Whether an action never sends anything.
pub open spec fn is_mute(a: ActionModel) -> bool {
    a.payload.len() == 0 && !a.echo && a.dns is None
}

/// Whether `r` is what an action comes to: it sends back what was received, or the
/// answer to the query that was received, or its own bytes; it waits first, unless
/// it never sends anything; and it ends the connection if it says so, in an orderly
/// way if it had something to say.
pub open spec fn comes_to(a: ActionModel, received: Seq<u8>, framed: bool, r: ReplyModel) -> bool {
    &&& a.echo ==> r.payload == received
    &&& !a.echo && a.dns is None ==> r.payload == a.payload
    &&& !a.echo && a.dns is Some && !framed ==> r.payload == (match dns::reply_of(
        received,
        a.dns->0,
    ) {
        Some(out) => out,
        None => Seq::empty(),
    })
    &&& !a.echo && a.dns is Some && framed ==> r.payload == (match dns::reply_tcp_of(
        received,
        a.dns->0,
    ) {
        Some(out) => out,
        None => Seq::empty(),
    })
    &&& r.wait_ms == if is_mute(a) {
        0
    } else {
        a.delay_ms
    }
    &&& r.close == a.close
    &&& r.shutdown == (a.close && !is_mute(a) && !is_stumped(a, received, framed))
}

/// Every action comes to what it says.
pub proof fn an_action_comes_to_what_it_says(a: ActionModel, received: Seq<u8>, framed: bool)
    ensures
        comes_to(a, received, framed, super::reply_of(a, received, framed)),
{
    if is_mute(a) {
        assert(a.payload =~= Seq::<u8>::empty());
    }
}

// ------------------------------------------------------------- rules

/// Whether a rule is the one that answers: the message fulfils its matcher, and that
/// of no rule in front of it.
pub open spec fn answers_first(p: Compiled, data: Seq<u8>, first: bool, i: int) -> bool {
    &&& 0 <= i < p.rules@.len()
    &&& meaning::fulfils(p.rules@[i].matcher, data, first)
    &&& forall|j: int| 0 <= j < i ==> !meaning::fulfils((#[trigger] p.rules@[j]).matcher, data, first)
}

/// Whether no rule answers.
pub open spec fn none_answers(p: Compiled, data: Seq<u8>, first: bool) -> bool {
    forall|j: int|
        0 <= j < p.rules@.len() ==> !meaning::fulfils((#[trigger] p.rules@[j]).matcher, data, first)
}

proof fn the_rule_is_the_first(p: Compiled, data: Seq<u8>, first: bool)
    ensures
        match p.rule_for(data, first) {
            Some(i) => answers_first(p, data, first, i),
            None => none_answers(p, data, first),
        },
        forall|i: int| #[trigger]
            answers_first(p, data, first, i) ==> p.rule_for(data, first) == Some(i),
        none_answers(p, data, first) ==> p.rule_for(data, first) is None,
{
    laws::the_first_match_wins(p, data, first);
    assert forall|j: int| 0 <= j < p.rules@.len() implies meaning::fulfils(
        (#[trigger] p.rules@[j]).matcher,
        data,
        first,
    ) == p.rules@[j].matcher.holds(data, first) by {
        meaning::a_matcher_means_what_it_says(p.rules@[j].matcher, data, first);
    }
    assert forall|i: int| #[trigger] answers_first(p, data, first, i) implies p.rule_for(data, first)
        == Some(i) by {
        assert(meaning::fulfils(p.rules@[i].matcher, data, first));
        match p.rule_for(data, first) {
            Some(k) => {
                if k < i {
                    assert(!meaning::fulfils(p.rules@[k].matcher, data, first));
                    assert(p.rules@[k].matcher.holds(data, first));
                } else if i < k {
                    assert(!p.rules@[i].matcher.holds(data, first));
                }
            },
            None => {
                assert(!p.rules@[i].matcher.holds(data, first));
            },
        }
    }
    if none_answers(p, data, first) {
        if let Some(k) = p.rule_for(data, first) {
            assert(!meaning::fulfils(p.rules@[k].matcher, data, first));
        }
    }
}

// ------------------------------------------------------------- datagrams

/// Whether these are the answers to a datagram from a source that is tracked: the
/// banner if the source is new and there is one, and then that of the first rule
/// that the datagram fulfils, if there is one. Neither waits for the other to be
/// there.
pub open spec fn are_answers(
    p: Compiled,
    first: bool,
    data: Seq<u8>,
    out: Seq<OutgoingModel>,
) -> bool {
    let greets: int = if first && p.on_connect is Some {
        1
    } else {
        0
    };
    &&& greets == 1 ==> out.len() >= 1 && out[0].rule == "on_connect"@ && comes_to(
        p.on_connect->0@,
        data,
        false,
        out[0].reply,
    )
    &&& forall|i: int| #[trigger]
        answers_first(p, data, first, i) ==> {
            &&& out.len() == greets + 1
            &&& out.last().rule == p.rules@[i].name@
            &&& comes_to(p.rules@[i].action@, data, false, out.last().reply)
        }
    &&& none_answers(p, data, first) ==> out.len() == greets
}

/// A datagram from a source that is tracked is answered, whether it is the first or
/// not and whether there is a banner or not.
pub proof fn a_tracked_source_is_answered(p: &Compiled, conn: u64, first: bool, data: Seq<u8>)
    ensures
        are_answers(
            *p,
            first,
            data,
            udp::answers_of(Some(p), Received::Known { conn, first }, data),
        ),
{
    the_rule_is_the_first(*p, data, first);
    if let Some(a) = p.on_connect {
        an_action_comes_to_what_it_says(a@, data, false);
    }
    if let Some(i) = p.rule_for(data, first) {
        an_action_comes_to_what_it_says(p.rules@[i].action@, data, false);
    }
}

/// What `answers` hands out is that, and nothing for a source that is not tracked
/// or without a profile.
pub proof fn every_datagram_gets_its_answers(
    p: &Compiled,
    got: Received,
    data: &[u8],
    out: Vec<Outgoing>,
    none: Vec<Outgoing>,
)
    requires
        call_ensures(answers, (Some(p), got, data), out),
        call_ensures(answers, (None, got, data), none),
    ensures
        got matches Received::Known { conn, first } ==> are_answers(
            *p,
            first,
            data@,
            Seq::new(out@.len(), |i: int| out@[i]@),
        ),
        got is Overflow ==> out@.len() == 0,
        none@.len() == 0,
{
    assert(udp::sent(out@) =~= Seq::new(out@.len(), |i: int| out@[i]@));
    assert(udp::sent(none@).len() == 0);
    match got {
        Received::Known { conn, first } => {
            a_tracked_source_is_answered(p, conn, first, data@);
        },
        Received::Overflow { conn, opened } => {
            assert(udp::sent(out@).len() == 0);
        },
    }
}

// ------------------------------------------------------------- sources

proof fn a_place_is_found(m: PeersModel, addr: EndpointModel, from: int)
    requires
        0 <= from <= m.peers.len(),
    ensures
        match udp::place_from(m.peers, addr, from) {
            Some(i) => from <= i < m.peers.len() && m.peers[i].addr == addr,
            None => forall|i: int| from <= i < m.peers.len() ==> (#[trigger] m.peers[i]).addr != addr,
        },
    decreases m.peers.len() - from,
{
    if from < m.peers.len() && m.peers[from].addr != addr {
        a_place_is_found(m, addr, from + 1);
    }
}

/// A source that is tracked keeps its connection, which is not new, and only the
/// time at which it was last heard changes.
pub proof fn a_tracked_source_is_known(
    m: PeersModel,
    i: int,
    now: u64,
    id: u64,
)
    requires
        m.wf(),
        0 <= i < m.peers.len(),
    ensures
        ({
            let p = m.peers[i];
            let n = m.after(p.addr, now, id);
            &&& m.verdict(p.addr, id) == (Received::Known { conn: p.conn, first: false })
            &&& n.peers == m.peers.update(
                i,
                PeerModel { addr: p.addr, conn: p.conn, last_seen: now },
            )
            &&& n.overflow == m.overflow && n.untracked == m.untracked
            &&& n.idle_ms == m.idle_ms && n.max == m.max
        }),
{
    let p = m.peers[i];
    a_place_is_found(m, p.addr, 0);
    let k = m.place(p.addr);
    match k {
        Some(k) => {
            if k < i {
                assert(m.peers[k].addr != m.peers[i].addr);
            } else if i < k {
                assert(m.peers[i].addr != m.peers[k].addr);
            }
        },
        None => {
            assert(m.peers[i].addr != p.addr);
        },
    }
}

/// A source that is not tracked is, under a connection of its own, as long as there
/// is room; past that it is counted, under one connection for all such sources, and
/// the table stays as it is.
pub proof fn a_new_source_is_tracked_while_there_is_room(
    m: PeersModel,
    addr: EndpointModel,
    now: u64,
    id: u64,
)
    requires
        m.wf(),
        m.untracked < u64::MAX,
        forall|i: int| 0 <= i < m.peers.len() ==> (#[trigger] m.peers[i]).addr != addr,
    ensures
        ({
            let n = m.after(addr, now, id);
            if m.peers.len() < m.max {
                &&& m.verdict(addr, id) == (Received::Known { conn: id, first: true })
                &&& n.peers == m.peers.push(PeerModel { addr, conn: id, last_seen: now })
                &&& n.overflow == m.overflow && n.untracked == m.untracked
            } else {
                &&& n.peers == m.peers
                &&& n.untracked == m.untracked + 1
                &&& m.verdict(addr, id) == match m.overflow {
                    Some(conn) => Received::Overflow { conn, opened: false },
                    None => Received::Overflow { conn: id, opened: true },
                }
                &&& n.overflow == match m.overflow {
                    Some(conn) => Some(conn),
                    None => Some(id),
                }
            }
        }),
        m.after(addr, now, id).idle_ms == m.idle_ms && m.after(addr, now, id).max == m.max,
{
    a_place_is_found(m, addr, 0);
}

/// Whether a source has been silent for that long, by a clock that never reads less
/// than when the source was heard.
pub open spec fn is_silent_for(p: PeerModel, now: u64, ms: int) -> bool {
    now - p.last_seen >= ms || ms == 0
}

proof fn a_sweep_parts_the_sources(m: PeersModel, now: u64, n: nat)
    requires
        n <= m.peers.len(),
    ensures
        udp::gone(m, now, n) == m.peers.take(n as int).filter(
            |p: PeerModel| is_silent_for(p, now, m.idle_ms as int),
        ),
        udp::left(m, now, n) == m.peers.take(n as int).filter(
            |p: PeerModel| !is_silent_for(p, now, m.idle_ms as int),
        ),
    decreases n,
{
    reveal(Seq::filter);
    if n > 0 {
        a_sweep_parts_the_sources(m, now, (n - 1) as nat);
        assert(m.peers.take(n as int).drop_last() =~= m.peers.take(n - 1));
    }
}

/// A sweep retires exactly the sources that have been silent for the idle time and
/// keeps the others, in their order. When that leaves room, the connection that
/// stands for sources not tracked ends with the number of their datagrams, and the
/// count starts over; else it goes on.
pub proof fn a_sweep_retires_the_silent(s: &mut Peers, now: u64, out: Swept)
    requires
        call_ensures(Peers::sweep, (s, now), out),
    ensures
        ({
            let m = old(s)@;
            let n = final(s)@;
            &&& Seq::new(out.retired@.len(), |i: int| out.retired@[i]@) == m.peers.filter(
                |p: PeerModel| is_silent_for(p, now, m.idle_ms as int),
            )
            &&& n.peers == m.peers.filter(|p: PeerModel| !is_silent_for(p, now, m.idle_ms as int))
            &&& n.idle_ms == m.idle_ms && n.max == m.max
            &&& if m.overflow is Some && n.peers.len() < m.max {
                &&& out.overflow == Some((m.overflow->0, m.untracked))
                &&& n.overflow is None && n.untracked == 0
            } else {
                &&& out.overflow is None
                &&& n.overflow == m.overflow && n.untracked == m.untracked
            }
        }),
{
    let m = old(s)@;
    a_sweep_parts_the_sources(m, now, m.peers.len());
    assert(m.peers.take(m.peers.len() as int) =~= m.peers);
    assert(udp::seen(out.retired@) =~= Seq::new(out.retired@.len(), |i: int| out.retired@[i]@));
}

/// The idle time is given in seconds and counted in milliseconds, as far as a number
/// reaches; a new table is empty.
pub proof fn the_idle_time_is_in_seconds(idle_secs: u64, max: usize, p: Peers)
    requires
        call_ensures(Peers::new, (idle_secs, max), p),
    ensures
        p@.peers.len() == 0,
        p@.overflow is None,
        p@.untracked == 0,
        p@.max == max,
        idle_secs <= 18_446_744_073_709_551 ==> p@.idle_ms == idle_secs * 1000,
        idle_secs > 18_446_744_073_709_551 ==> p@.idle_ms == 0xffff_ffff_ffff_ffff,
{
}

// ------------------------------------------------------------- reflectors

/// Whether a profile can send anything.
pub open spec fn can_send(p: Compiled) -> bool {
    ||| p.on_connect matches Some(a) && !is_mute(a@)
    ||| exists|i: int| 0 <= i < p.rules@.len() && !is_mute((#[trigger] p.rules@[i]).action@)
}

/// Whether some reply of a profile depends on the message.
pub open spec fn can_mirror(p: Compiled) -> bool {
    ||| p.on_connect matches Some(a) && (a.echo || a.dns is Some)
    ||| exists|i: int|
        0 <= i < p.rules@.len() && ((#[trigger] p.rules@[i]).action.echo || p.rules@[i].action.dns
            is Some)
}

/// A profile responds exactly if its banner or some rule can send something.
pub proof fn a_profile_responds_if_it_can_send(p: Compiled)
    ensures
        p.may_respond() <==> can_send(p),
{
    if can_send(p) {
        if p.on_connect matches Some(a) && !is_mute(a@) {
            assert(p.may_take(p.on_connect->0@));
        } else {
            let i = choose|i: int|
                0 <= i < p.rules@.len() && !is_mute((#[trigger] p.rules@[i]).action@);
            assert(p.may_take(p.rules@[i].action@));
        }
    }
}

proof fn the_largest_is_reached(p: Compiled, n: int)
    requires
        0 <= n <= p.rules@.len(),
    ensures
        forall|i: int|
            0 <= i < n ==> (#[trigger] p.rules@[i]).action@.payload.len() <= p.largest_reply(n),
        p.largest_reply(n) == 0 || exists|i: int|
            0 <= i < n && (#[trigger] p.rules@[i]).action@.payload.len() == p.largest_reply(n),
        p.largest_reply(n) >= 0,
    decreases n,
{
    if n > 0 {
        the_largest_is_reached(p, n - 1);
    }
}

/// Whether `n` is the most that one message can draw: the banner and the largest
/// payload of a rule, as far as a number reaches.
pub open spec fn is_most(p: Compiled, n: usize) -> bool {
    let banner = match p.on_connect {
        Some(a) => a.payload@.len() as int,
        None => 0,
    };
    &&& banner <= n || n == usize::MAX
    &&& forall|i: int|
        0 <= i < p.rules@.len() ==> banner + (#[trigger] p.rules@[i]).action.payload@.len() <= n || n
            == usize::MAX
    &&& n == usize::MAX || n == banner || exists|i: int|
        0 <= i < p.rules@.len() && banner + (#[trigger] p.rules@[i]).action.payload@.len() == n
}

/// How much one message can draw is said exactly, and not at all where a reply
/// depends on the message.
#[verifier::rlimit(50)]
pub proof fn the_most_is_said(p: Compiled)
    ensures
        match p.max_reply() {
            Some(n) => !can_mirror(p) && is_most(p, n),
            None => can_mirror(p),
        },
{
    let all = p.rules@.len() as int;
    the_largest_is_reached(p, all);
    if can_mirror(p) {
        if p.on_connect matches Some(a) && (a.echo || a.dns is Some) {
            assert(p.may_take(p.on_connect->0@));
        } else {
            let i = choose|i: int|
                0 <= i < p.rules@.len() && ((#[trigger] p.rules@[i]).action.echo
                    || p.rules@[i].action.dns is Some);
            assert(p.may_take(p.rules@[i].action@));
        }
    } else {
        assert forall|a: ActionModel| #[trigger] p.may_take(a) implies !a.mirrors() by {
        }
        let n = p.max_reply()->0;
        let banner = p.banner_len();
        if p.largest_reply(all) != 0 {
            let i = choose|i: int|
                0 <= i < all && (#[trigger] p.rules@[i]).action@.payload.len() == p.largest_reply(
                    all,
                );
            assert(p.rules@[i].action.payload@.len() == p.largest_reply(all));
        }
        if let Some(a) = p.on_connect {
            assert(banner == a.payload@.len());
        }
        assert forall|i: int| 0 <= i < all implies banner + (
        #[trigger] p.rules@[i]).action.payload@.len() <= n || n == usize::MAX by {
            assert(p.rules@[i].action@.payload.len() <= p.largest_reply(all));
        }
    }
}

/// A profile that can send is warned of on every address but those by which a
/// machine reaches itself, 127.x.x.x and ::1, and no other profile is.
pub proof fn reflectors_are_warned_of(p: &Compiled, local: &Endpoint, warning: Option<String>)
    requires
        call_ensures(reflector, (Some(p), local), warning),
    ensures
        warning is Some <==> can_send(*p) && !reaches_itself(local.address),
{
    a_profile_responds_if_it_can_send(*p);
    match local.address {
        Address::V4(_) => {},
        Address::V6(o) => {
            assert(o@.take(15).len() == 15);
            if reaches_itself(local.address) {
                assert forall|i: int| 0 <= i < 15 implies #[trigger] o@.take(15)[i] == 0 by {
                    assert(o@[i] == 0);
                }
            }
            if local.address.loopback() {
                assert forall|i: int| 0 <= i < 15 implies #[trigger] o@[i] == 0 by {
                    assert(o@.take(15)[i] == 0);
                }
            }
        },
    }
}

/// Whether an address is one by which a machine reaches itself: 127.x.x.x or ::1.
pub open spec fn reaches_itself(a: Address) -> bool {
    match a {
        Address::V4(o) => o@[0] == 127,
        Address::V6(o) => o@[15] == 1 && forall|i: int| 0 <= i < 15 ==> #[trigger] o@[i] == 0,
    }
}

// ------------------------------------------------------------- connections

/// A connection is greeted with the banner, if there is one, as nothing was read.
pub proof fn a_connection_is_greeted(s: &Session, p: &Compiled, turn: Turn, none: Turn)
    requires
        call_ensures(Session::greet, (s, Some(p)), turn),
        call_ensures(Session::greet, (s, None), none),
    ensures
        none is Quiet,
        match p.on_connect {
            None => turn is Quiet,
            Some(a) => turn matches Turn::Answer { rule, reply } && rule@ == "on_connect"@
                && comes_to(a@, Seq::empty(), true, reply@),
        },
{
    if let Some(a) = p.on_connect {
        an_action_comes_to_what_it_says(a@, Seq::empty(), true);
    }
}

/// What is read from a connection is answered by the first rule that it fulfils; the
/// first thing that is read counts as the first message, and nothing after it does.
/// Where nothing was read the peer has closed its side.
pub proof fn a_read_is_answered(s: &mut Session, p: &Compiled, data: &[u8], turn: Turn)
    requires
        call_ensures(Session::read, (s, Some(p), data), turn),
    ensures
        data@.len() == 0 ==> turn is Eof && final(s)@ == old(s)@,
        data@.len() > 0 ==> !final(s)@,
        data@.len() > 0 && none_answers(*p, data@, old(s)@) ==> turn is Quiet,
        forall|i: int|
            data@.len() > 0 && #[trigger] answers_first(*p, data@, old(s)@, i) ==> {
                turn matches Turn::Answer { rule, reply } && rule@ == p.rules@[i].name@ && comes_to(
                    p.rules@[i].action@,
                    data@,
                    true,
                    reply@,
                )
            },
{
    the_rule_is_the_first(*p, data@, old(s)@);
    if let Some(i) = p.rule_for(data@, old(s)@) {
        an_action_comes_to_what_it_says(p.rules@[i].action@, data@, true);
    }
}

/// Nothing has been read from a new connection.
pub proof fn a_new_connection_is_at_its_first(s: Session)
    requires
        call_ensures(Session::new, (), s),
    ensures
        s@,
{
}

/// A connection ends when the peer has closed its side or a reply closes it, and
/// for no other reason.
pub proof fn a_connection_ends_for_a_reason(turn: &Turn, end: Option<Outcome>)
    requires
        call_ensures(Turn::outcome, (turn,), end),
    ensures
        turn is Eof <==> end == Some(Outcome::PeerEof),
        (turn matches Turn::Answer { rule, reply } && reply.close) <==> end == Some(
            Outcome::ProfileClose,
        ),
        turn is Quiet || (turn matches Turn::Answer { rule, reply } && !reply.close) <==> end
            is None,
{
}

/// Each way in which a connection ends is said in its own words.
pub proof fn ends_are_told_apart(a: Outcome, b: Outcome)
    ensures
        a.words() == b.words() <==> a == b,
        Outcome::PeerEof.words() == "peer eof"@,
        Outcome::ProfileClose.words() == "profile close"@,
        Outcome::UpstreamUnreachable.words() == "upstream unreachable"@,
        Outcome::BothClosed.words() == "both directions closed"@,
        Outcome::Failed.words() == "error"@,
{
    reveal_strlit("peer eof");
    reveal_strlit("profile close");
    reveal_strlit("upstream unreachable");
    reveal_strlit("both directions closed");
    reveal_strlit("error");
    assert("peer eof"@.len() == 8 && "profile close"@.len() == 13 && "error"@.len() == 5);
    assert("upstream unreachable"@.len() == 20 && "both directions closed"@.len() == 22);
}

/// A relay passes on what was read, and closes the other half when nothing was read
/// or reading failed.
pub proof fn a_relay_passes_everything_on(read: Option<usize>, step: Relay)
    requires
        call_ensures(relay, (read,), step),
    ensures
        step == Relay::Pass <==> read is Some && read->0 > 0,
        step == Relay::HalfClose <==> read is None || read->0 == 0,
{
}

/// A listener is named by its upstream, failing that by its profile, and else by the
/// want of one.
pub proof fn a_listener_is_named_by_what_it_does(up: Seq<char>, p: &Compiled)
    ensures
        tcp::mode_of(Some(up), Some(p)) == "forward->"@ + up,
        tcp::mode_of(Some(up), None) == "forward->"@ + up,
        tcp::mode_of(None, Some(p)) == p.name@,
        tcp::mode_of(None, None) == "none"@,
{
}

/// A profile that can send, behind an upstream, is warned of, as it never will; and
/// nothing else is.
pub proof fn a_shadowed_profile_is_warned_of(
    upstream: bool,
    p: &Compiled,
    warning: Option<&'static str>,
)
    requires
        call_ensures(tcp::shadowed, (upstream, Some(p)), warning),
    ensures
        warning is Some <==> upstream && can_send(*p),
{
    a_profile_responds_if_it_can_send(*p);
}

/// `receive` goes by what is known of the source: it hands out the source's
/// connection and takes a number from the log only for a new one.
pub proof fn a_datagram_is_placed(
    s: &mut Peers,
    addr: Endpoint,
    now: u64,
    log: &mut Logger,
    got: Received,
)
    requires
        call_ensures(Peers::receive, (s, addr, now, log), got),
    ensures
        got == old(s)@.verdict(addr@, old(log)@.next_conn),
        final(s)@ == old(s)@.after(addr@, now, old(log)@.next_conn),
        got matches Received::Known { conn, first } ==> (first <==> final(log)@.next_conn
            != old(log)@.next_conn),
        got matches Received::Overflow { conn, opened } ==> (opened <==> final(log)@.next_conn
            != old(log)@.next_conn),
        final(log)@.streams == old(log)@.streams && final(log)@.stats == old(log)@.stats
            && final(log)@.budget == old(log)@.budget,
{
}

/// What is said of sources that are not tracked gives their number, and what is
/// said of a full table gives its size.
pub proof fn numbers_are_said(count: u64, max: usize, n: usize)
    ensures
        udp::drained_of(count) == text::decimal(count as nat) + " untracked datagrams"@,
        udp::full_of(max) == "peer table hit "@ + text::decimal(max as nat)
            + " entries. further new sources are captured under one overflow stream, untracked and unanswered. raise --udp-max-peers if this is legitimate traffic"@,
        udp::ratio_of(Some(n)) == "a 1-byte datagram draws up to "@ + text::decimal(n as nat)
            + " bytes"@,
        udp::ratio_of(None) == "replies mirror the request size"@,
{
}

} // verus!
