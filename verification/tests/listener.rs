use kirblasnoop::dns::{Answer, CLASS_IN, TYPE_A};
use kirblasnoop::endpoint::{Address, Endpoint};
use kirblasnoop::listener::tcp::{mode, relay, shadowed, Outcome, Relay, Session, Turn};
use kirblasnoop::listener::udp::{answers, drained, full, reflector, Peers, Received};
use kirblasnoop::listener::{profile_name, reply};
use kirblasnoop::log::{ConsoleMode, Logger, Options};
use kirblasnoop::profile::{Action, Compiled, CompiledRule, Match};
use kirblasnoop::stream::Limits;

fn logger() -> Logger {
    let opts = Options {
        dir: String::new(),
        console: ConsoleMode::Off,
        jsonl: false,
        raw: false,
        max_console_bytes: 0,
        jsonl_max_data: 0,
        stream_limits: Limits::default(),
        max_run_bytes: 0,
    };
    Logger::new(opts, 0)
}

fn sends(payload: &[u8]) -> Action {
    Action { payload: payload.to_vec(), ..Action::default() }
}

fn rule(name: &str, start: &str, action: Action) -> CompiledRule {
    CompiledRule {
        name: name.into(),
        matcher: Match { starts_with: Some(start.into()), ..Match::default() },
        action,
    }
}

fn profile() -> Compiled {
    Compiled {
        name: "p\"q".into(),
        description: String::new(),
        on_connect: Some(sends(b"hello")),
        rules: vec![
            rule("one", "a", sends(b"12")),
            rule("bye", "q", Action { close: true, ..sends(b"bye") }),
            CompiledRule {
                name: "first".into(),
                matcher: Match { first_only: Some(true), ..Match::default() },
                action: Action::default(),
            },
        ],
    }
}

#[test]
fn actions_come_to_replies() {
    let r = reply(&Action { delay_ms: 5, close: true, ..Action::default() }, b"x", true);
    assert_eq!((r.wait_ms, r.payload.len(), r.shutdown, r.close), (0, 0, false, true));
    let r = reply(&Action { delay_ms: 5, ..sends(b"out") }, b"x", true);
    assert_eq!((r.wait_ms, r.payload, r.shutdown, r.close), (5, b"out".to_vec(), false, false));
    let r = reply(&Action { echo: true, close: true, ..sends(b"out") }, b"x", true);
    assert_eq!((r.payload, r.shutdown, r.close), (b"x".to_vec(), true, true));
}

#[test]
fn queries_are_answered_with_and_without_a_frame() {
    let mut q = vec![0, 9, 1, 0, 0, 1, 0, 0, 0, 0, 0, 0, 1, b'x', 0];
    q.extend_from_slice(&TYPE_A.to_be_bytes());
    q.extend_from_slice(&CLASS_IN.to_be_bytes());
    let dns = Some(Answer { a: Some([192, 0, 2, 10]), aaaa: None, ttl: 60 });
    let a = Action { dns, ..Action::default() };
    let plain = reply(&a, &q, false).payload;
    assert_eq!(&plain[plain.len() - 4..], &[192, 0, 2, 10]);
    let mut framed = (q.len() as u16).to_be_bytes().to_vec();
    framed.extend_from_slice(&q);
    let r = reply(&a, &framed, true).payload;
    assert_eq!(r[2..], plain[..]);
    let none = reply(&Action { dns, close: true, delay_ms: 3, ..Action::default() }, b"no", false);
    assert_eq!((none.wait_ms, none.payload.len(), none.shutdown, none.close), (3, 0, false, true));
}

#[test]
fn a_session_greets_answers_and_ends() {
    let p = profile();
    let mut s = Session::new();
    match s.greet(Some(&p)) {
        Turn::Answer { rule, reply } => {
            assert_eq!(rule, "on_connect");
            assert_eq!(reply.payload, b"hello".to_vec());
        }
        _ => panic!("there is a banner"),
    }
    match s.read(Some(&p), b"zzz") {
        Turn::Answer { rule, .. } => assert_eq!(rule, "first"),
        _ => panic!("the first message matches"),
    }
    assert!(matches!(s.read(Some(&p), b"zzz"), Turn::Quiet));
    let turn = s.read(Some(&p), b"abc");
    assert_eq!(turn.outcome(), None);
    let turn = s.read(Some(&p), b"quit");
    assert_eq!(turn.outcome(), Some(Outcome::ProfileClose));
    let turn = s.read(Some(&p), b"");
    assert_eq!(turn.outcome(), Some(Outcome::PeerEof));
    assert!(matches!(s.greet(None), Turn::Quiet));
    assert!(matches!(s.read(None, b"x"), Turn::Quiet));
}

#[test]
fn endings_have_words() {
    assert_eq!(Outcome::PeerEof.why(), "peer eof");
    assert_eq!(Outcome::ProfileClose.why(), "profile close");
    assert_eq!(Outcome::UpstreamUnreachable.why(), "upstream unreachable");
    assert_eq!(Outcome::BothClosed.why(), "both directions closed");
    assert_eq!(Outcome::Failed.why(), "error");
}

#[test]
fn a_relay_passes_on_until_the_end() {
    assert_eq!(relay(Some(3)), Relay::Pass);
    assert_eq!(relay(Some(0)), Relay::HalfClose);
    assert_eq!(relay(None), Relay::HalfClose);
}

#[test]
fn an_upstream_wins_over_a_profile() {
    let p = profile();
    assert_eq!(mode(Some("h:1"), Some(&p)), "forward->h:1");
    assert_eq!(mode(None, Some(&p)), "p\"q");
    assert_eq!(mode(None, None), "none");
    assert_eq!(profile_name(None), "none");
    assert_eq!(
        shadowed(true, Some(&p)),
        Some(
            "an upstream and a responding profile are both set; the upstream wins \
             and the profile's rules will not fire"
        )
    );
    assert_eq!(shadowed(false, Some(&p)), None);
    assert_eq!(shadowed(true, None), None);
}

fn from(last: u8) -> Endpoint {
    Endpoint::new(Address::V4([192, 0, 2, last]), 1000)
}

#[test]
fn sources_are_tracked_up_to_the_cap() {
    let mut log = logger();
    let mut peers = Peers::new(60, 2);
    assert_eq!(peers.receive(from(1), 0, &mut log), Received::Known { conn: 1, first: true });
    assert_eq!(peers.receive(from(2), 0, &mut log), Received::Known { conn: 2, first: true });
    assert_eq!(peers.receive(from(1), 5, &mut log), Received::Known { conn: 1, first: false });
    assert_eq!(peers.receive(from(3), 5, &mut log), Received::Overflow { conn: 3, opened: true });
    assert_eq!(peers.receive(from(4), 5, &mut log), Received::Overflow { conn: 3, opened: false });
    assert_eq!(peers.untracked(), 2);
    // both are still heard from often enough, and the table is still full
    let swept = peers.sweep(59_999);
    assert!(swept.retired.is_empty());
    assert_eq!(swept.overflow, None);
    // the second was silent for a minute
    let swept = peers.sweep(60_000);
    assert_eq!(swept.retired.len(), 1);
    assert_eq!(swept.retired[0].conn, 2);
    assert_eq!(swept.retired[0].addr, from(2));
    assert_eq!(swept.overflow, Some((3, 2)));
    assert_eq!(peers.receive(from(5), 60_000, &mut log), Received::Known { conn: 4, first: true });
    assert_eq!(peers.receive(from(6), 60_000, &mut log), Received::Overflow { conn: 5, opened: true });
    assert_eq!(peers.untracked(), 1);
}

#[test]
fn a_scope_tells_sources_apart() {
    let mut log = logger();
    let mut peers = Peers::new(60, 9);
    let a = Endpoint { scope_id: 1, ..Endpoint::new(Address::V6([0xfe; 16]), 9) };
    let b = Endpoint { scope_id: 2, ..a };
    assert_eq!(peers.receive(a, 0, &mut log), Received::Known { conn: 1, first: true });
    assert_eq!(peers.receive(b, 0, &mut log), Received::Known { conn: 2, first: true });
}

#[test]
fn an_idle_time_too_long_to_count_never_ends() {
    let mut log = logger();
    let mut peers = Peers::new(u64::MAX, 1);
    peers.receive(from(1), 7, &mut log);
    assert!(peers.sweep(u64::MAX).retired.is_empty());
    // a clock that was set back retires nobody
    assert!(peers.sweep(0).retired.is_empty());
    let mut none = Peers::new(0, 1);
    none.receive(from(1), 7, &mut log);
    assert_eq!(none.sweep(7).retired.len(), 1);
}

#[test]
fn no_idle_time_retires_at_any_clock() {
    let mut log = logger();
    let mut peers = Peers::new(0, 4);
    peers.receive(from(1), 10, &mut log);
    assert_eq!(peers.sweep(5).retired.len(), 1);
    let mut patient = Peers::new(1, 4);
    patient.receive(from(1), 10, &mut log);
    assert!(patient.sweep(5).retired.is_empty());
    assert!(patient.sweep(1_009).retired.is_empty());
    assert_eq!(patient.sweep(1_010).retired.len(), 1);
}

#[test]
fn datagrams_draw_the_banner_once_and_then_a_rule() {
    let p = profile();
    let out = answers(Some(&p), Received::Known { conn: 1, first: true }, b"a");
    assert_eq!(out.len(), 2);
    assert_eq!((out[0].rule.as_str(), out[0].reply.payload.len()), ("on_connect", 5));
    assert_eq!((out[1].rule.as_str(), out[1].reply.payload.len()), ("one", 2));
    let out = answers(Some(&p), Received::Known { conn: 1, first: false }, b"a");
    assert_eq!(out.len(), 1);
    assert!(answers(Some(&p), Received::Overflow { conn: 1, opened: true }, b"a").is_empty());
    assert!(answers(None, Received::Known { conn: 1, first: true }, b"a").is_empty());
}

#[test]
fn an_open_reflector_is_warned_of() {
    let p = profile();
    let w = reflector(Some(&p), &from(1)).unwrap();
    assert_eq!(
        w,
        "profile \"p\\\"q\" replies to unverified source addresses on a non-loopback bind. \
         udp sources are trivially forged, so this is an open reflector: \
         a 1-byte datagram draws up to 8 bytes, \
         sent wherever the sender claimed to be. bind loopback or an isolated \
         interface unless that is intended"
    );
    let home = Endpoint::new(Address::V4([127, 0, 0, 1]), 9);
    assert!(reflector(Some(&p), &home).is_none());
    assert!(reflector(None, &from(1)).is_none());
    let mut echo = profile();
    echo.rules[0].action.echo = true;
    assert!(reflector(Some(&echo), &from(1))
        .unwrap()
        .contains("replies mirror the request size"));
}

#[test]
fn a_full_table_and_its_end_have_words() {
    assert_eq!(
        full(4096),
        "peer table hit 4096 entries. further new sources are captured under one overflow \
         stream, untracked and unanswered. raise --udp-max-peers if this is legitimate traffic"
    );
    assert_eq!(drained(17), "17 untracked datagrams");
}

#[test]
fn a_quiet_profile_sends_nothing() {
    let p = Compiled {
        name: "silent".into(),
        description: String::new(),
        on_connect: Some(Action { delay_ms: 9, ..Action::default() }),
        rules: vec![rule("all", "", Action::default())],
    };
    assert!(!p.responds());
    for out in answers(Some(&p), Received::Known { conn: 1, first: true }, b"abc") {
        assert!(out.reply.payload.is_empty());
        assert_eq!(out.reply.wait_ms, 0);
    }
    assert!(reflector(Some(&p), &from(1)).is_none());
}
