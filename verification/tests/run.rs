use kirblasnoop::encoding::base64_len;
use kirblasnoop::log::budget::{Budget, Verdict};
use kirblasnoop::log::logger::{head_file, tail_file, RawStart};
use kirblasnoop::log::{ConsoleMode, Dir, Logger, Options, Stats};
use kirblasnoop::stream::Limits;

const NOW: u64 = 1_786_646_412_345;

fn options() -> Options {
    Options {
        dir: "captures".into(),
        console: ConsoleMode::Summary,
        jsonl: true,
        raw: true,
        max_console_bytes: 0,
        jsonl_max_data: 4,
        stream_limits: Limits { head: 4, tail: 2 },
        max_run_bytes: 0,
    }
}

fn logger() -> Logger {
    Logger::new(options(), NOW)
}

#[test]
fn modes_are_named_in_any_case() {
    assert_eq!("HEX".parse::<ConsoleMode>(), Ok(ConsoleMode::Hex));
    assert_eq!("ascii".parse::<ConsoleMode>(), Ok(ConsoleMode::Ascii));
    assert_eq!("Summary".parse::<ConsoleMode>(), Ok(ConsoleMode::Summary));
    assert_eq!("off".parse::<ConsoleMode>(), Ok(ConsoleMode::Off));
    assert_eq!("none".parse::<ConsoleMode>(), Ok(ConsoleMode::Off));
    assert_eq!(
        "Lo\"ud".parse::<ConsoleMode>(),
        Err("unknown console mode \"lo\\\"ud\"".to_string())
    );
}

#[test]
fn a_budget_stops_once_and_for_all() {
    let mut b = Budget::new(10);
    assert_eq!(b.charge(6), Verdict::Granted);
    assert_eq!(b.charge(4), Verdict::Granted);
    assert_eq!(b.used(), 10);
    assert_eq!(b.charge(1), Verdict::Stopped);
    assert_eq!(b.charge(1), Verdict::Refused);
    assert_eq!(b.charge(0), Verdict::Refused);
    assert_eq!(b.used(), 10);
    assert_eq!(b.cap(), 10);
    assert!(b.stopped());
    let mut free = Budget::new(0);
    assert_eq!(free.charge(u64::MAX), Verdict::Granted);
    assert_eq!(free.charge(u64::MAX), Verdict::Granted);
    assert!(!free.stopped());
    let mut all = Budget::new(u64::MAX);
    assert_eq!(all.charge(u64::MAX), Verdict::Granted);
    assert_eq!(all.charge(1), Verdict::Stopped);
}

#[test]
fn a_run_is_named_after_its_time() {
    let log = logger();
    assert_eq!(log.run_name(), "20260813-184012");
    assert_eq!(log.run_dir(), "captures/20260813-184012");
    assert!(log.writes_files());
    assert_eq!(log.stats(), Stats::default());
    let slash = Logger::new(Options { dir: "/var/".into(), jsonl: false, raw: false, ..options() }, NOW);
    assert_eq!(slash.run_dir(), "/var/20260813-184012");
    assert!(!slash.writes_files());
    let here = Logger::new(Options { dir: String::new(), ..options() }, NOW);
    assert_eq!(here.run_dir(), "20260813-184012");
}

#[test]
fn connections_are_numbered_from_one() {
    let mut log = logger();
    assert_eq!(log.next_conn_id(), 1);
    assert_eq!(log.next_conn_id(), 2);
}

#[test]
fn a_listener_coming_up_is_said_and_recorded() {
    let r = logger().listening("tcp", "tcp:0", "0.0.0.0:9000", "none", NOW);
    assert_eq!(
        r.line.unwrap(),
        "[18:40:12.345] listen  tcp/0.0.0.0:9000  listener=tcp:0 profile=none"
    );
    let e = r.event.unwrap();
    assert_eq!(e.ts, "2026-08-13T18:40:12.345Z");
    assert_eq!(e.ts_ms, NOW);
    assert_eq!(e.event, "listen");
    assert_eq!(e.listener.as_deref(), Some("tcp:0"));
    assert_eq!(e.local.as_deref(), Some("0.0.0.0:9000"));
    assert_eq!(e.note.as_deref(), Some("none"));
    assert_eq!(e.conn, None);
}

#[test]
fn a_redirected_connection_says_what_it_wanted() {
    let mut log = logger();
    let r = log.open("tcp", "n", 1, "0.0.0.0:9", "10.0.2.15:34960", Some("192.0.2.44:8883"), NOW);
    assert_eq!(
        r.line.unwrap(),
        "[18:40:12.345] open    #1 tcp 10.0.2.15:34960 WANTED 192.0.2.44:8883"
    );
    assert_eq!(r.event.unwrap().orig_dst.as_deref(), Some("192.0.2.44:8883"));
    let r = log.open("tcp", "n", 2, "0.0.0.0:9", "10.0.2.15:1", None, NOW);
    assert_eq!(
        r.line.unwrap(),
        "[18:40:12.345] open    #2 tcp 10.0.2.15:1 -> 0.0.0.0:9"
    );
    assert_eq!(r.event.unwrap().orig_dst, None);
    assert_eq!(log.stats().conns, 2);
}

#[test]
fn data_is_shown_classified_and_recorded() {
    let mut log = logger();
    let r = log.data("tcp", "n", 3, "p", Dir::Rx, b"{\"id\":1}", Some("all"), NOW);
    assert_eq!(
        r.line.unwrap(),
        "[18:40:12.345] --> #3 tcp p 8 bytes [all]  JSON-ish"
    );
    let e = r.event.unwrap();
    assert_eq!(e.event, "data");
    assert_eq!(e.dir.as_deref(), Some("rx"));
    assert_eq!(e.hint.as_deref(), Some("JSON-ish"));
    assert_eq!(e.len, Some(8));
    assert_eq!(e.rule.as_deref(), Some("all"));
    assert_eq!(e.data.as_deref(), Some("eyJpZA=="));
    assert_eq!(e.data_truncated, Some(true));
    let r = log.data("udp", "n", 3, "p", Dir::Tx, &[1, 2, 3], None, NOW);
    assert_eq!(r.line.unwrap(), "[18:40:12.345] <-- #3 udp p 3 bytes");
    let e = r.event.unwrap();
    assert_eq!(e.data.as_deref(), Some("AQID"));
    assert_eq!(e.data_truncated, None);
    let s = log.stats();
    assert_eq!((s.rx_msgs, s.rx_bytes, s.tx_msgs, s.tx_bytes), (1, 8, 1, 3));
}

#[test]
fn the_console_mode_decides_how_bytes_are_shown() {
    let line = |console: ConsoleMode| {
        Logger::new(Options { console, jsonl: false, ..options() }, NOW)
            .data("tcp", "n", 1, "p", Dir::Rx, b"\x01\x02", None, NOW)
    };
    let hex = line(ConsoleMode::Hex);
    assert_eq!(
        hex.line.unwrap(),
        "[18:40:12.345] --> #1 tcp p 2 bytes\n  00000000  01 02                                             |..|"
    );
    assert!(hex.event.is_none());
    assert_eq!(
        line(ConsoleMode::Ascii).line.unwrap(),
        "[18:40:12.345] --> #1 tcp p 2 bytes\n  \\x01\\x02"
    );
    assert!(line(ConsoleMode::Off).line.is_none());
}

#[test]
fn payloads_of_any_length_are_encoded() {
    let mut log = Logger::new(Options { jsonl_max_data: 0, ..options() }, NOW);
    let mut text = |b: &[u8]| log.data("tcp", "n", 1, "p", Dir::Rx, b, None, NOW).event.unwrap().data.unwrap();
    assert_eq!(text(b""), "");
    assert_eq!(text(b"f"), "Zg==");
    assert_eq!(text(b"fo"), "Zm8=");
    assert_eq!(text(b"foo"), "Zm9v");
    assert_eq!(text(b"foobar"), "Zm9vYmFy");
    assert_eq!(text(&[0xfb, 0xef, 0xff, 0xfe]), "++///g==");
    assert_eq!(base64_len(4), Some(8));
    assert_eq!(base64_len(0), Some(0));
    assert_eq!(base64_len(usize::MAX), None);
}

#[test]
fn raw_streams_are_opened_filled_and_closed() {
    let mut log = logger();
    let stem = match log.raw_write(7, "tcp", "[::1]:80", Dir::Rx, b"abcdefgh") {
        RawStart::Open(stem) => stem,
        _ => panic!("the stream is new"),
    };
    assert_eq!(stem, "0007-tcp-___1__80.rx");
    assert_eq!(head_file(&stem), "0007-tcp-___1__80.rx.bin");
    assert_eq!(tail_file(&stem), "0007-tcp-___1__80.rx.tail.bin");
    assert!(!log.has_room(7, Dir::Rx, 1));
    log.raw_opened("tcp", "n", 7, "[::1]:80", Dir::Rx, &stem);
    assert!(log.has_room(7, Dir::Rx, 8));
    let mut head = Vec::new();
    let notice = log.raw_append(7, Dir::Rx, b"abcdefgh", &mut head, NOW);
    assert_eq!(
        notice.unwrap(),
        "[18:40:12.345] TRUNC   #7 rx exceeded the stream cap, keeping the first 4B and last 2B"
    );
    assert_eq!(head, b"abcd".to_vec());
    assert!(matches!(log.raw_write(7, "tcp", "[::1]:80", Dir::Rx, b"i"), RawStart::Ready));
    assert!(log.raw_append(7, Dir::Rx, b"i", &mut head, NOW).is_none());
    assert!(matches!(log.raw_write(7, "tcp", "[::1]:80", Dir::Rx, b""), RawStart::Skip));
    assert!(log.close_raw(7, Dir::Tx).is_none());
    let s = log.close_raw(7, Dir::Rx).unwrap();
    assert_eq!(s.tail_bytes(), b"hi".to_vec());
    let sum = s.finish(true);
    let r = log.truncated("tcp", "n", 7, "p", Dir::Rx, &sum, NOW).unwrap();
    let note = "rx truncated: 6B of 9B kept (4B head + 2B tail), 3B dropped, tail in 0007-tcp-___1__80.rx.tail.bin";
    assert_eq!(r.line.unwrap(), format!("[18:40:12.345] TRUNC   #7 {note}"));
    let e = r.event.unwrap();
    assert_eq!(e.event, "truncated");
    assert_eq!(e.len, Some(9));
    assert_eq!(e.note.as_deref(), Some(note));
    assert!(log.close_raw(7, Dir::Rx).is_none());
}

#[test]
fn whole_streams_are_closed_without_a_word() {
    let mut log = logger();
    log.raw_opened("tcp", "n", 1, "p", Dir::Tx, "s");
    let mut head = Vec::new();
    assert!(log.raw_append(1, Dir::Tx, b"abc", &mut head, NOW).is_none());
    let sum = log.close_raw(1, Dir::Tx).unwrap().finish(true);
    assert!(log.truncated("tcp", "n", 1, "p", Dir::Tx, &sum, NOW).is_none());
    assert!(log.flushed("tcp", "n", 1, "p", Dir::Tx, &sum, NOW).is_none());
}

#[test]
fn streams_do_not_touch_each_other() {
    let mut log = Logger::new(Options { stream_limits: Limits::default(), ..options() }, NOW);
    let mut files = vec![Vec::new(), Vec::new(), Vec::new()];
    let keys = [(1, Dir::Rx), (1, Dir::Tx), (2, Dir::Rx)];
    for (conn, dir) in keys {
        log.raw_opened("tcp", "n", conn, "p", dir, "s");
    }
    for round in 0..5u8 {
        for (i, (conn, dir)) in keys.iter().enumerate() {
            log.raw_append(*conn, *dir, &[round, i as u8], &mut files[i], NOW);
        }
    }
    for (i, file) in files.iter().enumerate() {
        let want: Vec<u8> = (0..5u8).flat_map(|r| [r, i as u8]).collect();
        assert_eq!(*file, want);
    }
    let open = log.flush();
    assert_eq!(open.len(), 3);
    for (conn, dir) in keys {
        let h = open.iter().find(|h| (h.conn, h.dir) == (conn, dir)).unwrap();
        assert_eq!(h.stream.total(), 10);
    }
    assert!(log.flush().is_empty());
}

#[test]
fn streams_open_at_the_end_report_their_gaps() {
    let mut log = logger();
    let mut head = Vec::new();
    log.raw_opened("udp", "dns", 7, "[::1]:80", Dir::Rx, "s");
    log.raw_append(7, Dir::Rx, b"abcdefghi", &mut head, NOW);
    let mut open = log.flush();
    assert_eq!(open.len(), 1);
    let h = open.remove(0);
    assert_eq!((h.conn, h.dir), (7, Dir::Rx));
    assert_eq!((h.proto.as_str(), h.name.as_str(), h.peer.as_str()), ("udp", "dns", "[::1]:80"));
    assert!(!log.has_room(7, Dir::Rx, 0));
    let sum = h.stream.finish(true);
    let r = log.flushed(&h.proto, &h.name, h.conn, &h.peer, h.dir, &sum, NOW).unwrap();
    let note = "rx truncated: 6B of 9B kept, 3B dropped";
    assert_eq!(r.line.unwrap(), format!("[18:40:12.345] TRUNC   #7 {note}"));
    let e = r.event.unwrap();
    assert_eq!((e.event.as_str(), e.proto.as_str()), ("truncated", "udp"));
    assert_eq!(e.listener.as_deref(), Some("dns"));
    assert_eq!((e.conn, e.len), (Some(7), Some(9)));
    assert_eq!(e.peer.as_deref(), Some("[::1]:80"));
    assert_eq!(e.dir.as_deref(), Some("rx"));
    assert_eq!(e.note.as_deref(), Some(note));
    let quiet = Logger::new(Options { jsonl: false, ..options() }, NOW);
    let r = quiet.flushed("udp", "dns", 7, "p", Dir::Rx, &sum, NOW).unwrap();
    assert!(r.line.is_some() && r.event.is_none());
}

#[test]
fn what_is_recorded_bounds_a_message_and_nothing_else_does() {
    assert!(logger().can_record(usize::MAX));
    let whole = Logger::new(Options { jsonl_max_data: 0, ..options() }, NOW);
    assert!(whole.can_record(1 << 20));
    assert!(!whole.can_record(usize::MAX));
    let off = Logger::new(Options { jsonl: false, jsonl_max_data: 0, ..options() }, NOW);
    assert!(off.can_record(usize::MAX));
}

#[test]
fn a_full_run_stops_writing_and_says_so() {
    let mut log = Logger::new(Options { max_run_bytes: 10, ..options() }, NOW);
    assert_eq!(log.emit(5), Verdict::Granted);
    match log.raw_write(1, "tcp", "p", Dir::Rx, b"12345") {
        RawStart::Refused { announce } => assert!(announce),
        _ => panic!("over the cap"),
    }
    assert_eq!(
        log.limit_line(NOW),
        "[18:40:12.345] LIMIT   run cap of 10B reached: disk writes stopped, console continues. \
         raise it with --max-run-bytes (0 disables)"
    );
    match log.raw_write(1, "tcp", "p", Dir::Rx, b"1") {
        RawStart::Refused { announce } => assert!(!announce),
        _ => panic!("stopped for good"),
    }
    assert_eq!(log.charge(1), Verdict::Refused);
    assert_eq!(
        log.summary(),
        "\nconns 0  rx 0 msgs / 0 bytes  tx 0 msgs / 0 bytes\n\
         capture: captures/20260813-184012 (6B written)\n\
         WARNING: the 10B run cap was hit, so this capture is incomplete on disk"
    );
}

#[test]
fn closing_warning_and_failing_are_said_and_recorded() {
    let log = logger();
    let r = log.close("udp", "n", 4, "p", "idle timeout", NOW);
    assert_eq!(r.line.unwrap(), "[18:40:12.345] close   #4 udp p (idle timeout)");
    assert_eq!(r.event.unwrap().note.as_deref(), Some("idle timeout"));
    let r = log.warn("udp", "udp:0", "careful", NOW);
    assert_eq!(r.line.unwrap(), "[18:40:12.345] WARNING udp:0: careful");
    assert_eq!(r.event.unwrap().event, "warning");
    let r = log.error("tcp", "tcp:0", Some(4), "accept: no", NOW);
    assert_eq!(r.line.unwrap(), "[18:40:12.345] error   tcp tcp:0 accept: no");
    let e = r.event.unwrap();
    assert_eq!((e.event.as_str(), e.conn), ("error", Some(4)));
}

#[test]
fn without_files_nothing_is_recorded() {
    let mut log = Logger::new(Options { jsonl: false, raw: false, ..options() }, NOW);
    assert!(log.close("udp", "n", 4, "p", "x", NOW).event.is_none());
    assert!(matches!(log.raw_write(1, "tcp", "p", Dir::Rx, b"1"), RawStart::Skip));
    assert_eq!(log.summary(), "\nconns 0  rx 0 msgs / 0 bytes  tx 0 msgs / 0 bytes");
    assert_eq!(log.options().dir, "captures");
}

#[test]
fn each_stream_has_files_of_its_own() {
    let mut log = logger();
    let mut names = Vec::new();
    for conn in [1, 10, 100, 10_000, 100_000] {
        for peer in ["a", "a.b", "1-a"] {
            for dir in [Dir::Rx, Dir::Tx] {
                match log.raw_write(conn, "tcp", peer, dir, b"x") {
                    RawStart::Open(stem) => {
                        names.push((conn, dir, head_file(&stem)));
                        names.push((conn, dir, tail_file(&stem)));
                    }
                    _ => panic!("nothing was opened yet"),
                }
            }
        }
    }
    for a in &names {
        for b in &names {
            if a.2 == b.2 {
                assert!(a.0 == b.0 && a.1 == b.1);
            }
        }
    }
}
