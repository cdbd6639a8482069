use kirblasnoop::stream::{human, parse_size, Limits, Stream, Summary};

/// A stream with its two files in memory.
struct Files {
    stream: Stream,
    head: Vec<u8>,
}

impl Files {
    fn create(limits: Limits) -> Files {
        Files {
            stream: Stream::create("x.tail.bin".to_string(), limits),
            head: Vec::new(),
        }
    }

    fn write(&mut self, data: &[u8]) -> bool {
        self.stream.write(data, &mut self.head)
    }

    /// What is in the head file, in the tail file if there is one, and the summary.
    fn finish(self) -> (Vec<u8>, Option<Vec<u8>>, Summary) {
        let tail = self.stream.tail_bytes();
        let sum = self.stream.finish(true);
        let file = sum.tail_path.as_ref().map(|_| tail);
        (self.head, file, sum)
    }
}

#[test]
fn sizes_round_trip() {
    assert_eq!(parse_size("4096").unwrap(), 4096);
    assert_eq!(parse_size("8M").unwrap(), 8 << 20);
    assert_eq!(parse_size("512k").unwrap(), 512 << 10);
    assert_eq!(parse_size("1GB").unwrap(), 1 << 30);
    assert!(parse_size("").is_err());
    assert!(parse_size("banana").is_err());
}

#[test]
fn human_is_short() {
    assert_eq!(human(0), "0B");
    assert_eq!(human(512), "512B");
    assert_eq!(human(1536), "1.5K");
    assert_eq!(human(1 << 20), "1M");
}

#[test]
fn unlimited_keeps_everything() {
    let mut s = Files::create(Limits::default());
    assert!(!s.write(&[7u8; 5000]));
    let (head, _, sum) = s.finish();
    assert_eq!(sum.total, 5000);
    assert_eq!(sum.dropped, 0);
    assert_eq!(head.len(), 5000);
}

#[test]
fn head_cap_keeps_the_front_and_reports_once() {
    let limits = Limits { head: 100, tail: 0 };
    let mut s = Files::create(limits);
    // first write fits entirely, no announcement
    assert!(!s.write(&[1u8; 60]));
    // this one overruns: announced exactly once
    assert!(s.write(&[2u8; 60]));
    assert!(!s.write(&[3u8; 60]));
    let (got, _, sum) = s.finish();
    assert_eq!(sum.head, 100);
    assert_eq!(sum.dropped, 80);
    assert_eq!(sum.total, 180);
    assert_eq!(got.len(), 100);
    assert_eq!(&got[..60], &[1u8; 60]); // the front survived
}

#[test]
fn tail_keeps_the_most_recent_bytes() {
    let limits = Limits { head: 10, tail: 16 };
    let mut s = Files::create(limits);
    // 0..=255 in one go
    let data: Vec<u8> = (0..=255u8).collect();
    s.write(&data);
    let (head, tail, sum) = s.finish();
    assert_eq!(sum.head, 10);
    assert_eq!(sum.tail, 16);
    assert_eq!(sum.dropped, 256 - 10 - 16);
    assert_eq!(head, (0..10u8).collect::<Vec<_>>());
    // the tail file holds the final 16 bytes, contiguous and in order
    assert_eq!(tail.unwrap(), (240..=255u8).collect::<Vec<_>>());
}

#[test]
fn tail_ring_evicts_across_many_small_writes() {
    let limits = Limits { head: 4, tail: 8 };
    let mut s = Files::create(limits);
    for i in 0..20u8 {
        s.write(&[i]);
    }
    let (_, tail, sum) = s.finish();
    assert_eq!(sum.total, 20);
    assert_eq!(sum.head, 4);
    assert_eq!(sum.tail, 8);
    assert_eq!(sum.dropped, 8);
    assert_eq!(tail.unwrap(), (12..20u8).collect::<Vec<_>>());
}

#[test]
fn no_tail_file_when_nothing_was_truncated() {
    let limits = Limits { head: 1000, tail: 16 };
    let mut s = Files::create(limits);
    s.write(b"short");
    let (_, tail, sum) = s.finish();
    assert!(sum.tail_path.is_none());
    assert!(tail.is_none());
}

#[test]
fn no_tail_file_when_it_could_not_be_created() {
    let mut s = Stream::create("x.tail.bin".to_string(), Limits { head: 1, tail: 4 });
    let mut head = Vec::new();
    assert!(s.write(b"abc", &mut head));
    assert_eq!(s.total(), 3);
    let sum = s.finish(false);
    assert_eq!(sum.tail, 2);
    assert!(sum.tail_path.is_none());
}

#[test]
fn both_ends_survive_any_split_of_the_writes() {
    let data: Vec<u8> = (0..100u8).collect();
    for step in 1..30 {
        let mut s = Files::create(Limits { head: 7, tail: 11 });
        let mut told = 0;
        for chunk in data.chunks(step) {
            if s.write(chunk) {
                told += 1;
            }
        }
        let (head, tail, sum) = s.finish();
        assert_eq!(told, 1);
        assert_eq!(head, data[..7]);
        assert_eq!(tail.unwrap(), data[89..]);
        assert_eq!(sum.dropped, 82);
    }
}

#[test]
fn unlimited_is_a_head_of_zero() {
    assert!(Limits::default().unlimited());
    assert!(!Limits { head: 1, tail: 0 }.unlimited());
}

#[test]
fn sizes_that_cannot_be_read_say_why() {
    assert_eq!(parse_size("  ").unwrap_err(), "empty size");
    assert_eq!(
        parse_size("ba\"na").unwrap_err(),
        "bad size \"ba\\\"na\", want something like 8M or 512K"
    );
    assert_eq!(
        parse_size("99999999999G").unwrap_err(),
        "size \"99999999999G\" overflows"
    );
    assert_eq!(parse_size(" 2 k b").unwrap_err(), "bad size \" 2 k b\", want something like 8M or 512K");
    assert_eq!(parse_size(" 2 kb ").unwrap(), 2048);
    assert_eq!(parse_size("+7").unwrap(), 7);
    assert_eq!(parse_size("\u{3000}3M\u{a0}").unwrap(), 3 << 20);
    assert!(parse_size("b").is_err());
}

#[test]
fn whole_sizes_read_back() {
    for n in [0u64, 1, 1023, 1 << 10, 5 << 10, 7 << 20, 3 << 30] {
        assert_eq!(parse_size(&human(n)).unwrap(), n);
    }
    assert_eq!(human(1023), "1023B");
    assert_eq!(human((1 << 30) + (1 << 29)), "1.5G");
}
