use kirblasnoop::hexdump::{ascii_line, render};
use kirblasnoop::ts::{civil_from_days, clock, iso8601, millis, now_millis, stamp};

#[test]
fn a_dump_has_offsets_digits_and_ascii() {
    assert_eq!(
        render(b"GET /\x00\xff", 0, "  "),
        "  00000000  47 45 54 20 2f 00 ff                              |GET /..|\n"
    );
}

#[test]
fn a_full_row_has_a_gap_in_the_middle() {
    let data: Vec<u8> = (0x30..0x42).collect();
    assert_eq!(
        render(&data, 0, ""),
        "00000000  30 31 32 33 34 35 36 37  38 39 3a 3b 3c 3d 3e 3f  |0123456789:;<=>?|\n\
         00000010  40 41                                             |@A|\n"
    );
}

#[test]
fn a_dump_says_what_it_leaves_out() {
    assert_eq!(
        render(b"abcdef", 2, "> "),
        "> 00000000  61 62                                             |ab|\n> ... 4 more bytes\n"
    );
    assert_eq!(render(b"", 0, "  "), "");
    assert_eq!(render(b"ab", 2, ""), render(b"ab", 0, ""));
}

#[test]
fn a_line_escapes_what_cannot_be_shown() {
    assert_eq!(ascii_line(b"a\r\n\t\\ ~\x7f\x00", 0), "a\\r\\n\\t\\ ~\\x7f\\x00");
    assert_eq!(ascii_line(b"abcdef", 4), "abcd ...(+2)");
    assert_eq!(ascii_line(b"", 4), "");
}

#[test]
fn times_are_written_in_three_ways() {
    // 2026-08-13T18:40:12.345Z
    let ms: u64 = 1_786_646_412_345;
    assert_eq!(iso8601(ms), "2026-08-13T18:40:12.345Z");
    assert_eq!(clock(ms), "18:40:12.345");
    assert_eq!(stamp(ms), "20260813-184012");
    assert_eq!(iso8601(0), "1970-01-01T00:00:00.000Z");
    assert_eq!(iso8601(951_782_400_000), "2000-02-29T00:00:00.000Z");
    assert_eq!(clock(86_399_999), "23:59:59.999");
}

#[test]
fn days_are_dates_of_the_calendar() {
    assert_eq!(civil_from_days(0), (1970, 1, 1));
    assert_eq!(civil_from_days(-1), (1969, 12, 31));
    assert_eq!(civil_from_days(59), (1970, 3, 1));
    assert_eq!(civil_from_days(11_016), (2000, 2, 29));
    assert_eq!(civil_from_days(-719_468), (0, 3, 1));
    assert_eq!(civil_from_days(-719_469), (0, 2, 29));
    assert_eq!(civil_from_days(-719_529), (-1, 12, 31));
    let mut last = civil_from_days(-200_000);
    for z in -199_999..200_000 {
        let next = civil_from_days(z);
        assert!(last < next, "{last:?} {next:?}");
        last = next;
    }
}

#[test]
fn a_clock_before_the_epoch_reads_zero() {
    assert_eq!(millis(None), 0);
    assert_eq!(millis(Some(5)), 5);
    assert_eq!(millis(Some((1u128 << 64) + 5)), 5);
    // no machine that runs this is set to a time before 2020
    assert!(now_millis() > 1_577_836_800_000);
}

#[test]
fn stamps_stand_in_the_order_of_time() {
    let times: [u64; 8] = [
        0,
        999,
        1_000,
        86_399_999,
        86_400_000,
        951_782_400_000,
        1_786_646_412_345,
        253_402_300_799_999,
    ];
    for pair in times.windows(2) {
        let (a, b) = (pair[0], pair[1]);
        assert_eq!(stamp(a) < stamp(b), a / 1000 < b / 1000);
        assert_eq!(stamp(a) == stamp(b), a / 1000 == b / 1000);
    }
    assert_eq!(stamp(951_782_400_000), "20000229-000000");
    assert_eq!(stamp(253_402_300_799_999), "99991231-235959");
    assert_eq!(stamp(253_402_300_800_000), "100000101-000000");
}

#[test]
fn the_forms_of_a_time_agree() {
    for ms in [0, 86_399_999, 951_782_400_001, 253_402_300_799_999] {
        let (stamp, iso) = (stamp(ms), iso8601(ms));
        let digits = |s: &str| s.chars().filter(|c| c.is_ascii_digit()).collect::<String>();
        assert_eq!(digits(&stamp), digits(&iso[..19]));
        assert_eq!(stamp.len(), 15);
        assert_eq!(&stamp[8..9], "-");
        assert_eq!(&iso[11..23], clock(ms));
    }
}
