//! Wall-clock timestamps in the Gregorian calendar, in UTC.
use crate::order;
use crate::text;
use crate::text::push_decimal_padded;
use vstd::prelude::*;

verus! {

/// `std::time::SystemTime::elapsed` of the epoch: the milliseconds since 1970 by
/// the machine's clock, or nothing where the clock stands before that. The time
/// is the machine's, so nothing is said of it.
#[verifier::external_body]
fn since_epoch() -> (ms: Option<u128>) {
    std::time::UNIX_EPOCH.elapsed().ok().map(|d| d.as_millis())
}

/// Milliseconds since the epoch in 64 bits; a clock before the epoch reads zero.
pub fn millis(elapsed: Option<u128>) -> (ms: u64)
    ensures
        match elapsed {
            Some(n) => ms as int == n as int % 0x1_0000_0000_0000_0000,
            None => ms == 0,
        },
{
    match elapsed {
        Some(n) => {
            assert(#[verifier::truncate] (n as u64) == n % 0x1_0000_0000_0000_0000u128)
                by (bit_vector);
            #[verifier::truncate]
            (n as u64)
        },
        None => 0,
    }
}

/// The time now, in milliseconds since the epoch.
pub fn now_millis() -> (ms: u64) {
    millis(since_epoch())
}

/// A year of 366 days.
pub open spec fn is_leap(y: int) -> bool {
    y % 4 == 0 && (y % 100 != 0 || y % 400 == 0)
}

/// How many days a month has.
pub open spec fn month_len(y: int, m: int) -> int {
    if m == 2 {
        if is_leap(y) {
            29
        } else {
            28
        }
    } else if m == 4 || m == 6 || m == 9 || m == 11 {
        30
    } else {
        31
    }
}

/// How many days of a common year come before a month.
pub open spec fn month_start(m: int) -> int {
    if m <= 1 {
        0
    } else if m == 2 {
        31
    } else if m == 3 {
        59
    } else if m == 4 {
        90
    } else if m == 5 {
        120
    } else if m == 6 {
        151
    } else if m == 7 {
        181
    } else if m == 8 {
        212
    } else if m == 9 {
        243
    } else if m == 10 {
        273
    } else if m == 11 {
        304
    } else {
        334
    }
}

/// How many days come before a year, counted from the first of January of year
/// zero.
pub open spec fn year_start(y: int) -> int {
    365 * y + (y + 3) / 4 - (y + 99) / 100 + (y + 399) / 400
}

/// The number of a day, with the first of January 1970 as day zero.
pub open spec fn day_number(y: int, m: int, d: int) -> int {
    year_start(y) + month_start(m) + (if m > 2 && is_leap(y) {
        1int
    } else {
        0
    }) + d - 1 - 719_528
}

/// A date of the calendar.
pub open spec fn is_date(y: int, m: int, d: int) -> bool {
    1 <= m <= 12 && 1 <= d <= month_len(y, m)
}

/// Whether a date is the day of that number.
pub open spec fn falls_on(date: (int, int, int), day: int) -> bool {
    is_date(date.0, date.1, date.2) && day_number(date.0, date.1, date.2) == day
}

/// The year, month and day of the day of that number.
pub open spec fn date_of(day: int) -> (int, int, int) {
    choose|date: (int, int, int)| falls_on(date, day)
}

/// The day after a date.
pub open spec fn next_date(y: int, m: int, d: int) -> (int, int, int) {
    if d < month_len(y, m) {
        (y, m, d + 1)
    } else if m < 12 {
        (y, m + 1, 1)
    } else {
        (y + 1, 1, 1)
    }
}

proof fn a_year_is_covered(y: int, m: int, d: int)
    requires
        is_date(y, m, d),
    ensures
        year_start(y) <= day_number(y, m, d) + 719_528 < year_start(y + 1),
{
    years_before_march(y);
}

proof fn years_start_in_order(y: int, later: int)
    requires
        y <= later,
    ensures
        year_start(y) <= year_start(later),
    decreases later - y,
{
    if y < later {
        years_start_in_order(y, later - 1);
        years_before_march(later - 1);
    }
}

/// The epoch is day zero, and days are numbered in the order of the calendar.
pub proof fn days_follow_the_calendar(y: int, m: int, d: int)
    requires
        is_date(y, m, d),
    ensures
        day_number(1970, 1, 1) == 0,
        ({
            let (y1, m1, d1) = next_date(y, m, d);
            is_date(y1, m1, d1) && day_number(y1, m1, d1) == day_number(y, m, d) + 1
        }),
{
    years_before_march(y);
}

/// A day has one date: no two dates have the same number.
pub proof fn a_day_has_one_date(a: (int, int, int), b: (int, int, int))
    requires
        is_date(a.0, a.1, a.2),
        is_date(b.0, b.1, b.2),
        day_number(a.0, a.1, a.2) == day_number(b.0, b.1, b.2),
    ensures
        a == b,
{
    a_year_is_covered(a.0, a.1, a.2);
    a_year_is_covered(b.0, b.1, b.2);
    if a.0 < b.0 {
        years_start_in_order(a.0 + 1, b.0);
    } else if b.0 < a.0 {
        years_start_in_order(b.0 + 1, a.0);
    }
}

proof fn year_of_era(doe: int)
    requires
        0 <= doe < 146_097,
    ensures
        ({
            let yoe = (doe - doe / 1460 + doe / 36_524 - doe / 146_096) / 365;
            &&& 0 <= yoe < 400
            &&& 365 * yoe + yoe / 4 - yoe / 100 <= doe
            &&& doe < 365 * (yoe + 1) + (yoe + 1) / 4 - (yoe + 1) / 100 + (yoe + 1) / 400
        }),
{
    let c = doe / 36_524;
    if c < 4 {
        let r = doe - 36_524 * c;
        let a = (24 * c + r) / 1460;
        assert(doe / 1460 == 25 * c + a);
        assert(doe / 146_096 == 0);
        let t = (r - a) / 365;
        assert((36_500 * c + (r - a)) / 365 == 100 * c + t);
        let u = r / 1461;
        assert(0 <= t < 100);
        assert(365 * t + t / 4 <= r);
        assert(t < 99 ==> r < 365 * (t + 1) + (t + 1) / 4);
    }
}

/// What division by a number gives a little further on.
spec fn rounds_up(y: int, k: int) -> bool {
    &&& (y + k - 1) / k == y / k + (if y % k == 0 {
        0int
    } else {
        1
    })
    &&& (y + k) / k == y / k + 1
}

proof fn rounding_up(y: int)
    ensures
        rounds_up(y, 4),
        rounds_up(y, 100),
        rounds_up(y, 400),
{
    assert(rounds_up(y, 4));
    assert(rounds_up(y, 100));
    assert(rounds_up(y, 400));
}

proof fn multiples(y: int)
    ensures
        y % 100 == 0 ==> y % 4 == 0,
        y % 400 == 0 ==> y % 100 == 0,
{
    assert(y % 100 == 0 ==> y % 4 == 0);
    assert(y % 400 == 0 ==> y % 100 == 0);
}

proof fn years_before_march(y: int)
    ensures
        year_start(y) + (if is_leap(y) {
            1int
        } else {
            0
        }) == 365 * y + y / 4 - y / 100 + y / 400 + 1,
        year_start(y + 1) == 365 * y + y / 4 - y / 100 + y / 400 + 366,
{
    rounding_up(y);
    multiples(y);
}

proof fn shifted_by_eras(n: int, era: int)
    ensures
        (n + era * 400) / 4 == n / 4 + 100 * era,
        (n + era * 400) / 100 == n / 100 + 4 * era,
        (n + era * 400) / 400 == n / 400 + era,
        (n + era * 400) % 4 == n % 4,
        (n + era * 400) % 100 == n % 100,
        (n + era * 400) % 400 == n % 400,
{
    assert((n + era * 400) / 4 == n / 4 + 100 * era);
    assert((n + era * 400) / 100 == n / 100 + 4 * era);
    assert((n + era * 400) / 400 == n / 400 + era);
}

proof fn years_of_eras(yoe: int, era: int)
    requires
        0 <= yoe < 400,
    ensures
        ({
            let y = yoe + era * 400;
            &&& 365 * y + y / 4 - y / 100 + y / 400 == 146_097 * era + 365 * yoe + yoe / 4 - yoe
                / 100
            &&& is_leap(y + 1) == is_leap(yoe + 1)
        }),
{
    shifted_by_eras(yoe, era);
    shifted_by_eras(yoe + 1, era);
}

proof fn month_of_day(doy: int)
    requires
        0 <= doy <= 365,
    ensures
        ({
            let mp = (5 * doy + 2) / 153;
            let d = doy - (153 * mp + 2) / 5 + 1;
            let m = if mp < 10 {
                mp + 3
            } else {
                mp - 9
            };
            &&& 0 <= mp <= 11
            &&& 1 <= m <= 12
            &&& 1 <= d
            &&& m > 2 ==> doy == month_start(m) - 59 + d - 1 && d <= month_len(1, m)
            &&& m == 1 ==> doy == 306 + d - 1 && d <= 31
            &&& m == 2 ==> doy == 337 + d - 1
        }),
{
    let mp = (5 * doy + 2) / 153;
    assert(0 <= mp <= 11);
    if mp == 0 {
    } else if mp == 1 {
    } else if mp == 2 {
    } else if mp == 3 {
    } else if mp == 4 {
    } else if mp == 5 {
    } else if mp == 6 {
    } else if mp == 7 {
    } else if mp == 8 {
    } else if mp == 9 {
    } else if mp == 10 {
    } else {
    }
}

proof fn date_of_day(era: int, yoe: int, doy: int)
    requires
        0 <= yoe < 400,
        0 <= doy < 365 + (if is_leap(yoe + 1) {
            1int
        } else {
            0
        }),
    ensures
        ({
            let mp = (5 * doy + 2) / 153;
            let d = doy - (153 * mp + 2) / 5 + 1;
            let m = if mp < 10 {
                mp + 3
            } else {
                mp - 9
            };
            let y = yoe + era * 400 + (if m <= 2 {
                1int
            } else {
                0
            });
            &&& is_date(y, m, d)
            &&& day_number(y, m, d) == 146_097 * era + 365 * yoe + yoe / 4 - yoe / 100 + doy
                - 719_468
        }),
{
    let y = yoe + era * 400;
    years_before_march(y);
    years_of_eras(yoe, era);
    month_of_day(doy);
}

/// The date of a day, by its number: days since 1970-01-01 to year, month and day.
pub fn civil_from_days(z: i64) -> (date: (i64, u32, u32))
    requires
        z <= i64::MAX - 719_468,
    ensures
        falls_on((date.0 as int, date.1 as int, date.2 as int), z as int),
        (date.0 as int, date.1 as int, date.2 as int) == date_of(z as int),
        z >= 0 ==> date.0 >= 0,
{
    let ghost day = z as int;
    let z: i64 = z + 719_468;
    let era: i64 = (if z >= 0 {
        z
    } else {
        z - 146_096
    }) / 146_097;
    assert(era == z as int / 146_097);
    let doe: u64 = (z - era * 146_097) as u64;
    proof {
        year_of_era(doe as int);
        let yoe = (doe as int - doe as int / 1460 + doe as int / 36_524 - doe as int / 146_096)
            / 365;
        let doy = doe as int - (365 * yoe + yoe / 4 - yoe / 100);
        date_of_day(era as int, yoe, doy);
        month_of_day(doy);
    }
    let yoe: u64 = (doe - doe / 1460 + doe / 36_524 - doe / 146_096) / 365;
    let y: i64 = yoe as i64 + era * 400;
    let doy: u64 = doe - (365 * yoe + yoe / 4 - yoe / 100);
    let mp: u64 = (5 * doy + 2) / 153;
    let d: u32 = (doy - (153 * mp + 2) / 5 + 1) as u32;
    let m: u32 = (if mp < 10 {
        mp + 3
    } else {
        mp - 9
    }) as u32;
    let year: i64 = if m <= 2 {
        y + 1
    } else {
        y
    };
    proof {
        let date = (year as int, m as int, d as int);
        assert(falls_on(date, day));
        a_day_has_one_date(date, date_of(day));
    }
    (year, m, d)
}

/// What a time of day is made of: hours, minutes, seconds and milliseconds.
pub open spec fn clock_of(ms: int) -> (int, int, int, int) {
    let secs = ms / 1000 % 86_400;
    (secs / 3600, secs % 3600 / 60, secs % 60, ms % 1000)
}

/// The number of the day that a time lies in.
pub open spec fn day_of(ms: int) -> int {
    ms / 1000 / 86_400
}

/// A time is its day and its time of day.
pub proof fn a_time_is_its_parts(ms: int)
    requires
        0 <= ms,
    ensures
        ({
            let (h, mi, s, sub) = clock_of(ms);
            &&& 0 <= h < 24 && 0 <= mi < 60 && 0 <= s < 60 && 0 <= sub < 1000
            &&& (((day_of(ms) * 24 + h) * 60 + mi) * 60 + s) * 1000 + sub == ms
        }),
{
}

fn parts(ms: u64) -> (p: (i64, u32, u32, u32, u32, u32, u32))
    ensures
        (p.0 as int, p.1 as int, p.2 as int) == date_of(day_of(ms as int)),
        (p.3 as int, p.4 as int, p.5 as int, p.6 as int) == clock_of(ms as int),
        p.0 >= 0,
{
    let secs: i64 = (ms / 1000) as i64;
    let sub: u32 = (ms % 1000) as u32;
    let days: i64 = secs / 86_400;
    let rem: u32 = (secs % 86_400) as u32;
    let (y, mo, d): (i64, u32, u32) = civil_from_days(days);
    (y, mo, d, rem / 3600, (rem % 3600) / 60, rem % 60, sub)
}

/// A numeral brought up to a width with zeros.
pub open spec fn padded(n: int, width: nat) -> Seq<char> {
    text::pad_left(text::decimal(n as nat), width, '0')
}

/// A time as `18:40:12.345`.
pub open spec fn clock_text(ms: int) -> Seq<char> {
    let (h, mi, s, sub) = clock_of(ms);
    padded(h, 2) + ":"@ + padded(mi, 2) + ":"@ + padded(s, 2) + "."@ + padded(sub, 3)
}

/// A time as `2026-08-13T18:40:12.345Z`.
pub open spec fn iso8601_text(ms: int) -> Seq<char> {
    let (y, mo, d) = date_of(day_of(ms));
    padded(y, 4) + "-"@ + padded(mo, 2) + "-"@ + padded(d, 2) + "T"@ + clock_text(ms) + "Z"@
}

/// A time as `20260813-184012`.
pub open spec fn stamp_text(ms: int) -> Seq<char> {
    let (y, mo, d) = date_of(day_of(ms));
    let (h, mi, s, _) = clock_of(ms);
    padded(y, 4) + padded(mo, 2) + padded(d, 2) + "-"@ + padded(h, 2) + padded(mi, 2) + padded(s, 2)
}

/// 18:40:12.345, for the console gutter.
pub fn clock(ms: u64) -> (out: String)
    ensures
        out@ == clock_text(ms as int),
{
    let (_, _, _, h, mi, s, sub) = parts(ms);
    let mut out = String::new();
    push_decimal_padded(&mut out, h as u64, 2);
    out.append(":");
    push_decimal_padded(&mut out, mi as u64, 2);
    out.append(":");
    push_decimal_padded(&mut out, s as u64, 2);
    out.append(".");
    push_decimal_padded(&mut out, sub as u64, 3);
    assert(out@ =~= clock_text(ms as int));
    out
}

/// 2026-08-13T18:40:12.345Z
pub fn iso8601(ms: u64) -> (out: String)
    ensures
        out@ == iso8601_text(ms as int),
{
    let (y, mo, d, _, _, _, _) = parts(ms);
    let mut out = String::new();
    push_decimal_padded(&mut out, y as u64, 4);
    out.append("-");
    push_decimal_padded(&mut out, mo as u64, 2);
    out.append("-");
    push_decimal_padded(&mut out, d as u64, 2);
    out.append("T");
    out.append(clock(ms).as_str());
    out.append("Z");
    assert(out@ =~= iso8601_text(ms as int));
    out
}

/// 20260813-184012, safe in a file name.
pub fn stamp(ms: u64) -> (out: String)
    ensures
        out@ == stamp_text(ms as int),
{
    let (y, mo, d, h, mi, s, _) = parts(ms);
    let mut out = String::new();
    push_decimal_padded(&mut out, y as u64, 4);
    push_decimal_padded(&mut out, mo as u64, 2);
    push_decimal_padded(&mut out, d as u64, 2);
    out.append("-");
    push_decimal_padded(&mut out, h as u64, 2);
    push_decimal_padded(&mut out, mi as u64, 2);
    push_decimal_padded(&mut out, s as u64, 2);
    assert(out@ =~= stamp_text(ms as int));
    out
}

proof fn every_day_has_a_date(day: int)
    ensures
        falls_on(date_of(day), day),
{
    let z = day + 719_468;
    let era = z / 146_097;
    let doe = z - era * 146_097;
    year_of_era(doe);
    let yoe = (doe - doe / 1460 + doe / 36_524 - doe / 146_096) / 365;
    let doy = doe - (365 * yoe + yoe / 4 - yoe / 100);
    date_of_day(era, yoe, doy);
    let mp = (5 * doy + 2) / 153;
    let d = doy - (153 * mp + 2) / 5 + 1;
    let m = if mp < 10 {
        mp + 3
    } else {
        mp - 9
    };
    let y = yoe + era * 400 + (if m <= 2 {
        1int
    } else {
        0
    });
    assert(falls_on((y, m, d), day));
}

/// A time from the epoch to the end of the year 9999.
pub open spec fn in_four_digit_years(ms: int) -> bool {
    0 <= ms < 253_402_300_800_000
}

proof fn years_have_four_digits(ms: int)
    requires
        in_four_digit_years(ms),
    ensures
        ({
            let (y, mo, d) = date_of(day_of(ms));
            is_date(y, mo, d) && 0 <= y < 10_000
        }),
{
    let (y, mo, d) = date_of(day_of(ms));
    every_day_has_a_date(day_of(ms));
    a_year_is_covered(y, mo, d);
    if y >= 10_000 {
        years_start_in_order(10_000, y);
    } else if y < 0 {
        years_start_in_order(y + 1, 0);
    }
}

/// A date as one number, year first.
spec fn date_key(date: (int, int, int)) -> int {
    date.0 * 10_000 + date.1 * 100 + date.2
}

/// A time of day to the second as one number, hours first.
spec fn clock_key(clock: (int, int, int, int)) -> int {
    clock.0 * 10_000 + clock.1 * 100 + clock.2
}

proof fn dates_are_ordered(a: (int, int, int), b: (int, int, int))
    requires
        is_date(a.0, a.1, a.2),
        is_date(b.0, b.1, b.2),
        day_number(a.0, a.1, a.2) < day_number(b.0, b.1, b.2),
    ensures
        date_key(a) < date_key(b),
{
    a_year_is_covered(a.0, a.1, a.2);
    a_year_is_covered(b.0, b.1, b.2);
    if b.0 < a.0 {
        years_start_in_order(b.0 + 1, a.0);
    }
}

proof fn padding_keeps_the_number(zeros: nat, s: Seq<char>)
    requires
        text::all_digits(s),
    ensures
        text::all_digits(text::run_of('0', zeros) + s),
        text::digits_value(text::run_of('0', zeros) + s) == text::digits_value(s),
    decreases zeros + s.len(),
{
    let all = text::run_of('0', zeros) + s;
    if s.len() > 0 {
        assert forall|i: int| 0 <= i < s.drop_last().len() implies text::is_digit(
            #[trigger] s.drop_last()[i],
        ) by {
            assert(text::is_digit(s[i]));
        }
        padding_keeps_the_number(zeros, s.drop_last());
        assert(all.drop_last() =~= text::run_of('0', zeros) + s.drop_last());
    } else if zeros > 0 {
        padding_keeps_the_number((zeros - 1) as nat, s);
        assert(all.drop_last() =~= text::run_of('0', (zeros - 1) as nat) + s);
    }
    assert forall|i: int| 0 <= i < all.len() implies text::is_digit(#[trigger] all[i]) by {
        if i >= zeros {
            assert(text::is_digit(s[i - zeros]));
        }
    }
}

proof fn padded_reads_back(n: int, width: nat)
    requires
        0 <= n,
        width == 2 && n < 100 || width == 3 && n < 1000 || width == 4 && n < 10_000,
    ensures
        padded(n, width).len() == width,
        text::all_digits(padded(n, width)),
        text::digits_value(padded(n, width)) == n,
{
    let s = text::decimal(n as nat);
    reveal_with_fuel(text::decimal, 4);
    assert(s.len() <= width);
    text::decimal_reads_back(n as nat);
    if s.len() < width {
        padding_keeps_the_number((width - s.len()) as nat, s);
    }
}

proof fn two_more_digits(a: Seq<char>, b: Seq<char>)
    requires
        text::all_digits(a),
        text::all_digits(b),
        b.len() == 2,
    ensures
        text::all_digits(a + b),
        text::digits_value(a + b) == text::digits_value(a) * 100 + text::digits_value(b),
{
    reveal_with_fuel(text::digits_value, 4);
    assert((a + b).drop_last().drop_last() =~= a);
    assert((a + b).drop_last().last() == b.drop_last().last());
    assert(b.drop_last().drop_last() =~= Seq::<char>::empty());
    assert forall|i: int| 0 <= i < (a + b).len() implies text::is_digit(#[trigger] (a + b)[i]) by {
        if i < a.len() {
            assert(text::is_digit(a[i]));
        } else {
            assert(text::is_digit(b[i - a.len()]));
        }
    }
}

/// The digits of the date in a stamp.
spec fn date_digits(ms: int) -> Seq<char> {
    let (y, mo, d) = date_of(day_of(ms));
    padded(y, 4) + padded(mo, 2) + padded(d, 2)
}

/// The digits of the time of day in a stamp.
spec fn clock_digits(ms: int) -> Seq<char> {
    let (h, mi, s, _) = clock_of(ms);
    padded(h, 2) + padded(mi, 2) + padded(s, 2)
}

proof fn a_stamp_is_two_numerals(ms: int)
    requires
        in_four_digit_years(ms),
    ensures
        stamp_text(ms) == date_digits(ms) + ("-"@ + clock_digits(ms)),
        date_digits(ms).len() == 8,
        text::all_digits(date_digits(ms)),
        text::digits_value(date_digits(ms)) == date_key(date_of(day_of(ms))),
        clock_digits(ms).len() == 6,
        text::all_digits(clock_digits(ms)),
        text::digits_value(clock_digits(ms)) == clock_key(clock_of(ms)),
{
    let (y, mo, d) = date_of(day_of(ms));
    let (h, mi, s, _) = clock_of(ms);
    years_have_four_digits(ms);
    padded_reads_back(y, 4);
    padded_reads_back(mo, 2);
    padded_reads_back(d, 2);
    two_more_digits(padded(y, 4), padded(mo, 2));
    two_more_digits(padded(y, 4) + padded(mo, 2), padded(d, 2));
    padded_reads_back(h, 2);
    padded_reads_back(mi, 2);
    padded_reads_back(s, 2);
    two_more_digits(padded(h, 2), padded(mi, 2));
    two_more_digits(padded(h, 2) + padded(mi, 2), padded(s, 2));
    assert(stamp_text(ms) =~= date_digits(ms) + ("-"@ + clock_digits(ms)));
}

/// The second of its day that a time of day is.
spec fn second_of(clock: (int, int, int, int)) -> int {
    clock.0 * 3600 + clock.1 * 60 + clock.2
}

proof fn a_second_is_its_parts(ms: int)
    requires
        0 <= ms,
    ensures
        ({
            let (h, mi, s, _) = clock_of(ms);
            &&& 0 <= h < 24 && 0 <= mi < 60 && 0 <= s < 60
            &&& second_of(clock_of(ms)) == ms / 1000 - day_of(ms) * 86_400
        }),
{
    let secs = ms / 1000 % 86_400;
    assert(secs / 3600 * 3600 + secs % 3600 == secs);
    assert(secs % 3600 / 60 * 60 + secs % 60 == secs % 3600);
}

proof fn clocks_are_ordered(a: (int, int, int, int), b: (int, int, int, int))
    requires
        0 <= a.1 < 60 && 0 <= a.2 < 60,
        0 <= b.1 < 60 && 0 <= b.2 < 60,
        second_of(a) < second_of(b),
    ensures
        clock_key(a) < clock_key(b),
{
    if a.0 == b.0 && a.1 == b.1 {
        assert(a.2 < b.2);
    } else if a.0 == b.0 {
        assert(a.1 < b.1);
    } else {
        assert(a.0 < b.0);
    }
}

/// Stamps tell seconds apart and stand in the order of time: two times have one
/// stamp where they lie in one second, and of two seconds the earlier has the stamp
/// that comes first as a text.
pub proof fn stamps_follow_time(a: int, b: int)
    requires
        in_four_digit_years(a),
        in_four_digit_years(b),
        a <= b,
    ensures
        stamp_text(a) == stamp_text(b) <==> a / 1000 == b / 1000,
        a / 1000 < b / 1000 ==> order::precedes(stamp_text(a), stamp_text(b)),
{
    if a / 1000 < b / 1000 {
        a_stamp_is_two_numerals(a);
        a_stamp_is_two_numerals(b);
        let x = "-"@ + clock_digits(a);
        let y = "-"@ + clock_digits(b);
        order::numerals_are_ordered(date_digits(a), date_digits(b));
        order::numerals_are_ordered(clock_digits(a), clock_digits(b));
        if day_of(a) < day_of(b) {
            every_day_has_a_date(day_of(a));
            every_day_has_a_date(day_of(b));
            dates_are_ordered(date_of(day_of(a)), date_of(day_of(b)));
            order::fronts_decide(date_digits(a), x, date_digits(b), y);
        } else {
            a_second_is_its_parts(a);
            a_second_is_its_parts(b);
            clocks_are_ordered(clock_of(a), clock_of(b));
            order::ends_decide("-"@, clock_digits(a), clock_digits(b));
            order::ends_decide(date_digits(a), x, y);
        }
        order::texts_are_ordered(stamp_text(a), stamp_text(b));
    }
}

/// The three forms of a time say one thing: a stamp is the digits of the
/// timestamp down to the second, with a hyphen between date and time, and the time
/// of day in the timestamp is that of the console.
pub proof fn the_forms_agree(ms: int)
    requires
        in_four_digit_years(ms),
    ensures
        ({
            let stamp = stamp_text(ms);
            let iso = iso8601_text(ms);
            &&& stamp.len() == 15 && iso.len() == 24
            &&& text::all_digits(stamp.subrange(0, 8)) && text::all_digits(stamp.subrange(9, 15))
            &&& stamp[8] == '-'
            &&& stamp.subrange(0, 4) == iso.subrange(0, 4)
            &&& stamp.subrange(4, 6) == iso.subrange(5, 7)
            &&& stamp.subrange(6, 8) == iso.subrange(8, 10)
            &&& stamp.subrange(9, 11) == iso.subrange(11, 13)
            &&& stamp.subrange(11, 13) == iso.subrange(14, 16)
            &&& stamp.subrange(13, 15) == iso.subrange(17, 19)
            &&& iso.subrange(11, 23) == clock_text(ms)
        }),
{
    let (y, mo, d) = date_of(day_of(ms));
    let (h, mi, s, sub) = clock_of(ms);
    let stamp = stamp_text(ms);
    let iso = iso8601_text(ms);
    a_stamp_is_two_numerals(ms);
    years_have_four_digits(ms);
    padded_reads_back(y, 4);
    padded_reads_back(mo, 2);
    padded_reads_back(d, 2);
    padded_reads_back(h, 2);
    padded_reads_back(mi, 2);
    padded_reads_back(s, 2);
    padded_reads_back(sub, 3);
    reveal_strlit("-");
    reveal_strlit(":");
    reveal_strlit(".");
    reveal_strlit("T");
    reveal_strlit("Z");
    assert(stamp.subrange(0, 8) =~= date_digits(ms));
    assert(stamp.subrange(9, 15) =~= clock_digits(ms));
    assert(stamp.subrange(0, 4) =~= padded(y, 4));
    assert(stamp.subrange(4, 6) =~= padded(mo, 2));
    assert(stamp.subrange(6, 8) =~= padded(d, 2));
    assert(stamp.subrange(9, 11) =~= padded(h, 2));
    assert(stamp.subrange(11, 13) =~= padded(mi, 2));
    assert(stamp.subrange(13, 15) =~= padded(s, 2));
    assert(iso.subrange(0, 4) =~= padded(y, 4));
    assert(iso.subrange(5, 7) =~= padded(mo, 2));
    assert(iso.subrange(8, 10) =~= padded(d, 2));
    assert(iso.subrange(11, 13) =~= padded(h, 2));
    assert(iso.subrange(14, 16) =~= padded(mi, 2));
    assert(iso.subrange(17, 19) =~= padded(s, 2));
    assert(iso.subrange(11, 23) =~= clock_text(ms));
}

/// A timestamp can be read: its numbers are those of a date of the calendar and of a
/// time of day, at their usual places, and date and time make up the time it stands
/// for.
#[verifier::rlimit(50)]
pub proof fn a_timestamp_reads_back(ms: int)
    requires
        in_four_digit_years(ms),
    ensures
        ({
            let s = iso8601_text(ms);
            let y = text::digits_value(s.subrange(0, 4)) as int;
            let mo = text::digits_value(s.subrange(5, 7)) as int;
            let d = text::digits_value(s.subrange(8, 10)) as int;
            let h = text::digits_value(s.subrange(11, 13)) as int;
            let mi = text::digits_value(s.subrange(14, 16)) as int;
            let sec = text::digits_value(s.subrange(17, 19)) as int;
            let sub = text::digits_value(s.subrange(20, 23)) as int;
            &&& is_date(y, mo, d)
            &&& 0 <= h < 24 && 0 <= mi < 60 && 0 <= sec < 60 && 0 <= sub < 1000
            &&& (((day_number(y, mo, d) * 24 + h) * 60 + mi) * 60 + sec) * 1000 + sub == ms
            &&& s[4] == '-' && s[7] == '-' && s[10] == 'T' && s[13] == ':' && s[16] == ':' && s[19]
                == '.' && s[23] == 'Z'
            &&& s.len() == 24
        }),
{
    let (y, mo, d) = date_of(day_of(ms));
    let (h, mi, sec, sub) = clock_of(ms);
    let s = iso8601_text(ms);
    years_have_four_digits(ms);
    every_day_has_a_date(day_of(ms));
    a_time_is_its_parts(ms);
    padded_reads_back(y, 4);
    padded_reads_back(mo, 2);
    padded_reads_back(d, 2);
    padded_reads_back(h, 2);
    padded_reads_back(mi, 2);
    padded_reads_back(sec, 2);
    padded_reads_back(sub, 3);
    reveal_strlit("-");
    reveal_strlit(":");
    reveal_strlit(".");
    reveal_strlit("T");
    reveal_strlit("Z");
    assert(s.subrange(0, 4) =~= padded(y, 4));
    assert(s.subrange(5, 7) =~= padded(mo, 2));
    assert(s.subrange(8, 10) =~= padded(d, 2));
    assert(s.subrange(11, 13) =~= padded(h, 2));
    assert(s.subrange(14, 16) =~= padded(mi, 2));
    assert(s.subrange(17, 19) =~= padded(sec, 2));
    assert(s.subrange(20, 23) =~= padded(sub, 3));
}

/// The calendar is the Gregorian one: the months have their usual lengths, and
/// February has a day more in every fourth year, but not in every hundredth unless
/// it is every four hundredth.
pub proof fn the_calendar_is_gregorian(y: int, m: int)
    requires
        1 <= m <= 12,
    ensures
        m == 4 || m == 6 || m == 9 || m == 11 ==> month_len(y, m) == 30,
        m != 2 && m != 4 && m != 6 && m != 9 && m != 11 ==> month_len(y, m) == 31,
        m == 2 && y % 400 == 0 ==> month_len(y, m) == 29,
        m == 2 && y % 100 == 0 && y % 400 != 0 ==> month_len(y, m) == 28,
        m == 2 && y % 4 == 0 && y % 100 != 0 ==> month_len(y, m) == 29,
        m == 2 && y % 4 != 0 ==> month_len(y, m) == 28,
{
    multiples(y);
}

/// `civil_from_days` gives the date on which a day falls, and `clock`, `iso8601` and
/// `stamp` write a time in the three forms.
pub proof fn times_are_written(
    z: i64,
    date: (i64, u32, u32),
    ms: u64,
    a: String,
    b: String,
    c: String,
)
    requires
        call_ensures(civil_from_days, (z,), date),
        call_ensures(clock, (ms,), a),
        call_ensures(iso8601, (ms,), b),
        call_ensures(stamp, (ms,), c),
    ensures
        is_date(date.0 as int, date.1 as int, date.2 as int),
        day_number(date.0 as int, date.1 as int, date.2 as int) == z,
        a@ == clock_text(ms as int),
        b@ == iso8601_text(ms as int),
        c@ == stamp_text(ms as int),
{
}

} // verus!
