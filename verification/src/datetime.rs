use vstd::arithmetic::div_mod::{
    lemma_fundamental_div_mod, lemma_fundamental_div_mod_converse, lemma_mod_division_less_than_divisor,
    lemma_mod_multiples_basic,
};
use vstd::prelude::*;
use vstd::string::StringExecFns;

verus! {

/// A civil UTC date-time with millisecond precision. The source database
/// stores instants as seconds relative to the reference epoch
/// 2001-01-01T00:00:00 UTC; the library works on the same instants in
/// whole milliseconds and renders them through this type.
#[derive(Clone, Copy, Debug, PartialEq, Eq, Structural)]
pub struct DateTime {
    pub year: i64,
    pub month: u8,
    pub day: u8,
    pub hour: u8,
    pub minute: u8,
    pub second: u8,
    pub millisecond: u16,
}

/// Proleptic Gregorian leap-year rule.
pub open spec fn is_leap_year(y: int) -> bool {
    y % 4 == 0 && (y % 100 != 0 || y % 400 == 0)
}

pub open spec fn days_in_year(y: int) -> int {
    if is_leap_year(y) {
        366
    } else {
        365
    }
}

pub open spec fn days_in_month(y: int, m: int) -> int {
    if m == 2 {
        if is_leap_year(y) {
            29
        } else {
            28
        }
    } else if m == 4 || m == 6 || m == 9 || m == 11 {
        30
    } else {
        31
    }
}

/// Days from the reference epoch (the start of year 2001) to the start of
/// year `y`; negative for years before 2001.
pub open spec fn days_before_year(y: int) -> int
    decreases (if y >= 2001 { y - 2001 } else { 2001 - y }),
{
    if y == 2001 {
        0
    } else if y > 2001 {
        days_before_year(y - 1) + days_in_year(y - 1)
    } else {
        days_before_year(y + 1) - days_in_year(y)
    }
}

/// Days from the start of year `y` to the start of its month `m` (1-based).
pub open spec fn days_before_month(y: int, m: int) -> int
    decreases m,
{
    if m <= 1 {
        0
    } else {
        days_before_month(y, m - 1) + days_in_month(y, m - 1)
    }
}

pub open spec fn valid_datetime(dt: DateTime) -> bool {
    &&& 1 <= dt.year <= 9999
    &&& 1 <= dt.month <= 12
    &&& 1 <= dt.day <= days_in_month(dt.year as int, dt.month as int)
    &&& dt.hour < 24
    &&& dt.minute < 60
    &&& dt.second < 60
    &&& dt.millisecond < 1000
}

/// The reference-epoch day number of a civil date: day 0 is 2001-01-01.
pub open spec fn epoch_day_of(y: int, m: int, d: int) -> int {
    days_before_year(y) + days_before_month(y, m) + (d - 1)
}

pub open spec fn time_of_day_millis(dt: DateTime) -> int {
    dt.hour * 3600000 + dt.minute * 60000 + dt.second * 1000 + dt.millisecond
}

/// Milliseconds since the reference epoch of a civil date-time. A valid
/// `DateTime` is pinned down completely by this value
/// (`lemma_epoch_millis_injective`).
pub open spec fn epoch_millis_of(dt: DateTime) -> int {
    epoch_day_of(dt.year as int, dt.month as int, dt.day as int) * 86400000 + time_of_day_millis(dt)
}

/// The instants the converter accepts: those whose civil date falls in
/// years 1 through 9999 (the range a four-digit ISO-8601 year can carry).
/// The bounds are the epoch milliseconds of 0001-01-01T00:00:00 and
/// 10000-01-01T00:00:00.
pub open spec fn supported_millis(ms: int) -> bool {
    -63113904000000 <= ms < 252423993600000
}

/// The unique valid civil date-time at `ms` reference-epoch milliseconds.
pub open spec fn datetime_of(ms: int) -> DateTime {
    choose|dt: DateTime| valid_datetime(dt) && epoch_millis_of(dt) == ms
}

/// Stepping a divisor-sized window: the quotient grows by one exactly at
/// the multiples of the divisor.
proof fn lemma_div_step(x: int, d: int)
    requires
        d > 0,
    ensures
        x / d - (x - 1) / d == if x % d == 0 { 1int } else { 0int },
{
    let q = (x - 1) / d;
    let r = (x - 1) % d;
    lemma_fundamental_div_mod(x - 1, d);
    lemma_mod_division_less_than_divisor(x - 1, d);
    if r < d - 1 {
        lemma_fundamental_div_mod_converse(x, d, q, r + 1);
    } else {
        assert(x == (q + 1) * d + 0) by (nonlinear_arith)
            requires
                x - 1 == d * q + r,
                r == d - 1,
        ;
        lemma_fundamental_div_mod_converse(x, d, q + 1, 0);
    }
}

/// The leap-day count picked up when moving from year `y - 1` to year `y`,
/// written with the floor-division bookkeeping of the closed form.
proof fn lemma_leap_step(y: int)
    ensures
        (y / 4 - (y - 1) / 4) - (y / 100 - (y - 1) / 100) + (y / 400 - (y - 1) / 400) == (
        if is_leap_year(y) {
            1int
        } else {
            0int
        }),
{
    lemma_div_step(y, 4);
    lemma_div_step(y, 100);
    lemma_div_step(y, 400);
    if y % 400 == 0 {
        lemma_fundamental_div_mod(y, 400);
        assert(y == (4 * (y / 400)) * 100);
        lemma_mod_multiples_basic(4 * (y / 400), 100);
        assert(y % 100 == 0);
    }
    if y % 100 == 0 {
        lemma_fundamental_div_mod(y, 100);
        assert(y == (25 * (y / 100)) * 4);
        lemma_mod_multiples_basic(25 * (y / 100), 4);
        assert(y % 4 == 0);
    }
}

/// Closed form of `days_before_year` over the supported years.
proof fn lemma_days_before_year_closed(y: int)
    requires
        1 <= y <= 10000,
    ensures
        days_before_year(y) == (y - 1) * 365 + (y - 1) / 4 - (y - 1) / 100 + (y - 1) / 400
            - 730485,
    decreases (if y >= 2001 { y - 2001 } else { 2001 - y }),
{
    if y == 2001 {
        assert(2000int / 4 == 500 && 2000int / 100 == 20 && 2000int / 400 == 5);
    } else if y > 2001 {
        lemma_days_before_year_closed(y - 1);
        lemma_days_before_year_step(y - 1);
        lemma_leap_step(y - 1);
    } else {
        lemma_days_before_year_closed(y + 1);
        lemma_days_before_year_step(y);
        lemma_leap_step(y);
    }
}

/// Crossing one year boundary adds that year's length.
proof fn lemma_days_before_year_step(y: int)
    ensures
        days_before_year(y + 1) == days_before_year(y) + days_in_year(y),
{
    if y + 1 <= 2001 {
        assert(days_before_year(y) == days_before_year(y + 1) - days_in_year(y));
    }
}

/// `days_before_year` grows by at least 365 per year.
proof fn lemma_days_before_year_mono(y1: int, y2: int)
    requires
        y1 <= y2,
    ensures
        days_before_year(y1) + 365 * (y2 - y1) <= days_before_year(y2),
    decreases y2 - y1,
{
    if y1 < y2 {
        lemma_days_before_year_mono(y1, y2 - 1);
        lemma_days_before_year_step(y2 - 1);
    }
}

/// The day numbers of the first and the one-past-last supported year.
proof fn lemma_days_before_year_bounds()
    ensures
        days_before_year(1) == -730485,
        days_before_year(10000) == 2921574,
{
    lemma_days_before_year_closed(1);
    lemma_days_before_year_closed(10000);
    assert(9999int / 4 == 2499 && 9999int / 100 == 99 && 9999int / 400 == 24);
}

/// The twelve months of a year sum to the year's length.
proof fn lemma_days_before_month_full(y: int)
    ensures
        days_before_month(y, 13) == days_in_year(y),
{
    reveal_with_fuel(days_before_month, 13);
}

/// `days_before_month` grows along the months.
proof fn lemma_days_before_month_mono(y: int, m1: int, m2: int)
    requires
        m1 <= m2,
    ensures
        days_before_month(y, m1) <= days_before_month(y, m2),
    decreases m2 - m1,
{
    if m1 < m2 {
        lemma_days_before_month_mono(y, m1, m2 - 1);
    }
}

/// A valid date lands inside its own year: its offset from the year's
/// start is a day index below the year's length.
proof fn lemma_epoch_day_bounds(dt: DateTime)
    requires
        valid_datetime(dt),
    ensures
        0 <= days_before_month(dt.year as int, dt.month as int) + (dt.day - 1) < days_in_year(
            dt.year as int,
        ),
{
    let y = dt.year as int;
    let m = dt.month as int;
    lemma_days_before_month_mono(y, 1, m);
    lemma_days_before_month_mono(y, m + 1, 13);
    lemma_days_before_month_full(y);
    assert(days_before_month(y, m + 1) == days_before_month(y, m) + days_in_month(y, m));
}

/// Two valid date-times at the same reference-epoch millisecond are equal:
/// `epoch_millis_of` leaves a valid `DateTime` no slack.
pub proof fn lemma_epoch_millis_injective(a: DateTime, b: DateTime)
    requires
        valid_datetime(a),
        valid_datetime(b),
        epoch_millis_of(a) == epoch_millis_of(b),
    ensures
        a == b,
{
    lemma_epoch_day_bounds(a);
    lemma_epoch_day_bounds(b);
    let da = epoch_day_of(a.year as int, a.month as int, a.day as int);
    let db = epoch_day_of(b.year as int, b.month as int, b.day as int);
    let ta = time_of_day_millis(a);
    let tb = time_of_day_millis(b);
    assert(0 <= ta < 86400000);
    assert(0 <= tb < 86400000);
    assert(da * 86400000 + ta == db * 86400000 + tb);
    assert(da == db);
    assert(ta == tb);
    assert(a.hour == b.hour && a.minute == b.minute && a.second == b.second && a.millisecond
        == b.millisecond);
    let offa = days_before_month(a.year as int, a.month as int) + (a.day - 1);
    let offb = days_before_month(b.year as int, b.month as int) + (b.day - 1);
    if a.year < b.year {
        lemma_days_before_year_step(a.year as int);
        lemma_days_before_year_mono(a.year as int + 1, b.year as int);
        assert(false);
    }
    if b.year < a.year {
        lemma_days_before_year_step(b.year as int);
        lemma_days_before_year_mono(b.year as int + 1, a.year as int);
        assert(false);
    }
    assert(offa == offb);
    let y = a.year as int;
    if a.month < b.month {
        assert(days_before_month(y, a.month as int + 1) == days_before_month(y, a.month as int)
            + days_in_month(y, a.month as int));
        lemma_days_before_month_mono(y, a.month as int + 1, b.month as int);
        assert(false);
    }
    if b.month < a.month {
        assert(days_before_month(y, b.month as int + 1) == days_before_month(y, b.month as int)
            + days_in_month(y, b.month as int));
        lemma_days_before_month_mono(y, b.month as int + 1, a.month as int);
        assert(false);
    }
    assert(a.day == b.day);
}

/// A valid date-time at `ms` is what `datetime_of(ms)` denotes.
pub proof fn lemma_datetime_of(dt: DateTime, ms: int)
    requires
        valid_datetime(dt),
        epoch_millis_of(dt) == ms,
    ensures
        datetime_of(ms) == dt,
{
    assert(valid_datetime(dt) && epoch_millis_of(dt) == ms);
    assert(exists|x: DateTime| valid_datetime(x) && epoch_millis_of(x) == ms);
    lemma_epoch_millis_injective(datetime_of(ms), dt);
}

/// Whether an instant lies in the supported year range; the front end
/// checks each database timestamp with this before extraction.
pub fn timestamp_supported(ms: i64) -> (b: bool)
    ensures
        b == supported_millis(ms as int),
{
    -63113904000000 <= ms && ms < 252423993600000
}

pub fn is_leap_year_num(y: i64) -> (b: bool)
    requires
        0 <= y,
    ensures
        b == is_leap_year(y as int),
{
    let u = y as u64;
    u % 4 == 0 && (u % 100 != 0 || u % 400 == 0)
}

pub fn days_in_year_num(y: i64) -> (r: i64)
    requires
        0 <= y,
    ensures
        r == days_in_year(y as int),
{
    if is_leap_year_num(y) {
        366
    } else {
        365
    }
}

pub fn days_in_month_num(y: i64, m: i64) -> (r: i64)
    requires
        0 <= y,
        1 <= m <= 12,
    ensures
        r == days_in_month(y as int, m as int),
{
    if m == 2 {
        if is_leap_year_num(y) {
            29
        } else {
            28
        }
    } else if m == 4 || m == 6 || m == 9 || m == 11 {
        30
    } else {
        31
    }
}

/// Convert a reference-epoch instant to its civil UTC date-time:
/// the result is the unique valid `DateTime` whose `epoch_millis_of`
/// equals the argument.
pub fn convert_time(ms: i64) -> (r: DateTime)
    requires
        supported_millis(ms as int),
    ensures
        valid_datetime(r),
        epoch_millis_of(r) == ms as int,
        r == datetime_of(ms as int),
{
    proof {
        lemma_days_before_year_bounds();
    }
    let (days, msod): (i64, i64) = if ms >= 0 {
        let q = (ms as u64) / 86400000;
        let r2 = (ms as u64) % 86400000;
        proof {
            lemma_fundamental_div_mod(ms as int, 86400000);
            lemma_mod_division_less_than_divisor(ms as int, 86400000);
        }
        (q as i64, r2 as i64)
    } else {
        let neg = (-ms) as u64;
        let q = neg / 86400000;
        let r2 = neg % 86400000;
        proof {
            lemma_fundamental_div_mod(neg as int, 86400000);
            lemma_mod_division_less_than_divisor(neg as int, 86400000);
        }
        if r2 == 0 {
            (-(q as i64), 0)
        } else {
            (-(q as i64) - 1, (86400000 - r2) as i64)
        }
    };
    assert(days * 86400000 + msod == ms as int);
    assert(0 <= msod < 86400000);
    assert(-730485 <= days <= 2921573);

    // Find the year: walk back while the day index is negative, then
    // forward over whole years.
    let mut year: i64 = 2001;
    let mut rem: i64 = days;
    while rem < 0
        invariant
            1 <= year <= 2001,
            days_before_year(year as int) + rem == days as int,
            -730485 <= days <= 2921573,
            days_before_year(1) == -730485,
        decreases (if rem < 0 {
            0 - rem
        } else {
            0int
        }),
    {
        proof {
            lemma_days_before_year_step(year as int - 1);
        }
        year = year - 1;
        let d = days_in_year_num(year);
        rem = rem + d;
    }
    let mut diy: i64 = days_in_year_num(year);
    while rem >= diy
        invariant
            1 <= year <= 9999,
            0 <= rem,
            days_before_year(year as int) + rem == days as int,
            diy == days_in_year(year as int),
            -730485 <= days <= 2921573,
            days_before_year(10000) == 2921574,
        decreases rem,
    {
        proof {
            lemma_days_before_year_step(year as int);
            if year as int + 1 >= 10000 {
                lemma_days_before_year_mono(10000, year as int + 1);
            }
        }
        rem = rem - diy;
        year = year + 1;
        diy = days_in_year_num(year);
    }
    proof {
        lemma_days_before_month_full(year as int);
    }

    // Find the month inside the year.
    let ghost doy: int = rem as int;
    let mut month: i64 = 1;
    let mut dim: i64 = days_in_month_num(year, 1);
    while rem >= dim
        invariant
            1 <= year <= 9999,
            1 <= month <= 12,
            0 <= rem,
            dim == days_in_month(year as int, month as int),
            days_before_month(year as int, month as int) + rem == doy,
            doy < days_in_year(year as int),
            days_before_month(year as int, 13) == days_in_year(year as int),
        decreases rem,
    {
        proof {
            assert(days_before_month(year as int, month as int + 1) == days_before_month(
                year as int,
                month as int,
            ) + days_in_month(year as int, month as int));
            if month == 12 {
                assert(false);
            } else {
                lemma_days_before_month_mono(year as int, month as int + 1, 13);
            }
        }
        rem = rem - dim;
        month = month + 1;
        dim = days_in_month_num(year, month);
    }
    let day: i64 = rem + 1;

    // Split the milliseconds of the day.
    let u = msod as u64;
    let hour = u / 3600000;
    let rem_h = u % 3600000;
    let minute = rem_h / 60000;
    let rem_m = rem_h % 60000;
    let second = rem_m / 1000;
    let millisecond = rem_m % 1000;
    proof {
        lemma_fundamental_div_mod(u as int, 3600000);
        lemma_mod_division_less_than_divisor(u as int, 3600000);
        lemma_fundamental_div_mod(rem_h as int, 60000);
        lemma_mod_division_less_than_divisor(rem_h as int, 60000);
        lemma_fundamental_div_mod(rem_m as int, 1000);
        lemma_mod_division_less_than_divisor(rem_m as int, 1000);
    }
    let result = DateTime {
        year,
        month: month as u8,
        day: day as u8,
        hour: hour as u8,
        minute: minute as u8,
        second: second as u8,
        millisecond: millisecond as u16,
    };
    proof {
        assert(valid_datetime(result));
        assert(epoch_millis_of(result) == ms as int);
        lemma_datetime_of(result, ms as int);
    }
    result
}

pub open spec fn digit_char(d: int) -> char {
    if d == 0 {
        '0'
    } else if d == 1 {
        '1'
    } else if d == 2 {
        '2'
    } else if d == 3 {
        '3'
    } else if d == 4 {
        '4'
    } else if d == 5 {
        '5'
    } else if d == 6 {
        '6'
    } else if d == 7 {
        '7'
    } else if d == 8 {
        '8'
    } else {
        '9'
    }
}

pub open spec fn two_digit_text(n: int) -> Seq<char> {
    seq![digit_char(n / 10), digit_char(n % 10)]
}

pub open spec fn three_digit_text(n: int) -> Seq<char> {
    seq![digit_char(n / 100), digit_char((n / 10) % 10), digit_char(n % 10)]
}

pub open spec fn four_digit_text(n: int) -> Seq<char> {
    seq![
        digit_char(n / 1000),
        digit_char((n / 100) % 10),
        digit_char((n / 10) % 10),
        digit_char(n % 10),
    ]
}

/// ISO-8601 rendering of a date-time: `YYYY-MM-DDTHH:MM:SSZ`, with a
/// three-digit fractional part before the `Z` when the millisecond is
/// not zero.
pub open spec fn iso_text(dt: DateTime) -> Seq<char> {
    four_digit_text(dt.year as int) + seq!['-'] + two_digit_text(dt.month as int) + seq!['-']
        + two_digit_text(dt.day as int) + seq!['T'] + two_digit_text(dt.hour as int) + seq![':']
        + two_digit_text(dt.minute as int) + seq![':'] + two_digit_text(dt.second as int) + (
    if dt.millisecond == 0 {
        Seq::<char>::empty()
    } else {
        seq!['.'] + three_digit_text(dt.millisecond as int)
    }) + seq!['Z']
}

pub fn digit_str(d: u64) -> (r: &'static str)
    requires
        d < 10,
    ensures
        r@ == seq![digit_char(d as int)],
{
    if d == 0 {
        proof {
            reveal_strlit("0");
            assert("0"@ =~= seq![digit_char(0)]);
        }
        "0"
    } else if d == 1 {
        proof {
            reveal_strlit("1");
            assert("1"@ =~= seq![digit_char(1)]);
        }
        "1"
    } else if d == 2 {
        proof {
            reveal_strlit("2");
            assert("2"@ =~= seq![digit_char(2)]);
        }
        "2"
    } else if d == 3 {
        proof {
            reveal_strlit("3");
            assert("3"@ =~= seq![digit_char(3)]);
        }
        "3"
    } else if d == 4 {
        proof {
            reveal_strlit("4");
            assert("4"@ =~= seq![digit_char(4)]);
        }
        "4"
    } else if d == 5 {
        proof {
            reveal_strlit("5");
            assert("5"@ =~= seq![digit_char(5)]);
        }
        "5"
    } else if d == 6 {
        proof {
            reveal_strlit("6");
            assert("6"@ =~= seq![digit_char(6)]);
        }
        "6"
    } else if d == 7 {
        proof {
            reveal_strlit("7");
            assert("7"@ =~= seq![digit_char(7)]);
        }
        "7"
    } else if d == 8 {
        proof {
            reveal_strlit("8");
            assert("8"@ =~= seq![digit_char(8)]);
        }
        "8"
    } else {
        proof {
            reveal_strlit("9");
            assert("9"@ =~= seq![digit_char(9)]);
        }
        "9"
    }
}

fn push_two_digits(s: &mut String, n: u64)
    requires
        n < 100,
    ensures
        final (s)@ == old(s)@ + two_digit_text(n as int),
{
    s.append(digit_str(n / 10));
    s.append(digit_str(n % 10));
    proof {
        assert(s@ =~= old(s)@ + two_digit_text(n as int));
    }
}

/// Render a valid date-time as its ISO-8601 text.
pub fn format_datetime(dt: &DateTime) -> (r: String)
    requires
        valid_datetime(*dt),
    ensures
        r@ == iso_text(*dt),
{
    let mut s = String::new();
    let y = dt.year as u64;
    s.append(digit_str(y / 1000));
    s.append(digit_str((y / 100) % 10));
    s.append(digit_str((y / 10) % 10));
    s.append(digit_str(y % 10));
    s.append("-");
    push_two_digits(&mut s, dt.month as u64);
    s.append("-");
    push_two_digits(&mut s, dt.day as u64);
    s.append("T");
    push_two_digits(&mut s, dt.hour as u64);
    s.append(":");
    push_two_digits(&mut s, dt.minute as u64);
    s.append(":");
    push_two_digits(&mut s, dt.second as u64);
    if dt.millisecond != 0 {
        s.append(".");
        let m = dt.millisecond as u64;
        s.append(digit_str(m / 100));
        s.append(digit_str((m / 10) % 10));
        s.append(digit_str(m % 10));
    }
    s.append("Z");
    proof {
        reveal_strlit("-");
        reveal_strlit("T");
        reveal_strlit(":");
        reveal_strlit(".");
        reveal_strlit("Z");
        assert(s@ =~= iso_text(*dt));
    }
    s
}

} // verus!
