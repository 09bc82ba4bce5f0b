//! Proleptic Gregorian calendar dates for Unix time, and their `YYYY-MM-DD`
//! rendering.

use vstd::prelude::*;

use crate::text::{decimal_digits, digit_char, push_zero_padded, string_from_chars, zero_padded};

verus! {

// ---------------------------------------------------------------------------
// The calendar, stated directly
// ---------------------------------------------------------------------------

/// Gregorian leap-year rule.
pub open spec fn is_leap_year(y: int) -> bool {
    (y % 4 == 0 && y % 100 != 0) || y % 400 == 0
}

/// Number of days of month `m` (1 = January) in year `y`.
pub open spec fn days_in_month(y: int, m: int) -> int {
    if m == 2 {
        if is_leap_year(y) { 29 } else { 28 }
    } else if m == 4 || m == 6 || m == 9 || m == 11 {
        30
    } else {
        31
    }
}

/// A real calendar date.
pub open spec fn is_valid_date(y: int, m: int, d: int) -> bool {
    &&& 1 <= m <= 12
    &&& 1 <= d <= days_in_month(y, m)
}

/// Days in the months of year `y` before month `m`.
pub open spec fn days_before_month(y: int, m: int) -> int {
    let common: int = if m <= 1 { 0 }
        else if m == 2 { 31 }
        else if m == 3 { 59 }
        else if m == 4 { 90 }
        else if m == 5 { 120 }
        else if m == 6 { 151 }
        else if m == 7 { 181 }
        else if m == 8 { 212 }
        else if m == 9 { 243 }
        else if m == 10 { 273 }
        else if m == 11 { 304 }
        else { 334 };
    if m > 2 && is_leap_year(y) { common + 1 } else { common }
}

/// Days from 0001-01-01 to the first of January of year `y`.
pub open spec fn days_before_year(y: int) -> int {
    365 * (y - 1) + (y - 1) / 4 - (y - 1) / 100 + (y - 1) / 400
}

/// Days from 1970-01-01 to the date `y-m-d` (negative before it).
pub open spec fn unix_day_number(y: int, m: int, d: int) -> int {
    days_before_year(y) + days_before_month(y, m) + d - 1 - days_before_year(1970)
}

/// A calendar date.
#[derive(Clone, Copy, Debug, PartialEq, Eq, Structural)]
pub struct CivilDate {
    pub year: i64,
    pub month: u8,
    pub day: u8,
}

impl CivilDate {
    /// `self` is the valid date lying `n` days after 1970-01-01.
    pub open spec fn is_day(self, n: int) -> bool {
        &&& is_valid_date(self.year as int, self.month as int, self.day as int)
        &&& unix_day_number(self.year as int, self.month as int, self.day as int) == n
    }
}

// ---------------------------------------------------------------------------
// Lemmas on the era decomposition (eras of 400 years starting on March 1)
// ---------------------------------------------------------------------------

/// Days from 0000-03-01 to March 1 of year `y`.
spec fn march_start(y: int) -> int {
    365 * y + y / 4 - y / 100 + y / 400
}

/// Start of March-based year `yoe` inside an era, in days from the era's start.
spec fn era_year_start(yoe: int) -> int {
    365 * yoe + yoe / 4 - yoe / 100
}

/// The year-of-era formula picks the year whose span holds `doe`.
#[verifier::rlimit(50)]
proof fn lemma_year_of_era(doe: int)
    requires
        0 <= doe < 146097,
    ensures
        ({
            let yoe = (doe - doe / 1460 + doe / 36524 - doe / 146096) / 365;
            let doy = doe - era_year_start(yoe);
            &&& 0 <= yoe <= 399
            &&& 0 <= doy <= 365
            &&& doy == 365 ==> is_leap_year(yoe + 1)
        }),
{
    let yoe = (doe - doe / 1460 + doe / 36524 - doe / 146096) / 365;
    if doe == 146096 {
        assert(yoe == 399);
        assert(era_year_start(399) == 145731);
    } else {
        let c = doe / 36524;
        assert(0 <= c <= 3);
        let rem = doe - 36524 * c;
        assert(0 <= rem <= 36523);
        let k = rem / 1461;
        assert(0 <= k <= 24);
        let rem2 = rem - 1461 * k;
        assert(0 <= rem2 <= 1460);
        assert(k == 24 ==> rem2 <= 1459);
        let e: int = if 24 * c + k + rem2 >= 1460 { 1 } else { 0 };
        assert(doe == 1460 * (25 * c + k) + 24 * c + k + rem2);
        assert(doe / 1460 == 25 * c + k + e);
        assert(doe / 146096 == 0);
        let t = doe - doe / 1460 + doe / 36524 - doe / 146096;
        assert(t == 365 * (100 * c + 4 * k) + rem2 - e);
        let j: int = if rem2 == 1460 { 3 } else { rem2 / 365 };
        assert(0 <= j <= 3);
        assert((rem2 - e) / 365 == j);
        assert(yoe == 100 * c + 4 * k + j);
        assert(yoe / 4 == 25 * c + k);
        assert(yoe / 100 == c);
        assert(era_year_start(yoe) == 36524 * c + 1461 * k + 365 * j);
        let doy = doe - era_year_start(yoe);
        assert(doy == rem2 - 365 * j);
        if doy == 365 {
            assert(rem2 == 1460);
            assert(k <= 23);
            assert((yoe + 1) % 4 == 0);
            assert((yoe + 1) % 100 != 0);
        }
    }
}


/// Offset of month index `mp` (0 = March, 11 = February) from March 1.
spec fn month_offset(mp: int) -> int {
    (153 * mp + 2) / 5
}

/// The month formula splits a March-based day of year into month and day.
proof fn lemma_month_of_year(doy: int)
    requires
        0 <= doy <= 365,
    ensures
        ({
            let mp = (5 * doy + 2) / 153;
            let m = if mp < 10 { mp + 3 } else { mp - 9 };
            let d = doy - month_offset(mp) + 1;
            &&& 0 <= mp <= 11
            &&& 1 <= m <= 12
            &&& 1 <= d
            &&& m != 2 ==> d <= days_in_month(0, m)
            &&& m == 2 ==> (d <= 28 || (d == 29 && doy == 365))
            &&& m >= 3 ==> days_before_month(1, m) == 59 + month_offset(mp)
            &&& m <= 2 ==> days_before_month(1, m) == month_offset(mp) - 306
        }),
{
    let mp = (5 * doy + 2) / 153;
    assert(0 <= mp <= 11);
    assert(153 * mp <= 5 * doy + 2 < 153 * mp + 153);
    if mp == 0 {
        assert(month_offset(0) == 0 && month_offset(1) == 31);
    } else if mp == 1 {
        assert(month_offset(1) == 31 && month_offset(2) == 61);
    } else if mp == 2 {
        assert(month_offset(2) == 61 && month_offset(3) == 92);
    } else if mp == 3 {
        assert(month_offset(3) == 92 && month_offset(4) == 122);
    } else if mp == 4 {
        assert(month_offset(4) == 122 && month_offset(5) == 153);
    } else if mp == 5 {
        assert(month_offset(5) == 153 && month_offset(6) == 184);
    } else if mp == 6 {
        assert(month_offset(6) == 184 && month_offset(7) == 214);
    } else if mp == 7 {
        assert(month_offset(7) == 214 && month_offset(8) == 245);
    } else if mp == 8 {
        assert(month_offset(8) == 245 && month_offset(9) == 275);
    } else if mp == 9 {
        assert(month_offset(9) == 275 && month_offset(10) == 306);
    } else if mp == 10 {
        assert(month_offset(10) == 306 && month_offset(11) == 337);
    } else {
        assert(month_offset(11) == 337);
    }
}

/// March starts of an era decompose into whole eras plus a year of the era.
proof fn lemma_march_start_era(era: int, yoe: int)
    requires
        0 <= yoe < 400,
    ensures
        march_start(400 * era + yoe) == 146097 * era + era_year_start(yoe),
{
    let y = 400 * era + yoe;
    vstd::arithmetic::div_mod::lemma_hoist_over_denominator(yoe, 100 * era, 4);
    vstd::arithmetic::div_mod::lemma_hoist_over_denominator(yoe, 4 * era, 100);
    vstd::arithmetic::div_mod::lemma_hoist_over_denominator(yoe, era, 400);
    assert(yoe + (100 * era) * 4 == y);
    assert(yoe + (4 * era) * 100 == y);
    assert(yoe + era * 400 == y);
    assert(yoe / 400 == 0);
}

/// Stepping from `y - 1` to `y` raises `y / d` by one exactly when `d`
/// divides `y`.
proof fn lemma_floor_step(y: int, d: int)
    requires
        d > 0,
    ensures
        y / d - (y - 1) / d == (if y % d == 0 { 1int } else { 0int }),
{
    let q = (y - 1) / d;
    let r = (y - 1) % d;
    vstd::arithmetic::div_mod::lemma_fundamental_div_mod(y - 1, d);
    vstd::arithmetic::div_mod::lemma_mod_bound(y - 1, d);
    assert(y == d * q + (r + 1));
    if r + 1 < d {
        vstd::arithmetic::div_mod::lemma_div_multiples_vanish_fancy(q, r + 1, d);
        vstd::arithmetic::div_mod::lemma_mod_multiples_vanish(q, r + 1, d);
        vstd::arithmetic::div_mod::lemma_small_mod((r + 1) as nat, d as nat);
    } else {
        assert(y == d * (q + 1)) by (nonlinear_arith)
            requires
                y == d * q + (r + 1),
                r + 1 == d,
        ;
        vstd::arithmetic::div_mod::lemma_div_multiples_vanish(q + 1, d);
        vstd::arithmetic::div_mod::lemma_mod_multiples_vanish(q + 1, 0, d);
        assert(d * (q + 1) + 0 == y);
        vstd::arithmetic::div_mod::lemma_small_mod(0, d as nat);
    }
}

/// Consecutive March starts lie a (leap) year apart.
proof fn lemma_march_start_step(y: int)
    ensures
        march_start(y) - march_start(y - 1) == 365 + (if is_leap_year(y) { 1int } else { 0int }),
{
    lemma_floor_step(y, 4);
    lemma_floor_step(y, 100);
    lemma_floor_step(y, 400);
}

/// The leap-year rule repeats every 400 years.
proof fn lemma_leap_periodic(era: int, x: int)
    ensures
        is_leap_year(400 * era + x) == is_leap_year(x),
{
    vstd::arithmetic::div_mod::lemma_mod_multiples_vanish(100 * era, x, 4);
    vstd::arithmetic::div_mod::lemma_mod_multiples_vanish(4 * era, x, 100);
    vstd::arithmetic::div_mod::lemma_mod_multiples_vanish(era, x, 400);
    assert(4 * (100 * era) == 400 * era);
    assert(100 * (4 * era) == 400 * era);
}


/// Any day number determines one date through the era decomposition.
#[verifier::rlimit(50)]
proof fn lemma_civil_date(z: int, era: int, doe: int, yoe: int, doy: int, mp: int)
    requires
        z == 146097 * era + doe,
        0 <= doe < 146097,
        yoe == (doe - doe / 1460 + doe / 36524 - doe / 146096) / 365,
        doy == doe - era_year_start(yoe),
        mp == (5 * doy + 2) / 153,
    ensures
        ({
            let m = if mp < 10 { mp + 3 } else { mp - 9 };
            let d = doy - month_offset(mp) + 1;
            let y = if m <= 2 { 400 * era + yoe + 1 } else { 400 * era + yoe };
            &&& 0 <= yoe <= 399
            &&& 0 <= mp <= 11
            &&& is_valid_date(y, m, d)
            &&& unix_day_number(y, m, d) == z - 719468
        }),
{
    lemma_year_of_era(doe);
    lemma_month_of_year(doy);
    let m = if mp < 10 { mp + 3 } else { mp - 9 };
    let d = doy - month_offset(mp) + 1;
    let big_y = 400 * era + yoe;
    lemma_march_start_era(era, yoe);
    assert(z == march_start(big_y) + doy);
    assert(days_before_year(1970) == 719162);
    if m <= 2 {
        let y = big_y + 1;
        assert(days_before_year(y) == march_start(big_y));
        assert(days_before_month(y, m) == days_before_month(1, m));
        if m == 2 && d == 29 {
            lemma_leap_periodic(era, yoe + 1);
        }
    } else {
        let y = big_y;
        assert(days_before_year(y) == march_start(big_y - 1));
        lemma_march_start_step(big_y);
    }
}

/// The calendar date lying `days` days after 1970-01-01.
pub fn civil_from_days(days: i64) -> (r: CivilDate)
    requires
        -0x10_0000_0000_0000 <= days <= 0x10_0000_0000_0000,
    ensures
        r.is_day(days as int),
{
    let z: i64 = days + 719468;
    let era: i64 = match z.checked_div_euclid(146097) {
        Some(q) => q,
        None => 0,
    };
    let doe: i64 = z - era * 146097;
    assert(0 <= doe < 146097);
    let doe_u: u64 = doe as u64;
    let yoe: u64 = (doe_u - doe_u / 1460 + doe_u / 36524 - doe_u / 146096) / 365;
    proof {
        lemma_year_of_era(doe_u as int);
    }
    let doy: u64 = doe_u - (365 * yoe + yoe / 4 - yoe / 100);
    let mp: u64 = (5 * doy + 2) / 153;
    let d: u64 = doy - (153 * mp + 2) / 5 + 1;
    proof {
        lemma_civil_date(z as int, era as int, doe as int, yoe as int, doy as int, mp as int);
    }
    let m: u64 = if mp < 10 { mp + 3 } else { mp - 9 };
    let base: i64 = yoe as i64 + era * 400;
    let y: i64 = if m <= 2 { base + 1 } else { base };
    CivilDate { year: y, month: m as u8, day: d as u8 }
}


/// The date of the UTC day holding Unix time `secs`.
pub fn date_from_unix_secs(secs: i64) -> (r: CivilDate)
    ensures
        r.is_day(secs as int / 86400),
{
    let days: i64 = match secs.checked_div_euclid(86400) {
        Some(q) => q,
        None => 0,
    };
    civil_from_days(days)
}

// ---------------------------------------------------------------------------
// Laws of the calendar
// ---------------------------------------------------------------------------

/// A valid date's day lies inside its own year.
proof fn lemma_day_within_year(y: int, m: int, d: int)
    requires
        is_valid_date(y, m, d),
    ensures
        days_before_year(y) <= days_before_year(y) + days_before_month(y, m) + d - 1,
        days_before_year(y) + days_before_month(y, m) + d - 1 < days_before_year(y + 1),
{
    lemma_march_start_step(y);
    assert(days_before_year(y + 1) == march_start(y));
    assert(days_before_year(y) == march_start(y - 1));
}

/// Years start in calendar order.
proof fn lemma_year_starts_ordered(a: int, b: int)
    requires
        a < b,
    ensures
        days_before_year(a + 1) <= days_before_year(b),
{
    let x = a;
    let z = b - 1;
    assert(x <= z);
    assert(x / 4 <= z / 4);
    assert(x / 400 <= z / 400);
    assert(z / 100 - x / 100 <= (z - x) / 100 + 1) by {
        assert(100 * (x / 100) <= x);
        assert(z < 100 * (z / 100) + 100);
    }
    assert(days_before_year(a + 1) == march_start(x));
    assert(days_before_year(b) == march_start(z));
}

/// Within a year, months start in order and each month fills the gap to the next.
proof fn lemma_month_starts(y: int, m: int)
    requires
        1 <= m <= 11,
    ensures
        days_before_month(y, m) + days_in_month(y, m) == days_before_month(y, m + 1),
{
}

/// Months of one year start in order.
proof fn lemma_month_starts_ordered(y: int, a: int, b: int)
    requires
        1 <= a < b <= 12,
    ensures
        days_before_month(y, a) + days_in_month(y, a) <= days_before_month(y, b),
    decreases b - a,
{
    lemma_month_starts(y, a);
    if a + 1 < b {
        lemma_month_starts_ordered(y, a + 1, b);
    }
}

/// Different valid dates have different day numbers: a day number names at
/// most one date.
pub proof fn lemma_unix_day_number_injective(y1: int, m1: int, d1: int, y2: int, m2: int, d2: int)
    requires
        is_valid_date(y1, m1, d1),
        is_valid_date(y2, m2, d2),
        unix_day_number(y1, m1, d1) == unix_day_number(y2, m2, d2),
    ensures
        y1 == y2,
        m1 == m2,
        d1 == d2,
{
    lemma_day_within_year(y1, m1, d1);
    lemma_day_within_year(y2, m2, d2);
    if y1 < y2 {
        lemma_year_starts_ordered(y1, y2);
    } else if y2 < y1 {
        lemma_year_starts_ordered(y2, y1);
    }
    assert(y1 == y2);
    if m1 < m2 {
        lemma_month_starts_ordered(y1, m1, m2);
    } else if m2 < m1 {
        lemma_month_starts_ordered(y1, m2, m1);
    }
}

/// The calendar day after `y-m-d`.
pub open spec fn next_date(y: int, m: int, d: int) -> (int, int, int) {
    if d < days_in_month(y, m) {
        (y, m, d + 1)
    } else if m < 12 {
        (y, m + 1, 1)
    } else {
        (y + 1, 1, 1)
    }
}

/// The day after a valid date is valid and one day number later.
proof fn lemma_next_date_number(y: int, m: int, d: int)
    requires
        is_valid_date(y, m, d),
    ensures
        ({
            let (y2, m2, d2) = next_date(y, m, d);
            &&& is_valid_date(y2, m2, d2)
            &&& unix_day_number(y2, m2, d2) == unix_day_number(y, m, d) + 1
        }),
{
    if d < days_in_month(y, m) {
    } else if m < 12 {
        lemma_month_starts(y, m);
    } else {
        lemma_march_start_step(y);
        assert(days_before_year(y + 1) == march_start(y));
        assert(days_before_year(y) == march_start(y - 1));
    }
}

/// Consecutive days have consecutive dates: the date of day `n + 1` is the
/// calendar day after the date of day `n`.
pub proof fn lemma_next_day(today: CivilDate, tomorrow: CivilDate, n: int)
    requires
        today.is_day(n),
        tomorrow.is_day(n + 1),
    ensures
        (tomorrow.year as int, tomorrow.month as int, tomorrow.day as int)
            == next_date(today.year as int, today.month as int, today.day as int),
{
    let (y2, m2, d2) = next_date(today.year as int, today.month as int, today.day as int);
    lemma_next_date_number(today.year as int, today.month as int, today.day as int);
    lemma_unix_day_number_injective(
        tomorrow.year as int,
        tomorrow.month as int,
        tomorrow.day as int,
        y2,
        m2,
        d2,
    );
}

/// `(y1, m1, d1)` is on or before `(y2, m2, d2)` in calendar order.
pub open spec fn date_on_or_before(y1: int, m1: int, d1: int, y2: int, m2: int, d2: int) -> bool {
    y1 < y2 || (y1 == y2 && (m1 < m2 || (m1 == m2 && d1 <= d2)))
}

/// Later days have later dates: day numbers and calendar order agree.
pub proof fn lemma_dates_in_order(a: CivilDate, b: CivilDate, n1: int, n2: int)
    requires
        a.is_day(n1),
        b.is_day(n2),
        n1 <= n2,
    ensures
        date_on_or_before(a.year as int, a.month as int, a.day as int, b.year as int, b.month as int, b.day as int),
{
    let (y1, m1, d1) = (a.year as int, a.month as int, a.day as int);
    let (y2, m2, d2) = (b.year as int, b.month as int, b.day as int);
    lemma_day_within_year(y1, m1, d1);
    lemma_day_within_year(y2, m2, d2);
    if y2 < y1 {
        lemma_year_starts_ordered(y2, y1);
    } else if y1 == y2 && m2 < m1 {
        lemma_month_starts_ordered(y1, m2, m1);
    }
}

/// Dates of the years 1000 through 9999 render as ten characters with the
/// dashes at positions 4 and 7.
pub proof fn lemma_date_text_shape(date: CivilDate)
    requires
        1000 <= date.year <= 9999,
        is_valid_date(date.year as int, date.month as int, date.day as int),
    ensures
        date_text(date).len() == 10,
        date_text(date)[4] == '-',
        date_text(date)[7] == '-',
{
    reveal_with_fuel(decimal_digits, 5);
    let y = date.year as nat;
    assert(decimal_digits(y).len() == 4);
    assert(decimal_digits(date.month as nat).len() <= 2);
    assert(decimal_digits(date.day as nat).len() <= 2);
    assert(year_text(date.year as int).len() == 4);
    assert(zero_padded(decimal_digits(date.month as nat), 2).len() == 2);
    assert(zero_padded(decimal_digits(date.day as nat), 2).len() == 2);
}

/// The ten characters of `y-m-d` for a four-digit year, digit by digit.
spec fn fixed_width_text(y: int, m: int, d: int) -> Seq<char> {
    seq![
        digit_char(y / 1000), digit_char((y / 100) % 10), digit_char((y / 10) % 10), digit_char(y % 10),
        '-', digit_char(m / 10), digit_char(m % 10),
        '-', digit_char(d / 10), digit_char(d % 10),
    ]
}

/// Two digits, zero-padded, digit by digit.
proof fn lemma_two_digits(n: nat)
    requires
        n < 100,
    ensures
        zero_padded(decimal_digits(n), 2) =~= seq![digit_char((n / 10) as int), digit_char((n % 10) as int)],
{
    reveal_with_fuel(decimal_digits, 3);
    if n < 10 {
        assert(decimal_digits(n) == seq![digit_char(n as int)]);
    } else {
        assert(decimal_digits(n / 10) == seq![digit_char((n / 10) as int)]);
    }
}

/// Four digits, zero-padded, digit by digit.
#[verifier::rlimit(50)]
proof fn lemma_four_digits(n: nat)
    requires
        n < 10000,
    ensures
        zero_padded(decimal_digits(n), 4) =~= seq![
            digit_char((n / 1000) as int),
            digit_char(((n / 100) % 10) as int),
            digit_char(((n / 10) % 10) as int),
            digit_char((n % 10) as int),
        ],
{
    reveal_with_fuel(decimal_digits, 5);
    if n < 10 {
        assert(decimal_digits(n) == seq![digit_char(n as int)]);
    } else if n < 100 {
        assert(decimal_digits(n / 10) == seq![digit_char((n / 10) as int)]);
    } else if n < 1000 {
        assert(decimal_digits(n / 100) == seq![digit_char((n / 100) as int)]);
        assert(decimal_digits(n / 10) == seq![digit_char((n / 100) as int), digit_char(((n / 10) % 10) as int)]);
    } else {
        assert(decimal_digits(n / 1000) == seq![digit_char((n / 1000) as int)]);
        assert(decimal_digits(n / 100) == seq![digit_char((n / 1000) as int), digit_char(((n / 100) % 10) as int)]);
        assert(decimal_digits(n / 10) == seq![
            digit_char((n / 1000) as int),
            digit_char(((n / 100) % 10) as int),
            digit_char(((n / 10) % 10) as int),
        ]);
    }
}

/// Dates of the years 0 through 9999 render digit by digit.
proof fn lemma_date_text_fixed(date: CivilDate)
    requires
        0 <= date.year <= 9999,
        is_valid_date(date.year as int, date.month as int, date.day as int),
    ensures
        date_text(date) =~= fixed_width_text(date.year as int, date.month as int, date.day as int),
{
    lemma_four_digits(date.year as nat);
    lemma_two_digits(date.month as nat);
    lemma_two_digits(date.day as nat);
}

/// `a` comes before `b` in string (lexicographic) order.
pub open spec fn text_before(a: Seq<char>, b: Seq<char>) -> bool {
    exists|i: int|
        0 <= i < a.len() && i < b.len() && a.subrange(0, i) == b.subrange(0, i) && #[trigger] a[i] < b[i]
}

/// The eight digits of `y-m-d` for a four-digit year.
spec fn date_digits(y: int, m: int, d: int) -> Seq<int> {
    seq![y / 1000, (y / 100) % 10, (y / 10) % 10, y % 10, m / 10, m % 10, d / 10, d % 10]
}

/// The number an eight-digit sequence spells.
spec fn digits_number(s: Seq<int>) -> int {
    ((((((s[0] * 10 + s[1]) * 10 + s[2]) * 10 + s[3]) * 10 + s[4]) * 10 + s[5]) * 10 + s[6]) * 10 + s[7]
}

/// Eight decimal digits.
spec fn are_digits(s: Seq<int>) -> bool {
    s.len() == 8 && forall|k: int| 0 <= k < 8 ==> 0 <= #[trigger] s[k] <= 9
}

/// The digits of a date spell `y * 10000 + m * 100 + d`.
proof fn lemma_date_digits(y: int, m: int, d: int)
    requires
        0 <= y <= 9999,
        0 <= m <= 99,
        0 <= d <= 99,
    ensures
        are_digits(date_digits(y, m, d)),
        digits_number(date_digits(y, m, d)) == y * 10000 + m * 100 + d,
{
    lemma_last_digit(y);
    lemma_last_digit(y / 10);
    lemma_last_digit(y / 100);
    vstd::arithmetic::div_mod::lemma_div_denominator(y, 10, 10);
    vstd::arithmetic::div_mod::lemma_div_denominator(y, 100, 10);
    assert(y / 1000 <= 9);
    lemma_last_digit(m);
    lemma_last_digit(d);
    assert(m / 10 <= 9);
    assert(d / 10 <= 9);
    let s = date_digits(y, m, d);
    assert(0 <= s[0] <= 9 && 0 <= s[1] <= 9 && 0 <= s[2] <= 9 && 0 <= s[3] <= 9);
    assert(0 <= s[4] <= 9 && 0 <= s[5] <= 9 && 0 <= s[6] <= 9 && 0 <= s[7] <= 9);
}

/// A non-negative number is ten times its other digits plus its last digit.
proof fn lemma_last_digit(n: int)
    requires
        0 <= n,
    ensures
        n == 10 * (n / 10) + n % 10,
        0 <= n % 10 <= 9,
        0 <= n / 10,
{
    vstd::arithmetic::div_mod::lemma_fundamental_div_mod(n, 10);
    vstd::arithmetic::div_mod::lemma_mod_bound(n, 10);
}

/// Equal-width digit strings compare as the numbers they spell: where the
/// numbers differ, the first differing digit is smaller in the smaller one.
#[verifier::rlimit(50)]
proof fn lemma_first_difference(a: Seq<int>, b: Seq<int>)
    requires
        are_digits(a),
        are_digits(b),
        digits_number(a) < digits_number(b),
    ensures
        exists|i: int| 0 <= i < 8 && (forall|k: int| 0 <= k < i ==> a[k] == b[k]) && #[trigger] a[i] < b[i],
{
    assert(0 <= a[0] <= 9 && 0 <= a[1] <= 9 && 0 <= a[2] <= 9 && 0 <= a[3] <= 9);
    assert(0 <= a[4] <= 9 && 0 <= a[5] <= 9 && 0 <= a[6] <= 9 && 0 <= a[7] <= 9);
    assert(0 <= b[0] <= 9 && 0 <= b[1] <= 9 && 0 <= b[2] <= 9 && 0 <= b[3] <= 9);
    assert(0 <= b[4] <= 9 && 0 <= b[5] <= 9 && 0 <= b[6] <= 9 && 0 <= b[7] <= 9);
    let i: int = if a[0] != b[0] { 0 } else if a[1] != b[1] { 1 } else if a[2] != b[2] { 2 }
        else if a[3] != b[3] { 3 } else if a[4] != b[4] { 4 } else if a[5] != b[5] { 5 }
        else if a[6] != b[6] { 6 } else { 7 };
    let ra = digits_number(a);
    let rb = digits_number(b);
    // Each digit outweighs all digits after it.
    let t7 = a[7] - b[7];
    let t6 = (a[6] - b[6]) * 10 + t7;
    let t5 = (a[5] - b[5]) * 100 + t6;
    let t4 = (a[4] - b[4]) * 1000 + t5;
    let t3 = (a[3] - b[3]) * 10000 + t4;
    let t2 = (a[2] - b[2]) * 100000 + t3;
    let t1 = (a[1] - b[1]) * 1000000 + t2;
    assert(ra - rb == (a[0] - b[0]) * 10000000 + t1);
    assert(-9 <= t7 <= 9);
    assert(-99 <= t6 <= 99);
    assert(-999 <= t5 <= 999);
    assert(-9999 <= t4 <= 9999);
    assert(-99999 <= t3 <= 99999);
    assert(-999999 <= t2 <= 999999);
    assert(-9999999 <= t1 <= 9999999);
    assert(a[i] < b[i]);
    assert(forall|k: int| 0 <= k < i ==> a[k] == b[k]);
}

/// Digit characters compare as their digits.
proof fn lemma_digit_chars(x: int, y: int)
    requires
        0 <= x <= 9,
        0 <= y <= 9,
    ensures
        (digit_char(x) < digit_char(y)) == (x < y),
        (digit_char(x) == digit_char(y)) == (x == y),
{
}

/// `t` is the ten-character text of the digits `g`, dashes after the
/// fourth and sixth.
spec fn spells(t: Seq<char>, g: Seq<int>) -> bool {
    &&& t.len() == 10
    &&& t[0] == digit_char(g[0]) && t[1] == digit_char(g[1]) && t[2] == digit_char(g[2])
    &&& t[3] == digit_char(g[3]) && t[4] == '-' && t[5] == digit_char(g[4])
    &&& t[6] == digit_char(g[5]) && t[7] == '-' && t[8] == digit_char(g[6])
    &&& t[9] == digit_char(g[7])
}

/// The text of a four-digit-year date spells its eight digits.
proof fn lemma_text_from_digits(date: CivilDate)
    requires
        0 <= date.year <= 9999,
        is_valid_date(date.year as int, date.month as int, date.day as int),
    ensures
        spells(date_text(date), date_digits(date.year as int, date.month as int, date.day as int)),
{
    lemma_date_text_fixed(date);
}

/// Texts spelling different digit strings differ.
proof fn lemma_spelled_equal(ta: Seq<char>, tb: Seq<char>, ga: Seq<int>, gb: Seq<int>)
    requires
        are_digits(ga),
        are_digits(gb),
        spells(ta, ga),
        spells(tb, gb),
        ta == tb,
    ensures
        digits_number(ga) == digits_number(gb),
{
    assert forall|k: int| 0 <= k < 8 implies #[trigger] ga[k] == gb[k] by {
        lemma_digit_chars(ga[k], gb[k]);
        let pos: int = if k < 4 { k } else if k < 6 { k + 1 } else { k + 2 };
        assert(ta[pos] == tb[pos]);
    }
}

/// Texts spelling a smaller number come first.
#[verifier::rlimit(50)]
proof fn lemma_spelled_order(ta: Seq<char>, tb: Seq<char>, ga: Seq<int>, gb: Seq<int>)
    requires
        are_digits(ga),
        are_digits(gb),
        spells(ta, ga),
        spells(tb, gb),
        digits_number(ga) < digits_number(gb),
    ensures
        text_before(ta, tb),
{
    lemma_first_difference(ga, gb);
    let i = choose|i: int| 0 <= i < 8 && (forall|k: int| 0 <= k < i ==> ga[k] == gb[k]) && #[trigger] ga[i] < gb[i];
    let pos: int = if i < 4 { i } else if i < 6 { i + 1 } else { i + 2 };
    lemma_digit_chars(ga[i], gb[i]);
    assert(ta[pos] < tb[pos]);
    assert forall|q: int| 0 <= q < pos implies ta[q] == tb[q] by {
        if q < 4 {
            assert(ga[q] == gb[q]);
        } else if q == 5 || q == 6 {
            assert(ga[q - 1] == gb[q - 1]);
        } else if q == 8 {
            assert(ga[6] == gb[6]);
        }
    }
    assert(ta.subrange(0, pos) =~= tb.subrange(0, pos));
}

/// For the years 0 through 9999, the text order of dates is their calendar
/// order: an earlier date renders as an earlier string, and different dates
/// render differently.
#[verifier::rlimit(50)]
pub proof fn lemma_date_text_order(a: CivilDate, b: CivilDate)
    requires
        0 <= a.year <= 9999,
        0 <= b.year <= 9999,
        is_valid_date(a.year as int, a.month as int, a.day as int),
        is_valid_date(b.year as int, b.month as int, b.day as int),
    ensures
        date_on_or_before(a.year as int, a.month as int, a.day as int, b.year as int, b.month as int, b.day as int)
            && a != b ==> text_before(date_text(a), date_text(b)),
        date_text(a) == date_text(b) ==> a == b,
{
    let (y1, m1, d1) = (a.year as int, a.month as int, a.day as int);
    let (y2, m2, d2) = (b.year as int, b.month as int, b.day as int);
    let ga = date_digits(y1, m1, d1);
    let gb = date_digits(y2, m2, d2);
    lemma_date_digits(y1, m1, d1);
    lemma_date_digits(y2, m2, d2);
    lemma_text_from_digits(a);
    lemma_text_from_digits(b);
    if date_text(a) == date_text(b) {
        lemma_spelled_equal(date_text(a), date_text(b), ga, gb);
    }
    if date_on_or_before(y1, m1, d1, y2, m2, d2) && a != b {
        lemma_spelled_order(date_text(a), date_text(b), ga, gb);
    }
}

/// Today's text over two clock readings `a <= b` (seconds since the epoch,
/// years 0 through 9999): the later reading never gives an earlier text, and
/// the two texts are equal exactly when both readings fall on the same UTC
/// day.
pub proof fn lemma_day_texts_in_order(a: int, b: int, da: CivilDate, db: CivilDate)
    requires
        a <= b,
        da.is_day(a / 86400),
        db.is_day(b / 86400),
        0 <= da.year <= 9999,
        0 <= db.year <= 9999,
    ensures
        date_text(da) == date_text(db) || text_before(date_text(da), date_text(db)),
        (date_text(da) == date_text(db)) == (a / 86400 == b / 86400),
{
    assert(a / 86400 <= b / 86400);
    lemma_dates_in_order(da, db, a / 86400, b / 86400);
    lemma_date_text_order(da, db);
    if a / 86400 == b / 86400 {
        lemma_unix_day_number_injective(
            da.year as int, da.month as int, da.day as int,
            db.year as int, db.month as int, db.day as int,
        );
    }
}

// ---------------------------------------------------------------------------
// Rendering
// ---------------------------------------------------------------------------

/// The year as `{:04}` renders it: at least four characters, sign included.
pub open spec fn year_text(y: int) -> Seq<char> {
    if y < 0 {
        seq!['-'] + zero_padded(decimal_digits((-y) as nat), 3)
    } else {
        zero_padded(decimal_digits(y as nat), 4)
    }
}

/// `YYYY-MM-DD`, each part zero-padded (`{y:04}-{m:02}-{d:02}`).
pub open spec fn date_text(date: CivilDate) -> Seq<char> {
    year_text(date.year as int) + seq!['-'] + zero_padded(decimal_digits(date.month as nat), 2)
        + seq!['-'] + zero_padded(decimal_digits(date.day as nat), 2)
}

/// Renders a date as `YYYY-MM-DD`.
pub fn format_date(date: CivilDate) -> (r: String)
    ensures
        r@ == date_text(date),
{
    let mut out: Vec<char> = Vec::new();
    if date.year < 0 {
        out.push('-');
        let wide: i128 = date.year as i128;
        let magnitude: u64 = (0 - wide) as u64;
        push_zero_padded(&mut out, magnitude, 3);
    } else {
        push_zero_padded(&mut out, date.year as u64, 4);
    }
    assert(out@ == year_text(date.year as int));
    out.push('-');
    push_zero_padded(&mut out, date.month as u64, 2);
    out.push('-');
    push_zero_padded(&mut out, date.day as u64, 2);
    assert(out@ =~= date_text(date));
    string_from_chars(out.as_slice())
}

/// The system clock's reading type.
#[verifier::external_type_specification]
#[verifier::external_body]
pub struct ExSystemTime(std::time::SystemTime);

/// Reads the system clock (`SystemTime::now`). Trusted: nothing is stated of
/// the value, which depends on the machine's clock.
#[verifier::external_body]
fn system_time_now() -> std::time::SystemTime {
    std::time::SystemTime::now()
}

/// Time from the Unix epoch to `t` (`SystemTime::duration_since`), `None`
/// where `t` lies before the epoch. Trusted: nothing is stated of the value.
#[verifier::external_body]
fn duration_since_unix_epoch(t: &std::time::SystemTime) -> Option<core::time::Duration> {
    t.duration_since(std::time::UNIX_EPOCH).ok()
}

/// Whole seconds of a duration (`Duration::as_secs`). Trusted: nothing is
/// stated of the value; Verus sees nothing inside a `Duration`.
#[verifier::external_body]
fn duration_secs(d: &core::time::Duration) -> u64 {
    d.as_secs()
}

/// Today's UTC date as `YYYY-MM-DD`, from the system clock (a clock before
/// the epoch counts as the epoch itself).
pub fn chrono_today() -> (r: String)
    ensures
        exists|secs: i64, date: CivilDate|
            #![trigger date.is_day(secs as int / 86400)]
            date.is_day(secs as int / 86400) && r@ == date_text(date),
{
    let now = system_time_now();
    let secs: u64 = match duration_since_unix_epoch(&now) {
        Some(d) => duration_secs(&d),
        None => 0,
    };
    let secs_signed: i64 = secs as i64;
    today_text(secs_signed)
}

/// The `YYYY-MM-DD` text of the UTC day holding Unix time `secs`.
pub fn today_text(secs: i64) -> (r: String)
    ensures
        exists|date: CivilDate| #[trigger] date.is_day(secs as int / 86400) && r@ == date_text(date),
{
    let date = date_from_unix_secs(secs);
    format_date(date)
}

} // verus!
