//! The proleptic Gregorian calendar, counted in days from 1970-01-01 (UTC).
use vstd::prelude::*;
use vstd::arithmetic::div_mod::lemma_fundamental_div_mod_converse;
use vstd::arithmetic::div_mod::lemma_fundamental_div_mod;
use crate::text::{decimal, digit_char, lex_le, lex_le_from, push_char, push_signed_padded, signed_padded, zero_padded};

verus! {

/// A Gregorian leap year: divisible by 4, and not by 100 unless by 400.
pub open spec fn is_leap_year(y: int) -> bool {
    y % 4 == 0 && (y % 100 != 0 || y % 400 == 0)
}

pub open spec fn days_in_year(y: int) -> int {
    if is_leap_year(y) { 366 } else { 365 }
}

pub open spec fn days_in_month(y: int, m: int) -> int {
    if m == 2 {
        if is_leap_year(y) { 29 } else { 28 }
    } else if m == 4 || m == 6 || m == 9 || m == 11 {
        30
    } else {
        31
    }
}

/// The number of leap years in `1..=y` (negative for years before year 1).
pub open spec fn leap_count(y: int) -> int {
    y / 4 - y / 100 + y / 400
}

/// The day number of January 1st of year `y`, with 1970-01-01 as day 0.
pub open spec fn year_start_day(y: int) -> int {
    365 * (y - 1970) + leap_count(y - 1) - leap_count(1969)
}

/// The number of days in year `y` before the first day of month `m`.
pub open spec fn days_before_month(y: int, m: int) -> int
    decreases m,
{
    if m <= 1 {
        0
    } else {
        days_before_month(y, m - 1) + days_in_month(y, m - 1)
    }
}

/// A date of the calendar: a month in `1..=12` and a day that the month has.
pub open spec fn is_valid_date(y: int, m: int, d: int) -> bool {
    1 <= m <= 12 && 1 <= d <= days_in_month(y, m)
}

/// The day number of the date `y-m-d`, with 1970-01-01 as day 0.
pub open spec fn epoch_day(y: int, m: int, d: int) -> int {
    year_start_day(y) + days_before_month(y, m) + d - 1
}

/// The date on day number `days` (1970-01-01 is day 0).
pub open spec fn civil_date(days: int) -> (int, int, int) {
    choose|ymd: (int, int, int)|
        is_valid_date(ymd.0, ymd.1, ymd.2) && epoch_day(ymd.0, ymd.1, ymd.2) == days
}

proof fn lemma_div_step(y: int, k: int)
    requires
        k > 0,
    ensures
        y / k - (y - 1) / k == (if y % k == 0 { 1int } else { 0int }),
{
    lemma_fundamental_div_mod(y, k);
    lemma_fundamental_div_mod(y - 1, k);
    let q = y / k;
    let r = y % k;
    if r == 0 {
        assert(y - 1 == (q - 1) * k + (k - 1)) by (nonlinear_arith)
            requires y == k * q + r, r == 0;
        lemma_fundamental_div_mod_converse(y - 1, k, q - 1, k - 1);
    } else {
        assert(y - 1 == q * k + (r - 1)) by (nonlinear_arith)
            requires y == k * q + r;
        lemma_fundamental_div_mod_converse(y - 1, k, q, r - 1);
    }
}

/// Consecutive years are `days_in_year` days apart.
pub proof fn lemma_year_length(y: int)
    ensures
        year_start_day(y + 1) - year_start_day(y) == days_in_year(y),
{
    lemma_div_step(y, 4);
    lemma_div_step(y, 100);
    lemma_div_step(y, 400);
    lemma_fundamental_div_mod(y, 4);
    lemma_fundamental_div_mod(y, 100);
    lemma_fundamental_div_mod(y, 400);
    if y % 400 == 0 {
        lemma_fundamental_div_mod_converse(y, 100, (y / 400) * 4, 0);
        lemma_fundamental_div_mod_converse(y, 4, (y / 400) * 100, 0);
    }
    if y % 100 == 0 {
        lemma_fundamental_div_mod_converse(y, 4, (y / 100) * 25, 0);
    }
    if y % 4 != 0 {
        if y % 100 == 0 {
            lemma_fundamental_div_mod_converse(y, 4, (y / 100) * 25, 0);
        }
        if y % 400 == 0 {
            lemma_fundamental_div_mod_converse(y, 4, (y / 400) * 100, 0);
        }
    }
}

proof fn lemma_div_shift(x: int, k: int, n: int)
    requires
        k > 0,
    ensures
        (x + k * n) / k == x / k + n,
{
    lemma_fundamental_div_mod(x, k);
    assert(x + k * n == (x / k + n) * k + x % k) by (nonlinear_arith)
        requires x == k * (x / k) + x % k;
    lemma_fundamental_div_mod_converse(x + k * n, k, x / k + n, x % k);
}

/// Every 400 years hold exactly 146097 days.
pub proof fn lemma_era_length(y: int, q: int)
    ensures
        year_start_day(y + 400 * q) == year_start_day(y) + 146097 * q,
{
    lemma_div_shift(y - 1, 4, 100 * q);
    lemma_div_shift(y - 1, 100, 4 * q);
    lemma_div_shift(y - 1, 400, q);
}


/// The months of a year fill it exactly, each after the ones before it.
pub proof fn lemma_month_bounds(y: int, m: int)
    requires
        1 <= m <= 12,
    ensures
        0 <= days_before_month(y, m),
        days_before_month(y, m + 1) == days_before_month(y, m) + days_in_month(y, m),
        days_before_month(y, m) + days_in_month(y, m) <= days_in_year(y),
        days_before_month(y, 13) == days_in_year(y),
{
    reveal_with_fuel(days_before_month, 13);
}

proof fn lemma_months_ordered(y: int, m1: int, m2: int)
    requires
        1 <= m1 < m2 <= 12,
    ensures
        days_before_month(y, m1) + days_in_month(y, m1) <= days_before_month(y, m2),
    decreases m2 - m1,
{
    lemma_month_bounds(y, m1);
    if m1 + 1 < m2 {
        lemma_months_ordered(y, m1 + 1, m2);
        lemma_month_bounds(y, m1 + 1);
    }
}

/// Later years start later: a whole year lies between the starts of earlier and later years.
pub proof fn lemma_years_ordered(a: int, b: int)
    requires
        a < b,
    ensures
        year_start_day(a) + days_in_year(a) <= year_start_day(b),
    decreases b - a,
{
    lemma_year_length(a);
    if a + 1 < b {
        lemma_years_ordered(a + 1, b);
        lemma_year_length(a + 1);
    }
}

/// A valid date falls inside its own year.
pub proof fn lemma_date_in_year(y: int, m: int, d: int)
    requires
        is_valid_date(y, m, d),
    ensures
        year_start_day(y) <= epoch_day(y, m, d) < year_start_day(y) + days_in_year(y),
{
    lemma_month_bounds(y, m);
}

/// Distinct valid dates have distinct day numbers.
pub proof fn lemma_epoch_day_injective(y1: int, m1: int, d1: int, y2: int, m2: int, d2: int)
    requires
        is_valid_date(y1, m1, d1),
        is_valid_date(y2, m2, d2),
        epoch_day(y1, m1, d1) == epoch_day(y2, m2, d2),
    ensures
        y1 == y2 && m1 == m2 && d1 == d2,
{
    lemma_date_in_year(y1, m1, d1);
    lemma_date_in_year(y2, m2, d2);
    if y1 < y2 {
        lemma_years_ordered(y1, y2);
    } else if y2 < y1 {
        lemma_years_ordered(y2, y1);
    }
    if m1 < m2 {
        lemma_months_ordered(y1, m1, m2);
    } else if m2 < m1 {
        lemma_months_ordered(y1, m2, m1);
    }
}

proof fn lemma_leap_shift(n: int, k: int)
    ensures
        is_leap_year(400 * n + k) == is_leap_year(k),
{
    let y = 400 * n + k;
    lemma_fundamental_div_mod(k, 4);
    lemma_fundamental_div_mod(k, 100);
    lemma_fundamental_div_mod(k, 400);
    assert(y == (100 * n + k / 4) * 4 + k % 4);
    assert(y == (4 * n + k / 100) * 100 + k % 100);
    assert(y == (n + k / 400) * 400 + k % 400);
    lemma_fundamental_div_mod_converse(y, 4, 100 * n + k / 4, k % 4);
    lemma_fundamental_div_mod_converse(y, 100, 4 * n + k / 100, k % 100);
    lemma_fundamental_div_mod_converse(y, 400, n + k / 400, k % 400);
}

fn leap_in_era(k: u32) -> (r: bool)
    requires
        k < 400,
    ensures
        forall|n: int| r == is_leap_year(#[trigger] (400 * n) + k),
{
    proof {
        assert forall|n: int| is_leap_year(#[trigger] (400 * n) + k) == is_leap_year(k as int) by {
            lemma_leap_shift(n, k as int);
        }
    }
    k % 4 == 0 && (k % 100 != 0 || k == 0)
}

fn year_length_in_era(k: u32) -> (r: u32)
    requires
        k < 400,
    ensures
        forall|n: int| r == days_in_year(#[trigger] (400 * n) + k),
{
    if leap_in_era(k) { 366 } else { 365 }
}

fn month_length(leap: bool, m: u8) -> (r: u32)
    requires
        1 <= m <= 12,
    ensures
        forall|y: int| is_leap_year(y) == leap ==> r == days_in_month(y, m as int),
{
    if m == 2 {
        if leap { 29 } else { 28 }
    } else if m == 4 || m == 6 || m == 9 || m == 11 {
        30
    } else {
        31
    }
}

/// The calendar date of day number `days` (1970-01-01 is day 0).
pub fn civil_from_days(days: i64) -> (r: (i64, u8, u8))
    ensures
        is_valid_date(r.0 as int, r.1 as int, r.2 as int),
        epoch_day(r.0 as int, r.1 as int, r.2 as int) == days,
        (r.0 as int, r.1 as int, r.2 as int) == civil_date(days as int),
{
    // 2000-01-01 starts a 400-year era and is day 10957.
    let shifted: i128 = days as i128 - 10957;
    let q: i128 = shifted.checked_div_euclid(146097).unwrap();
    let rem: i128 = shifted.checked_rem_euclid(146097).unwrap();
    proof {
        lemma_fundamental_div_mod(shifted as int, 146097);
        lemma_era_length(2000, q as int);
        lemma_era_length(2000, q as int + 1);
        assert(1999int / 4 == 499 && 1999int / 100 == 19 && 1999int / 400 == 4);
        assert(1969int / 4 == 492 && 1969int / 100 == 19 && 1969int / 400 == 4);
        assert(year_start_day(2000) == 10957);
    }
    let ghost base: int = 2000 + 400 * q;
    let mut k: u32 = 0;
    let mut r: u32 = rem as u32;
    while r >= year_length_in_era(k)
        invariant
            k < 400,
            year_start_day(base + k) + r == days,
            days < year_start_day(base + 400),
            base == 400 * (q + 5),
        decreases 400 - k,
    {
        proof {
            lemma_year_length(base + k);
            assert(is_leap_year(base + k) == is_leap_year(400 * (q + 5) + k));
        }
        r = r - year_length_in_era(k);
        proof {
            if k + 1 >= 400 {
                assert(k + 1 == 400);
            }
        }
        k = k + 1;
    }
    let leap = leap_in_era(k);
    proof {
        assert(is_leap_year(base + k) == is_leap_year(400 * (q + 5) + k));
        assert(leap == is_leap_year(base + k));
    }
    let mut m: u8 = 1;
    while r >= month_length(leap, m)
        invariant
            1 <= m <= 12,
            leap == is_leap_year(base + k),
            days_before_month(base + k, m as int) + r < days_in_year(base + k),
            year_start_day(base + k) + days_before_month(base + k, m as int) + r == days,
        decreases 12 - m,
    {
        proof {
            lemma_month_bounds(base + k, m as int);
        }
        r = r - month_length(leap, m);
        proof {
            if m + 1 > 12 {
                lemma_month_bounds(base + k, 12);
            }
        }
        m = m + 1;
    }
    proof {
        lemma_month_bounds(base + k, m as int);
    }
    let year: i64 = (2000 + 400 * q + k as i128) as i64;
    let ghost ymd = (year as int, m as int, r as int + 1);
    proof {
        let c = civil_date(days as int);
        assert(is_valid_date(ymd.0, ymd.1, ymd.2) && epoch_day(ymd.0, ymd.1, ymd.2) == days);
        lemma_epoch_day_injective(c.0, c.1, c.2, ymd.0, ymd.1, ymd.2);
    }
    (year, m, (r + 1) as u8)
}


proof fn lemma_year_search(days: int, base: int, k: int, r: int) -> (y: int)
    requires
        0 <= k < 400,
        0 <= r,
        year_start_day(base + k) + r == days,
        days < year_start_day(base + 400),
    ensures
        year_start_day(y) <= days < year_start_day(y) + days_in_year(y),
    decreases 400 - k,
{
    lemma_year_length(base + k);
    if r < days_in_year(base + k) {
        base + k
    } else {
        if k + 1 >= 400 {
            assert(false);
        }
        lemma_year_search(days, base, k + 1, r - days_in_year(base + k))
    }
}

proof fn lemma_month_search(y: int, m: int, r: int) -> (md: (int, int))
    requires
        1 <= m <= 12,
        0 <= r,
        days_before_month(y, m) + r < days_in_year(y),
    ensures
        is_valid_date(y, md.0, md.1),
        days_before_month(y, md.0) + md.1 - 1 == days_before_month(y, m) + r,
    decreases 12 - m,
{
    lemma_month_bounds(y, m);
    if r < days_in_month(y, m) {
        (m, r + 1)
    } else {
        if m == 12 {
            assert(false);
        }
        lemma_month_search(y, m + 1, r - days_in_month(y, m))
    }
}

/// Every day number is the day number of exactly one date, `civil_date`.
pub proof fn lemma_every_day_has_a_date(days: int)
    ensures
        is_valid_date(civil_date(days).0, civil_date(days).1, civil_date(days).2),
        epoch_day(civil_date(days).0, civil_date(days).1, civil_date(days).2) == days,
{
    let shifted = days - 10957;
    let q = shifted / 146097;
    let rem = shifted % 146097;
    lemma_fundamental_div_mod(shifted, 146097);
    lemma_era_length(2000, q);
    lemma_era_length(2000, q + 1);
    assert(1999int / 4 == 499 && 1999int / 100 == 19 && 1999int / 400 == 4);
    assert(1969int / 4 == 492 && 1969int / 100 == 19 && 1969int / 400 == 4);
    let base = 2000 + 400 * q;
    assert(base + 400 == 2000 + 400 * (q + 1));
    let y = lemma_year_search(days, base, 0, rem);
    lemma_month_bounds(y, 1);
    let md = lemma_month_search(y, 1, days - year_start_day(y));
    let w = (y, md.0, md.1);
    assert(is_valid_date(w.0, w.1, w.2) && epoch_day(w.0, w.1, w.2) == days);
}

/// Every date is the date of its own day number.
pub proof fn lemma_civil_date_roundtrip(y: int, m: int, d: int)
    requires
        is_valid_date(y, m, d),
    ensures
        civil_date(epoch_day(y, m, d)) == (y, m, d),
{
    let w = (y, m, d);
    assert(is_valid_date(w.0, w.1, w.2) && epoch_day(w.0, w.1, w.2) == epoch_day(y, m, d));
    let c = civil_date(epoch_day(y, m, d));
    lemma_epoch_day_injective(c.0, c.1, c.2, y, m, d);
}

/// The timestamp text of a second begins with the date text of that second.
pub proof fn lemma_timestamp_starts_with_date(secs: int)
    ensures
        utc_timestamp_text(secs).subrange(0, utc_date_text(secs).len() as int) == utc_date_text(secs),
{
    assert(utc_timestamp_text(secs).subrange(0, utc_date_text(secs).len() as int) =~= utc_date_text(secs));
}

/// `YYYY-MM-DD` for the date `y-m-d` (the year zero-padded to four characters, sign included).
pub open spec fn date_text(y: int, m: int, d: int) -> Seq<char> {
    signed_padded(y, 4) + seq!['-'] + signed_padded(m, 2) + seq!['-'] + signed_padded(d, 2)
}

/// The UTC calendar date, as `YYYY-MM-DD`, of `secs` seconds after 1970-01-01T00:00:00Z.
pub open spec fn utc_date_text(secs: int) -> Seq<char> {
    let ymd = civil_date(secs / 86400);
    date_text(ymd.0, ymd.1, ymd.2)
}

/// `YYYY-MM-DDTHH:MM:SSZ` for `secs` seconds after 1970-01-01T00:00:00Z.
pub open spec fn utc_timestamp_text(secs: int) -> Seq<char> {
    let rem = secs % 86400;
    utc_date_text(secs) + seq!['T'] + signed_padded(rem / 3600, 2) + seq![':']
        + signed_padded(rem % 3600 / 60, 2) + seq![':'] + signed_padded(rem % 60, 2) + seq!['Z']
}

/// Appends the `YYYY-MM-DD` text of the date on which second `secs` falls.
pub fn push_utc_date(s: &mut String, secs: i64)
    ensures
        final(s)@ == old(s)@ + utc_date_text(secs as int),
{
    let days: i64 = secs.checked_div_euclid(86400).unwrap();
    let (y, m, d) = civil_from_days(days);
    let ghost start = s@;
    push_signed_padded(s, y, 4);
    push_char(s, '-');
    push_signed_padded(s, m as i64, 2);
    push_char(s, '-');
    push_signed_padded(s, d as i64, 2);
    assert(s@ =~= start + utc_date_text(secs as int));
}

/// The four decimal digits of `n` in `0..10000`.
spec fn digits4(n: int) -> Seq<char> {
    seq![digit_char(n / 1000), digit_char(n / 100 % 10), digit_char(n / 10 % 10), digit_char(n % 10)]
}

/// The two decimal digits of `n` in `0..100`.
spec fn digits2(n: int) -> Seq<char> {
    seq![digit_char(n / 10), digit_char(n % 10)]
}

proof fn lemma_padded4(n: int)
    requires
        0 <= n < 10000,
    ensures
        signed_padded(n, 4) == digits4(n),
{
    reveal_with_fuel(decimal, 5);
    let k = n as nat;
    assert((n / 10) / 10 == n / 100) by (nonlinear_arith)
        requires
            n >= 0,
    ;
    assert((n / 100) / 10 == n / 1000) by (nonlinear_arith)
        requires
            n >= 0,
    ;
    if n < 10 {
        assert(decimal(k) == seq![digit_char(n)]);
        assert(signed_padded(n, 4) =~= digits4(n));
    } else if n < 100 {
        assert(decimal(k) == seq![digit_char(n / 10), digit_char(n % 10)]);
        assert(signed_padded(n, 4) =~= digits4(n));
    } else if n < 1000 {
        assert(decimal(k / 10) == seq![digit_char(n / 100), digit_char(n / 10 % 10)]);
        assert(decimal(k) == seq![digit_char(n / 100), digit_char(n / 10 % 10), digit_char(n % 10)]);
        assert(signed_padded(n, 4) =~= digits4(n));
    } else {
        assert(decimal(k / 100) == seq![digit_char(n / 1000), digit_char(n / 100 % 10)]);
        assert(decimal(k / 10) == seq![digit_char(n / 1000), digit_char(n / 100 % 10), digit_char(n / 10 % 10)]);
        assert(signed_padded(n, 4) =~= digits4(n));
    }
}

proof fn lemma_padded2(n: int)
    requires
        0 <= n < 100,
    ensures
        signed_padded(n, 2) == digits2(n),
{
    reveal_with_fuel(decimal, 3);
    if n < 10 {
        assert(signed_padded(n, 2) =~= digits2(n));
    } else {
        assert(signed_padded(n, 2) =~= digits2(n));
    }
}

/// `a` and `b` agree before position `k` and `a` is smaller there.
spec fn first_diff(a: Seq<char>, b: Seq<char>, k: int) -> bool {
    &&& 0 <= k < a.len() && k < b.len()
    &&& forall|j: int| 0 <= j < k ==> a[j] == b[j]
    &&& (a[k] as int) < (b[k] as int)
}

proof fn lemma_first_diff_lex(a: Seq<char>, b: Seq<char>, k: int, i: int)
    requires
        first_diff(a, b, k),
        0 <= i <= k,
    ensures
        lex_le_from(a, b, i),
    decreases k - i,
{
    if i < k {
        lemma_first_diff_lex(a, b, k, i + 1);
        assert(a[i] == b[i]);
    }
}

proof fn lemma_first_diff_prefix(p: Seq<char>, a: Seq<char>, b: Seq<char>, k: int)
    requires
        first_diff(a, b, k),
    ensures
        first_diff(p + a, p + b, p.len() + k),
{
    assert forall|j: int| 0 <= j < p.len() + k implies (p + a)[j] == (p + b)[j] by {
        if j >= p.len() {
            assert(a[j - p.len()] == b[j - p.len()]);
        }
    }
}

proof fn lemma_first_diff_suffix(a: Seq<char>, b: Seq<char>, ra: Seq<char>, rb: Seq<char>, k: int)
    requires
        first_diff(a, b, k),
    ensures
        first_diff(a + ra, b + rb, k),
{
    assert forall|j: int| 0 <= j < k implies (a + ra)[j] == (b + rb)[j] by {
        assert(a[j] == b[j]);
    }
}

proof fn lemma_digit_order(x: int, y: int)
    requires
        0 <= x < y <= 9,
    ensures
        (digit_char(x) as int) < (digit_char(y) as int),
{
}

proof fn lemma_digits4_order(a: int, b: int) -> (k: int)
    requires
        0 <= a < b < 10000,
    ensures
        first_diff(digits4(a), digits4(b), k),
{
    assert(a == 1000 * (a / 1000) + 100 * (a / 100 % 10) + 10 * (a / 10 % 10) + a % 10) by (nonlinear_arith)
        requires
            a >= 0,
    ;
    assert(b == 1000 * (b / 1000) + 100 * (b / 100 % 10) + 10 * (b / 10 % 10) + b % 10) by (nonlinear_arith)
        requires
            b >= 0,
    ;
    let (x, y) = (digits4(a), digits4(b));
    if a / 1000 != b / 1000 {
        lemma_digit_order(a / 1000, b / 1000);
        0
    } else if a / 100 % 10 != b / 100 % 10 {
        lemma_digit_order(a / 100 % 10, b / 100 % 10);
        assert(x[0] == y[0]);
        1
    } else if a / 10 % 10 != b / 10 % 10 {
        lemma_digit_order(a / 10 % 10, b / 10 % 10);
        assert(x[0] == y[0] && x[1] == y[1]);
        2
    } else {
        lemma_digit_order(a % 10, b % 10);
        assert(x[0] == y[0] && x[1] == y[1] && x[2] == y[2]);
        3
    }
}

proof fn lemma_digits2_order(a: int, b: int) -> (k: int)
    requires
        0 <= a < b < 100,
    ensures
        first_diff(digits2(a), digits2(b), k),
{
    let (x, y) = (digits2(a), digits2(b));
    if a / 10 != b / 10 {
        lemma_digit_order(a / 10, b / 10);
        0
    } else {
        lemma_digit_order(a % 10, b % 10);
        assert(x[0] == y[0]);
        1
    }
}

/// The first `n` of the twelve parts of `YYYY-MM-DDThh:mm:ssZ` (six fields, each followed by
/// its separator) for the fields `f`, joined from the left.
spec fn stamp_prefix(f: (int, int, int, int, int, int), n: int) -> Seq<char>
    decreases n,
{
    if n <= 0 {
        Seq::empty()
    } else {
        stamp_prefix(f, n - 1) + stamp_part(f, n - 1)
    }
}

/// Part `i` of a timestamp: field `i / 2` for even `i`, else the separator after it.
spec fn stamp_part(f: (int, int, int, int, int, int), i: int) -> Seq<char> {
    if i == 0 {
        digits4(f.0)
    } else if i == 2 {
        digits2(f.1)
    } else if i == 4 {
        digits2(f.2)
    } else if i == 6 {
        digits2(f.3)
    } else if i == 8 {
        digits2(f.4)
    } else if i == 10 {
        digits2(f.5)
    } else if i == 1 || i == 3 {
        seq!['-']
    } else if i == 5 {
        seq!['T']
    } else if i == 11 {
        seq!['Z']
    } else {
        seq![':']
    }
}

/// The six fields of a timestamp, compared in order.
spec fn fields_lt(a: (int, int, int, int, int, int), b: (int, int, int, int, int, int)) -> bool {
    ||| a.0 < b.0
    ||| a.0 == b.0 && a.1 < b.1
    ||| a.0 == b.0 && a.1 == b.1 && a.2 < b.2
    ||| a.0 == b.0 && a.1 == b.1 && a.2 == b.2 && a.3 < b.3
    ||| a.0 == b.0 && a.1 == b.1 && a.2 == b.2 && a.3 == b.3 && a.4 < b.4
    ||| a.0 == b.0 && a.1 == b.1 && a.2 == b.2 && a.3 == b.3 && a.4 == b.4 && a.5 < b.5
}

spec fn fields_in_range(a: (int, int, int, int, int, int)) -> bool {
    0 <= a.0 < 10000 && 0 <= a.1 < 100 && 0 <= a.2 < 100 && 0 <= a.3 < 100 && 0 <= a.4 < 100 && 0 <= a.5 < 100
}

/// The parts before position `n` agree when the fields before `n / 2` do.
proof fn lemma_prefix_agrees(a: (int, int, int, int, int, int), b: (int, int, int, int, int, int), n: int)
    requires
        0 <= n <= 12,
        n > 0 ==> a.0 == b.0,
        n > 2 ==> a.1 == b.1,
        n > 4 ==> a.2 == b.2,
        n > 6 ==> a.3 == b.3,
        n > 8 ==> a.4 == b.4,
        n > 10 ==> a.5 == b.5,
    ensures
        stamp_prefix(a, n) == stamp_prefix(b, n),
    decreases n,
{
    if n > 0 {
        lemma_prefix_agrees(a, b, n - 1);
        assert(stamp_part(a, n - 1) == stamp_part(b, n - 1));
    }
}

/// A first difference within part `n` stays the first difference of the whole timestamp.
proof fn lemma_extend_diff(a: (int, int, int, int, int, int), b: (int, int, int, int, int, int), n: int, m: int, k: int)
    requires
        0 <= n < m <= 12,
        first_diff(stamp_prefix(a, n + 1), stamp_prefix(b, n + 1), k),
    ensures
        first_diff(stamp_prefix(a, m), stamp_prefix(b, m), k),
    decreases m - n,
{
    if m > n + 1 {
        lemma_extend_diff(a, b, n, m - 1, k);
        lemma_first_diff_suffix(stamp_prefix(a, m - 1), stamp_prefix(b, m - 1), stamp_part(a, m - 1), stamp_part(b, m - 1), k);
    }
}

proof fn lemma_stamp_order(a: (int, int, int, int, int, int), b: (int, int, int, int, int, int)) -> (k: int)
    requires
        fields_in_range(a),
        fields_in_range(b),
        fields_lt(a, b),
    ensures
        first_diff(stamp_prefix(a, 12), stamp_prefix(b, 12), k),
{
    let n: int = if a.0 < b.0 {
        0
    } else if a.1 < b.1 {
        2
    } else if a.2 < b.2 {
        4
    } else if a.3 < b.3 {
        6
    } else if a.4 < b.4 {
        8
    } else {
        10
    };
    let j = if n == 0 {
        lemma_digits4_order(a.0, b.0)
    } else if n == 2 {
        lemma_digits2_order(a.1, b.1)
    } else if n == 4 {
        lemma_digits2_order(a.2, b.2)
    } else if n == 6 {
        lemma_digits2_order(a.3, b.3)
    } else if n == 8 {
        lemma_digits2_order(a.4, b.4)
    } else {
        lemma_digits2_order(a.5, b.5)
    };
    assert(first_diff(stamp_part(a, n), stamp_part(b, n), j));
    lemma_prefix_agrees(a, b, n);
    lemma_first_diff_prefix(stamp_prefix(a, n), stamp_part(a, n), stamp_part(b, n), j);
    let k = stamp_prefix(a, n).len() + j;
    lemma_extend_diff(a, b, n, 12, k);
    k
}

/// Later days have later dates.
proof fn lemma_dates_ordered(d1: int, d2: int)
    requires
        d1 < d2,
    ensures
        ({
            let a = civil_date(d1);
            let b = civil_date(d2);
            a.0 < b.0 || (a.0 == b.0 && a.1 < b.1) || (a.0 == b.0 && a.1 == b.1 && a.2 < b.2)
        }),
{
    lemma_every_day_has_a_date(d1);
    lemma_every_day_has_a_date(d2);
    let a = civil_date(d1);
    let b = civil_date(d2);
    lemma_date_in_year(a.0, a.1, a.2);
    lemma_date_in_year(b.0, b.1, b.2);
    if b.0 < a.0 {
        lemma_years_ordered(b.0, a.0);
    } else if b.0 == a.0 && b.1 < a.1 {
        lemma_months_ordered(a.0, b.1, a.1);
        lemma_month_bounds(a.0, a.1);
    } else if b.0 == a.0 && b.1 == a.1 {
        assert(b.2 > a.2 || d2 <= d1);
    }
}

/// The fields of the timestamp of second `secs`.
spec fn stamp_fields(secs: int) -> (int, int, int, int, int, int) {
    let ymd = civil_date(secs / 86400);
    let r = secs % 86400;
    (ymd.0, ymd.1, ymd.2, r / 3600, r % 3600 / 60, r % 60)
}

/// The year of second `secs`, from 0000-01-01T00:00:00Z to 9999-12-31T23:59:59Z, has four digits.
pub proof fn lemma_four_digit_year(secs: int)
    requires
        -62167219200 <= secs <= 253402300799,
    ensures
        0 <= civil_date(secs / 86400).0 <= 9999,
        is_valid_date(civil_date(secs / 86400).0, civil_date(secs / 86400).1, civil_date(secs / 86400).2),
{
    let day = secs / 86400;
    lemma_every_day_has_a_date(day);
    let ymd = civil_date(day);
    lemma_date_in_year(ymd.0, ymd.1, ymd.2);
    assert(year_start_day(0) == -719528);
    assert(year_start_day(10000) == 2932897);
    if ymd.0 < 0 {
        lemma_years_ordered(ymd.0, 0);
    }
    if ymd.0 > 10000 {
        lemma_years_ordered(10000, ymd.0);
    }
}

proof fn lemma_stamp_text(secs: int)
    requires
        -62167219200 <= secs <= 253402300799,
    ensures
        fields_in_range(stamp_fields(secs)),
        utc_timestamp_text(secs) == stamp_prefix(stamp_fields(secs), 12),
{
    lemma_four_digit_year(secs);
    let f = stamp_fields(secs);
    assert(fields_in_range(f));
    lemma_padded4(f.0);
    lemma_padded2(f.1);
    lemma_padded2(f.2);
    lemma_padded2(f.3);
    lemma_padded2(f.4);
    lemma_padded2(f.5);
    reveal_with_fuel(stamp_prefix, 13);
    assert(stamp_prefix(f, 0) =~= Seq::empty());
}

proof fn lemma_stamp_length(f: (int, int, int, int, int, int))
    ensures
        stamp_prefix(f, 12).len() == 20,
{
    reveal_with_fuel(stamp_prefix, 13);
}

/// Timestamps from 0000-01-01T00:00:00Z to 9999-12-31T23:59:59Z are twenty characters long and
/// sort as text in the order of the seconds they stand for.
pub proof fn lemma_timestamps_ordered(s1: int, s2: int)
    requires
        -62167219200 <= s1 < s2 <= 253402300799,
    ensures
        utc_timestamp_text(s1).len() == 20,
        utc_timestamp_text(s2).len() == 20,
        lex_le(utc_timestamp_text(s1), utc_timestamp_text(s2)),
        utc_timestamp_text(s1) != utc_timestamp_text(s2),
{
    lemma_stamp_text(s1);
    lemma_stamp_text(s2);
    lemma_stamp_length(stamp_fields(s1));
    lemma_stamp_length(stamp_fields(s2));
    let a = stamp_fields(s1);
    let b = stamp_fields(s2);
    let (d1, d2) = (s1 / 86400, s2 / 86400);
    let (r1, r2) = (s1 % 86400, s2 % 86400);
    assert(r1 == 3600 * (r1 / 3600) + 60 * (r1 % 3600 / 60) + r1 % 60 && 0 <= r1 % 3600 / 60 < 60 && 0 <= r1 % 60 < 60)
        by (nonlinear_arith)
        requires
            0 <= r1 < 86400,
    ;
    assert(r2 == 3600 * (r2 / 3600) + 60 * (r2 % 3600 / 60) + r2 % 60 && 0 <= r2 % 3600 / 60 < 60 && 0 <= r2 % 60 < 60)
        by (nonlinear_arith)
        requires
            0 <= r2 < 86400,
    ;
    if d1 < d2 {
        lemma_dates_ordered(d1, d2);
    } else {
        assert(d1 == d2);
        assert(r1 < r2);
    }
    assert(fields_lt(a, b));
    let k = lemma_stamp_order(a, b);
    lemma_first_diff_lex(utc_timestamp_text(s1), utc_timestamp_text(s2), k, 0);
}

/// A timestamp from 0000-01-01T00:00:00Z to 9999-12-31T23:59:59Z has the shape
/// `dddd-dd-ddTdd:dd:ddZ`, each `d` an ASCII digit.
pub proof fn lemma_timestamp_shape(secs: int)
    requires
        -62167219200 <= secs <= 253402300799,
    ensures
        utc_timestamp_text(secs).len() == 20,
        forall|i: int|
            0 <= i < 20 ==> {
                let c = #[trigger] utc_timestamp_text(secs)[i];
                if i == 4 || i == 7 {
                    c == '-'
                } else if i == 10 {
                    c == 'T'
                } else if i == 13 || i == 16 {
                    c == ':'
                } else if i == 19 {
                    c == 'Z'
                } else {
                    '0' <= c && c <= '9'
                }
            },
{
    lemma_stamp_text(secs);
    lemma_stamp_shape(stamp_fields(secs));
}

/// The shape of the text of in-range timestamp fields.
proof fn lemma_stamp_shape(f: (int, int, int, int, int, int))
    requires
        fields_in_range(f),
    ensures
        stamp_prefix(f, 12).len() == 20,
        forall|i: int|
            0 <= i < 20 ==> {
                let c = #[trigger] stamp_prefix(f, 12)[i];
                if i == 4 || i == 7 {
                    c == '-'
                } else if i == 10 {
                    c == 'T'
                } else if i == 13 || i == 16 {
                    c == ':'
                } else if i == 19 {
                    c == 'Z'
                } else {
                    '0' <= c && c <= '9'
                }
            },
{
    let ghost d: Seq<char> = seq![
        digit_char(f.0 / 1000), digit_char(f.0 / 100 % 10), digit_char(f.0 / 10 % 10), digit_char(f.0 % 10),
        digit_char(f.1 / 10), digit_char(f.1 % 10), digit_char(f.2 / 10), digit_char(f.2 % 10),
        digit_char(f.3 / 10), digit_char(f.3 % 10), digit_char(f.4 / 10), digit_char(f.4 % 10),
        digit_char(f.5 / 10), digit_char(f.5 % 10),
    ];
    assert forall|k: int| 0 <= k < 14 implies '0' <= #[trigger] d[k] && d[k] <= '9' by {}
    let t = stamp_prefix(f, 12);
    reveal_with_fuel(stamp_prefix, 13);
    assert(stamp_prefix(f, 0) =~= Seq::empty());
    let expected = seq![
        d[0], d[1], d[2], d[3], '-', d[4], d[5], '-', d[6], d[7], 'T', d[8], d[9], ':', d[10], d[11], ':', d[12],
        d[13], 'Z',
    ];
    assert(t =~= expected);
}

} // verus!
