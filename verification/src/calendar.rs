use vstd::prelude::*;

verus! {

/// Gregorian leap-year rule.
pub open spec fn is_leap_year(y: int) -> bool {
    (y % 4 == 0 && y % 100 != 0) || y % 400 == 0
}

/// Number of days of month `m` (1 = January) of year `y`.
pub open spec fn days_in_month(y: int, m: int) -> int {
    if m == 2 {
        if is_leap_year(y) { 29 } else { 28 }
    } else if m == 4 || m == 6 || m == 9 || m == 11 {
        30
    } else {
        31
    }
}

/// Number of days of year `y`.
pub open spec fn days_in_year(y: int) -> int {
    if is_leap_year(y) { 366 } else { 365 }
}

/// Days from 1970-01-01 to the first of January of year `y` (`y >= 1970`).
pub open spec fn days_before_year(y: int) -> int
    decreases y - 1970,
{
    if y <= 1970 {
        0
    } else {
        days_before_year(y - 1) + days_in_year(y - 1)
    }
}

/// Days from the first of January of year `y` to the first day of month `m`.
pub open spec fn days_before_month(y: int, m: int) -> int
    decreases m,
{
    if m <= 1 {
        0
    } else {
        days_before_month(y, m - 1) + days_in_month(y, m - 1)
    }
}

/// A calendar date on or after 1970-01-01.
pub open spec fn valid_date(y: int, m: int, d: int) -> bool {
    &&& y >= 1970
    &&& 1 <= m <= 12
    &&& 1 <= d <= days_in_month(y, m)
}

/// Days elapsed from 1970-01-01 to the date `y-m-d`.
pub open spec fn day_number(y: int, m: int, d: int) -> int {
    days_before_year(y) + days_before_month(y, m) + (d - 1)
}

/// `(y, m, d)` is the date that lies `days` days after 1970-01-01.
pub open spec fn is_date_of(days: int, y: int, m: int, d: int) -> bool {
    valid_date(y, m, d) && day_number(y, m, d) == days
}

/// The date that lies `days` days after 1970-01-01.
pub open spec fn date_of(days: int) -> (int, int, int) {
    choose|date: (int, int, int)| is_date_of(days, date.0, date.1, date.2)
}

/// Leap years among the years `1..=y`.
spec fn leap_count(y: int) -> int {
    y / 4 - y / 100 + y / 400
}

/// Days before March-based month `k` of a March-based year (`k == 0` is March).
spec fn days_before_march_month(k: int) -> int {
    (153 * k + 2) / 5
}

proof fn lemma_leap_count_step(n: int)
    requires
        n >= 1,
    ensures
        leap_count(n) - leap_count(n - 1) == (if is_leap_year(n) { 1int } else { 0int }),
{
}

proof fn lemma_days_before_year_closed(y: int)
    requires
        y >= 1970,
    ensures
        days_before_year(y) == 365 * (y - 1970) + leap_count(y - 1) - 477,
    decreases y - 1970,
{
    if y > 1970 {
        lemma_days_before_year_closed(y - 1);
        lemma_leap_count_step(y - 1);
    }
}

proof fn lemma_days_before_month_closed(y: int, m: int)
    requires
        1 <= m <= 12,
    ensures
        m >= 3 ==> days_before_month(y, m) == 59 + (if is_leap_year(y) { 1int } else { 0int })
            + days_before_march_month(m - 3),
        m <= 2 ==> days_before_month(y, m) == days_before_march_month(m + 9) - 306,
{
    reveal_with_fuel(days_before_month, 13);
}

proof fn lemma_year_of_era(doe: int)
    requires
        0 <= doe < 146097,
    ensures
        ({
            let yoe = (doe - doe / 1460 + doe / 36524 - doe / 146096) / 365;
            &&& 0 <= yoe < 400
            &&& 365 * yoe + leap_count(yoe) <= doe
            &&& doe < 365 * (yoe + 1) + leap_count(yoe + 1)
            &&& leap_count(yoe) == yoe / 4 - yoe / 100
        }),
{
}

proof fn lemma_month_of_year(doy: int)
    requires
        0 <= doy < 366,
    ensures
        ({
            let mp = (5 * doy + 2) / 153;
            &&& 0 <= mp < 12
            &&& days_before_march_month(mp) <= doy
            &&& doy < days_before_march_month(mp + 1)
        }),
{
}

/// The year, month and day that the civil-from-days computation (eras of
/// 400 years counted from 0000-03-01) derives from a day count.
pub open spec fn civil_parts(days: int) -> (int, int, int) {
    let z = days + 719468;
    let era = z / 146097;
    let doe = z - era * 146097;
    let yoe = (doe - doe / 1460 + doe / 36524 - doe / 146096) / 365;
    let y = yoe + era * 400;
    let doy = doe - (365 * yoe + yoe / 4 - yoe / 100);
    let mp = (5 * doy + 2) / 153;
    let d = doy - (153 * mp + 2) / 5 + 1;
    let m = if mp < 10 { mp + 3 } else { mp - 9 };
    let year = if m <= 2 { y + 1 } else { y };
    (year, m, d)
}

proof fn lemma_march_years_monotone(a: int, b: int)
    requires
        0 <= a <= b,
    ensures
        365 * a + leap_count(a) <= 365 * b + leap_count(b),
    decreases b - a,
{
    if a < b {
        lemma_march_years_monotone(a, b - 1);
        lemma_leap_count_step(b);
    }
}

proof fn lemma_leap_count_era(era: int, yoe: int)
    requires
        era >= 0,
        0 <= yoe < 400,
    ensures
        leap_count(yoe + era * 400) == 97 * era + leap_count(yoe),
        is_leap_year(yoe + era * 400 + 1) == is_leap_year(yoe + 1),
{
    assert((yoe + era * 400) / 4 == yoe / 4 + era * 100);
    assert((yoe + era * 400) / 100 == yoe / 100 + era * 4);
    assert((yoe + era * 400) / 400 == yoe / 400 + era);
    assert((yoe + era * 400 + 1) % 4 == (yoe + 1) % 4);
    assert((yoe + era * 400 + 1) % 100 == (yoe + 1) % 100);
    assert((yoe + era * 400 + 1) % 400 == (yoe + 1) % 400);
}

/// A day `doy` of March-based year `y` that falls in March..December.
proof fn lemma_date_spring(days: int, y: int, doy: int, mp: int)
    requires
        y >= 1970,
        0 <= mp < 10,
        days + 719468 == 365 * y + leap_count(y) + doy,
        days_before_march_month(mp) <= doy < days_before_march_month(mp + 1),
    ensures
        is_date_of(days, y, mp + 3, doy - days_before_march_month(mp) + 1),
{
    lemma_days_before_year_closed(y);
    lemma_leap_count_step(y);
    lemma_days_before_month_closed(y, mp + 3);
}

/// A day `doy` of March-based year `y` that falls in January or February of
/// the civil year `y + 1`.
proof fn lemma_date_winter(days: int, y: int, doy: int, mp: int)
    requires
        y >= 1969,
        10 <= mp < 12,
        days + 719468 == 365 * y + leap_count(y) + doy,
        days_before_march_month(mp) <= doy < days_before_march_month(mp + 1),
        mp == 11 ==> doy < 365 + (if is_leap_year(y + 1) { 1int } else { 0int }),
    ensures
        is_date_of(days, y + 1, mp - 9, doy - days_before_march_month(mp) + 1),
{
    lemma_days_before_year_closed(y + 1);
    lemma_days_before_month_closed(y + 1, mp - 9);
}

/// The civil-from-days computation yields the date that lies `days` days
/// after 1970-01-01.
pub(crate) proof fn lemma_civil_parts(days: int)
    requires
        days >= 0,
    ensures
        is_date_of(days, civil_parts(days).0, civil_parts(days).1, civil_parts(days).2),
{
    let z = days + 719468;
    let era = z / 146097;
    let doe = z - era * 146097;
    lemma_year_of_era(doe);
    let yoe = (doe - doe / 1460 + doe / 36524 - doe / 146096) / 365;
    let y = yoe + era * 400;
    let doy = doe - (365 * yoe + yoe / 4 - yoe / 100);
    lemma_leap_count_step(yoe + 1);
    lemma_month_of_year(doy);
    let mp = (5 * doy + 2) / 153;
    lemma_leap_count_era(era, yoe);
    assert(365 * y + leap_count(y) + doy == z);
    lemma_leap_count_step(y + 1);
    assert(z < 365 * (y + 1) + leap_count(y + 1));
    if y < 1969 {
        lemma_march_years_monotone(y + 1, 1969);
        assert(false);
    }
    if mp < 10 {
        if y == 1969 {
            assert(false);
        }
        lemma_date_spring(days, y, doy, mp);
    } else {
        lemma_date_winter(days, y, doy, mp);
    }
}

proof fn lemma_days_before_year_monotone(a: int, b: int)
    requires
        1970 <= a <= b,
    ensures
        days_before_year(a) + (if a < b { days_in_year(a) } else { 0 }) <= days_before_year(b),
    decreases b - a,
{
    if a < b {
        lemma_days_before_year_monotone(a, b - 1);
    }
}

proof fn lemma_month_bounds(y: int, m1: int, m2: int)
    requires
        1 <= m1 <= 12,
        1 <= m2 <= 12,
    ensures
        0 <= days_before_month(y, m1),
        days_before_month(y, m1) + days_in_month(y, m1) <= days_in_year(y),
        m1 < m2 ==> days_before_month(y, m1) + days_in_month(y, m1) <= days_before_month(y, m2),
{
    reveal_with_fuel(days_before_month, 13);
}

/// Distinct dates on or after 1970-01-01 have distinct day numbers, so
/// `date_of` names the one date of a day number.
pub proof fn lemma_date_unique(days: int, y1: int, m1: int, d1: int, y2: int, m2: int, d2: int)
    requires
        is_date_of(days, y1, m1, d1),
        is_date_of(days, y2, m2, d2),
    ensures
        y1 == y2 && m1 == m2 && d1 == d2,
{
    lemma_month_bounds(y1, m1, m2);
    lemma_month_bounds(y2, m2, m1);
    assert(days_before_month(y1, m1) + d1 - 1 < days_in_year(y1));
    assert(days_before_month(y2, m2) + d2 - 1 < days_in_year(y2));
    if y1 < y2 {
        lemma_days_before_year_monotone(y1, y2);
        assert(false);
    } else if y2 < y1 {
        lemma_days_before_year_monotone(y2, y1);
        assert(false);
    } else if m1 < m2 {
        assert(false);
    } else if m2 < m1 {
        assert(false);
    }
}

/// Every day count from the epoch on names a valid date, the one that the
/// civil-from-days computation yields.
pub proof fn lemma_date_of(days: int)
    requires
        days >= 0,
    ensures
        date_of(days) == civil_parts(days),
        is_date_of(days, date_of(days).0, date_of(days).1, date_of(days).2),
{
    lemma_civil_parts(days);
    let p = civil_parts(days);
    assert(is_date_of(days, p.0, p.1, p.2));
    let q = date_of(days);
    lemma_date_unique(days, p.0, p.1, p.2, q.0, q.1, q.2);
}

/// Date `a` comes before date `b` (by year, then month, then day).
pub open spec fn date_before(a: (int, int, int), b: (int, int, int)) -> bool {
    a.0 < b.0 || (a.0 == b.0 && (a.1 < b.1 || (a.1 == b.1 && a.2 < b.2)))
}

/// Later dates have larger day numbers.
proof fn lemma_day_number_increasing(y1: int, m1: int, d1: int, y2: int, m2: int, d2: int)
    requires
        valid_date(y1, m1, d1),
        valid_date(y2, m2, d2),
        date_before((y1, m1, d1), (y2, m2, d2)),
    ensures
        day_number(y1, m1, d1) < day_number(y2, m2, d2),
{
    lemma_month_bounds(y1, m1, m2);
    lemma_month_bounds(y2, m2, m1);
    if y1 < y2 {
        lemma_days_before_year_monotone(y1, y2);
    }
}

/// A later day count names a later date.
pub proof fn lemma_date_of_increasing(a: int, b: int)
    requires
        0 <= a < b,
    ensures
        date_before(date_of(a), date_of(b)),
{
    lemma_date_of(a);
    lemma_date_of(b);
    let da = date_of(a);
    let db = date_of(b);
    if !date_before(da, db) {
        if da == db {
            assert(false);
        } else {
            assert(date_before(db, da));
            lemma_day_number_increasing(db.0, db.1, db.2, da.0, da.1, da.2);
            assert(false);
        }
    }
}

/// Day counts before 10000-01-01 name dates of four-digit years.
pub proof fn lemma_date_of_four_digit_year(days: int)
    requires
        0 <= days < 2932897,
    ensures
        1970 <= date_of(days).0 <= 9999,
{
    lemma_date_of(days);
    let d = date_of(days);
    if d.0 > 9999 {
        lemma_days_before_year_monotone(10000, d.0);
        lemma_days_before_year_closed(10000);
        lemma_month_bounds(d.0, d.1, d.1);
        assert(false);
    }
}

} // verus!
