//! Points in time as texts.

use vstd::prelude::*;

use crate::text;
use crate::text::decimal_of;

verus! {

/// A leap year of the Gregorian calendar.
pub open spec fn is_leap(y: int) -> bool {
    y % 4 == 0 && (y % 100 != 0 || y % 400 == 0)
}

/// The days of a year.
pub open spec fn year_len(y: int) -> int {
    if is_leap(y) {
        366
    } else {
        365
    }
}

/// The days of a month.
pub open spec fn month_len(y: int, m: int) -> int {
    if m == 2 {
        if is_leap(y) {
            29
        } else {
            28
        }
    } else if m == 4 || m == 6 || m == 9 || m == 11 {
        30
    } else {
        31
    }
}

/// The days from 1 January of the year 1 to 1 January of a year.
pub open spec fn days_before_year(y: int) -> int {
    365 * (y - 1) + (y - 1) / 4 - (y - 1) / 100 + (y - 1) / 400
}

/// The days of a year before a month.
pub open spec fn days_before_month(y: int, m: int) -> int
    decreases m,
{
    if m <= 1 {
        0
    } else {
        days_before_month(y, m - 1) + month_len(y, m - 1)
    }
}

/// The number of a day, 1 January 1970 being day 0.
pub open spec fn day_number(y: int, m: int, d: int) -> int {
    days_before_year(y) - days_before_year(1970) + days_before_month(y, m) + d - 1
}

/// A day of the calendar.
pub open spec fn is_date(y: int, m: int, d: int) -> bool {
    y >= 1 && 1 <= m <= 12 && 1 <= d <= month_len(y, m)
}

/// A number with at least `width` digits.
pub open spec fn padded(n: nat, width: nat) -> Seq<char> {
    let digits = decimal_of(n);
    if digits.len() >= width {
        digits
    } else {
        Seq::new((width - digits.len()) as nat, |i: int| '0') + digits
    }
}

/// A second of a day as a text `YYYY-MM-DDThh:mm:ssZ`.
pub open spec fn time_text(y: int, m: int, d: int, second: int) -> Seq<char> {
    padded(y as nat, 4) + "-"@ + padded(m as nat, 2) + "-"@ + padded(d as nat, 2) + "T"@ + padded(
        (second / 3600) as nat,
        2,
    ) + ":"@ + padded((second / 60 % 60) as nat, 2) + ":"@ + padded((second % 60) as nat, 2) + "Z"@
}

proof fn lemma_year_step(y: int)
    requires
        y >= 1,
    ensures
        days_before_year(y + 1) == days_before_year(y) + year_len(y),
{
}

proof fn lemma_month_bounds(y: int)
    ensures
        days_before_month(y, 13) == year_len(y),
{
    reveal_with_fuel(days_before_month, 13);
}

proof fn lemma_months_grow(y: int, a: int, b: int)
    requires
        1 <= a <= b,
    ensures
        days_before_month(y, a) <= days_before_month(y, b),
        a < b ==> days_before_month(y, a) + month_len(y, a) <= days_before_month(y, b),
    decreases b - a,
{
    if a < b {
        lemma_months_grow(y, a, b - 1);
    }
}

proof fn lemma_years_grow(a: int, b: int)
    requires
        1 <= a <= b,
    ensures
        days_before_year(a) <= days_before_year(b),
        a < b ==> days_before_year(a) + year_len(a) <= days_before_year(b),
    decreases b - a,
{
    if a < b {
        lemma_years_grow(a, b - 1);
        lemma_year_step(b - 1);
    }
}

/// A day has one date only.
pub proof fn law_one_date_a_day(y: int, m: int, d: int, z: int, n: int, e: int)
    requires
        is_date(y, m, d),
        is_date(z, n, e),
        day_number(y, m, d) == day_number(z, n, e),
    ensures
        y == z && m == n && d == e,
{
    lemma_month_bounds(y);
    lemma_month_bounds(z);
    lemma_months_grow(y, m, 13);
    lemma_months_grow(z, n, 13);
    lemma_months_grow(y, 1, m);
    lemma_months_grow(z, 1, n);
    if y < z {
        lemma_years_grow(y, z);
    } else if z < y {
        lemma_years_grow(z, y);
    } else if m < n {
        lemma_months_grow(y, m, n);
    } else if n < m {
        lemma_months_grow(y, n, m);
    }
}

fn length_of_year(y: u64) -> (r: u64)
    ensures
        r == year_len(y as int),
{
    if y % 4 == 0 && (y % 100 != 0 || y % 400 == 0) {
        366
    } else {
        365
    }
}

fn length_of_month(y: u64, m: u64) -> (r: u64)
    ensures
        r == month_len(y as int, m as int),
{
    if m == 2 {
        length_of_year(y) - 337
    } else if m == 4 || m == 6 || m == 9 || m == 11 {
        30
    } else {
        31
    }
}

/// The year of a day, and how many days of it precede.
fn year_at(day: u64) -> (r: (u64, u64))
    requires
        day < 0x4000_0000_0000_0000,
    ensures
        1970 <= r.0 <= day + 1970,
        r.1 < year_len(r.0 as int),
        days_before_year(r.0 as int) + r.1 == days_before_year(1970) + day,
{
    let cycles: u64 = day / 146_097;
    let mut y: u64 = 1970 + 400 * cycles;
    let mut rest: u64 = day % 146_097;
    assert(days_before_year(y as int) == days_before_year(1970) + 146_097 * cycles);
    loop
        invariant
            day < 0x4000_0000_0000_0000,
            1970 <= y <= day - rest + 1970,
            rest <= day,
            days_before_year(y as int) + rest == days_before_year(1970) + day,
        decreases rest,
    {
        let len: u64 = length_of_year(y);
        if rest < len {
            return (y, rest);
        }
        proof {
            lemma_year_step(y as int);
        }
        rest = rest - len;
        y = y + 1;
    }
}

/// The month and the day of a date, from the year and how many of its days precede.
fn month_at(y: u64, day: u64) -> (r: (u64, u64))
    requires
        y >= 1,
        day < year_len(y as int),
    ensures
        is_date(y as int, r.0 as int, r.1 as int),
        days_before_month(y as int, r.0 as int) + r.1 == day + 1,
{
    proof {
        lemma_month_bounds(y as int);
    }
    let mut m: u64 = 1;
    let mut rest: u64 = day;
    loop
        invariant
            y >= 1,
            1 <= m <= 12,
            days_before_month(y as int, m as int) + rest == day,
            day < days_before_month(y as int, 13),
        decreases 13 - m,
    {
        let len: u64 = length_of_month(y, m);
        if rest < len {
            return (m, rest + 1);
        }
        assert(days_before_month(y as int, m + 1) == days_before_month(y as int, m as int)
            + month_len(y as int, m as int));
        rest = rest - len;
        m = m + 1;
    }
}

fn pad(n: u64, width: usize) -> (r: String)
    ensures
        r@ == padded(n as nat, width as nat),
{
    let digits = text::decimal(n);
    let have: usize = text::letters(digits.as_str()).len();
    if have >= width {
        return digits;
    }
    let mut r = String::new();
    let mut i: usize = 0;
    let k: usize = width - have;
    assert(r@ =~= Seq::new(0, |i: int| '0'));
    while i < k
        invariant
            i <= k,
            r@ == Seq::new(i as nat, |i: int| '0'),
        decreases k - i,
    {
        proof {
            reveal_strlit("0");
        }
        r.append("0");
        assert(r@ =~= Seq::new((i + 1) as nat, |i: int| '0'));
        i += 1;
    }
    r.append(digits.as_str());
    r
}

/// Writes a number of seconds since the epoch as a point in time, UTC.
pub fn iso_utc(seconds: u64) -> (r: String)
    ensures
        exists|y: int, m: int, d: int|
            is_date(y, m, d) && day_number(y, m, d) == seconds / 86_400 && r@ == #[trigger] time_text(
                y,
                m,
                d,
                (seconds % 86_400) as int,
            ),
{
    let day: u64 = seconds / 86_400;
    let second: u64 = seconds % 86_400;
    let (y, rest) = year_at(day);
    let (m, d) = month_at(y, rest);
    let mut r = pad(y, 4);
    r.append("-");
    r.append(pad(m, 2).as_str());
    r.append("-");
    r.append(pad(d, 2).as_str());
    r.append("T");
    r.append(pad(second / 3600, 2).as_str());
    r.append(":");
    r.append(pad(second / 60 % 60, 2).as_str());
    r.append(":");
    r.append(pad(second % 60, 2).as_str());
    r.append("Z");
    assert(r@ =~= time_text(y as int, m as int, d as int, second as int));
    r
}

} // verus!
