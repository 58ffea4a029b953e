//! Calendar dates (proleptic Gregorian, date only) and the date arithmetic the
//! schedules rely on. Month arithmetic and text rendering are delegated to chrono.

use vstd::prelude::*;
use chrono::Datelike;

verus! {

/// Earliest year chrono's `NaiveDate` can hold.
pub const MIN_YEAR: i32 = -262143;

/// Latest year chrono's `NaiveDate` can hold.
pub const MAX_YEAR: i32 = 262142;

pub open spec fn is_leap_year(y: int) -> bool {
    y % 4 == 0 && (y % 100 != 0 || y % 400 == 0)
}

pub open spec fn days_in_month(y: int, m: int) -> int {
    if m == 2 {
        if is_leap_year(y) { 29 } else { 28 }
    } else if m == 4 || m == 6 || m == 9 || m == 11 {
        30
    } else {
        31
    }
}

/// A (year, month, day) triple that names a real day inside chrono's range.
pub open spec fn valid_ymd(y: int, m: int, d: int) -> bool {
    &&& MIN_YEAR <= y <= MAX_YEAR
    &&& 1 <= m <= 12
    &&& 1 <= d <= days_in_month(y, m)
}

/// A calendar date without time zone.
#[derive(Clone, Copy, Debug, PartialEq, Eq, Structural, PartialOrd, Ord, Hash)]
pub struct Date {
    pub year: i32,
    pub month: u32,
    pub day: u32,
}

impl Date {
    pub open spec fn wf(self) -> bool {
        valid_ymd(self.year as int, self.month as int, self.day as int)
    }

    /// Months since year 0, January.
    pub open spec fn month_index(self) -> int {
        self.year * 12 + self.month - 1
    }

    /// A number that orders dates chronologically (months hold at most 31 days,
    /// years at most 12 months).
    pub open spec fn ord_key(self) -> int {
        self.year * 416 + self.month * 32 + self.day
    }
}

pub open spec fn date_le(a: Date, b: Date) -> bool {
    a.ord_key() <= b.ord_key()
}

pub open spec fn date_lt(a: Date, b: Date) -> bool {
    a.ord_key() < b.ord_key()
}

/// For well-formed dates the key order is the lexicographic (year, month, day) order,
/// and equal keys mean equal dates.
pub proof fn lemma_ord_key_lexicographic(a: Date, b: Date)
    requires
        a.wf(),
        b.wf(),
    ensures
        date_lt(a, b) <==> (a.year < b.year || (a.year == b.year && (a.month < b.month || (
        a.month == b.month && a.day < b.day)))),
        a.ord_key() == b.ord_key() <==> a == b,
        a.month_index() < b.month_index() ==> date_lt(a, b),
{
}

/// `a <= b` in calendar order.
pub fn date_leq(a: Date, b: Date) -> (r: bool)
    requires
        a.wf(),
        b.wf(),
    ensures
        r == date_le(a, b),
{
    proof {
        lemma_ord_key_lexicographic(a, b);
    }
    if a.year != b.year {
        a.year < b.year
    } else if a.month != b.month {
        a.month < b.month
    } else {
        a.day <= b.day
    }
}

/// `a < b` in calendar order.
pub fn date_less(a: Date, b: Date) -> (r: bool)
    requires
        a.wf(),
        b.wf(),
    ensures
        r == date_lt(a, b),
{
    !date_leq(b, a)
}

pub open spec fn min_int(a: int, b: int) -> int {
    if a <= b { a } else { b }
}

/// What chrono's `NaiveDate::checked_add_months` yields: the same day `n` months later,
/// clamped to the last day of the target month, or nothing when the result leaves the
/// representable range.
pub open spec fn add_months_spec(d: Date, n: nat) -> Option<Date> {
    let total = d.month_index() + n;
    if n == 0 {
        Some(d)
    } else if n > i32::MAX || total > i32::MAX {
        None
    } else {
        let ny = total / 12;
        let nm = total % 12 + 1;
        if MIN_YEAR <= ny <= MAX_YEAR {
            Some(
                Date {
                    year: ny as i32,
                    month: nm as u32,
                    day: min_int(d.day as int, days_in_month(ny, nm)) as u32,
                },
            )
        } else {
            None
        }
    }
}

/// Calls chrono's `NaiveDate::from_ymd_opt`. Claimed: a date comes back exactly when
/// the triple names a real day of the proleptic Gregorian calendar inside chrono's
/// year range, and it carries the given fields.
#[verifier::external_body]
pub(crate) fn from_ymd_opt(year: i32, month: u32, day: u32) -> (res: Option<Date>)
    ensures
        res is Some <==> valid_ymd(year as int, month as int, day as int),
        res matches Some(d) ==> d.year == year && d.month == month && d.day == day,
{
    match chrono::NaiveDate::from_ymd_opt(year, month, day) {
        Some(d) => Some(Date { year: d.year(), month: d.month(), day: d.day() }),
        None => None,
    }
}

/// Calls chrono's `NaiveDate::checked_add_months`. Claimed (chrono's documentation and
/// source): the day is clamped to the length of the target month, and `None` comes back
/// when the result is out of range.
#[verifier::external_body]
pub(crate) fn checked_add_months(date: Date, months: u32) -> (res: Option<Date>)
    requires
        date.wf(),
    ensures
        res == add_months_spec(date, months as nat),
{
    let d = chrono::NaiveDate::from_ymd_opt(date.year, date.month, date.day).unwrap();
    match d.checked_add_months(chrono::Months::new(months)) {
        Some(r) => Some(Date { year: r.year(), month: r.month(), day: r.day() }),
        None => None,
    }
}

/// The day before `date`, or `None` before chrono's first representable day.
pub open spec fn pred_spec(d: Date) -> Option<Date> {
    if d.day > 1 {
        Some(Date { year: d.year, month: d.month, day: (d.day - 1) as u32 })
    } else if d.month > 1 {
        Some(
            Date {
                year: d.year,
                month: (d.month - 1) as u32,
                day: days_in_month(d.year as int, d.month - 1) as u32,
            },
        )
    } else if d.year > MIN_YEAR {
        Some(Date { year: (d.year - 1) as i32, month: 12, day: 31 })
    } else {
        None
    }
}

/// Calls chrono's `NaiveDate::pred_opt`. Claimed: the previous calendar day, or `None`
/// for the first representable day.
#[verifier::external_body]
pub(crate) fn pred_opt(date: Date) -> (res: Option<Date>)
    requires
        date.wf(),
    ensures
        res == pred_spec(date),
{
    let d = chrono::NaiveDate::from_ymd_opt(date.year, date.month, date.day).unwrap();
    match d.pred_opt() {
        Some(r) => Some(Date { year: r.year(), month: r.month(), day: r.day() }),
        None => None,
    }
}

pub open spec fn digit_char(n: int) -> char {
    ('0' as int + n) as char
}

/// Decimal digits of `n`, most significant first, no leading zeros.
pub open spec fn decimal_digits(n: nat) -> Seq<char>
    decreases n,
{
    if n < 10 {
        seq![digit_char(n as int)]
    } else {
        decimal_digits(n / 10).push(digit_char((n % 10) as int))
    }
}

/// `s` padded on the left with `'0'` up to `width` characters.
pub open spec fn zero_pad(s: Seq<char>, width: nat) -> Seq<char> {
    if s.len() >= width {
        s
    } else {
        Seq::new((width - s.len()) as nat, |i: int| '0') + s
    }
}

/// Year as chrono writes it: four digits for years 0 to 9999, else an explicit sign
/// followed by at least four digits.
pub open spec fn year_text(y: int) -> Seq<char> {
    if 0 <= y <= 9999 {
        zero_pad(decimal_digits(y as nat), 4)
    } else if y < 0 {
        seq!['-'] + zero_pad(decimal_digits((-y) as nat), 4)
    } else {
        seq!['+'] + zero_pad(decimal_digits(y as nat), 4)
    }
}

/// ISO 8601 `YYYY-MM-DD` text of a date.
pub open spec fn date_text(d: Date) -> Seq<char> {
    year_text(d.year as int) + seq!['-'] + zero_pad(decimal_digits(d.month as nat), 2) + seq!['-']
        + zero_pad(decimal_digits(d.day as nat), 2)
}

/// Calls `to_string` on chrono's `NaiveDate` (its `Display`). Claimed (chrono's source):
/// the `%Y-%m-%d` text, with an explicit sign on years outside 0..=9999.
#[verifier::external_body]
pub(crate) fn date_to_string(date: Date) -> (res: String)
    requires
        date.wf(),
    ensures
        res@ == date_text(date),
{
    chrono::NaiveDate::from_ymd_opt(date.year, date.month, date.day).unwrap().to_string()
}

/// Whether the fields name a real calendar day in the supported range.
pub fn is_valid_date(d: Date) -> (r: bool)
    ensures
        r == d.wf(),
{
    from_ymd_opt(d.year, d.month, d.day).is_some()
}

/// The `YYYY-MM-DD` text of a date, or `None` when the fields name no calendar day.
pub fn iso_date_text(d: Date) -> (r: Option<String>)
    ensures
        r is Some <==> d.wf(),
        r matches Some(s) ==> s@ == date_text(d),
{
    match from_ymd_opt(d.year, d.month, d.day) {
        Some(_) => Some(date_to_string(d)),
        None => None,
    }
}

/// The date chrono's `NaiveDate::parse_from_str(s, "%Y-%m-%d")` reads from `s`, if any.
pub uninterp spec fn iso_date_parse(s: Seq<char>) -> Option<Date>;

/// Calls chrono's `NaiveDate::parse_from_str` with the `%Y-%m-%d` format. Claimed: the
/// outcome depends on the text alone, and a parsed date is a real calendar date in
/// chrono's range; which texts parse is left to chrono.
#[verifier::external_body]
pub(crate) fn parse_iso_date(s: &str) -> (r: Option<Date>)
    ensures
        r == iso_date_parse(s@),
        r matches Some(d) ==> d.wf(),
{
    match chrono::NaiveDate::parse_from_str(s, "%Y-%m-%d") {
        Ok(d) => Some(Date { year: d.year(), month: d.month(), day: d.day() }),
        Err(_) => None,
    }
}

} // verus!
