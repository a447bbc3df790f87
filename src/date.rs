//! Dates: a `DD.MM.YYYY` source date becomes a `YYYY/MM/DD` output date.

use chrono::Datelike;
use vstd::prelude::*;
use crate::amount::{is_digit, digit_value, digit_char};

verus! {

/// A calendar date held as plain numbers.
#[derive(Debug, Clone, Copy, PartialEq, Eq, Structural)]
pub struct Date {
    pub year: i32,
    pub month: u32,
    pub day: u32,
}

pub open spec fn is_leap_year(y: int) -> bool {
    (y % 4 == 0 && y % 100 != 0) || y % 400 == 0
}

pub open spec fn days_in_month(y: int, m: int) -> int {
    if m == 2 {
        if is_leap_year(y) {
            29
        } else {
            28
        }
    } else if m == 4 || m == 6 || m == 9 || m == 11 {
        30
    } else {
        31
    }
}

/// A day that exists in the proleptic Gregorian calendar.
pub open spec fn valid_date(y: int, m: int, d: int) -> bool {
    1 <= m <= 12 && 1 <= d <= days_in_month(y, m)
}

impl Date {
    pub open spec fn wf(&self) -> bool {
        valid_date(self.year as int, self.month as int, self.day as int)
    }
}

/// `s` has the shape `DD.MM.YYYY`: ten characters, digits but for the two dots.
pub open spec fn dmy_shaped(s: Seq<char>) -> bool {
    &&& s.len() == 10
    &&& s[2] == '.' && s[5] == '.'
    &&& is_digit(s[0]) && is_digit(s[1]) && is_digit(s[3]) && is_digit(s[4])
    &&& is_digit(s[6]) && is_digit(s[7]) && is_digit(s[8]) && is_digit(s[9])
}

pub open spec fn day_of(s: Seq<char>) -> int {
    digit_value(s[0]) * 10 + digit_value(s[1])
}

pub open spec fn month_of(s: Seq<char>) -> int {
    digit_value(s[3]) * 10 + digit_value(s[4])
}

pub open spec fn year_of(s: Seq<char>) -> int {
    digit_value(s[6]) * 1000 + digit_value(s[7]) * 100 + digit_value(s[8]) * 10 + digit_value(
        s[9],
    )
}

pub open spec fn two_digits(n: int) -> Seq<char> {
    seq![digit_char(n / 10), digit_char(n % 10)]
}

pub open spec fn four_digits(n: int) -> Seq<char> {
    seq![digit_char(n / 1000), digit_char((n / 100) % 10), digit_char((n / 10) % 10), digit_char(n % 10)]
}

/// A date written `YYYY/MM/DD`.
pub open spec fn ymd_text(y: int, m: int, d: int) -> Seq<char> {
    four_digits(y) + seq!['/'] + two_digits(m) + seq!['/'] + two_digits(d)
}

/// The output date for a source date string: the same day written
/// `YYYY/MM/DD` when the string is a `DD.MM.YYYY` date that exists, else
/// empty.
pub open spec fn date_text(s: Seq<char>) -> Seq<char> {
    if dmy_shaped(s) && valid_date(year_of(s), month_of(s), day_of(s)) {
        ymd_text(year_of(s), month_of(s), day_of(s))
    } else {
        seq![]
    }
}

/// Relies on chrono's `NaiveDate::parse_from_str` with the pattern
/// `%d.%m.%Y`: on a `DD.MM.YYYY` string it yields that day when it exists and
/// fails when it does not; whatever it yields is a date that exists.
#[verifier::external_body]
fn parse_day_month_year(s: &str) -> (r: Option<Date>)
    ensures
        r is Some ==> r->0.wf(),
        dmy_shaped(s@) ==> (r is Some <==> valid_date(year_of(s@), month_of(s@), day_of(s@))),
        dmy_shaped(s@) && r is Some ==> r->0.year == year_of(s@) && r->0.month == month_of(s@)
            && r->0.day == day_of(s@),
{
    chrono::NaiveDate::parse_from_str(s, "%d.%m.%Y").ok().map(
        |d| Date { year: d.year(), month: d.month(), day: d.day() },
    )
}

/// Relies on chrono's `NaiveDate::format` with the pattern `%Y/%m/%d`: the
/// year zero-padded to four digits, month and day to two.
#[verifier::external_body]
fn format_year_month_day(d: &Date) -> (r: String)
    requires
        d.wf(),
        0 <= d.year <= 9999,
    ensures
        r@ == ymd_text(d.year as int, d.month as int, d.day as int),
{
    chrono::NaiveDate::from_ymd_opt(d.year, d.month, d.day).map(
        |n| n.format("%Y/%m/%d").to_string(),
    ).unwrap_or_default()
}

/// Converts a `DD.MM.YYYY` date to `YYYY/MM/DD`; any other string, or a day
/// that does not exist, gives an empty string.
pub fn convert_dt_format(input: &str) -> (r: String)
    ensures
        r@ == date_text(input@),
{
    if input.unicode_len() != 10 {
        return String::new();
    }
    let mut i: usize = 0;
    while i < 10
        invariant
            input@.len() == 10,
            i <= 10,
            forall|k: int| 0 <= k < i && k != 2 && k != 5 ==> is_digit(#[trigger] input@[k]),
            forall|k: int| 0 <= k < i && (k == 2 || k == 5) ==> #[trigger] input@[k] == '.',
        decreases 10 - i,
    {
        let c = input.get_char(i);
        if i == 2 || i == 5 {
            if c != '.' {
                return String::new();
            }
        } else if !('0' <= c && c <= '9') {
            return String::new();
        }
        i = i + 1;
    }
    assert(dmy_shaped(input@)) by {
        assert(is_digit(input@[0]) && is_digit(input@[1]) && is_digit(input@[3]));
        assert(is_digit(input@[4]) && is_digit(input@[6]) && is_digit(input@[7]));
        assert(is_digit(input@[8]) && is_digit(input@[9]));
        assert(input@[2] == '.' && input@[5] == '.');
    }
    match parse_day_month_year(input) {
        Some(d) => format_year_month_day(&d),
        None => String::new(),
    }
}

/// A `DD.MM.YYYY` date that exists becomes the same day, month and year,
/// written `YYYY/MM/DD`; a string of any other shape becomes empty.
pub proof fn lemma_date_conversion(s: Seq<char>)
    ensures
        dmy_shaped(s) && valid_date(year_of(s), month_of(s), day_of(s)) ==> date_text(s) == seq![
            s[6],
            s[7],
            s[8],
            s[9],
            '/',
            s[3],
            s[4],
            '/',
            s[0],
            s[1],
        ],
        !dmy_shaped(s) ==> date_text(s) == Seq::<char>::empty(),
{
    if dmy_shaped(s) && valid_date(year_of(s), month_of(s), day_of(s)) {
        let (a, b, c, d) = (digit_value(s[6]), digit_value(s[7]), digit_value(s[8]), digit_value(s[9]));
        let y = year_of(s);
        assert(y / 1000 == a && (y / 100) % 10 == b && (y / 10) % 10 == c && y % 10 == d) by (nonlinear_arith)
            requires
                0 <= a <= 9, 0 <= b <= 9, 0 <= c <= 9, 0 <= d <= 9,
                y == a * 1000 + b * 100 + c * 10 + d,
        ;
        let (e, f) = (digit_value(s[3]), digit_value(s[4]));
        assert(month_of(s) / 10 == e && month_of(s) % 10 == f) by (nonlinear_arith)
            requires 0 <= e <= 9, 0 <= f <= 9, month_of(s) == e * 10 + f,
        ;
        let (g, h) = (digit_value(s[0]), digit_value(s[1]));
        assert(day_of(s) / 10 == g && day_of(s) % 10 == h) by (nonlinear_arith)
            requires 0 <= g <= 9, 0 <= h <= 9, day_of(s) == g * 10 + h,
        ;
        assert(date_text(s) =~= seq![s[6], s[7], s[8], s[9], '/', s[3], s[4], '/', s[0], s[1]]);
    }
}

} // verus!
