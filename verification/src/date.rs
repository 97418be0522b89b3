//! Calendar dates, read and written through `chrono`.
use vstd::prelude::*;

verus! {

/// Whether `year` is a leap year of the proleptic Gregorian calendar.
pub open spec fn is_leap(year: int) -> bool {
    year % 4 == 0 && (year % 100 != 0 || year % 400 == 0)
}

/// The number of days of `month` in `year`.
pub open spec fn days_in_month(year: int, month: int) -> int {
    if month == 2 {
        if is_leap(year) {
            29
        } else {
            28
        }
    } else if month == 4 || month == 6 || month == 9 || month == 11 {
        30
    } else {
        31
    }
}

/// A calendar date that `chrono::NaiveDate` can represent: a year from
/// -262143 to 262142, a month from 1 to 12 and a day of that month.
pub open spec fn valid_ymd(year: i32, month: u32, day: u32) -> bool {
    &&& -262143 <= year <= 262142
    &&& 1 <= month <= 12
    &&& 1 <= day <= days_in_month(year as int, month as int)
}

/// The decimal digit of `d`, for `0 <= d < 10`.
pub open spec fn digit(d: nat) -> char {
    if d == 0 {
        '0'
    } else if d == 1 {
        '1'
    } else if d == 2 {
        '2'
    } else if d == 3 {
        '3'
    } else if d == 4 {
        '4'
    } else if d == 5 {
        '5'
    } else if d == 6 {
        '6'
    } else if d == 7 {
        '7'
    } else if d == 8 {
        '8'
    } else {
        '9'
    }
}

/// The decimal notation of `n`, without leading zeros.
pub open spec fn decimal(n: nat) -> Seq<char>
    decreases n,
{
    if n < 10 {
        seq![digit(n)]
    } else {
        decimal(n / 10).push(digit(n % 10))
    }
}

/// `s` with zeros in front, to a length of at least `w`.
pub open spec fn zero_pad(s: Seq<char>, w: nat) -> Seq<char> {
    if s.len() < w {
        Seq::new((w - s.len()) as nat, |i: int| '0') + s
    } else {
        s
    }
}

/// How `%Y` writes a year: four digits for years 0 to 9999, otherwise a sign
/// followed by at least four digits.
pub open spec fn year_text(year: int) -> Seq<char> {
    if 0 <= year <= 9999 {
        zero_pad(decimal(year as nat), 4)
    } else if year < 0 {
        seq!['-'] + zero_pad(decimal((-year) as nat), 4)
    } else {
        seq!['+'] + zero_pad(decimal(year as nat), 4)
    }
}

/// A date written as `%Y-%m-%d`: the year, then the month and the day in two digits.
pub open spec fn date_text(year: i32, month: u32, day: u32) -> Seq<char> {
    year_text(year as int) + seq!['-'] + zero_pad(decimal(month as nat), 2) + seq!['-']
        + zero_pad(decimal(day as nat), 2)
}

/// What `chrono::NaiveDate::parse_from_str(s, fmt)` gives, as year, month and
/// day, or `None` when it gives an error.
pub uninterp spec fn chrono_parse_date(s: Seq<char>, fmt: Seq<char>) -> Option<(i32, u32, u32)>;

/// Parses `s` in the format `fmt` with `chrono::NaiveDate::parse_from_str`
/// and gives the year, month and day of the date. The contract names the
/// result and states one fact of every `NaiveDate`: it is a valid date within
/// chrono's range of years.
#[verifier::external_body]
pub(crate) fn parse_date(s: &str, fmt: &str) -> (res: Option<(i32, u32, u32)>)
    ensures
        res == chrono_parse_date(s@, fmt@),
        res matches Some((y, m, d)) ==> valid_ymd(y, m, d),
{
    match chrono::NaiveDate::parse_from_str(s, fmt) {
        Ok(d) => Some(
            (chrono::Datelike::year(&d), chrono::Datelike::month(&d), chrono::Datelike::day(&d)),
        ),
        Err(_) => None,
    }
}

/// Writes the valid date `year-month-day` with `chrono::NaiveDate::format`
/// and the format `%Y-%m-%d`, which the contract states as chrono documents
/// it: `%Y` is the year zero-padded to four digits, with a sign outside 0 to
/// 9999, and `%m` and `%d` are zero-padded to two digits.
#[verifier::external_body]
pub(crate) fn format_date(year: i32, month: u32, day: u32, fmt: &str) -> (res: String)
    requires
        valid_ymd(year, month, day),
        fmt@ == "%Y-%m-%d"@,
    ensures
        res@ == date_text(year, month, day),
{
    chrono::NaiveDate::from_ymd_opt(year, month, day).unwrap().format(fmt).to_string()
}

/// A calendar date.
#[derive(Debug, PartialEq, Eq, Clone, Copy)]
pub struct Date {
    year: i32,
    month: u32,
    day: u32,
}

impl Date {
    #[verifier::type_invariant]
    spec fn inv(self) -> bool {
        valid_ymd(self.year, self.month, self.day)
    }

    /// The year, month and day.
    pub closed spec fn ymd(self) -> (i32, u32, u32) {
        (self.year, self.month, self.day)
    }

    /// 1 January 1970.
    pub fn epoch() -> (d: Date)
        ensures
            d.ymd() == (1970i32, 1u32, 1u32),
    {
        Date { year: 1970, month: 1, day: 1 }
    }

    /// The date that `chrono` reads from `s` in the format `fmt`, if any.
    pub fn parse(s: &str, fmt: &str) -> (res: Option<Date>)
        ensures
            match res {
                Some(d) => chrono_parse_date(s@, fmt@) == Some(d.ymd()),
                None => chrono_parse_date(s@, fmt@) is None,
            },
    {
        match parse_date(s, fmt) {
            Some((year, month, day)) => Some(Date { year, month, day }),
            None => None,
        }
    }

    /// The year.
    pub fn year(&self) -> (y: i32)
        ensures
            y == self.ymd().0,
    {
        self.year
    }

    /// The month, from 1 to 12.
    pub fn month(&self) -> (m: u32)
        ensures
            m == self.ymd().1,
    {
        self.month
    }

    /// The day of the month.
    pub fn day(&self) -> (d: u32)
        ensures
            d == self.ymd().2,
    {
        self.day
    }

    /// The date as `%Y-%m-%d`.
    pub fn iso_text(&self) -> (res: String)
        ensures
            res@ == date_text(self.ymd().0, self.ymd().1, self.ymd().2),
    {
        proof {
            use_type_invariant(self);
        }
        format_date(self.year, self.month, self.day, "%Y-%m-%d")
    }
}

} // verus!
