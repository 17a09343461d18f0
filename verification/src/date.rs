//! Calendar dates as plain values: validity, ordering, day numbering,
//! single-day and whole-month stepping, and the `YYYY-MM-DD` text form.

use vstd::prelude::*;

verus! {

/// A calendar date in the proleptic Gregorian calendar.
#[derive(Clone, Copy, Debug, PartialEq, Eq, Structural)]
pub struct Date {
    pub year: u32,
    pub month: u32,
    pub day: u32,
}

pub open spec fn is_leap_year(y: int) -> bool {
    y % 4 == 0 && (y % 100 != 0 || y % 400 == 0)
}

pub open spec fn spec_days_in_month(y: int, m: int) -> int {
    if m == 2 {
        if is_leap_year(y) {
            29
        } else {
            28
        }
    } else if m == 4 || m == 6 || m == 9 || m == 11 {
        30
    } else {
        31
    }
}

/// Days of the year strictly before month `m` begins.
pub open spec fn spec_days_before_month(y: int, m: int) -> int {
    let feb: int = if is_leap_year(y) {
        29
    } else {
        28
    };
    if m == 1 {
        0
    } else if m == 2 {
        31
    } else if m == 3 {
        31 + feb
    } else if m == 4 {
        62 + feb
    } else if m == 5 {
        92 + feb
    } else if m == 6 {
        123 + feb
    } else if m == 7 {
        153 + feb
    } else if m == 8 {
        184 + feb
    } else if m == 9 {
        215 + feb
    } else if m == 10 {
        245 + feb
    } else if m == 11 {
        276 + feb
    } else {
        306 + feb
    }
}

/// Dates the library works with: years 1 through 9999, month and day in range.
pub open spec fn valid_date(d: Date) -> bool {
    1 <= d.year <= 9999 && 1 <= d.month <= 12 && 1 <= d.day <= spec_days_in_month(
        d.year as int,
        d.month as int,
    )
}

/// Leap years in `1..=n`.
pub open spec fn leap_count(n: int) -> int {
    n / 4 - n / 100 + n / 400
}

/// Days elapsed since 0001-01-01 (which is day 0).
pub open spec fn day_number(d: Date) -> int {
    365 * (d.year - 1) + leap_count(d.year - 1) + spec_days_before_month(
        d.year as int,
        d.month as int,
    ) + d.day - 1
}

/// Strict calendar order (year, then month, then day).
pub open spec fn date_lt(a: Date, b: Date) -> bool {
    a.year < b.year || (a.year == b.year && (a.month < b.month || (a.month == b.month
        && a.day < b.day)))
}

pub fn days_in_month(y: u32, m: u32) -> (r: u32)
    requires
        1 <= m <= 12,
    ensures
        r == spec_days_in_month(y as int, m as int),
{
    if m == 2 {
        if (y % 4 == 0 && y % 100 != 0) || y % 400 == 0 {
            29
        } else {
            28
        }
    } else if m == 4 || m == 6 || m == 9 || m == 11 {
        30
    } else {
        31
    }
}

pub fn date_is_valid(d: &Date) -> (r: bool)
    ensures
        r == valid_date(*d),
{
    1 <= d.year && d.year <= 9999 && 1 <= d.month && d.month <= 12 && 1 <= d.day && d.day
        <= days_in_month(d.year, d.month)
}

pub fn date_day_number(d: &Date) -> (r: u32)
    requires
        valid_date(*d),
    ensures
        r == day_number(*d),
{
    let y = d.year - 1;
    let leaps = y / 4 - y / 100 + y / 400;
    let before = days_before_month(d.year, d.month);
    365 * y + leaps + before + d.day - 1
}

fn days_before_month(y: u32, m: u32) -> (r: u32)
    requires
        1 <= m <= 12,
    ensures
        r == spec_days_before_month(y as int, m as int),
{
    let feb: u32 = if (y % 4 == 0 && y % 100 != 0) || y % 400 == 0 {
        29
    } else {
        28
    };
    if m == 1 {
        0
    } else if m == 2 {
        31
    } else if m == 3 {
        31 + feb
    } else if m == 4 {
        62 + feb
    } else if m == 5 {
        92 + feb
    } else if m == 6 {
        123 + feb
    } else if m == 7 {
        153 + feb
    } else if m == 8 {
        184 + feb
    } else if m == 9 {
        215 + feb
    } else if m == 10 {
        245 + feb
    } else if m == 11 {
        276 + feb
    } else {
        306 + feb
    }
}

pub fn date_lt_ex(a: &Date, b: &Date) -> (r: bool)
    ensures
        r == date_lt(*a, *b),
{
    a.year < b.year || (a.year == b.year && (a.month < b.month || (a.month == b.month
        && a.day < b.day)))
}

/// The date one day later.
pub open spec fn spec_next_day(d: Date) -> Date {
    if d.day < spec_days_in_month(d.year as int, d.month as int) {
        Date { year: d.year, month: d.month, day: (d.day + 1) as u32 }
    } else if d.month < 12 {
        Date { year: d.year, month: (d.month + 1) as u32, day: 1 }
    } else {
        Date { year: (d.year + 1) as u32, month: 1, day: 1 }
    }
}

pub fn next_day(d: &Date) -> (r: Date)
    requires
        valid_date(*d),
        !(d.year == 9999 && d.month == 12 && d.day == 31),
    ensures
        r == spec_next_day(*d),
        valid_date(r),
{
    if d.day < days_in_month(d.year, d.month) {
        Date { year: d.year, month: d.month, day: d.day + 1 }
    } else if d.month < 12 {
        Date { year: d.year, month: d.month + 1, day: 1 }
    } else {
        Date { year: d.year + 1, month: 1, day: 1 }
    }
}

/// The date one day earlier.
pub open spec fn spec_prev_day(d: Date) -> Date {
    if d.day > 1 {
        Date { year: d.year, month: d.month, day: (d.day - 1) as u32 }
    } else if d.month > 1 {
        Date {
            year: d.year,
            month: (d.month - 1) as u32,
            day: spec_days_in_month(d.year as int, d.month - 1) as u32,
        }
    } else {
        Date { year: (d.year - 1) as u32, month: 12, day: 31 }
    }
}

pub fn prev_day(d: &Date) -> (r: Date)
    requires
        valid_date(*d),
        !(d.year == 1 && d.month == 1 && d.day == 1),
    ensures
        r == spec_prev_day(*d),
        valid_date(r),
{
    if d.day > 1 {
        Date { year: d.year, month: d.month, day: d.day - 1 }
    } else if d.month > 1 {
        Date { year: d.year, month: d.month - 1, day: days_in_month(d.year, d.month - 1) }
    } else {
        Date { year: d.year - 1, month: 12, day: 31 }
    }
}

/// The date one calendar month later, with the day clamped to the end of the
/// new month (so the 31st steps to the 28th, 29th or 30th where needed).
pub open spec fn spec_month_step(d: Date) -> Date {
    let y2: int = if d.month == 12 {
        d.year + 1
    } else {
        d.year as int
    };
    let m2: int = if d.month == 12 {
        1
    } else {
        d.month + 1
    };
    let dim = spec_days_in_month(y2, m2);
    let d2: int = if d.day <= dim {
        d.day as int
    } else {
        dim
    };
    Date { year: y2 as u32, month: m2 as u32, day: d2 as u32 }
}

pub fn month_step(d: &Date) -> (r: Date)
    requires
        valid_date(*d),
        !(d.year == 9999 && d.month == 12),
    ensures
        r == spec_month_step(*d),
        valid_date(r),
{
    let y2 = if d.month == 12 {
        d.year + 1
    } else {
        d.year
    };
    let m2 = if d.month == 12 {
        1
    } else {
        d.month + 1
    };
    let dim = days_in_month(y2, m2);
    let d2 = if d.day <= dim {
        d.day
    } else {
        dim
    };
    Date { year: y2, month: m2, day: d2 }
}

pub open spec fn is_digit(c: char) -> bool {
    48 <= c as u32 <= 57
}

pub open spec fn digit_val(c: char) -> int {
    c as u32 - 48
}

pub open spec fn digit_char(n: int) -> char {
    if n == 0 {
        '0'
    } else if n == 1 {
        '1'
    } else if n == 2 {
        '2'
    } else if n == 3 {
        '3'
    } else if n == 4 {
        '4'
    } else if n == 5 {
        '5'
    } else if n == 6 {
        '6'
    } else if n == 7 {
        '7'
    } else if n == 8 {
        '8'
    } else {
        '9'
    }
}

/// The ten-character `YYYY-MM-DD` form of a date.
pub open spec fn date_chars(d: Date) -> Seq<char> {
    seq![
        digit_char(d.year as int / 1000 % 10),
        digit_char(d.year as int / 100 % 10),
        digit_char(d.year as int / 10 % 10),
        digit_char(d.year as int % 10),
        '-',
        digit_char(d.month as int / 10 % 10),
        digit_char(d.month as int % 10),
        '-',
        digit_char(d.day as int / 10 % 10),
        digit_char(d.day as int % 10),
    ]
}

fn digit_str(n: u32) -> (r: &'static str)
    requires
        n < 10,
    ensures
        r@ =~= seq![digit_char(n as int)],
{
    proof {
        reveal_strlit("0");
        reveal_strlit("1");
        reveal_strlit("2");
        reveal_strlit("3");
        reveal_strlit("4");
        reveal_strlit("5");
        reveal_strlit("6");
        reveal_strlit("7");
        reveal_strlit("8");
        reveal_strlit("9");
    }
    if n == 0 {
        "0"
    } else if n == 1 {
        "1"
    } else if n == 2 {
        "2"
    } else if n == 3 {
        "3"
    } else if n == 4 {
        "4"
    } else if n == 5 {
        "5"
    } else if n == 6 {
        "6"
    } else if n == 7 {
        "7"
    } else if n == 8 {
        "8"
    } else {
        "9"
    }
}

/// Renders a date as `YYYY-MM-DD`.
pub fn format_date(d: &Date) -> (r: String)
    requires
        valid_date(*d),
    ensures
        r@ == date_chars(*d),
{
    proof {
        reveal_strlit("-");
    }
    let mut s = String::new();
    s.append(digit_str(d.year / 1000 % 10));
    s.append(digit_str(d.year / 100 % 10));
    s.append(digit_str(d.year / 10 % 10));
    s.append(digit_str(d.year % 10));
    s.append("-");
    s.append(digit_str(d.month / 10 % 10));
    s.append(digit_str(d.month % 10));
    s.append("-");
    s.append(digit_str(d.day / 10 % 10));
    s.append(digit_str(d.day % 10));
    proof {
        assert(s@ =~= date_chars(*d));
    }
    s
}

/// What a ten-character `YYYY-MM-DD` sequence denotes, if well formed and a
/// real calendar date.
pub open spec fn parse_date_chars(s: Seq<char>) -> Option<Date> {
    if s.len() == 10 && is_digit(s[0]) && is_digit(s[1]) && is_digit(s[2]) && is_digit(s[3])
        && s[4] == '-' && is_digit(s[5]) && is_digit(s[6]) && s[7] == '-' && is_digit(s[8])
        && is_digit(s[9]) {
        let y = 1000 * digit_val(s[0]) + 100 * digit_val(s[1]) + 10 * digit_val(s[2]) + digit_val(
            s[3],
        );
        let m = 10 * digit_val(s[5]) + digit_val(s[6]);
        let d = digit_val(s[9]) + 10 * digit_val(s[8]);
        let date = Date { year: y as u32, month: m as u32, day: d as u32 };
        if valid_date(date) {
            Some(date)
        } else {
            None
        }
    } else {
        None
    }
}

fn char_digit(c: char) -> (r: Option<u32>)
    ensures
        r is Some <==> is_digit(c),
        r is Some ==> r->0 == digit_val(c),
{
    let v = c as u32;
    if 48 <= v && v <= 57 {
        Some(v - 48)
    } else {
        None
    }
}

/// Parses `YYYY-MM-DD`, rejecting anything not a real calendar date.
pub fn parse_date(s: &str) -> (r: Option<Date>)
    ensures
        r == parse_date_chars(s@),
{
    let n = s.unicode_len();
    if n != 10 {
        return None;
    }
    let c0 = char_digit(s.get_char(0));
    let c1 = char_digit(s.get_char(1));
    let c2 = char_digit(s.get_char(2));
    let c3 = char_digit(s.get_char(3));
    let c5 = char_digit(s.get_char(5));
    let c6 = char_digit(s.get_char(6));
    let c8 = char_digit(s.get_char(8));
    let c9 = char_digit(s.get_char(9));
    if s.get_char(4) != '-' || s.get_char(7) != '-' {
        return None;
    }
    match (c0, c1, c2, c3, c5, c6, c8, c9) {
        (
            Some(y0),
            Some(y1),
            Some(y2),
            Some(y3),
            Some(m0),
            Some(m1),
            Some(d0),
            Some(d1),
        ) => {
            let date = Date {
                year: 1000 * y0 + 100 * y1 + 10 * y2 + y3,
                month: 10 * m0 + m1,
                day: 10 * d0 + d1,
            };
            if date_is_valid(&date) {
                Some(date)
            } else {
                None
            }
        },
        _ => None,
    }
}

/// Whether a digit-and-hyphen `YYYY-MM-DD` shape occurs anywhere in the
/// text (the shape alone, not calendar validity): how dated box names
/// are told apart from ordinary ones.
pub open spec fn has_date_shape_at(s: Seq<char>, i: int) -> bool {
    &&& 0 <= i
    &&& i + 10 <= s.len()
    &&& is_digit(s[i]) && is_digit(s[i + 1]) && is_digit(s[i + 2]) && is_digit(s[i + 3])
    &&& s[i + 4] == '-'
    &&& is_digit(s[i + 5]) && is_digit(s[i + 6])
    &&& s[i + 7] == '-'
    &&& is_digit(s[i + 8]) && is_digit(s[i + 9])
}

fn digit_at(s: &str, n: usize, k: usize) -> (r: bool)
    requires
        n == s@.len(),
        k < n,
    ensures
        r == is_digit(s@[k as int]),
{
    let v = s.get_char(k) as u32;
    48 <= v && v <= 57
}

/// Tests for an embedded `YYYY-MM-DD` shape.
pub fn contains_date_shape(s: &str) -> (r: bool)
    ensures
        r == exists|i: int| has_date_shape_at(s@, i),
{
    let n = s.unicode_len();
    if n < 10 {
        proof {
            assert(forall|i: int| !has_date_shape_at(s@, i));
        }
        return false;
    }
    let mut i: usize = 0;
    while i <= n - 10
        invariant
            10 <= n,
            i <= n - 10 + 1,
            n == s@.len(),
            forall|j: int| 0 <= j < i ==> !has_date_shape_at(s@, j),
        decreases n - i,
    {
        let hit = digit_at(s, n, i) && digit_at(s, n, i + 1) && digit_at(s, n, i + 2)
            && digit_at(s, n, i + 3) && s.get_char(i + 4) == '-' && digit_at(s, n, i + 5)
            && digit_at(s, n, i + 6) && s.get_char(i + 7) == '-' && digit_at(s, n, i + 8)
            && digit_at(s, n, i + 9);
        if hit {
            proof {
                assert(has_date_shape_at(s@, i as int));
            }
            return true;
        }
        proof {
            assert(!has_date_shape_at(s@, i as int));
        }
        i = i + 1;
    }
    proof {
        assert(forall|j: int| j >= i ==> !has_date_shape_at(s@, j));
    }
    false
}

/// The three-letter weekday name of a date, `Mon` through `Sun`
/// (0001-01-01 of the proleptic Gregorian calendar is a Monday).
pub open spec fn weekday_chars(d: Date) -> Seq<char> {
    let w = day_number(d) % 7;
    if w == 0 {
        seq!['M', 'o', 'n']
    } else if w == 1 {
        seq!['T', 'u', 'e']
    } else if w == 2 {
        seq!['W', 'e', 'd']
    } else if w == 3 {
        seq!['T', 'h', 'u']
    } else if w == 4 {
        seq!['F', 'r', 'i']
    } else if w == 5 {
        seq!['S', 'a', 't']
    } else {
        seq!['S', 'u', 'n']
    }
}

/// Renders the weekday name of a date.
pub fn format_weekday(d: &Date) -> (r: String)
    requires
        valid_date(*d),
    ensures
        r@ == weekday_chars(*d),
{
    proof {
        reveal_strlit("Mon");
        reveal_strlit("Tue");
        reveal_strlit("Wed");
        reveal_strlit("Thu");
        reveal_strlit("Fri");
        reveal_strlit("Sat");
        reveal_strlit("Sun");
    }
    let w = date_day_number(d) % 7;
    let name = if w == 0 {
        "Mon"
    } else if w == 1 {
        "Tue"
    } else if w == 2 {
        "Wed"
    } else if w == 3 {
        "Thu"
    } else if w == 4 {
        "Fri"
    } else if w == 5 {
        "Sat"
    } else {
        "Sun"
    };
    let mut s = String::new();
    s.append(name);
    proof {
        assert(s@ =~= weekday_chars(*d));
    }
    s
}

} // verus!
