//! The current date, and everything derived from it: the `today` /
//! `tomorrow` / `yesterday` box names, alias resolution in both
//! directions, and recurrence matching against a relative day name.

use vstd::prelude::*;
use crate::cli::Routine;
use crate::codec::str_eq;
use crate::date::{
    date_chars, format_date, next_day, parse_date, parse_date_chars, prev_day,
    spec_days_in_month, spec_next_day, spec_prev_day, valid_date, weekday_chars, format_weekday,
    Date,
};
use crate::routine::{fires, routine_code, routine_code_ex, spec_fires};

verus! {

/// Relies on chrono: `Local::now().date_naive()` is the current local
/// calendar date, and `Datelike` hands out its real year, month and day,
/// so the day fits its month.
#[verifier::external_body]
fn now_ymd() -> (r: (i32, u32, u32))
    ensures
        1 <= r.1 <= 12,
        1 <= r.2 <= spec_days_in_month(r.0 as int, r.1 as int),
{
    let now = chrono::Local::now().date_naive();
    (chrono::Datelike::year(&now), chrono::Datelike::month(&now), chrono::Datelike::day(&now))
}

/// The current local date, clamped into the library's year range.
pub fn today_date() -> (d: Date)
    ensures
        valid_date(d),
{
    let (y, m, day) = now_ymd();
    if y < 1 {
        Date { year: 1, month: 1, day: 1 }
    } else if y > 9999 {
        Date { year: 9999, month: 12, day: 31 }
    } else {
        Date { year: y as u32, month: m, day }
    }
}

/// The day after, staying put at the end of the supported range.
pub open spec fn tomorrow_of(d: Date) -> Date {
    if d.year == 9999 && d.month == 12 && d.day == 31 {
        d
    } else {
        spec_next_day(d)
    }
}

/// The day before, staying put at the start of the supported range.
pub open spec fn yesterday_of(d: Date) -> Date {
    if d.year == 1 && d.month == 1 && d.day == 1 {
        d
    } else {
        spec_prev_day(d)
    }
}

pub fn tomorrow_date(d: &Date) -> (r: Date)
    requires
        valid_date(*d),
    ensures
        r == tomorrow_of(*d),
        valid_date(r),
{
    if d.year == 9999 && d.month == 12 && d.day == 31 {
        *d
    } else {
        next_day(d)
    }
}

pub fn yesterday_date(d: &Date) -> (r: Date)
    requires
        valid_date(*d),
    ensures
        r == yesterday_of(*d),
        valid_date(r),
{
    if d.year == 1 && d.month == 1 && d.day == 1 {
        *d
    } else {
        prev_day(d)
    }
}

/// The current date as `YYYY-MM-DD`.
pub fn get_today() -> (s: String)
    ensures
        exists|d: Date| valid_date(d) && s@ == date_chars(d),
{
    let d = today_date();
    format_date(&d)
}

/// Tomorrow's date as `YYYY-MM-DD`.
pub fn get_tomorrow() -> (s: String)
    ensures
        exists|d: Date| valid_date(d) && s@ == date_chars(d),
{
    let d = tomorrow_date(&today_date());
    format_date(&d)
}

/// Yesterday's date as `YYYY-MM-DD`.
pub fn get_yesterday() -> (s: String)
    ensures
        exists|d: Date| valid_date(d) && s@ == date_chars(d),
{
    let d = yesterday_date(&today_date());
    format_date(&d)
}

/// The weekday name of a `YYYY-MM-DD` date text; empty text gives an
/// empty name.
pub fn weekday_from_date(date_str: &str) -> (r: String)
    requires
        date_str@.len() == 0 || parse_date_chars(date_str@) is Some,
    ensures
        date_str@.len() == 0 ==> r@ == Seq::<char>::empty(),
        date_str@.len() > 0 ==> r@ == weekday_chars(parse_date_chars(date_str@)->0),
{
    if date_str.unicode_len() == 0 {
        return String::new();
    }
    let d = match parse_date(date_str) {
        Some(d) => d,
        None => {
            proof {
                assert(false);
            }
            Date { year: 1, month: 1, day: 1 }
        },
    };
    format_weekday(&d)
}

/// What a box name means relative to a given date: the date's own name
/// aliases to `today`, its neighbours to `tomorrow` and `yesterday`, and
/// any other name stands for itself.
pub open spec fn alias_chars(name: Seq<char>, today: Date) -> Seq<char> {
    if name == date_chars(today) {
        seq!['t', 'o', 'd', 'a', 'y']
    } else if name == date_chars(tomorrow_of(today)) {
        seq!['t', 'o', 'm', 'o', 'r', 'r', 'o', 'w']
    } else if name == date_chars(yesterday_of(today)) {
        seq!['y', 'e', 's', 't', 'e', 'r', 'd', 'a', 'y']
    } else {
        name
    }
}

/// Resolves a box name to its alias relative to a given date.
pub fn alias_for(name: &str, today: &Date) -> (r: String)
    requires
        valid_date(*today),
    ensures
        r@ == alias_chars(name@, *today),
{
    proof {
        reveal_strlit("today");
        reveal_strlit("tomorrow");
        reveal_strlit("yesterday");
    }
    let today_s = format_date(today);
    let tomorrow_s = format_date(&tomorrow_date(today));
    let yesterday_s = format_date(&yesterday_date(today));
    let r = if str_eq(name, today_s.as_str()) {
        "today".to_owned()
    } else if str_eq(name, tomorrow_s.as_str()) {
        "tomorrow".to_owned()
    } else if str_eq(name, yesterday_s.as_str()) {
        "yesterday".to_owned()
    } else {
        name.to_owned()
    };
    proof {
        assert(("today")@ =~= seq!['t', 'o', 'd', 'a', 'y']);
        assert(("tomorrow")@ =~= seq!['t', 'o', 'm', 'o', 'r', 'r', 'o', 'w']);
        assert(("yesterday")@ =~= seq!['y', 'e', 's', 't', 'e', 'r', 'd', 'a', 'y']);
    }
    r
}

/// Resolves a box name against the current date: dated boxes for today,
/// tomorrow and yesterday answer to their relative names.
pub fn get_box_alias(name_in: &str) -> (r: String)
    ensures
        exists|d: Date| valid_date(d) && r@ == alias_chars(name_in@, d),
{
    let d = today_date();
    let r = alias_for(name_in, &d);
    proof {
        assert(valid_date(d) && r@ == alias_chars(name_in@, d));
    }
    r
}

/// What an alias stands for relative to a given date: the relative day
/// names become dated names, `inbox` and `routine`/`routines` become the
/// reserved box names, and anything else stands for itself.
pub open spec fn unalias_chars(alias: Seq<char>, today: Date) -> Seq<char> {
    if alias == seq!['t', 'o', 'd', 'a', 'y'] {
        date_chars(today)
    } else if alias == seq!['y', 'e', 's', 't', 'e', 'r', 'd', 'a', 'y'] {
        date_chars(yesterday_of(today))
    } else if alias == seq!['t', 'o', 'm', 'o', 'r', 'r', 'o', 'w'] {
        date_chars(tomorrow_of(today))
    } else if alias == seq!['i', 'n', 'b', 'o', 'x'] {
        seq!['I', 'N', 'B', 'O', 'X']
    } else if alias == seq!['r', 'o', 'u', 't', 'i', 'n', 'e'] || alias == seq![
        'r',
        'o',
        'u',
        't',
        'i',
        'n',
        'e',
        's',
    ] {
        seq!['R', 'O', 'U', 'T', 'I', 'N', 'E', 'S']
    } else {
        alias
    }
}

/// Expands an alias to the real box name relative to a given date.
pub fn unalias_for(alias: &str, today: &Date) -> (r: String)
    requires
        valid_date(*today),
    ensures
        r@ == unalias_chars(alias@, *today),
{
    proof {
        reveal_strlit("today");
        reveal_strlit("tomorrow");
        reveal_strlit("yesterday");
        reveal_strlit("inbox");
        reveal_strlit("routine");
        reveal_strlit("routines");
        reveal_strlit("INBOX");
        reveal_strlit("ROUTINES");
    }
    let r = if str_eq(alias, "today") {
        format_date(today)
    } else if str_eq(alias, "yesterday") {
        format_date(&yesterday_date(today))
    } else if str_eq(alias, "tomorrow") {
        format_date(&tomorrow_date(today))
    } else if str_eq(alias, "inbox") {
        "INBOX".to_owned()
    } else if str_eq(alias, "routine") || str_eq(alias, "routines") {
        "ROUTINES".to_owned()
    } else {
        alias.to_owned()
    };
    proof {
        assert(("today")@ =~= seq!['t', 'o', 'd', 'a', 'y']);
        assert(("tomorrow")@ =~= seq!['t', 'o', 'm', 'o', 'r', 'r', 'o', 'w']);
        assert(("yesterday")@ =~= seq!['y', 'e', 's', 't', 'e', 'r', 'd', 'a', 'y']);
        assert(("inbox")@ =~= seq!['i', 'n', 'b', 'o', 'x']);
        assert(("routine")@ =~= seq!['r', 'o', 'u', 't', 'i', 'n', 'e']);
        assert(("routines")@ =~= seq!['r', 'o', 'u', 't', 'i', 'n', 'e', 's']);
        assert(("INBOX")@ =~= seq!['I', 'N', 'B', 'O', 'X']);
        assert(("ROUTINES")@ =~= seq!['R', 'O', 'U', 'T', 'I', 'N', 'E', 'S']);
    }
    r
}

/// Expands an alias against the current date.
pub fn get_box_unalias(alias: &str) -> (r: String)
    ensures
        exists|d: Date| valid_date(d) && r@ == unalias_chars(alias@, d),
{
    let d = today_date();
    let r = unalias_for(alias, &d);
    proof {
        assert(valid_date(d) && r@ == unalias_chars(alias@, d));
    }
    r
}

/// One of the three relative day names.
pub open spec fn is_rel_name(name: Seq<char>) -> bool {
    name == seq!['t', 'o', 'd', 'a', 'y'] || name == seq![
        'y',
        'e',
        's',
        't',
        'e',
        'r',
        'd',
        'a',
        'y',
    ] || name == seq!['t', 'o', 'm', 'o', 'r', 'r', 'o', 'w']
}

/// What a relative day name denotes on a given date.
pub open spec fn resolve_rel(name: Seq<char>, today: Date) -> Option<Date> {
    if name == seq!['t', 'o', 'd', 'a', 'y'] {
        Some(today)
    } else if name == seq!['y', 'e', 's', 't', 'e', 'r', 'd', 'a', 'y'] {
        Some(yesterday_of(today))
    } else if name == seq!['t', 'o', 'm', 'o', 'r', 'r', 'o', 'w'] {
        Some(tomorrow_of(today))
    } else {
        None
    }
}

/// Decides whether a routine of the coded kind, anchored on the given
/// date text, fires on the day the relative name denotes right now.
pub fn match_routine(kind: &str, s_date_str: &str, match_to: &str) -> (r: bool)
    requires
        kind@.len() == 1 && routine_code(kind@[0]) is Some,
        parse_date_chars(s_date_str@) is Some,
        is_rel_name(match_to@),
    ensures
        exists|d: Date|
            valid_date(d) && r == spec_fires(
                routine_code(kind@[0])->0,
                parse_date_chars(s_date_str@)->0,
                resolve_rel(match_to@, d)->0,
            ),
{
    proof {
        reveal_strlit("today");
        reveal_strlit("tomorrow");
        reveal_strlit("yesterday");
    }
    let today = today_date();
    let anchor = match parse_date(s_date_str) {
        Some(d) => d,
        None => {
            proof {
                assert(false);
            }
            Date { year: 1, month: 1, day: 1 }
        },
    };
    let target = if str_eq(match_to, "today") {
        today
    } else if str_eq(match_to, "yesterday") {
        yesterday_date(&today)
    } else {
        proof {
            assert(("today")@ =~= seq!['t', 'o', 'd', 'a', 'y']);
            assert(("tomorrow")@ =~= seq!['t', 'o', 'm', 'o', 'r', 'r', 'o', 'w']);
            assert(("yesterday")@ =~= seq!['y', 'e', 's', 't', 'e', 'r', 'd', 'a', 'y']);
            assert(match_to@ == seq!['t', 'o', 'm', 'o', 'r', 'r', 'o', 'w']);
        }
        tomorrow_date(&today)
    };
    let kind_char = kind.get_char(0);
    let kv = match routine_code_ex(kind_char) {
        Some(k) => k,
        None => {
            proof {
                assert(false);
            }
            Routine::Daily
        },
    };
    let r = fires(kv, &anchor, &target);
    proof {
        assert(valid_date(today));
        assert(resolve_rel(match_to@, today)->0 == target);
    }
    r
}

} // verus!
