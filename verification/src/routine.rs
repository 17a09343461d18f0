//! The recurrence scheduler and the routine text grammar.
//!
//! A routine template line embeds a header `{<icon>:<code> <date><www> <mark>} `
//! before its payload: a one-letter kind code, a `YYYY-MM-DD` anchor date,
//! a three-letter weekday hint, and a closing mark. Checking a template out
//! rewrites it as `{<icon>:<kind>} <payload> [<stamp> <date>]`, a dated
//! one-off occurrence.

use vstd::prelude::*;
use crate::cli::Routine;
use crate::date::{
    date_lt, date_lt_ex, date_day_number, day_number, is_digit, month_step, spec_month_step,
    valid_date, Date,
};

verus! {

/// The icon that opens a routine header.
pub open spec fn routine_icon() -> char {
    '\u{f00ef}'
}

/// The mark that closes a routine header.
pub open spec fn routine_mark() -> char {
    '\u{f0cdf}'
}

/// The icon that opens a date annotation.
pub open spec fn datestamp_icon() -> char {
    '\u{f0d39}'
}

/// The one-letter code of each kind.
pub open spec fn routine_code(c: char) -> Option<Routine> {
    if c == 'd' {
        Some(Routine::Daily)
    } else if c == 'w' {
        Some(Routine::Weekly)
    } else if c == 'b' {
        Some(Routine::Biweekly)
    } else if c == 'q' {
        Some(Routine::Qweekly)
    } else if c == 'm' {
        Some(Routine::Monthly)
    } else if c == '1' {
        Some(Routine::Once)
    } else {
        None
    }
}

pub fn routine_code_char(r: Routine) -> (c: char)
    ensures
        routine_code(c) == Some(r),
{
    match r {
        Routine::Daily => 'd',
        Routine::Weekly => 'w',
        Routine::Biweekly => 'b',
        Routine::Qweekly => 'q',
        Routine::Monthly => 'm',
        Routine::Once => '1',
    }
}

/// The spelled-out kind name used in checked-out occurrences; a one-shot
/// routine checks out as a `reminder`.
pub open spec fn kind_name(r: Routine) -> Seq<char> {
    match r {
        Routine::Daily => seq!['d', 'a', 'i', 'l', 'y'],
        Routine::Weekly => seq!['w', 'e', 'e', 'k', 'l', 'y'],
        Routine::Biweekly => seq!['b', 'i', 'w', 'e', 'e', 'k', 'l', 'y'],
        Routine::Qweekly => seq!['q', 'w', 'e', 'e', 'k', 'l', 'y'],
        Routine::Monthly => seq!['m', 'o', 'n', 't', 'h', 'l', 'y'],
        Routine::Once => seq!['r', 'e', 'm', 'i', 'n', 'd', 'e', 'r'],
    }
}

fn kind_name_str(r: Routine) -> (s: &'static str)
    ensures
        s@ == kind_name(r),
{
    proof {
        reveal_strlit("daily");
        reveal_strlit("weekly");
        reveal_strlit("biweekly");
        reveal_strlit("qweekly");
        reveal_strlit("monthly");
        reveal_strlit("reminder");
    }
    let s = match r {
        Routine::Daily => "daily",
        Routine::Weekly => "weekly",
        Routine::Biweekly => "biweekly",
        Routine::Qweekly => "qweekly",
        Routine::Monthly => "monthly",
        Routine::Once => "reminder",
    };
    proof {
        assert(s@ =~= kind_name(r));
    }
    s
}

/// Fixed day step of the uniform kinds.
pub open spec fn step_days(r: Routine) -> int {
    match r {
        Routine::Daily => 1,
        Routine::Weekly => 7,
        Routine::Biweekly => 14,
        Routine::Qweekly => 28,
        _ => 0,
    }
}

pub open spec fn month_index(d: Date) -> int {
    12 * d.year + d.month
}

pub open spec fn fires_monthly_n(anchor: Date, target: Date, fuel: nat) -> bool
    decreases fuel,
{
    if fuel == 0 || !date_lt(anchor, target) {
        anchor == target
    } else {
        fires_monthly_n(spec_month_step(anchor), target, (fuel - 1) as nat)
    }
}

/// Whole months between two dates, one more than the index gap (enough
/// fuel that the stepping below always runs to completion).
pub open spec fn month_gap(anchor: Date, target: Date) -> nat {
    if month_index(target) + 1 - month_index(anchor) >= 0 {
        (month_index(target) + 1 - month_index(anchor)) as nat
    } else {
        0
    }
}

/// Advancing one month at a time from `anchor` while strictly before
/// `target` lands exactly on `target`.
pub open spec fn fires_monthly(anchor: Date, target: Date) -> bool {
    fires_monthly_n(anchor, target, month_gap(anchor, target))
}

/// One month of stepping peels off the spec one unfolding at a time.
proof fn lemma_fires_monthly_step(anchor: Date, target: Date)
    requires
        1 <= anchor.month <= 12,
        1 <= target.month <= 12,
        anchor.year <= 9999,
        target.year <= 9999,
        date_lt(anchor, target),
    ensures
        fires_monthly(anchor, target) == fires_monthly(spec_month_step(anchor), target),
{
    assert(month_index(anchor) <= month_index(target));
    assert(month_index(spec_month_step(anchor)) == month_index(anchor) + 1);
    assert(month_gap(anchor, target) >= 1);
    assert(month_gap(spec_month_step(anchor), target) == month_gap(anchor, target) - 1);
}

/// Whether a routine anchored on `anchor` fires on `target`: the uniform
/// kinds advance by their fixed day step while strictly before the target
/// and fire exactly on it, so after a gap a single catch-up occurrence is
/// recognized, never a burst; `Monthly` advances by whole calendar months;
/// `Once` fires only on its exact anchor date.
pub open spec fn spec_fires(kind: Routine, anchor: Date, target: Date) -> bool {
    match kind {
        Routine::Once => anchor == target,
        Routine::Monthly => fires_monthly(anchor, target),
        _ => {
            let na = day_number(anchor);
            let nt = day_number(target);
            if na >= nt {
                anchor == target
            } else {
                (nt - na) % step_days(kind) == 0
            }
        },
    }
}

/// Decides whether a routine definition fires on a target date.
pub fn fires(kind: Routine, anchor: &Date, target: &Date) -> (r: bool)
    requires
        valid_date(*anchor),
        valid_date(*target),
    ensures
        r == spec_fires(kind, *anchor, *target),
{
    match kind {
        Routine::Once => *anchor == *target,
        Routine::Monthly => {
            let mut cur = *anchor;
            while date_lt_ex(&cur, target)
                invariant
                    valid_date(cur),
                    valid_date(*target),
                    kind == Routine::Monthly,
                    fires_monthly(*anchor, *target) == fires_monthly(cur, *target),
                decreases month_index(*target) + 1 - month_index(cur),
            {
                if cur.year == 9999 && cur.month == 12 {
                    proof {
                        lemma_fires_monthly_step(cur, *target);
                        let nxt = spec_month_step(cur);
                        assert(nxt.year == 10000);
                        assert(!date_lt(nxt, *target));
                        assert(nxt != *target);
                        assert(!fires_monthly_n(nxt, *target, month_gap(nxt, *target)));
                    }
                    return false;
                }
                proof {
                    lemma_fires_monthly_step(cur, *target);
                }
                cur = month_step(&cur);
            }
            proof {
                assert(fires_monthly_n(cur, *target, month_gap(cur, *target)) == (cur == *target));
            }
            cur == *target
        },
        _ => {
            let step: u32 = match kind {
                Routine::Daily => 1,
                Routine::Weekly => 7,
                Routine::Biweekly => 14,
                _ => 28,
            };
            let na = date_day_number(anchor);
            let nt = date_day_number(target);
            if na >= nt {
                *anchor == *target
            } else {
                (nt - na) % step == 0
            }
        },
    }
}

/// ASCII word characters, as the weekday hint is written.
pub open spec fn is_word_char(c: char) -> bool {
    ('a' <= c && c <= 'z') || ('A' <= c && c <= 'Z') || is_digit(c) || c == '_'
}

/// The digit-and-hyphen shape of a `YYYY-MM-DD` field.
pub open spec fn date_shape(s: Seq<char>) -> bool {
    s.len() == 10 && is_digit(s[0]) && is_digit(s[1]) && is_digit(s[2]) && is_digit(s[3])
        && s[4] == '-' && is_digit(s[5]) && is_digit(s[6]) && s[7] == '-' && is_digit(s[8])
        && is_digit(s[9])
}

/// A routine-definition header starting at position `i`:
/// `{<icon>:<code> <date><www> <mark>} ` followed by the payload.
pub open spec fn header_at(s: Seq<char>, i: int) -> bool {
    &&& 0 <= i
    &&& i + 22 <= s.len()
    &&& s[i] == '{'
    &&& s[i + 1] == routine_icon()
    &&& s[i + 2] == ':'
    &&& routine_code(s[i + 3]) is Some
    &&& s[i + 4] == ' '
    &&& date_shape(s.subrange(i + 5, i + 15))
    &&& is_word_char(s[i + 15])
    &&& is_word_char(s[i + 16])
    &&& is_word_char(s[i + 17])
    &&& s[i + 18] == ' '
    &&& s[i + 19] == routine_mark()
    &&& s[i + 20] == '}'
    &&& s[i + 21] == ' '
}

/// The first position where a routine header starts, if any.
pub open spec fn find_header_from(s: Seq<char>, i: int) -> Option<int>
    decreases s.len() - i,
{
    if i < 0 || i >= s.len() {
        None
    } else if header_at(s, i) {
        Some(i)
    } else {
        find_header_from(s, i + 1)
    }
}

pub open spec fn find_header(s: Seq<char>) -> Option<int> {
    find_header_from(s, 0)
}

/// The kind, anchor-date text and payload of an item's first routine
/// header.
pub struct HeaderParts {
    pub kind: Routine,
    pub date_text: String,
    pub payload: String,
}

fn is_digit_ex(c: char) -> (r: bool)
    ensures
        r == is_digit(c),
{
    let v = c as u32;
    48 <= v && v <= 57
}

fn is_word_char_ex(c: char) -> (r: bool)
    ensures
        r == is_word_char(c),
{
    ('a' <= c && c <= 'z') || ('A' <= c && c <= 'Z') || is_digit_ex(c) || c == '_'
}

pub fn routine_code_ex(c: char) -> (r: Option<Routine>)
    ensures
        r == routine_code(c),
{
    if c == 'd' {
        Some(Routine::Daily)
    } else if c == 'w' {
        Some(Routine::Weekly)
    } else if c == 'b' {
        Some(Routine::Biweekly)
    } else if c == 'q' {
        Some(Routine::Qweekly)
    } else if c == 'm' {
        Some(Routine::Monthly)
    } else if c == '1' {
        Some(Routine::Once)
    } else {
        None
    }
}

fn is_header_at(s: &str, n: usize, i: usize) -> (r: bool)
    requires
        n == s@.len(),
        i < n,
    ensures
        r == header_at(s@, i as int),
{
    if n - i < 22 {
        return false;
    }
    let ok = s.get_char(i) == '{' && s.get_char(i + 1) == '\u{f00ef}' && s.get_char(i + 2) == ':'
        && routine_code_ex(s.get_char(i + 3)).is_some() && s.get_char(i + 4) == ' '
        && is_digit_ex(s.get_char(i + 5)) && is_digit_ex(s.get_char(i + 6)) && is_digit_ex(
        s.get_char(i + 7),
    ) && is_digit_ex(s.get_char(i + 8)) && s.get_char(i + 9) == '-' && is_digit_ex(
        s.get_char(i + 10),
    ) && is_digit_ex(s.get_char(i + 11)) && s.get_char(i + 12) == '-' && is_digit_ex(
        s.get_char(i + 13),
    ) && is_digit_ex(s.get_char(i + 14)) && is_word_char_ex(s.get_char(i + 15)) && is_word_char_ex(
        s.get_char(i + 16),
    ) && is_word_char_ex(s.get_char(i + 17)) && s.get_char(i + 18) == ' ' && s.get_char(i + 19)
        == '\u{f0cdf}' && s.get_char(i + 20) == '}' && s.get_char(i + 21) == ' ';
    proof {
        let ds = s@.subrange(i + 5, i + 15);
        assert(ds[0] == s@[i + 5]);
        assert(ds[1] == s@[i + 6]);
        assert(ds[2] == s@[i + 7]);
        assert(ds[3] == s@[i + 8]);
        assert(ds[4] == s@[i + 9]);
        assert(ds[5] == s@[i + 10]);
        assert(ds[6] == s@[i + 11]);
        assert(ds[7] == s@[i + 12]);
        assert(ds[8] == s@[i + 13]);
        assert(ds[9] == s@[i + 14]);
    }
    ok
}

/// Finds an item's first embedded routine header and takes it apart.
pub fn find_routine_header(s: &str) -> (r: Option<HeaderParts>)
    ensures
        r is Some <==> find_header(s@) is Some,
        r is Some ==> {
            let i = find_header(s@)->0;
            &&& r->0.kind == routine_code(s@[i + 3])->0
            &&& r->0.date_text@ == s@.subrange(i + 5, i + 15)
            &&& r->0.payload@ == s@.subrange(i + 22, s@.len() as int)
        },
{
    let n = s.unicode_len();
    let mut i: usize = 0;
    while i < n
        invariant
            i <= n,
            n == s@.len(),
            find_header_from(s@, 0) == find_header_from(s@, i as int),
        decreases n - i,
    {
        if is_header_at(s, n, i) {
            let kind = match routine_code_ex(s.get_char(i + 3)) {
                Some(k) => k,
                None => {
                    proof {
                        assert(false);
                    }
                    Routine::Daily
                },
            };
            let date_text = s.substring_char(i + 5, i + 15).to_owned();
            let payload = s.substring_char(i + 22, n).to_owned();
            return Some(HeaderParts { kind, date_text, payload });
        }
        i = i + 1;
    }
    None
}

/// The marker text of a checked-out occurrence of a kind.
pub open spec fn checkout_marker(r: Routine) -> Seq<char> {
    seq!['{', routine_icon(), ':'] + kind_name(r) + seq!['}', ' ']
}

pub open spec fn begins_with_at(s: Seq<char>, p: Seq<char>, i: int) -> bool {
    0 <= i && i + p.len() <= s.len() && forall|j: int| 0 <= j < p.len() ==> s[i + j] == p[j]
}

/// Whether an item carries a checked-out-occurrence marker anywhere.
pub open spec fn has_checkout_marker(s: Seq<char>) -> bool {
    exists|i: int, k: Routine| begins_with_at(s, checkout_marker(k), i)
}

fn begins_at(s: &str, n: usize, i: usize, p: &str) -> (r: bool)
    requires
        n == s@.len(),
        i <= n,
    ensures
        r == begins_with_at(s@, p@, i as int),
{
    let m = p.unicode_len();
    if n - i < m {
        return false;
    }
    let mut j: usize = 0;
    while j < m
        invariant
            j <= m,
            m == p@.len(),
            n == s@.len(),
            i + m <= n,
            forall|t: int| 0 <= t < j ==> s@[i + t] == p@[t],
        decreases m - j,
    {
        if s.get_char(i + j) != p.get_char(j) {
            return false;
        }
        j = j + 1;
    }
    true
}

/// Tests for a checked-out-occurrence marker anywhere in an item.
pub fn contains_checkout_marker(s: &str) -> (r: bool)
    ensures
        r == has_checkout_marker(s@),
{
    let n = s.unicode_len();
    let mut i: usize = 0;
    while i < n
        invariant
            i <= n,
            n == s@.len(),
            forall|t: int, k: Routine| 0 <= t < i ==> !begins_with_at(s@, checkout_marker(k), t),
        decreases n - i,
    {
        proof {
            reveal_strlit("{\u{f00ef}:daily} ");
            reveal_strlit("{\u{f00ef}:weekly} ");
            reveal_strlit("{\u{f00ef}:biweekly} ");
            reveal_strlit("{\u{f00ef}:qweekly} ");
            reveal_strlit("{\u{f00ef}:monthly} ");
            reveal_strlit("{\u{f00ef}:reminder} ");
            assert(("{\u{f00ef}:daily} ")@ =~= checkout_marker(Routine::Daily));
            assert(("{\u{f00ef}:weekly} ")@ =~= checkout_marker(Routine::Weekly));
            assert(("{\u{f00ef}:biweekly} ")@ =~= checkout_marker(Routine::Biweekly));
            assert(("{\u{f00ef}:qweekly} ")@ =~= checkout_marker(Routine::Qweekly));
            assert(("{\u{f00ef}:monthly} ")@ =~= checkout_marker(Routine::Monthly));
            assert(("{\u{f00ef}:reminder} ")@ =~= checkout_marker(Routine::Once));
        }
        let hit = begins_at(s, n, i, "{\u{f00ef}:daily} ") || begins_at(
            s,
            n,
            i,
            "{\u{f00ef}:weekly} ",
        ) || begins_at(s, n, i, "{\u{f00ef}:biweekly} ") || begins_at(
            s,
            n,
            i,
            "{\u{f00ef}:qweekly} ",
        ) || begins_at(s, n, i, "{\u{f00ef}:monthly} ") || begins_at(
            s,
            n,
            i,
            "{\u{f00ef}:reminder} ",
        );
        if hit {
            return true;
        }
        proof {
            assert forall|k: Routine| !begins_with_at(s@, checkout_marker(k), i as int) by {
                match k {
                    Routine::Daily => assert(!begins_with_at(
                        s@,
                        ("{\u{f00ef}:daily} ")@,
                        i as int,
                    )),
                    Routine::Weekly => assert(!begins_with_at(
                        s@,
                        ("{\u{f00ef}:weekly} ")@,
                        i as int,
                    )),
                    Routine::Biweekly => assert(!begins_with_at(
                        s@,
                        ("{\u{f00ef}:biweekly} ")@,
                        i as int,
                    )),
                    Routine::Qweekly => assert(!begins_with_at(
                        s@,
                        ("{\u{f00ef}:qweekly} ")@,
                        i as int,
                    )),
                    Routine::Monthly => assert(!begins_with_at(
                        s@,
                        ("{\u{f00ef}:monthly} ")@,
                        i as int,
                    )),
                    Routine::Once => assert(!begins_with_at(
                        s@,
                        ("{\u{f00ef}:reminder} ")@,
                        i as int,
                    )),
                }
            }
        }
        i = i + 1;
    }
    proof {
        if has_checkout_marker(s@) {
            let (t, k) = choose|t: int, k: Routine|
                begins_with_at(s@, checkout_marker(k), t);
            match k {
                Routine::Daily => assert(checkout_marker(k).len() == 10),
                Routine::Weekly => assert(checkout_marker(k).len() == 11),
                Routine::Biweekly => assert(checkout_marker(k).len() == 13),
                Routine::Qweekly => assert(checkout_marker(k).len() == 12),
                Routine::Monthly => assert(checkout_marker(k).len() == 12),
                Routine::Once => assert(checkout_marker(k).len() == 13),
            }
            assert(0 <= t < i);
            assert(false);
        }
    }
    false
}

/// A routine definition line: header plus payload, as `add` writes it.
pub open spec fn routine_def_chars(kind: Routine, start: Seq<char>, www: Seq<char>, what: Seq<
    char,
>) -> Seq<char> {
    seq!['{', routine_icon(), ':'] + seq![
        match kind {
            Routine::Daily => 'd',
            Routine::Weekly => 'w',
            Routine::Biweekly => 'b',
            Routine::Qweekly => 'q',
            Routine::Monthly => 'm',
            Routine::Once => '1',
        },
        ' ',
    ] + start + www + seq![' ', routine_mark(), '}', ' '] + what
}

/// Builds the stored text of a routine definition.
pub fn build_routine_def(kind: Routine, start: &str, www: &str, what: &str) -> (r: String)
    ensures
        r@ == routine_def_chars(kind, start@, www@, what@),
{
    proof {
        reveal_strlit("{\u{f00ef}:");
        reveal_strlit(" ");
        reveal_strlit(" \u{f0cdf}} ");
    }
    let mut s = String::new();
    s.append("{\u{f00ef}:");
    let code = routine_code_char(kind);
    let code_s = match kind {
        Routine::Daily => "d",
        Routine::Weekly => "w",
        Routine::Biweekly => "b",
        Routine::Qweekly => "q",
        Routine::Monthly => "m",
        Routine::Once => "1",
    };
    proof {
        reveal_strlit("d");
        reveal_strlit("w");
        reveal_strlit("b");
        reveal_strlit("q");
        reveal_strlit("m");
        reveal_strlit("1");
    }
    s.append(code_s);
    s.append(" ");
    s.append(start);
    s.append(www);
    s.append(" \u{f0cdf}} ");
    s.append(what);
    proof {
        assert(s@ =~= routine_def_chars(kind, start@, www@, what@));
    }
    s
}

/// A checked-out occurrence: spelled-out kind, payload, and the resolved
/// checkout date annotation.
pub open spec fn checkout_chars(kind: Routine, payload: Seq<char>, date: Seq<char>) -> Seq<char> {
    checkout_marker(kind) + payload + seq![' ', '[', datestamp_icon(), ' '] + date + seq![']']
}

/// Builds the text of a checked-out occurrence.
pub fn build_checkout(kind: Routine, payload: &str, date: &str) -> (r: String)
    ensures
        r@ == checkout_chars(kind, payload@, date@),
{
    proof {
        reveal_strlit("{\u{f00ef}:");
        reveal_strlit("} ");
        reveal_strlit(" [\u{f0d39} ");
        reveal_strlit("]");
    }
    let mut s = String::new();
    s.append("{\u{f00ef}:");
    s.append(kind_name_str(kind));
    s.append("} ");
    s.append(payload);
    s.append(" [\u{f0d39} ");
    s.append(date);
    s.append("]");
    proof {
        assert(s@ =~= checkout_chars(kind, payload@, date@));
    }
    s
}

/// A plain date annotation appended to a dated task.
pub open spec fn datestamp_chars(what: Seq<char>, date: Seq<char>) -> Seq<char> {
    what + seq![' ', '[', datestamp_icon(), ' '] + date + seq![']']
}

/// Appends a date annotation to a task text.
pub fn build_datestamp(what: &str, date: &str) -> (r: String)
    ensures
        r@ == datestamp_chars(what@, date@),
{
    proof {
        reveal_strlit(" [\u{f0d39} ");
        reveal_strlit("]");
    }
    let mut s = String::new();
    s.append(what);
    s.append(" [\u{f0d39} ");
    s.append(date);
    s.append("]");
    proof {
        assert(s@ =~= datestamp_chars(what@, date@));
    }
    s
}

} // verus!
