use todor::cli::Routine;
use todor::clock::{
    get_box_alias, get_box_unalias, get_today, get_tomorrow, get_yesterday, match_routine,
    weekday_from_date,
};
use todor::date::{format_date, parse_date, Date};
use todor::routine::fires;

#[test]
fn test_aliases() {
    assert_eq!(get_box_alias(&get_today()), "today");
    assert_eq!(get_box_alias(&get_yesterday()), "yesterday");
    assert_eq!(get_box_alias(&get_tomorrow()), "tomorrow");
    assert_eq!(get_box_alias("dummy"), "dummy");
    assert_eq!(get_box_alias(""), "");
}

#[test]
fn test_unaliases() {
    assert_eq!(get_box_unalias("today"), get_today());
    assert_eq!(get_box_unalias("yesterday"), get_yesterday());
    assert_eq!(get_box_unalias("tomorrow"), get_tomorrow());
    assert_eq!(get_box_unalias("dummy"), "dummy".to_string());
}

#[test]
fn test_reserved_unaliases() {
    assert_eq!(get_box_unalias("inbox"), "INBOX");
    assert_eq!(get_box_unalias("routine"), "ROUTINES");
    assert_eq!(get_box_unalias("routines"), "ROUTINES");
}

#[test]
fn test_weekday_from_date() {
    assert_eq!(weekday_from_date(""), "");
    assert_eq!(weekday_from_date("2024-10-01"), "Tue");
    assert_eq!(weekday_from_date("2024-10-06"), "Sun");
    assert_eq!(weekday_from_date("2000-01-01"), "Sat");
}

#[test]
fn test_parse_and_format_date() {
    let d = parse_date("2024-02-29").expect("leap day parses");
    assert_eq!((d.year, d.month, d.day), (2024, 2, 29));
    assert_eq!(format_date(&d), "2024-02-29");
    assert!(parse_date("2023-02-29").is_none());
    assert!(parse_date("2024-13-01").is_none());
    assert!(parse_date("2024-00-10").is_none());
    assert!(parse_date("2024-1-1").is_none());
    assert!(parse_date("20241001").is_none());
}

#[test]
fn test_fires_day_step_kinds() {
    let d = |y: u32, m: u32, day: u32| Date { year: y, month: m, day };
    let anchor = d(2024, 10, 1);
    // Daily fires every day from the anchor on, including after a gap:
    // exactly one catch-up occurrence, on the queried day itself.
    assert!(fires(Routine::Daily, &anchor, &d(2024, 10, 1)));
    assert!(fires(Routine::Daily, &anchor, &d(2024, 10, 6)));
    assert!(!fires(Routine::Daily, &anchor, &d(2024, 9, 30)));
    // Weekly fires on the same weekday only.
    assert!(fires(Routine::Weekly, &anchor, &d(2024, 10, 8)));
    assert!(!fires(Routine::Weekly, &anchor, &d(2024, 10, 9)));
    // Biweekly and qweekly keep their longer strides.
    assert!(fires(Routine::Biweekly, &anchor, &d(2024, 10, 15)));
    assert!(!fires(Routine::Biweekly, &anchor, &d(2024, 10, 8)));
    assert!(fires(Routine::Qweekly, &anchor, &d(2024, 10, 29)));
    assert!(!fires(Routine::Qweekly, &anchor, &d(2024, 10, 15)));
}

#[test]
fn test_fires_monthly_clamps_to_month_end() {
    let d = |y: u32, m: u32, day: u32| Date { year: y, month: m, day };
    let anchor = d(2024, 1, 31);
    // The 31st steps to Feb 29 in a leap year, and stays clamped after.
    assert!(fires(Routine::Monthly, &anchor, &d(2024, 2, 29)));
    assert!(fires(Routine::Monthly, &anchor, &d(2024, 3, 29)));
    assert!(!fires(Routine::Monthly, &anchor, &d(2024, 3, 31)));
    let plain = d(2024, 5, 15);
    assert!(fires(Routine::Monthly, &plain, &d(2024, 8, 15)));
    assert!(!fires(Routine::Monthly, &plain, &d(2024, 8, 14)));
}

#[test]
fn test_fires_once_exact_only() {
    let d = |y: u32, m: u32, day: u32| Date { year: y, month: m, day };
    let anchor = d(2024, 10, 6);
    assert!(fires(Routine::Once, &anchor, &d(2024, 10, 6)));
    assert!(!fires(Routine::Once, &anchor, &d(2024, 10, 7)));
    assert!(!fires(Routine::Once, &anchor, &d(2024, 10, 5)));
}

#[test]
fn test_match_routine_against_today() {
    // A daily routine anchored well in the past fires today, whichever
    // day today is.
    assert!(match_routine("d", "2020-01-01", "today"));
}
