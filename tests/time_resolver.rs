use chrono::Datelike;
use cinema_tui::clock::{
    calculate_date_from_tag, fallback_days, get_offset_from_string, offset_from_clock, weekday_index,
    weekday_label,
};
use cinema_tui::fetch::get_dates_for_week;
use cinema_tui::schedule::absolute_showtime;

const NAMES: [&str; 7] = ["monday", "tuesday", "wednesday", "thursday", "friday", "saturday", "sunday"];

fn day_of(y: i32, m: u32, d: u32) -> i64 {
    chrono::NaiveDate::from_ymd_opt(y, m, d).unwrap().num_days_from_ce() as i64
}

#[test]
fn weekday_index_matches_calendar() {
    // 1 January 2024 was a Monday, 7 January 2024 a Sunday.
    assert_eq!(weekday_index(day_of(2024, 1, 1)), 0);
    assert_eq!(weekday_index(day_of(2024, 1, 7)), 6);
    assert_eq!(weekday_index(day_of(2026, 10, 19)), 0);
    assert_eq!(weekday_index(1), 0);
    assert_eq!(weekday_index(0), 6);
    assert_eq!(weekday_index(-6), 0);
}

#[test]
fn weekday_labels_resolve_to_their_weekday_within_six_days() {
    for today in day_of(2024, 1, 1)..day_of(2024, 1, 15) {
        for (w, name) in NAMES.iter().enumerate() {
            let d = calculate_date_from_tag(name, today);
            assert_eq!(weekday_index(d) as usize, w);
            assert!(d >= today && d <= today + 6);
        }
    }
}

#[test]
fn current_weekday_resolves_to_today() {
    let monday = day_of(2024, 1, 1);
    assert_eq!(calculate_date_from_tag("monday", monday), monday);
    assert_eq!(calculate_date_from_tag("sunday", monday), monday + 6);
    assert_eq!(calculate_date_from_tag("tuesday", monday), monday + 1);
    let friday = day_of(2024, 1, 5);
    assert_eq!(calculate_date_from_tag("monday", friday), friday + 3);
}

#[test]
fn today_and_tomorrow_resolve_directly() {
    for d in [day_of(2024, 2, 29), day_of(1999, 12, 31), 1] {
        assert_eq!(calculate_date_from_tag("today", d), d);
        assert_eq!(calculate_date_from_tag("tomorrow", d), d + 1);
    }
}

#[test]
fn capitalised_weekday_and_unknown_label() {
    let monday = day_of(2024, 1, 1);
    assert_eq!(calculate_date_from_tag("Friday", monday), monday + 4);
    assert_eq!(calculate_date_from_tag("SATURDAY", monday), monday + 5);
    assert_eq!(calculate_date_from_tag("someday", monday), monday);
    assert_eq!(calculate_date_from_tag("", monday), monday);
    assert_eq!(calculate_date_from_tag("Today", monday), monday);
}

#[test]
fn clock_offsets_of_twelve_hour_strings() {
    assert_eq!(get_offset_from_string("7:30 pm"), Some(1170));
    assert_eq!(get_offset_from_string("12:00 am"), Some(0));
    assert_eq!(get_offset_from_string("12:15 pm"), Some(735));
    assert_eq!(get_offset_from_string("11:59 pm"), Some(1439));
    assert_eq!(get_offset_from_string("9:05 AM"), Some(545));
}

#[test]
fn malformed_clock_strings_are_rejected() {
    assert_eq!(get_offset_from_string(""), None);
    assert_eq!(get_offset_from_string("soon"), None);
    assert_eq!(get_offset_from_string("13:00 pm"), None);
    assert_eq!(get_offset_from_string("7:30"), None);
}

#[test]
fn offset_from_clock_formula() {
    assert_eq!(offset_from_clock(0, 0), 0);
    assert_eq!(offset_from_clock(19, 30), 1170);
    assert_eq!(offset_from_clock(23, 59), 1439);
}

#[test]
fn absolute_showtime_keeps_day_and_minute() {
    let t = absolute_showtime(738886, 1170);
    assert_eq!(t.day, 738886);
    assert_eq!(t.minute, 1170);
}

#[test]
fn weekday_label_names() {
    for (w, name) in NAMES.iter().enumerate() {
        assert_eq!(weekday_label(w as u32), *name);
    }
}

#[test]
fn fallback_week_from_a_monday() {
    let monday = day_of(2024, 1, 1);
    let days = fallback_days(monday);
    let labels: Vec<&str> = days.iter().map(|d| d.1.as_str()).collect();
    assert_eq!(labels, vec!["today", "tomorrow", "wednesday", "thursday", "friday", "saturday", "sunday"]);
    for (k, d) in days.iter().enumerate() {
        assert_eq!(d.0, monday + k as i64);
    }
}

#[test]
fn dates_for_week_use_discovered_labels_or_fall_back() {
    let monday = day_of(2024, 1, 1);
    let found = get_dates_for_week(Some(vec!["friday".to_string(), "today".to_string()]), monday);
    assert_eq!(found, vec![(monday + 4, "friday".to_string()), (monday, "today".to_string())]);
    assert_eq!(get_dates_for_week(None, monday), fallback_days(monday));
    assert!(get_dates_for_week(Some(Vec::new()), monday).is_empty());
}
