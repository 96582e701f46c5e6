use chrono::{Duration, Local};
use daily_note::date::{add_days, date_index, from_index, is_leap, month_len, year_len, Date};
use daily_note::note::{
    date_string_for, get_date_string, make_config, note_path, plan_note_content, render_template,
};
use daily_note::render::format_date;

fn d(year: i64, month: u8, day: u8) -> Date {
    Date::new(year, month, day).unwrap()
}

#[test]
fn test_get_date_string_works() {
    let today = Local::now().date_naive();
    let plus_one = today + Duration::days(1);
    let minus_one = today - Duration::days(1);

    assert_eq!(
        get_date_string(0).unwrap(),
        today.format("%Y-%m-%d").to_string()
    );
    assert_eq!(
        get_date_string(1).unwrap(),
        plus_one.format("%Y-%m-%d").to_string()
    );
    assert_eq!(
        get_date_string(-1).unwrap(),
        minus_one.format("%Y-%m-%d").to_string()
    );
}

#[test]
fn date_new_accepts_exactly_real_dates() {
    assert!(Date::new(0, 1, 1).is_none());
    assert!(Date::new(10000, 1, 1).is_none());
    assert!(Date::new(2025, 0, 1).is_none());
    assert!(Date::new(2025, 13, 1).is_none());
    assert!(Date::new(2025, 1, 0).is_none());
    assert!(Date::new(2025, 2, 29).is_none());
    assert!(Date::new(2024, 2, 29).is_some());
    assert!(Date::new(2025, 4, 31).is_none());
    assert!(Date::new(1, 1, 1).is_some());
    assert!(Date::new(9999, 12, 31).is_some());
}

#[test]
fn leap_year_rule() {
    assert!(is_leap(2024));
    assert!(!is_leap(2023));
    assert!(!is_leap(1900));
    assert!(is_leap(2000));
    assert_eq!(month_len(2024, 2), 29);
    assert_eq!(month_len(2023, 2), 28);
    assert_eq!(month_len(2025, 4), 30);
    assert_eq!(month_len(2025, 12), 31);
    assert_eq!(year_len(2024), 366);
    assert_eq!(year_len(2023), 365);
}

#[test]
fn day_index_round_trips() {
    assert_eq!(date_index(&d(1, 1, 1)), 0);
    assert_eq!(from_index(0), d(1, 1, 1));
    assert_eq!(date_index(&d(1, 12, 31)), 364);
    assert_eq!(from_index(365), d(2, 1, 1));
    assert_eq!(from_index(date_index(&d(2025, 6, 15))), d(2025, 6, 15));
    assert_eq!(from_index(date_index(&d(9999, 12, 31))), d(9999, 12, 31));
}

#[test]
fn add_days_crosses_year_boundaries() {
    let base = d(2025, 1, 1);
    assert_eq!(add_days(&base, -1), Some(d(2024, 12, 31)));
    assert_eq!(add_days(&base, 0), Some(d(2025, 1, 1)));
    assert_eq!(add_days(&base, 1), Some(d(2025, 1, 2)));
    assert_eq!(add_days(&d(2024, 12, 31), 1), Some(d(2025, 1, 1)));
}

#[test]
fn add_days_handles_leap_days() {
    assert_eq!(add_days(&d(2024, 2, 28), 1), Some(d(2024, 2, 29)));
    assert_eq!(add_days(&d(2023, 2, 28), 1), Some(d(2023, 3, 1)));
    assert_eq!(add_days(&d(1900, 2, 28), 1), Some(d(1900, 3, 1)));
    assert_eq!(add_days(&d(2000, 2, 28), 1), Some(d(2000, 2, 29)));
    assert_eq!(add_days(&d(2024, 3, 1), -1), Some(d(2024, 2, 29)));
}

#[test]
fn add_days_rejects_out_of_range_results() {
    assert_eq!(add_days(&d(9999, 12, 31), 1), None);
    assert_eq!(add_days(&d(1, 1, 1), -1), None);
    assert_eq!(add_days(&d(2025, 1, 1), i64::MAX), None);
    assert_eq!(add_days(&d(2025, 1, 1), i64::MIN), None);
}

#[test]
fn add_days_composes() {
    let base = d(2025, 1, 1);
    let forward = add_days(&base, 37).unwrap();
    let back = add_days(&forward, -98).unwrap();
    assert_eq!(back, add_days(&base, -61).unwrap());
    let round_trip = add_days(&add_days(&base, 400).unwrap(), -400).unwrap();
    assert_eq!(round_trip, base);
}

#[test]
fn format_date_zero_pads() {
    assert_eq!(format_date(&d(7, 3, 4)), "0007-03-04");
    assert_eq!(format_date(&d(982, 11, 30)), "0982-11-30");
    assert_eq!(format_date(&d(2025, 12, 31)), "2025-12-31");
}

#[test]
fn date_string_for_concrete_dates() {
    let base = d(2025, 1, 1);
    assert_eq!(date_string_for(&base, 0).unwrap(), "2025-01-01");
    assert_eq!(date_string_for(&base, -1).unwrap(), "2024-12-31");
    assert_eq!(date_string_for(&base, 1).unwrap(), "2025-01-02");
    assert!(date_string_for(&d(9999, 12, 31), 1).is_none());
    assert!(date_string_for(&d(1, 1, 1), -1).is_none());
}

#[test]
fn template_is_exact() {
    let t = render_template("2025-01-01", "2024-12-31", "2025-01-02");
    assert_eq!(
        t,
        "# 2025-01-01\n\n[[2024-12-31]] - [[2025-01-02]]\n\n## Tracker\n  - [ ] \n\n## Log\n\n"
    );
}

#[test]
fn template_sections_come_in_order() {
    let t = render_template("2025-01-01", "2024-12-31", "2025-01-02");
    let heading = t.find("# 2025-01-01").unwrap();
    let links = t.find("[[2024-12-31]] - [[2025-01-02]]").unwrap();
    let tracker = t.find("## Tracker").unwrap();
    let log = t.find("## Log").unwrap();
    assert!(heading < links);
    assert!(links < tracker);
    assert!(tracker < log);
}

#[test]
fn note_path_is_exact() {
    assert_eq!(
        note_path("/home/someone/notes", "2025-01-01"),
        "/home/someone/notes/periodic-notes/daily-notes/2025-01-01.md"
    );
}

#[test]
fn plan_note_content_writes_only_when_absent() {
    let first = plan_note_content(false, "2025-01-01", "2024-12-31", "2025-01-02");
    assert_eq!(
        first.unwrap(),
        render_template("2025-01-01", "2024-12-31", "2025-01-02")
    );
    let second = plan_note_content(true, "2025-01-01", "2024-12-31", "2025-01-02");
    assert!(second.is_none());
}

#[test]
fn make_config_requires_base_dir() {
    assert!(make_config(None, None).is_none());
    assert!(make_config(None, Some("vi".to_string())).is_none());
}

#[test]
fn make_config_defaults_the_editor() {
    let c = make_config(Some("/notes".to_string()), None).unwrap();
    assert_eq!(c.base_dir, "/notes");
    assert_eq!(c.editor, "nvim");
    let c = make_config(Some("/notes".to_string()), Some("vi".to_string())).unwrap();
    assert_eq!(c.editor, "vi");
}

#[test]
fn get_date_string_is_ten_characters() {
    let s = get_date_string(0).unwrap();
    assert_eq!(s.len(), 10);
    assert_eq!(s.as_bytes()[4], b'-');
    assert_eq!(s.as_bytes()[7], b'-');
}
