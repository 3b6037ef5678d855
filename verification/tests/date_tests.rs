use daybook::date::{date_le, date_lt, days_in_month, format_date, is_leap_year, parse_date, Date};

fn d(year: u32, month: u32, day: u32) -> Date {
    Date { year, month, day }
}

#[test]
fn parses_a_plain_date() {
    assert_eq!(parse_date("2026-03-01"), Some(d(2026, 3, 1)));
    assert_eq!(parse_date("0000-01-01"), Some(d(0, 1, 1)));
    assert_eq!(parse_date("9999-12-31"), Some(d(9999, 12, 31)));
}

#[test]
fn rejects_malformed_text() {
    assert_eq!(parse_date(""), None);
    assert_eq!(parse_date("2026-3-1"), None);
    assert_eq!(parse_date("03/01/2026"), None);
    assert_eq!(parse_date("2026-03-01x"), None);
    assert_eq!(parse_date("10000-01-01"), None);
    assert_eq!(parse_date("2026 03 01"), None);
    assert_eq!(parse_date("-026-03-01"), None);
    assert_eq!(parse_date("2026-03-0a"), None);
}

#[test]
fn rejects_impossible_days() {
    assert_eq!(parse_date("2026-00-01"), None);
    assert_eq!(parse_date("2026-13-01"), None);
    assert_eq!(parse_date("2026-01-00"), None);
    assert_eq!(parse_date("2026-01-32"), None);
    assert_eq!(parse_date("2026-04-31"), None);
    assert_eq!(parse_date("2026-02-29"), None);
    assert_eq!(parse_date("2024-02-30"), None);
}

#[test]
fn leap_year_rule() {
    assert!(is_leap_year(2000));
    assert!(is_leap_year(2024));
    assert!(!is_leap_year(1900));
    assert!(!is_leap_year(2026));
    assert_eq!(parse_date("2024-02-29"), Some(d(2024, 2, 29)));
    assert_eq!(parse_date("2000-02-29"), Some(d(2000, 2, 29)));
    assert_eq!(parse_date("1900-02-29"), None);
}

#[test]
fn month_lengths() {
    assert_eq!(days_in_month(2026, 1), 31);
    assert_eq!(days_in_month(2026, 2), 28);
    assert_eq!(days_in_month(2024, 2), 29);
    assert_eq!(days_in_month(2026, 4), 30);
    assert_eq!(days_in_month(2026, 12), 31);
}

#[test]
fn formats_back_to_the_wire_form() {
    assert_eq!(format_date(&d(2026, 3, 1)), "2026-03-01");
    assert_eq!(format_date(&d(0, 1, 1)), "0000-01-01");
    assert_eq!(format_date(&d(9999, 12, 31)), "9999-12-31");
}

#[test]
fn parse_format_round_trip() {
    let samples = ["2026-03-01", "2024-02-29", "0001-01-01", "9999-12-31", "1970-06-15"];
    for s in samples {
        let date = parse_date(s).unwrap();
        assert_eq!(format_date(&date), s);
        assert_eq!(parse_date(&format_date(&date)), Some(date));
    }
}

#[test]
fn ordering_is_chronological() {
    assert!(date_lt(&d(2026, 2, 28), &d(2026, 3, 1)));
    assert!(date_lt(&d(2025, 12, 31), &d(2026, 1, 1)));
    assert!(date_le(&d(2026, 3, 1), &d(2026, 3, 1)));
    assert!(!date_lt(&d(2026, 3, 1), &d(2026, 3, 1)));
    assert!(!date_le(&d(2026, 3, 2), &d(2026, 3, 1)));
}

#[test]
fn validity_agrees_with_chrono() {
    for year in [1899u32, 1900, 2000, 2023, 2024, 2026] {
        for month in 0u32..=13 {
            for day in 0u32..=32 {
                let mine = Date::new(year, month, day).is_some();
                let theirs =
                    chrono::NaiveDate::from_ymd_opt(year as i32, month, day).is_some();
                assert_eq!(mine, theirs, "{}-{}-{}", year, month, day);
            }
        }
    }
}

#[test]
fn parsing_agrees_with_chrono_on_wire_strings() {
    let samples = [
        "2026-03-01",
        "2026-02-29",
        "2024-02-29",
        "1900-02-29",
        "2026-13-01",
        "2026-00-10",
        "2026-11-31",
        "0000-01-01",
    ];
    for s in samples {
        let mine = parse_date(s);
        let theirs = chrono::NaiveDate::parse_from_str(s, "%Y-%m-%d").ok();
        assert_eq!(mine.is_some(), theirs.is_some(), "{}", s);
        if let (Some(a), Some(b)) = (mine, theirs) {
            assert_eq!(a.year as i32, chrono::Datelike::year(&b));
            assert_eq!(a.month, chrono::Datelike::month(&b));
            assert_eq!(a.day, chrono::Datelike::day(&b));
        }
    }
}
