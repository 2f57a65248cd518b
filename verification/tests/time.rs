use disk_cleaner::time::{
    date_of, days_ago, format_time_ago, has_date, time_ago, Date, Timestamp, MAX_SECS, MIN_SECS,
};
use std::time::{SystemTime, UNIX_EPOCH};

const DAY: i64 = 86_400;

fn at(secs: i64) -> Timestamp {
    Timestamp { secs, nanos: 0 }
}

#[test]
fn days_are_told_in_words() {
    assert_eq!(days_ago(-5), "recent");
    assert_eq!(days_ago(0), "recent");
    assert_eq!(days_ago(1), "1 days ago");
    assert_eq!(days_ago(30), "30 days ago");
    assert_eq!(days_ago(31), "1 months ago");
    assert_eq!(days_ago(365), "12 months ago");
    assert_eq!(days_ago(366), "1 years ago");
    assert_eq!(days_ago(800), "2 years ago");
}

#[test]
fn only_whole_days_count() {
    let now = at(1_000 * DAY);
    assert_eq!(time_ago(None, now), "-");
    assert_eq!(time_ago(Some(at(999 * DAY)), now), "1 days ago");
    assert_eq!(time_ago(Some(at(999 * DAY + 1)), now), "recent");
    let nearly = Timestamp { secs: 998 * DAY, nanos: 1 };
    assert_eq!(time_ago(Some(nearly), now), "1 days ago");
    assert_eq!(time_ago(Some(at(998 * DAY)), now), "2 days ago");
    assert_eq!(time_ago(Some(at(2_000 * DAY)), now), "recent");
    assert_eq!(time_ago(Some(at(-DAY)), at(0)), "1 days ago");
}

#[test]
fn the_present_is_taken_from_the_clock() {
    let secs = SystemTime::now().duration_since(UNIX_EPOCH).unwrap().as_secs() as i64;
    assert_eq!(format_time_ago(None), "-");
    assert_eq!(format_time_ago(Some(at(secs))), "recent");
    assert_eq!(format_time_ago(Some(at(secs - 10 * DAY - 3_600))), "10 days ago");
    let years = secs / DAY / 365;
    assert_eq!(format_time_ago(Some(at(0))), format!("{years} years ago"));
    let earlier = (secs + 400 * DAY) / DAY / 365;
    assert_eq!(format_time_ago(Some(at(-400 * DAY))), format!("{earlier} years ago"));
}

#[test]
fn extreme_times_have_dates() {
    assert!(has_date(at(MIN_SECS)));
    assert!(has_date(Timestamp { secs: MAX_SECS, nanos: 999_999_999 }));
    assert!(!has_date(at(MIN_SECS - 1)));
    assert!(!has_date(at(MAX_SECS + 1)));
    assert!(!has_date(Timestamp { secs: 0, nanos: 1_000_000_000 }));
    assert!(chrono::DateTime::from_timestamp(MIN_SECS, 0).is_some());
    assert!(chrono::DateTime::from_timestamp(MIN_SECS - 1, 0).is_none());
    assert!(chrono::DateTime::from_timestamp(MAX_SECS, 999_999_999).is_some());
    assert!(chrono::DateTime::from_timestamp(MAX_SECS + 1, 0).is_none());
    assert!(time_ago(Some(at(MIN_SECS)), at(MAX_SECS)).ends_with(" years ago"));
}

#[test]
fn dates_are_those_of_the_calendar() {
    let date = |year, month, day| Date { year, month, day };
    assert_eq!(date_of(at(0)), date(1970, 1, 1));
    assert_eq!(date_of(at(-1)), date(1969, 12, 31));
    assert_eq!(date_of(at(951_782_400)), date(2000, 2, 29));
    assert_eq!(date_of(at(951_868_800)), date(2000, 3, 1));
    assert_eq!(date_of(at(1_704_067_199)), date(2023, 12, 31));
    assert_eq!(date_of(at(1_704_067_200)), date(2024, 1, 1));
    assert_eq!(date_of(at(4_107_542_400)), date(2100, 3, 1));
}

#[test]
fn dates_are_counted_as_the_calendar_counts_them() {
    let leap = |year: i64| year % 4 == 0 && (year % 100 != 0 || year % 400 == 0);
    let before_year = |year: i64| {
        365 * (year - 1970) + (year - 1).div_euclid(4) - (year - 1).div_euclid(100)
            + (year - 1).div_euclid(400)
            - 477
    };
    let months = [31, 28, 31, 30, 31, 30, 31, 31, 30, 31, 30, 31];
    for day in (-800_000..800_000).step_by(97) {
        let date = date_of(at(day * DAY + 5));
        let mut number = before_year(date.year as i64) + date.day as i64 - 1;
        for month in 1..date.month {
            number += months[month as usize - 1];
            if month == 2 && leap(date.year as i64) {
                number += 1;
            }
        }
        assert_eq!(number, day);
    }
}
