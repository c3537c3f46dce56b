use sam::calendar::{civil_from_days, format_unix_utc};

#[test]
fn formats_known_timestamps() {
    assert_eq!(format_unix_utc(0), "1970-01-01 00:00 UTC");
    // 2001-09-09T01:46:40Z, the classic billennium timestamp.
    assert_eq!(format_unix_utc(1_000_000_000), "2001-09-09 01:46 UTC");
    // A leap day.
    assert_eq!(format_unix_utc(1_709_164_800), "2024-02-29 00:00 UTC");
}

#[test]
fn civil_conversion_round_trips_year_boundaries() {
    assert_eq!(civil_from_days(0), (1970, 1, 1));
    assert_eq!(civil_from_days(-1), (1969, 12, 31));
    assert_eq!(civil_from_days(365), (1971, 1, 1));
}

#[test]
fn the_latest_timestamp_is_formatted() {
    assert_eq!(format_unix_utc(u32::MAX), "2106-02-07 06:28 UTC");
}

#[test]
fn centuries_are_leap_years_only_every_fourth() {
    assert_eq!(civil_from_days(11_016), (2000, 2, 29));
    assert_eq!(civil_from_days(11_017), (2000, 3, 1));
    assert_eq!(civil_from_days(-25_509), (1900, 2, 28));
    assert_eq!(civil_from_days(-25_508), (1900, 3, 1));
    assert_eq!(civil_from_days(-719_468), (0, 3, 1));
    assert_eq!(civil_from_days(-719_469), (0, 2, 29));
    assert_eq!(civil_from_days(-719_529), (-1, 12, 31));
}

#[test]
fn every_day_follows_the_one_before() {
    let lengths = [31, 28, 31, 30, 31, 30, 31, 31, 30, 31, 30, 31];
    let mut date = civil_from_days(-200_000);
    for days in -199_999i64..200_000 {
        let (year, month, day) = date;
        let leap = year % 4 == 0 && (year % 100 != 0 || year % 400 == 0);
        let length = if month == 2 && leap { 29 } else { lengths[month as usize - 1] };
        date = if day < length {
            (year, month, day + 1)
        } else if month < 12 {
            (year, month + 1, 1)
        } else {
            (year + 1, 1, 1)
        };
        assert_eq!(civil_from_days(days), date);
    }
}

#[test]
fn labels_sort_by_minute() {
    let times = [0u32, 59, 60, 3_599, 3_600, 86_399, 86_400, 951_782_400, 1_709_164_800, u32::MAX];
    for a in times {
        assert_eq!(format_unix_utc(a).chars().count(), 20);
        for b in times {
            assert_eq!(format_unix_utc(a) <= format_unix_utc(b), a / 60 <= b / 60, "{a} {b}");
        }
    }
}
