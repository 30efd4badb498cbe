use filmrank::dates::unix_days_to_date;
use filmrank::persistence::backup_name;

#[test]
fn unix_days_to_date_gives_civil_dates() {
    assert_eq!(unix_days_to_date(0), (1970, 1, 1));
    assert_eq!(unix_days_to_date(-1), (1969, 12, 31));
    assert_eq!(unix_days_to_date(365), (1971, 1, 1));
    assert_eq!(unix_days_to_date(11016), (2000, 2, 29));
    assert_eq!(unix_days_to_date(19000), (2022, 1, 8));
    assert_eq!(unix_days_to_date(20541), (2026, 3, 29));
    assert_eq!(unix_days_to_date(-719468), (0, 3, 1));
}

#[test]
fn backup_name_is_hourly() {
    assert_eq!(backup_name(20541 * 86400 + 14 * 3600 + 59), "backups/db_20260329_14.json");
    assert_eq!(backup_name(0), "backups/db_19700101_00.json");
}

fn days_in_month(y: i64, m: u32) -> u32 {
    let leap = (y % 4 == 0 && y % 100 != 0) || y % 400 == 0;
    match m {
        2 => if leap { 29 } else { 28 },
        4 | 6 | 9 | 11 => 30,
        _ => 31,
    }
}

#[test]
fn consecutive_days_have_consecutive_dates() {
    let mut prev = unix_days_to_date(-150_000);
    for d in -149_999i64..150_000 {
        let (y, m, day) = prev;
        let expected = if day < days_in_month(y, m) {
            (y, m, day + 1)
        } else if m < 12 {
            (y, m + 1, 1)
        } else {
            (y + 1, 1, 1)
        };
        let got = unix_days_to_date(d);
        assert_eq!(got, expected, "day {}", d);
        prev = got;
    }
}
