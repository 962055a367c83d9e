use ulidgen::date::parse_date;
use ulidgen::date::seed_timestamp_ms;
use ulidgen::date::day_number;
use ulidgen::date::DateError;
use ulidgen::date::DateSeed;

#[test]
fn parse_valid_date() {
    assert_eq!(
        parse_date(b"2020-01-01"),
        Ok(DateSeed { year: 2020, month: 1, day: 1 })
    );
}

#[test]
fn parse_epoch_start() {
    assert_eq!(
        parse_date(b"1970-01-01"),
        Ok(DateSeed { year: 1970, month: 1, day: 1 })
    );
}

#[test]
fn parse_largest_date() {
    assert_eq!(
        parse_date(b"9999-12-31"),
        Ok(DateSeed { year: 9999, month: 12, day: 31 })
    );
}

#[test]
fn parse_leap_day() {
    assert_eq!(
        parse_date(b"2020-02-29"),
        Ok(DateSeed { year: 2020, month: 2, day: 29 })
    );
    assert_eq!(
        parse_date(b"2000-02-29"),
        Ok(DateSeed { year: 2000, month: 2, day: 29 })
    );
}

#[test]
fn parse_rejects_leap_day_of_common_year() {
    assert_eq!(parse_date(b"2019-02-29"), Err(DateError::Parse));
    assert_eq!(parse_date(b"2100-02-29"), Err(DateError::Parse));
}

#[test]
fn parse_rejects_years_before_1970() {
    assert_eq!(parse_date(b"1969-12-31"), Err(DateError::Range));
    assert_eq!(parse_date(b"1969-01-01"), Err(DateError::Range));
    assert_eq!(parse_date(b"0001-01-01"), Err(DateError::Range));
    assert_eq!(parse_date(b"0000-01-01"), Err(DateError::Range));
}

#[test]
fn parse_rejects_wrong_separator() {
    assert_eq!(parse_date(b"2020/01/01"), Err(DateError::Parse));
    assert_eq!(parse_date(b"2020 01 01"), Err(DateError::Parse));
    assert_eq!(parse_date(b"2020-01.01"), Err(DateError::Parse));
}

#[test]
fn parse_rejects_wrong_width() {
    assert_eq!(parse_date(b""), Err(DateError::Parse));
    assert_eq!(parse_date(b"2020-1-1"), Err(DateError::Parse));
    assert_eq!(parse_date(b"2020-01-001"), Err(DateError::Parse));
    assert_eq!(parse_date(b"2020-01-01 "), Err(DateError::Parse));
    assert_eq!(parse_date(b" 2020-01-01"), Err(DateError::Parse));
}

#[test]
fn parse_rejects_non_numeric_fields() {
    assert_eq!(parse_date(b"abcd-ef-gh"), Err(DateError::Parse));
    assert_eq!(parse_date(b"20x0-01-01"), Err(DateError::Parse));
    assert_eq!(parse_date(b"2020-0a-01"), Err(DateError::Parse));
}

#[test]
fn parse_rejects_impossible_month_or_day() {
    assert_eq!(parse_date(b"2020-13-01"), Err(DateError::Parse));
    assert_eq!(parse_date(b"2020-00-10"), Err(DateError::Parse));
    assert_eq!(parse_date(b"2020-01-32"), Err(DateError::Parse));
    assert_eq!(parse_date(b"2020-01-00"), Err(DateError::Parse));
    assert_eq!(parse_date(b"2020-04-31"), Err(DateError::Parse));
}

#[test]
fn day_number_exact_values() {
    assert_eq!(day_number(&DateSeed { year: 1970, month: 1, day: 1 }), 0);
    assert_eq!(day_number(&DateSeed { year: 1970, month: 1, day: 2 }), 1);
    assert_eq!(day_number(&DateSeed { year: 1970, month: 2, day: 1 }), 31);
    assert_eq!(day_number(&DateSeed { year: 1971, month: 1, day: 1 }), 365);
    assert_eq!(day_number(&DateSeed { year: 1972, month: 3, day: 1 }), 790);
    assert_eq!(day_number(&DateSeed { year: 2000, month: 1, day: 1 }), 10957);
    assert_eq!(day_number(&DateSeed { year: 2020, month: 1, day: 1 }), 18262);
}

#[test]
fn day_number_matches_the_time_crate() {
    let epoch = time::Date::from_calendar_date(1970, time::Month::January, 1).unwrap();
    let cases: [(u16, u8, u8); 6] = [
        (1970, 12, 31),
        (1999, 2, 28),
        (2000, 3, 1),
        (2024, 2, 29),
        (2026, 10, 11),
        (9999, 12, 31),
    ];
    for (y, m, d) in cases {
        let month = time::Month::try_from(m).unwrap();
        let date = time::Date::from_calendar_date(y as i32, month, d).unwrap();
        let expected = (date - epoch).whole_days() as u64;
        assert_eq!(day_number(&DateSeed { year: y, month: m, day: d }), expected);
    }
}

#[test]
fn seed_timestamp_combines_day_and_time() {
    let epoch_day = DateSeed { year: 1970, month: 1, day: 1 };
    assert_eq!(seed_timestamp_ms(&epoch_day, 0), 0);
    assert_eq!(seed_timestamp_ms(&epoch_day, 1234), 1234);
    let d = DateSeed { year: 2020, month: 1, day: 1 };
    assert_eq!(seed_timestamp_ms(&d, 0), 1_577_836_800_000);
    assert_eq!(seed_timestamp_ms(&d, 86_399_999), 1_577_836_800_000 + 86_399_999);
}
