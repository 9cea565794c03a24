use chrono::{NaiveDate, TimeZone, Utc};
use tempmail::timestamp::TIMESTAMP_FORMAT;
use tempmail::{DecodeError, Timestamp};

#[test]
fn parse_reads_the_service_form_as_utc() {
    let parsed = Timestamp::parse("2023-01-15 10:30:00");
    assert_eq!(parsed, Ok(Timestamp { seconds: 1_673_778_600, nanoseconds: 0 }));
    let expected = Utc.with_ymd_and_hms(2023, 1, 15, 10, 30, 0).unwrap();
    let parsed = parsed.unwrap();
    assert_eq!(parsed.seconds, expected.timestamp());
    assert_eq!(parsed.nanoseconds, expected.timestamp_subsec_nanos());
    let rebuilt = chrono::DateTime::from_timestamp(parsed.seconds, parsed.nanoseconds).unwrap();
    assert_eq!(rebuilt, expected);
    assert_eq!(rebuilt.to_rfc3339(), "2023-01-15T10:30:00+00:00");
}

#[test]
fn parse_rejects_another_form() {
    assert_eq!(Timestamp::parse("15/01/2023"), Err(DecodeError::MalformedTimestamp));
    assert_eq!(Timestamp::parse(""), Err(DecodeError::MalformedTimestamp));
    assert_eq!(Timestamp::parse("2023-01-15"), Err(DecodeError::MalformedTimestamp));
    assert_eq!(Timestamp::parse("2023-01-15T10:30:00Z"), Err(DecodeError::MalformedTimestamp));
    assert_eq!(Timestamp::parse("2023-13-15 10:30:00"), Err(DecodeError::MalformedTimestamp));
    assert_eq!(Timestamp::parse("2023-01-15 24:00:00"), Err(DecodeError::MalformedTimestamp));
    assert_eq!(Timestamp::parse("2023-02-30 10:30:00"), Err(DecodeError::MalformedTimestamp));
    assert_eq!(
        Timestamp::parse("2023-01-15 10:30:00 and more"),
        Err(DecodeError::MalformedTimestamp)
    );
}

#[test]
fn parse_reads_the_epoch_and_dates_before_it() {
    assert_eq!(
        Timestamp::parse("1970-01-01 00:00:00"),
        Ok(Timestamp { seconds: 0, nanoseconds: 0 })
    );
    assert_eq!(
        Timestamp::parse("1969-12-31 23:59:59"),
        Ok(Timestamp { seconds: -1, nanoseconds: 0 })
    );
    assert_eq!(
        Timestamp::parse("2000-02-29 12:00:01"),
        Ok(Timestamp { seconds: 951_825_601, nanoseconds: 0 })
    );
}

#[test]
fn parse_keeps_a_leap_second_apart() {
    let leap = Timestamp::parse("2016-12-31 23:59:60").unwrap();
    let before = Timestamp::parse("2016-12-31 23:59:59").unwrap();
    assert_eq!(leap.seconds, before.seconds);
    assert_eq!(before.nanoseconds, 0);
    assert_eq!(leap.nanoseconds, 1_000_000_000);
}

#[test]
fn parse_agrees_with_chrono_on_many_dates() {
    assert_eq!(TIMESTAMP_FORMAT, "%Y-%m-%d %H:%M:%S");
    for day in 1..=28 {
        for hour in [0, 7, 23] {
            let text = format!("2021-{:02}-{:02} {:02}:05:09", (day % 12) + 1, day, hour);
            let expected = NaiveDate::from_ymd_opt(2021, (day % 12) + 1, day)
                .unwrap()
                .and_hms_opt(hour, 5, 9)
                .unwrap()
                .and_utc();
            assert_eq!(
                Timestamp::parse(&text),
                Ok(Timestamp { seconds: expected.timestamp(), nanoseconds: 0 })
            );
        }
    }
}
