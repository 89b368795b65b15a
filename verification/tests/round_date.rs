use chrono::{TimeZone, Utc};
use expression_functions::{round_date_to_precision, Error, Value};

#[allow(deprecated)]
#[test]
fn test_round_date_to_m1() {
    let input = (
        Value::String("BTCUSD_2024.02.13 10:05:23".into()),
        Value::String("m1".into()),
    );
    let expected = Utc
        .ymd(2024, 2, 13)
        .and_hms(10, 5, 0)
        .format("%Y.%m.%d %H:%M:%S")
        .to_string();
    let result = round_date_to_precision(&input.0, &input.1).unwrap();
    assert_eq!(result, Value::String(format!("BTCUSD_{}", expected)));
}

#[allow(deprecated)]
#[test]
fn test_round_date_to_h1() {
    let input = (
        Value::String("BTCUSD_2024.02.13 10:05:23".into()),
        Value::String("h1".into()),
    );
    let expected = Utc
        .ymd(2024, 2, 13)
        .and_hms(10, 0, 0)
        .format("%Y.%m.%d %H:%M:%S")
        .to_string();
    let result = round_date_to_precision(&input.0, &input.1).unwrap();
    assert_eq!(result, Value::String(format!("BTCUSD_{}", expected)));
}

#[allow(deprecated)]
#[test]
fn test_round_date_to_1w() {
    let input = (
        Value::String("BTCUSD_2024.02.13 10:05:23".into()),
        Value::String("1w".into()),
    );
    // 2024-02-13 is a Tuesday; the week floors to Sunday 2024-02-11.
    let expected = Utc
        .ymd(2024, 2, 11)
        .and_hms(0, 0, 0)
        .format("%Y.%m.%d %H:%M:%S")
        .to_string();
    let result = round_date_to_precision(&input.0, &input.1).unwrap();
    assert_eq!(result, Value::String(format!("BTCUSD_{}", expected)));
}

#[test]
fn test_invalid_date_format() {
    let input = (
        Value::String("BTCUSD_ThisIsNotADate".into()),
        Value::String("m1".into()),
    );
    let result = round_date_to_precision(&input.0, &input.1);
    assert!(result.is_err());
}

#[test]
fn test_invalid_precision() {
    let input = (
        Value::String("BTCUSD_2024.02.13 10:05:00".into()),
        Value::String("m60".into()),
    );
    let result = round_date_to_precision(&input.0, &input.1);
    assert!(result.is_err(), "Expected an error for invalid precision");
}

fn round(key: &str, precision: &str) -> Result<Value, Error> {
    round_date_to_precision(
        &Value::String(key.into()),
        &Value::String(precision.into()),
    )
}

fn rounded(key: &str, precision: &str) -> String {
    match round(key, precision).unwrap() {
        Value::String(s) => s,
        other => panic!("expected a string, got {:?}", other),
    }
}

#[test]
fn round_minute_buckets() {
    let key = "BTCUSD_2024.02.13 10:47:23";
    assert_eq!(rounded(key, "m1"), "BTCUSD_2024.02.13 10:47:00");
    assert_eq!(rounded(key, "m5"), "BTCUSD_2024.02.13 10:45:00");
    assert_eq!(rounded(key, "m15"), "BTCUSD_2024.02.13 10:45:00");
    assert_eq!(rounded(key, "m30"), "BTCUSD_2024.02.13 10:30:00");
}

#[test]
fn round_hour_and_day_buckets() {
    let key = "BTCUSD_2024.02.13 10:47:23";
    assert_eq!(rounded(key, "h1"), "BTCUSD_2024.02.13 10:00:00");
    assert_eq!(rounded(key, "h4"), "BTCUSD_2024.02.13 08:00:00");
    assert_eq!(rounded(key, "d1"), "BTCUSD_2024.02.13 00:00:00");
}

#[test]
fn round_month_bucket_case_insensitive() {
    let key = "BTCUSD_2024.02.13 10:47:23";
    assert_eq!(rounded(key, "1M"), "BTCUSD_2024.02.01 00:00:00");
    assert_eq!(rounded(key, "1m"), "BTCUSD_2024.02.01 00:00:00");
    assert_eq!(rounded(key, "M1"), "BTCUSD_2024.02.13 10:47:00");
    assert_eq!(rounded(key, "D1"), "BTCUSD_2024.02.13 00:00:00");
    assert_eq!(rounded(key, "1W"), "BTCUSD_2024.02.11 00:00:00");
}

#[test]
fn round_week_across_month_and_year() {
    // 2024-03-01 is a Friday; the week begins Sunday 2024-02-25.
    assert_eq!(
        rounded("X_2024.03.01 09:30:00", "1w"),
        "X_2024.02.25 00:00:00"
    );
    // 2024-01-02 is a Tuesday; the week begins Sunday 2023-12-31.
    assert_eq!(
        rounded("X_2024.01.02 00:00:01", "1w"),
        "X_2023.12.31 00:00:00"
    );
    // A Sunday stays where it is.
    assert_eq!(
        rounded("X_2024.02.11 23:59:59", "1w"),
        "X_2024.02.11 00:00:00"
    );
    // The first day of the calendar is a Saturday; the week bucket stops
    // at the calendar's origin rather than leaving the four-digit years.
    assert_eq!(
        rounded("X_0000.01.01 12:00:00", "1w"),
        "X_0000.01.01 00:00:00"
    );
}

#[test]
fn round_is_idempotent_at_each_precision() {
    let key = "BTCUSD_2024.02.13 10:47:23";
    for precision in ["m1", "m5", "m15", "m30", "h1", "h4", "d1", "1w", "1M"] {
        let once = rounded(key, precision);
        let twice = rounded(&once, precision);
        assert_eq!(once, twice, "precision {}", precision);
    }
}

#[test]
fn round_prefix_handling() {
    // Several prefix segments are rejoined verbatim.
    assert_eq!(
        rounded("A_B_2024.02.13 10:05:23", "m1"),
        "A_B_2024.02.13 10:05:00"
    );
    // No prefix at all: the result is the bare timestamp.
    assert_eq!(rounded("2024.02.13 10:05:23", "m1"), "2024.02.13 10:05:00");
    // An empty prefix before the underscore is dropped with its underscore.
    assert_eq!(rounded("_2024.02.13 10:05:23", "m1"), "2024.02.13 10:05:00");
}

#[test]
fn round_rejects_bad_dates_and_arguments() {
    // A nonexistent calendar day is a date-format error.
    assert_eq!(
        round("X_2023.02.29 00:00:00", "m1"),
        Err(Error::InvalidDateFormat)
    );
    // A leap day of a leap year is fine.
    assert_eq!(
        rounded("X_2024.02.29 10:00:00", "d1"),
        "X_2024.02.29 00:00:00"
    );
    // Out-of-range time fields are rejected.
    assert_eq!(
        round("X_2024.02.13 24:00:00", "m1"),
        Err(Error::InvalidDateFormat)
    );
    // An empty key has no timestamp segment to parse.
    assert_eq!(round("", "m1"), Err(Error::InvalidDateFormat));
    assert_eq!(round("BTCUSD_", "m1"), Err(Error::InvalidDateFormat));
    // Non-string arguments are a type error.
    assert_eq!(
        round_date_to_precision(&Value::Int(3), &Value::String("m1".into())),
        Err(Error::InvalidArgumentType)
    );
    assert_eq!(
        round_date_to_precision(&Value::String("X_2024.02.13 10:00:00".into()), &Value::Empty),
        Err(Error::InvalidArgumentType)
    );
}

#[test]
fn round_names_the_unrecognised_precision() {
    match round("BTCUSD_2024.02.13 10:05:00", "M60") {
        Err(Error::CustomError(message)) => {
            assert_eq!(message, "Precision m60 is not recognised");
        }
        other => panic!("expected a custom error, got {:?}", other),
    }
}
