//! Timestamp parsing, formatting and interval arithmetic against chrono.

use dbgen_core::error::Error;
use dbgen_core::timestamp::{TIMESTAMP_MAX_MICROS, TIMESTAMP_MIN_MICROS};
use dbgen_core::value::Value;

#[test]
fn parse_and_shift_by_an_interval() {
    let start = Value::parse_timestamp("2020-01-01 00:00:00").unwrap();
    let one_hour_later = Value::parse_timestamp("2020-01-01 01:00:00").unwrap();
    let shifted = start.sql_add(&Value::Interval(3_600_000_000)).unwrap();
    assert!(shifted.equals(&one_hour_later));
    // the interval may stand on either side
    let shifted = Value::Interval(3_600_000_000).sql_add(&start).unwrap();
    assert!(shifted.equals(&one_hour_later));
    // and subtraction undoes it
    let back = shifted.sql_sub(&Value::Interval(3_600_000_000)).unwrap();
    assert!(back.equals(&start));
}

#[test]
fn parse_rejects_malformed_text() {
    assert_eq!(
        Value::parse_timestamp("not a timestamp"),
        Err(Error::InvalidTimestampString)
    );
    assert_eq!(
        Value::parse_timestamp("2020-13-01 00:00:00"),
        Err(Error::InvalidTimestampString)
    );
}

#[test]
fn concat_formats_the_fixed_utc_text() {
    let epoch = Value::new_timestamp(0).unwrap();
    let out = Value::sql_concat(&[epoch]).unwrap();
    match out {
        Value::Bytes(b) => assert_eq!(b.bytes, b"1970-01-01 00:00:00".to_vec()),
        _ => panic!("concat yields bytes"),
    }
    let with_fraction = Value::new_timestamp(1_500_000).unwrap();
    let out = Value::sql_concat(&[with_fraction]).unwrap();
    match out {
        Value::Bytes(b) => assert_eq!(b.bytes, b"1970-01-01 00:00:01.500".to_vec()),
        _ => panic!("concat yields bytes"),
    }
}

#[test]
fn timestamps_order_by_their_instant() {
    let a = Value::parse_timestamp("1999-12-31 23:59:59").unwrap();
    let b = Value::parse_timestamp("2000-01-01 00:00:00").unwrap();
    assert_eq!(a.sql_cmp(&b).unwrap(), Some(std::cmp::Ordering::Less));
}

#[test]
fn the_calendar_bounds_are_chronos() {
    // the stated interval matches what chrono accepts, at both edges
    assert!(Value::new_timestamp(TIMESTAMP_MIN_MICROS).is_ok());
    assert!(Value::new_timestamp(TIMESTAMP_MAX_MICROS).is_ok());
    assert_eq!(
        Value::new_timestamp(TIMESTAMP_MIN_MICROS - 1),
        Err(Error::InvalidArguments)
    );
    assert_eq!(
        Value::new_timestamp(TIMESTAMP_MAX_MICROS + 1),
        Err(Error::InvalidArguments)
    );
    assert_eq!(
        chrono::DateTime::<chrono::Utc>::MIN_UTC.timestamp_micros(),
        TIMESTAMP_MIN_MICROS
    );
    assert_eq!(
        chrono::DateTime::<chrono::Utc>::MAX_UTC.timestamp_micros(),
        TIMESTAMP_MAX_MICROS
    );
}

#[test]
fn a_leap_second_past_the_calendar_edge_is_rejected() {
    // chrono parses a leap second in the calendar's last second as one
    // second past the last representable count
    assert_eq!(
        Value::parse_timestamp("+262142-12-31 23:59:60"),
        Err(Error::InvalidTimestampString)
    );
    // an ordinary leap second well inside the range still parses
    assert!(Value::parse_timestamp("2016-12-31 23:59:60").is_ok());
}

#[test]
fn out_of_calendar_counts_are_rejected() {
    assert_eq!(Value::new_timestamp(i64::MAX), Err(Error::InvalidArguments));
    assert!(Value::new_timestamp(0).is_ok());
    // shifting past the calendar's edge overflows
    let v = Value::new_timestamp(7_258_118_400_000_000).unwrap();
    assert_eq!(
        v.sql_add(&Value::Interval(i64::MAX)),
        Err(Error::IntegerOverflow)
    );
}

#[test]
fn round_trip_through_parse_and_concat() {
    let v = Value::parse_timestamp("2022-09-11 18:34:48").unwrap();
    let out = Value::sql_concat(&[v]).unwrap();
    match out {
        Value::Bytes(b) => assert_eq!(b.bytes, b"2022-09-11 18:34:48".to_vec()),
        _ => panic!("concat yields bytes"),
    }
}
