//! The exact pieces of the schema synthesizer.

use dbgen_core::error::Error;
use dbgen_core::schema::{
    Dialect, datetime_column_type, index_suffix, int_column_expr, int_column_range,
    int_column_type, serial_column_type, timestamp_column_type,
};

#[test]
fn dialect_names_parse() {
    assert_eq!(Dialect::from_str("mysql"), Ok(Dialect::MySQL));
    assert_eq!(Dialect::from_str("postgresql"), Ok(Dialect::PostgreSQL));
    assert_eq!(Dialect::from_str("sqlite"), Ok(Dialect::SQLite));
    assert_eq!(Dialect::from_str("oracle"), Err(Error::UnsupportedCliParameter));
    assert_eq!(Dialect::from_str("MYSQL"), Err(Error::UnsupportedCliParameter));
}

#[test]
fn integer_column_types_follow_the_dialect() {
    assert_eq!(int_column_type(Dialect::MySQL, false, 0), "tinyint");
    assert_eq!(int_column_type(Dialect::MySQL, true, 2), "mediumint unsigned");
    assert_eq!(int_column_type(Dialect::MySQL, false, 7), "bigint");
    assert_eq!(int_column_type(Dialect::PostgreSQL, false, 1), "smallint");
    assert_eq!(int_column_type(Dialect::PostgreSQL, true, 7), "numeric(20)");
    assert_eq!(int_column_type(Dialect::SQLite, true, 5), "integer");
}

#[test]
fn other_column_types_follow_the_dialect() {
    assert_eq!(serial_column_type(Dialect::PostgreSQL), "bigserial");
    assert_eq!(serial_column_type(Dialect::SQLite), "integer not null");
    assert_eq!(timestamp_column_type(Dialect::MySQL), "timestamp not null");
    assert_eq!(timestamp_column_type(Dialect::SQLite), "text not null");
    assert_eq!(datetime_column_type(Dialect::MySQL), "datetime not null");
    assert_eq!(datetime_column_type(Dialect::PostgreSQL), "timestamp not null");
}

#[test]
fn integer_column_ranges() {
    assert_eq!(int_column_range(false, 0), (-128, 127));
    assert_eq!(int_column_range(true, 0), (0, 255));
    assert_eq!(int_column_range(false, 3), (-(1 << 31), (1 << 31) - 1));
    assert_eq!(int_column_range(true, 7), (0, (256i128 << 56) - 1));
}

#[test]
fn integer_column_expressions() {
    assert_eq!(
        int_column_expr(-128, 127),
        b"rand.range_inclusive(-128, 127)".to_vec()
    );
    assert_eq!(
        int_column_expr(0, 255),
        b"rand.range_inclusive(0, 255)".to_vec()
    );
}

#[test]
fn index_clauses_follow_the_flags() {
    let cols = vec![0u64, 2, 11];
    assert_eq!(
        index_suffix(Dialect::MySQL, true, true, false, false, &cols),
        Some(b",\nPRIMARY KEY (c0, c2, c11)".to_vec())
    );
    assert_eq!(
        index_suffix(Dialect::PostgreSQL, false, true, false, false, &cols),
        Some(b",\nUNIQUE (c0, c2, c11)".to_vec())
    );
    assert_eq!(
        index_suffix(Dialect::MySQL, false, false, true, false, &cols),
        Some(b",\nKEY (c0, c2, c11)".to_vec())
    );
    // non-MySQL dialects emit nothing for a plain index
    assert_eq!(
        index_suffix(Dialect::SQLite, false, false, false, false, &cols),
        None
    );
    // a primary key must be unique and non-nullable
    assert_eq!(index_suffix(Dialect::MySQL, true, false, false, false, &cols), None);
    assert_eq!(index_suffix(Dialect::MySQL, true, true, true, false, &cols), None);
    // empty or repeated sets emit nothing
    assert_eq!(index_suffix(Dialect::MySQL, false, true, false, false, &vec![]), None);
    assert_eq!(index_suffix(Dialect::MySQL, false, true, false, true, &cols), None);
}
