//! Value-level SQL semantics: comparison, arithmetic, concatenation.

use dbgen_core::error::Error;
use dbgen_core::number::Number;
use dbgen_core::value::Value;
use std::cmp::Ordering;

fn num(v: i128) -> Value {
    Value::Number(Number::Int(v))
}

fn text(s: &str) -> Value {
    Value::Bytes(dbgen_core::bytes::ByteString {
        bytes: s.as_bytes().to_vec(),
        known_utf8: true,
    })
}

#[test]
fn null_compares_with_nothing() {
    let samples = vec![
        Value::Null,
        num(42),
        text("abc"),
        Value::Interval(-7),
        Value::Array(vec![num(1), Value::Null]),
    ];
    for v in &samples {
        assert_eq!(v.sql_cmp(&Value::Null).unwrap(), None);
        assert_eq!(Value::Null.sql_cmp(v).unwrap(), None);
    }
}

#[test]
fn numbers_compare_by_value() {
    assert_eq!(num(1).sql_cmp(&num(2)).unwrap(), Some(Ordering::Less));
    assert_eq!(num(2).sql_cmp(&num(2)).unwrap(), Some(Ordering::Equal));
    let big = Value::Number(Number::UInt(u128::MAX));
    assert_eq!(num(i128::MAX).sql_cmp(&big).unwrap(), Some(Ordering::Less));
    assert_eq!(big.sql_cmp(&num(-1)).unwrap(), Some(Ordering::Greater));
}

#[test]
fn bytes_compare_lexicographically() {
    assert_eq!(text("ab").sql_cmp(&text("b")).unwrap(), Some(Ordering::Less));
    assert_eq!(text("ab").sql_cmp(&text("ab")).unwrap(), Some(Ordering::Equal));
    assert_eq!(text("abc").sql_cmp(&text("ab")).unwrap(), Some(Ordering::Greater));
}

#[test]
fn arrays_compare_elementwise_shorter_first() {
    let a = Value::Array(vec![num(1), num(2)]);
    let b = Value::Array(vec![num(1), num(3)]);
    let c = Value::Array(vec![num(1)]);
    assert_eq!(a.sql_cmp(&b).unwrap(), Some(Ordering::Less));
    assert_eq!(c.sql_cmp(&a).unwrap(), Some(Ordering::Less));
    assert_eq!(a.sql_cmp(&a).unwrap(), Some(Ordering::Equal));
    let nested = Value::Array(vec![Value::Array(vec![num(5)])]);
    let nested2 = Value::Array(vec![Value::Array(vec![num(6)])]);
    assert_eq!(nested.sql_cmp(&nested2).unwrap(), Some(Ordering::Less));
}

#[test]
fn cross_variant_comparison_errors() {
    assert_eq!(num(1).sql_cmp(&text("1")), Err(Error::InvalidArguments));
    assert_eq!(
        Value::Interval(1).sql_cmp(&num(1)),
        Err(Error::InvalidArguments)
    );
}

#[test]
fn sql_sign_follows_the_type() {
    assert_eq!(Value::Null.sql_sign(), Ordering::Equal);
    assert_eq!(num(-3).sql_sign(), Ordering::Less);
    assert_eq!(num(0).sql_sign(), Ordering::Equal);
    assert_eq!(text("").sql_sign(), Ordering::Equal);
    assert_eq!(text("x").sql_sign(), Ordering::Greater);
    assert_eq!(Value::Interval(-1).sql_sign(), Ordering::Less);
    assert_eq!(Value::Array(vec![]).sql_sign(), Ordering::Equal);
    assert_eq!(Value::Array(vec![Value::Null]).sql_sign(), Ordering::Greater);
}

#[test]
fn negation_involution_on_samples() {
    for v in [num(5), num(-5), num(i128::MIN + 1), Value::Interval(90)] {
        let once = v.sql_neg().unwrap();
        let twice = once.sql_neg().unwrap();
        assert!(twice.equals(&v));
    }
    // i128::MIN negates into the unsigned variant and back
    let min = num(i128::MIN);
    let once = min.sql_neg().unwrap();
    assert!(once.equals(&Value::Number(Number::UInt(1u128 << 127))));
    assert!(once.sql_neg().unwrap().equals(&min));
}

#[test]
fn interval_negation_overflow() {
    assert_eq!(Value::Interval(i64::MIN).sql_neg(), Err(Error::IntegerOverflow));
    assert_eq!(text("x").sql_neg(), Err(Error::InvalidArguments));
}

#[test]
fn addition_rules() {
    assert!(num(2).sql_add(&num(3)).unwrap().equals(&num(5)));
    assert!(Value::Interval(3)
        .sql_add(&Value::Interval(4))
        .unwrap()
        .equals(&Value::Interval(7)));
    assert_eq!(
        Value::Interval(i64::MAX).sql_add(&Value::Interval(1)),
        Err(Error::IntegerOverflow)
    );
    assert_eq!(num(1).sql_add(&text("x")), Err(Error::InvalidArguments));
    // promotion past i128::MAX
    let sum = num(i128::MAX).sql_add(&num(1)).unwrap();
    assert!(sum.equals(&Value::Number(Number::UInt(1u128 << 127))));
}

#[test]
fn subtraction_and_multiplication_rules() {
    assert!(num(2).sql_sub(&num(5)).unwrap().equals(&num(-3)));
    assert!(num(7).sql_mul(&num(-6)).unwrap().equals(&num(-42)));
    // interval scaling from either side
    assert!(Value::Interval(10)
        .sql_mul(&num(3))
        .unwrap()
        .equals(&Value::Interval(30)));
    assert!(num(3)
        .sql_mul(&Value::Interval(10))
        .unwrap()
        .equals(&Value::Interval(30)));
    assert_eq!(
        Value::Interval(i64::MAX).sql_mul(&num(2)),
        Err(Error::IntegerOverflow)
    );
    // timestamp difference is an interval
    let a = Value::parse_timestamp("2020-01-01 00:00:00").unwrap();
    let b = Value::parse_timestamp("2020-01-01 00:00:01").unwrap();
    assert!(b.sql_sub(&a).unwrap().equals(&Value::Interval(1_000_000)));
}

#[test]
fn division_truncates_toward_zero() {
    assert!(num(7).sql_div(&num(-2)).unwrap().equals(&num(-3)));
    assert!(num(-7).sql_div(&num(2)).unwrap().equals(&num(-3)));
    assert!(num(7).sql_div(&num(2)).unwrap().equals(&num(3)));
    // division by zero is NULL, not an error
    assert!(num(7).sql_div(&num(0)).unwrap().equals(&Value::Null));
}

#[test]
fn remainder_follows_truncating_division() {
    assert!(num(7).sql_rem(&num(-2)).unwrap().equals(&num(1)));
    assert!(num(-7).sql_rem(&num(2)).unwrap().equals(&num(-1)));
    assert!(num(7).sql_rem(&num(0)).unwrap().equals(&Value::Null));
    assert!(num(i128::MIN).sql_rem(&num(-1)).unwrap().equals(&num(0)));
    assert!(Value::Interval(9)
        .sql_rem(&Value::Interval(0))
        .unwrap()
        .equals(&Value::Null));
    assert!(Value::Interval(9)
        .sql_rem(&Value::Interval(-1))
        .unwrap()
        .equals(&Value::Interval(0)));
}

#[test]
fn concat_propagates_null() {
    let out = Value::sql_concat(&[text("a"), Value::Null, text("b")]).unwrap();
    assert!(out.equals(&Value::Null));
}

#[test]
fn concat_formats_scalars() {
    let out = Value::sql_concat(&[text("a"), num(1), text("b")]).unwrap();
    assert!(out.equals(&text("a1b")));
    let out = Value::sql_concat(&[num(-25), Value::Interval(90)]).unwrap();
    assert!(out.equals(&text("-25INTERVAL 90 MICROSECOND")));
    let out = Value::sql_concat(&[Value::Number(Number::UInt(u128::MAX))]).unwrap();
    assert!(out.equals(&text("340282366920938463463374607431768211455")));
}

#[test]
fn concat_rejects_arrays() {
    assert_eq!(
        Value::sql_concat(&[Value::Array(vec![])]),
        Err(Error::InvalidArguments)
    );
    // but a NULL before the array still wins
    let out = Value::sql_concat(&[Value::Null, Value::Array(vec![])]).unwrap();
    assert!(out.equals(&Value::Null));
}

#[test]
fn truthiness() {
    assert_eq!(Value::Null.is_sql_true(), Ok(false));
    assert_eq!(num(0).is_sql_true(), Ok(false));
    assert_eq!(num(-2).is_sql_true(), Ok(true));
    assert_eq!(text("t").is_sql_true(), Err(Error::InvalidArguments));
}

#[test]
fn structural_equality() {
    assert!(Value::Null.equals(&Value::Null));
    assert!(!Value::Null.equals(&num(0)));
    let a = Value::Array(vec![num(1), text("x")]);
    let b = Value::Array(vec![num(1), text("x")]);
    let c = Value::Array(vec![num(1), text("y")]);
    assert!(a.equals(&b));
    assert!(!a.equals(&c));
    let copy = a.dup();
    assert!(copy.equals(&a));
}
