//! Scalar values and their SQL-style comparison, arithmetic, concatenation
//! and truth rules.

use vstd::prelude::*;
use crate::bytes::{ByteString, dec_int, dec_number, format_i64, lex_cmp_bytes};
use crate::error::Error;
use crate::number::{Number, NumberError, div_trunc, ord_of, rem_trunc};
use crate::timestamp::{
    format_timestamp, micros_in_range, parse_timestamp_micros, timestamp_in_range,
    timestamp_micros_of_text, timestamp_text,
};

verus! {

broadcast use vstd::std_specs::vec::group_vec_axioms, vstd::seq::group_seq_axioms;

/// A scalar value.
#[derive(Debug, PartialEq)]
pub enum Value {
    /// The SQL NULL.
    Null,
    /// A number.
    Number(Number),
    /// A string or byte string.
    Bytes(ByteString),
    /// A calendar timestamp: microseconds since the Unix epoch, in UTC;
    /// well-formed values lie within chrono's calendar range.
    Timestamp(i64),
    /// A time interval, as a count of microseconds.
    Interval(i64),
    /// An array of values.
    Array(Vec<Value>),
}

/// A truth value as a SQL number: one for true, zero for false.
pub open spec fn bool_value(b: bool) -> Value {
    Value::Number(Number::Int(if b { 1 } else { 0 }))
}

/// An optional truth value as a SQL value, NULL for its absence.
pub open spec fn nullable_bool_value(b: Option<bool>) -> Value {
    match b {
        Some(v) => bool_value(v),
        None => Value::Null,
    }
}

/// The bytes of the text `INTERVAL ` (ASCII).
pub open spec fn interval_prefix() -> Seq<u8> {
    seq![73u8, 78u8, 84u8, 69u8, 82u8, 86u8, 65u8, 76u8, 32u8]
}

/// The bytes of the text ` MICROSECOND` (ASCII).
pub open spec fn microsecond_suffix() -> Seq<u8> {
    seq![32u8, 77u8, 73u8, 67u8, 82u8, 79u8, 83u8, 69u8, 67u8, 79u8, 78u8, 68u8]
}

/// The concatenation text of an interval: `INTERVAL <n> MICROSECOND`.
pub open spec fn interval_text(v: int) -> Seq<u8> {
    interval_prefix() + dec_int(v) + microsecond_suffix()
}

/// Maps a numeric result onto a value: overflow is a typed error, an
/// undefined result (NaN) is NULL, as in SQL.
pub open spec fn number_result_value(r: Result<Number, NumberError>) -> Result<Value, Error> {
    match r {
        Ok(n) => Ok(Value::Number(n)),
        Err(NumberError::NaN) => Ok(Value::Null),
        Err(NumberError::Overflow) => Err(Error::IntegerOverflow),
    }
}

/// Maps a numeric result onto an interval: the number must also fit the
/// 64-bit microsecond count.
pub open spec fn number_result_interval(r: Result<Number, NumberError>) -> Result<Value, Error> {
    match r {
        Ok(n) => if i64::MIN <= n.as_int() <= i64::MAX {
            Ok(Value::Interval(n.as_int() as i64))
        } else {
            Err(Error::IntegerOverflow)
        },
        Err(NumberError::NaN) => Ok(Value::Null),
        Err(NumberError::Overflow) => Err(Error::IntegerOverflow),
    }
}

impl Default for Value {
    /// The default value is NULL, which every variable slot starts as.
    fn default() -> (r: Self)
        ensures
            r == Value::Null,
    {
        Value::Null
    }
}

impl Value {
    /// Well-formed values: numbers are canonical and timestamps lie in the
    /// calendar range, recursively.
    pub open spec fn wf(self) -> bool
        decreases self,
    {
        match self {
            Value::Number(n) => n.wf(),
            Value::Timestamp(t) => timestamp_in_range(t),
            Value::Array(xs) => forall|i: int|
                0 <= i < xs@.len() ==> (#[trigger] xs@[i]).wf(),
            _ => true,
        }
    }

    /// Structural equality of values. Byte strings compare by their bytes;
    /// the known-text flag is bookkeeping, not part of the value.
    pub open spec fn spec_eq(a: Value, b: Value) -> bool
        decreases a,
    {
        match (a, b) {
            (Value::Null, Value::Null) => true,
            (Value::Number(x), Value::Number(y)) => x == y,
            (Value::Bytes(x), Value::Bytes(y)) => x@ == y@,
            (Value::Timestamp(x), Value::Timestamp(y)) => x == y,
            (Value::Interval(x), Value::Interval(y)) => x == y,
            (Value::Array(x), Value::Array(y)) => x@.len() == y@.len() && forall|i: int|
                0 <= i < x@.len() ==> Value::spec_eq(#[trigger] x@[i], y@[i]),
            _ => false,
        }
    }

    /// What comparison returns: NULL compares with nothing, same-variant
    /// values order naturally, arrays order lexicographically, and values
    /// of different variants do not compare.
    pub open spec fn spec_sql_cmp(a: Value, b: Value) -> Result<
        Option<core::cmp::Ordering>,
        Error,
    >
        decreases a,
    {
        match (a, b) {
            (Value::Null, _) => Ok(None),
            (_, Value::Null) => Ok(None),
            (Value::Number(x), Value::Number(y)) => Ok(Some(ord_of(x.as_int(), y.as_int()))),
            (Value::Bytes(x), Value::Bytes(y)) => Ok(Some(lex_cmp_bytes(x@, y@))),
            (Value::Timestamp(x), Value::Timestamp(y)) => Ok(Some(ord_of(x as int, y as int))),
            (Value::Interval(x), Value::Interval(y)) => Ok(Some(ord_of(x as int, y as int))),
            (Value::Array(x), Value::Array(y)) => {
                proof {
                    assert(decreases_to!(a => a->Array_0));
                    assert(x == a->Array_0);
                    assert(decreases_to!(x => x@));
                }
                Value::spec_cmp_arrays(x@, y@)
            },
            _ => Err(Error::InvalidArguments),
        }
    }

    /// Lexicographic, element-wise comparison of array contents; the
    /// shorter array orders first.
    pub open spec fn spec_cmp_arrays(x: Seq<Value>, y: Seq<Value>) -> Result<
        Option<core::cmp::Ordering>,
        Error,
    >
        decreases x,
    {
        if x.len() == 0 || y.len() == 0 {
            Ok(Some(ord_of(x.len() as int, y.len() as int)))
        } else {
            proof {
                assert(decreases_to!(x => x[0]));
                assert(decreases_to!(x => x.subrange(1, x.len() as int)));
                assert(x.skip(1) =~= x.subrange(1, x.len() as int));
            }
            match Value::spec_sql_cmp(x[0], y[0]) {
                Ok(Some(core::cmp::Ordering::Equal)) => Value::spec_cmp_arrays(
                    x.skip(1),
                    y.skip(1),
                ),
                other => other,
            }
        }
    }

    /// What the sign of a value is, against the zero of its own type.
    pub open spec fn spec_sql_sign(a: Value) -> core::cmp::Ordering {
        match a {
            Value::Null => core::cmp::Ordering::Equal,
            Value::Number(n) => ord_of(n.as_int(), 0),
            Value::Bytes(b) => ord_of(b@.len() as int, 0),
            Value::Timestamp(_) => core::cmp::Ordering::Greater,
            Value::Interval(v) => ord_of(v as int, 0),
            Value::Array(xs) => ord_of(xs@.len() as int, 0),
        }
    }

    /// What negation returns: numbers and intervals negate, with overflow
    /// reported; nothing else negates.
    pub open spec fn spec_sql_neg(a: Value) -> Result<Value, Error> {
        match a {
            Value::Number(n) => match Number::spec_neg(n) {
                Ok(m) => Ok(Value::Number(m)),
                Err(_) => Err(Error::IntegerOverflow),
            },
            Value::Interval(v) => if v == i64::MIN {
                Err(Error::IntegerOverflow)
            } else {
                Ok(Value::Interval((-v) as i64))
            },
            _ => Err(Error::InvalidArguments),
        }
    }

    /// What addition returns, per operand pair.
    pub open spec fn spec_sql_add(a: Value, b: Value) -> Result<Value, Error> {
        match (a, b) {
            (Value::Number(x), Value::Number(y)) => number_result_value(Number::spec_add(x, y)),
            (Value::Timestamp(t), Value::Interval(d)) => Value::spec_shift_timestamp(
                t as int + d as int,
            ),
            (Value::Interval(d), Value::Timestamp(t)) => Value::spec_shift_timestamp(
                t as int + d as int,
            ),
            (Value::Interval(x), Value::Interval(y)) => Value::spec_interval_of(
                x as int + y as int,
            ),
            _ => Err(Error::InvalidArguments),
        }
    }

    /// What subtraction returns, per operand pair.
    pub open spec fn spec_sql_sub(a: Value, b: Value) -> Result<Value, Error> {
        match (a, b) {
            (Value::Number(x), Value::Number(y)) => number_result_value(Number::spec_sub(x, y)),
            (Value::Timestamp(x), Value::Timestamp(y)) => Value::spec_interval_of(
                x as int - y as int,
            ),
            (Value::Timestamp(t), Value::Interval(d)) => Value::spec_shift_timestamp(
                t as int - d as int,
            ),
            (Value::Interval(x), Value::Interval(y)) => Value::spec_interval_of(
                x as int - y as int,
            ),
            _ => Err(Error::InvalidArguments),
        }
    }

    /// What multiplication returns: numbers multiply, and an interval
    /// scales by a number, from either side.
    pub open spec fn spec_sql_mul(a: Value, b: Value) -> Result<Value, Error> {
        match (a, b) {
            (Value::Number(x), Value::Number(y)) => number_result_value(Number::spec_mul(x, y)),
            (Value::Number(m), Value::Interval(d)) => number_result_interval(
                Number::spec_mul(Number::Int(d as i128), m),
            ),
            (Value::Interval(d), Value::Number(m)) => number_result_interval(
                Number::spec_mul(Number::Int(d as i128), m),
            ),
            _ => Err(Error::InvalidArguments),
        }
    }

    /// What integer division returns: quotients truncate toward zero, a
    /// zero divisor gives NULL, and intervals divide into an interval.
    pub open spec fn spec_sql_div(a: Value, b: Value) -> Result<Value, Error> {
        match (a, b) {
            (Value::Number(x), Value::Number(y)) => number_result_value(Number::spec_div(x, y)),
            (Value::Interval(x), Value::Interval(y)) => if y == 0 {
                Ok(Value::Null)
            } else {
                Value::spec_interval_of(div_trunc(x as int, y as int))
            },
            _ => Err(Error::InvalidArguments),
        }
    }

    /// What the remainder returns: it follows truncating division; a zero
    /// divisor gives NULL, and a divisor of -1 gives zero exactly, even
    /// where negation of the dividend would overflow.
    pub open spec fn spec_sql_rem(a: Value, b: Value) -> Result<Value, Error> {
        match (a, b) {
            (Value::Number(x), Value::Number(y)) => number_result_value(Number::spec_rem(x, y)),
            (Value::Interval(x), Value::Interval(y)) => if y == 0 {
                Ok(Value::Null)
            } else if y == -1 {
                Ok(Value::Interval(0))
            } else {
                Ok(Value::Interval(rem_trunc(x as int, y as int) as i64))
            },
            _ => Err(Error::InvalidArguments),
        }
    }

    /// What truth testing returns: NULL and zero are false, other numbers
    /// true; nothing else has a truth value.
    pub open spec fn spec_is_sql_true(a: Value) -> Result<bool, Error> {
        match a {
            Value::Null => Ok(false),
            Value::Number(n) => Ok(n.as_int() != 0),
            _ => Err(Error::InvalidArguments),
        }
    }

    /// A microsecond count as a timestamp, if the calendar can hold it.
    pub open spec fn spec_shift_timestamp(micros: int) -> Result<Value, Error> {
        if i64::MIN <= micros <= i64::MAX && timestamp_in_range(micros as i64) {
            Ok(Value::Timestamp(micros as i64))
        } else {
            Err(Error::IntegerOverflow)
        }
    }

    /// A microsecond count as an interval, if it fits 64 bits.
    pub open spec fn spec_interval_of(micros: int) -> Result<Value, Error> {
        if i64::MIN <= micros <= i64::MAX {
            Ok(Value::Interval(micros as i64))
        } else {
            Err(Error::IntegerOverflow)
        }
    }

    /// A truth value as the number one or zero.
    pub fn from_bool(b: bool) -> (r: Value)
        ensures
            r == bool_value(b),
            r.wf(),
    {
        Value::Number(Number::Int(if b { 1 } else { 0 }))
    }

    /// Wraps an optional truth value, NULL for its absence.
    pub fn from_nullable_bool(b: Option<bool>) -> (r: Value)
        ensures
            r == nullable_bool_value(b),
            r.wf(),
    {
        match b {
            Some(v) => Value::from_bool(v),
            None => Value::Null,
        }
    }

    /// Wraps a signed 128-bit integer.
    pub fn from_i128(v: i128) -> (r: Value)
        ensures
            r == Value::Number(Number::Int(v)),
            r.wf(),
    {
        Value::Number(Number::from_i128(v))
    }

    /// Creates a timestamp value from a microsecond count; counts outside
    /// the calendar range are rejected.
    pub fn new_timestamp(micros: i64) -> (r: Result<Value, Error>)
        ensures
            r == if timestamp_in_range(micros) {
                Ok::<Value, Error>(Value::Timestamp(micros))
            } else {
                Err::<Value, Error>(Error::InvalidArguments)
            },
            r matches Ok(v) ==> v.wf(),
    {
        if micros_in_range(micros) {
            Ok(Value::Timestamp(micros))
        } else {
            Err(Error::InvalidArguments)
        }
    }

    /// Parses `YYYY-MM-DD HH:MM:SS[.frac]` text into a timestamp value.
    /// Text whose count falls outside the calendar range -- chrono parses a
    /// leap second in the calendar's last second as one second past it --
    /// is rejected like any other malformed timestamp.
    pub fn parse_timestamp(text: &str) -> (r: Result<Value, Error>)
        ensures
            r == (match timestamp_micros_of_text(text@) {
                Some(m) => if timestamp_in_range(m) {
                    Ok::<Value, Error>(Value::Timestamp(m))
                } else {
                    Err::<Value, Error>(Error::InvalidTimestampString)
                },
                None => Err::<Value, Error>(Error::InvalidTimestampString),
            }),
            r matches Ok(v) ==> v.wf(),
    {
        match parse_timestamp_micros(text) {
            Some(m) => {
                if micros_in_range(m) {
                    Ok(Value::Timestamp(m))
                } else {
                    Err(Error::InvalidTimestampString)
                }
            },
            None => Err(Error::InvalidTimestampString),
        }
    }

    /// A deep copy: a value structurally equal to this one, equally
    /// well-formed, with the known-text flag of each byte string kept.
    pub fn dup(&self) -> (r: Value)
        ensures
            Value::spec_eq(r, *self),
            self.wf() ==> r.wf(),
        decreases self,
    {
        match self {
            Value::Null => Value::Null,
            Value::Number(n) => Value::Number(*n),
            Value::Bytes(b) => Value::Bytes(
                ByteString { bytes: clone_bytes(&b.bytes), known_utf8: b.known_utf8 },
            ),
            Value::Timestamp(t) => Value::Timestamp(*t),
            Value::Interval(v) => Value::Interval(*v),
            Value::Array(xs) => {
                let n = xs.len();
                let mut copies: Vec<Value> = Vec::new();
                let mut i: usize = 0;
                while i < n
                    invariant
                        0 <= i <= n,
                        n == xs@.len(),
                        *self == Value::Array(*xs),
                        copies@.len() == i,
                        forall|j: int|
                            0 <= j < i ==> Value::spec_eq(#[trigger] copies@[j], xs@[j]),
                        forall|j: int|
                            0 <= j < i ==> ((#[trigger] xs@[j]).wf() ==> copies@[j].wf()),
                    decreases n - i,
                {
                    proof {
                        assert(decreases_to!(*self => self->Array_0));
                        assert(*xs == self->Array_0);
                        assert(decreases_to!(*xs => xs@));
                        assert(decreases_to!(xs@ => xs@[i as int]));
                    }
                    copies.push(xs[i].dup());
                    i += 1;
                }
                Value::Array(copies)
            },
        }
    }

    /// Structural equality, as the `IS` operator sees it: NULL is NULL,
    /// and byte strings compare by their bytes.
    pub fn equals(&self, other: &Value) -> (r: bool)
        ensures
            r == Value::spec_eq(*self, *other),
        decreases self,
    {
        match (self, other) {
            (Value::Null, Value::Null) => true,
            (Value::Number(x), Value::Number(y)) => num_variant_eq(x, y),
            (Value::Bytes(x), Value::Bytes(y)) => eq_bytes(&x.bytes, &y.bytes),
            (Value::Timestamp(x), Value::Timestamp(y)) => x == y,
            (Value::Interval(x), Value::Interval(y)) => x == y,
            (Value::Array(x), Value::Array(y)) => {
                let n = x.len();
                if n != y.len() {
                    return false;
                }
                let mut i: usize = 0;
                while i < n
                    invariant
                        0 <= i <= n,
                        n == x@.len(),
                        n == y@.len(),
                        *self == Value::Array(*x),
                        *other == Value::Array(*y),
                        forall|j: int| 0 <= j < i ==> Value::spec_eq(#[trigger] x@[j], y@[j]),
                    decreases n - i,
                {
                    proof {
                        assert(decreases_to!(*self => self->Array_0));
                        assert(*x == self->Array_0);
                        assert(decreases_to!(*x => x@));
                        assert(decreases_to!(x@ => x@[i as int]));
                    }
                    if !x[i].equals(&y[i]) {
                        return false;
                    }
                    i += 1;
                }
                true
            },
            _ => false,
        }
    }

    /// Compares two values using the rules common among SQL
    /// implementations: any NULL operand compares with nothing, values of
    /// one variant order naturally (bytes lexicographically over unsigned
    /// bytes, arrays element-wise with the shorter array first), and
    /// values of different variants are an error.
    pub fn sql_cmp(&self, other: &Value) -> (r: Result<Option<core::cmp::Ordering>, Error>)
        requires
            self.wf(),
            other.wf(),
        ensures
            r == Value::spec_sql_cmp(*self, *other),
        decreases self,
    {
        match (self, other) {
            (Value::Null, _) => Ok(None),
            (_, Value::Null) => Ok(None),
            (Value::Number(x), Value::Number(y)) => Ok(Some(x.compare(y))),
            (Value::Bytes(x), Value::Bytes(y)) => Ok(Some(x.compare(y))),
            (Value::Timestamp(x), Value::Timestamp(y)) => Ok(Some(cmp_i64(*x, *y))),
            (Value::Interval(x), Value::Interval(y)) => Ok(Some(cmp_i64(*x, *y))),
            (Value::Array(x), Value::Array(y)) => {
                let n = x.len();
                let m = y.len();
                let mut i: usize = 0;
                proof {
                    assert(x@.skip(0) =~= x@);
                    assert(y@.skip(0) =~= y@);
                }
                while i < n && i < m
                    invariant
                        0 <= i <= n,
                        0 <= i <= m,
                        n == x@.len(),
                        m == y@.len(),
                        *self == Value::Array(*x),
                        *other == Value::Array(*y),
                        self.wf(),
                        other.wf(),
                        Value::spec_cmp_arrays(x@, y@) == Value::spec_cmp_arrays(
                            x@.skip(i as int),
                            y@.skip(i as int),
                        ),
                    decreases n - i,
                {
                    proof {
                        assert(decreases_to!(*self => self->Array_0));
                        assert(*x == self->Array_0);
                        assert(decreases_to!(*x => x@));
                        assert(decreases_to!(x@ => x@[i as int]));
                    }
                    let c = x[i].sql_cmp(&y[i]);
                    match c {
                        Ok(Some(core::cmp::Ordering::Equal)) => {
                            proof {
                                cmp_arrays_skip_step(x@, y@, i as int);
                            }
                        },
                        other_result => {
                            proof {
                                cmp_arrays_skip_open(x@, y@, i as int);
                            }
                            return other_result;
                        },
                    }
                    i += 1;
                }
                Ok(Some(cmp_usize(n - i, m - i)))
            },
            _ => Err(Error::InvalidArguments),
        }
    }

    /// Compares this value with the zero value of its own type.
    pub fn sql_sign(&self) -> (r: core::cmp::Ordering)
        requires
            self.wf(),
        ensures
            r == Value::spec_sql_sign(*self),
    {
        match self {
            Value::Null => core::cmp::Ordering::Equal,
            Value::Number(n) => n.sql_sign(),
            Value::Bytes(b) => {
                if b.len() == 0 {
                    core::cmp::Ordering::Equal
                } else {
                    core::cmp::Ordering::Greater
                }
            },
            Value::Timestamp(_) => core::cmp::Ordering::Greater,
            Value::Interval(v) => cmp_i64(*v, 0),
            Value::Array(xs) => {
                if xs.len() == 0 {
                    core::cmp::Ordering::Equal
                } else {
                    core::cmp::Ordering::Greater
                }
            },
        }
    }

    /// Negates the value.
    pub fn sql_neg(&self) -> (r: Result<Value, Error>)
        requires
            self.wf(),
        ensures
            r == Value::spec_sql_neg(*self),
            r matches Ok(v) ==> v.wf(),
    {
        match self {
            Value::Number(n) => match n.neg() {
                Ok(m) => Ok(Value::Number(m)),
                Err(_) => Err(Error::IntegerOverflow),
            },
            Value::Interval(v) => {
                if *v == i64::MIN {
                    Err(Error::IntegerOverflow)
                } else {
                    Ok(Value::Interval(-*v))
                }
            },
            _ => Err(Error::InvalidArguments),
        }
    }

    /// Adds two values using the rules common among SQL implementations.
    pub fn sql_add(&self, other: &Value) -> (r: Result<Value, Error>)
        requires
            self.wf(),
            other.wf(),
        ensures
            r == Value::spec_sql_add(*self, *other),
            r matches Ok(v) ==> v.wf(),
    {
        match (self, other) {
            (Value::Number(x), Value::Number(y)) => number_value(x.add(*y)),
            (Value::Timestamp(t), Value::Interval(d)) => shift_timestamp_to(
                *t as i128 + *d as i128,
            ),
            (Value::Interval(d), Value::Timestamp(t)) => shift_timestamp_to(
                *t as i128 + *d as i128,
            ),
            (Value::Interval(x), Value::Interval(y)) => match x.checked_add(*y) {
                Some(s) => Ok(Value::Interval(s)),
                None => Err(Error::IntegerOverflow),
            },
            _ => Err(Error::InvalidArguments),
        }
    }

    /// Subtracts two values using the rules common among SQL
    /// implementations.
    pub fn sql_sub(&self, other: &Value) -> (r: Result<Value, Error>)
        requires
            self.wf(),
            other.wf(),
        ensures
            r == Value::spec_sql_sub(*self, *other),
            r matches Ok(v) ==> v.wf(),
    {
        match (self, other) {
            (Value::Number(x), Value::Number(y)) => number_value(x.sub(*y)),
            (Value::Timestamp(x), Value::Timestamp(y)) => match x.checked_sub(*y) {
                Some(s) => Ok(Value::Interval(s)),
                None => Err(Error::IntegerOverflow),
            },
            (Value::Timestamp(t), Value::Interval(d)) => shift_timestamp_to(
                *t as i128 - *d as i128,
            ),
            (Value::Interval(x), Value::Interval(y)) => match x.checked_sub(*y) {
                Some(s) => Ok(Value::Interval(s)),
                None => Err(Error::IntegerOverflow),
            },
            _ => Err(Error::InvalidArguments),
        }
    }

    /// Multiplies two values using the rules common among SQL
    /// implementations.
    pub fn sql_mul(&self, other: &Value) -> (r: Result<Value, Error>)
        requires
            self.wf(),
            other.wf(),
        ensures
            r == Value::spec_sql_mul(*self, *other),
            r matches Ok(v) ==> v.wf(),
    {
        match (self, other) {
            (Value::Number(x), Value::Number(y)) => number_value(x.mul(*y)),
            (Value::Number(m), Value::Interval(d)) => {
                number_interval(Number::from_i64(*d).mul(*m))
            },
            (Value::Interval(d), Value::Number(m)) => {
                number_interval(Number::from_i64(*d).mul(*m))
            },
            _ => Err(Error::InvalidArguments),
        }
    }

    /// Divides two values, truncating toward zero; dividing by zero gives
    /// NULL.
    pub fn sql_div(&self, other: &Value) -> (r: Result<Value, Error>)
        requires
            self.wf(),
            other.wf(),
        ensures
            r == Value::spec_sql_div(*self, *other),
            r matches Ok(v) ==> v.wf(),
    {
        match (self, other) {
            (Value::Number(x), Value::Number(y)) => number_value(x.div(*y)),
            (Value::Interval(x), Value::Interval(y)) => {
                if *y == 0 {
                    Ok(Value::Null)
                } else {
                    match x.checked_div(*y) {
                        Some(q) => Ok(Value::Interval(q)),
                        None => Err(Error::IntegerOverflow),
                    }
                }
            },
            _ => Err(Error::InvalidArguments),
        }
    }

    /// The remainder of truncating division; a zero divisor gives NULL and
    /// a divisor of -1 gives zero exactly.
    pub fn sql_rem(&self, other: &Value) -> (r: Result<Value, Error>)
        requires
            self.wf(),
            other.wf(),
        ensures
            r == Value::spec_sql_rem(*self, *other),
            r matches Ok(v) ==> v.wf(),
    {
        match (self, other) {
            (Value::Number(x), Value::Number(y)) => number_value(x.rem(*y)),
            (Value::Interval(x), Value::Interval(y)) => {
                if *y == 0 {
                    Ok(Value::Null)
                } else if *y == -1 {
                    Ok(Value::Interval(0))
                } else {
                    proof {
                        crate::number::lemma_rem_trunc_form(*x as int, *y as int);
                    }
                    match x.checked_rem(*y) {
                        Some(m) => Ok(Value::Interval(m)),
                        None => Ok(Value::Interval(0)),
                    }
                }
            },
            _ => Err(Error::InvalidArguments),
        }
    }

    /// Checks whether this value is truthy in the SQL sense: all nonzero
    /// numbers are true; NULL and zero are false; other types have no
    /// truth value.
    pub fn is_sql_true(&self) -> (r: Result<bool, Error>)
        requires
            self.wf(),
        ensures
            r == Value::spec_is_sql_true(*self),
    {
        match self {
            Value::Null => Ok(false),
            Value::Number(n) => Ok(!matches!(n.sql_sign(), core::cmp::Ordering::Equal)),
            _ => Err(Error::InvalidArguments),
        }
    }

    /// What concatenating one value contributes: NULL makes the whole
    /// result NULL, scalars contribute their fixed text, arrays are an
    /// error, and so is a timestamp that the calendar cannot hold.
    pub open spec fn concat_piece(v: Value) -> Result<Option<(Seq<u8>, bool)>, Error> {
        match v {
            Value::Null => Ok(None),
            Value::Number(n) => Ok(Some((dec_number(n), true))),
            Value::Bytes(b) => Ok(Some((b@, b.known_utf8))),
            Value::Timestamp(t) => if timestamp_in_range(t) {
                Ok(Some((timestamp_text(t), true)))
            } else {
                Err(Error::InvalidArguments)
            },
            Value::Interval(x) => Ok(Some((interval_text(x as int), true))),
            Value::Array(_) => Err(Error::InvalidArguments),
        }
    }

    /// What concatenating the values from position `i` on yields: the
    /// bytes and their known-text flag, `None` for a NULL result, or the
    /// first error.
    pub open spec fn spec_concat_from(items: Seq<Value>, i: int) -> Result<
        Option<(Seq<u8>, bool)>,
        Error,
    >
        decreases items.len() - i,
    {
        if i < 0 || i >= items.len() {
            Ok(Some((Seq::<u8>::empty(), true)))
        } else {
            match Value::concat_piece(items[i]) {
                Ok(None) => Ok(None),
                Ok(Some(piece)) => concat_combine(piece.0, piece.1, Value::spec_concat_from(items, i + 1)),
                Err(e) => Err(e),
            }
        }
    }

    /// Concatenates values into one byte string: the result is NULL if any
    /// value is NULL, each scalar contributes its fixed text, and an array
    /// operand is an error.
    pub fn sql_concat(values: &[Value]) -> (r: Result<Value, Error>)
        ensures
            ({
                let c = Value::spec_concat_from(values@, 0);
                &&& (c matches Ok(Some(t)) ==> (r matches Ok(v) && v matches Value::Bytes(b)
                    && b@ == t.0 && b.known_utf8 == t.1))
                &&& (c matches Ok(p) && p is None ==> r == Ok::<Value, Error>(Value::Null))
                &&& (c matches Err(e) ==> r == Err::<Value, Error>(e))
            }),
    {
        let mut res = ByteString::new();
        let n = values.len();
        let mut i: usize = 0;
        proof {
            concat_prefix_init(values@, res@, res.known_utf8);
        }
        while i < n
            invariant
                0 <= i <= n,
                n == values@.len(),
                Value::spec_concat_from(values@, 0) == concat_combine(
                    res@,
                    res.known_utf8,
                    Value::spec_concat_from(values@, i as int),
                ),
            decreases n - i,
        {
            let item = &values[i];
            match item {
                Value::Null => {
                    return Ok(Value::Null);
                },
                Value::Number(x) => {
                    res.extend_number(x);
                    proof {
                        concat_prefix_step(values@, i as int, dec_number(*x), true);
                    }
                },
                Value::Bytes(b) => {
                    let ghost piece = b@;
                    let ghost piece_utf8 = b.known_utf8;
                    res.extend_byte_string(b);
                    proof {
                        concat_prefix_step(values@, i as int, piece, piece_utf8);
                    }
                },
                Value::Timestamp(t) => {
                    match format_timestamp(*t) {
                        Some(text) => {
                            res.extend_text_bytes(text.as_slice());
                            proof {
                                concat_prefix_step(values@, i as int, timestamp_text(*t), true);
                            }
                        },
                        None => {
                            return Err(Error::InvalidArguments);
                        },
                    }
                },
                Value::Interval(x) => {
                    let ghost res0 = res@;
                    let prefix: [u8; 9] = [73u8, 78u8, 84u8, 69u8, 82u8, 86u8, 65u8, 76u8, 32u8];
                    res.extend_text_bytes(prefix.as_slice());
                    proof {
                        assert(prefix@ =~= interval_prefix());
                    }
                    let digits = format_i64(*x);
                    res.extend_text_bytes(digits.as_slice());
                    let suffix: [u8; 12] = [
                        32u8, 77u8, 73u8, 67u8, 82u8, 79u8, 83u8, 69u8, 67u8, 79u8, 78u8, 68u8,
                    ];
                    res.extend_text_bytes(suffix.as_slice());
                    proof {
                        assert(suffix@ =~= microsecond_suffix());
                        assert(res@ =~= res0 + interval_text(*x as int));
                        concat_prefix_step(values@, i as int, interval_text(*x as int), true);
                    }
                },
                Value::Array(_) => {
                    return Err(Error::InvalidArguments);
                },
            }
            i += 1;
        }
        proof {
            assert(res@ + Seq::<u8>::empty() =~= res@);
        }
        Ok(Value::Bytes(res))
    }

    /// What converting to a signed 128-bit integer yields: the value of a
    /// number that fits; an error for anything else.
    pub open spec fn spec_to_i128(a: Value) -> Result<i128, Error> {
        match a {
            Value::Number(n) => if n.as_int() <= i128::MAX {
                Ok(n.as_int() as i128)
            } else {
                Err(Error::UnexpectedValueType)
            },
            _ => Err(Error::UnexpectedValueType),
        }
    }

    /// The numeric value, exactly when this is a number that fits a signed
    /// 128-bit integer.
    pub fn to_i128(&self) -> (r: Result<i128, Error>)
        requires
            self.wf(),
        ensures
            r == Value::spec_to_i128(*self),
    {
        match self {
            Value::Number(n) => match n.try_to_i128() {
                Some(v) => Ok(v),
                None => Err(Error::UnexpectedValueType),
            },
            _ => Err(Error::UnexpectedValueType),
        }
    }

    /// What converting to a nullable truth value yields: NULL has none,
    /// numbers are true when nonzero, and nothing else converts.
    pub open spec fn spec_to_nullable_bool(a: Value) -> Result<Option<bool>, Error> {
        match a {
            Value::Null => Ok(None),
            Value::Number(n) => Ok(Some(n.as_int() != 0)),
            _ => Err(Error::UnexpectedValueType),
        }
    }

    /// The truth value, with NULL as its absence: numbers are true when
    /// nonzero; other types do not convert.
    pub fn to_nullable_bool(&self) -> (r: Result<Option<bool>, Error>)
        requires
            self.wf(),
        ensures
            r == Value::spec_to_nullable_bool(*self),
    {
        match self {
            Value::Null => Ok(None),
            Value::Number(n) => Ok(Some(!matches!(n.sql_sign(), core::cmp::Ordering::Equal))),
            _ => Err(Error::UnexpectedValueType),
        }
    }
}

/// Walking past an equal pair of elements keeps the array comparison.
proof fn cmp_arrays_skip_step(x: Seq<Value>, y: Seq<Value>, i: int)
    requires
        0 <= i < x.len(),
        0 <= i < y.len(),
        Value::spec_sql_cmp(x[i], y[i]) == Ok::<Option<core::cmp::Ordering>, Error>(
            Some(core::cmp::Ordering::Equal),
        ),
    ensures
        Value::spec_cmp_arrays(x.skip(i), y.skip(i)) == Value::spec_cmp_arrays(
            x.skip(i + 1),
            y.skip(i + 1),
        ),
{
    assert(x.skip(i)[0] == x[i]);
    assert(y.skip(i)[0] == y[i]);
    assert(x.skip(i).skip(1) =~= x.skip(i + 1));
    assert(y.skip(i).skip(1) =~= y.skip(i + 1));
}

/// An unequal or failing pair of elements decides the array comparison.
proof fn cmp_arrays_skip_open(x: Seq<Value>, y: Seq<Value>, i: int)
    requires
        0 <= i < x.len(),
        0 <= i < y.len(),
    ensures
        Value::spec_cmp_arrays(x.skip(i), y.skip(i)) == (match Value::spec_sql_cmp(x[i], y[i]) {
            Ok(Some(core::cmp::Ordering::Equal)) => Value::spec_cmp_arrays(
                x.skip(i + 1),
                y.skip(i + 1),
            ),
            other => other,
        }),
{
    assert(x.skip(i)[0] == x[i]);
    assert(y.skip(i)[0] == y[i]);
    assert(x.skip(i).skip(1) =~= x.skip(i + 1));
    assert(y.skip(i).skip(1) =~= y.skip(i + 1));
}

/// Joins one piece onto whatever the rest of a concatenation yields.
pub open spec fn concat_combine(
    piece: Seq<u8>,
    piece_utf8: bool,
    rest: Result<Option<(Seq<u8>, bool)>, Error>,
) -> Result<Option<(Seq<u8>, bool)>, Error> {
    match rest {
        Ok(Some(t)) => Ok(Some((piece + t.0, piece_utf8 && t.1))),
        other => other,
    }
}

/// An empty prefix combines to the whole concatenation.
proof fn concat_prefix_init(items: Seq<Value>, acc: Seq<u8>, utf8: bool)
    requires
        acc == Seq::<u8>::empty(),
        utf8 == true,
    ensures
        Value::spec_concat_from(items, 0) == concat_combine(
            acc,
            utf8,
            Value::spec_concat_from(items, 0),
        ),
{
    match Value::spec_concat_from(items, 0) {
        Ok(Some(t)) => {
            assert(acc + t.0 =~= t.0);
        },
        _ => {},
    }
}

/// Consuming one element moves its text from the rest into the prefix.
proof fn concat_prefix_step(items: Seq<Value>, i: int, piece: Seq<u8>, piece_utf8: bool)
    requires
        0 <= i < items.len(),
        Value::concat_piece(items[i]) == Ok::<Option<(Seq<u8>, bool)>, Error>(
            Some((piece, piece_utf8)),
        ),
    ensures
        forall|acc: Seq<u8>, utf8: bool|
            #[trigger] concat_combine(acc, utf8, Value::spec_concat_from(items, i))
                == concat_combine(
                acc + piece,
                utf8 && piece_utf8,
                Value::spec_concat_from(items, i + 1),
            ),
{
    assert forall|acc: Seq<u8>, utf8: bool|
        #[trigger] concat_combine(acc, utf8, Value::spec_concat_from(items, i)) == concat_combine(
        acc + piece,
        utf8 && piece_utf8,
        Value::spec_concat_from(items, i + 1),
    ) by {
        match Value::spec_concat_from(items, i + 1) {
            Ok(Some(t)) => {
                assert(acc + (piece + t.0) =~= (acc + piece) + t.0);
            },
            _ => {},
        }
    }
}

/// Maps a numeric result onto a value, as `number_result_value` says.
fn number_value(r: Result<Number, NumberError>) -> (out: Result<Value, Error>)
    ensures
        out == number_result_value(r),
        (r matches Ok(n) && n.wf()) ==> (out matches Ok(v) && v.wf()),
{
    match r {
        Ok(n) => Ok(Value::Number(n)),
        Err(NumberError::NaN) => Ok(Value::Null),
        Err(NumberError::Overflow) => Err(Error::IntegerOverflow),
    }
}

/// Maps a numeric result onto an interval, as `number_result_interval`
/// says.
fn number_interval(r: Result<Number, NumberError>) -> (out: Result<Value, Error>)
    requires
        r matches Ok(n) ==> n.wf(),
    ensures
        out == number_result_interval(r),
        out matches Ok(v) ==> v.wf(),
{
    match r {
        Ok(n) => match n.try_to_i64() {
            Some(v) => Ok(Value::Interval(v)),
            None => Err(Error::IntegerOverflow),
        },
        Err(NumberError::NaN) => Ok(Value::Null),
        Err(NumberError::Overflow) => Err(Error::IntegerOverflow),
    }
}

/// Lands a shifted timestamp, reporting overflow past either the 64-bit
/// count or the calendar range.
fn shift_timestamp_to(s: i128) -> (r: Result<Value, Error>)
    ensures
        r == Value::spec_shift_timestamp(s as int),
        r matches Ok(v) ==> v.wf(),
{
    if i64::MIN as i128 <= s && s <= i64::MAX as i128 {
        let s64 = s as i64;
        if micros_in_range(s64) {
            Ok(Value::Timestamp(s64))
        } else {
            Err(Error::IntegerOverflow)
        }
    } else {
        Err(Error::IntegerOverflow)
    }
}

/// Compares two signed 64-bit integers.
fn cmp_i64(a: i64, b: i64) -> (r: core::cmp::Ordering)
    ensures
        r == ord_of(a as int, b as int),
{
    if a < b {
        core::cmp::Ordering::Less
    } else if a == b {
        core::cmp::Ordering::Equal
    } else {
        core::cmp::Ordering::Greater
    }
}

/// Whether two numbers have the same representation.
fn num_variant_eq(x: &Number, y: &Number) -> (r: bool)
    ensures
        r == (x == y),
{
    match (x, y) {
        (Number::Int(a), Number::Int(b)) => a == b,
        (Number::UInt(a), Number::UInt(b)) => a == b,
        _ => false,
    }
}

/// Compares two lengths.
fn cmp_usize(a: usize, b: usize) -> (r: core::cmp::Ordering)
    ensures
        r == ord_of(a as int, b as int),
{
    if a < b {
        core::cmp::Ordering::Less
    } else if a == b {
        core::cmp::Ordering::Equal
    } else {
        core::cmp::Ordering::Greater
    }
}

/// Whether two byte vectors hold the same bytes.
fn eq_bytes(a: &Vec<u8>, b: &Vec<u8>) -> (r: bool)
    ensures
        r == (a@ == b@),
{
    let n = a.len();
    if n != b.len() {
        return false;
    }
    let mut i: usize = 0;
    while i < n
        invariant
            0 <= i <= n,
            n == a@.len(),
            n == b@.len(),
            forall|j: int| 0 <= j < i ==> a@[j] == b@[j],
        decreases n - i,
    {
        if a[i] != b[i] {
            return false;
        }
        i += 1;
    }
    proof {
        assert(a@ =~= b@);
    }
    true
}

/// Concatenating a lone integer yields its decimal text, and parsing that
/// text as an integer yields the value back, for every signed 128-bit
/// integer.
pub proof fn lemma_concat_parse_roundtrip(i: i128)
    ensures
        ({
            let c = Value::spec_concat_from(seq![Value::Number(Number::Int(i))], 0);
            c matches Ok(Some(t)) && crate::bytes::spec_parse_i128(t.0) == Some(i)
        }),
{
    let items = seq![Value::Number(Number::Int(i))];
    assert(items[0] == Value::Number(Number::Int(i)));
    assert(Value::spec_concat_from(items, 1) == Ok::<Option<(Seq<u8>, bool)>, Error>(
        Some((Seq::<u8>::empty(), true)),
    ));
    assert(dec_number(Number::Int(i)) + Seq::<u8>::empty() =~= dec_number(Number::Int(i)));
    crate::bytes::lemma_parse_dec_roundtrip(i);
}

/// NULL compares with nothing: comparing any value with NULL, on either
/// side, yields no ordering.
pub proof fn lemma_null_propagation(v: Value)
    ensures
        Value::spec_sql_cmp(v, Value::Null) == Ok::<Option<core::cmp::Ordering>, Error>(None),
        Value::spec_sql_cmp(Value::Null, v) == Ok::<Option<core::cmp::Ordering>, Error>(None),
{
}

/// Negation is an involution: negating a well-formed value twice, where the
/// first negation does not overflow, gives the value back; the second
/// negation never overflows.
pub proof fn lemma_neg_involution(v: Value)
    requires
        v.wf(),
        Value::spec_sql_neg(v) is Ok,
    ensures
        Value::spec_sql_neg(v) matches Ok(m) && Value::spec_sql_neg(m) == Ok::<Value, Error>(v),
{
    match v {
        Value::Number(n) => {
            let m = Number::spec_neg(n)->Ok_0;
            assert(m.as_int() == -n.as_int());
            assert(Number::spec_neg(m) == Ok::<Number, NumberError>(Number::of_int(n.as_int())));
            match n {
                Number::Int(_) => {},
                Number::UInt(_) => {},
            }
        },
        _ => {},
    }
}

/// Copies a byte vector.
fn clone_bytes(v: &Vec<u8>) -> (r: Vec<u8>)
    ensures
        r@ == v@,
{
    vstd::slice::slice_to_vec(v.as_slice())
}

} // verus!
