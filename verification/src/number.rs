//! The numeric tower: exact 128-bit signed and unsigned integers with
//! promotion between the two and explicit overflow reporting.

use vstd::prelude::*;
use vstd::math::abs;

verus! {

/// A numeric scalar.
///
/// The representation is canonical: the unsigned variant holds only values
/// above `i128::MAX`, so structural equality coincides with equality of the
/// mathematical values.
#[derive(Clone, Copy, Debug, PartialEq, Eq, Structural)]
pub enum Number {
    /// A signed 128-bit integer.
    Int(i128),
    /// An unsigned 128-bit integer; always above `i128::MAX`.
    UInt(u128),
}

/// Why a numeric operation produced no number.
#[derive(Clone, Copy, Debug, PartialEq, Eq, Structural)]
pub enum NumberError {
    /// The result left the range `i128::MIN ..= u128::MAX`.
    Overflow,
    /// The operation is undefined, as dividing by zero is.
    NaN,
}

/// Whether a mathematical integer fits one of the two variants.
pub open spec fn number_in_range(v: int) -> bool {
    i128::MIN <= v <= u128::MAX
}

/// Integer division truncated toward zero.
pub open spec fn div_trunc(a: int, b: int) -> int
    recommends
        b != 0,
{
    if (a < 0) == (b < 0) {
        abs(a) as int / abs(b) as int
    } else {
        -(abs(a) as int / abs(b) as int)
    }
}

/// Remainder of truncating division, so that `a == b * q + r` with the
/// remainder taking the dividend's sign.
pub open spec fn rem_trunc(a: int, b: int) -> int
    recommends
        b != 0,
{
    a - b * div_trunc(a, b)
}

/// The remainder of truncating division has the dividend's sign and a
/// magnitude below the divisor's.
pub proof fn lemma_rem_trunc_form(a: int, b: int)
    requires
        b != 0,
    ensures
        rem_trunc(a, b) == if a >= 0 {
            abs(a) as int % abs(b) as int
        } else {
            -(abs(a) as int % abs(b) as int)
        },
        -(abs(b) as int) < rem_trunc(a, b) < abs(b) as int,
{
    let ua = abs(a) as int;
    let ub = abs(b) as int;
    let q0 = ua / ub;
    let r0 = ua % ub;
    vstd::arithmetic::div_mod::lemma_fundamental_div_mod(ua, ub);
    assert(0 <= r0 < ub);
    if (a < 0) == (b < 0) {
        if a >= 0 {
            assert(a - b * q0 == ua - ub * q0);
        } else {
            assert(b * q0 == -(ub * q0)) by (nonlinear_arith)
                requires b == -ub;
            assert(a - b * q0 == -(ua - ub * q0));
        }
    } else {
        if a >= 0 {
            assert(b * -q0 == ub * q0) by (nonlinear_arith)
                requires b == -ub;
            assert(a - b * (-q0) == ua - ub * q0);
        } else {
            assert(b * -q0 == -(ub * q0)) by (nonlinear_arith)
                requires b == ub;
            assert(a - b * (-q0) == -(ua - ub * q0));
        }
    }
}

/// The magnitude of a product is the product of the magnitudes, and the
/// product's sign follows the operands' signs.
pub proof fn lemma_mul_abs_sign(a: int, b: int)
    ensures
        abs(a) * abs(b) == abs(a * b),
        a != 0 && b != 0 && (a < 0) == (b < 0) ==> a * b > 0,
        (a < 0) != (b < 0) ==> a * b <= 0,
{
    assert(abs(a) as int * abs(b) as int == abs(a * b) as int && (a != 0 && b != 0 && (a < 0)
        == (b < 0) ==> a * b > 0) && ((a < 0) != (b < 0) ==> a * b <= 0)) by (nonlinear_arith);
}

impl Number {
    /// The mathematical value.
    pub open spec fn as_int(self) -> int {
        match self {
            Number::Int(i) => i as int,
            Number::UInt(u) => u as int,
        }
    }

    /// Canonical form: the unsigned variant holds only values that the
    /// signed variant cannot.
    pub open spec fn wf(self) -> bool {
        match self {
            Number::Int(_) => true,
            Number::UInt(u) => u > i128::MAX,
        }
    }

    /// The canonical representation of a mathematical integer in range.
    pub open spec fn of_int(v: int) -> Number
        recommends
            number_in_range(v),
    {
        if v <= i128::MAX {
            Number::Int(v as i128)
        } else {
            Number::UInt(v as u128)
        }
    }

    /// What addition returns: the canonical sum, or overflow.
    pub open spec fn spec_add(a: Number, b: Number) -> Result<Number, NumberError> {
        let s = a.as_int() + b.as_int();
        if number_in_range(s) {
            Ok(Number::of_int(s))
        } else {
            Err(NumberError::Overflow)
        }
    }

    /// What subtraction returns: the canonical difference, or overflow.
    pub open spec fn spec_sub(a: Number, b: Number) -> Result<Number, NumberError> {
        let s = a.as_int() - b.as_int();
        if number_in_range(s) {
            Ok(Number::of_int(s))
        } else {
            Err(NumberError::Overflow)
        }
    }

    /// What multiplication returns: the canonical product, or overflow.
    pub open spec fn spec_mul(a: Number, b: Number) -> Result<Number, NumberError> {
        let s = a.as_int() * b.as_int();
        if number_in_range(s) {
            Ok(Number::of_int(s))
        } else {
            Err(NumberError::Overflow)
        }
    }

    /// What truncating division returns: undefined on a zero divisor, the
    /// canonical quotient otherwise, or overflow.
    pub open spec fn spec_div(a: Number, b: Number) -> Result<Number, NumberError> {
        if b.as_int() == 0 {
            Err(NumberError::NaN)
        } else {
            let q = div_trunc(a.as_int(), b.as_int());
            if number_in_range(q) {
                Ok(Number::of_int(q))
            } else {
                Err(NumberError::Overflow)
            }
        }
    }

    /// What the remainder returns: undefined on a zero divisor, the
    /// canonical remainder of truncating division otherwise.
    pub open spec fn spec_rem(a: Number, b: Number) -> Result<Number, NumberError> {
        if b.as_int() == 0 {
            Err(NumberError::NaN)
        } else {
            Ok(Number::of_int(rem_trunc(a.as_int(), b.as_int())))
        }
    }

    /// What negation returns: the canonical negated value, or overflow.
    pub open spec fn spec_neg(a: Number) -> Result<Number, NumberError> {
        if number_in_range(-a.as_int()) {
            Ok(Number::of_int(-a.as_int()))
        } else {
            Err(NumberError::Overflow)
        }
    }

    /// Wraps a signed integer.
    pub fn from_i64(v: i64) -> (r: Number)
        ensures
            r.wf(),
            r.as_int() == v as int,
    {
        Number::Int(v as i128)
    }

    /// Wraps a signed 128-bit integer.
    pub fn from_i128(v: i128) -> (r: Number)
        ensures
            r.wf(),
            r.as_int() == v as int,
    {
        Number::Int(v)
    }

    /// Wraps an unsigned 128-bit integer in canonical form.
    pub fn from_u128(v: u128) -> (r: Number)
        ensures
            r.wf(),
            r == Number::of_int(v as int),
    {
        if v <= i128::MAX as u128 {
            Number::Int(v as i128)
        } else {
            Number::UInt(v)
        }
    }

    /// The value when it fits a signed 128-bit integer.
    pub fn try_to_i128(&self) -> (r: Option<i128>)
        requires
            self.wf(),
        ensures
            r == if self.as_int() <= i128::MAX {
                Some(self.as_int() as i128)
            } else {
                None::<i128>
            },
    {
        match self {
            Number::Int(i) => Some(*i),
            Number::UInt(_) => None,
        }
    }

    /// The value when it fits a signed 64-bit integer.
    pub fn try_to_i64(&self) -> (r: Option<i64>)
        requires
            self.wf(),
        ensures
            r == if i64::MIN <= self.as_int() <= i64::MAX {
                Some(self.as_int() as i64)
            } else {
                None::<i64>
            },
    {
        match self {
            Number::Int(i) => {
                if i64::MIN as i128 <= *i && *i <= i64::MAX as i128 {
                    Some(*i as i64)
                } else {
                    None
                }
            },
            Number::UInt(_) => None,
        }
    }

    /// Compares two numbers by mathematical value.
    pub fn compare(&self, other: &Self) -> (r: core::cmp::Ordering)
        requires
            self.wf(),
            other.wf(),
        ensures
            r == ord_of(self.as_int(), other.as_int()),
    {
        match (self, other) {
            (Number::Int(a), Number::Int(b)) => cmp_i128(*a, *b),
            (Number::UInt(a), Number::UInt(b)) => {
                if *a < *b {
                    core::cmp::Ordering::Less
                } else if *a == *b {
                    core::cmp::Ordering::Equal
                } else {
                    core::cmp::Ordering::Greater
                }
            },
            (Number::Int(_), Number::UInt(_)) => core::cmp::Ordering::Less,
            (Number::UInt(_), Number::Int(_)) => core::cmp::Ordering::Greater,
        }
    }

    /// Compares the number with zero.
    pub fn sql_sign(&self) -> (r: core::cmp::Ordering)
        requires
            self.wf(),
        ensures
            r == ord_of(self.as_int(), 0),
    {
        match self {
            Number::Int(i) => cmp_i128(*i, 0),
            Number::UInt(_) => core::cmp::Ordering::Greater,
        }
    }

    /// Adds two numbers, promoting between the variants.
    pub fn add(self, other: Self) -> (r: Result<Number, NumberError>)
        requires
            self.wf(),
            other.wf(),
        ensures
            r == Number::spec_add(self, other),
            r matches Ok(n) ==> n.wf(),
    {
        match (self, other) {
            (Number::Int(a), Number::Int(b)) => match a.checked_add(b) {
                Some(c) => Ok(Number::Int(c)),
                None => {
                    if a > 0 {
                        Ok(Number::UInt(a as u128 + b as u128))
                    } else {
                        Err(NumberError::Overflow)
                    }
                },
            },
            (Number::UInt(a), Number::UInt(b)) => match a.checked_add(b) {
                Some(c) => Ok(Number::UInt(c)),
                None => Err(NumberError::Overflow),
            },
            (Number::Int(a), Number::UInt(b)) => add_int_uint(a, b),
            (Number::UInt(a), Number::Int(b)) => add_int_uint(b, a),
        }
    }

    /// Subtracts a number from this one, promoting between the variants.
    pub fn sub(self, other: Self) -> (r: Result<Number, NumberError>)
        requires
            self.wf(),
            other.wf(),
        ensures
            r == Number::spec_sub(self, other),
            r matches Ok(n) ==> n.wf(),
    {
        match (self, other) {
            (Number::Int(a), Number::Int(b)) => match a.checked_sub(b) {
                Some(c) => Ok(Number::Int(c)),
                None => {
                    if a >= 0 {
                        Ok(Number::UInt(a as u128 + abs_u128(b)))
                    } else {
                        Err(NumberError::Overflow)
                    }
                },
            },
            (Number::UInt(a), Number::UInt(b)) => {
                if a >= b {
                    Ok(Number::from_u128(a - b))
                } else {
                    neg_of_u128(b - a)
                }
            },
            (Number::Int(a), Number::UInt(b)) => {
                if a >= 0 {
                    neg_of_u128(b - a as u128)
                } else {
                    match b.checked_add(abs_u128(a)) {
                        Some(m) => neg_of_u128(m),
                        None => Err(NumberError::Overflow),
                    }
                }
            },
            (Number::UInt(a), Number::Int(b)) => {
                if b >= 0 {
                    Ok(Number::from_u128(a - b as u128))
                } else {
                    match a.checked_add(abs_u128(b)) {
                        Some(c) => Ok(Number::UInt(c)),
                        None => Err(NumberError::Overflow),
                    }
                }
            },
        }
    }

    /// Multiplies two numbers, promoting between the variants.
    pub fn mul(self, other: Self) -> (r: Result<Number, NumberError>)
        requires
            self.wf(),
            other.wf(),
        ensures
            r == Number::spec_mul(self, other),
            r matches Ok(n) ==> n.wf(),
    {
        match (self, other) {
            (Number::Int(a), Number::Int(b)) => match a.checked_mul(b) {
                Some(c) => Ok(Number::Int(c)),
                None => {
                    proof {
                        lemma_mul_abs_sign(a as int, b as int);
                    }
                    match abs_u128(a).checked_mul(abs_u128(b)) {
                        Some(m) => {
                            if (a < 0) == (b < 0) {
                                Ok(Number::UInt(m))
                            } else {
                                neg_of_u128(m)
                            }
                        },
                        None => Err(NumberError::Overflow),
                    }
                },
            },
            (Number::UInt(a), Number::UInt(b)) => {
                proof {
                    lemma_mul_abs_sign(a as int, b as int);
                    assert(a as int * b as int >= a as int * 1) by (nonlinear_arith)
                        requires b >= 1, a >= 0;
                }
                match a.checked_mul(b) {
                    Some(c) => Ok(Number::UInt(c)),
                    None => Err(NumberError::Overflow),
                }
            },
            (Number::Int(a), Number::UInt(b)) => mul_int_uint(a, b),
            (Number::UInt(a), Number::Int(b)) => {
                let r = mul_int_uint(b, a);
                proof {
                    assert(b as int * a as int == a as int * b as int) by (nonlinear_arith);
                }
                r
            },
        }
    }

    /// Divides this number by another, truncating toward zero. A zero
    /// divisor is undefined rather than an overflow.
    pub fn div(self, other: Self) -> (r: Result<Number, NumberError>)
        requires
            self.wf(),
            other.wf(),
        ensures
            r == Number::spec_div(self, other),
            r matches Ok(n) ==> n.wf(),
    {
        match (self, other) {
            (Number::Int(a), Number::Int(b)) => {
                if b == 0 {
                    Err(NumberError::NaN)
                } else {
                    match a.checked_div(b) {
                        Some(q) => Ok(Number::Int(q)),
                        None => Ok(Number::UInt(i128::MAX as u128 + 1)),
                    }
                }
            },
            (Number::UInt(a), Number::UInt(b)) => Ok(Number::from_u128(a / b)),
            (Number::Int(a), Number::UInt(b)) => {
                let m = abs_u128(a);
                if m == b {
                    Ok(Number::Int(-1))
                } else {
                    proof {
                        vstd::arithmetic::div_mod::lemma_basic_div(m as int, b as int);
                    }
                    Ok(Number::Int(0))
                }
            },
            (Number::UInt(a), Number::Int(b)) => {
                if b == 0 {
                    Err(NumberError::NaN)
                } else if b > 0 {
                    Ok(Number::from_u128(a / (b as u128)))
                } else {
                    neg_of_u128(a / abs_u128(b))
                }
            },
        }
    }

    /// The remainder of truncating division; it has the dividend's sign.
    /// A zero divisor is undefined.
    pub fn rem(self, other: Self) -> (r: Result<Number, NumberError>)
        requires
            self.wf(),
            other.wf(),
        ensures
            r == Number::spec_rem(self, other),
            r matches Ok(n) ==> n.wf(),
    {
        match (self, other) {
            (Number::Int(a), Number::Int(b)) => {
                if b == 0 {
                    Err(NumberError::NaN)
                } else {
                    proof {
                        lemma_rem_trunc_form(a as int, b as int);
                    }
                    match a.checked_rem(b) {
                        Some(c) => Ok(Number::Int(c)),
                        None => Ok(Number::Int(0)),
                    }
                }
            },
            (Number::UInt(a), Number::UInt(b)) => {
                proof {
                    lemma_rem_trunc_form(a as int, b as int);
                }
                Ok(Number::from_u128(a % b))
            },
            (Number::Int(a), Number::UInt(b)) => {
                proof {
                    lemma_rem_trunc_form(a as int, b as int);
                }
                let m = abs_u128(a);
                if m == b {
                    proof {
                        vstd::arithmetic::div_mod::lemma_mod_self_0(b as int);
                    }
                    Ok(Number::Int(0))
                } else {
                    proof {
                        vstd::arithmetic::div_mod::lemma_small_mod(
                            abs(a as int) as nat,
                            b as nat,
                        );
                    }
                    Ok(Number::Int(a))
                }
            },
            (Number::UInt(a), Number::Int(b)) => {
                if b == 0 {
                    Err(NumberError::NaN)
                } else {
                    proof {
                        lemma_rem_trunc_form(a as int, b as int);
                    }
                    Ok(Number::from_u128(a % abs_u128(b)))
                }
            },
        }
    }

    /// Negates the number.
    pub fn neg(self) -> (r: Result<Number, NumberError>)
        requires
            self.wf(),
        ensures
            r == Number::spec_neg(self),
            r matches Ok(n) ==> n.wf(),
    {
        match self {
            Number::Int(a) => {
                if a == i128::MIN {
                    Ok(Number::UInt(i128::MAX as u128 + 1))
                } else {
                    Ok(Number::Int(-a))
                }
            },
            Number::UInt(u) => neg_of_u128(u),
        }
    }
}

/// The ordering of two mathematical integers.
pub open spec fn ord_of(a: int, b: int) -> core::cmp::Ordering {
    if a < b {
        core::cmp::Ordering::Less
    } else if a == b {
        core::cmp::Ordering::Equal
    } else {
        core::cmp::Ordering::Greater
    }
}

fn cmp_i128(a: i128, b: i128) -> (r: core::cmp::Ordering)
    ensures
        r == ord_of(a as int, b as int),
{
    if a < b {
        core::cmp::Ordering::Less
    } else if a == b {
        core::cmp::Ordering::Equal
    } else {
        core::cmp::Ordering::Greater
    }
}

/// The magnitude of a signed 128-bit integer.
fn abs_u128(a: i128) -> (r: u128)
    ensures
        r as int == abs(a as int),
{
    if a >= 0 {
        a as u128
    } else {
        (-(a + 1)) as u128 + 1
    }
}

/// The canonical representation of the negation of a magnitude.
fn neg_of_u128(m: u128) -> (r: Result<Number, NumberError>)
    ensures
        r == if number_in_range(-(m as int)) {
            Ok::<Number, NumberError>(Number::of_int(-(m as int)))
        } else {
            Err::<Number, NumberError>(NumberError::Overflow)
        },
        r matches Ok(n) ==> n.wf(),
{
    if m <= i128::MAX as u128 {
        Ok(Number::Int(-(m as i128)))
    } else if m == i128::MAX as u128 + 1 {
        Ok(Number::Int(i128::MIN))
    } else {
        Err(NumberError::Overflow)
    }
}

/// Adds a signed integer to a canonical unsigned one.
fn add_int_uint(a: i128, b: u128) -> (r: Result<Number, NumberError>)
    requires
        b > i128::MAX,
    ensures
        r == Number::spec_add(Number::Int(a), Number::UInt(b)),
        r matches Ok(n) ==> n.wf(),
{
    if a >= 0 {
        match b.checked_add(a as u128) {
            Some(c) => Ok(Number::UInt(c)),
            None => Err(NumberError::Overflow),
        }
    } else {
        Ok(Number::from_u128(b - abs_u128(a)))
    }
}

/// Multiplies a signed integer with a canonical unsigned one.
fn mul_int_uint(a: i128, b: u128) -> (r: Result<Number, NumberError>)
    requires
        b > i128::MAX,
    ensures
        r == Number::spec_mul(Number::Int(a), Number::UInt(b)),
        r matches Ok(n) ==> n.wf(),
{
    proof {
        lemma_mul_abs_sign(a as int, b as int);
    }
    if a == 0 {
        Ok(Number::Int(0))
    } else if a > 0 {
        proof {
            assert(a as int * b as int >= 1 * b as int) by (nonlinear_arith)
                requires a >= 1, b >= 0;
        }
        proof {
            assert(b as int * a as int == a as int * b as int) by (nonlinear_arith);
        }
        match b.checked_mul(a as u128) {
            Some(c) => Ok(Number::UInt(c)),
            None => Err(NumberError::Overflow),
        }
    } else {
        match abs_u128(a).checked_mul(b) {
            Some(m) => neg_of_u128(m),
            None => Err(NumberError::Overflow),
        }
    }
}

/// Addition of numbers is commutative, exactly: both orders give the same
/// representation or the same error.
pub proof fn lemma_add_commutative(a: Number, b: Number)
    ensures
        Number::spec_add(a, b) == Number::spec_add(b, a),
{
}

/// Multiplication of numbers is commutative, exactly: both orders give the
/// same representation or the same error.
pub proof fn lemma_mul_commutative(a: Number, b: Number)
    ensures
        Number::spec_mul(a, b) == Number::spec_mul(b, a),
{
    assert(a.as_int() * b.as_int() == b.as_int() * a.as_int()) by (nonlinear_arith);
}

} // verus!
