//! The built-in SQL functions, folded over constant arguments.

use dbgen_core::error::{Error, Span, Spanned};
use dbgen_core::number::Number;
use dbgen_core::ops::{
    Arith, BitNot, Bitwise, Coalesce, Compare, Div, Extremum, Identical, Last, Logic, Mod, Neg,
    Not,
};
use dbgen_core::plan::{C, CompileContext};
use dbgen_core::value::Value;
use std::cmp::Ordering;

fn arg(v: Value) -> Spanned<Value> {
    Spanned { span: Span { start: 0, end: 0 }, inner: v }
}

fn num(v: i128) -> Spanned<Value> {
    arg(Value::Number(Number::Int(v)))
}

fn text(s: &str) -> Spanned<Value> {
    arg(Value::Bytes(dbgen_core::bytes::ByteString {
        bytes: s.as_bytes().to_vec(),
        known_utf8: true,
    }))
}

fn null() -> Spanned<Value> {
    arg(Value::Null)
}

fn constant_of(r: Result<C, Spanned<Error>>) -> Value {
    match r.unwrap() {
        C::Constant(v) => v,
        _ => panic!("folding yields constants"),
    }
}

fn as_int(v: &Value) -> i128 {
    match v {
        Value::Number(Number::Int(i)) => *i,
        _ => panic!("expected an integer"),
    }
}

fn ctx() -> CompileContext {
    CompileContext::new()
}

fn span() -> Span {
    Span { start: 0, end: 0 }
}

#[test]
fn neg_folds_and_reports_arity() {
    let v = constant_of(Neg.compile(&ctx(), span(), vec![num(5)]));
    assert_eq!(as_int(&v), -5);
    assert_eq!(
        Neg.compile(&ctx(), span(), vec![]).unwrap_err().inner,
        Error::NotEnoughArguments
    );
    assert_eq!(
        Neg.compile(&ctx(), span(), vec![num(1), num(2)]).unwrap_err().inner,
        Error::InvalidArguments
    );
}

#[test]
fn compare_generalises_the_six_operators() {
    let le = Compare { lt: true, eq: true, gt: false };
    let v = constant_of(le.compile(&ctx(), span(), vec![num(1), num(2)]));
    assert_eq!(as_int(&v), 1);
    let gt = Compare { lt: false, eq: false, gt: true };
    let v = constant_of(gt.compile(&ctx(), span(), vec![num(1), num(2)]));
    assert_eq!(as_int(&v), 0);
    // NULL propagates
    let v = constant_of(le.compile(&ctx(), span(), vec![num(1), null()]));
    assert!(v.equals(&Value::Null));
    // incomparable types error
    assert_eq!(
        le.compile(&ctx(), span(), vec![num(1), text("x")]).unwrap_err().inner,
        Error::InvalidArguments
    );
}

#[test]
fn identical_is_strict() {
    let is = Identical { eq: true };
    let v = constant_of(is.compile(&ctx(), span(), vec![null(), null()]));
    assert_eq!(as_int(&v), 1);
    let v = constant_of(is.compile(&ctx(), span(), vec![num(1), text("1")]));
    assert_eq!(as_int(&v), 0);
    let is_not = Identical { eq: false };
    let v = constant_of(is_not.compile(&ctx(), span(), vec![num(1), num(1)]));
    assert_eq!(as_int(&v), 0);
}

#[test]
fn not_is_three_valued() {
    let v = constant_of(Not.compile(&ctx(), span(), vec![num(0)]));
    assert_eq!(as_int(&v), 1);
    let v = constant_of(Not.compile(&ctx(), span(), vec![num(7)]));
    assert_eq!(as_int(&v), 0);
    let v = constant_of(Not.compile(&ctx(), span(), vec![null()]));
    assert!(v.equals(&Value::Null));
    assert_eq!(
        Not.compile(&ctx(), span(), vec![text("x")]).unwrap_err().inner,
        Error::UnexpectedValueType
    );
}

#[test]
fn bit_not_flips_every_bit() {
    let v = constant_of(BitNot.compile(&ctx(), span(), vec![num(0)]));
    assert_eq!(as_int(&v), -1);
    let v = constant_of(BitNot.compile(&ctx(), span(), vec![num(i128::MIN)]));
    assert_eq!(as_int(&v), i128::MAX);
}

#[test]
fn and_or_short_circuit_equivalence() {
    let and = Logic { identity: true };
    let or = Logic { identity: false };
    // AND: any false wins, else any NULL, else true -- in any order
    let cases: [Vec<Spanned<Value>>; 3] = [
        vec![num(1), null(), num(0)],
        vec![num(0), num(1), null()],
        vec![null(), num(0), num(1)],
    ];
    for args in cases {
        let v = constant_of(and.compile(&ctx(), span(), args));
        assert_eq!(as_int(&v), 0);
    }
    let v = constant_of(and.compile(&ctx(), span(), vec![num(1), null()]));
    assert!(v.equals(&Value::Null));
    let v = constant_of(and.compile(&ctx(), span(), vec![num(1), num(2)]));
    assert_eq!(as_int(&v), 1);
    let v = constant_of(and.compile(&ctx(), span(), vec![]));
    assert_eq!(as_int(&v), 1);
    // OR mirrors
    let v = constant_of(or.compile(&ctx(), span(), vec![num(0), num(7), null()]));
    assert_eq!(as_int(&v), 1);
    let v = constant_of(or.compile(&ctx(), span(), vec![num(0), null()]));
    assert!(v.equals(&Value::Null));
    let v = constant_of(or.compile(&ctx(), span(), vec![]));
    assert_eq!(as_int(&v), 0);
}

#[test]
fn arith_folds_left_to_right() {
    let v = constant_of(Arith::Add.compile(&ctx(), span(), vec![num(1), num(2), num(3)]));
    assert_eq!(as_int(&v), 6);
    let v = constant_of(Arith::Sub.compile(&ctx(), span(), vec![num(10), num(3), num(2)]));
    assert_eq!(as_int(&v), 5);
    let v = constant_of(Arith::Mul.compile(&ctx(), span(), vec![num(2), num(3), num(4)]));
    assert_eq!(as_int(&v), 24);
    assert_eq!(
        Arith::Add
            .compile(&ctx(), span(), vec![num(i128::MAX), num(i128::MAX), num(i128::MAX)])
            .unwrap_err()
            .inner,
        Error::IntegerOverflow
    );
}

#[test]
fn bitwise_folds_with_identities() {
    let v = constant_of(Bitwise::And.compile(&ctx(), span(), vec![num(0b1100), num(0b1010)]));
    assert_eq!(as_int(&v), 0b1000);
    let v = constant_of(Bitwise::Or.compile(&ctx(), span(), vec![num(0b1100), num(0b1010)]));
    assert_eq!(as_int(&v), 0b1110);
    let v = constant_of(Bitwise::Xor.compile(&ctx(), span(), vec![num(0b1100), num(0b1010)]));
    assert_eq!(as_int(&v), 0b0110);
    let v = constant_of(Bitwise::And.compile(&ctx(), span(), vec![]));
    assert_eq!(as_int(&v), -1);
}

#[test]
fn greatest_and_least() {
    let greatest = Extremum { order: Ordering::Greater };
    let least = Extremum { order: Ordering::Less };
    let v = constant_of(greatest.compile(&ctx(), span(), vec![num(1), null(), num(3)]));
    assert_eq!(as_int(&v), 3);
    let v = constant_of(greatest.compile(&ctx(), span(), vec![null(), null()]));
    assert!(v.equals(&Value::Null));
    let v = constant_of(least.compile(&ctx(), span(), vec![num(4), num(2), null(), num(9)]));
    assert_eq!(as_int(&v), 2);
    let v = constant_of(greatest.compile(&ctx(), span(), vec![]));
    assert!(v.equals(&Value::Null));
}

#[test]
fn div_and_mod_truncate() {
    let v = constant_of(Div.compile(&ctx(), span(), vec![num(7), num(-2)]));
    assert_eq!(as_int(&v), -3);
    let v = constant_of(Mod.compile(&ctx(), span(), vec![num(7), num(-2)]));
    assert_eq!(as_int(&v), 1);
    let v = constant_of(Mod.compile(&ctx(), span(), vec![num(i128::MIN), num(-1)]));
    assert_eq!(as_int(&v), 0);
    let v = constant_of(Div.compile(&ctx(), span(), vec![num(7), num(0)]));
    assert!(v.equals(&Value::Null));
    assert_eq!(
        Div.compile(&ctx(), span(), vec![num(7)]).unwrap_err().inner,
        Error::NotEnoughArguments
    );
}

#[test]
fn coalesce_takes_the_first_non_null() {
    let v = constant_of(Coalesce.compile(
        &ctx(),
        span(),
        vec![null(), null(), text("x"), num(1)],
    ));
    assert!(v.equals(&text("x").inner));
    let v = constant_of(Coalesce.compile(&ctx(), span(), vec![null(), null()]));
    assert!(v.equals(&Value::Null));
    let v = constant_of(Coalesce.compile(&ctx(), span(), vec![]));
    assert!(v.equals(&Value::Null));
}

#[test]
fn last_keeps_the_final_statement() {
    let v = constant_of(Last.compile(&ctx(), span(), vec![num(1), text("x"), num(9)]));
    assert_eq!(as_int(&v), 9);
}
