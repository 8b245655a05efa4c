//! Compiled nodes, compile context and per-row state.

use dbgen_core::error::Error;
use dbgen_core::number::Number;
use dbgen_core::plan::{C, CompileContext, Plan, RowState};
use dbgen_core::value::Value;

#[test]
fn context_hands_out_consecutive_slots() {
    let mut ctx = CompileContext::new();
    assert_eq!(ctx.allocate_variable(), 0);
    assert_eq!(ctx.allocate_variable(), 1);
    assert_eq!(ctx.variables_count, 2);
}

#[test]
fn row_state_starts_null_and_resets() {
    let mut state = RowState::new(3);
    assert_eq!(state.row_num, 1);
    assert_eq!(state.sub_row_num, 1);
    assert_eq!(state.variables.len(), 3);
    assert!(state.variables.iter().all(|v| v.equals(&Value::Null)));
    state.variables[1] = Value::Number(Number::Int(9));
    state.sub_row_num = 4;
    state.advance_row();
    assert_eq!(state.row_num, 2);
    assert_eq!(state.sub_row_num, 1);
    assert!(state.variables.iter().all(|v| v.equals(&Value::Null)));
}

#[test]
fn plans_carry_their_trees() {
    let plan = Plan {
        exprs: vec![
            C::Constant(Value::Number(Number::Int(1))),
            C::GetVariable(0),
            C::SetVariable(0, Box::new(C::Constant(Value::Null))),
        ],
        variables_count: 1,
    };
    assert_eq!(plan.exprs.len(), 3);
    match &plan.exprs[2] {
        C::SetVariable(slot, child) => {
            assert_eq!(*slot, 0);
            assert!(matches!(**child, C::Constant(Value::Null)));
        },
        _ => panic!("the third tree writes a slot"),
    }
}

#[test]
fn errors_describe_themselves() {
    assert_eq!(Error::IntegerOverflow.describe(), "integer arithmetic overflow");
    assert_eq!(Error::NotEnoughArguments.describe(), "not enough arguments");
    assert_eq!(Error::UnknownFunction.describe(), "unknown function");
    assert_eq!(Error::Panic.describe(), "runtime panic");
}
