//! Compiled expression nodes and the per-row state they run against.

use vstd::prelude::*;
use crate::error::Span;
use crate::value::Value;

verus! {

broadcast use vstd::std_specs::vec::group_vec_axioms, vstd::seq::group_seq_axioms;

/// The built-in functions, as a closed union: compilation dispatches on
/// this without dynamic dispatch, which keeps purity easy to inspect.
#[derive(Clone, Copy, Debug)]
pub enum Func {
    /// Unary negation.
    Neg(crate::ops::Neg),
    /// The six value comparisons.
    Compare(crate::ops::Compare),
    /// `IS` and `IS NOT`.
    Identical(crate::ops::Identical),
    /// Logical `NOT`.
    Not(crate::ops::Not),
    /// Bitwise `~`.
    BitNot(crate::ops::BitNot),
    /// Variadic `AND` and `OR`.
    Logic(crate::ops::Logic),
    /// `+`, `-` and `*`.
    Arith(crate::ops::Arith),
    /// Bitwise `&`, `|` and `^`.
    Bitwise(crate::ops::Bitwise),
    /// `least` and `greatest`.
    Extremum(crate::ops::Extremum),
    /// The `div` SQL function.
    Div(crate::ops::Div),
    /// The `mod` SQL function.
    Mod(crate::ops::Mod),
    /// The `coalesce` SQL function.
    Coalesce(crate::ops::Coalesce),
    /// The statement separator `;`.
    Last(crate::ops::Last),
}

/// A compiled expression node. Every deferred form carries the source span
/// of the expression it came from, for error reporting.
#[derive(Debug)]
pub enum C {
    /// A fully folded constant.
    Constant(Value),
    /// A read of a row-local variable slot.
    GetVariable(usize),
    /// A write of a row-local variable slot that also yields the value.
    SetVariable(usize, Box<C>),
    /// A deferred call with already-compiled children.
    RawFunction {
        /// The function to call per row.
        function: Func,
        /// Where the call stood in the template.
        span: Span,
        /// The compiled argument expressions.
        args: Vec<C>,
    },
    /// A compiled random-number-driven primitive; per row it consumes the
    /// next value of the row's pre-drawn stream.
    RandFunction(Span),
}

impl C {
    /// Well-formed nodes: constants hold well-formed values and variable
    /// slots stay below the plan's slot count.
    pub open spec fn wf(self, variables_count: int) -> bool
        decreases self,
    {
        match self {
            C::Constant(v) => v.wf(),
            C::GetVariable(i) => i < variables_count,
            C::SetVariable(i, child) => i < variables_count && child.wf(variables_count),
            C::RawFunction { function, span, args } => forall|j: int|
                0 <= j < args@.len() ==> (#[trigger] args@[j]).wf(variables_count),
            C::RandFunction(_) => true,
        }
    }
}

/// The state a compiler carries while lowering a template: a counter that
/// hands out row-local variable slots.
#[derive(Clone, Copy, Debug)]
pub struct CompileContext {
    /// The number of variable slots allocated so far.
    pub variables_count: usize,
}

impl CompileContext {
    /// A fresh context with no slots allocated.
    pub fn new() -> (r: CompileContext)
        ensures
            r.variables_count == 0,
    {
        CompileContext { variables_count: 0 }
    }

    /// Allocates the next variable slot and returns its index.
    pub fn allocate_variable(&mut self) -> (r: usize)
        requires
            old(self).variables_count < usize::MAX,
        ensures
            r == old(self).variables_count,
            final(self).variables_count == old(self).variables_count + 1,
    {
        let r = self.variables_count;
        self.variables_count = self.variables_count + 1;
        r
    }
}

/// The mutable per-row context: the current row number, the sub-row number
/// for derived tables, and the variable slots.
#[derive(Debug)]
pub struct RowState {
    /// The 1-based row number, monotonic over a run.
    pub row_num: u64,
    /// The 1-based sub-row number for derived tables.
    pub sub_row_num: u64,
    /// The row-local variable slots.
    pub variables: Vec<Value>,
}

impl RowState {
    /// A fresh state for the first row, with every slot NULL.
    pub fn new(variables_count: usize) -> (r: RowState)
        ensures
            r.row_num == 1,
            r.sub_row_num == 1,
            r.variables@.len() == variables_count,
            forall|i: int|
                0 <= i < variables_count ==> #[trigger] r.variables@[i] == Value::Null,
    {
        let mut variables: Vec<Value> = Vec::new();
        let mut i: usize = 0;
        while i < variables_count
            invariant
                0 <= i <= variables_count,
                variables@.len() == i,
                forall|j: int| 0 <= j < i ==> #[trigger] variables@[j] == Value::Null,
            decreases variables_count - i,
        {
            variables.push(Value::Null);
            i += 1;
        }
        RowState { row_num: 1, sub_row_num: 1, variables }
    }

    /// Clears every slot back to NULL and advances to the next row.
    pub fn advance_row(&mut self)
        requires
            old(self).row_num < u64::MAX,
        ensures
            final(self).row_num == old(self).row_num + 1,
            final(self).sub_row_num == 1,
            final(self).variables@.len() == old(self).variables@.len(),
            forall|i: int|
                0 <= i < final(self).variables@.len() ==> #[trigger] final(self).variables@[i]
                    == Value::Null,
    {
        let n = self.variables.len();
        let mut i: usize = 0;
        while i < n
            invariant
                0 <= i <= n,
                self.variables@.len() == n,
                self.row_num == old(self).row_num,
                self.sub_row_num == old(self).sub_row_num,
                forall|j: int| 0 <= j < i ==> #[trigger] self.variables@[j] == Value::Null,
            decreases n - i,
        {
            self.variables.set(i, Value::Null);
            i += 1;
        }
        self.row_num = self.row_num + 1;
        self.sub_row_num = 1;
    }
}

/// An immutable compiled plan: one expression tree per output column, and
/// the number of variable slots the trees may touch.
#[derive(Debug)]
pub struct Plan {
    /// The compiled expression trees, one per output column.
    pub exprs: Vec<C>,
    /// The number of row-local variable slots.
    pub variables_count: usize,
}

impl Plan {
    /// Well-formed plans: every tree respects the slot count.
    pub open spec fn wf(self) -> bool {
        forall|i: int|
            0 <= i < self.exprs@.len() ==> (#[trigger] self.exprs@[i]).wf(
                self.variables_count as int,
            )
    }
}

} // verus!
