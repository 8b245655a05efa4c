//! The built-in numerical and logical SQL functions.
//!
//! Each function takes a compile context, the source span of the call, and
//! the already-evaluated constant arguments, and folds the call into a
//! constant node.

use vstd::prelude::*;
use crate::error::{Error, Span, Spanned};
use crate::plan::{C, CompileContext};
use crate::value::{Value, bool_value, nullable_bool_value};

verus! {

broadcast use vstd::std_specs::vec::group_vec_axioms, vstd::seq::group_seq_axioms;

/// The evaluated constant arguments handed to a function at compile time.
pub type Arguments = Vec<Spanned<Value>>;

/// Whether every argument value is well-formed.
pub open spec fn args_wf(args: Seq<Spanned<Value>>) -> bool {
    forall|i: int| 0 <= i < args.len() ==> (#[trigger] args[i]).inner.wf()
}

/// Whether a compiled node is a constant holding a well-formed value.
pub open spec fn is_wf_constant(c: C) -> bool {
    c matches C::Constant(v) && v.wf()
}

/// The unary negation SQL function.
#[derive(Clone, Copy, Debug)]
pub struct Neg;

impl Neg {
    /// What folding a negation yields: too few or too many arguments are
    /// reported at the call's span, and so is overflow.
    pub open spec fn spec_compile(span: Span, args: Seq<Spanned<Value>>) -> Result<
        C,
        Spanned<Error>,
    > {
        if args.len() < 1 {
            Err(Spanned { span, inner: Error::NotEnoughArguments })
        } else if args.len() > 1 {
            Err(Spanned { span, inner: Error::InvalidArguments })
        } else {
            match Value::spec_sql_neg(args[0].inner) {
                Ok(v) => Ok(C::Constant(v)),
                Err(e) => Err(Spanned { span, inner: e }),
            }
        }
    }

    /// Folds a negation of one constant argument.
    pub fn compile(&self, _ctx: &CompileContext, span: Span, args: Arguments) -> (r: Result<
        C,
        Spanned<Error>,
    >)
        requires
            args_wf(args@),
        ensures
            r == Neg::spec_compile(span, args@),
            r matches Ok(c) ==> is_wf_constant(c),
    {
        if args.len() == 0 {
            Err(Error::NotEnoughArguments.at(span))
        } else if args.len() > 1 {
            Err(Error::InvalidArguments.at(span))
        } else {
            match args[0].inner.sql_neg() {
                Ok(v) => Ok(C::Constant(v)),
                Err(e) => Err(e.at(span)),
            }
        }
    }
}

/// The value comparison (`<`, `=`, `>`, `<=`, `<>`, `>=`) SQL functions:
/// one function generalising all six through three flags.
#[derive(Clone, Copy, Debug)]
pub struct Compare {
    /// Whether a less-than result is considered TRUE.
    pub lt: bool,
    /// Whether an equals result is considered TRUE.
    pub eq: bool,
    /// Whether a greater-than result is considered TRUE.
    pub gt: bool,
}

impl Compare {
    /// What folding a comparison yields: NULL when either side is NULL,
    /// else the flag of the ordering, as a SQL boolean.
    pub open spec fn spec_compile(self, span: Span, args: Seq<Spanned<Value>>) -> Result<
        C,
        Spanned<Error>,
    >
        recommends
            args.len() == 2,
    {
        match Value::spec_sql_cmp(args[0].inner, args[1].inner) {
            Err(e) => Err(Spanned { span, inner: e }),
            Ok(None) => Ok(C::Constant(Value::Null)),
            Ok(Some(core::cmp::Ordering::Less)) => Ok(C::Constant(bool_value(self.lt))),
            Ok(Some(core::cmp::Ordering::Equal)) => Ok(C::Constant(bool_value(self.eq))),
            Ok(Some(core::cmp::Ordering::Greater)) => Ok(C::Constant(bool_value(self.gt))),
        }
    }

    /// Folds a comparison of exactly two constant arguments.
    pub fn compile(&self, _ctx: &CompileContext, span: Span, args: Arguments) -> (r: Result<
        C,
        Spanned<Error>,
    >)
        requires
            args@.len() == 2,
            args_wf(args@),
        ensures
            r == self.spec_compile(span, args@),
            r matches Ok(c) ==> is_wf_constant(c),
    {
        match args[0].inner.sql_cmp(&args[1].inner) {
            Err(e) => Err(e.at(span)),
            Ok(None) => Ok(C::Constant(Value::Null)),
            Ok(Some(core::cmp::Ordering::Less)) => Ok(C::Constant(Value::from_bool(self.lt))),
            Ok(Some(core::cmp::Ordering::Equal)) => Ok(C::Constant(Value::from_bool(self.eq))),
            Ok(Some(core::cmp::Ordering::Greater)) => Ok(C::Constant(Value::from_bool(self.gt))),
        }
    }
}

/// The identity comparison (`IS`, `IS NOT`) SQL functions.
#[derive(Clone, Copy, Debug)]
pub struct Identical {
    /// Whether an identical pair is considered TRUE.
    pub eq: bool,
}

impl Identical {
    /// What folding an identity test yields: strict structural equality,
    /// NULL included, never an error.
    pub open spec fn spec_compile(self, args: Seq<Spanned<Value>>) -> Result<C, Spanned<Error>>
        recommends
            args.len() == 2,
    {
        Ok(C::Constant(bool_value(Value::spec_eq(args[0].inner, args[1].inner) == self.eq)))
    }

    /// Folds an identity test of exactly two constant arguments.
    pub fn compile(&self, _ctx: &CompileContext, _span: Span, args: Arguments) -> (r: Result<
        C,
        Spanned<Error>,
    >)
        requires
            args@.len() == 2,
        ensures
            r == self.spec_compile(args@),
            r matches Ok(c) ==> is_wf_constant(c),
    {
        let is_eq = args[0].inner.equals(&args[1].inner);
        Ok(C::Constant(Value::from_bool(is_eq == self.eq)))
    }
}

/// The logical `NOT` SQL function.
#[derive(Clone, Copy, Debug)]
pub struct Not;

impl Not {
    /// What folding a logical NOT yields: three-valued negation, with the
    /// wrong argument shape or type reported at the call's span.
    pub open spec fn spec_compile(span: Span, args: Seq<Spanned<Value>>) -> Result<
        C,
        Spanned<Error>,
    > {
        if args.len() < 1 {
            Err(Spanned { span, inner: Error::NotEnoughArguments })
        } else if args.len() > 1 {
            Err(Spanned { span, inner: Error::InvalidArguments })
        } else {
            match Value::spec_to_nullable_bool(args[0].inner) {
                Err(e) => Err(Spanned { span, inner: e }),
                Ok(Some(b)) => Ok(C::Constant(bool_value(!b))),
                Ok(None) => Ok(C::Constant(Value::Null)),
            }
        }
    }

    /// Folds a logical NOT of one constant argument.
    pub fn compile(&self, _ctx: &CompileContext, span: Span, args: Arguments) -> (r: Result<
        C,
        Spanned<Error>,
    >)
        requires
            args_wf(args@),
        ensures
            r == Not::spec_compile(span, args@),
            r matches Ok(c) ==> is_wf_constant(c),
    {
        if args.len() == 0 {
            Err(Error::NotEnoughArguments.at(span))
        } else if args.len() > 1 {
            Err(Error::InvalidArguments.at(span))
        } else {
            match args[0].inner.to_nullable_bool() {
                Err(e) => Err(e.at(span)),
                Ok(Some(b)) => Ok(C::Constant(Value::from_bool(!b))),
                Ok(None) => Ok(C::Constant(Value::Null)),
            }
        }
    }
}

/// The bitwise-NOT `~` SQL function.
#[derive(Clone, Copy, Debug)]
pub struct BitNot;

impl BitNot {
    /// What folding a bitwise NOT yields: on two's complement, flipping
    /// every bit of `i` is `-1 - i`, which never overflows.
    pub open spec fn spec_compile(span: Span, args: Seq<Spanned<Value>>) -> Result<
        C,
        Spanned<Error>,
    > {
        if args.len() < 1 {
            Err(Spanned { span, inner: Error::NotEnoughArguments })
        } else if args.len() > 1 {
            Err(Spanned { span, inner: Error::InvalidArguments })
        } else {
            match Value::spec_to_i128(args[0].inner) {
                Err(e) => Err(Spanned { span, inner: e }),
                Ok(i) => Ok(C::Constant(Value::Number(crate::number::Number::Int(
                    (-1 - i) as i128,
                )))),
            }
        }
    }

    /// Folds a bitwise NOT of one constant integer argument.
    pub fn compile(&self, _ctx: &CompileContext, span: Span, args: Arguments) -> (r: Result<
        C,
        Spanned<Error>,
    >)
        requires
            args_wf(args@),
        ensures
            r == BitNot::spec_compile(span, args@),
            r matches Ok(c) ==> is_wf_constant(c),
    {
        if args.len() == 0 {
            Err(Error::NotEnoughArguments.at(span))
        } else if args.len() > 1 {
            Err(Error::InvalidArguments.at(span))
        } else {
            match args[0].inner.to_i128() {
                Err(e) => Err(e.at(span)),
                Ok(i) => Ok(C::Constant(Value::from_i128(-1 - i))),
            }
        }
    }
}

/// The logical `AND` and `OR` SQL functions.
#[derive(Clone, Copy, Debug)]
pub struct Logic {
    /// The identity value: true means `AND`, false means `OR`.
    pub identity: bool,
}

impl Logic {
    /// What folding the connective yields from position `i` on, after
    /// having seen a NULL or not: the first value decisive for the
    /// connective wins; otherwise NULL wins over the identity.
    pub open spec fn spec_logic_from(
        identity: bool,
        args: Seq<Spanned<Value>>,
        i: int,
        saw_null: bool,
    ) -> Result<C, Spanned<Error>>
        decreases args.len() - i,
    {
        if i < 0 || i >= args.len() {
            Ok(C::Constant(nullable_bool_value(if saw_null {
                None
            } else {
                Some(identity)
            })))
        } else {
            match Value::spec_to_nullable_bool(args[i].inner) {
                Err(e) => Err(Spanned { span: args[i].span, inner: e }),
                Ok(Some(v)) => if v == identity {
                    Logic::spec_logic_from(identity, args, i + 1, saw_null)
                } else {
                    Ok(C::Constant(bool_value(v)))
                },
                Ok(None) => Logic::spec_logic_from(identity, args, i + 1, true),
            }
        }
    }

    /// Folds the connective over its constant arguments, left to right.
    pub fn compile(&self, _ctx: &CompileContext, _span: Span, args: Arguments) -> (r: Result<
        C,
        Spanned<Error>,
    >)
        requires
            args_wf(args@),
        ensures
            r == Logic::spec_logic_from(self.identity, args@, 0, false),
            r matches Ok(c) ==> is_wf_constant(c),
    {
        let n = args.len();
        let mut saw_null = false;
        let mut i: usize = 0;
        while i < n
            invariant
                0 <= i <= n,
                n == args@.len(),
                args_wf(args@),
                Logic::spec_logic_from(self.identity, args@, 0, false)
                    == Logic::spec_logic_from(self.identity, args@, i as int, saw_null),
            decreases n - i,
        {
            match args[i].inner.to_nullable_bool() {
                Err(e) => {
                    let sp = args[i].span;
                    return Err(e.at(sp));
                },
                Ok(Some(v)) => {
                    if v != self.identity {
                        return Ok(C::Constant(Value::from_bool(v)));
                    }
                },
                Ok(None) => {
                    saw_null = true;
                },
            }
            i += 1;
        }
        Ok(C::Constant(Value::from_nullable_bool(
            if saw_null {
                None
            } else {
                Some(self.identity)
            },
        )))
    }
}

/// The three-valued result of a connective over truth values: a value
/// decisive for the connective wins, else NULL wins over the identity.
/// Only which values occur matters, never their order.
pub open spec fn three_valued(identity: bool, args: Seq<Spanned<Value>>, i: int) -> Option<bool> {
    if exists|j: int|
        i <= j < args.len() && Value::spec_to_nullable_bool((#[trigger] args[j]).inner) == Ok::<
            Option<bool>,
            Error,
        >(Some(!identity)) {
        Some(!identity)
    } else if exists|j: int|
        i <= j < args.len() && Value::spec_to_nullable_bool((#[trigger] args[j]).inner) == Ok::<
            Option<bool>,
            Error,
        >(None) {
        None
    } else {
        Some(identity)
    }
}

/// Folding `AND` or `OR` over constants that all carry a truth value
/// equals the three-valued connective, which is insensitive to the order
/// of the operands.
pub proof fn lemma_logic_three_valued(identity: bool, args: Seq<Spanned<Value>>, i: int, saw_null: bool)
    requires
        0 <= i <= args.len(),
        forall|j: int|
            i <= j < args.len() ==> Value::spec_to_nullable_bool((#[trigger] args[j]).inner)
                is Ok,
    ensures
        Logic::spec_logic_from(identity, args, i, saw_null) == Ok::<C, Spanned<Error>>(
            C::Constant(nullable_bool_value(
                if saw_null && three_valued(identity, args, i) == Some(identity) {
                    None
                } else {
                    three_valued(identity, args, i)
                },
            )),
        ),
    decreases args.len() - i,
{
    if i < args.len() {
        match Value::spec_to_nullable_bool(args[i].inner) {
            Ok(Some(v)) => {
                if v == identity {
                    lemma_logic_three_valued(identity, args, i + 1, saw_null);
                } else {
                    assert(three_valued(identity, args, i) == Some(!identity));
                }
            },
            Ok(None) => {
                lemma_logic_three_valued(identity, args, i + 1, true);
                assert(three_valued(identity, args, i) != Some(identity));
            },
            Err(_) => {},
        }
    }
}

/// Folding the connective is insensitive to the order of its operands:
/// two argument lists with the same members, however arranged, fold to the
/// same constant.
pub proof fn lemma_logic_order_free(
    identity: bool,
    a: Seq<Spanned<Value>>,
    b: Seq<Spanned<Value>>,
)
    requires
        a.to_multiset() == b.to_multiset(),
        forall|j: int|
            0 <= j < a.len() ==> Value::spec_to_nullable_bool((#[trigger] a[j]).inner) is Ok,
    ensures
        Logic::spec_logic_from(identity, a, 0, false) == Logic::spec_logic_from(
            identity,
            b,
            0,
            false,
        ),
{
    broadcast use vstd::seq_lib::group_to_multiset_ensures;

    assert forall|j: int|
        0 <= j < b.len() implies Value::spec_to_nullable_bool((#[trigger] b[j]).inner) is Ok by {
        assert(b.contains(b[j]));
        assert(b.to_multiset().count(b[j]) > 0);
        assert(a.to_multiset().count(b[j]) > 0);
        assert(a.contains(b[j]));
        let i = choose|i: int| 0 <= i < a.len() && a[i] == b[j];
        assert(Value::spec_to_nullable_bool(a[i].inner) is Ok);
    }
    lemma_logic_three_valued(identity, a, 0, false);
    lemma_logic_three_valued(identity, b, 0, false);
    lemma_three_valued_members(identity, a, b);
    lemma_three_valued_members(identity, b, a);
    assert(three_valued(identity, a, 0) == three_valued(identity, b, 0));
}

/// Whatever truth value occurs in one of two lists with the same members
/// occurs in the other, so the three-valued result can only move one way.
proof fn lemma_three_valued_members(
    identity: bool,
    a: Seq<Spanned<Value>>,
    b: Seq<Spanned<Value>>,
)
    requires
        a.to_multiset() == b.to_multiset(),
    ensures
        (exists|j: int|
            0 <= j < a.len() && Value::spec_to_nullable_bool((#[trigger] a[j]).inner) == Ok::<
                Option<bool>,
                Error,
            >(Some(!identity))) ==> (exists|k: int|
            0 <= k < b.len() && Value::spec_to_nullable_bool((#[trigger] b[k]).inner) == Ok::<
                Option<bool>,
                Error,
            >(Some(!identity))),
        (exists|j: int|
            0 <= j < a.len() && Value::spec_to_nullable_bool((#[trigger] a[j]).inner) == Ok::<
                Option<bool>,
                Error,
            >(None)) ==> (exists|k: int|
            0 <= k < b.len() && Value::spec_to_nullable_bool((#[trigger] b[k]).inner) == Ok::<
                Option<bool>,
                Error,
            >(None)),
{
    broadcast use vstd::seq_lib::group_to_multiset_ensures;

    if exists|j: int|
        0 <= j < a.len() && Value::spec_to_nullable_bool((#[trigger] a[j]).inner) == Ok::<
            Option<bool>,
            Error,
        >(Some(!identity)) {
        let j = choose|j: int|
            0 <= j < a.len() && Value::spec_to_nullable_bool((#[trigger] a[j]).inner) == Ok::<
                Option<bool>,
                Error,
            >(Some(!identity));
        assert(a.contains(a[j]));
        assert(a.to_multiset().count(a[j]) > 0);
        assert(b.to_multiset().count(a[j]) > 0);
        assert(b.contains(a[j]));
        let k = choose|k: int| 0 <= k < b.len() && b[k] == a[j];
        assert(Value::spec_to_nullable_bool(b[k].inner) == Ok::<Option<bool>, Error>(
            Some(!identity),
        ));
    }
    if exists|j: int|
        0 <= j < a.len() && Value::spec_to_nullable_bool((#[trigger] a[j]).inner) == Ok::<
            Option<bool>,
            Error,
        >(None) {
        let j = choose|j: int|
            0 <= j < a.len() && Value::spec_to_nullable_bool((#[trigger] a[j]).inner) == Ok::<
                Option<bool>,
                Error,
            >(None);
        assert(a.contains(a[j]));
        assert(a.to_multiset().count(a[j]) > 0);
        assert(b.to_multiset().count(a[j]) > 0);
        assert(b.contains(a[j]));
        let k = choose|k: int| 0 <= k < b.len() && b[k] == a[j];
        assert(Value::spec_to_nullable_bool(b[k].inner) == Ok::<Option<bool>, Error>(None));
    }
}

/// The arithmetic (`+`, `-`, `*`) SQL functions. Floating-point division
/// has no arm here: the library's numbers are exact integers.
#[derive(Clone, Copy, Debug)]
pub enum Arith {
    /// Addition.
    Add,
    /// Subtraction.
    Sub,
    /// Multiplication.
    Mul,
}

impl Arith {
    /// What one step of the operator yields on two values.
    pub open spec fn spec_op(self, a: Value, b: Value) -> Result<Value, Error> {
        match self {
            Arith::Add => Value::spec_sql_add(a, b),
            Arith::Sub => Value::spec_sql_sub(a, b),
            Arith::Mul => Value::spec_sql_mul(a, b),
        }
    }

    /// What folding the operator from position `i` on yields, with errors
    /// reported at the argument that raised them.
    pub open spec fn spec_fold(self, args: Seq<Spanned<Value>>, i: int, acc: Value) -> Result<
        Value,
        Spanned<Error>,
    >
        decreases args.len() - i,
    {
        if i < 0 || i >= args.len() {
            Ok(acc)
        } else {
            match self.spec_op(acc, args[i].inner) {
                Ok(v) => self.spec_fold(args, i + 1, v),
                Err(e) => Err(Spanned { span: args[i].span, inner: e }),
            }
        }
    }

    /// Folds the operator over its constant arguments, left to right.
    #[verifier::loop_isolation(false)]
    pub fn compile(&self, _ctx: &CompileContext, _span: Span, args: Arguments) -> (r: Result<
        C,
        Spanned<Error>,
    >)
        requires
            args@.len() >= 1,
            args_wf(args@),
        ensures
            self.spec_fold(args@, 1, args@[0].inner) matches Ok(v) ==> r == Ok::<
                C,
                Spanned<Error>,
            >(C::Constant(v)),
            self.spec_fold(args@, 1, args@[0].inner) matches Err(e) ==> r == Err::<
                C,
                Spanned<Error>,
            >(e),
            r matches Ok(c) ==> is_wf_constant(c),
    {
        let ghost orig = args@;
        let mut rest = args;
        let first = rest.remove(0);
        proof {
            assert(orig.remove(0) =~= orig.skip(1));
        }
        let mut acc = first.inner;
        let n = rest.len();
        let mut i: usize = 0;
        while i < n
            invariant
                0 <= i <= n,
                n == rest@.len(),
                rest@ =~= orig.skip(1),
                orig.len() == n + 1,
                args_wf(orig),
                acc.wf(),
                self.spec_fold(orig, 1, orig[0].inner) == self.spec_fold(
                    orig,
                    i + 1,
                    acc,
                ),
            decreases n - i,
        {
            proof {
                assert(orig.skip(1)[i as int] == orig[i as int + 1]);
                assert(rest@[i as int] == orig[i as int + 1]);
            }
            let step = match self {
                Arith::Add => acc.sql_add(&rest[i].inner),
                Arith::Sub => acc.sql_sub(&rest[i].inner),
                Arith::Mul => acc.sql_mul(&rest[i].inner),
            };
            match step {
                Ok(v) => {
                    acc = v;
                },
                Err(e) => {
                    let sp = rest[i].span;
                    return Err(e.at(sp));
                },
            }
            i += 1;
        }
        Ok(C::Constant(acc))
    }
}

/// The bitwise binary (`&`, `|`, `^`) SQL functions.
#[derive(Clone, Copy, Debug)]
pub enum Bitwise {
    /// Bitwise AND.
    And,
    /// Bitwise OR.
    Or,
    /// Bitwise XOR.
    Xor,
}

impl Bitwise {
    /// The operator's identity: all-ones for AND, zero otherwise.
    pub open spec fn spec_init(self) -> i128 {
        match self {
            Bitwise::And => -1i128,
            Bitwise::Or => 0i128,
            Bitwise::Xor => 0i128,
        }
    }

    /// What one step of the operator yields on two integers.
    pub open spec fn spec_op(self, a: i128, b: i128) -> i128 {
        match self {
            Bitwise::And => a & b,
            Bitwise::Or => a | b,
            Bitwise::Xor => a ^ b,
        }
    }

    /// What folding the operator from position `i` on yields; an argument
    /// that holds no integer is reported at its own span.
    pub open spec fn spec_fold(self, args: Seq<Spanned<Value>>, i: int, acc: i128) -> Result<
        i128,
        Spanned<Error>,
    >
        decreases args.len() - i,
    {
        if i < 0 || i >= args.len() {
            Ok(acc)
        } else {
            match Value::spec_to_i128(args[i].inner) {
                Ok(b) => self.spec_fold(args, i + 1, self.spec_op(acc, b)),
                Err(e) => Err(Spanned { span: args[i].span, inner: e }),
            }
        }
    }

    /// Folds the operator over its constant integer arguments.
    pub fn compile(&self, _ctx: &CompileContext, _span: Span, args: Arguments) -> (r: Result<
        C,
        Spanned<Error>,
    >)
        requires
            args_wf(args@),
        ensures
            r == (match self.spec_fold(args@, 0, self.spec_init()) {
                Ok(v) => Ok::<C, Spanned<Error>>(C::Constant(Value::Number(
                    crate::number::Number::Int(v),
                ))),
                Err(e) => Err::<C, Spanned<Error>>(e),
            }),
            r matches Ok(c) ==> is_wf_constant(c),
    {
        let mut acc: i128 = match self {
            Bitwise::And => -1,
            Bitwise::Or => 0,
            Bitwise::Xor => 0,
        };
        let n = args.len();
        let mut i: usize = 0;
        while i < n
            invariant
                0 <= i <= n,
                n == args@.len(),
                args_wf(args@),
                self.spec_fold(args@, 0, self.spec_init()) == self.spec_fold(
                    args@,
                    i as int,
                    acc,
                ),
            decreases n - i,
        {
            match args[i].inner.to_i128() {
                Ok(b) => {
                    acc = match self {
                        Bitwise::And => acc & b,
                        Bitwise::Or => acc | b,
                        Bitwise::Xor => acc ^ b,
                    };
                },
                Err(e) => {
                    let sp = args[i].span;
                    return Err(e.at(sp));
                },
            }
            i += 1;
        }
        Ok(C::Constant(Value::from_i128(acc)))
    }
}

/// The extremum (`least`, `greatest`) SQL functions.
#[derive(Clone, Copy, Debug)]
pub struct Extremum {
    /// The ordering that lets a candidate replace the best so far.
    pub order: core::cmp::Ordering,
}

impl Extremum {
    /// What the streaming reduction holds after the arguments from
    /// position `i` on, having started from `res`: a candidate replaces
    /// the best when it compares in the chosen direction, and any value
    /// replaces NULL.
    pub open spec fn spec_extremum_from(
        order: core::cmp::Ordering,
        args: Seq<Spanned<Value>>,
        i: int,
        res: Value,
    ) -> Result<Value, Spanned<Error>>
        decreases args.len() - i,
    {
        if i < 0 || i >= args.len() {
            Ok(res)
        } else {
            match Value::spec_sql_cmp(args[i].inner, res) {
                Err(e) => Err(Spanned { span: args[i].span, inner: e }),
                Ok(Some(o)) => if o == order {
                    Extremum::spec_extremum_from(order, args, i + 1, args[i].inner)
                } else {
                    Extremum::spec_extremum_from(order, args, i + 1, res)
                },
                Ok(None) => if res is Null {
                    Extremum::spec_extremum_from(order, args, i + 1, args[i].inner)
                } else {
                    Extremum::spec_extremum_from(order, args, i + 1, res)
                },
            }
        }
    }

    /// Folds the extremum over its constant arguments: NULLs lose to any
    /// concrete value, and comparing incomparable types is an error.
    pub fn compile(&self, _ctx: &CompileContext, _span: Span, args: Arguments) -> (r: Result<
        C,
        Spanned<Error>,
    >)
        requires
            args_wf(args@),
        ensures
            r == (match Extremum::spec_extremum_from(self.order, args@, 0, Value::Null) {
                Ok(v) => Ok::<C, Spanned<Error>>(C::Constant(v)),
                Err(e) => Err::<C, Spanned<Error>>(e),
            }),
            r matches Ok(c) ==> is_wf_constant(c),
    {
        let null_value = Value::Null;
        let n = args.len();
        let mut best: Option<usize> = None;
        let mut i: usize = 0;
        while i < n
            invariant
                0 <= i <= n,
                n == args@.len(),
                args_wf(args@),
                best matches Some(j) ==> j < i,
                null_value == Value::Null,
                Extremum::spec_extremum_from(self.order, args@, 0, Value::Null)
                    == Extremum::spec_extremum_from(
                    self.order,
                    args@,
                    i as int,
                    match best {
                        None => Value::Null,
                        Some(j) => args@[j as int].inner,
                    },
                ),
            decreases n - i,
        {
            let cmp_result = match &best {
                Some(j) => args[i].inner.sql_cmp(&args[*j].inner),
                None => args[i].inner.sql_cmp(&null_value),
            };
            match cmp_result {
                Err(e) => {
                    let sp = args[i].span;
                    return Err(e.at(sp));
                },
                Ok(Some(o)) => {
                    if ord_eq(o, self.order) {
                        best = Some(i);
                    }
                },
                Ok(None) => {
                    let res_is_null = match &best {
                        None => true,
                        Some(j) => matches!(&args[*j].inner, Value::Null),
                    };
                    if res_is_null {
                        best = Some(i);
                    }
                },
            }
            i += 1;
        }
        match best {
            None => Ok(C::Constant(Value::Null)),
            Some(j) => {
                let mut args = args;
                let chosen = args.remove(j);
                Ok(C::Constant(chosen.inner))
            },
        }
    }
}

/// The `div` SQL function: integer division truncating toward zero.
#[derive(Clone, Copy, Debug)]
pub struct Div;

impl Div {
    /// What folding `div` yields, with every error at the call's span.
    pub open spec fn spec_compile(span: Span, args: Seq<Spanned<Value>>) -> Result<
        C,
        Spanned<Error>,
    > {
        if args.len() < 2 {
            Err(Spanned { span, inner: Error::NotEnoughArguments })
        } else if args.len() > 2 {
            Err(Spanned { span, inner: Error::InvalidArguments })
        } else {
            match Value::spec_sql_div(args[0].inner, args[1].inner) {
                Ok(v) => Ok(C::Constant(v)),
                Err(e) => Err(Spanned { span, inner: e }),
            }
        }
    }

    /// Folds a truncating division of two constant arguments.
    pub fn compile(&self, _ctx: &CompileContext, span: Span, args: Arguments) -> (r: Result<
        C,
        Spanned<Error>,
    >)
        requires
            args_wf(args@),
        ensures
            r == Div::spec_compile(span, args@),
            r matches Ok(c) ==> is_wf_constant(c),
    {
        if args.len() < 2 {
            Err(Error::NotEnoughArguments.at(span))
        } else if args.len() > 2 {
            Err(Error::InvalidArguments.at(span))
        } else {
            match args[0].inner.sql_div(&args[1].inner) {
                Ok(v) => Ok(C::Constant(v)),
                Err(e) => Err(e.at(span)),
            }
        }
    }
}

/// The `mod` SQL function: the remainder of truncating division.
#[derive(Clone, Copy, Debug)]
pub struct Mod;

impl Mod {
    /// What folding `mod` yields, with every error at the call's span.
    pub open spec fn spec_compile(span: Span, args: Seq<Spanned<Value>>) -> Result<
        C,
        Spanned<Error>,
    > {
        if args.len() < 2 {
            Err(Spanned { span, inner: Error::NotEnoughArguments })
        } else if args.len() > 2 {
            Err(Spanned { span, inner: Error::InvalidArguments })
        } else {
            match Value::spec_sql_rem(args[0].inner, args[1].inner) {
                Ok(v) => Ok(C::Constant(v)),
                Err(e) => Err(Spanned { span, inner: e }),
            }
        }
    }

    /// Folds a remainder of two constant arguments.
    pub fn compile(&self, _ctx: &CompileContext, span: Span, args: Arguments) -> (r: Result<
        C,
        Spanned<Error>,
    >)
        requires
            args_wf(args@),
        ensures
            r == Mod::spec_compile(span, args@),
            r matches Ok(c) ==> is_wf_constant(c),
    {
        if args.len() < 2 {
            Err(Error::NotEnoughArguments.at(span))
        } else if args.len() > 2 {
            Err(Error::InvalidArguments.at(span))
        } else {
            match args[0].inner.sql_rem(&args[1].inner) {
                Ok(v) => Ok(C::Constant(v)),
                Err(e) => Err(e.at(span)),
            }
        }
    }
}

/// The `coalesce` SQL function.
#[derive(Clone, Copy, Debug)]
pub struct Coalesce;

impl Coalesce {
    /// What coalescing yields from position `i` on: the first value that
    /// is not NULL, or NULL when every value is.
    pub open spec fn spec_coalesce_from(args: Seq<Spanned<Value>>, i: int) -> Value
        decreases args.len() - i,
    {
        if i < 0 || i >= args.len() {
            Value::Null
        } else if args[i].inner is Null {
            Coalesce::spec_coalesce_from(args, i + 1)
        } else {
            args[i].inner
        }
    }

    /// Folds a coalesce over its constant arguments; it never fails.
    pub fn compile(&self, _ctx: &CompileContext, _span: Span, args: Arguments) -> (r: Result<
        C,
        Spanned<Error>,
    >)
        requires
            args_wf(args@),
        ensures
            r == Ok::<C, Spanned<Error>>(C::Constant(Coalesce::spec_coalesce_from(args@, 0))),
            r matches Ok(c) ==> is_wf_constant(c),
    {
        let n = args.len();
        let mut i: usize = 0;
        while i < n
            invariant
                0 <= i <= n,
                n == args@.len(),
                args_wf(args@),
                Coalesce::spec_coalesce_from(args@, 0) == Coalesce::spec_coalesce_from(
                    args@,
                    i as int,
                ),
            decreases n - i,
        {
            if !matches!(&args[i].inner, Value::Null) {
                let mut args = args;
                let chosen = args.remove(i);
                return Ok(C::Constant(chosen.inner));
            }
            i += 1;
        }
        Ok(C::Constant(Value::Null))
    }
}

/// The statement separator `;`: every expression was already evaluated,
/// and the last one's value is the result.
#[derive(Clone, Copy, Debug)]
pub struct Last;

impl Last {
    /// Folds a statement list to its last constant.
    pub fn compile(&self, _ctx: &CompileContext, _span: Span, args: Arguments) -> (r: Result<
        C,
        Spanned<Error>,
    >)
        requires
            args@.len() >= 1,
            args_wf(args@),
        ensures
            r == Ok::<C, Spanned<Error>>(C::Constant(args@.last().inner)),
            r matches Ok(c) ==> is_wf_constant(c),
    {
        let mut args = args;
        let last = args.pop().unwrap();
        Ok(C::Constant(last.inner))
    }
}

/// Whether two orderings are the same.
fn ord_eq(a: core::cmp::Ordering, b: core::cmp::Ordering) -> (r: bool)
    ensures
        r == (a == b),
{
    match (a, b) {
        (core::cmp::Ordering::Less, core::cmp::Ordering::Less) => true,
        (core::cmp::Ordering::Equal, core::cmp::Ordering::Equal) => true,
        (core::cmp::Ordering::Greater, core::cmp::Ordering::Greater) => true,
        _ => false,
    }
}

} // verus!

