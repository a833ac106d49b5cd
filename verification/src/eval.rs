//! A reference interpreter for checked core programs.
//!
//! It makes the semantics of the core language executable while the language
//! is designed; it is not a proving backend. It assumes the program passed
//! `CoreProgram::check` (linearity means every environment entry is consumed
//! by removal, so `dup` is the only copy and nothing is dropped silently),
//! but it still reports malformed programs as errors rather than panicking.
//! Recursion depth and total work are bounded by a step budget; running out
//! of it stands in for nontermination, which the language treats as a
//! completeness failure for that input.
//!
//! The meaning of every run is stated by the spec interpreter below, which
//! works on the mathematical model of values ([`ValueView`]): the executable
//! interpreter returns exactly what it describes, errors and the consumption
//! of steps included.

use std::collections::HashMap;

use vstd::prelude::*;

use crate::id::{FunctionId, GlobalId, TypeId, ValueId};
use crate::ir::{BuiltinOp, CoreProgram, Expr, Function, GlobalExpr, MatchArm, Statement};
use crate::types::{def_wf, TypeDef, TypeKind, TypeStore};
use vstd::arithmetic::div_mod::{lemma_add_mod_noop, lemma_mul_mod_noop_left};

verus! {

broadcast use vstd::std_specs::hash::group_hash_axioms;

/// A runtime value.
#[derive(Debug, PartialEq, Eq, PartialOrd, Ord)]
pub enum Value {
    Unit,
    Finite(u128),
    Function(FunctionId),
    Symbol(String),
    Text(String),
    Product(Vec<Value>),
    Sum { variant: usize, payload: Box<Value> },
}

#[derive(Clone, Debug, PartialEq, Eq)]
pub enum EvalError {
    UnknownFunction(FunctionId),
    UnknownGlobal(GlobalId),
    UndefinedGlobal(GlobalId),
    UnknownValue(ValueId),
    DuplicateValue(ValueId),
    Arity { expected: usize, actual: usize },
    RuntimeType { expected: &'static str, actual: Value },
    NotFinite(TypeId),
    IndexOutOfBounds { index: usize, len: usize },
    MissingMatchArm { variant: usize },
    StepLimitExceeded,
}

// ---------------------------------------------------------------------------
// The model of values
// ---------------------------------------------------------------------------

/// The mathematical model of a [`Value`]: strings as character sequences,
/// products as sequences of values.
pub enum ValueView {
    Unit,
    Finite(u128),
    Function(FunctionId),
    Symbol(Seq<char>),
    Text(Seq<char>),
    Product(Seq<ValueView>),
    Sum { variant: usize, payload: Box<ValueView> },
}

/// The model of an [`EvalError`].
pub enum EvalErrorView {
    UnknownFunction(FunctionId),
    UnknownGlobal(GlobalId),
    UndefinedGlobal(GlobalId),
    UnknownValue(ValueId),
    DuplicateValue(ValueId),
    Arity { expected: usize, actual: usize },
    RuntimeType { expected: Seq<char>, actual: ValueView },
    NotFinite(TypeId),
    IndexOutOfBounds { index: usize, len: usize },
    MissingMatchArm { variant: usize },
    StepLimitExceeded,
}

pub open spec fn value_view(v: Value) -> ValueView
    decreases v, 0int,
{
    match v {
        Value::Unit => ValueView::Unit,
        Value::Finite(n) => ValueView::Finite(n),
        Value::Function(f) => ValueView::Function(f),
        Value::Symbol(s) => ValueView::Symbol(s@),
        Value::Text(s) => ValueView::Text(s@),
        Value::Product(fields) => ValueView::Product(values_view_upto(fields@, fields@.len() as int)),
        Value::Sum { variant, payload } => ValueView::Sum { variant, payload: Box::new(value_view(*payload)) },
    }
}

/// The models of the first `n` values of `vs`.
pub open spec fn values_view_upto(vs: Seq<Value>, n: int) -> Seq<ValueView>
    decreases vs, n,
{
    if n <= 0 || n > vs.len() {
        Seq::empty()
    } else {
        values_view_upto(vs, n - 1).push(value_view(vs[n - 1]))
    }
}

pub open spec fn values_view(vs: Seq<Value>) -> Seq<ValueView> {
    values_view_upto(vs, vs.len() as int)
}

impl View for Value {
    type V = ValueView;

    open spec fn view(&self) -> ValueView {
        value_view(*self)
    }
}

impl View for EvalError {
    type V = EvalErrorView;

    open spec fn view(&self) -> EvalErrorView {
        match *self {
            EvalError::UnknownFunction(f) => EvalErrorView::UnknownFunction(f),
            EvalError::UnknownGlobal(g) => EvalErrorView::UnknownGlobal(g),
            EvalError::UndefinedGlobal(g) => EvalErrorView::UndefinedGlobal(g),
            EvalError::UnknownValue(v) => EvalErrorView::UnknownValue(v),
            EvalError::DuplicateValue(v) => EvalErrorView::DuplicateValue(v),
            EvalError::Arity { expected, actual } => EvalErrorView::Arity { expected, actual },
            EvalError::RuntimeType { expected, actual } => EvalErrorView::RuntimeType {
                expected: expected@,
                actual: value_view(actual),
            },
            EvalError::NotFinite(t) => EvalErrorView::NotFinite(t),
            EvalError::IndexOutOfBounds { index, len } => EvalErrorView::IndexOutOfBounds { index, len },
            EvalError::MissingMatchArm { variant } => EvalErrorView::MissingMatchArm { variant },
            EvalError::StepLimitExceeded => EvalErrorView::StepLimitExceeded,
        }
    }
}

pub proof fn lemma_values_view_upto(vs: Seq<Value>, n: int)
    requires
        0 <= n <= vs.len(),
    ensures
        values_view_upto(vs, n).len() == n,
        forall|i: int| 0 <= i < n ==> #[trigger] values_view_upto(vs, n)[i] == value_view(vs[i]),
    decreases n,
{
    if n > 0 {
        lemma_values_view_upto(vs, n - 1);
    }
}

/// The model of a sequence of values, elementwise.
pub proof fn lemma_values_view(vs: Seq<Value>)
    ensures
        values_view(vs).len() == vs.len(),
        forall|i: int| 0 <= i < vs.len() ==> #[trigger] values_view(vs)[i] == value_view(vs[i]),
{
    lemma_values_view_upto(vs, vs.len() as int);
}

/// The model of a local environment.
pub open spec fn env_view(env: Map<u32, Value>) -> Map<u32, ValueView> {
    env.map_values(|v: Value| value_view(v))
}

/// An executable result of values, modelled.
pub open spec fn values_result(r: Result<Vec<Value>, EvalError>) -> Result<Seq<ValueView>, EvalErrorView> {
    match r {
        Ok(vs) => Ok(values_view(vs@)),
        Err(e) => Err(e@),
    }
}

/// An executable result of one value, modelled.
pub open spec fn value_result(r: Result<Value, EvalError>) -> Result<ValueView, EvalErrorView> {
    match r {
        Ok(v) => Ok(value_view(v)),
        Err(e) => Err(e@),
    }
}

// ---------------------------------------------------------------------------
// The spec interpreter
// ---------------------------------------------------------------------------

pub open spec fn runtime_type(expected: Seq<char>, actual: ValueView) -> EvalErrorView {
    EvalErrorView::RuntimeType { expected, actual }
}

pub open spec fn sp_define(env: Map<u32, ValueView>, id: ValueId, v: ValueView) -> Result<Map<u32, ValueView>, EvalErrorView> {
    if env.contains_key(id.0) {
        Err(EvalErrorView::DuplicateValue(id))
    } else {
        Ok(env.insert(id.0, v))
    }
}

pub open spec fn sp_consume(env: Map<u32, ValueView>, id: ValueId) -> Result<(Map<u32, ValueView>, ValueView), EvalErrorView> {
    if env.contains_key(id.0) {
        Ok((env.remove(id.0), env[id.0]))
    } else {
        Err(EvalErrorView::UnknownValue(id))
    }
}

/// Consume `ids[from..]` in order, collecting their values.
pub open spec fn sp_consume_list(env: Map<u32, ValueView>, ids: Seq<ValueId>, from: int) -> Result<(Map<u32, ValueView>, Seq<ValueView>), EvalErrorView>
    decreases ids.len() - from,
{
    if from < 0 || from >= ids.len() {
        Ok((env, Seq::empty()))
    } else {
        match sp_consume(env, ids[from]) {
            Err(e) => Err(e),
            Ok((env1, v)) => match sp_consume_list(env1, ids, from + 1) {
                Err(e) => Err(e),
                Ok((env2, vs)) => Ok((env2, seq![v] + vs)),
            },
        }
    }
}

/// Define `ids[from..]` as `values[from..]`, pairwise.
pub open spec fn sp_define_list(env: Map<u32, ValueView>, ids: Seq<ValueId>, values: Seq<ValueView>, from: int) -> Result<Map<u32, ValueView>, EvalErrorView>
    decreases ids.len() - from,
{
    if from < 0 || from >= ids.len() || from >= values.len() {
        Ok(env)
    } else {
        match sp_define(env, ids[from], values[from]) {
            Err(e) => Err(e),
            Ok(env1) => sp_define_list(env1, ids, values, from + 1),
        }
    }
}

pub open spec fn sp_finite_cardinality(types: Seq<TypeDef>, ty: TypeId) -> Result<u128, EvalErrorView> {
    if ty.0 < types.len() {
        match types[ty.0 as int].kind {
            TypeKind::Finite { values } => Ok(values),
            _ => Err(EvalErrorView::NotFinite(ty)),
        }
    } else {
        Err(EvalErrorView::NotFinite(ty))
    }
}

pub open spec fn sp_expect_finite(v: ValueView) -> Result<u128, EvalErrorView> {
    match v {
        ValueView::Finite(n) => Ok(n),
        _ => Err(runtime_type("finite"@, v)),
    }
}

pub open spec fn sp_finite_pair(args: Seq<ValueView>) -> Result<(u128, u128), EvalErrorView> {
    if args.len() != 2 {
        Err(EvalErrorView::Arity { expected: 2, actual: args.len() as usize })
    } else {
        match sp_expect_finite(args[0]) {
            Err(e) => Err(e),
            Ok(lhs) => match sp_expect_finite(args[1]) {
                Err(e) => Err(e),
                Ok(rhs) => Ok((lhs, rhs)),
            },
        }
    }
}

/// `(lhs + rhs) mod modulus` of the operands' residues.
pub open spec fn spec_mod_add(lhs: u128, rhs: u128, modulus: u128) -> u128 {
    ((lhs % modulus + rhs % modulus) % (modulus as int)) as u128
}

/// `(lhs - rhs) mod modulus` of the operands' residues.
pub open spec fn spec_mod_sub(lhs: u128, rhs: u128, modulus: u128) -> u128 {
    ((lhs % modulus - rhs % modulus) % (modulus as int)) as u128
}

/// `(lhs * rhs) mod modulus` of the operands' residues.
pub open spec fn spec_mod_mul(lhs: u128, rhs: u128, modulus: u128) -> u128 {
    (((lhs % modulus) * (rhs % modulus)) % (modulus as int)) as u128
}

/// The boolean sum: variant 1 for true, 0 for false, unit payload.
pub open spec fn bool_view(b: bool) -> ValueView {
    ValueView::Sum { variant: if b { 1 } else { 0 }, payload: Box::new(ValueView::Unit) }
}

pub open spec fn finite3(a: u128, b: u128, c: u128) -> Seq<ValueView> {
    seq![ValueView::Finite(a), ValueView::Finite(b), ValueView::Finite(c)]
}

pub open spec fn sp_builtin(types: Seq<TypeDef>, op: BuiltinOp, args: Seq<ValueView>) -> Result<Seq<ValueView>, EvalErrorView> {
    match op {
        BuiltinOp::FiniteAdd { ty } => match sp_finite_cardinality(types, ty) {
            Err(e) => Err(e),
            Ok(m) => match sp_finite_pair(args) {
                Err(e) => Err(e),
                Ok((l, r)) => Ok(finite3(l, r, spec_mod_add(l, r, m))),
            },
        },
        BuiltinOp::FiniteSub { ty } => match sp_finite_cardinality(types, ty) {
            Err(e) => Err(e),
            Ok(m) => match sp_finite_pair(args) {
                Err(e) => Err(e),
                Ok((l, r)) => Ok(finite3(l, r, spec_mod_sub(l, r, m))),
            },
        },
        BuiltinOp::FiniteMul { ty } => match sp_finite_cardinality(types, ty) {
            Err(e) => Err(e),
            Ok(m) => match sp_finite_pair(args) {
                Err(e) => Err(e),
                Ok((l, r)) => Ok(finite3(l, r, spec_mod_mul(l, r, m))),
            },
        },
        BuiltinOp::FiniteEq { .. } => match sp_finite_pair(args) {
            Err(e) => Err(e),
            Ok((l, r)) => Ok(seq![ValueView::Finite(l), ValueView::Finite(r), bool_view(l == r)]),
        },
        BuiltinOp::FiniteLt { .. } => match sp_finite_pair(args) {
            Err(e) => Err(e),
            Ok((l, r)) => Ok(seq![ValueView::Finite(l), ValueView::Finite(r), bool_view(l < r)]),
        },
        BuiltinOp::FiniteNext { ty } => match sp_finite_cardinality(types, ty) {
            Err(e) => Err(e),
            Ok(m) => if args.len() != 1 {
                Err(EvalErrorView::Arity { expected: 1, actual: args.len() as usize })
            } else {
                match sp_expect_finite(args[0]) {
                    Err(e) => Err(e),
                    Ok(v) => Ok(seq![ValueView::Finite(spec_mod_add(v, 1, m))]),
                }
            },
        },
    }
}

/// The arguments a function of `arity` inputs receives from one packed
/// value: none from unit, the value itself for one input, the fields of a
/// product of exactly `arity` fields otherwise.
pub open spec fn sp_unpack(arg: ValueView, arity: nat) -> Result<Seq<ValueView>, EvalErrorView> {
    if arity == 0 {
        match arg {
            ValueView::Unit => Ok(Seq::empty()),
            _ => Err(runtime_type("unit"@, arg)),
        }
    } else if arity == 1 {
        Ok(seq![arg])
    } else {
        match arg {
            ValueView::Product(fields) => if fields.len() == arity {
                Ok(fields)
            } else {
                Err(EvalErrorView::Arity { expected: arity as usize, actual: fields.len() as usize })
            },
            _ => Err(runtime_type("product"@, arg)),
        }
    }
}

/// The packing of a function's outputs into one value.
pub open spec fn sp_pack(values: Seq<ValueView>) -> ValueView {
    if values.len() == 0 {
        ValueView::Unit
    } else if values.len() == 1 {
        values[0]
    } else {
        ValueView::Product(values)
    }
}

/// Evaluating a global literal tree; each node costs one step.
pub open spec fn sp_global_expr(expr: GlobalExpr, steps: nat) -> (Result<ValueView, EvalErrorView>, nat)
    decreases expr, 0int,
{
    if steps == 0 {
        (Err(EvalErrorView::StepLimitExceeded), 0)
    } else {
        let s = (steps - 1) as nat;
        match expr {
            GlobalExpr::Unit => (Ok(ValueView::Unit), s),
            GlobalExpr::FiniteLiteral { value, .. } => (Ok(ValueView::Finite(value)), s),
            GlobalExpr::SymbolLiteral { value, .. } => (Ok(ValueView::Symbol(value@)), s),
            GlobalExpr::TextLiteral { value, .. } => (Ok(ValueView::Text(value@)), s),
            GlobalExpr::FunctionRef { function, .. } => (Ok(ValueView::Function(function)), s),
            GlobalExpr::Product { fields, .. } => match sp_global_fields(fields@, 0, s) {
                (Err(e), s1) => (Err(e), s1),
                (Ok(vs), s1) => (Ok(ValueView::Product(vs)), s1),
            },
            GlobalExpr::SumInject { variant, payload, .. } => match sp_global_expr(*payload, s) {
                (Err(e), s1) => (Err(e), s1),
                (Ok(v), s1) => (Ok(ValueView::Sum { variant, payload: Box::new(v) }), s1),
            },
        }
    }
}

pub open spec fn sp_global_fields(fields: Seq<GlobalExpr>, from: int, steps: nat) -> (Result<Seq<ValueView>, EvalErrorView>, nat)
    decreases fields, fields.len() - from,
{
    if from < 0 || from >= fields.len() {
        (Ok(Seq::empty()), steps)
    } else {
        match sp_global_expr(fields[from], steps) {
            (Err(e), s) => (Err(e), s),
            (Ok(v), s) => match sp_global_fields(fields, from + 1, s) {
                (Err(e), s2) => (Err(e), s2),
                (Ok(vs), s2) => (Ok(seq![v] + vs), s2),
            },
        }
    }
}

/// Reading a global: one step, then its definition's tree.
pub open spec fn sp_global(program: &CoreProgram, global: GlobalId, steps: nat) -> (Result<ValueView, EvalErrorView>, nat) {
    if steps == 0 {
        (Err(EvalErrorView::StepLimitExceeded), 0)
    } else if global.0 < program.spec_global_defs().len() && program.spec_global_defs()[global.0 as int] is Some {
        sp_global_expr(program.spec_global_defs()[global.0 as int]->0, (steps - 1) as nat)
    } else {
        (Err(EvalErrorView::UndefinedGlobal(global)), (steps - 1) as nat)
    }
}

/// Entering function `function` with `args`: the callee and its initial
/// environment, with each input bound to its argument.
pub open spec fn sp_enter(program: &CoreProgram, function: FunctionId, args: Seq<ValueView>) -> Result<(Function, Map<u32, ValueView>), EvalErrorView> {
    if function.0 >= program.spec_functions().len() {
        Err(EvalErrorView::UnknownFunction(function))
    } else {
        let callee = program.spec_functions()[function.0 as int];
        if args.len() != callee.inputs@.len() {
            Err(EvalErrorView::Arity { expected: callee.inputs@.len() as usize, actual: args.len() as usize })
        } else {
            match sp_define_list(Map::empty(), callee.inputs@.map_values(|p: crate::ir::Param| p.id), args, 0) {
                Err(e) => Err(e),
                Ok(env) => Ok((callee, env)),
            }
        }
    }
}

pub open spec fn clamp(s: nat, bound: nat) -> nat {
    if s <= bound {
        s
    } else {
        bound
    }
}

/// Evaluating `expr` in `env` with `steps` left: its values and the
/// environment after it, and the steps left after it.
pub open spec fn sp_eval(types: &TypeStore, program: &CoreProgram, env: Map<u32, ValueView>, expr: Expr, steps: nat) -> (Result<(Map<u32, ValueView>, Seq<ValueView>), EvalErrorView>, nat)
    decreases steps, expr, 0int,
{
    match expr {
        Expr::Unit => (Ok((env, seq![ValueView::Unit])), steps),
        Expr::FiniteLiteral { value, .. } => (Ok((env, seq![ValueView::Finite(value)])), steps),
        Expr::FunctionRef { function, .. } => (Ok((env, seq![ValueView::Function(function)])), steps),
        Expr::Product { fields, .. } => (
            match sp_consume_list(env, fields@, 0) {
                Err(e) => Err(e),
                Ok((env1, vs)) => Ok((env1, seq![ValueView::Product(vs)])),
            },
            steps,
        ),
        Expr::SplitProduct { value } => (
            match sp_consume(env, value) {
                Err(e) => Err(e),
                Ok((env1, v)) => match v {
                    ValueView::Product(fields) => Ok((env1, fields)),
                    _ => Err(runtime_type("product"@, v)),
                },
            },
            steps,
        ),
        Expr::ProjectProduct { value, field, .. } => (
            match sp_consume(env, value) {
                Err(e) => Err(e),
                Ok((env1, v)) => match v {
                    ValueView::Product(fields) => if field >= fields.len() {
                        Err(EvalErrorView::IndexOutOfBounds { index: field, len: fields.len() as usize })
                    } else {
                        Ok((env1, seq![fields[field as int], ValueView::Product(fields.remove(field as int))]))
                    },
                    _ => Err(runtime_type("product"@, v)),
                },
            },
            steps,
        ),
        Expr::InsertProductField { field, field_value, residual, .. } => (
            match sp_consume(env, field_value) {
                Err(e) => Err(e),
                Ok((env1, part)) => match sp_consume(env1, residual) {
                    Err(e) => Err(e),
                    Ok((env2, v)) => match v {
                        ValueView::Product(fields) => if field > fields.len() {
                            Err(EvalErrorView::IndexOutOfBounds { index: field, len: fields.len() as usize })
                        } else {
                            Ok((env2, seq![ValueView::Product(fields.insert(field as int, part))]))
                        },
                        _ => Err(runtime_type("product"@, v)),
                    },
                },
            },
            steps,
        ),
        Expr::SumInject { variant, payload, .. } => (
            match sp_consume(env, payload) {
                Err(e) => Err(e),
                Ok((env1, p)) => Ok((env1, seq![ValueView::Sum { variant, payload: Box::new(p) }])),
            },
            steps,
        ),
        Expr::Match { scrutinee, arms } => match sp_consume(env, scrutinee) {
            Err(e) => (Err(e), steps),
            Ok((env1, v)) => match v {
                ValueView::Sum { variant, payload } => match sp_run_arm(types, program, env1, arms@, 0, variant, *payload, steps) {
                    (Err(e), s) => (Err(e), s),
                    (Ok(values), s) => (Ok((Map::empty(), values)), s),
                },
                _ => (Err(runtime_type("sum"@, v)), steps),
            },
        },
        Expr::Global { global } => match sp_global(program, global, steps) {
            (Err(e), s) => (Err(e), s),
            (Ok(v), s) => (Ok((env, seq![v])), s),
        },
        Expr::Call { function, args } => match sp_consume_list(env, args@, 0) {
            Err(e) => (Err(e), steps),
            Ok((env1, vs)) => if steps == 0 {
                (Err(EvalErrorView::StepLimitExceeded), 0)
            } else {
                match sp_enter(program, function, vs) {
                    Err(e) => (Err(e), (steps - 1) as nat),
                    Ok((callee, callee_env)) => match sp_run_block(
                        types,
                        program,
                        callee_env,
                        callee.body@,
                        callee.returned@,
                        (steps - 1) as nat,
                    ) {
                        (Err(e), s) => (Err(e), s),
                        (Ok(out), s) => (Ok((env1, out)), s),
                    },
                }
            },
        },
        Expr::CallValue { function, arg } => match sp_consume(env, function) {
            Err(e) => (Err(e), steps),
            Ok((env1, fv)) => match fv {
                ValueView::Function(callee_id) => match sp_consume(env1, arg) {
                    Err(e) => (Err(e), steps),
                    Ok((env2, packed)) => if callee_id.0 >= program.spec_functions().len() {
                        (Err(EvalErrorView::UnknownFunction(callee_id)), steps)
                    } else {
                        match sp_unpack(packed, program.spec_functions()[callee_id.0 as int].inputs@.len()) {
                            Err(e) => (Err(e), steps),
                            Ok(args) => if steps == 0 {
                                (Err(EvalErrorView::StepLimitExceeded), 0)
                            } else {
                                match sp_enter(program, callee_id, args) {
                                    Err(e) => (Err(e), (steps - 1) as nat),
                                    Ok((callee, callee_env)) => match sp_run_block(
                                        types,
                                        program,
                                        callee_env,
                                        callee.body@,
                                        callee.returned@,
                                        (steps - 1) as nat,
                                    ) {
                                        (Err(e), s) => (Err(e), s),
                                        (Ok(out), s) => (Ok((env2, seq![sp_pack(out)])), s),
                                    },
                                }
                            },
                        }
                    },
                },
                _ => (Err(runtime_type("function"@, fv)), steps),
            },
        },
        Expr::Builtin { op, args } => (
            match sp_consume_list(env, args@, 0) {
                Err(e) => Err(e),
                Ok((env1, vs)) => match sp_builtin(types.spec_types(), op, vs) {
                    Err(e) => Err(e),
                    Ok(out) => Ok((env1, out)),
                },
            },
            steps,
        ),
        Expr::Dup { value } => (
            match sp_consume(env, value) {
                Err(e) => Err(e),
                Ok((env1, v)) => Ok((env1, seq![v, v])),
            },
            steps,
        ),
        Expr::Zap { value } => (
            match sp_consume(env, value) {
                Err(e) => Err(e),
                Ok((env1, _)) => Ok((env1, Seq::empty())),
            },
            steps,
        ),
    }
}

/// Running the first arm of `arms[from..]` for `variant`, with the payload
/// bound in the captured environment.
pub open spec fn sp_run_arm(
    types: &TypeStore,
    program: &CoreProgram,
    env: Map<u32, ValueView>,
    arms: Seq<MatchArm>,
    from: int,
    variant: usize,
    payload: ValueView,
    steps: nat,
) -> (Result<Seq<ValueView>, EvalErrorView>, nat)
    decreases steps, arms, arms.len() - from,
{
    if from < 0 || from >= arms.len() {
        (Err(EvalErrorView::MissingMatchArm { variant }), steps)
    } else if arms[from].variant == variant {
        match sp_define(env, arms[from].payload, payload) {
            Err(e) => (Err(e), steps),
            Ok(env1) => sp_run_block(types, program, env1, arms[from].body@, arms[from].returned@, steps),
        }
    } else {
        sp_run_arm(types, program, env, arms, from + 1, variant, payload, steps)
    }
}

/// Running a block: its statements, then consuming the returned ids.
pub open spec fn sp_run_block(
    types: &TypeStore,
    program: &CoreProgram,
    env: Map<u32, ValueView>,
    body: Seq<Statement>,
    returned: Seq<ValueId>,
    steps: nat,
) -> (Result<Seq<ValueView>, EvalErrorView>, nat)
    decreases steps, body, body.len() + 1,
{
    match sp_run_statements(types, program, env, body, 0, steps) {
        (Err(e), s) => (Err(e), s),
        (Ok(env1), s) => (
            match sp_consume_list(env1, returned, 0) {
                Err(e) => Err(e),
                Ok((_, values)) => Ok(values),
            },
            s,
        ),
    }
}

/// Running the statements `body[from..]`; each costs one step before its
/// expression is evaluated.
pub open spec fn sp_run_statements(
    types: &TypeStore,
    program: &CoreProgram,
    env: Map<u32, ValueView>,
    body: Seq<Statement>,
    from: int,
    steps: nat,
) -> (Result<Map<u32, ValueView>, EvalErrorView>, nat)
    decreases steps, body, body.len() - from,
{
    if from < 0 || from >= body.len() {
        (Ok(env), steps)
    } else if steps == 0 {
        (Err(EvalErrorView::StepLimitExceeded), 0)
    } else {
        let statement = body[from];
        match sp_eval(types, program, env, statement.expr, (steps - 1) as nat) {
            (Err(e), s) => (Err(e), s),
            (Ok((env1, values)), s) => if values.len() != statement.results@.len() {
                (Err(EvalErrorView::Arity { expected: statement.results@.len() as usize, actual: values.len() as usize }), s)
            } else {
                match sp_define_list(env1, statement.results@, values, 0) {
                    Err(e) => (Err(e), s),
                    Ok(env2) => sp_run_statements(types, program, env2, body, from + 1, clamp(s, (steps - 1) as nat)),
                }
            },
        }
    }
}

/// Running function `function` on `args` with a budget of `steps`: one step
/// to enter it, then its body.
pub open spec fn sp_run_function(types: &TypeStore, program: &CoreProgram, function: FunctionId, args: Seq<ValueView>, steps: nat) -> (Result<Seq<ValueView>, EvalErrorView>, nat) {
    if steps == 0 {
        (Err(EvalErrorView::StepLimitExceeded), 0)
    } else {
        match sp_enter(program, function, args) {
            Err(e) => (Err(e), (steps - 1) as nat),
            Ok((callee, env)) => sp_run_block(types, program, env, callee.body@, callee.returned@, (steps - 1) as nat),
        }
    }
}

// ---------------------------------------------------------------------------
// Taking a field out and putting it back
// ---------------------------------------------------------------------------

/// Projecting field `f` out of a product held by `v` gives the field and
/// the residual; inserting them back at `f` gives the very product again.
pub proof fn law_project_insert_round_trip(
    types: &TypeStore,
    program: &CoreProgram,
    env: Map<u32, ValueView>,
    v: ValueId,
    f: usize,
    residual_ty: TypeId,
    ty: TypeId,
    part: ValueId,
    rest: ValueId,
    steps: nat,
)
    requires
        env.contains_key(v.0),
        env[v.0] matches ValueView::Product(fields) && f < fields.len(),
        part != rest,
    ensures
        ({
            let fields = env[v.0]->Product_0;
            let env1 = env.remove(v.0);
            let env2 = env1.insert(part.0, fields[f as int]).insert(rest.0, ValueView::Product(fields.remove(f as int)));
            &&& sp_eval(types, program, env, Expr::ProjectProduct { value: v, field: f, residual_ty }, steps) == (
                Ok::<(Map<u32, ValueView>, Seq<ValueView>), EvalErrorView>(
                    (env1, seq![fields[f as int], ValueView::Product(fields.remove(f as int))]),
                ),
                steps,
            )
            &&& sp_eval(
                types,
                program,
                env2,
                Expr::InsertProductField { ty, field: f, field_value: part, residual: rest },
                steps,
            ) == (Ok::<(Map<u32, ValueView>, Seq<ValueView>), EvalErrorView>((env2.remove(part.0).remove(rest.0), seq![env[v.0]])), steps)
        }),
{
    let fields = env[v.0]->Product_0;
    assert(fields.remove(f as int).insert(f as int, fields[f as int]) =~= fields);
}

// ---------------------------------------------------------------------------
// The step budget
// ---------------------------------------------------------------------------

/// The run stopped because the budget ran out.
pub open spec fn out_of_steps<T>(r: Result<T, EvalErrorView>) -> bool {
    r matches Err(EvalErrorView::StepLimitExceeded)
}

proof fn lemma_global_expr_within(expr: GlobalExpr, steps: nat)
    ensures
        sp_global_expr(expr, steps).1 <= steps,
    decreases expr, 0int,
{
    if steps > 0 {
        let s = (steps - 1) as nat;
        match expr {
            GlobalExpr::Product { fields, .. } => lemma_global_fields_within(fields@, 0, s),
            GlobalExpr::SumInject { payload, .. } => lemma_global_expr_within(*payload, s),
            _ => {},
        }
    }
}

proof fn lemma_global_fields_within(fields: Seq<GlobalExpr>, from: int, steps: nat)
    ensures
        sp_global_fields(fields, from, steps).1 <= steps,
    decreases fields, fields.len() - from,
{
    if !(from < 0 || from >= fields.len()) {
        lemma_global_expr_within(fields[from], steps);
        let s = sp_global_expr(fields[from], steps).1;
        lemma_global_fields_within(fields, from + 1, s);
    }
}

proof fn lemma_eval_within(types: &TypeStore, program: &CoreProgram, env: Map<u32, ValueView>, expr: Expr, steps: nat)
    ensures
        sp_eval(types, program, env, expr, steps).1 <= steps,
    decreases steps, expr, 0int,
{
    match expr {
        Expr::Match { scrutinee, arms } => {
            if let Ok((env1, v)) = sp_consume(env, scrutinee) {
                if let ValueView::Sum { variant, payload } = v {
                    lemma_arm_within(types, program, env1, arms@, 0, variant, *payload, steps);
                }
            }
        },
        Expr::Global { global } => {
            if steps > 0 && global.0 < program.spec_global_defs().len() && program.spec_global_defs()[global.0 as int] is Some {
                lemma_global_expr_within(program.spec_global_defs()[global.0 as int]->0, (steps - 1) as nat);
            }
        },
        Expr::Call { function, args } => {
            if let Ok((env1, vs)) = sp_consume_list(env, args@, 0) {
                if steps > 0 {
                    if let Ok((callee, callee_env)) = sp_enter(program, function, vs) {
                        lemma_block_within(types, program, callee_env, callee.body@, callee.returned@, (steps - 1) as nat);
                    }
                }
            }
        },
        Expr::CallValue { function, arg } => {
            if let Ok((env1, fv)) = sp_consume(env, function) {
                if let ValueView::Function(callee_id) = fv {
                    if let Ok((env2, packed)) = sp_consume(env1, arg) {
                        if callee_id.0 < program.spec_functions().len() {
                            if let Ok(args) = sp_unpack(packed, program.spec_functions()[callee_id.0 as int].inputs@.len()) {
                                if steps > 0 {
                                    if let Ok((callee, callee_env)) = sp_enter(program, callee_id, args) {
                                        lemma_block_within(
                                            types,
                                            program,
                                            callee_env,
                                            callee.body@,
                                            callee.returned@,
                                            (steps - 1) as nat,
                                        );
                                    }
                                }
                            }
                        }
                    }
                }
            }
        },
        _ => {},
    }
}

proof fn lemma_arm_within(
    types: &TypeStore,
    program: &CoreProgram,
    env: Map<u32, ValueView>,
    arms: Seq<MatchArm>,
    from: int,
    variant: usize,
    payload: ValueView,
    steps: nat,
)
    ensures
        sp_run_arm(types, program, env, arms, from, variant, payload, steps).1 <= steps,
    decreases steps, arms, arms.len() - from,
{
    if !(from < 0 || from >= arms.len()) {
        if arms[from].variant == variant {
            if let Ok(env1) = sp_define(env, arms[from].payload, payload) {
                lemma_block_within(types, program, env1, arms[from].body@, arms[from].returned@, steps);
            }
        } else {
            lemma_arm_within(types, program, env, arms, from + 1, variant, payload, steps);
        }
    }
}

proof fn lemma_block_within(
    types: &TypeStore,
    program: &CoreProgram,
    env: Map<u32, ValueView>,
    body: Seq<Statement>,
    returned: Seq<ValueId>,
    steps: nat,
)
    ensures
        sp_run_block(types, program, env, body, returned, steps).1 <= steps,
    decreases steps, body, body.len() + 1,
{
    lemma_statements_within(types, program, env, body, 0, steps);
}

proof fn lemma_statements_within(
    types: &TypeStore,
    program: &CoreProgram,
    env: Map<u32, ValueView>,
    body: Seq<Statement>,
    from: int,
    steps: nat,
)
    ensures
        sp_run_statements(types, program, env, body, from, steps).1 <= steps,
    decreases steps, body, body.len() - from,
{
    if !(from < 0 || from >= body.len()) && steps > 0 {
        let statement = body[from];
        lemma_eval_within(types, program, env, statement.expr, (steps - 1) as nat);
        if let (Ok((env1, values)), s) = sp_eval(types, program, env, statement.expr, (steps - 1) as nat) {
            if values.len() == statement.results@.len() {
                if let Ok(env2) = sp_define_list(env1, statement.results@, values, 0) {
                    lemma_statements_within(types, program, env2, body, from + 1, clamp(s, (steps - 1) as nat));
                }
            }
        }
    }
}

proof fn lemma_global_expr_more(expr: GlobalExpr, steps: nat, more: nat)
    requires
        !out_of_steps(sp_global_expr(expr, steps).0),
    ensures
        sp_global_expr(expr, steps + more) == (sp_global_expr(expr, steps).0, sp_global_expr(expr, steps).1 + more),
    decreases expr, 0int,
{
    let s = (steps - 1) as nat;
    assert((steps + more - 1) as nat == s + more);
    match expr {
        GlobalExpr::Product { fields, .. } => lemma_global_fields_more(fields@, 0, s, more),
        GlobalExpr::SumInject { payload, .. } => lemma_global_expr_more(*payload, s, more),
        _ => {},
    }
}

proof fn lemma_global_fields_more(fields: Seq<GlobalExpr>, from: int, steps: nat, more: nat)
    requires
        !out_of_steps(sp_global_fields(fields, from, steps).0),
    ensures
        sp_global_fields(fields, from, steps + more) == (
            sp_global_fields(fields, from, steps).0,
            sp_global_fields(fields, from, steps).1 + more,
        ),
    decreases fields, fields.len() - from,
{
    if !(from < 0 || from >= fields.len()) {
        lemma_global_expr_more(fields[from], steps, more);
        if let (Ok(v), s) = sp_global_expr(fields[from], steps) {
            lemma_global_fields_more(fields, from + 1, s, more);
        }
    }
}

proof fn lemma_eval_more(
    types: &TypeStore,
    program: &CoreProgram,
    env: Map<u32, ValueView>,
    expr: Expr,
    steps: nat,
    more: nat,
)
    requires
        !out_of_steps(sp_eval(types, program, env, expr, steps).0),
    ensures
        sp_eval(types, program, env, expr, steps + more) == (
            sp_eval(types, program, env, expr, steps).0,
            sp_eval(types, program, env, expr, steps).1 + more,
        ),
    decreases steps, expr, 0int,
{
    if steps > 0 {
        assert((steps + more - 1) as nat == (steps - 1) as nat + more);
    }
    match expr {
        Expr::Match { scrutinee, arms } => {
            if let Ok((env1, v)) = sp_consume(env, scrutinee) {
                if let ValueView::Sum { variant, payload } = v {
                    lemma_arm_more(types, program, env1, arms@, 0, variant, *payload, steps, more);
                }
            }
        },
        Expr::Global { global } => {
            if steps > 0 && global.0 < program.spec_global_defs().len() && program.spec_global_defs()[global.0 as int] is Some {
                lemma_global_expr_more(program.spec_global_defs()[global.0 as int]->0, (steps - 1) as nat, more);
            }
        },
        Expr::Call { function, args } => {
            if let Ok((env1, vs)) = sp_consume_list(env, args@, 0) {
                if steps > 0 {
                    if let Ok((callee, callee_env)) = sp_enter(program, function, vs) {
                        lemma_block_more(types, program, callee_env, callee.body@, callee.returned@, (steps - 1) as nat, more);
                    }
                }
            }
        },
        Expr::CallValue { function, arg } => {
            if let Ok((env1, fv)) = sp_consume(env, function) {
                if let ValueView::Function(callee_id) = fv {
                    if let Ok((env2, packed)) = sp_consume(env1, arg) {
                        if callee_id.0 < program.spec_functions().len() {
                            if let Ok(args) = sp_unpack(packed, program.spec_functions()[callee_id.0 as int].inputs@.len()) {
                                if steps > 0 {
                                    if let Ok((callee, callee_env)) = sp_enter(program, callee_id, args) {
                                        lemma_block_more(
                                            types,
                                            program,
                                            callee_env,
                                            callee.body@,
                                            callee.returned@,
                                            (steps - 1) as nat,
                                            more,
                                        );
                                    }
                                }
                            }
                        }
                    }
                }
            }
        },
        _ => {},
    }
}

proof fn lemma_arm_more(
    types: &TypeStore,
    program: &CoreProgram,
    env: Map<u32, ValueView>,
    arms: Seq<MatchArm>,
    from: int,
    variant: usize,
    payload: ValueView,
    steps: nat,
    more: nat,
)
    requires
        !out_of_steps(sp_run_arm(types, program, env, arms, from, variant, payload, steps).0),
    ensures
        sp_run_arm(types, program, env, arms, from, variant, payload, steps + more) == (
            sp_run_arm(types, program, env, arms, from, variant, payload, steps).0,
            sp_run_arm(types, program, env, arms, from, variant, payload, steps).1 + more,
        ),
    decreases steps, arms, arms.len() - from,
{
    if !(from < 0 || from >= arms.len()) {
        if arms[from].variant == variant {
            if let Ok(env1) = sp_define(env, arms[from].payload, payload) {
                lemma_block_more(types, program, env1, arms[from].body@, arms[from].returned@, steps, more);
            }
        } else {
            lemma_arm_more(types, program, env, arms, from + 1, variant, payload, steps, more);
        }
    }
}

proof fn lemma_block_more(
    types: &TypeStore,
    program: &CoreProgram,
    env: Map<u32, ValueView>,
    body: Seq<Statement>,
    returned: Seq<ValueId>,
    steps: nat,
    more: nat,
)
    requires
        !out_of_steps(sp_run_block(types, program, env, body, returned, steps).0),
    ensures
        sp_run_block(types, program, env, body, returned, steps + more) == (
            sp_run_block(types, program, env, body, returned, steps).0,
            sp_run_block(types, program, env, body, returned, steps).1 + more,
        ),
    decreases steps, body, body.len() + 1,
{
    lemma_statements_more(types, program, env, body, 0, steps, more);
}

proof fn lemma_statements_more(
    types: &TypeStore,
    program: &CoreProgram,
    env: Map<u32, ValueView>,
    body: Seq<Statement>,
    from: int,
    steps: nat,
    more: nat,
)
    requires
        !out_of_steps(sp_run_statements(types, program, env, body, from, steps).0),
    ensures
        sp_run_statements(types, program, env, body, from, steps + more) == (
            sp_run_statements(types, program, env, body, from, steps).0,
            sp_run_statements(types, program, env, body, from, steps).1 + more,
        ),
    decreases steps, body, body.len() - from,
{
    if !(from < 0 || from >= body.len()) && steps > 0 {
        let statement = body[from];
        let k = (steps - 1) as nat;
        assert((steps + more - 1) as nat == k + more);
        lemma_eval_more(types, program, env, statement.expr, k, more);
        lemma_eval_within(types, program, env, statement.expr, k);
        if let (Ok((env1, values)), s) = sp_eval(types, program, env, statement.expr, k) {
            if values.len() == statement.results@.len() {
                if let Ok(env2) = sp_define_list(env1, statement.results@, values, 0) {
                    assert(clamp(s, k) == s);
                    assert(clamp(s + more, k + more) == s + more);
                    lemma_statements_more(types, program, env2, body, from + 1, s, more);
                }
            }
        }
    }
}

/// A run that does not run out of steps gives the same result under any
/// larger budget, the extra steps left over.
pub proof fn law_more_steps_same_result(
    types: &TypeStore,
    program: &CoreProgram,
    function: FunctionId,
    args: Seq<ValueView>,
    steps: nat,
    more: nat,
)
    requires
        !out_of_steps(sp_run_function(types, program, function, args, steps).0),
    ensures
        sp_run_function(types, program, function, args, steps + more) == (
            sp_run_function(types, program, function, args, steps).0,
            sp_run_function(types, program, function, args, steps).1 + more,
        ),
{
    if steps > 0 {
        assert((steps + more - 1) as nat == (steps - 1) as nat + more);
        if let Ok((callee, env)) = sp_enter(program, function, args) {
            lemma_block_more(types, program, env, callee.body@, callee.returned@, (steps - 1) as nat, more);
        }
    }
}

// ---------------------------------------------------------------------------
// Finite arithmetic
// ---------------------------------------------------------------------------

proof fn lemma_mod_small(x: int, m: int)
    requires
        0 <= x < m,
    ensures
        x % m == x,
{
    vstd::arithmetic::div_mod::lemma_small_mod(x as nat, m as nat);
}

proof fn lemma_mod_once_over(x: int, m: int)
    requires
        0 < m <= x < 2 * m,
    ensures
        x % m == x - m,
{
    vstd::arithmetic::div_mod::lemma_mod_sub_multiples_vanish(x, m);
    lemma_mod_small(x - m, m);
}

proof fn lemma_mod_once_under(x: int, m: int)
    requires
        -m <= x < 0 < m,
    ensures
        x % m == x + m,
{
    vstd::arithmetic::div_mod::lemma_mod_add_multiples_vanish(x, m);
    lemma_mod_small(x + m, m);
}

/// `(lhs + rhs) mod modulus`, without overflowing even at `u128::MAX`.
pub fn mod_add(lhs: u128, rhs: u128, modulus: u128) -> (r: u128)
    requires
        modulus > 0,
    ensures
        r == spec_mod_add(lhs, rhs, modulus),
        r < modulus,
{
    let lhs = lhs % modulus;
    let rhs = rhs % modulus;
    let threshold = modulus - rhs;
    if lhs >= threshold {
        proof {
            lemma_mod_once_over(lhs + rhs, modulus as int);
        }
        lhs - threshold
    } else {
        proof {
            lemma_mod_small(lhs + rhs, modulus as int);
        }
        lhs + rhs
    }
}

/// `(lhs - rhs) mod modulus`, on the residues.
pub fn mod_sub(lhs: u128, rhs: u128, modulus: u128) -> (r: u128)
    requires
        modulus > 0,
    ensures
        r == spec_mod_sub(lhs, rhs, modulus),
        r < modulus,
{
    let lhs = lhs % modulus;
    let rhs = rhs % modulus;
    if lhs >= rhs {
        proof {
            lemma_mod_small(lhs - rhs, modulus as int);
        }
        lhs - rhs
    } else {
        proof {
            lemma_mod_once_under(lhs - rhs, modulus as int);
        }
        modulus - (rhs - lhs)
    }
}

proof fn lemma_mod_mul_step(res: int, a: int, b: int, t: int, b1: int, res1: int, a1: int, m: int)
    requires
        m > 0,
        b == 2 * b1 + t,
        t == 0 || t == 1,
        res1 % m == (res + t * a) % m,
        a1 % m == (2 * a) % m || b1 == 0,
    ensures
        (res1 + a1 * b1) % m == (res + a * b) % m,
{
    assert((a1 * b1) % m == (2 * a * b1) % m) by {
        if b1 == 0 {
            assert(a1 * b1 == 0) by (nonlinear_arith)
                requires
                    b1 == 0,
            ;
            assert(2 * a * b1 == 0) by (nonlinear_arith)
                requires
                    b1 == 0,
            ;
        } else {
            lemma_mul_mod_noop_left(a1, b1, m);
            lemma_mul_mod_noop_left(2 * a, b1, m);
        }
    }
    lemma_add_mod_noop(res1, a1 * b1, m);
    lemma_add_mod_noop(res + t * a, 2 * a * b1, m);
    assert(res + t * a + 2 * a * b1 == res + a * b) by (nonlinear_arith)
        requires
            b == 2 * b1 + t,
    ;
}

/// `(lhs * rhs) mod modulus` by doubling and adding, so that no
/// intermediate product overflows.
pub fn mod_mul(lhs: u128, rhs: u128, modulus: u128) -> (r: u128)
    requires
        modulus > 0,
    ensures
        r == spec_mod_mul(lhs, rhs, modulus),
        r < modulus,
{
    let ghost m = modulus as int;
    let mut a = lhs % modulus;
    let mut b = rhs % modulus;
    let ghost goal = ((lhs % modulus) * (rhs % modulus)) % m;
    let mut result: u128 = 0;
    proof {
        lemma_mod_small(0, m);
    }
    while b != 0
        invariant
            modulus > 0,
            m == modulus as int,
            a < modulus,
            result < modulus,
            (result + a * b) % m == goal,
        decreases b,
    {
        let ghost (res0, a0, b0) = (result as int, a as int, b as int);
        let t = b & 1;
        let b1 = b >> 1;
        assert(b == 2 * b1 + t && (t == 0 || t == 1) && b1 < b) by (bit_vector)
            requires
                b != 0,
                t == b & 1,
                b1 == b >> 1,
        ;
        if t == 1 {
            result = mod_add(result, a, modulus);
            proof {
                lemma_mod_small(res0, m);
                lemma_mod_small(a0, m);
            }
        }
        b = b1;
        if b != 0 {
            a = mod_add(a, a, modulus);
            proof {
                lemma_mod_small(a0, m);
                lemma_mod_small(a as int, m);
                assert(a0 + a0 == 2 * a0);
            }
        }
        proof {
            lemma_mod_small(result as int, m);
            if t != 1 {
                lemma_mod_small(res0, m);
            } else {
                assert(t * a0 == a0);
            }
            lemma_mod_mul_step(res0, a0, b0, t as int, b1 as int, result as int, a as int, m);
        }
    }
    proof {
        lemma_mod_small(result as int, m);
    }
    result
}

// ---------------------------------------------------------------------------
// Values and environments
// ---------------------------------------------------------------------------

/// A copy of `v` with the same model.
#[verifier::loop_isolation(false)]
pub fn copy_value(v: &Value) -> (r: Value)
    ensures
        r@ == v@,
    decreases v,
{
    match v {
        Value::Unit => Value::Unit,
        Value::Finite(n) => Value::Finite(*n),
        Value::Function(f) => Value::Function(*f),
        Value::Symbol(s) => Value::Symbol(s.clone()),
        Value::Text(s) => Value::Text(s.clone()),
        Value::Product(fields) => {
            let mut out: Vec<Value> = Vec::new();
            let mut i: usize = 0;
            while i < fields.len()
                invariant
                    0 <= i <= fields@.len(),
                    out@.len() == i,
                    forall|k: int| 0 <= k < i ==> (#[trigger] out@[k])@ == fields@[k]@,
                decreases fields@.len() - i,
            {
                let c = copy_value(&fields[i]);
                out.push(c);
                i += 1;
            }
            proof {
                lemma_values_view(out@);
                lemma_values_view(fields@);
                assert(values_view(out@) =~= values_view(fields@));
            }
            Value::Product(out)
        },
        Value::Sum { variant, payload } => Value::Sum { variant: *variant, payload: Box::new(copy_value(payload)) },
    }
}

impl Clone for Value {
    fn clone(&self) -> (r: Self)
        ensures
            r@ == self@,
    {
        copy_value(self)
    }
}

proof fn lemma_values_push(vs: Seq<Value>, v: Value)
    ensures
        values_view(vs.push(v)) == values_view(vs).push(v@),
{
    lemma_values_view(vs);
    lemma_values_view(vs.push(v));
    assert(values_view(vs.push(v)) =~= values_view(vs).push(v@));
}

proof fn lemma_env_insert(env: Map<u32, Value>, k: u32, v: Value)
    ensures
        env_view(env.insert(k, v)) == env_view(env).insert(k, v@),
{
    assert(env_view(env.insert(k, v)) =~= env_view(env).insert(k, v@));
}

proof fn lemma_env_remove(env: Map<u32, Value>, k: u32)
    ensures
        env_view(env.remove(k)) == env_view(env).remove(k),
{
    assert(env_view(env.remove(k)) =~= env_view(env).remove(k));
}

fn env_define(env: &mut HashMap<u32, Value>, id: ValueId, value: Value) -> (r: Result<(), EvalError>)
    ensures
        match sp_define(env_view(old(env)@), id, value@) {
            Ok(e) => r is Ok && env_view(final(env)@) == e,
            Err(err) => r matches Err(x) && x@ == err,
        },
{
    if env.contains_key(&id.0) {
        return Err(EvalError::DuplicateValue(id));
    }
    proof {
        lemma_env_insert(env@, id.0, value);
    }
    env.insert(id.0, value);
    Ok(())
}

fn env_consume(env: &mut HashMap<u32, Value>, id: ValueId) -> (r: Result<Value, EvalError>)
    ensures
        match sp_consume(env_view(old(env)@), id) {
            Ok((e, v)) => r matches Ok(x) && x@ == v && env_view(final(env)@) == e,
            Err(err) => r matches Err(x) && x@ == err,
        },
{
    proof {
        lemma_env_remove(env@, id.0);
    }
    match env.remove(&id.0) {
        Some(v) => Ok(v),
        None => Err(EvalError::UnknownValue(id)),
    }
}

/// Consumes `ids` in order, collecting their values.
fn consume_list(env: &mut HashMap<u32, Value>, ids: &Vec<ValueId>) -> (r: Result<Vec<Value>, EvalError>)
    ensures
        match sp_consume_list(env_view(old(env)@), ids@, 0) {
            Ok((e, vs)) => values_result(r) == Ok::<Seq<ValueView>, EvalErrorView>(vs) && env_view(final(env)@) == e,
            Err(err) => values_result(r) == Err::<Seq<ValueView>, EvalErrorView>(err),
        },
{
    let mut acc: Vec<Value> = Vec::new();
    let mut i: usize = 0;
    while i < ids.len()
        invariant
            0 <= i <= ids@.len(),
            sp_consume_list(env_view(old(env)@), ids@, 0) == match sp_consume_list(env_view(env@), ids@, i as int) {
                Ok((e, t)) => Ok((e, values_view(acc@) + t)),
                Err(x) => Err(x),
            },
        decreases ids@.len() - i,
    {
        let ghost acc0 = acc@;
        let v = env_consume(env, ids[i])?;
        proof {
            lemma_values_push(acc0, v);
        }
        acc.push(v);
        proof {
            match sp_consume_list(env_view(env@), ids@, i + 1) {
                Ok((e, t)) => {
                    assert(values_view(acc0) + (seq![v@] + t) =~= values_view(acc@) + t);
                },
                Err(x) => {},
            }
        }
        i += 1;
    }
    proof {
        assert(values_view(acc@) + Seq::<ValueView>::empty() =~= values_view(acc@));
    }
    Ok(acc)
}

/// Defines `ids` as `values`, pairwise.
#[verifier::loop_isolation(false)]
fn define_list(env: &mut HashMap<u32, Value>, ids: &Vec<ValueId>, values: Vec<Value>) -> (r: Result<(), EvalError>)
    requires
        ids@.len() == values@.len(),
    ensures
        match sp_define_list(env_view(old(env)@), ids@, values_view(values@), 0) {
            Ok(e) => r is Ok && env_view(final(env)@) == e,
            Err(err) => r matches Err(x) && x@ == err,
        },
{
    let ghost all = values_view(values@);
    proof {
        lemma_values_view(values@);
    }
    let mut rest = values;
    let mut i: usize = 0;
    while i < ids.len()
        invariant
            0 <= i <= ids@.len(),
            all.len() == ids@.len(),
            rest@.len() == ids@.len() - i,
            forall|k: int| 0 <= k < rest@.len() ==> (#[trigger] rest@[k])@ == all[i + k],
            sp_define_list(env_view(old(env)@), ids@, all, 0) == sp_define_list(env_view(env@), ids@, all, i as int),
        decreases ids@.len() - i,
    {
        let ghost rest0 = rest@;
        let v = rest.remove(0);
        assert(v@ == all[i as int]);
        env_define(env, ids[i], v)?;
        proof {
            assert forall|k: int| 0 <= k < rest@.len() implies (#[trigger] rest@[k])@ == all[i + 1 + k] by {
                assert(rest@[k] == rest0[k + 1]);
            }
        }
        i += 1;
    }
    Ok(())
}

// ---------------------------------------------------------------------------
// Globals, builtins and calling conventions
// ---------------------------------------------------------------------------

/// Evaluates a global literal tree; each node costs one step.
#[verifier::loop_isolation(false)]
fn eval_global_expr(expr: &GlobalExpr, steps: &mut usize) -> (r: Result<Value, EvalError>)
    ensures
        value_result(r) == sp_global_expr(*expr, *old(steps) as nat).0,
        *final(steps) as nat == sp_global_expr(*expr, *old(steps) as nat).1,
        *final(steps) <= *old(steps),
    decreases expr,
{
    if *steps == 0 {
        return Err(EvalError::StepLimitExceeded);
    }
    *steps = *steps - 1;
    match expr {
        GlobalExpr::Unit => Ok(Value::Unit),
        GlobalExpr::FiniteLiteral { value, .. } => Ok(Value::Finite(*value)),
        GlobalExpr::SymbolLiteral { value, .. } => Ok(Value::Symbol(value.clone())),
        GlobalExpr::TextLiteral { value, .. } => Ok(Value::Text(value.clone())),
        GlobalExpr::FunctionRef { function, .. } => Ok(Value::Function(*function)),
        GlobalExpr::Product { fields, .. } => {
            let ghost s0 = *steps as nat;
            let mut out: Vec<Value> = Vec::new();
            let mut i: usize = 0;
            while i < fields.len()
                invariant
                    0 <= i <= fields@.len(),
                    *steps <= s0,
                    sp_global_fields(fields@, 0, s0) == match sp_global_fields(fields@, i as int, *steps as nat) {
                        (Ok(vs), s) => (Ok(values_view(out@) + vs), s),
                        (Err(e), s) => (Err(e), s),
                    },
                decreases fields@.len() - i,
            {
                let ghost out0 = out@;
                let v = eval_global_expr(&fields[i], steps)?;
                proof {
                    lemma_values_push(out0, v);
                }
                out.push(v);
                proof {
                    match sp_global_fields(fields@, i + 1, *steps as nat) {
                        (Ok(vs), s) => {
                            assert(values_view(out0) + (seq![v@] + vs) =~= values_view(out@) + vs);
                        },
                        (Err(e), s) => {},
                    }
                }
                i += 1;
            }
            proof {
                assert(values_view(out@) + Seq::<ValueView>::empty() =~= values_view(out@));
            }
            Ok(Value::Product(out))
        },
        GlobalExpr::SumInject { variant, payload, .. } => {
            let p = eval_global_expr(payload, steps)?;
            Ok(Value::Sum { variant: *variant, payload: Box::new(p) })
        },
    }
}

/// Reads global `global`: one step, then its definition.
fn eval_global(program: &CoreProgram, global: GlobalId, steps: &mut usize) -> (r: Result<Value, EvalError>)
    requires
        program.wf(),
    ensures
        value_result(r) == sp_global(program, global, *old(steps) as nat).0,
        *final(steps) as nat == sp_global(program, global, *old(steps) as nat).1,
        *final(steps) <= *old(steps),
{
    if *steps == 0 {
        return Err(EvalError::StepLimitExceeded);
    }
    *steps = *steps - 1;
    match program.get_global_def(global) {
        Some(value) => eval_global_expr(value, steps),
        None => Err(EvalError::UndefinedGlobal(global)),
    }
}

fn finite_modulus(types: &TypeStore, ty: TypeId) -> (r: Result<u128, EvalError>)
    requires
        types.wf(),
    ensures
        match sp_finite_cardinality(types.spec_types(), ty) {
            Ok(m) => r == Ok::<u128, EvalError>(m) && m > 0,
            Err(e) => r matches Err(x) && x@ == e,
        },
{
    match types.get(ty) {
        Some(def) => match &def.kind {
            TypeKind::Finite { values } => {
                proof {
                    assert(def_wf(types.spec_types(), ty.0 as int));
                }
                Ok(*values)
            },
            _ => Err(EvalError::NotFinite(ty)),
        },
        None => Err(EvalError::NotFinite(ty)),
    }
}

fn expect_finite(value: Value) -> (r: Result<u128, EvalError>)
    ensures
        match sp_expect_finite(value@) {
            Ok(n) => r == Ok::<u128, EvalError>(n),
            Err(e) => r matches Err(x) && x@ == e,
        },
{
    match value {
        Value::Finite(n) => Ok(n),
        actual => {
            proof {
                reveal_strlit("finite");
            }
            Err(EvalError::RuntimeType { expected: "finite", actual })
        },
    }
}

fn finite_pair(args: Vec<Value>) -> (r: Result<(u128, u128), EvalError>)
    ensures
        match sp_finite_pair(values_view(args@)) {
            Ok(p) => r == Ok::<(u128, u128), EvalError>(p),
            Err(e) => r matches Err(x) && x@ == e,
        },
{
    proof {
        lemma_values_view(args@);
    }
    if args.len() != 2 {
        return Err(EvalError::Arity { expected: 2, actual: args.len() });
    }
    let mut args = args;
    let ghost all = args@;
    let rhs = args.pop().unwrap();
    let lhs = args.pop().unwrap();
    assert(lhs == all[0] && rhs == all[1]);
    let l = expect_finite(lhs)?;
    let r = expect_finite(rhs)?;
    Ok((l, r))
}

fn finite_values(a: u128, b: u128, c: u128) -> (r: Vec<Value>)
    ensures
        values_view(r@) == finite3(a, b, c),
{
    let r = vec![Value::Finite(a), Value::Finite(b), Value::Finite(c)];
    proof {
        lemma_values_view(r@);
        assert(values_view(r@) =~= finite3(a, b, c));
    }
    r
}

fn bool_value(b: bool) -> (r: Value)
    ensures
        r@ == bool_view(b),
{
    let unit = Value::Unit;
    assert(unit@ == ValueView::Unit);
    Value::Sum { variant: if b { 1 } else { 0 }, payload: Box::new(unit) }
}

fn one_value(v: Value) -> (r: Vec<Value>)
    ensures
        values_view(r@) == seq![v@],
{
    let r = vec![v];
    proof {
        lemma_values_view(r@);
        assert(values_view(r@) =~= seq![v@]);
    }
    r
}

fn eval_builtin(types: &TypeStore, op: BuiltinOp, args: Vec<Value>) -> (r: Result<Vec<Value>, EvalError>)
    requires
        types.wf(),
    ensures
        values_result(r) == sp_builtin(types.spec_types(), op, values_view(args@)),
{
    match op {
        BuiltinOp::FiniteAdd { ty } => {
            let modulus = finite_modulus(types, ty)?;
            let (l, r) = finite_pair(args)?;
            Ok(finite_values(l, r, mod_add(l, r, modulus)))
        },
        BuiltinOp::FiniteSub { ty } => {
            let modulus = finite_modulus(types, ty)?;
            let (l, r) = finite_pair(args)?;
            Ok(finite_values(l, r, mod_sub(l, r, modulus)))
        },
        BuiltinOp::FiniteMul { ty } => {
            let modulus = finite_modulus(types, ty)?;
            let (l, r) = finite_pair(args)?;
            Ok(finite_values(l, r, mod_mul(l, r, modulus)))
        },
        BuiltinOp::FiniteEq { .. } => {
            let (l, r) = finite_pair(args)?;
            let out = vec![Value::Finite(l), Value::Finite(r), bool_value(l == r)];
            proof {
                lemma_values_view(out@);
                assert(values_view(out@) =~= seq![ValueView::Finite(l), ValueView::Finite(r), bool_view(l == r)]);
            }
            Ok(out)
        },
        BuiltinOp::FiniteLt { .. } => {
            let (l, r) = finite_pair(args)?;
            let out = vec![Value::Finite(l), Value::Finite(r), bool_value(l < r)];
            proof {
                lemma_values_view(out@);
                assert(values_view(out@) =~= seq![ValueView::Finite(l), ValueView::Finite(r), bool_view(l < r)]);
            }
            Ok(out)
        },
        BuiltinOp::FiniteNext { ty } => {
            let modulus = finite_modulus(types, ty)?;
            proof {
                lemma_values_view(args@);
            }
            if args.len() != 1 {
                return Err(EvalError::Arity { expected: 1, actual: args.len() });
            }
            let mut args = args;
            let value = expect_finite(args.pop().unwrap())?;
            Ok(one_value(Value::Finite(mod_add(value, 1, modulus))))
        },
    }
}

/// The arguments a function of `arity` inputs receives from one packed
/// value.
fn unpack_call_value_arg(arg: Value, arity: usize) -> (r: Result<Vec<Value>, EvalError>)
    ensures
        values_result(r) == sp_unpack(arg@, arity as nat),
{
    if arity == 0 {
        match arg {
            Value::Unit => {
                proof {
                    lemma_values_view(Seq::<Value>::empty());
                }
                Ok(Vec::new())
            },
            actual => {
                proof {
                    reveal_strlit("unit");
                }
                Err(EvalError::RuntimeType { expected: "unit", actual })
            },
        }
    } else if arity == 1 {
        Ok(one_value(arg))
    } else {
        match arg {
            Value::Product(fields) => {
                proof {
                    lemma_values_view(fields@);
                }
                if fields.len() == arity {
                    Ok(fields)
                } else {
                    Err(EvalError::Arity { expected: arity, actual: fields.len() })
                }
            },
            actual => {
                proof {
                    reveal_strlit("product");
                }
                Err(EvalError::RuntimeType { expected: "product", actual })
            },
        }
    }
}

/// Packs a function's outputs into one value.
fn pack_call_value_output(values: Vec<Value>) -> (r: Value)
    ensures
        r@ == sp_pack(values_view(values@)),
{
    proof {
        lemma_values_view(values@);
    }
    if values.len() == 0 {
        Value::Unit
    } else if values.len() == 1 {
        let mut values = values;
        values.pop().unwrap()
    } else {
        Value::Product(values)
    }
}

/// Enters `function` with `args`: the callee and its environment with each
/// input bound to its argument.
fn enter<'p>(program: &'p CoreProgram, function: FunctionId, args: Vec<Value>) -> (r: Result<(&'p Function, HashMap<u32, Value>), EvalError>)
    ensures
        match sp_enter(program, function, values_view(args@)) {
            Ok((callee, env)) => r matches Ok((c, e)) && *c == callee && env_view(e@) == env,
            Err(err) => r matches Err(x) && x@ == err,
        },
{
    proof {
        lemma_values_view(args@);
    }
    let callee = match program.get(function) {
        Some(callee) => callee,
        None => return Err(EvalError::UnknownFunction(function)),
    };
    if args.len() != callee.inputs.len() {
        return Err(EvalError::Arity { expected: callee.inputs.len(), actual: args.len() });
    }
    let ids = param_ids_of(&callee.inputs);
    let mut env: HashMap<u32, Value> = HashMap::new();
    proof {
        assert(env_view(env@) =~= Map::<u32, ValueView>::empty());
    }
    define_list(&mut env, &ids, args)?;
    Ok((callee, env))
}

fn param_ids_of(inputs: &Vec<crate::ir::Param>) -> (r: Vec<ValueId>)
    ensures
        r@ == inputs@.map_values(|p: crate::ir::Param| p.id),
{
    let mut r: Vec<ValueId> = Vec::new();
    let mut i: usize = 0;
    while i < inputs.len()
        invariant
            0 <= i <= inputs@.len(),
            r@ == inputs@.subrange(0, i as int).map_values(|p: crate::ir::Param| p.id),
        decreases inputs@.len() - i,
    {
        r.push(inputs[i].id);
        proof {
            assert(inputs@.subrange(0, i + 1).map_values(|p: crate::ir::Param| p.id) =~= inputs@.subrange(
                0,
                i as int,
            ).map_values(|p: crate::ir::Param| p.id).push(inputs@[i as int].id));
        }
        i += 1;
    }
    assert(inputs@.subrange(0, inputs@.len() as int) =~= inputs@);
    r
}

// ---------------------------------------------------------------------------
// The executable interpreter
// ---------------------------------------------------------------------------

/// Skipping arms of other variants does not change which arm runs.
proof fn lemma_run_arm_skip(
    types: &TypeStore,
    program: &CoreProgram,
    env: Map<u32, ValueView>,
    arms: Seq<MatchArm>,
    from: int,
    to: int,
    variant: usize,
    payload: ValueView,
    steps: nat,
)
    requires
        0 <= from <= to <= arms.len(),
        forall|k: int| from <= k < to ==> (#[trigger] arms[k]).variant != variant,
    ensures
        sp_run_arm(types, program, env, arms, from, variant, payload, steps) == sp_run_arm(
            types,
            program,
            env,
            arms,
            to,
            variant,
            payload,
            steps,
        ),
    decreases to - from,
{
    if from < to {
        lemma_run_arm_skip(types, program, env, arms, from + 1, to, variant, payload, steps);
    }
}

/// The first arm for `variant`.
fn find_arm(arms: &Vec<MatchArm>, variant: usize) -> (r: Option<usize>)
    ensures
        match r {
            Some(i) => i < arms@.len() && arms@[i as int].variant == variant && forall|k: int|
                0 <= k < i ==> (#[trigger] arms@[k]).variant != variant,
            None => forall|k: int| 0 <= k < arms@.len() ==> (#[trigger] arms@[k]).variant != variant,
        },
{
    let mut i: usize = 0;
    while i < arms.len()
        invariant
            0 <= i <= arms@.len(),
            forall|k: int| 0 <= k < i ==> (#[trigger] arms@[k]).variant != variant,
        decreases arms@.len() - i,
    {
        if arms[i].variant == variant {
            return Some(i);
        }
        i += 1;
    }
    None
}

/// Runs a block: its statements, each costing one step, then the returned
/// ids are consumed.
#[verifier::loop_isolation(false)]
fn run_block(
    types: &TypeStore,
    program: &CoreProgram,
    env: HashMap<u32, Value>,
    body: &Vec<Statement>,
    returned: &Vec<ValueId>,
    steps: &mut usize,
) -> (r: Result<Vec<Value>, EvalError>)
    requires
        types.wf(),
        program.wf(),
    ensures
        values_result(r) == sp_run_block(types, program, env_view(env@), body@, returned@, *old(steps) as nat).0,
        *final(steps) as nat == sp_run_block(types, program, env_view(env@), body@, returned@, *old(steps) as nat).1,
        *final(steps) <= *old(steps),
    decreases *old(steps), body@, body@.len() + 1,
{
    let ghost env0 = env_view(env@);
    let ghost s0 = *steps as nat;
    let mut env = env;
    let mut k: usize = 0;
    while k < body.len()
        invariant
            0 <= k <= body@.len(),
            *steps <= s0,
            sp_run_statements(types, program, env0, body@, 0, s0) == sp_run_statements(
                types,
                program,
                env_view(env@),
                body@,
                k as int,
                *steps as nat,
            ),
        decreases body@.len() - k,
    {
        if *steps == 0 {
            return Err(EvalError::StepLimitExceeded);
        }
        *steps = *steps - 1;
        let statement = &body[k];
        let values = eval_expr(types, program, &mut env, &statement.expr, steps)?;
        proof {
            lemma_values_view(values@);
        }
        if values.len() != statement.results.len() {
            return Err(EvalError::Arity { expected: statement.results.len(), actual: values.len() });
        }
        define_list(&mut env, &statement.results, values)?;
        k += 1;
    }
    consume_list(&mut env, returned)
}

/// Evaluates `expr` in `env`, with `steps` left.
#[verifier::rlimit(60)]
#[verifier::loop_isolation(false)]
fn eval_expr(
    types: &TypeStore,
    program: &CoreProgram,
    env: &mut HashMap<u32, Value>,
    expr: &Expr,
    steps: &mut usize,
) -> (r: Result<Vec<Value>, EvalError>)
    requires
        types.wf(),
        program.wf(),
    ensures
        *final(steps) <= *old(steps),
        *final(steps) as nat == sp_eval(types, program, env_view(old(env)@), *expr, *old(steps) as nat).1,
        match sp_eval(types, program, env_view(old(env)@), *expr, *old(steps) as nat).0 {
            Ok((e, vs)) => values_result(r) == Ok::<Seq<ValueView>, EvalErrorView>(vs) && env_view(final(env)@) == e,
            Err(err) => values_result(r) == Err::<Seq<ValueView>, EvalErrorView>(err),
        },
    decreases *old(steps), expr, 0int,
{
    match expr {
        Expr::Unit => Ok(one_value(Value::Unit)),
        Expr::FiniteLiteral { value, .. } => Ok(one_value(Value::Finite(*value))),
        Expr::FunctionRef { function, .. } => Ok(one_value(Value::Function(*function))),
        Expr::Product { fields, .. } => {
            let values = consume_list(env, fields)?;
            Ok(one_value(Value::Product(values)))
        },
        Expr::SplitProduct { value } => match env_consume(env, *value)? {
            Value::Product(fields) => Ok(fields),
            actual => {
                proof {
                    reveal_strlit("product");
                }
                Err(EvalError::RuntimeType { expected: "product", actual })
            },
        },
        Expr::ProjectProduct { value, field, .. } => match env_consume(env, *value)? {
            Value::Product(fields) => {
                proof {
                    lemma_values_view(fields@);
                }
                if *field >= fields.len() {
                    return Err(EvalError::IndexOutOfBounds { index: *field, len: fields.len() });
                }
                let mut fields = fields;
                let ghost all = fields@;
                let selected = fields.remove(*field);
                proof {
                    lemma_values_view(fields@);
                    assert(values_view(fields@) =~= values_view(all).remove(*field as int));
                }
                let rest = Value::Product(fields);
                let out = vec![selected, rest];
                proof {
                    lemma_values_view(out@);
                    assert(values_view(out@) =~= seq![selected@, rest@]);
                }
                Ok(out)
            },
            actual => {
                proof {
                    reveal_strlit("product");
                }
                Err(EvalError::RuntimeType { expected: "product", actual })
            },
        },
        Expr::InsertProductField { field, field_value, residual, .. } => {
            let part = env_consume(env, *field_value)?;
            match env_consume(env, *residual)? {
                Value::Product(fields) => {
                    proof {
                        lemma_values_view(fields@);
                    }
                    if *field > fields.len() {
                        return Err(EvalError::IndexOutOfBounds { index: *field, len: fields.len() });
                    }
                    let mut fields = fields;
                    let ghost all = fields@;
                    let ghost part_view = part@;
                    fields.insert(*field, part);
                    proof {
                        lemma_values_view(fields@);
                        assert(values_view(fields@) =~= values_view(all).insert(*field as int, part_view));
                    }
                    Ok(one_value(Value::Product(fields)))
                },
                actual => {
                    proof {
                        reveal_strlit("product");
                    }
                    Err(EvalError::RuntimeType { expected: "product", actual })
                },
            }
        },
        Expr::SumInject { variant, payload, .. } => {
            let p = env_consume(env, *payload)?;
            Ok(one_value(Value::Sum { variant: *variant, payload: Box::new(p) }))
        },
        Expr::Match { scrutinee, arms } => match env_consume(env, *scrutinee)? {
            Value::Sum { variant, payload } => {
                let ghost captured_view = env_view(env@);
                match find_arm(arms, variant) {
                    None => {
                        proof {
                            lemma_run_arm_skip(types, program, captured_view, arms@, 0, arms@.len() as int, variant, (*payload)@, *steps as nat);
                        }
                        Err(EvalError::MissingMatchArm { variant })
                    },
                    Some(i) => {
                        proof {
                            lemma_run_arm_skip(types, program, captured_view, arms@, 0, i as int, variant, (*payload)@, *steps as nat);
                        }
                        let mut captured: HashMap<u32, Value> = HashMap::new();
                        std::mem::swap(&mut captured, env);
                        proof {
                            assert(env_view(env@) =~= Map::<u32, ValueView>::empty());
                        }
                        let arm = &arms[i];
                        env_define(&mut captured, arm.payload, *payload)?;
                        run_block(types, program, captured, &arm.body, &arm.returned, steps)
                    },
                }
            },
            actual => {
                proof {
                    reveal_strlit("sum");
                }
                Err(EvalError::RuntimeType { expected: "sum", actual })
            },
        },
        Expr::Global { global } => {
            let v = eval_global(program, *global, steps)?;
            Ok(one_value(v))
        },
        Expr::Call { function, args } => {
            let values = consume_list(env, args)?;
            if *steps == 0 {
                return Err(EvalError::StepLimitExceeded);
            }
            *steps = *steps - 1;
            let (callee, callee_env) = enter(program, *function, values)?;
            run_block(types, program, callee_env, &callee.body, &callee.returned, steps)
        },
        Expr::CallValue { function, arg } => match env_consume(env, *function)? {
            Value::Function(callee_id) => {
                let packed = env_consume(env, *arg)?;
                let arity = match program.get(callee_id) {
                    Some(callee) => callee.inputs.len(),
                    None => return Err(EvalError::UnknownFunction(callee_id)),
                };
                let args = unpack_call_value_arg(packed, arity)?;
                if *steps == 0 {
                    return Err(EvalError::StepLimitExceeded);
                }
                *steps = *steps - 1;
                let (callee, callee_env) = enter(program, callee_id, args)?;
                let values = run_block(types, program, callee_env, &callee.body, &callee.returned, steps)?;
                Ok(one_value(pack_call_value_output(values)))
            },
            actual => {
                proof {
                    reveal_strlit("function");
                }
                Err(EvalError::RuntimeType { expected: "function", actual })
            },
        },
        Expr::Builtin { op, args } => {
            let values = consume_list(env, args)?;
            eval_builtin(types, *op, values)
        },
        Expr::Dup { value } => {
            let v = env_consume(env, *value)?;
            let copy = copy_value(&v);
            let out = vec![copy, v];
            proof {
                lemma_values_view(out@);
                assert(values_view(out@) =~= seq![v@, v@]);
            }
            Ok(out)
        },
        Expr::Zap { value } => {
            env_consume(env, *value)?;
            proof {
                lemma_values_view(Seq::<Value>::empty());
            }
            Ok(Vec::new())
        },
    }
}

// ---------------------------------------------------------------------------
// The evaluator
// ---------------------------------------------------------------------------

/// Runs functions of one checked program, with a step budget per run.
#[derive(Clone, Debug)]
pub struct Evaluator<'a> {
    types: &'a TypeStore,
    program: &'a CoreProgram,
    step_limit: usize,
}

impl<'a> Evaluator<'a> {
    pub closed spec fn spec_types(&self) -> &'a TypeStore {
        self.types
    }

    pub closed spec fn spec_program(&self) -> &'a CoreProgram {
        self.program
    }

    /// The budget of steps each run starts with.
    pub closed spec fn spec_step_limit(&self) -> usize {
        self.step_limit
    }

    /// An evaluator with the default budget of 100 000 steps.
    pub fn new(types: &'a TypeStore, program: &'a CoreProgram) -> (e: Self)
        ensures
            e.spec_types() == types,
            e.spec_program() == program,
            e.spec_step_limit() == 100_000,
    {
        Evaluator { types, program, step_limit: 100_000 }
    }

    pub fn with_step_limit(self, step_limit: usize) -> (e: Self)
        ensures
            e.spec_types() == self.spec_types(),
            e.spec_program() == self.spec_program(),
            e.spec_step_limit() == step_limit,
    {
        let mut e = self;
        e.step_limit = step_limit;
        e
    }

    /// Runs `function` on `args`: exactly what [`sp_run_function`] gives
    /// with the evaluator's step budget.
    pub fn run_function(&self, function: FunctionId, args: Vec<Value>) -> (r: Result<Vec<Value>, EvalError>)
        requires
            self.spec_types().wf(),
            self.spec_program().wf(),
        ensures
            values_result(r) == sp_run_function(
                self.spec_types(),
                self.spec_program(),
                function,
                values_view(args@),
                self.spec_step_limit() as nat,
            ).0,
    {
        let mut steps = self.step_limit;
        if steps == 0 {
            return Err(EvalError::StepLimitExceeded);
        }
        steps = steps - 1;
        let (callee, env) = enter(self.program, function, args)?;
        run_block(self.types, self.program, env, &callee.body, &callee.returned, &mut steps)
    }
}

/// The boolean answer `b`: variant 1 (true) or 0 (false) with a unit
/// payload.
pub open spec fn truth(b: bool) -> ValueView {
    if b {
        ValueView::Sum { variant: 1, payload: Box::new(ValueView::Unit) }
    } else {
        ValueView::Sum { variant: 0, payload: Box::new(ValueView::Unit) }
    }
}

/// The finite builtins compute modular arithmetic and comparisons on
/// operands of a finite type of `m > 0` values. Each two-operand builtin
/// hands both operands back unchanged, then its answer: `(l + r) mod m`,
/// `(l - r) mod m`, `(l * r) mod m`, or the truth of `l == r` and of
/// `l < r` (variant 1 for true, 0 for false). `FiniteNext` gives
/// `(v + 1) mod m` alone.
pub proof fn law_finite_builtins(types: Seq<TypeDef>, ty: TypeId, bool_ty: TypeId, m: u128, l: u128, r: u128)
    requires
        ty.0 < types.len(),
        types[ty.0 as int].kind == (TypeKind::Finite { values: m }),
        0 < m,
        l < m,
        r < m,
    ensures
        sp_builtin(types, BuiltinOp::FiniteEq { ty, bool_ty }, seq![ValueView::Finite(l), ValueView::Finite(r)])
            == Ok::<Seq<ValueView>, EvalErrorView>(seq![ValueView::Finite(l), ValueView::Finite(r), truth(l == r)]),
        sp_builtin(types, BuiltinOp::FiniteLt { ty, bool_ty }, seq![ValueView::Finite(l), ValueView::Finite(r)])
            == Ok::<Seq<ValueView>, EvalErrorView>(seq![ValueView::Finite(l), ValueView::Finite(r), truth(l < r)]),
        sp_builtin(types, BuiltinOp::FiniteAdd { ty }, seq![ValueView::Finite(l), ValueView::Finite(r)])
            == Ok::<Seq<ValueView>, EvalErrorView>(seq![
            ValueView::Finite(l),
            ValueView::Finite(r),
            ValueView::Finite(((l + r) % (m as int)) as u128),
        ]),
        sp_builtin(types, BuiltinOp::FiniteSub { ty }, seq![ValueView::Finite(l), ValueView::Finite(r)])
            == Ok::<Seq<ValueView>, EvalErrorView>(seq![
            ValueView::Finite(l),
            ValueView::Finite(r),
            ValueView::Finite(((l - r) % (m as int)) as u128),
        ]),
        sp_builtin(types, BuiltinOp::FiniteMul { ty }, seq![ValueView::Finite(l), ValueView::Finite(r)])
            == Ok::<Seq<ValueView>, EvalErrorView>(seq![
            ValueView::Finite(l),
            ValueView::Finite(r),
            ValueView::Finite(((l * r) % (m as int)) as u128),
        ]),
        sp_builtin(types, BuiltinOp::FiniteNext { ty }, seq![ValueView::Finite(l)])
            == Ok::<Seq<ValueView>, EvalErrorView>(seq![ValueView::Finite(((l + 1) % (m as int)) as u128)]),
{
    vstd::arithmetic::div_mod::lemma_small_mod(l as nat, m as nat);
    vstd::arithmetic::div_mod::lemma_small_mod(r as nat, m as nat);
    if m > 1 {
        vstd::arithmetic::div_mod::lemma_small_mod(1nat, m as nat);
    }
    let args = seq![ValueView::Finite(l), ValueView::Finite(r)];
    assert(sp_finite_pair(args) == Ok::<(u128, u128), EvalErrorView>((l, r)));
    assert(bool_view(l == r) == truth(l == r));
    assert(bool_view(l < r) == truth(l < r));
    assert(seq![ValueView::Finite(l)][0] == ValueView::Finite(l));
}

} // verus!
