//! The linearity and type checker for core functions.
//!
//! Checking is a single forward pass over an environment of slots, one per
//! defined value id, each remembering the value's type and whether it is
//! still live. Defining adds a live slot, consuming kills it, and at the end
//! of every block no slot may be live. Match arms are checked as fresh blocks
//! whose inputs are the payload plus every value live at the match, which the
//! match itself consumes.
//!
//! The judgement is stated by the spec functions below over the abstract
//! environment (`Seq<CheckSlot>`); the executable checker computes exactly
//! the result they describe, including which error is reported first.

use vstd::prelude::*;

use crate::id::{FunctionId, TypeId, ValueId};
use crate::ir::{
    check_function_value_type, finite_cardinality, function_parts, input_types, param_types, spec_finite_cardinality,
    spec_function_parts, spec_function_value_check, spec_type_kind, type_kind, BuiltinOp, CoreError,
    CoreProgram, Expr, Function, MatchArm, Param, Statement,
};
use crate::types::{Component, ComponentName, TypeDef, TypeKind, TypeStore};

verus! {

/// One tracked value during checking.
#[derive(Clone, Copy, Debug, PartialEq, Eq)]
pub struct CheckSlot {
    pub id: ValueId,
    pub ty: TypeId,
    pub live: bool,
}

// ---------------------------------------------------------------------------
// The abstract environment
// ---------------------------------------------------------------------------

pub open spec fn env_has(env: Seq<CheckSlot>, id: ValueId) -> bool {
    exists|i: int| 0 <= i < env.len() && env[i].id == id
}

pub open spec fn env_index(env: Seq<CheckSlot>, id: ValueId) -> int {
    choose|i: int| 0 <= i < env.len() && env[i].id == id
}

/// No id has two slots.
pub open spec fn env_distinct(env: Seq<CheckSlot>) -> bool {
    forall|i: int, j: int| 0 <= i < j < env.len() ==> (#[trigger] env[i]).id != (#[trigger] env[j]).id
}

/// Defining `id` at `ty`: the type must exist and the id must be fresh.
pub open spec fn spec_define(types: Seq<TypeDef>, env: Seq<CheckSlot>, id: ValueId, ty: TypeId) -> Result<Seq<CheckSlot>, CoreError> {
    if ty.0 >= types.len() {
        Err(CoreError::UnknownType(ty))
    } else if env_has(env, id) {
        Err(CoreError::DuplicateValue(id))
    } else {
        Ok(env.push(CheckSlot { id, ty, live: true }))
    }
}

/// Consuming `id`: it must be defined and still live; its slot dies.
pub open spec fn spec_consume(env: Seq<CheckSlot>, id: ValueId) -> Result<(Seq<CheckSlot>, TypeId), CoreError> {
    if !env_has(env, id) {
        Err(CoreError::UnknownValue(id))
    } else {
        let i = env_index(env, id);
        if !env[i].live {
            Err(CoreError::ConsumedValue(id))
        } else {
            Ok((env.update(i, CheckSlot { live: false, ..env[i] }), env[i].ty))
        }
    }
}

/// The type of live value `id`, without consuming it.
pub open spec fn spec_value_type(env: Seq<CheckSlot>, id: ValueId) -> Result<TypeId, CoreError> {
    if !env_has(env, id) {
        Err(CoreError::UnknownValue(id))
    } else if !env[env_index(env, id)].live {
        Err(CoreError::ConsumedValue(id))
    } else {
        Ok(env[env_index(env, id)].ty)
    }
}

/// Consume `ids[from..]` in order, each at the expected type `tys[k]`.
pub open spec fn spec_consume_typed(env: Seq<CheckSlot>, ids: Seq<ValueId>, tys: Seq<TypeId>, from: int) -> Result<Seq<CheckSlot>, CoreError>
    decreases ids.len() - from,
{
    if from < 0 || from >= ids.len() || from >= tys.len() {
        Ok(env)
    } else {
        match spec_consume(env, ids[from]) {
            Err(e) => Err(e),
            Ok((env1, actual)) => if actual != tys[from] {
                Err(CoreError::TypeMismatch { expected: tys[from], actual })
            } else {
                spec_consume_typed(env1, ids, tys, from + 1)
            },
        }
    }
}

/// Consume `ids[from..]` in order, collecting their types.
pub open spec fn spec_consume_all(env: Seq<CheckSlot>, ids: Seq<ValueId>, from: int) -> Result<(Seq<CheckSlot>, Seq<TypeId>), CoreError>
    decreases ids.len() - from,
{
    if from < 0 || from >= ids.len() {
        Ok((env, Seq::empty()))
    } else {
        match spec_consume(env, ids[from]) {
            Err(e) => Err(e),
            Ok((env1, ty)) => match spec_consume_all(env1, ids, from + 1) {
                Err(e) => Err(e),
                Ok((env2, tys)) => Ok((env2, seq![ty] + tys)),
            },
        }
    }
}

/// Define `ids[from..]` at `tys[from..]`, in order.
pub open spec fn spec_define_all(types: Seq<TypeDef>, env: Seq<CheckSlot>, ids: Seq<ValueId>, tys: Seq<TypeId>, from: int) -> Result<Seq<CheckSlot>, CoreError>
    decreases ids.len() - from,
{
    if from < 0 || from >= ids.len() || from >= tys.len() {
        Ok(env)
    } else {
        match spec_define(types, env, ids[from], tys[from]) {
            Err(e) => Err(e),
            Ok(env1) => spec_define_all(types, env1, ids, tys, from + 1),
        }
    }
}

pub open spec fn param_ids(inputs: Seq<Param>) -> Seq<ValueId> {
    inputs.map_values(|p: Param| p.id)
}

/// The first live slot at or after `from`, in definition order.
pub open spec fn first_live(env: Seq<CheckSlot>, from: int) -> Option<ValueId>
    decreases env.len() - from,
{
    if from < 0 || from >= env.len() {
        None
    } else if env[from].live {
        Some(env[from].id)
    } else {
        first_live(env, from + 1)
    }
}

/// The live slots as parameters, in definition order.
pub open spec fn live_params(env: Seq<CheckSlot>) -> Seq<Param>
    decreases env.len(),
{
    if env.len() == 0 {
        Seq::empty()
    } else {
        let rest = live_params(env.drop_last());
        if env.last().live {
            rest.push(Param { id: env.last().id, ty: env.last().ty })
        } else {
            rest
        }
    }
}

/// Every slot dead.
pub open spec fn kill_all(env: Seq<CheckSlot>) -> Seq<CheckSlot> {
    env.map_values(|s: CheckSlot| CheckSlot { live: false, ..s })
}

/// The first index where `actual` differs from `expected` (same lengths).
pub open spec fn first_mismatch(expected: Seq<TypeId>, actual: Seq<TypeId>, from: int) -> Option<int>
    decreases expected.len() - from,
{
    if from < 0 || from >= expected.len() || from >= actual.len() {
        None
    } else if expected[from] != actual[from] {
        Some(from)
    } else {
        first_mismatch(expected, actual, from + 1)
    }
}

/// The first variant index not covered by an arm.
pub open spec fn first_unseen(seen: Seq<bool>, from: int) -> Option<int>
    decreases seen.len() - from,
{
    if from < 0 || from >= seen.len() {
        None
    } else if !seen[from] {
        Some(from)
    } else {
        first_unseen(seen, from + 1)
    }
}

pub open spec fn component_types(cs: Seq<Component>) -> Seq<TypeId> {
    cs.map_values(|c: Component| c.ty)
}

/// Two components agree on name and type.
pub open spec fn component_same(a: Component, b: Component) -> bool {
    &&& a.ty == b.ty
    &&& match (a.name, b.name) {
        (ComponentName::Named(x), ComponentName::Named(y)) => x@ == y@,
        (ComponentName::Index(x), ComponentName::Index(y)) => x == y,
        _ => false,
    }
}

/// `residual` is `product` with component `field` removed, names and order
/// preserved.
pub open spec fn residual_matches(product: Seq<Component>, field: int, residual: Seq<Component>) -> bool {
    &&& residual.len() + 1 == product.len()
    &&& forall|i: int|
        0 <= i < residual.len() ==> component_same(
            product[if i < field { i } else { i + 1 }],
            #[trigger] residual[i],
        )
}

/// The type of field `field` of product `product`, given that `residual` is
/// its residual.
pub open spec fn spec_product_residual(types: Seq<TypeDef>, product: TypeId, field: usize, residual: TypeId) -> Result<TypeId, CoreError> {
    match spec_type_kind(types, product) {
        Err(e) => Err(e),
        Ok(TypeKind::Product(pf)) => if field >= pf@.len() {
            Err(CoreError::BadField { ty: product, field })
        } else {
            match spec_type_kind(types, residual) {
                Err(e) => Err(e),
                Ok(TypeKind::Product(rf)) => if residual_matches(pf@, field as int, rf@) {
                    Ok(pf@[field as int].ty)
                } else {
                    Err(CoreError::BadProductResidual { product, field, residual })
                },
                Ok(_) => Err(CoreError::NotProduct(residual)),
            }
        },
        Ok(_) => Err(CoreError::NotProduct(product)),
    }
}

/// `id` is a two-variant sum of units.
pub open spec fn spec_bool_check(types: Seq<TypeDef>, unit: TypeId, id: TypeId) -> Result<(), CoreError> {
    match spec_type_kind(types, id) {
        Err(e) => Err(e),
        Ok(TypeKind::Sum(vs)) => if vs@.len() == 2 && vs@[0].ty == unit && vs@[1].ty == unit {
            Ok(())
        } else {
            Err(CoreError::NotSum(id))
        },
        Ok(_) => Err(CoreError::NotSum(id)),
    }
}

/// Consume `args` at exactly the expected types.
pub open spec fn spec_consume_args(env: Seq<CheckSlot>, args: Seq<ValueId>, expected: Seq<TypeId>) -> Result<Seq<CheckSlot>, CoreError> {
    if args.len() != expected.len() {
        Err(CoreError::ResultArity { expected: expected.len() as usize, actual: args.len() as usize })
    } else {
        spec_consume_typed(env, args, expected, 0)
    }
}

/// The result shape of builtin `op` applied to `args`.
pub open spec fn spec_builtin(types: Seq<TypeDef>, unit: TypeId, env: Seq<CheckSlot>, op: BuiltinOp, args: Seq<ValueId>) -> Result<(Seq<CheckSlot>, Seq<TypeId>), CoreError> {
    match op {
        BuiltinOp::FiniteAdd { ty } | BuiltinOp::FiniteSub { ty } | BuiltinOp::FiniteMul { ty } => match spec_finite_cardinality(types, ty) {
            Err(e) => Err(e),
            Ok(_) => match spec_consume_args(env, args, seq![ty, ty]) {
                Err(e) => Err(e),
                Ok(env1) => Ok((env1, seq![ty, ty, ty])),
            },
        },
        BuiltinOp::FiniteEq { ty, bool_ty } | BuiltinOp::FiniteLt { ty, bool_ty } => match spec_finite_cardinality(types, ty) {
            Err(e) => Err(e),
            Ok(_) => match spec_bool_check(types, unit, bool_ty) {
                Err(e) => Err(e),
                Ok(()) => match spec_consume_args(env, args, seq![ty, ty]) {
                    Err(e) => Err(e),
                    Ok(env1) => Ok((env1, seq![ty, ty, bool_ty])),
                },
            },
        },
        BuiltinOp::FiniteNext { ty } => match spec_finite_cardinality(types, ty) {
            Err(e) => Err(e),
            Ok(_) => match spec_consume_args(env, args, seq![ty]) {
                Err(e) => Err(e),
                Ok(env1) => Ok((env1, seq![ty])),
            },
        },
    }
}

// ---------------------------------------------------------------------------
// The judgement
// ---------------------------------------------------------------------------

/// Checking a block: define the inputs, check the statements, consume the
/// returned ids; every other value must have been consumed. The result is
/// the types of the returned values.
pub open spec fn spec_check_block(
    types: &TypeStore,
    program: &CoreProgram,
    inputs: Seq<Param>,
    body: Seq<Statement>,
    returned: Seq<ValueId>,
) -> Result<Seq<TypeId>, CoreError>
    decreases body, body.len() + 1,
{
    match spec_define_all(types.spec_types(), Seq::empty(), param_ids(inputs), param_types(inputs), 0) {
        Err(e) => Err(e),
        Ok(env) => match spec_run_statements(types, program, env, body, 0) {
            Err(e) => Err(e),
            Ok(env1) => match spec_consume_all(env1, returned, 0) {
                Err(e) => Err(e),
                Ok((env2, tys)) => match first_live(env2, 0) {
                    Some(id) => Err(CoreError::LiveValueAtEnd(id)),
                    None => Ok(tys),
                },
            },
        },
    }
}

/// Checking the statements `body[from..]` in environment `env`.
pub open spec fn spec_run_statements(
    types: &TypeStore,
    program: &CoreProgram,
    env: Seq<CheckSlot>,
    body: Seq<Statement>,
    from: int,
) -> Result<Seq<CheckSlot>, CoreError>
    decreases body, body.len() - from,
{
    if from < 0 || from >= body.len() {
        Ok(env)
    } else {
        let statement = body[from];
        match spec_infer_expr(types, program, env, statement.expr) {
            Err(e) => Err(e),
            Ok((env1, tys)) => if statement.results@.len() != tys.len() {
                Err(CoreError::ResultArity { expected: tys.len() as usize, actual: statement.results@.len() as usize })
            } else {
                match spec_define_all(types.spec_types(), env1, statement.results@, tys, 0) {
                    Err(e) => Err(e),
                    Ok(env2) => spec_run_statements(types, program, env2, body, from + 1),
                }
            },
        }
    }
}

/// Checking the arms `arms[from..]` of a match on a value of sum type `ty`
/// with components `variants`, each arm receiving the `captured` values;
/// `seen` marks covered variants and `result` the arms' agreed result types.
pub open spec fn spec_check_arms(
    types: &TypeStore,
    program: &CoreProgram,
    ty: TypeId,
    variants: Seq<Component>,
    captured: Seq<Param>,
    arms: Seq<MatchArm>,
    from: int,
    seen: Seq<bool>,
    result: Option<Seq<TypeId>>,
) -> Result<(Seq<bool>, Option<Seq<TypeId>>), CoreError>
    decreases arms, arms.len() - from,
{
    if from < 0 || from >= arms.len() {
        Ok((seen, result))
    } else {
        let arm = arms[from];
        if arm.variant >= variants.len() {
            Err(CoreError::BadVariant { ty, variant: arm.variant })
        } else if seen[arm.variant as int] {
            Err(CoreError::DuplicateMatchArm { ty, variant: arm.variant })
        } else {
            let seen1 = seen.update(arm.variant as int, true);
            let inputs = seq![Param { id: arm.payload, ty: variants[arm.variant as int].ty }] + captured;
            match spec_check_block(types, program, inputs, arm.body@, arm.returned@) {
                Err(e) => Err(e),
                Ok(tys) => match result {
                    None => spec_check_arms(types, program, ty, variants, captured, arms, from + 1, seen1, Some(tys)),
                    Some(expected) => if tys.len() != expected.len() {
                        Err(CoreError::ResultArity { expected: expected.len() as usize, actual: tys.len() as usize })
                    } else {
                        match first_mismatch(expected, tys, 0) {
                            Some(i) => Err(CoreError::TypeMismatch { expected: expected[i], actual: tys[i] }),
                            None => spec_check_arms(types, program, ty, variants, captured, arms, from + 1, seen1, result),
                        }
                    },
                },
            }
        }
    }
}

/// The result types of `expr` in environment `env`, and the environment
/// after it consumed its operands.
pub open spec fn spec_infer_expr(
    types: &TypeStore,
    program: &CoreProgram,
    env: Seq<CheckSlot>,
    expr: Expr,
) -> Result<(Seq<CheckSlot>, Seq<TypeId>), CoreError>
    decreases expr, 0int,
{
    let tys = types.spec_types();
    match expr {
        Expr::Unit => Ok((env, seq![types.spec_unit()])),
        Expr::FiniteLiteral { ty, value } => match spec_finite_cardinality(tys, ty) {
            Err(e) => Err(e),
            Ok(values) => if value >= values {
                Err(CoreError::FiniteLiteralOutOfRange { ty, value, values })
            } else {
                Ok((env, seq![ty]))
            },
        },
        Expr::FunctionRef { ty, function } => match spec_function_value_check(tys, types.spec_unit(), program.spec_functions(), function, ty) {
            Err(e) => Err(e),
            Ok(()) => Ok((env, seq![ty])),
        },
        Expr::Product { ty, fields } => match spec_type_kind(tys, ty) {
            Err(e) => Err(e),
            Ok(TypeKind::Product(expected)) => if fields@.len() != expected@.len() {
                Err(CoreError::ResultArity { expected: expected@.len() as usize, actual: fields@.len() as usize })
            } else {
                match spec_consume_typed(env, fields@, component_types(expected@), 0) {
                    Err(e) => Err(e),
                    Ok(env1) => Ok((env1, seq![ty])),
                }
            },
            Ok(_) => Err(CoreError::NotProduct(ty)),
        },
        Expr::SplitProduct { value } => match spec_consume(env, value) {
            Err(e) => Err(e),
            Ok((env1, ty)) => match spec_type_kind(tys, ty) {
                Err(e) => Err(e),
                Ok(TypeKind::Product(fields)) => Ok((env1, component_types(fields@))),
                Ok(_) => Err(CoreError::NotProduct(ty)),
            },
        },
        Expr::ProjectProduct { value, field, residual_ty } => match spec_consume(env, value) {
            Err(e) => Err(e),
            Ok((env1, product_ty)) => match spec_product_residual(tys, product_ty, field, residual_ty) {
                Err(e) => Err(e),
                Ok(field_ty) => Ok((env1, seq![field_ty, residual_ty])),
            },
        },
        Expr::InsertProductField { ty, field, field_value, residual } => match spec_value_type(env, residual) {
            Err(e) => Err(e),
            Ok(residual_ty) => match spec_product_residual(tys, ty, field, residual_ty) {
                Err(e) => Err(e),
                Ok(expected) => match spec_consume(env, field_value) {
                    Err(e) => Err(e),
                    Ok((env1, actual)) => if actual != expected {
                        Err(CoreError::TypeMismatch { expected, actual })
                    } else {
                        match spec_consume(env1, residual) {
                            Err(e) => Err(e),
                            Ok((env2, _)) => Ok((env2, seq![ty])),
                        }
                    },
                },
            },
        },
        Expr::SumInject { ty, variant, payload } => match spec_type_kind(tys, ty) {
            Err(e) => Err(e),
            Ok(TypeKind::Sum(variants)) => if variant >= variants@.len() {
                Err(CoreError::BadVariant { ty, variant })
            } else {
                let expected = variants@[variant as int].ty;
                match spec_consume(env, payload) {
                    Err(e) => Err(e),
                    Ok((env1, actual)) => if actual != expected {
                        Err(CoreError::TypeMismatch { expected, actual })
                    } else {
                        Ok((env1, seq![ty]))
                    },
                }
            },
            Ok(_) => Err(CoreError::NotSum(ty)),
        },
        Expr::Match { scrutinee, arms } => match spec_consume(env, scrutinee) {
            Err(e) => Err(e),
            Ok((env1, ty)) => match spec_type_kind(tys, ty) {
                Err(e) => Err(e),
                Ok(TypeKind::Sum(variants)) => {
                    let captured = live_params(env1);
                    let seen = Seq::new(variants@.len(), |i: int| false);
                    match spec_check_arms(types, program, ty, variants@, captured, arms@, 0, seen, None) {
                        Err(e) => Err(e),
                        Ok((seen1, result)) => match first_unseen(seen1, 0) {
                            Some(v) => Err(CoreError::MissingMatchArm { ty, variant: v as usize }),
                            None => Ok((kill_all(env1), match result {
                                Some(r) => r,
                                None => Seq::empty(),
                            })),
                        },
                    }
                },
                Ok(_) => Err(CoreError::NotSum(ty)),
            },
        },
        Expr::Global { global } => if global.0 >= program.spec_global_decls().len() {
            Err(CoreError::UnknownGlobal(global))
        } else {
            let decl_ty = program.spec_global_decls()[global.0 as int].ty;
            if decl_ty.0 >= tys.len() {
                Err(CoreError::UnknownType(decl_ty))
            } else {
                Ok((env, seq![decl_ty]))
            }
        },
        Expr::Call { function, args } => if function.0 >= program.spec_functions().len() {
            Err(CoreError::UnknownFunction(function))
        } else {
            let callee = program.spec_functions()[function.0 as int];
            if args@.len() != callee.inputs@.len() {
                Err(CoreError::ResultArity { expected: callee.inputs@.len() as usize, actual: args@.len() as usize })
            } else {
                match spec_consume_typed(env, args@, param_types(callee.inputs@), 0) {
                    Err(e) => Err(e),
                    Ok(env1) => Ok((env1, callee.outputs@)),
                }
            }
        },
        Expr::CallValue { function, arg } => match spec_consume(env, function) {
            Err(e) => Err(e),
            Ok((env1, fty)) => match spec_function_parts(tys, fty) {
                Err(e) => Err(e),
                Ok((input, output)) => match spec_consume(env1, arg) {
                    Err(e) => Err(e),
                    Ok((env2, actual)) => if actual != input {
                        Err(CoreError::TypeMismatch { expected: input, actual })
                    } else {
                        Ok((env2, seq![output]))
                    },
                },
            },
        },
        Expr::Builtin { op, args } => spec_builtin(tys, types.spec_unit(), env, op, args@),
        Expr::Dup { value } => match spec_consume(env, value) {
            Err(e) => Err(e),
            Ok((env1, ty)) => if ty.0 >= tys.len() {
                Err(CoreError::Type(crate::types::TypeError::UnknownType(ty)))
            } else if !types.spec_caps_of(ty).dup {
                Err(CoreError::CannotDup(ty))
            } else {
                Ok((env1, seq![ty, ty]))
            },
        },
        Expr::Zap { value } => match spec_consume(env, value) {
            Err(e) => Err(e),
            Ok((env1, ty)) => if ty.0 >= tys.len() {
                Err(CoreError::Type(crate::types::TypeError::UnknownType(ty)))
            } else if !types.spec_caps_of(ty).zap {
                Err(CoreError::CannotZap(ty))
            } else {
                Ok((env1, seq![]))
            },
        },
    }
}

/// Checking a whole function: its output types exist, its body checks, and
/// it returns values of exactly its output types.
pub open spec fn spec_check_function(types: &TypeStore, program: &CoreProgram, function: Function) -> Result<(), CoreError> {
    match first_unknown_type(types.spec_types(), function.outputs@, 0) {
        Some(ty) => Err(CoreError::UnknownType(ty)),
        None => match spec_check_block(types, program, function.inputs@, function.body@, function.returned@) {
            Err(e) => Err(e),
            Ok(returned) => if returned.len() != function.outputs@.len() {
                Err(CoreError::ReturnArity { expected: function.outputs@.len() as usize, actual: returned.len() as usize })
            } else {
                match first_mismatch(function.outputs@, returned, 0) {
                    Some(i) => Err(CoreError::TypeMismatch { expected: function.outputs@[i], actual: returned[i] }),
                    None => Ok(()),
                }
            },
        },
    }
}

/// The first of `tys[from..]` that the store does not have.
pub open spec fn first_unknown_type(types: Seq<TypeDef>, tys: Seq<TypeId>, from: int) -> Option<TypeId>
    decreases tys.len() - from,
{
    if from < 0 || from >= tys.len() {
        None
    } else if tys[from].0 >= types.len() {
        Some(tys[from])
    } else {
        first_unknown_type(types, tys, from + 1)
    }
}


// ---------------------------------------------------------------------------
// The executable checker: environment operations
// ---------------------------------------------------------------------------

/// The result types of a check, viewed.
pub open spec fn tys_of(r: Result<Vec<TypeId>, CoreError>) -> Result<Seq<TypeId>, CoreError> {
    match r {
        Ok(v) => Ok(v@),
        Err(e) => Err(e),
    }
}

/// The slot of `id`, if it has one.
fn find_slot(env: &Vec<CheckSlot>, id: ValueId) -> (r: Option<usize>)
    requires
        env_distinct(env@),
    ensures
        match r {
            Some(i) => env_has(env@, id) && env_index(env@, id) == i as int && (i as int) < env@.len(),
            None => !env_has(env@, id),
        },
{
    let mut i: usize = 0;
    while i < env.len()
        invariant
            0 <= i <= env@.len(),
            env_distinct(env@),
            forall|k: int| 0 <= k < i ==> (#[trigger] env@[k]).id != id,
        decreases env@.len() - i,
    {
        if env[i].id == id {
            proof {
                assert(env@[i as int].id == id);
                assert(env_has(env@, id));
                let j = env_index(env@, id);
                if j < i {
                    assert(env@[j].id != env@[i as int].id);
                } else if j > i {
                    assert(env@[i as int].id != env@[j].id);
                }
            }
            return Some(i);
        }
        i += 1;
    }
    None
}

fn define(types: &TypeStore, env: &mut Vec<CheckSlot>, id: ValueId, ty: TypeId) -> (r: Result<(), CoreError>)
    requires
        env_distinct(old(env)@),
    ensures
        env_distinct(final(env)@),
        match spec_define(types.spec_types(), old(env)@, id, ty) {
            Ok(e) => r is Ok && final(env)@ == e,
            Err(err) => r == Err::<(), CoreError>(err),
        },
{
    if types.get(ty).is_none() {
        return Err(CoreError::UnknownType(ty));
    }
    if find_slot(env, id).is_some() {
        return Err(CoreError::DuplicateValue(id));
    }
    let ghost before = env@;
    env.push(CheckSlot { id, ty, live: true });
    proof {
        assert forall|i: int, j: int| 0 <= i < j < env@.len() implies (#[trigger] env@[i]).id != (
        #[trigger] env@[j]).id by {
            if j == before.len() {
                assert(env@[i] == before[i]);
            } else {
                assert(env@[i] == before[i] && env@[j] == before[j]);
            }
        }
    }
    Ok(())
}

fn consume(env: &mut Vec<CheckSlot>, id: ValueId) -> (r: Result<TypeId, CoreError>)
    requires
        env_distinct(old(env)@),
    ensures
        env_distinct(final(env)@),
        match spec_consume(old(env)@, id) {
            Ok((e, t)) => r == Ok::<TypeId, CoreError>(t) && final(env)@ == e,
            Err(err) => r == Err::<TypeId, CoreError>(err),
        },
{
    match find_slot(env, id) {
        None => Err(CoreError::UnknownValue(id)),
        Some(i) => {
            let slot = env[i];
            if !slot.live {
                return Err(CoreError::ConsumedValue(id));
            }
            let ghost before = env@;
            env.set(i, CheckSlot { id: slot.id, ty: slot.ty, live: false });
            proof {
                assert forall|a: int, b: int| 0 <= a < b < env@.len() implies (#[trigger] env@[a]).id != (
                #[trigger] env@[b]).id by {
                    assert(env@[a].id == before[a].id && env@[b].id == before[b].id);
                }
                assert(env@ == before.update(i as int, CheckSlot { live: false, ..before[i as int] }));
            }
            Ok(slot.ty)
        },
    }
}

fn value_type(env: &Vec<CheckSlot>, id: ValueId) -> (r: Result<TypeId, CoreError>)
    requires
        env_distinct(env@),
    ensures
        r == spec_value_type(env@, id),
{
    match find_slot(env, id) {
        None => Err(CoreError::UnknownValue(id)),
        Some(i) => if !env[i].live {
            Err(CoreError::ConsumedValue(id))
        } else {
            Ok(env[i].ty)
        },
    }
}

/// Consumes `ids` in order, each at the expected type.
fn consume_typed(env: &mut Vec<CheckSlot>, ids: &Vec<ValueId>, tys: &Vec<TypeId>) -> (r: Result<(), CoreError>)
    requires
        env_distinct(old(env)@),
    ensures
        env_distinct(final(env)@),
        match spec_consume_typed(old(env)@, ids@, tys@, 0) {
            Ok(e) => r is Ok && final(env)@ == e,
            Err(err) => r == Err::<(), CoreError>(err),
        },
{
    let mut i: usize = 0;
    while i < ids.len() && i < tys.len()
        invariant
            0 <= i <= ids@.len(),
            env_distinct(env@),
            spec_consume_typed(old(env)@, ids@, tys@, 0) == spec_consume_typed(env@, ids@, tys@, i as int),
        decreases ids@.len() - i,
    {
        let actual = consume(env, ids[i])?;
        if actual != tys[i] {
            return Err(CoreError::TypeMismatch { expected: tys[i], actual });
        }
        i += 1;
    }
    Ok(())
}

/// Consumes `ids` in order, collecting their types.
fn consume_all(env: &mut Vec<CheckSlot>, ids: &Vec<ValueId>) -> (r: Result<Vec<TypeId>, CoreError>)
    requires
        env_distinct(old(env)@),
    ensures
        env_distinct(final(env)@),
        match spec_consume_all(old(env)@, ids@, 0) {
            Ok((e, t)) => tys_of(r) == Ok::<Seq<TypeId>, CoreError>(t) && final(env)@ == e,
            Err(err) => tys_of(r) == Err::<Seq<TypeId>, CoreError>(err),
        },
{
    let mut acc: Vec<TypeId> = Vec::new();
    let mut i: usize = 0;
    while i < ids.len()
        invariant
            0 <= i <= ids@.len(),
            env_distinct(env@),
            spec_consume_all(old(env)@, ids@, 0) == match spec_consume_all(env@, ids@, i as int) {
                Ok((e, t)) => Ok((e, acc@ + t)),
                Err(x) => Err(x),
            },
        decreases ids@.len() - i,
    {
        let ghost before = env@;
        let ghost acc0 = acc@;
        let ty = consume(env, ids[i])?;
        acc.push(ty);
        proof {
            match spec_consume_all(env@, ids@, i + 1) {
                Ok((e, t)) => {
                    assert(acc0 + (seq![ty] + t) =~= acc@ + t);
                },
                Err(x) => {},
            }
        }
        i += 1;
    }
    proof {
        assert(acc@ + Seq::<TypeId>::empty() =~= acc@);
    }
    Ok(acc)
}

/// Defines `ids` at `tys`, in order.
fn define_all(types: &TypeStore, env: &mut Vec<CheckSlot>, ids: &Vec<ValueId>, tys: &Vec<TypeId>) -> (r: Result<(), CoreError>)
    requires
        env_distinct(old(env)@),
    ensures
        env_distinct(final(env)@),
        match spec_define_all(types.spec_types(), old(env)@, ids@, tys@, 0) {
            Ok(e) => r is Ok && final(env)@ == e,
            Err(err) => r == Err::<(), CoreError>(err),
        },
{
    let mut i: usize = 0;
    while i < ids.len() && i < tys.len()
        invariant
            0 <= i <= ids@.len(),
            env_distinct(env@),
            spec_define_all(types.spec_types(), old(env)@, ids@, tys@, 0) == spec_define_all(
                types.spec_types(),
                env@,
                ids@,
                tys@,
                i as int,
            ),
        decreases ids@.len() - i,
    {
        define(types, env, ids[i], tys[i])?;
        i += 1;
    }
    Ok(())
}

/// The first live slot, in definition order.
fn find_live(env: &Vec<CheckSlot>) -> (r: Option<ValueId>)
    ensures
        r == first_live(env@, 0),
{
    let mut i: usize = 0;
    while i < env.len()
        invariant
            0 <= i <= env@.len(),
            first_live(env@, 0) == first_live(env@, i as int),
        decreases env@.len() - i,
    {
        if env[i].live {
            return Some(env[i].id);
        }
        i += 1;
    }
    None
}

/// The live slots as parameters, in definition order.
fn live_values(env: &Vec<CheckSlot>) -> (r: Vec<Param>)
    ensures
        r@ == live_params(env@),
{
    let mut r: Vec<Param> = Vec::new();
    let mut i: usize = 0;
    while i < env.len()
        invariant
            0 <= i <= env@.len(),
            r@ == live_params(env@.subrange(0, i as int)),
        decreases env@.len() - i,
    {
        proof {
            assert(env@.subrange(0, i + 1).drop_last() =~= env@.subrange(0, i as int));
        }
        if env[i].live {
            r.push(Param { id: env[i].id, ty: env[i].ty });
        }
        i += 1;
    }
    assert(env@.subrange(0, env@.len() as int) =~= env@);
    r
}

/// Marks every slot consumed.
fn kill_live(env: &mut Vec<CheckSlot>)
    requires
        env_distinct(old(env)@),
    ensures
        final(env)@ == kill_all(old(env)@),
        env_distinct(final(env)@),
{
    let mut i: usize = 0;
    while i < env.len()
        invariant
            0 <= i <= env@.len() == old(env)@.len(),
            forall|k: int| 0 <= k < i ==> #[trigger] env@[k] == (CheckSlot { live: false, ..old(env)@[k] }),
            forall|k: int| i <= k < env@.len() ==> #[trigger] env@[k] == old(env)@[k],
        decreases env@.len() - i,
    {
        let slot = env[i];
        env.set(i, CheckSlot { id: slot.id, ty: slot.ty, live: false });
        i += 1;
    }
    assert(env@ =~= kill_all(old(env)@));
}

/// The first position where two equally long type lists differ.
fn find_mismatch(expected: &Vec<TypeId>, actual: &Vec<TypeId>) -> (r: Option<usize>)
    ensures
        match first_mismatch(expected@, actual@, 0) {
            Some(i) => r == Some(i as usize) && 0 <= i < expected@.len() && i < actual@.len(),
            None => r is None,
        },
{
    let mut i: usize = 0;
    proof {
        lemma_first_mismatch_range(expected@, actual@, 0);
    }
    while i < expected.len() && i < actual.len()
        invariant
            0 <= i <= expected@.len(),
            first_mismatch(expected@, actual@, 0) == first_mismatch(expected@, actual@, i as int),
            forall|k: int| first_mismatch(expected@, actual@, i as int) == Some(k) ==> i <= k < expected@.len() && k < actual@.len(),
        decreases expected@.len() - i,
    {
        if expected[i] != actual[i] {
            return Some(i);
        }
        proof {
            assert forall|k: int| first_mismatch(expected@, actual@, i + 1) == Some(k) implies i + 1 <= k
                < expected@.len() && k < actual@.len() by {
                lemma_first_mismatch_range(expected@, actual@, i + 1);
            }
        }
        i += 1;
    }
    None
}

proof fn lemma_first_mismatch_range(expected: Seq<TypeId>, actual: Seq<TypeId>, from: int)
    ensures
        forall|k: int| first_mismatch(expected, actual, from) == Some(k) ==> from <= k < expected.len() && k < actual.len(),
    decreases expected.len() - from,
{
    if 0 <= from < expected.len() && from < actual.len() && expected[from] == actual[from] {
        lemma_first_mismatch_range(expected, actual, from + 1);
    }
}

/// The first variant not marked seen.
fn find_unseen(seen: &Vec<bool>) -> (r: Option<usize>)
    ensures
        match first_unseen(seen@, 0) {
            Some(i) => r == Some(i as usize),
            None => r is None,
        },
{
    let mut i: usize = 0;
    while i < seen.len()
        invariant
            0 <= i <= seen@.len(),
            first_unseen(seen@, 0) == first_unseen(seen@, i as int),
        decreases seen@.len() - i,
    {
        if !seen[i] {
            return Some(i);
        }
        i += 1;
    }
    None
}

fn component_type_list(cs: &Vec<Component>) -> (r: Vec<TypeId>)
    ensures
        r@ == component_types(cs@),
{
    let mut r: Vec<TypeId> = Vec::new();
    let mut i: usize = 0;
    while i < cs.len()
        invariant
            0 <= i <= cs@.len(),
            r@ == component_types(cs@.subrange(0, i as int)),
        decreases cs@.len() - i,
    {
        r.push(cs[i].ty);
        proof {
            assert(component_types(cs@.subrange(0, i + 1)) =~= component_types(cs@.subrange(0, i as int)).push(
                cs@[i as int].ty,
            ));
        }
        i += 1;
    }
    assert(cs@.subrange(0, cs@.len() as int) =~= cs@);
    r
}

fn same_component(a: &Component, b: &Component) -> (r: bool)
    ensures
        r == component_same(*a, *b),
{
    if a.ty != b.ty {
        return false;
    }
    match (&a.name, &b.name) {
        (ComponentName::Named(x), ComponentName::Named(y)) => *x == *y,
        (ComponentName::Index(x), ComponentName::Index(y)) => *x == *y,
        _ => false,
    }
}

/// The type of field `field` of `product`, given that `residual` is the
/// product of its other fields.
#[verifier::loop_isolation(false)]
fn check_product_residual(types: &TypeStore, product: TypeId, field: usize, residual: TypeId) -> (r: Result<TypeId, CoreError>)
    ensures
        r == spec_product_residual(types.spec_types(), product, field, residual),
{
    let product_fields = match type_kind(types, product)? {
        TypeKind::Product(fields) => fields,
        _ => return Err(CoreError::NotProduct(product)),
    };
    if field >= product_fields.len() {
        return Err(CoreError::BadField { ty: product, field });
    }
    let residual_fields = match type_kind(types, residual)? {
        TypeKind::Product(fields) => fields,
        _ => return Err(CoreError::NotProduct(residual)),
    };
    if residual_fields.len() != product_fields.len() - 1 {
        return Err(CoreError::BadProductResidual { product, field, residual });
    }
    let mut i: usize = 0;
    while i < residual_fields.len()
        invariant
            0 <= i <= residual_fields@.len(),
            residual_fields@.len() + 1 == product_fields@.len(),
            field < product_fields@.len(),
            forall|k: int|
                0 <= k < i ==> component_same(
                    product_fields@[if k < field { k } else { k + 1 }],
                    #[trigger] residual_fields@[k],
                ),
        decreases residual_fields@.len() - i,
    {
        let source = if i < field { i } else { i + 1 };
        if !same_component(&product_fields[source], &residual_fields[i]) {
            proof {
                let k = i as int;
                assert(!component_same(product_fields@[if k < field { k } else { k + 1 }], residual_fields@[k]));
                assert(!residual_matches(product_fields@, field as int, residual_fields@));
            }
            return Err(CoreError::BadProductResidual { product, field, residual });
        }
        i += 1;
    }
    Ok(product_fields[field].ty)
}

/// `id` is a two-variant sum of units.
fn check_bool_type(types: &TypeStore, id: TypeId) -> (r: Result<(), CoreError>)
    ensures
        r == spec_bool_check(types.spec_types(), types.spec_unit(), id),
{
    match type_kind(types, id)? {
        TypeKind::Sum(variants) => {
            if variants.len() == 2 && variants[0].ty == types.unit() && variants[1].ty == types.unit() {
                Ok(())
            } else {
                Err(CoreError::NotSum(id))
            }
        },
        _ => Err(CoreError::NotSum(id)),
    }
}

/// Consumes `args` at exactly the expected types.
fn consume_args(env: &mut Vec<CheckSlot>, args: &Vec<ValueId>, expected: &Vec<TypeId>) -> (r: Result<(), CoreError>)
    requires
        env_distinct(old(env)@),
    ensures
        env_distinct(final(env)@),
        match spec_consume_args(old(env)@, args@, expected@) {
            Ok(e) => r is Ok && final(env)@ == e,
            Err(err) => r == Err::<(), CoreError>(err),
        },
{
    if args.len() != expected.len() {
        return Err(CoreError::ResultArity { expected: expected.len(), actual: args.len() });
    }
    consume_typed(env, args, expected)
}

fn infer_builtin(types: &TypeStore, env: &mut Vec<CheckSlot>, op: BuiltinOp, args: &Vec<ValueId>) -> (r: Result<Vec<TypeId>, CoreError>)
    requires
        env_distinct(old(env)@),
    ensures
        env_distinct(final(env)@),
        match spec_builtin(types.spec_types(), types.spec_unit(), old(env)@, op, args@) {
            Ok((e, t)) => tys_of(r) == Ok::<Seq<TypeId>, CoreError>(t) && final(env)@ == e,
            Err(err) => tys_of(r) == Err::<Seq<TypeId>, CoreError>(err),
        },
{
    match op {
        BuiltinOp::FiniteAdd { ty } | BuiltinOp::FiniteSub { ty } | BuiltinOp::FiniteMul { ty } => {
            finite_cardinality(types, ty)?;
            let expected = vec![ty, ty];
            assert(expected@ =~= seq![ty, ty]);
            consume_args(env, args, &expected)?;
            let result = vec![ty, ty, ty];
            assert(result@ =~= seq![ty, ty, ty]);
            Ok(result)
        },
        BuiltinOp::FiniteEq { ty, bool_ty } | BuiltinOp::FiniteLt { ty, bool_ty } => {
            finite_cardinality(types, ty)?;
            check_bool_type(types, bool_ty)?;
            let expected = vec![ty, ty];
            assert(expected@ =~= seq![ty, ty]);
            consume_args(env, args, &expected)?;
            let result = vec![ty, ty, bool_ty];
            assert(result@ =~= seq![ty, ty, bool_ty]);
            Ok(result)
        },
        BuiltinOp::FiniteNext { ty } => {
            finite_cardinality(types, ty)?;
            let expected = vec![ty];
            assert(expected@ =~= seq![ty]);
            consume_args(env, args, &expected)?;
            let result = vec![ty];
            assert(result@ =~= seq![ty]);
            Ok(result)
        },
    }
}

fn copy_type_list(v: &Vec<TypeId>) -> (r: Vec<TypeId>)
    ensures
        r@ == v@,
{
    let mut r: Vec<TypeId> = Vec::new();
    let mut i: usize = 0;
    while i < v.len()
        invariant
            0 <= i <= v@.len(),
            r@ == v@.subrange(0, i as int),
        decreases v@.len() - i,
    {
        r.push(v[i]);
        proof {
            assert(v@.subrange(0, i + 1) =~= v@.subrange(0, i as int).push(v@[i as int]));
        }
        i += 1;
    }
    assert(v@.subrange(0, v@.len() as int) =~= v@);
    r
}

/// The inputs of a match arm: its payload, then every captured value.
fn arm_inputs(payload: Param, captured: &Vec<Param>) -> (r: Vec<Param>)
    ensures
        r@ == seq![payload] + captured@,
{
    let mut r: Vec<Param> = Vec::new();
    r.push(payload);
    let mut i: usize = 0;
    while i < captured.len()
        invariant
            0 <= i <= captured@.len(),
            r@ == seq![payload] + captured@.subrange(0, i as int),
        decreases captured@.len() - i,
    {
        r.push(captured[i]);
        proof {
            assert(seq![payload] + captured@.subrange(0, i + 1) =~= (seq![payload] + captured@.subrange(
                0,
                i as int,
            )).push(captured@[i as int]));
        }
        i += 1;
    }
    assert(captured@.subrange(0, captured@.len() as int) =~= captured@);
    r
}

fn single(ty: TypeId) -> (r: Vec<TypeId>)
    ensures
        r@ == seq![ty],
{
    let r = vec![ty];
    assert(r@ =~= seq![ty]);
    r
}

fn pair(a: TypeId, b: TypeId) -> (r: Vec<TypeId>)
    ensures
        r@ == seq![a, b],
{
    let r = vec![a, b];
    assert(r@ =~= seq![a, b]);
    r
}

pub open spec fn opt_tys(o: Option<Vec<TypeId>>) -> Option<Seq<TypeId>> {
    match o {
        Some(v) => Some(v@),
        None => None,
    }
}

// ---------------------------------------------------------------------------
// The executable checker: blocks and expressions
// ---------------------------------------------------------------------------

/// Checks a block from an empty environment: defines `inputs`, checks
/// `body`, consumes `returned`, and insists nothing else is left live.
#[verifier::loop_isolation(false)]
pub fn check_block(
    types: &TypeStore,
    program: &CoreProgram,
    inputs: &Vec<Param>,
    body: &Vec<Statement>,
    returned: &Vec<ValueId>,
) -> (r: Result<Vec<TypeId>, CoreError>)
    requires
        types.wf(),
    ensures
        tys_of(r) == spec_check_block(types, program, inputs@, body@, returned@),
    decreases body@,
{
    let mut env: Vec<CheckSlot> = Vec::new();
    let mut i: usize = 0;
    while i < inputs.len()
        invariant
            0 <= i <= inputs@.len(),
            env_distinct(env@),
            spec_define_all(types.spec_types(), Seq::empty(), param_ids(inputs@), param_types(inputs@), 0)
                == spec_define_all(types.spec_types(), env@, param_ids(inputs@), param_types(inputs@), i as int),
        decreases inputs@.len() - i,
    {
        define(types, &mut env, inputs[i].id, inputs[i].ty)?;
        i += 1;
    }
    let ghost entry = env@;
    let mut k: usize = 0;
    while k < body.len()
        invariant
            0 <= k <= body@.len(),
            env_distinct(env@),
            spec_run_statements(types, program, entry, body@, 0) == spec_run_statements(
                types,
                program,
                env@,
                body@,
                k as int,
            ),
        decreases body@.len() - k,
    {
        let statement = &body[k];
        let tys = infer_expr(types, program, &mut env, &statement.expr)?;
        if statement.results.len() != tys.len() {
            return Err(CoreError::ResultArity { expected: tys.len(), actual: statement.results.len() });
        }
        define_all(types, &mut env, &statement.results, &tys)?;
        k += 1;
    }
    let returned_tys = consume_all(&mut env, returned)?;
    match find_live(&env) {
        Some(id) => Err(CoreError::LiveValueAtEnd(id)),
        None => Ok(returned_tys),
    }
}

/// The result types of `expr`, consuming its operands from `env`.
#[verifier::rlimit(40)]
fn infer_expr(types: &TypeStore, program: &CoreProgram, env: &mut Vec<CheckSlot>, expr: &Expr) -> (r: Result<Vec<TypeId>, CoreError>)
    requires
        types.wf(),
        env_distinct(old(env)@),
    ensures
        env_distinct(final(env)@),
        match spec_infer_expr(types, program, old(env)@, *expr) {
            Ok((e, t)) => tys_of(r) == Ok::<Seq<TypeId>, CoreError>(t) && final(env)@ == e,
            Err(err) => tys_of(r) == Err::<Seq<TypeId>, CoreError>(err),
        },
        match *expr {
            Expr::Dup { value } => match spec_consume(old(env)@, value) {
                Ok((e1, _)) => final(env)@ == e1,
                Err(_) => true,
            },
            Expr::Zap { value } => match spec_consume(old(env)@, value) {
                Ok((e1, _)) => final(env)@ == e1,
                Err(_) => true,
            },
            _ => true,
        },
    decreases expr,
{
    match expr {
        Expr::Unit => Ok(single(types.unit())),
        Expr::FiniteLiteral { ty, value } => {
            let values = finite_cardinality(types, *ty)?;
            if *value >= values {
                return Err(CoreError::FiniteLiteralOutOfRange { ty: *ty, value: *value, values });
            }
            Ok(single(*ty))
        },
        Expr::FunctionRef { ty, function } => {
            check_function_value_type(types, program, *function, *ty)?;
            Ok(single(*ty))
        },
        Expr::Product { ty, fields } => {
            let expected = match type_kind(types, *ty)? {
                TypeKind::Product(expected) => expected,
                _ => return Err(CoreError::NotProduct(*ty)),
            };
            if fields.len() != expected.len() {
                return Err(CoreError::ResultArity { expected: expected.len(), actual: fields.len() });
            }
            let tys = component_type_list(expected);
            consume_typed(env, fields, &tys)?;
            Ok(single(*ty))
        },
        Expr::SplitProduct { value } => {
            let ty = consume(env, *value)?;
            match type_kind(types, ty)? {
                TypeKind::Product(fields) => Ok(component_type_list(fields)),
                _ => Err(CoreError::NotProduct(ty)),
            }
        },
        Expr::ProjectProduct { value, field, residual_ty } => {
            let product_ty = consume(env, *value)?;
            let field_ty = check_product_residual(types, product_ty, *field, *residual_ty)?;
            Ok(pair(field_ty, *residual_ty))
        },
        Expr::InsertProductField { ty, field, field_value, residual } => {
            let residual_ty = value_type(env, *residual)?;
            let expected = check_product_residual(types, *ty, *field, residual_ty)?;
            let actual = consume(env, *field_value)?;
            if actual != expected {
                return Err(CoreError::TypeMismatch { expected, actual });
            }
            consume(env, *residual)?;
            Ok(single(*ty))
        },
        Expr::SumInject { ty, variant, payload } => {
            let expected = match type_kind(types, *ty)? {
                TypeKind::Sum(variants) => {
                    if *variant >= variants.len() {
                        return Err(CoreError::BadVariant { ty: *ty, variant: *variant });
                    }
                    variants[*variant].ty
                },
                _ => return Err(CoreError::NotSum(*ty)),
            };
            let actual = consume(env, *payload)?;
            if actual != expected {
                return Err(CoreError::TypeMismatch { expected, actual });
            }
            Ok(single(*ty))
        },
        Expr::Match { scrutinee, arms } => infer_match(types, program, env, *scrutinee, arms),
        Expr::Global { global } => {
            let decl = match program.get_global_decl(*global) {
                Some(decl) => decl,
                None => return Err(CoreError::UnknownGlobal(*global)),
            };
            if types.get(decl.ty).is_none() {
                return Err(CoreError::UnknownType(decl.ty));
            }
            Ok(single(decl.ty))
        },
        Expr::Call { function, args } => {
            let callee = match program.get(*function) {
                Some(callee) => callee,
                None => return Err(CoreError::UnknownFunction(*function)),
            };
            if args.len() != callee.inputs.len() {
                return Err(CoreError::ResultArity { expected: callee.inputs.len(), actual: args.len() });
            }
            let expected = input_types(&callee.inputs);
            consume_typed(env, args, &expected)?;
            Ok(copy_type_list(&callee.outputs))
        },
        Expr::CallValue { function, arg } => {
            let function_ty = consume(env, *function)?;
            let (input, output) = function_parts(types, function_ty)?;
            let actual = consume(env, *arg)?;
            if actual != input {
                return Err(CoreError::TypeMismatch { expected: input, actual });
            }
            Ok(single(output))
        },
        Expr::Builtin { op, args } => infer_builtin(types, env, *op, args),
        Expr::Dup { value } => {
            let ty = consume(env, *value)?;
            match types.can_dup(ty) {
                Err(e) => Err(CoreError::Type(e)),
                Ok(false) => Err(CoreError::CannotDup(ty)),
                Ok(true) => Ok(pair(ty, ty)),
            }
        },
        Expr::Zap { value } => {
            let ty = consume(env, *value)?;
            match types.can_zap(ty) {
                Err(e) => Err(CoreError::Type(e)),
                Ok(false) => Err(CoreError::CannotZap(ty)),
                Ok(true) => Ok(Vec::new()),
            }
        },
    }
}

/// Checks a match: the scrutinee is consumed, every value still live is
/// captured into each arm, and the arms must cover each variant once and
/// agree on their result types.
#[verifier::loop_isolation(false)]
fn infer_match(
    types: &TypeStore,
    program: &CoreProgram,
    env: &mut Vec<CheckSlot>,
    scrutinee: ValueId,
    arms: &Vec<MatchArm>,
) -> (r: Result<Vec<TypeId>, CoreError>)
    requires
        types.wf(),
        env_distinct(old(env)@),
    ensures
        env_distinct(final(env)@),
        match spec_infer_expr(types, program, old(env)@, Expr::Match { scrutinee, arms: *arms }) {
            Ok((e, t)) => tys_of(r) == Ok::<Seq<TypeId>, CoreError>(t) && final(env)@ == e,
            Err(err) => tys_of(r) == Err::<Seq<TypeId>, CoreError>(err),
        },
    decreases arms@,
{
    let ty = consume(env, scrutinee)?;
    let variants = match type_kind(types, ty)? {
        TypeKind::Sum(variants) => variants,
        _ => return Err(CoreError::NotSum(ty)),
    };
    let captured = live_values(env);
    kill_live(env);
    let mut seen: Vec<bool> = Vec::new();
    let mut j: usize = 0;
    while j < variants.len()
        invariant
            0 <= j <= variants@.len(),
            seen@ == Seq::new(j as nat, |x: int| false),
        decreases variants@.len() - j,
    {
        seen.push(false);
        proof {
            assert(seen@ =~= Seq::new((j + 1) as nat, |x: int| false));
        }
        j += 1;
    }
    let ghost seen0 = seen@;
    let mut result: Option<Vec<TypeId>> = None;
    let mut i: usize = 0;
    while i < arms.len()
        invariant
            0 <= i <= arms@.len(),
            seen@.len() == variants@.len(),
            env_distinct(env@),
            spec_check_arms(types, program, ty, variants@, captured@, arms@, 0, seen0, None)
                == spec_check_arms(types, program, ty, variants@, captured@, arms@, i as int, seen@, opt_tys(result)),
        decreases arms@.len() - i,
    {
        let arm = &arms[i];
        if arm.variant >= variants.len() {
            return Err(CoreError::BadVariant { ty, variant: arm.variant });
        }
        if seen[arm.variant] {
            return Err(CoreError::DuplicateMatchArm { ty, variant: arm.variant });
        }
        seen.set(arm.variant, true);
        let inputs = arm_inputs(Param { id: arm.payload, ty: variants[arm.variant].ty }, &captured);
        let tys = check_block(types, program, &inputs, &arm.body, &arm.returned)?;
        let next = match result {
            None => tys,
            Some(expected) => {
                if tys.len() != expected.len() {
                    return Err(CoreError::ResultArity { expected: expected.len(), actual: tys.len() });
                }
                match find_mismatch(&expected, &tys) {
                    Some(k) => {
                        return Err(CoreError::TypeMismatch { expected: expected[k], actual: tys[k] });
                    },
                    None => {},
                }
                expected
            },
        };
        result = Some(next);
        i += 1;
    }
    match find_unseen(&seen) {
        Some(v) => Err(CoreError::MissingMatchArm { ty, variant: v }),
        None => match result {
            Some(r) => Ok(r),
            None => Ok(Vec::new()),
        },
    }
}

/// Checks one function: its output types exist, its body checks from its
/// inputs, and it returns exactly values of its output types.
pub fn check_function(types: &TypeStore, program: &CoreProgram, function: &Function) -> (r: Result<(), CoreError>)
    requires
        types.wf(),
    ensures
        r == spec_check_function(types, program, *function),
{
    let mut i: usize = 0;
    while i < function.outputs.len()
        invariant
            0 <= i <= function.outputs@.len(),
            first_unknown_type(types.spec_types(), function.outputs@, 0) == first_unknown_type(
                types.spec_types(),
                function.outputs@,
                i as int,
            ),
        decreases function.outputs@.len() - i,
    {
        if types.get(function.outputs[i]).is_none() {
            return Err(CoreError::UnknownType(function.outputs[i]));
        }
        i += 1;
    }
    let returned = check_block(types, program, &function.inputs, &function.body, &function.returned)?;
    if returned.len() != function.outputs.len() {
        return Err(CoreError::ReturnArity { expected: function.outputs.len(), actual: returned.len() });
    }
    match find_mismatch(&function.outputs, &returned) {
        Some(k) => Err(CoreError::TypeMismatch { expected: function.outputs[k], actual: returned[k] }),
        None => Ok(()),
    }
}

/// A function of one input that hands the input straight back, with an
/// empty body, checks whenever the input's type exists.
pub proof fn lemma_hand_back_checks(types: &TypeStore, program: &CoreProgram, f: Function, ty: TypeId)
    requires
        ty.0 < types.spec_types().len(),
        f.inputs@ == seq![Param { id: ValueId(0), ty }],
        f.outputs@ == seq![ty],
        f.body@.len() == 0,
        f.returned@ == seq![ValueId(0)],
    ensures
        spec_check_function(types, program, f) is Ok,
{
    let ts = types.spec_types();
    let ids = param_ids(f.inputs@);
    let tys = param_types(f.inputs@);
    assert(ids =~= seq![ValueId(0)]);
    assert(tys =~= seq![ty]);
    let empty = Seq::<CheckSlot>::empty();
    let slot = CheckSlot { id: ValueId(0), ty, live: true };
    let env = seq![slot];
    assert(!env_has(empty, ValueId(0)));
    assert(empty.push(slot) =~= env);
    assert(spec_define(ts, empty, ValueId(0), ty) == Ok::<Seq<CheckSlot>, CoreError>(env));
    assert(spec_define_all(ts, env, ids, tys, 1) == Ok::<Seq<CheckSlot>, CoreError>(env));
    assert(spec_define_all(ts, empty, ids, tys, 0) == Ok::<Seq<CheckSlot>, CoreError>(env));
    assert(spec_run_statements(types, program, env, f.body@, 0) == Ok::<Seq<CheckSlot>, CoreError>(env));
    assert(env_has(env, ValueId(0))) by {
        assert(env[0].id == ValueId(0));
    }
    let i = env_index(env, ValueId(0));
    assert(i == 0);
    let dead = env.update(0, CheckSlot { live: false, ..env[0] });
    assert(spec_consume(env, ValueId(0)) == Ok::<(Seq<CheckSlot>, TypeId), CoreError>((dead, ty)));
    let ret = f.returned@;
    assert(spec_consume_all(dead, ret, 1) == Ok::<(Seq<CheckSlot>, Seq<TypeId>), CoreError>((dead, Seq::empty())));
    assert(seq![ty] + Seq::<TypeId>::empty() =~= seq![ty]);
    assert(spec_consume_all(env, ret, 0) == Ok::<(Seq<CheckSlot>, Seq<TypeId>), CoreError>((dead, seq![ty])));
    assert(first_live(dead, 1) is None);
    assert(first_live(dead, 0) is None);
    assert(spec_check_block(types, program, f.inputs@, f.body@, f.returned@) == Ok::<Seq<TypeId>, CoreError>(
        seq![ty],
    ));
    assert(first_unknown_type(ts, f.outputs@, 1) is None);
    assert(first_unknown_type(ts, f.outputs@, 0) is None);
    assert(first_mismatch(f.outputs@, seq![ty], 1) is None);
    assert(first_mismatch(f.outputs@, seq![ty], 0) is None);
}

/// A function of one input that hands the input back twice, with an empty
/// body, is refused: the second hand-back finds the input consumed.
pub proof fn lemma_hand_back_twice_refused(types: &TypeStore, program: &CoreProgram, f: Function, ty: TypeId)
    requires
        ty.0 < types.spec_types().len(),
        f.inputs@ == seq![Param { id: ValueId(0), ty }],
        f.outputs@ == seq![ty, ty],
        f.body@.len() == 0,
        f.returned@ == seq![ValueId(0), ValueId(0)],
    ensures
        spec_check_function(types, program, f) == Err::<(), CoreError>(CoreError::ConsumedValue(ValueId(0))),
{
    let ts = types.spec_types();
    let ids = param_ids(f.inputs@);
    let tys = param_types(f.inputs@);
    assert(ids =~= seq![ValueId(0)]);
    assert(tys =~= seq![ty]);
    let empty = Seq::<CheckSlot>::empty();
    let slot = CheckSlot { id: ValueId(0), ty, live: true };
    let env = seq![slot];
    assert(!env_has(empty, ValueId(0)));
    assert(empty.push(slot) =~= env);
    assert(spec_define(ts, empty, ValueId(0), ty) == Ok::<Seq<CheckSlot>, CoreError>(env));
    assert(spec_define_all(ts, env, ids, tys, 1) == Ok::<Seq<CheckSlot>, CoreError>(env));
    assert(spec_define_all(ts, empty, ids, tys, 0) == Ok::<Seq<CheckSlot>, CoreError>(env));
    assert(spec_run_statements(types, program, env, f.body@, 0) == Ok::<Seq<CheckSlot>, CoreError>(env));
    assert(env_has(env, ValueId(0))) by {
        assert(env[0].id == ValueId(0));
    }
    assert(env_index(env, ValueId(0)) == 0);
    let dead = env.update(0, CheckSlot { live: false, ..env[0] });
    assert(spec_consume(env, ValueId(0)) == Ok::<(Seq<CheckSlot>, TypeId), CoreError>((dead, ty)));
    assert(env_has(dead, ValueId(0))) by {
        assert(dead[0].id == ValueId(0));
    }
    assert(env_index(dead, ValueId(0)) == 0);
    assert(spec_consume(dead, ValueId(0)) == Err::<(Seq<CheckSlot>, TypeId), CoreError>(
        CoreError::ConsumedValue(ValueId(0)),
    ));
    let ret = f.returned@;
    assert(spec_consume_all(dead, ret, 1) == Err::<(Seq<CheckSlot>, Seq<TypeId>), CoreError>(
        CoreError::ConsumedValue(ValueId(0)),
    ));
    assert(spec_consume_all(env, ret, 0) == Err::<(Seq<CheckSlot>, Seq<TypeId>), CoreError>(
        CoreError::ConsumedValue(ValueId(0)),
    ));
    assert(first_unknown_type(ts, f.outputs@, 2) is None);
    assert(first_unknown_type(ts, f.outputs@, 1) is None);
    assert(first_unknown_type(ts, f.outputs@, 0) is None);
}

/// An injection is accepted only at the variant's payload type: when the
/// checker accepts `SumInject { ty, variant, payload }`, `ty` is a sum,
/// `variant` one of its variants, and `payload` a live value of exactly
/// that variant's payload type; the result is one value of type `ty`. A
/// live payload of another type is refused with `TypeMismatch`, naming the
/// payload type the variant expects and the one it got.
pub proof fn law_injection_payload_typed(
    types: &TypeStore,
    program: &CoreProgram,
    env: Seq<CheckSlot>,
    ty: TypeId,
    variant: usize,
    payload: ValueId,
)
    ensures
        spec_infer_expr(types, program, env, Expr::SumInject { ty, variant, payload }) matches Ok((_, out)) ==> {
            &&& ty.0 < types.spec_types().len()
            &&& types.spec_types()[ty.0 as int].kind matches TypeKind::Sum(vs)
            &&& variant < vs@.len()
            &&& spec_value_type(env, payload) == Ok::<TypeId, CoreError>(vs@[variant as int].ty)
            &&& out == seq![ty]
        },
        ({
            &&& ty.0 < types.spec_types().len()
            &&& types.spec_types()[ty.0 as int].kind matches TypeKind::Sum(vs)
            &&& variant < vs@.len()
            &&& spec_value_type(env, payload) matches Ok(actual)
            &&& actual != vs@[variant as int].ty
        }) ==> ({
            let vs = types.spec_types()[ty.0 as int].kind->Sum_0;
            spec_infer_expr(types, program, env, Expr::SumInject { ty, variant, payload }) == Err::<
                (Seq<CheckSlot>, Seq<TypeId>),
                CoreError,
            >(CoreError::TypeMismatch { expected: vs@[variant as int].ty, actual: env[env_index(env, payload)].ty })
        }),
{
}

/// A finite literal is accepted only below its type's cardinality, and
/// then yields one value of that type.
pub proof fn law_literal_in_range(types: &TypeStore, program: &CoreProgram, env: Seq<CheckSlot>, ty: TypeId, value: u128)
    ensures
        spec_infer_expr(types, program, env, Expr::FiniteLiteral { ty, value }) matches Ok((env1, out)) ==> {
            &&& ty.0 < types.spec_types().len()
            &&& types.spec_types()[ty.0 as int].kind matches TypeKind::Finite { values }
            &&& value < values
            &&& env1 == env
            &&& out == seq![ty]
        },
{
}

proof fn lemma_env_index_unique(env: Seq<CheckSlot>, id: ValueId, j: int)
    requires
        env_distinct(env),
        0 <= j < env.len(),
        env[j].id == id,
    ensures
        env_has(env, id),
        env_index(env, id) == j,
{
    assert(env_has(env, id));
    let i = env_index(env, id);
    if i != j {
        if i < j {
            assert(env[i].id != env[j].id);
        } else {
            assert(env[j].id != env[i].id);
        }
    }
}

/// Consuming values checked at expected types checks each against the
/// type it has, live, in the environment it started from.
proof fn lemma_consume_typed_types(env: Seq<CheckSlot>, ids: Seq<ValueId>, tys: Seq<TypeId>, from: int)
    requires
        env_distinct(env),
        0 <= from,
        spec_consume_typed(env, ids, tys, from) is Ok,
    ensures
        forall|k: int|
            from <= k < ids.len() && k < tys.len() ==> spec_value_type(env, #[trigger] ids[k]) == Ok::<TypeId, CoreError>(tys[k]),
    decreases ids.len() - from,
{
    if from < ids.len() && from < tys.len() {
        let i = env_index(env, ids[from]);
        let env1 = env.update(i, CheckSlot { live: false, ..env[i] });
        assert(env_distinct(env1)) by {
            assert forall|a: int, b: int| 0 <= a < b < env1.len() implies (#[trigger] env1[a]).id != (#[trigger] env1[b]).id by {
                assert(env1[a].id == env[a].id && env1[b].id == env[b].id);
            }
        }
        lemma_consume_typed_types(env1, ids, tys, from + 1);
        assert forall|k: int| from <= k < ids.len() && k < tys.len() implies spec_value_type(env, #[trigger] ids[k]) == Ok::<
            TypeId,
            CoreError,
        >(tys[k]) by {
            if k > from {
                assert(spec_value_type(env1, ids[k]) == Ok::<TypeId, CoreError>(tys[k]));
                let j = env_index(env1, ids[k]);
                assert(0 <= j < env1.len() && env1[j].id == ids[k]);
                assert(env1[j].live);
                assert(j != i);
                assert(env[j] == env1[j]);
                lemma_env_index_unique(env, ids[k], j);
            }
        }
    }
}

/// A product is built only from live values of exactly its components'
/// types, one per component in order: when the checker accepts
/// `Product { ty, fields }` over an environment with one slot per value,
/// `ty` is a product of as many components as there are fields, and field
/// `k` is live at component `k`'s type. The result is one value of `ty`.
pub proof fn law_product_fields_typed(
    types: &TypeStore,
    program: &CoreProgram,
    env: Seq<CheckSlot>,
    ty: TypeId,
    fields: Vec<ValueId>,
)
    requires
        env_distinct(env),
    ensures
        spec_infer_expr(types, program, env, Expr::Product { ty, fields }) matches Ok((_, out)) ==> {
            &&& ty.0 < types.spec_types().len()
            &&& types.spec_types()[ty.0 as int].kind matches TypeKind::Product(cs)
            &&& fields@.len() == cs@.len()
            &&& forall|k: int|
                0 <= k < fields@.len() ==> spec_value_type(env, #[trigger] fields@[k]) == Ok::<TypeId, CoreError>(
                    cs@[k].ty,
                )
            &&& out == seq![ty]
        },
{
    if spec_infer_expr(types, program, env, Expr::Product { ty, fields }) is Ok {
        let cs = types.spec_types()[ty.0 as int].kind->Product_0;
        lemma_consume_typed_types(env, fields@, component_types(cs@), 0);
        assert forall|k: int| 0 <= k < fields@.len() implies spec_value_type(env, #[trigger] fields@[k]) == Ok::<
            TypeId,
            CoreError,
        >(cs@[k].ty) by {
            assert(component_types(cs@)[k] == cs@[k].ty);
        }
    }
}

/// A field is put back into a product only at that field's type: when the
/// checker accepts `InsertProductField { ty, field, field_value, residual }`,
/// `ty` is a product, `field` one of its fields, and `field_value` is live
/// at exactly that field's type. The result is one value of `ty`.
pub proof fn law_insert_field_typed(
    types: &TypeStore,
    program: &CoreProgram,
    env: Seq<CheckSlot>,
    ty: TypeId,
    field: usize,
    field_value: ValueId,
    residual: ValueId,
)
    ensures
        spec_infer_expr(types, program, env, Expr::InsertProductField { ty, field, field_value, residual }) matches Ok(
            (_, out),
        ) ==> {
            &&& ty.0 < types.spec_types().len()
            &&& types.spec_types()[ty.0 as int].kind matches TypeKind::Product(cs)
            &&& field < cs@.len()
            &&& spec_value_type(env, field_value) == Ok::<TypeId, CoreError>(cs@[field as int].ty)
            &&& out == seq![ty]
        },
{
}

} // verus!
