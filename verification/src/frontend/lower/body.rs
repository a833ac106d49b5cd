//! Lowering of function bodies into core statements.
//!
//! A body is lowered against the environment of its parameters. Every
//! parameter that is not taken is handed back, before the visible result;
//! every other live local is zapped at the end of its block, which fails for
//! a linear one. Infix operators and calls thread the names they are given:
//! the returned versions are bound back to the same names.

use vstd::prelude::*;

use super::{LowerError, LoweredParam, comp_key};
use crate::frontend::ast::{Arg, BinaryOp, Block, Expr, Field, LetStmt, MatchArm, Pattern, TypeExpr, ValueFlow};
use crate::id::{FunctionId, TypeId, ValueId};
use crate::ir::{BuiltinOp, CoreError, CoreProgram, Expr as CoreExpr, MatchArm as CoreMatchArm, Statement};
use crate::types::{Component, ComponentName, TypeError, TypeKind, TypeStore};

verus! {

/// What a caller needs of a function: its parameters and the output it
/// shows (none for `unit`).
pub(crate) struct CallableSignature {
    pub(crate) id: FunctionId,
    pub(crate) params: Vec<LoweredParam>,
    pub(crate) visible_output: Option<TypeId>,
}

/// What a body is lowered against, and never changes while it is.
pub(crate) struct LowerContext<'a> {
    pub(crate) types: &'a TypeStore,
    pub(crate) program: &'a CoreProgram,
    pub(crate) call_signatures: &'a Vec<CallableSignature>,
    pub(crate) params: &'a Vec<LoweredParam>,
}

impl<'a> LowerContext<'a> {
    pub(crate) open spec fn wf(&self) -> bool {
        self.types.wf()
    }
}

#[derive(Clone, Copy)]
struct LoweredValue {
    id: ValueId,
    ty: TypeId,
}

struct LoweredBinaryOperand {
    name: Option<String>,
    value: LoweredValue,
}

struct ThreadedName {
    name: String,
    ty: TypeId,
}

enum ReturnedCallArg {
    Rebind(String),
    Zap,
}

/// The state of lowering one body: the live names and their current
/// values, the order names were bound in, the statements so far, and the
/// next fresh value id.
struct BodyLowerer {
    env: Vec<(String, LoweredValue)>,
    name_order: Vec<String>,
    body: Vec<Statement>,
    next_value: u32,
}

/// The variants of the sum type `ty`, if it is one.
pub(crate) open spec fn sum_parts(types: TypeStore, ty: TypeId) -> Option<Seq<Component>> {
    if types.valid(ty) {
        match types.spec_types()[ty.0 as int].kind {
            TypeKind::Sum(vs) => Some(vs@),
            _ => None,
        }
    } else {
        None
    }
}

/// Variant `variant` of the `Bool` sum is the one named `word`.
pub(crate) open spec fn bool_variant_named(types: TypeStore, variant: usize, word: Seq<char>) -> bool {
    match types.spec_lookup("Bool"@) {
        Some(b) => match sum_parts(types, b) {
            Some(vs) => variant < vs.len() && comp_key(vs[variant as int]).0 == Some(word),
            None => false,
        },
        None => false,
    }
}

/// `after` keeps every statement of `before` in place.
pub(crate) open spec fn extends(before: Seq<Statement>, after: Seq<Statement>) -> bool {
    &&& before.len() <= after.len()
    &&& forall|i: int| 0 <= i < before.len() ==> after[i] == before[i]
}

/// `s` is the builtin that the infix operator of `expr` lowers to, with the
/// operands handed back first and the value of type `result_ty` last.
pub(crate) open spec fn binary_lowered(expr: Expr, s: Statement, result: ValueId, result_ty: TypeId) -> bool {
    match expr {
        Expr::Binary { op, .. } => {
            &&& s.results@.len() == 3
            &&& s.results@[2] == result
            &&& s.expr matches CoreExpr::Builtin { op: core, args } && args@.len() == 2 && match op {
                BinaryOp::Add => core == BuiltinOp::FiniteAdd { ty: result_ty },
                BinaryOp::Sub => core == BuiltinOp::FiniteSub { ty: result_ty },
                BinaryOp::Mul => core == BuiltinOp::FiniteMul { ty: result_ty },
                BinaryOp::Eq => core matches BuiltinOp::FiniteEq { bool_ty, .. } && bool_ty == result_ty,
                BinaryOp::Lt => core matches BuiltinOp::FiniteLt { bool_ty, .. } && bool_ty == result_ty,
                BinaryOp::Gt => core matches BuiltinOp::FiniteLt { bool_ty, .. } && bool_ty == result_ty,
                _ => false,
            }
        },
        _ => false,
    }
}

/// The infix operators that have a lowering.
pub(crate) open spec fn binary_supported(op: BinaryOp) -> bool {
    op is Add || op is Sub || op is Mul || op is Eq || op is Lt || op is Gt
}

/// The value bound to `name` in `env` from position `i` on: the first
/// binding of that name.
spec fn env_value_from(env: Seq<(String, LoweredValue)>, name: Seq<char>, i: int) -> Option<LoweredValue>
    decreases env.len() - i,
{
    if i < 0 || i >= env.len() {
        None
    } else if env[i].0@ == name {
        Some(env[i].1)
    } else {
        env_value_from(env, name, i + 1)
    }
}

/// The value bound to `name` in `env`.
spec fn env_value(env: Seq<(String, LoweredValue)>, name: Seq<char>) -> Option<LoweredValue> {
    env_value_from(env, name, 0)
}

/// `ty` is a finite type of `types`.
pub(crate) open spec fn finite_type(types: TypeStore, ty: TypeId) -> bool {
    types.valid(ty) && types.spec_types()[ty.0 as int].kind is Finite
}

/// The error for a type that must be finite and is not: unknown, or of
/// another kind.
pub(crate) open spec fn not_finite_error(types: TypeStore, ty: TypeId) -> LowerError {
    if types.valid(ty) {
        LowerError::Core(CoreError::NotFinite(ty))
    } else {
        LowerError::Type(TypeError::UnknownType(ty))
    }
}

/// For an infix operator applied to two names that `env` binds: the
/// operator, the two names and their current values.
spec fn bound_name_operands(expr: Expr, env: Seq<(String, LoweredValue)>) -> Option<
    (BinaryOp, Seq<char>, LoweredValue, Seq<char>, LoweredValue),
> {
    match expr {
        Expr::Binary { lhs, op, rhs } => match (*lhs, *rhs) {
            (Expr::Name(a), Expr::Name(b)) => match (env_value(env, a@), env_value(env, b@)) {
                (Some(va), Some(vb)) => Some((op, a@, va, b@, vb)),
                _ => None,
            },
            _ => None,
        },
        _ => None,
    }
}

/// `s` is the finite literal `value`.
pub(crate) open spec fn is_literal(s: Statement, value: u128) -> bool {
    s.expr matches CoreExpr::FiniteLiteral { value: v, .. } && v == value
}

/// Some statement of `body` is the finite literal `value`.
pub(crate) open spec fn has_literal(body: Seq<Statement>, value: u128) -> bool {
    exists|j: int| 0 <= j < body.len() && is_literal(#[trigger] body[j], value)
}

/// The literal a block is, when it binds nothing and its result is an
/// integer literal.
pub(crate) open spec fn literal_block(b: Block) -> Option<u128> {
    if b.lets@.len() == 0 {
        match b.result {
            Some(e) => match *e {
                Expr::Int(n) => Some(n),
                _ => None,
            },
            None => None,
        }
    } else {
        None
    }
}

/// Arm `i` of the match `s` holds the finite literal `value`.
pub(crate) open spec fn arm_has_literal(s: Statement, i: int, value: u128) -> bool {
    s.expr matches CoreExpr::Match { arms, .. } && 0 <= i < arms@.len() && has_literal(arms@[i].body@, value)
}

proof fn lemma_literal_kept(before: Seq<Statement>, after: Seq<Statement>, value: u128)
    requires
        extends(before, after),
        has_literal(before, value),
    ensures
        has_literal(after, value),
{
    let j = choose|j: int| 0 <= j < before.len() && is_literal(#[trigger] before[j], value);
    assert(after[j] == before[j]);
}

/// For an infix operator applied to a name that `env` binds and an integer
/// literal: the operator, the name's current value and the literal.
spec fn name_literal_operands(expr: Expr, env: Seq<(String, LoweredValue)>) -> Option<(BinaryOp, LoweredValue, u128)> {
    match expr {
        Expr::Binary { lhs, op, rhs } => match (*lhs, *rhs) {
            (Expr::Name(a), Expr::Int(n)) => match env_value(env, a@) {
                Some(va) => Some((op, va, n)),
                None => None,
            },
            _ => None,
        },
        _ => None,
    }
}

/// `s` binds the single value `id` to the finite literal `value`.
pub(crate) open spec fn literal_statement(s: Statement, id: ValueId, value: u128) -> bool {
    s.results@ == seq![id] && is_literal(s, value)
}

/// The id of `Bool` in `types` when it is the sum of exactly `false` and
/// then `true`, both of payload `()`.
pub(crate) open spec fn unit_bool(types: TypeStore) -> Option<TypeId> {
    match types.spec_lookup("Bool"@) {
        Some(b) => match sum_parts(types, b) {
            Some(vs) => if vs.len() == 2 && comp_key(vs[0]) == (Some("false"@), 0int, types.spec_unit()) && comp_key(
                vs[1],
            ) == (Some("true"@), 0int, types.spec_unit()) {
                Some(b)
            } else {
                None
            },
            None => None,
        },
        None => None,
    }
}

/// An `if` on the only live name, a `Bool`, whose branches are integer
/// literals of the expected finite type.
spec fn literal_if_on_sole_name(
    expr: Expr,
    env: Seq<(String, LoweredValue)>,
    name_order: Seq<String>,
    types: TypeStore,
    expected: Option<TypeId>,
) -> bool {
    match expr {
        Expr::If { condition, then_branch, else_branch } => {
            &&& *condition matches Expr::Name(c)
            &&& env.len() == 1
            &&& env[0].0@ == c@
            &&& name_order.len() == 1
            &&& name_order[0]@ == c@
            &&& unit_bool(types) == Some(env[0].1.ty)
            &&& literal_block(then_branch) is Some
            &&& literal_block(else_branch) is Some
            &&& expected matches Some(ty)
            &&& finite_type(types, ty)
        },
        _ => false,
    }
}

/// Every name of `names` is `excluded`.
spec fn only_excluded(names: Seq<String>, excluded: Option<String>) -> bool {
    forall|j: int| 0 <= j < names.len() ==> (excluded matches Some(x) && (#[trigger] names[j])@ == x@)
}

/// Every live name, a name of `name_order` that `env` binds, is bound to a
/// value with id `id`.
spec fn live_ids_are(env: Seq<(String, LoweredValue)>, name_order: Seq<String>, id: ValueId) -> bool {
    forall|i: int|
        0 <= i < name_order.len() ==> (env_value(env, (#[trigger] name_order[i])@) matches Some(w) ==> w.id == id)
}

/// The value a block hands back when it binds nothing and its result is a
/// name bound to a value of the expected type, which every live name still
/// holds.
spec fn echo_block_value(
    block: Block,
    env: Seq<(String, LoweredValue)>,
    name_order: Seq<String>,
    expected: Option<TypeId>,
) -> Option<LoweredValue> {
    if block.lets@.len() == 0 {
        match block.result {
            Some(e) => match *e {
                Expr::Name(n) => match env_value(env, n@) {
                    Some(w) => if expected == Some(w.ty) && live_ids_are(env, name_order, w.id) {
                        Some(w)
                    } else {
                        None
                    },
                    None => None,
                },
                _ => None,
            },
            None => None,
        }
    } else {
        None
    }
}

/// A body that only hands back its sole parameter: the parameter is taken
/// and of the expected type, and the block binds nothing and has the
/// parameter's name as its result.
pub(crate) open spec fn echo_body(params: Seq<LoweredParam>, body: Block, expected: Option<TypeId>) -> bool {
    &&& params.len() == 1
    &&& params[0].flow == ValueFlow::NotReturned
    &&& expected == Some(params[0].ty)
    &&& body.lets@.len() == 0
    &&& body.result matches Some(e)
    &&& *e matches Expr::Name(n)
    &&& n@ == params[0].name@
}

/// A body whose sole parameter, handed back, is also its visible result:
/// the parameter is not taken and of the expected type, and the block binds
/// nothing and has the parameter's name as its result.
pub(crate) open spec fn copy_body(params: Seq<LoweredParam>, body: Block, expected: Option<TypeId>) -> bool {
    &&& params.len() == 1
    &&& params[0].flow != ValueFlow::NotReturned
    &&& expected == Some(params[0].ty)
    &&& body.lets@.len() == 0
    &&& body.result matches Some(e)
    &&& *e matches Expr::Name(n)
    &&& n@ == params[0].name@
}

/// The name a block uses twice as the operands of its result, when it binds
/// nothing and its result is an infix operator on that name, bound to a
/// value of a finite type.
spec fn dup_block(block: Block, env: Seq<(String, LoweredValue)>, types: TypeStore) -> Option<Seq<char>> {
    if block.lets@.len() == 0 {
        match block.result {
            Some(e) => match bound_name_operands(*e, env) {
                Some((op, a, va, b, vb)) => if a == b && finite_type(types, va.ty) {
                    Some(a)
                } else {
                    None
                },
                None => None,
            },
            None => None,
        }
    } else {
        None
    }
}

/// The name of the sole parameter, of a finite type, when the body binds
/// nothing and its result is an infix operator with that name on both
/// sides.
pub(crate) open spec fn dup_body(params: Seq<LoweredParam>, body: Block, types: TypeStore) -> Option<Seq<char>> {
    if params.len() == 1 && body.lets@.len() == 0 && finite_type(types, params[0].ty) {
        match body.result {
            Some(e) => match *e {
                Expr::Binary { lhs, rhs, .. } => match (*lhs, *rhs) {
                    (Expr::Name(x), Expr::Name(y)) => if x@ == params[0].name@ && y@ == params[0].name@ {
                        Some(x@)
                    } else {
                        None
                    },
                    _ => None,
                },
                _ => None,
            },
            None => None,
        }
    } else {
        None
    }
}

/// The position of the first binding of `name` in `env` from `i` on.
spec fn first_binding(env: Seq<(String, LoweredValue)>, name: Seq<char>, i: int) -> Option<int>
    decreases env.len() - i,
{
    if i < 0 || i >= env.len() {
        None
    } else if env[i].0@ == name {
        Some(i)
    } else {
        first_binding(env, name, i + 1)
    }
}

/// `env` without the first binding of `name`.
spec fn env_without(env: Seq<(String, LoweredValue)>, name: Seq<char>) -> Seq<(String, LoweredValue)> {
    match first_binding(env, name, 0) {
        Some(i) => env.remove(i),
        None => env,
    }
}

/// The value a block hands back last: it binds nothing and its result is a
/// name that `env` binds to a value of the `expected` type.
spec fn name_block_value(block: Block, env: Seq<(String, LoweredValue)>, expected: Option<TypeId>) -> Option<
    LoweredValue,
> {
    if block.lets@.len() == 0 {
        match block.result {
            Some(e) => match *e {
                Expr::Name(n) => match env_value(env, n@) {
                    Some(w) => if expected == Some(w.ty) {
                        Some(w)
                    } else {
                        None
                    },
                    None => None,
                },
                _ => None,
            },
            None => None,
        }
    } else {
        None
    }
}

/// Arm `i` of the match `s` hands back `id` last.
pub(crate) open spec fn arm_returns_last(s: Statement, i: int, id: ValueId) -> bool {
    s.expr matches CoreExpr::Match { arms, .. } && 0 <= i < arms@.len() && arms@[i].returned@.len() > 0
        && arms@[i].returned@.last() == id
}

/// `s` is a match on the value `id`.
pub(crate) open spec fn match_on(s: Statement, id: ValueId) -> bool {
    s.expr matches CoreExpr::Match { scrutinee, .. } && scrutinee == id
}

/// The branches of an `if` on a name `c` that `env` binds, lowered at the
/// `expected` type: each arm hands back last what its block's name is
/// bound to without `c`, and the match is on `c`'s value.
spec fn if_on_name_lowered(s: Statement, expr: Expr, env: Seq<(String, LoweredValue)>, expected: Option<TypeId>) -> bool {
    match expr {
        Expr::If { condition, then_branch, else_branch } => match *condition {
            Expr::Name(c) => match env_value(env, c@) {
                Some(v) => {
                    &&& match_on(s, v.id)
                    &&& (name_block_value(then_branch, env_without(env, c@), expected) matches Some(w)
                        ==> arm_returns_last(s, 1, w.id))
                    &&& (name_block_value(else_branch, env_without(env, c@), expected) matches Some(w)
                        ==> arm_returns_last(s, 0, w.id))
                },
                None => true,
            },
            _ => true,
        },
        _ => true,
    }
}

/// The match `s` has one arm per surface arm, in order, each on the
/// variant of the sum `ty` that the surface arm names.
spec fn match_arms_named(s: Statement, surface: Seq<MatchArm>, types: TypeStore, ty: TypeId) -> bool {
    match (s.expr, sum_parts(types, ty)) {
        (CoreExpr::Match { arms, .. }, Some(vs)) => arms@.len() == surface.len() && forall|i: int|
            0 <= i < arms@.len() ==> (#[trigger] arms@[i]).variant < vs.len() && comp_key(vs[arms@[i].variant as int]).0
                == Some(surface[i].variant@),
        _ => false,
    }
}

/// A `match` on a name that `env` binds lowers to a core match on its
/// value, with one arm per surface arm on the variant it names.
spec fn match_on_name_lowered(s: Statement, expr: Expr, env: Seq<(String, LoweredValue)>, types: TypeStore) -> bool {
    match expr {
        Expr::Match { scrutinee, arms } => match *scrutinee {
            Expr::Name(n) => match env_value(env, n@) {
                Some(v) => match_on(s, v.id) && match_arms_named(s, arms@, types, v.ty),
                None => true,
            },
            _ => true,
        },
        _ => true,
    }
}

/// The builtin `s` is applied to `first` and then `second`.
pub(crate) open spec fn builtin_args(s: Statement, first: ValueId, second: ValueId) -> bool {
    s.expr matches CoreExpr::Builtin { args, .. } && args@ == seq![first, second]
}

/// A call of `function` with no arguments that the lowerer owes: the
/// function exists and takes no inputs, a signature is known for it, every
/// signature known for it that shows an output has an output to show, and
/// there are fresh ids for the outputs and a `unit` result.
spec fn zero_argument_call_lowers(cx: LowerContext, function: FunctionId, args: Seq<Arg>, next_value: u32) -> bool {
    &&& args.len() == 0
    &&& function.0 < cx.program.spec_functions().len()
    &&& cx.program.spec_functions()[function.0 as int].inputs@.len() == 0
    &&& exists|j: int| 0 <= j < cx.call_signatures@.len() && cx.call_signatures@[j].id == function
    &&& forall|j: int|
        0 <= j < cx.call_signatures@.len() && (#[trigger] cx.call_signatures@[j]).id == function
            ==> (cx.call_signatures@[j].visible_output is Some ==> cx.program.spec_functions()[function.0 as int].outputs@.len()
            > 0)
    &&& next_value + cx.program.spec_functions()[function.0 as int].outputs@.len() + 1 <= u32::MAX
}

/// A call of a function with core signature `f` whose arguments are
/// integer literals, each of the finite type of its input and passed to a
/// parameter that takes it, that the lowerer owes: every signature known
/// for `function` lists a taking parameter for each argument and, if it
/// shows an output, has one to show; there are fresh ids for the
/// arguments, the outputs and a `unit` result.
spec fn literal_call_fits(cx: LowerContext, f: crate::ir::Function, function: FunctionId, args: Seq<Arg>, next_value: u32) -> bool {
    &&& f.inputs@.len() == args.len()
    &&& forall|i: int|
        0 <= i < args.len() ==> (#[trigger] args[i]).value is Int && finite_type(*cx.types, f.inputs@[i].ty) && (
        args[i].flow == ValueFlow::ReturnedUnchanged || args[i].flow == ValueFlow::NotReturned)
    &&& exists|j: int| 0 <= j < cx.call_signatures@.len() && cx.call_signatures@[j].id == function
    &&& forall|j: int|
        0 <= j < cx.call_signatures@.len() && (#[trigger] cx.call_signatures@[j]).id == function ==> {
            &&& cx.call_signatures@[j].params@.len() >= args.len()
            &&& forall|i: int|
                0 <= i < args.len() ==> (#[trigger] cx.call_signatures@[j].params@[i]).flow == ValueFlow::NotReturned
            &&& (cx.call_signatures@[j].visible_output is Some ==> f.outputs@.len() > 0)
        }
    &&& next_value + args.len() + f.outputs@.len() + 1 <= u32::MAX
}

/// `literal_call_fits` for the function `function` of the program.
spec fn literal_call_lowers(cx: LowerContext, function: FunctionId, args: Seq<Arg>, next_value: u32) -> bool {
    function.0 < cx.program.spec_functions().len() && literal_call_fits(
        cx,
        cx.program.spec_functions()[function.0 as int],
        function,
        args,
        next_value,
    )
}

/// Argument `i` of `args` is the literal that `body` binds at `start + i`
/// to the id `next + i`.
spec fn literal_arg_lowered(args: Seq<Arg>, body: Seq<Statement>, start: int, next: int, i: int) -> bool {
    args[i].value matches Expr::Int(n) && 0 <= start + i < body.len() && literal_statement(
        body[start + i],
        ValueId((next + i) as u32),
        n,
    )
}

/// `s` calls `function` with `count` arguments, the ids `next`, `next + 1`,
/// and so on.
spec fn call_of_fresh_args(s: Statement, function: FunctionId, count: nat, next: int) -> bool {
    s.expr matches CoreExpr::Call { function: g, args } && g == function && args@.len() == count && forall|i: int|
        0 <= i < count ==> #[trigger] args@[i] == ValueId((next + i) as u32)
}

proof fn lemma_literal_arg_kept(args: Seq<Arg>, before: Seq<Statement>, after: Seq<Statement>, start: int, next: int, i: int)
    requires
        extends(before, after),
        literal_arg_lowered(args, before, start, next, i),
    ensures
        literal_arg_lowered(args, after, start, next, i),
{
    assert(after[start + i] == before[start + i]);
}

/// `s` calls `function`, whose core signature is `f`, with one argument per
/// parameter that both signatures list, and binds one value per output.
pub(crate) open spec fn call_lowered(s: Statement, function: FunctionId, f: crate::ir::Function, params: nat) -> bool {
    &&& s.expr matches CoreExpr::Call { function: g, args } && g == function && args@.len() == (if f.inputs@.len()
        <= params {
        f.inputs@.len()
    } else {
        params
    })
    &&& s.results@.len() == f.outputs@.len()
}

/// `s` is a match of two arms: first the `false` variant of `Bool`, then the
/// `true` one.
pub(crate) open spec fn if_lowered(types: TypeStore, s: Statement) -> bool {
    &&& s.expr matches CoreExpr::Match { arms, .. } && arms@.len() == 2 && bool_variant_named(
        types,
        arms@[0].variant,
        "false"@,
    ) && bool_variant_named(types, arms@[1].variant, "true"@)
}

fn copy_threaded(names: &Vec<ThreadedName>) -> (r: Vec<ThreadedName>)
    ensures
        r@.len() == names@.len(),
{
    let mut out: Vec<ThreadedName> = Vec::new();
    let mut i: usize = 0;
    while i < names.len()
        invariant
            0 <= i <= names@.len(),
            out@.len() == i,
        decreases names@.len() - i,
    {
        out.push(ThreadedName { name: names[i].name.clone(), ty: names[i].ty });
        i += 1;
    }
    out
}

fn find_variant(variants: &Vec<Component>, name: &String) -> (r: Option<(usize, TypeId)>)
    ensures
        r matches Some((i, _)) ==> i < variants@.len() && comp_key(variants@[i as int]).0 == Some(name@),
        r matches Some((i, t)) ==> t == variants@[i as int].ty && forall|j: int|
            0 <= j < i ==> comp_key(#[trigger] variants@[j]).0 != Some(name@),
        (exists|j: int| 0 <= j < variants@.len() && comp_key(#[trigger] variants@[j]).0 == Some(name@)) ==> r is Some,
{
    let mut i: usize = 0;
    while i < variants.len()
        invariant
            0 <= i <= variants@.len(),
            forall|j: int| 0 <= j < i ==> comp_key(#[trigger] variants@[j]).0 != Some(name@),
        decreases variants@.len() - i,
    {
        if let ComponentName::Named(n) = &variants[i].name {
            if *n == *name {
                return Some((i, variants[i].ty));
            }
        }
        i += 1;
    }
    None
}

fn find_signature<'b>(signatures: &'b Vec<CallableSignature>, id: FunctionId) -> (r: Option<&'b CallableSignature>)
    ensures
        r matches Some(s) ==> s.id == id && exists|j: int| 0 <= j < signatures@.len() && signatures@[j] == *s,
        (exists|j: int| 0 <= j < signatures@.len() && signatures@[j].id == id) ==> r is Some,
{
    let mut i: usize = 0;
    while i < signatures.len()
        invariant
            0 <= i <= signatures@.len(),
            forall|j: int| 0 <= j < i ==> (#[trigger] signatures@[j]).id != id,
        decreases signatures@.len() - i,
    {
        if signatures[i].id == id {
            return Some(&signatures[i]);
        }
        i += 1;
    }
    None
}

fn env_type(env: &Vec<(String, TypeId)>, name: &String) -> (r: Option<TypeId>) {
    let mut i: usize = 0;
    while i < env.len()
        invariant
            0 <= i <= env@.len(),
        decreases env@.len() - i,
    {
        if env[i].0 == *name {
            return Some(env[i].1);
        }
        i += 1;
    }
    None
}

/// Binds `name` to `ty`; `false` when it was bound already (the binding is
/// replaced).
fn env_type_insert(env: &mut Vec<(String, TypeId)>, name: String, ty: TypeId) -> (fresh: bool) {
    let mut i: usize = 0;
    while i < env.len()
        invariant
            0 <= i <= env@.len(),
        decreases env@.len() - i,
    {
        if env[i].0 == name {
            env.set(i, (name, ty));
            return false;
        }
        i += 1;
    }
    env.push((name, ty));
    true
}

fn copy_type_env(env: &Vec<(String, TypeId)>) -> (r: Vec<(String, TypeId)>) {
    let mut out: Vec<(String, TypeId)> = Vec::new();
    let mut i: usize = 0;
    while i < env.len()
        invariant
            0 <= i <= env@.len(),
        decreases env@.len() - i,
    {
        out.push((env[i].0.clone(), env[i].1));
        i += 1;
    }
    out
}

fn copy_components(cs: &Vec<Component>) -> (r: Vec<Component>)
    ensures
        r@.len() == cs@.len(),
        forall|k: int| 0 <= k < cs@.len() ==> comp_key(#[trigger] r@[k]) == comp_key(cs@[k]),
{
    let mut out: Vec<Component> = Vec::new();
    let mut i: usize = 0;
    while i < cs.len()
        invariant
            0 <= i <= cs@.len(),
            out@.len() == i,
            forall|k: int| 0 <= k < i ==> comp_key(#[trigger] out@[k]) == comp_key(cs@[k]),
        decreases cs@.len() - i,
    {
        let name = match &cs[i].name {
            ComponentName::Named(n) => ComponentName::Named(n.clone()),
            ComponentName::Index(k) => ComponentName::Index(*k),
        };
        out.push(Component { name, ty: cs[i].ty });
        i += 1;
    }
    out
}

fn product_fields(cx: &LowerContext, ty: TypeId) -> (r: Result<Vec<Component>, LowerError>) {
    match cx.types.get(ty) {
        None => Err(LowerError::Type(TypeError::UnknownType(ty))),
        Some(def) => match &def.kind {
            TypeKind::Product(fields) => Ok(copy_components(fields)),
            _ => Err(LowerError::Core(CoreError::NotProduct(ty))),
        },
    }
}

fn sum_variants(cx: &LowerContext, ty: TypeId) -> (r: Result<Vec<Component>, LowerError>)
    ensures
        r matches Ok(vs) ==> sum_parts(*cx.types, ty) matches Some(parts) && parts.len() == vs@.len() && forall|
            k: int,
        | 0 <= k < vs@.len() ==> comp_key(#[trigger] vs@[k]) == comp_key(parts[k]),
        sum_parts(*cx.types, ty) is Some ==> r is Ok,
{
    match cx.types.get(ty) {
        None => Err(LowerError::Type(TypeError::UnknownType(ty))),
        Some(def) => match &def.kind {
            TypeKind::Sum(variants) => Ok(copy_components(variants)),
            _ => Err(LowerError::Core(CoreError::NotSum(ty))),
        },
    }
}

fn require_finite(cx: &LowerContext, ty: TypeId) -> (r: Result<(), LowerError>)
    ensures
        r is Ok <==> finite_type(*cx.types, ty),
        !finite_type(*cx.types, ty) ==> r == Err::<(), LowerError>(not_finite_error(*cx.types, ty)),
{
    match cx.types.get(ty) {
        None => Err(LowerError::Type(TypeError::UnknownType(ty))),
        Some(def) => match &def.kind {
            TypeKind::Finite { .. } => Ok(()),
            _ => Err(LowerError::Core(CoreError::NotFinite(ty))),
        },
    }
}

fn named_type(cx: &LowerContext, name: &str) -> (r: Result<TypeId, LowerError>)
    ensures
        r matches Ok(t) ==> cx.types.spec_lookup(name@) == Some(t),
        r is Ok <==> cx.types.spec_lookup(name@) is Some,
        r matches Err(e) ==> (e matches LowerError::UnknownType(s) && s@ == name@),
{
    match cx.types.type_id(name) {
        Some(t) => Ok(t),
        None => Err(LowerError::UnknownType(name.to_owned())),
    }
}

fn bool_type(cx: &LowerContext) -> (r: Result<TypeId, LowerError>)
    ensures
        r matches Ok(t) ==> cx.types.spec_lookup("Bool"@) == Some(t),
        r is Ok <==> cx.types.spec_lookup("Bool"@) is Some,
        r matches Err(e) ==> (e matches LowerError::UnknownType(s) && s@ == "Bool"@),
{
    named_type(cx, "Bool")
}

fn resolve_existing_type(cx: &LowerContext, ty: &TypeExpr) -> (r: Result<TypeId, LowerError>) {
    match ty {
        TypeExpr::Unit => Ok(cx.types.unit()),
        TypeExpr::Name(name) => match cx.types.type_id(name.as_str()) {
            Some(t) => Ok(t),
            None => Err(LowerError::UnknownType(name.clone())),
        },
        _ => Err(LowerError::UnsupportedExpression("complex let type annotations are not lowered yet")),
    }
}

fn param_flow(cx: &LowerContext, name: &String) -> (r: Option<ValueFlow>) {
    let mut i: usize = 0;
    while i < cx.params.len()
        invariant
            0 <= i <= cx.params@.len(),
        decreases cx.params@.len() - i,
    {
        if cx.params[i].name == *name {
            return Some(cx.params[i].flow);
        }
        i += 1;
    }
    None
}

fn check_arg_flow(actual: ValueFlow, expected: ValueFlow) -> (r: Result<(), LowerError>)
    ensures
        actual == ValueFlow::ReturnedUnchanged || actual == expected ==> r is Ok,
{
    if actual != ValueFlow::ReturnedUnchanged && actual != expected {
        return Err(LowerError::FlowMismatch { expected, actual });
    }
    Ok(())
}

fn check_returned_arg_rebind_flow(cx: &LowerContext, name: &String, callee_flow: ValueFlow) -> (r: Result<
    (),
    LowerError,
>) {
    if param_flow(cx, name) == Some(ValueFlow::ReturnedUnchanged) && callee_flow == ValueFlow::ReturnedChanged {
        return Err(
            LowerError::FlowMismatch { expected: ValueFlow::ReturnedUnchanged, actual: ValueFlow::ReturnedChanged },
        );
    }
    Ok(())
}

/// The name `owner.field<index>` of a missing constructor field.
fn field_label(owner: &String, index: usize) -> (r: String) {
    let mut out = owner.clone();
    let suffix = ".field".to_owned();
    let mut i: usize = 0;
    let chars = crate::frontend::parse::source_chars(suffix.as_str());
    while i < chars.len()
        invariant
            0 <= i <= chars@.len(),
        decreases chars@.len() - i,
    {
        out.push(chars[i]);
        i += 1;
    }
    crate::frontend::parse::push_decimal(&mut out, index);
    out
}

/// The name `owner.variant` of a missing enum variant.
fn variant_label(owner: &str, variant: &str) -> (r: String) {
    let mut out = owner.to_owned();
    out.push('.');
    let chars = crate::frontend::parse::source_chars(variant);
    let mut i: usize = 0;
    while i < chars.len()
        invariant
            0 <= i <= chars@.len(),
        decreases chars@.len() - i,
    {
        out.push(chars[i]);
        i += 1;
    }
    out
}

// ---------------------------------------------------------------------------
// Result types
// ---------------------------------------------------------------------------

/// The types of the names bound while lowering, as inference sees them.
fn inference_env(lowerer: &BodyLowerer) -> (r: Vec<(String, TypeId)>) {
    let mut out: Vec<(String, TypeId)> = Vec::new();
    let mut i: usize = 0;
    while i < lowerer.env.len()
        invariant
            0 <= i <= lowerer.env@.len(),
        decreases lowerer.env@.len() - i,
    {
        out.push((lowerer.env[i].0.clone(), lowerer.env[i].1.ty));
        i += 1;
    }
    out
}

/// Binds the names of a pattern to the types of the value it takes apart.
#[verifier::loop_isolation(false)]
fn bind_pattern_type(cx: &LowerContext, pattern: &Pattern, ty: TypeId, env: &mut Vec<(String, TypeId)>) -> (r:
    Result<(), LowerError>)
    decreases pattern,
{
    match pattern {
        Pattern::Name(name) => {
            if !env_type_insert(env, name.clone(), ty) {
                return Err(LowerError::DuplicateValue(name.clone()));
            }
            Ok(())
        },
        Pattern::Wildcard => Ok(()),
        Pattern::Unit => {
            if ty == cx.types.unit() {
                Ok(())
            } else {
                Err(LowerError::TypeMismatch { expected: cx.types.unit(), actual: ty })
            }
        },
        Pattern::Tuple(patterns) => {
            let fields = match product_fields(cx, ty) {
                Ok(f) => f,
                Err(e) => {
                    return Err(e);
                },
            };
            if patterns.len() != fields.len() {
                return Err(
                    LowerError::Core(CoreError::ResultArity { expected: fields.len(), actual: patterns.len() }),
                );
            }
            let mut i: usize = 0;
            while i < patterns.len()
                invariant
                    0 <= i <= patterns@.len() == fields@.len(),
                decreases patterns@.len() - i,
            {
                match bind_pattern_type(cx, &patterns[i], fields[i].ty, env) {
                    Ok(()) => {},
                    Err(e) => {
                        return Err(e);
                    },
                }
                i += 1;
            }
            Ok(())
        },
        Pattern::Record(patterns) => {
            let fields = match product_fields(cx, ty) {
                Ok(f) => f,
                Err(e) => {
                    return Err(e);
                },
            };
            let mut i: usize = 0;
            while i < fields.len()
                invariant
                    0 <= i <= fields@.len(),
                decreases fields@.len() - i,
            {
                let name = match &fields[i].name {
                    ComponentName::Named(n) => n,
                    ComponentName::Index(_) => {
                        return Err(LowerError::UnsupportedExpression("record patterns require named product fields"));
                    },
                };
                let mut k: usize = 0;
                let mut found: Option<usize> = None;
                while k < patterns.len()
                    invariant
                        0 <= k <= patterns@.len(),
                        found matches Some(j) ==> j < patterns@.len(),
                    decreases patterns@.len() - k,
                {
                    if let Some(pn) = &patterns[k].name {
                        if *pn == *name {
                            found = Some(k);
                            break;
                        }
                    }
                    k += 1;
                }
                let j = match found {
                    Some(j) => j,
                    None => {
                        return Err(LowerError::UnknownValue(name.clone()));
                    },
                };
                match bind_pattern_type(cx, &patterns[j].value, fields[i].ty, env) {
                    Ok(()) => {},
                    Err(e) => {
                        return Err(e);
                    },
                }
                i += 1;
            }
            Ok(())
        },
    }
}

/// A statement that evaluates an expression for its effect: the `unit`
/// let that the parser makes of it, which binds no name.
fn is_expr_stmt(l: &LetStmt) -> (r: bool) {
    match (&l.pattern, &l.ty) {
        (Pattern::Unit, Some(TypeExpr::Unit)) => true,
        _ => false,
    }
}

/// The result type both branches of an `if` agree on, if any.
fn combine_if_types(cx: &LowerContext, then_ty: Option<TypeId>, else_ty: Option<TypeId>) -> (r: Result<
    Option<TypeId>,
    LowerError,
>) {
    match (then_ty, else_ty) {
        (None, None) => Ok(None),
        (Some(t), Some(e)) => {
            if t == e {
                Ok(Some(t))
            } else {
                Err(LowerError::TypeMismatch { expected: t, actual: e })
            }
        },
        (Some(expected), None) => Err(LowerError::MissingResult { expected }),
        (None, Some(expected)) => Err(LowerError::MissingResult { expected }),
    }
}

/// The type a callee gives back to its caller, as far as it shows.
fn infer_call_type(cx: &LowerContext, callee: &Expr) -> (r: Result<Option<TypeId>, LowerError>) {
    match callee {
        Expr::Name(name) => {
            if let Some(function) = cx.program.function_id(name.as_str()) {
                return match find_signature(cx.call_signatures, function) {
                    Some(sig) => Ok(sig.visible_output),
                    None => Err(LowerError::UnknownValue(name.clone())),
                };
            }
            if let Some(ty) = cx.types.type_id(name.as_str()) {
                return Ok(Some(ty));
            }
            Ok(None)
        },
        Expr::FieldAccess { receiver, .. } => {
            if let Expr::Name(owner_name) = &**receiver {
                if let Some(ty) = cx.types.type_id(owner_name.as_str()) {
                    return Ok(Some(ty));
                }
            }
            Ok(None)
        },
        _ => Ok(None),
    }
}

/// The visible type of an expression under `env`, without lowering it.
#[verifier::loop_isolation(false)]
fn infer_expr_type_with_env(cx: &LowerContext, expr: &Expr, env: &Vec<(String, TypeId)>) -> (r: Result<
    Option<TypeId>,
    LowerError,
>)
    decreases expr, 3int,
{
    match expr {
        Expr::Name(name) => match env_type(env, name) {
            Some(ty) => Ok(Some(ty)),
            None => Err(LowerError::UnknownValue(name.clone())),
        },
        Expr::Int(_) => match named_type(cx, "U32") {
            Ok(t) => Ok(Some(t)),
            Err(e) => Err(e),
        },
        Expr::Unit => Ok(None),
        Expr::Block(block) => infer_block_result_type_with_env(cx, block, env),
        Expr::Binary { lhs, op, .. } => {
            let lhs_ty = match infer_expr_type_with_env(cx, lhs, env) {
                Ok(Some(t)) => t,
                Ok(None) => {
                    return Err(LowerError::TypeMismatch { expected: cx.types.unit(), actual: cx.types.unit() });
                },
                Err(e) => {
                    return Err(e);
                },
            };
            match op {
                BinaryOp::Add | BinaryOp::Sub | BinaryOp::Mul | BinaryOp::Div => Ok(Some(lhs_ty)),
                _ => match bool_type(cx) {
                    Ok(t) => Ok(Some(t)),
                    Err(e) => Err(e),
                },
            }
        },
        Expr::Call { callee, .. } => infer_call_type(cx, callee),
        Expr::Match { scrutinee, arms } => {
            let scrutinee_ty = match infer_expr_type_with_env(cx, scrutinee, env) {
                Ok(Some(t)) => t,
                Ok(None) => {
                    return Ok(None);
                },
                Err(e) => {
                    return Err(e);
                },
            };
            let variants = match sum_variants(cx, scrutinee_ty) {
                Ok(v) => v,
                Err(e) => {
                    return Err(e);
                },
            };
            infer_match_result_type_with_env(cx, &variants, arms, env)
        },
        Expr::If { then_branch, else_branch, .. } => {
            let then_ty = match infer_block_result_type_with_env(cx, then_branch, env) {
                Ok(t) => t,
                Err(e) => {
                    return Err(e);
                },
            };
            let else_ty = match infer_block_result_type_with_env(cx, else_branch, env) {
                Ok(t) => t,
                Err(e) => {
                    return Err(e);
                },
            };
            combine_if_types(cx, then_ty, else_ty)
        },
        _ => Ok(None),
    }
}

/// The result type the arms of a match agree on; an arm whose type cannot
/// be told for an unknown name is passed over.
#[verifier::loop_isolation(false)]
fn infer_match_result_type_with_env(
    cx: &LowerContext,
    variants: &Vec<Component>,
    arms: &Vec<MatchArm>,
    base_env: &Vec<(String, TypeId)>,
) -> (r: Result<Option<TypeId>, LowerError>)
    decreases arms@, 1int,
{
    let mut inferred: Option<TypeId> = None;
    let mut i: usize = 0;
    while i < arms.len()
        invariant
            0 <= i <= arms@.len(),
        decreases arms@.len() - i,
    {
        let payload_ty = match find_variant(variants, &arms[i].variant) {
            Some((_, t)) => t,
            None => {
                return Err(LowerError::UnknownValue(arms[i].variant.clone()));
            },
        };
        let mut env = copy_type_env(base_env);
        if let Some(pattern) = &arms[i].payload {
            match bind_pattern_type(cx, pattern, payload_ty, &mut env) {
                Ok(()) => {},
                Err(e) => {
                    return Err(e);
                },
            }
        }
        let ty = match infer_expr_type_with_env(cx, &arms[i].body, &env) {
            Ok(t) => t,
            Err(LowerError::UnknownValue(_)) => {
                i += 1;
                continue;
            },
            Err(e) => {
                return Err(e);
            },
        };
        match (inferred, ty) {
            (None, t) => {
                inferred = t;
            },
            (Some(expected), Some(actual)) => {
                if expected != actual {
                    return Err(LowerError::TypeMismatch { expected, actual });
                }
            },
            (Some(expected), None) => {
                return Err(LowerError::MissingResult { expected });
            },
        }
        i += 1;
    }
    Ok(inferred)
}

/// The result type of a block under `env`.
#[verifier::loop_isolation(false)]
fn infer_block_result_type_with_env(cx: &LowerContext, block: &Block, env: &Vec<(String, TypeId)>) -> (r: Result<
    Option<TypeId>,
    LowerError,
>)
    decreases block, 2int,
{
    let mut env = copy_type_env(env);
    let mut i: usize = 0;
    while i < block.lets.len()
        invariant
            0 <= i <= block.lets@.len(),
        decreases block.lets@.len() - i,
    {
        if is_expr_stmt(&block.lets[i]) {
            i += 1;
            continue;
        }
        let annotated = match &block.lets[i].ty {
            Some(t) => match resolve_existing_type(cx, t) {
                Ok(t) => Some(t),
                Err(e) => {
                    return Err(e);
                },
            },
            None => None,
        };
        let inferred = match infer_expr_type_with_env(cx, &block.lets[i].value, &env) {
            Ok(t) => t,
            Err(e) => {
                return Err(e);
            },
        };
        let ty = match annotated {
            Some(t) => Some(t),
            None => inferred,
        };
        if let Some(t) = ty {
            match bind_pattern_type(cx, &block.lets[i].pattern, t, &mut env) {
                Ok(()) => {},
                Err(e) => {
                    return Err(e);
                },
            }
        }
        i += 1;
    }
    match &block.result {
        Some(result) => infer_expr_type_with_env(cx, result, &env),
        None => Ok(None),
    }
}

// ---------------------------------------------------------------------------
// The lowerer's state
// ---------------------------------------------------------------------------

impl BodyLowerer {
    /// A lowerer whose environment binds the parameters.
    fn new(params: &Vec<LoweredParam>) -> (r: Result<BodyLowerer, LowerError>)
        ensures
            params@.len() <= 0xFFFF_FFFF ==> r is Ok,
            r matches Ok(l) ==> {
                &&& l.body@.len() == 0
                &&& l.env@.len() == params@.len()
                &&& l.name_order@.len() == params@.len()
                &&& forall|k: int|
                    0 <= k < params@.len() ==> (#[trigger] l.env@[k]).0 == params@[k].name && l.env@[k].1 == (
                    LoweredValue { id: params@[k].id, ty: params@[k].ty }) && l.name_order@[k] == params@[k].name
            },
    {
        if params.len() > 0xFFFF_FFFFusize {
            return Err(LowerError::CapacityExceeded);
        }
        let mut env: Vec<(String, LoweredValue)> = Vec::new();
        let mut name_order: Vec<String> = Vec::new();
        let mut i: usize = 0;
        while i < params.len()
            invariant
                0 <= i <= params@.len(),
                env@.len() == i,
                name_order@.len() == i,
                forall|k: int|
                    0 <= k < i ==> (#[trigger] env@[k]).0 == params@[k].name && env@[k].1 == (LoweredValue {
                        id: params@[k].id,
                        ty: params@[k].ty,
                    }) && name_order@[k] == params@[k].name,
            decreases params@.len() - i,
        {
            env.push((params[i].name.clone(), LoweredValue { id: params[i].id, ty: params[i].ty }));
            name_order.push(params[i].name.clone());
            i += 1;
        }
        Ok(BodyLowerer { env, name_order, body: Vec::new(), next_value: params.len() as u32 })
    }

    fn fresh_value(&mut self) -> (r: Result<ValueId, LowerError>)
        ensures
            r matches Ok(id) ==> id.0 < u32::MAX,
            final(self).body == old(self).body,
            final(self).env == old(self).env,
            old(self).next_value < u32::MAX ==> r == Ok::<ValueId, LowerError>(ValueId(old(self).next_value))
                && final(self).next_value == old(self).next_value + 1,
            r is Ok <==> old(self).next_value < u32::MAX,
    {
        if self.next_value == u32::MAX {
            return Err(LowerError::CapacityExceeded);
        }
        let id = ValueId(self.next_value);
        self.next_value = self.next_value + 1;
        Ok(id)
    }

    fn fresh_values(&mut self, n: usize) -> (r: Result<Vec<ValueId>, LowerError>)
        ensures
            r matches Ok(ids) ==> ids@.len() == n,
            final(self).body == old(self).body,
            old(self).next_value + n <= u32::MAX ==> r is Ok && final(self).next_value == old(self).next_value + n,
    {
        let mut ids: Vec<ValueId> = Vec::new();
        let mut i: usize = 0;
        while i < n
            invariant
                0 <= i <= n,
                ids@.len() == i,
                self.body == old(self).body,
                old(self).next_value + n <= u32::MAX ==> self.next_value == old(self).next_value + i,
            decreases n - i,
        {
            match self.fresh_value() {
                Ok(id) => ids.push(id),
                Err(e) => {
                    return Err(e);
                },
            }
            i += 1;
        }
        Ok(ids)
    }

    fn push_statement(&mut self, results: Vec<ValueId>, expr: CoreExpr)
        ensures
            final(self).body@ == old(self).body@.push(Statement { results, expr }),
            final(self).env == old(self).env,
            final(self).next_value == old(self).next_value,
    {
        self.body.push(Statement::new(results, expr));
    }

    fn env_get(&self, name: &String) -> (r: Option<LoweredValue>)
        ensures
            r == env_value(self.env@, name@),
    {
        let mut i: usize = 0;
        while i < self.env.len()
            invariant
                0 <= i <= self.env@.len(),
                env_value(self.env@, name@) == env_value_from(self.env@, name@, i as int),
            decreases self.env@.len() - i,
        {
            if self.env[i].0 == *name {
                return Some(self.env[i].1);
            }
            i += 1;
        }
        None
    }

    /// Binds `name` to `value`; `true` when it was bound already (the
    /// binding is replaced).
    fn env_insert(&mut self, name: String, value: LoweredValue) -> (was_bound: bool)
        ensures
            final(self).body == old(self).body,
            final(self).next_value == old(self).next_value,
    {
        let mut i: usize = 0;
        while i < self.env.len()
            invariant
                0 <= i <= self.env@.len(),
                self.body == old(self).body,
                self.next_value == old(self).next_value,
            decreases self.env@.len() - i,
        {
            if self.env[i].0 == name {
                self.env.set(i, (name, value));
                return true;
            }
            i += 1;
        }
        self.env.push((name, value));
        false
    }

    fn env_remove(&mut self, name: &String)
        ensures
            final(self).body == old(self).body,
            final(self).next_value == old(self).next_value,
    {
        let mut i: usize = 0;
        while i < self.env.len()
            invariant
                0 <= i <= self.env@.len(),
                self.body == old(self).body,
                self.next_value == old(self).next_value,
            decreases self.env@.len() - i,
        {
            if self.env[i].0 == *name {
                self.env.remove(i);
                return;
            }
            i += 1;
        }
    }

    fn copy_env(&self) -> (r: Vec<(String, LoweredValue)>)
        ensures
            r@ == self.env@,
    {
        let mut out: Vec<(String, LoweredValue)> = Vec::new();
        let mut i: usize = 0;
        while i < self.env.len()
            invariant
                0 <= i <= self.env@.len(),
                out@ == self.env@.subrange(0, i as int),
            decreases self.env@.len() - i,
        {
            out.push((self.env[i].0.clone(), self.env[i].1));
            proof {
                assert(self.env@.subrange(0, i + 1) =~= self.env@.subrange(0, i as int).push(self.env@[i as int]));
            }
            i += 1;
        }
        assert(self.env@.subrange(0, self.env@.len() as int) =~= self.env@);
        out
    }

    fn copy_name_order(&self) -> (r: Vec<String>)
        ensures
            r@ == self.name_order@,
    {
        let mut out: Vec<String> = Vec::new();
        let mut i: usize = 0;
        while i < self.name_order.len()
            invariant
                0 <= i <= self.name_order@.len(),
                out@ == self.name_order@.subrange(0, i as int),
            decreases self.name_order@.len() - i,
        {
            out.push(self.name_order[i].clone());
            proof {
                assert(self.name_order@.subrange(0, i + 1) =~= self.name_order@.subrange(0, i as int).push(
                    self.name_order@[i as int],
                ));
            }
            i += 1;
        }
        assert(self.name_order@.subrange(0, self.name_order@.len() as int) =~= self.name_order@);
        out
    }

    /// The name an expression moves out of the environment, if it is a
    /// bound name.
    fn local_name(&self, expr: &Expr) -> (r: Option<String>)
        ensures
            r is Some <==> (*expr matches Expr::Name(n) && env_value(self.env@, n@) is Some),
            r matches Some(s) ==> (*expr matches Expr::Name(n) && s@ == n@),
    {
        match expr {
            Expr::Name(name) => {
                if self.env_get(name).is_some() {
                    Some(name.clone())
                } else {
                    None
                }
            },
            _ => None,
        }
    }

    /// The parameters handed back: every one not taken.
    fn function_return_names(&self, cx: &LowerContext) -> (r: Vec<ThreadedName>)
        ensures
            (forall|k: int| 0 <= k < cx.params@.len() ==> (#[trigger] cx.params@[k]).flow == ValueFlow::NotReturned)
                ==> r@.len() == 0,
            cx.params@.len() == 1 && cx.params@[0].flow != ValueFlow::NotReturned ==> r@.len() == 1 && r@[0].name
                == cx.params@[0].name && r@[0].ty == cx.params@[0].ty,
    {
        let mut out: Vec<ThreadedName> = Vec::new();
        let mut i: usize = 0;
        while i < cx.params.len()
            invariant
                0 <= i <= cx.params@.len(),
                (forall|k: int| 0 <= k < cx.params@.len() ==> (#[trigger] cx.params@[k]).flow == ValueFlow::NotReturned)
                    ==> out@.len() == 0,
                cx.params@.len() == 1 && cx.params@[0].flow != ValueFlow::NotReturned ==> out@.len() == i && (i == 1
                    ==> out@[0].name == cx.params@[0].name && out@[0].ty == cx.params@[0].ty),
            decreases cx.params@.len() - i,
        {
            if cx.params[i].flow != ValueFlow::NotReturned {
                out.push(ThreadedName { name: cx.params[i].name.clone(), ty: cx.params[i].ty });
            }
            i += 1;
        }
        out
    }

    /// The current values of the names handed back.
    fn returned_name_values(&self, names: &Vec<ThreadedName>) -> (r: Result<Vec<ValueId>, LowerError>)
        ensures
            names@.len() == 0 ==> r is Ok,
            names@.len() == 0 ==> (r matches Ok(v) && v@.len() == 0),
            names@.len() == 1 ==> (env_value(self.env@, names@[0].name@) matches Some(u) ==> (u.ty == names@[0].ty
                ==> (r matches Ok(v) && v@ == seq![u.id]))),
    {
        let mut out: Vec<ValueId> = Vec::new();
        let mut i: usize = 0;
        while i < names.len()
            invariant
                0 <= i <= names@.len(),
                out@.len() == i,
                names@.len() == 1 && i == 1 ==> out@[0] == env_value(self.env@, names@[0].name@)->0.id,
            decreases names@.len() - i,
        {
            let value = match self.env_get(&names[i].name) {
                Some(v) => v,
                None => {
                    return Err(LowerError::UnknownValue(names[i].name.clone()));
                },
            };
            if value.ty != names[i].ty {
                return Err(LowerError::TypeMismatch { expected: names[i].ty, actual: value.ty });
            }
            out.push(value.id);
            i += 1;
        }
        Ok(out)
    }

    /// The live names, in binding order, but `excluded`.
    fn live_names_except(&self, excluded: &Option<String>) -> (r: Vec<ThreadedName>)
        ensures
            only_excluded(self.name_order@, *excluded) ==> r@.len() == 0,
    {
        let mut out: Vec<ThreadedName> = Vec::new();
        let mut i: usize = 0;
        while i < self.name_order.len()
            invariant
                0 <= i <= self.name_order@.len(),
                only_excluded(self.name_order@, *excluded) ==> out@.len() == 0,
            decreases self.name_order@.len() - i,
        {
            proof {
                if only_excluded(self.name_order@, *excluded) {
                    assert(0 <= i < self.name_order@.len());
                    let nm = self.name_order@[i as int];
                    assert(*excluded matches Some(x) && nm@ == x@);
                }
            }
            let skip = match excluded {
                Some(x) => *x == self.name_order[i],
                None => false,
            };
            if !skip {
                if let Some(value) = self.env_get(&self.name_order[i]) {
                    out.push(ThreadedName { name: self.name_order[i].clone(), ty: value.ty });
                }
            }
            i += 1;
        }
        out
    }

    /// Zaps every live name that is not handed back, except the block's
    /// result; a name whose type cannot be zapped is a dead linear local.
    fn zap_dead_names(&mut self, cx: &LowerContext, returned_names: &Vec<ThreadedName>, explicit_result: Option<
        LoweredValue,
    >) -> (r: Result<(), LowerError>)
        requires
            cx.wf(),
        ensures
            extends(old(self).body@, final(self).body@),
            old(self).env@.len() == 0 ==> r is Ok,
            explicit_result matches Some(v) ==> (live_ids_are(old(self).env@, old(self).name_order@, v.id) ==> r is Ok
                && final(self).body == old(self).body),
    {
        let mut live: Vec<(String, LoweredValue)> = Vec::new();
        let ghost protects = explicit_result matches Some(v) && live_ids_are(self.env@, self.name_order@, v.id);
        let mut i: usize = 0;
        while i < self.name_order.len()
            invariant
                0 <= i <= self.name_order@.len(),
                *self == *old(self),
                self.env@.len() == 0 ==> live@.len() == 0,
                protects == (explicit_result matches Some(v) && live_ids_are(self.env@, self.name_order@, v.id)),
                protects ==> forall|j: int| 0 <= j < live@.len() ==> (#[trigger] live@[j]).1.id == explicit_result->0.id,
            decreases self.name_order@.len() - i,
        {
            let mut returned = false;
            let mut k: usize = 0;
            while k < returned_names.len()
                invariant
                    0 <= k <= returned_names@.len(),
                    0 <= i < self.name_order@.len(),
                decreases returned_names@.len() - k,
            {
                if returned_names[k].name == self.name_order[i] {
                    returned = true;
                }
                k += 1;
            }
            if !returned {
                if let Some(value) = self.env_get(&self.name_order[i]) {
                    proof {
                        if protects {
                            let nm = self.name_order@[i as int];
                            assert(env_value(self.env@, nm@) == Some(value));
                        }
                    }
                    live.push((self.name_order[i].clone(), value));
                }
            }
            i += 1;
        }
        let mut j: usize = 0;
        while j < live.len()
            invariant
                0 <= j <= live@.len(),
                cx.wf(),
                extends(old(self).body@, self.body@),
                old(self).env@.len() == 0 ==> live@.len() == 0,
                protects == (explicit_result matches Some(v) && live_ids_are(old(self).env@, old(self).name_order@, v.id)),
                protects ==> forall|k: int| 0 <= k < live@.len() ==> (#[trigger] live@[k]).1.id == explicit_result->0.id,
                protects ==> self.body == old(self).body,
            decreases live@.len() - j,
        {
            let value = live[j].1;
            let protected = match explicit_result {
                Some(r) => r.id == value.id,
                None => false,
            };
            if !protected {
                match cx.types.can_zap(value.ty) {
                    Ok(true) => {},
                    Ok(false) => {
                        return Err(LowerError::DeadLinearLocal { name: live[j].0.clone(), ty: value.ty });
                    },
                    Err(e) => {
                        return Err(LowerError::Type(e));
                    },
                }
                self.push_statement(Vec::new(), CoreExpr::Zap { value: value.id });
            }
            self.env_remove(&live[j].0);
            j += 1;
        }
        Ok(())
    }

    /// A lowerer for one arm of a match: the environment without the
    /// consumed scrutinee, fresh ids after the payload's.
    fn arm_lowerer(&self, consumed_name: &Option<String>, payload_id: ValueId) -> (r: BodyLowerer)
        requires
            payload_id.0 < u32::MAX,
        ensures
            r.body@.len() == 0,
            r.next_value == payload_id.0 + 1,
            r.name_order@ == self.name_order@,
            consumed_name matches Some(s) ==> (self.env@.len() == 1 && self.env@[0].0@ == s@ ==> r.env@.len() == 0),
            consumed_name matches Some(s) ==> r.env@ == env_without(self.env@, s@),
    {
        let mut env = self.copy_env();
        if let Some(name) = consumed_name {
            let ghost sole = self.env@.len() == 1 && self.env@[0].0@ == name@;
            let mut i: usize = 0;
            let mut removed = false;
            while i < env.len() && !removed
                invariant
                    0 <= i <= env@.len(),
                    sole == (self.env@.len() == 1 && self.env@[0].0@ == name@),
                    !removed ==> env@ == self.env@ && first_binding(self.env@, name@, 0) == first_binding(
                        self.env@,
                        name@,
                        i as int,
                    ),
                    removed ==> env@ == env_without(self.env@, name@),
                    sole ==> if removed {
                        env@.len() == 0
                    } else {
                        i == 0 && env@ == self.env@
                    },
                decreases env@.len() - i, if removed {
                    0int
                } else {
                    1int
                },
            {
                if env[i].0 == *name {
                    let ghost before = env@;
                    env.remove(i);
                    proof {
                        if sole {
                            assert(before.len() == 1);
                            assert(env@ =~= before.remove(0));
                        }
                    }
                    removed = true;
                } else {
                    proof {
                        if sole {
                            assert(env@[0].0@ == name@);
                        }
                    }
                    i += 1;
                }
            }
        }
        BodyLowerer { env, name_order: self.copy_name_order(), body: Vec::new(), next_value: payload_id.0 + 1 }
    }

    /// Binds a pattern to a lowered value, splitting products as it goes.
    #[verifier::loop_isolation(false)]
    fn bind_pattern(&mut self, cx: &LowerContext, pattern: &Pattern, value: LoweredValue) -> (r: Result<(), LowerError>)
        decreases pattern,
    {
        match pattern {
            Pattern::Name(name) => {
                if self.env_insert(name.clone(), value) {
                    return Err(LowerError::DuplicateValue(name.clone()));
                }
                self.name_order.push(name.clone());
                Ok(())
            },
            Pattern::Wildcard => {
                self.push_statement(Vec::new(), CoreExpr::Zap { value: value.id });
                Ok(())
            },
            Pattern::Unit => {
                if value.ty != cx.types.unit() {
                    return Err(LowerError::TypeMismatch { expected: cx.types.unit(), actual: value.ty });
                }
                self.push_statement(Vec::new(), CoreExpr::Zap { value: value.id });
                Ok(())
            },
            Pattern::Tuple(patterns) => {
                let fields = match product_fields(cx, value.ty) {
                    Ok(f) => f,
                    Err(e) => {
                        return Err(e);
                    },
                };
                if patterns.len() != fields.len() {
                    return Err(
                        LowerError::Core(CoreError::ResultArity { expected: fields.len(), actual: patterns.len() }),
                    );
                }
                let ids = match self.fresh_values(fields.len()) {
                    Ok(ids) => ids,
                    Err(e) => {
                        return Err(e);
                    },
                };
                self.push_statement(copy_ids(&ids), CoreExpr::SplitProduct { value: value.id });
                let mut i: usize = 0;
                while i < patterns.len()
                    invariant
                        0 <= i <= patterns@.len() == fields@.len() == ids@.len(),
                    decreases patterns@.len() - i,
                {
                    match self.bind_pattern(cx, &patterns[i], LoweredValue { id: ids[i], ty: fields[i].ty }) {
                        Ok(()) => {},
                        Err(e) => {
                            return Err(e);
                        },
                    }
                    i += 1;
                }
                Ok(())
            },
            Pattern::Record(patterns) => {
                let fields = match product_fields(cx, value.ty) {
                    Ok(f) => f,
                    Err(e) => {
                        return Err(e);
                    },
                };
                if patterns.len() != fields.len() {
                    return Err(
                        LowerError::Core(CoreError::ResultArity { expected: fields.len(), actual: patterns.len() }),
                    );
                }
                let ids = match self.fresh_values(fields.len()) {
                    Ok(ids) => ids,
                    Err(e) => {
                        return Err(e);
                    },
                };
                self.push_statement(copy_ids(&ids), CoreExpr::SplitProduct { value: value.id });
                let mut i: usize = 0;
                while i < fields.len()
                    invariant
                        0 <= i <= fields@.len() == ids@.len(),
                    decreases fields@.len() - i,
                {
                    let name = match &fields[i].name {
                        ComponentName::Named(n) => n,
                        ComponentName::Index(_) => {
                            return Err(
                                LowerError::UnsupportedExpression("record patterns require named product fields"),
                            );
                        },
                    };
                    let mut k: usize = 0;
                    let mut found: Option<usize> = None;
                    while k < patterns.len()
                        invariant
                            0 <= k <= patterns@.len(),
                            found matches Some(j) ==> j < patterns@.len(),
                        decreases patterns@.len() - k,
                    {
                        if let Some(pn) = &patterns[k].name {
                            if *pn == *name {
                                found = Some(k);
                                break;
                            }
                        }
                        k += 1;
                    }
                    let j = match found {
                        Some(j) => j,
                        None => {
                            return Err(LowerError::UnknownValue(name.clone()));
                        },
                    };
                    match self.bind_pattern(cx, &patterns[j].value, LoweredValue { id: ids[i], ty: fields[i].ty }) {
                        Ok(()) => {},
                        Err(e) => {
                            return Err(e);
                        },
                    }
                    i += 1;
                }
                Ok(())
            },
        }
    }
}

fn copy_ids(ids: &Vec<ValueId>) -> (r: Vec<ValueId>)
    ensures
        r@ == ids@,
{
    let mut out: Vec<ValueId> = Vec::new();
    let mut i: usize = 0;
    while i < ids.len()
        invariant
            0 <= i <= ids@.len(),
            out@ == ids@.subrange(0, i as int),
        decreases ids@.len() - i,
    {
        out.push(ids[i]);
        proof {
            assert(ids@.subrange(0, i + 1) =~= ids@.subrange(0, i as int).push(ids@[i as int]));
        }
        i += 1;
    }
    assert(ids@.subrange(0, ids@.len() as int) =~= ids@);
    out
}


// ---------------------------------------------------------------------------
// Expressions
// ---------------------------------------------------------------------------

impl BodyLowerer {
    /// Lowers a block whose result, if any, has the `expected` type, handing
    /// back `returned_names` and zapping every other live name.
    #[verifier::loop_isolation(false)]
    fn lower_block_returning(
        &mut self,
        cx: &LowerContext,
        block: &Block,
        expected_result: Option<TypeId>,
        returned_names: &Vec<ThreadedName>,
    ) -> (r: Result<Vec<ValueId>, LowerError>)
        requires
            cx.wf(),
        ensures
            literal_block(*block) matches Some(n) ==> (r is Ok ==> has_literal(final(self).body@, n)),
            literal_block(*block) is Some && returned_names@.len() == 0 && old(self).env@.len() == 0
                && old(self).next_value < u32::MAX ==> (expected_result matches Some(ty) ==> (finite_type(
                *cx.types,
                ty,
            ) ==> r is Ok)),
            returned_names@.len() == 0 ==> (echo_block_value(
                *block,
                old(self).env@,
                old(self).name_order@,
                expected_result,
            ) matches Some(w) ==> (r matches Ok(ids) && ids@ == seq![w.id] && final(self).body == old(self).body)),
            returned_names@.len() == 1 ==> (echo_block_value(
                *block,
                old(self).env@,
                old(self).name_order@,
                expected_result,
            ) matches Some(w) ==> (env_value(old(self).env@, returned_names@[0].name@) matches Some(u) ==> (u.ty
                == returned_names@[0].ty ==> (r matches Ok(ids) && ids@ == seq![u.id, w.id] && final(self).body
                == old(self).body)))),
            name_block_value(*block, old(self).env@, expected_result) matches Some(w) ==> (r matches Ok(ids) ==> ids@.len()
                > 0 && ids@.last() == w.id),
            dup_block(*block, old(self).env@, *cx.types) matches Some(a) ==> (r matches Err(
                LowerError::DuplicateLinearUse(s),
            ) && s@ == a),
        decreases block, 8int,
    {
        let ghost start = *self;
        let mut i: usize = 0;
        while i < block.lets.len()
            invariant
                0 <= i <= block.lets@.len(),
                i == 0 ==> *self == start,
            decreases block.lets@.len() - i,
        {
            match self.lower_let_stmt(cx, &block.lets[i]) {
                Ok(()) => {},
                Err(e) => {
                    return Err(e);
                },
            }
            i += 1;
        }
        let explicit_result = match &block.result {
            Some(result) => match self.lower_result(cx, result, expected_result) {
                Ok(v) => v,
                Err(e) => {
                    return Err(e);
                },
            },
            None => match expected_result {
                Some(expected) => {
                    return Err(LowerError::MissingResult { expected });
                },
                None => None,
            },
        };
        let ghost before_finish = self.body@;
        let r = self.finish_block(cx, explicit_result, returned_names);
        proof {
            if literal_block(*block) is Some && r is Ok {
                lemma_literal_kept(before_finish, self.body@, literal_block(*block)->0);
            }
        }
        r
    }

    /// Lowers an arm body: a block as it is, any other expression as the
    /// result of an otherwise empty block.
    fn lower_expr_block(
        &mut self,
        cx: &LowerContext,
        body: &Expr,
        expected_result: Option<TypeId>,
        returned_names: &Vec<ThreadedName>,
    ) -> (r: Result<Vec<ValueId>, LowerError>)
        requires
            cx.wf(),
        decreases body, 12int,
    {
        match body {
            Expr::Block(block) => self.lower_block_returning(cx, block, expected_result, returned_names),
            _ => {
                let explicit_result = match self.lower_result(cx, body, expected_result) {
                    Ok(v) => v,
                    Err(e) => {
                        return Err(e);
                    },
                };
                self.finish_block(cx, explicit_result, returned_names)
            },
        }
    }

    /// The end of a block: the handed-back values, then the result.
    fn finish_block(&mut self, cx: &LowerContext, explicit_result: Option<LoweredValue>, returned_names: &Vec<
        ThreadedName,
    >) -> (r: Result<Vec<ValueId>, LowerError>)
        requires
            cx.wf(),
        ensures
            extends(old(self).body@, final(self).body@),
            returned_names@.len() == 0 && old(self).env@.len() == 0 ==> r is Ok,
            returned_names@.len() == 0 ==> (explicit_result matches Some(v) ==> (live_ids_are(
                old(self).env@,
                old(self).name_order@,
                v.id,
            ) ==> (r matches Ok(ids) && ids@ == seq![v.id] && final(self).body == old(self).body))),
            explicit_result matches Some(v) ==> (r matches Ok(ids) ==> ids@.len() > 0 && ids@.last() == v.id),
            returned_names@.len() == 1 ==> (explicit_result matches Some(v) ==> (env_value(
                old(self).env@,
                returned_names@[0].name@,
            ) matches Some(u) ==> (u.ty == returned_names@[0].ty && live_ids_are(
                old(self).env@,
                old(self).name_order@,
                v.id,
            ) ==> (r matches Ok(ids) && ids@ == seq![u.id, v.id] && final(self).body == old(self).body)))),
    {
        let mut handed_back = match self.returned_name_values(returned_names) {
            Ok(r) => r,
            Err(e) => {
                return Err(e);
            },
        };
        if let Some(result) = explicit_result {
            handed_back.push(result.id);
        }
        match self.zap_dead_names(cx, returned_names, explicit_result) {
            Ok(()) => Ok(handed_back),
            Err(e) => Err(e),
        }
    }

    /// Lowers a block's result expression: a visible value of the expected
    /// type, or a `unit` value that is zapped.
    fn lower_result(&mut self, cx: &LowerContext, result: &Expr, expected_result: Option<TypeId>) -> (r: Result<
        Option<LoweredValue>,
        LowerError,
    >)
        requires
            cx.wf(),
        ensures
            *result matches Expr::Int(n) ==> (r is Ok ==> has_literal(final(self).body@, n)),
            *result is Int ==> extends(old(self).body@, final(self).body@),
            *result is Int ==> (expected_result matches Some(ty) ==> (finite_type(*cx.types, ty)
                && old(self).next_value < u32::MAX ==> r is Ok && final(self).env == old(self).env)),
            *result matches Expr::Name(n) ==> (env_value(old(self).env@, n@) matches Some(w) ==> (expected_result
                == Some(w.ty) ==> r == Ok::<Option<LoweredValue>, LowerError>(Some(w)) && *final(self) == *old(self))),
            bound_name_operands(*result, old(self).env@) matches Some((op, a, va, b, vb)) ==> (a == b && finite_type(
                *cx.types,
                va.ty,
            ) ==> (r matches Err(LowerError::DuplicateLinearUse(s)) && s@ == a)),
        decreases result, 11int,
    {
        match expected_result {
            Some(expected) => {
                let value = match self.lower_expr(cx, result, Some(expected)) {
                    Ok(v) => v,
                    Err(e) => {
                        return Err(e);
                    },
                };
                if value.ty != expected {
                    return Err(LowerError::TypeMismatch { expected, actual: value.ty });
                }
                Ok(Some(value))
            },
            None => {
                let unit = cx.types.unit();
                let value = match self.lower_expr(cx, result, Some(unit)) {
                    Ok(v) => v,
                    Err(e) => {
                        return Err(e);
                    },
                };
                if value.ty != unit {
                    return Err(LowerError::TypeMismatch { expected: unit, actual: value.ty });
                }
                let ghost before = self.body@;
                self.push_statement(Vec::new(), CoreExpr::Zap { value: value.id });
                proof {
                    if let Expr::Int(n) = *result {
                        lemma_literal_kept(before, self.body@, n);
                    }
                }
                Ok(None)
            },
        }
    }

    fn lower_let_stmt(&mut self, cx: &LowerContext, let_stmt: &LetStmt) -> (r: Result<(), LowerError>)
        requires
            cx.wf(),
        decreases let_stmt, 12int,
    {
        let expected = match &let_stmt.ty {
            Some(t) => match resolve_existing_type(cx, t) {
                Ok(t) => Some(t),
                Err(e) => {
                    return Err(e);
                },
            },
            None => None,
        };
        let moved_name = self.local_name(&let_stmt.value);
        let value = match self.lower_expr(cx, &let_stmt.value, expected) {
            Ok(v) => v,
            Err(e) => {
                return Err(e);
            },
        };
        if let Some(name) = &moved_name {
            self.env_remove(name);
        }
        if let Some(expected) = expected {
            if value.ty != expected {
                return Err(LowerError::TypeMismatch { expected, actual: value.ty });
            }
        }
        self.bind_pattern(cx, &let_stmt.pattern, value)
    }

    fn lower_expr(&mut self, cx: &LowerContext, expr: &Expr, expected: Option<TypeId>) -> (r: Result<
        LoweredValue,
        LowerError,
    >)
        requires
            cx.wf(),
        ensures
            *expr matches Expr::Name(n) ==> (env_value(old(self).env@, n@) matches Some(v) ==> r == Ok::<
                LoweredValue,
                LowerError,
            >(v) && *final(self) == *old(self)),
            *expr matches Expr::Int(n) ==> (r is Ok ==> has_literal(final(self).body@, n)),
            *expr is Int ==> extends(old(self).body@, final(self).body@),
            *expr is Int ==> (r is Ok ==> old(self).next_value < u32::MAX),
            bound_name_operands(*expr, old(self).env@) matches Some((op, a, va, b, vb)) ==> (a == b && finite_type(
                *cx.types,
                va.ty,
            ) ==> (r matches Err(LowerError::DuplicateLinearUse(s)) && s@ == a)),
            *expr matches Expr::Int(n) ==> (expected matches Some(ty) ==> (finite_type(*cx.types, ty)
                && old(self).next_value < u32::MAX ==> r == Ok::<LoweredValue, LowerError>(
                LoweredValue { id: ValueId(old(self).next_value), ty },
            ) && final(self).body@.len() == old(self).body@.len() + 1 && literal_statement(
                final(self).body@[old(self).body@.len() as int],
                ValueId(old(self).next_value),
                n,
            ) && final(self).env == old(self).env && final(self).next_value == old(self).next_value + 1)),
        decreases expr, 10int,
    {
        match expr {
            Expr::Name(name) => self.lower_name(cx, name),
            Expr::Int(value) => self.lower_int(cx, *value, expected),
            Expr::Unit => self.lower_unit_payload(cx),
            Expr::Call { callee, args } => self.lower_call(cx, callee, args, expected),
            Expr::Binary { .. } => self.lower_binary(cx, expr),
            Expr::Product(surface) => self.lower_record(cx, surface, expected),
            Expr::FieldAccess { receiver, field } => self.lower_field_access(cx, receiver, field, expected),
            Expr::MethodCall { receiver, receiver_flow, method, args } => self.lower_method_call(
                cx,
                receiver,
                *receiver_flow,
                method,
                args,
                expected,
            ),
            Expr::Match { .. } => self.lower_match(cx, expr, expected),
            Expr::If { .. } => self.lower_if(cx, expr, expected),
            Expr::String(_) | Expr::Block(_) => Err(
                LowerError::UnsupportedExpression("expression form is not lowered yet"),
            ),
        }
    }

    fn lower_name(&mut self, cx: &LowerContext, name: &String) -> (r: Result<LoweredValue, LowerError>)
        ensures
            env_value(old(self).env@, name@) matches Some(v) ==> r == Ok::<LoweredValue, LowerError>(v)
                && *final(self) == *old(self),
    {
        if let Some(value) = self.env_get(name) {
            return Ok(value);
        }
        if let Some(global) = cx.program.global_decl_id(name.as_str()) {
            let ty = match cx.program.get_global_decl(global) {
                Some(decl) => decl.ty,
                None => {
                    return Err(LowerError::Core(CoreError::UnknownGlobal(global)));
                },
            };
            let id = match self.fresh_value() {
                Ok(id) => id,
                Err(e) => {
                    return Err(e);
                },
            };
            self.push_statement(vec![id], CoreExpr::Global { global });
            return Ok(LoweredValue { id, ty });
        }
        Err(LowerError::UnknownValue(name.clone()))
    }

    /// Lowers an expression whose value is consumed: a name it is moves out
    /// of the environment.
    fn lower_consumed_expr(&mut self, cx: &LowerContext, expr: &Expr, expected: Option<TypeId>) -> (r: Result<
        LoweredValue,
        LowerError,
    >)
        requires
            cx.wf(),
        ensures
            *expr matches Expr::Int(n) ==> (expected matches Some(ty) ==> (finite_type(*cx.types, ty)
                && old(self).next_value < u32::MAX ==> r == Ok::<LoweredValue, LowerError>(
                LoweredValue { id: ValueId(old(self).next_value), ty },
            ) && final(self).body@.len() == old(self).body@.len() + 1 && literal_statement(
                final(self).body@[old(self).body@.len() as int],
                ValueId(old(self).next_value),
                n,
            ) && final(self).env == old(self).env && final(self).next_value == old(self).next_value + 1)),
            *expr is Int ==> extends(old(self).body@, final(self).body@),
        decreases expr, 11int,
    {
        let name = self.local_name(expr);
        let value = match self.lower_expr(cx, expr, expected) {
            Ok(v) => v,
            Err(e) => {
                return Err(e);
            },
        };
        if let Some(name) = &name {
            self.env_remove(name);
        }
        Ok(value)
    }

    fn lower_int(&mut self, cx: &LowerContext, value: u128, expected: Option<TypeId>) -> (r: Result<
        LoweredValue,
        LowerError,
    >)
        ensures
            extends(old(self).body@, final(self).body@),
            r is Ok ==> has_literal(final(self).body@, value),
            r is Ok ==> old(self).next_value < u32::MAX,
            expected matches Some(ty) ==> (finite_type(*cx.types, ty) && old(self).next_value < u32::MAX ==> r
                == Ok::<LoweredValue, LowerError>(LoweredValue { id: ValueId(old(self).next_value), ty })
                && final(self).body@.len() == old(self).body@.len() + 1 && literal_statement(
                final(self).body@[old(self).body@.len() as int],
                ValueId(old(self).next_value),
                value,
            ) && final(self).env == old(self).env && final(self).next_value == old(self).next_value + 1),
    {
        let ty = match expected {
            Some(ty) => {
                match require_finite(cx, ty) {
                    Ok(()) => {},
                    Err(e) => {
                        return Err(e);
                    },
                }
                ty
            },
            None => match named_type(cx, "U32") {
                Ok(t) => t,
                Err(e) => {
                    return Err(e);
                },
            },
        };
        let id = match self.fresh_value() {
            Ok(id) => id,
            Err(e) => {
                return Err(e);
            },
        };
        let ghost at = self.body@.len() as int;
        self.push_statement(vec![id], CoreExpr::FiniteLiteral { ty, value });
        assert(is_literal(self.body@[self.body@.len() - 1], value));
        assert(self.body@[at].results@ =~= seq![id]);
        Ok(LoweredValue { id, ty })
    }

    fn lower_unit_payload(&mut self, cx: &LowerContext) -> (r: Result<LoweredValue, LowerError>)
        ensures
            extends(old(self).body@, final(self).body@),
            old(self).next_value < u32::MAX ==> r is Ok,
    {
        let id = match self.fresh_value() {
            Ok(id) => id,
            Err(e) => {
                return Err(e);
            },
        };
        self.push_statement(vec![id], CoreExpr::Unit);
        Ok(LoweredValue { id, ty: cx.types.unit() })
    }

    fn lower_call(&mut self, cx: &LowerContext, callee: &Expr, args: &Vec<Arg>, expected: Option<TypeId>) -> (r:
        Result<LoweredValue, LowerError>)
        requires
            cx.wf(),
        decreases args@, 9int,
    {
        if let Expr::FieldAccess { receiver, field } = callee {
            if let Expr::Name(owner_name) = &**receiver {
                if let Some(ty) = cx.types.type_id(owner_name.as_str()) {
                    return self.lower_enum_constructor_call(cx, owner_name, ty, field, args, expected);
                }
            }
        }
        let name = match callee {
            Expr::Name(name) => name,
            _ => {
                return Err(LowerError::UnsupportedExpression("only direct calls are lowered yet"));
            },
        };
        if let Some(function) = cx.program.function_id(name.as_str()) {
            return self.lower_function_call(cx, name, function, args);
        }
        if let Some(ty) = cx.types.type_id(name.as_str()) {
            return self.lower_constructor_call(cx, name, ty, args, expected);
        }
        Err(LowerError::UnknownValue(name.clone()))
    }

    fn lower_field_access(&mut self, cx: &LowerContext, receiver: &Expr, field: &String, expected: Option<TypeId>) -> (r:
        Result<LoweredValue, LowerError>) {
        if let Expr::Name(owner_name) = receiver {
            if let Some(ty) = cx.types.type_id(owner_name.as_str()) {
                return self.lower_unit_enum_constructor(cx, owner_name, ty, field, expected);
            }
        }
        Err(LowerError::UnsupportedExpression("field access is not lowered yet"))
    }

    fn lower_method_call(
        &mut self,
        cx: &LowerContext,
        receiver: &Expr,
        receiver_flow: ValueFlow,
        method: &String,
        args: &Vec<Arg>,
        expected: Option<TypeId>,
    ) -> (r: Result<LoweredValue, LowerError>)
        requires
            cx.wf(),
        decreases args@, 9int,
    {
        if let Expr::Name(owner_name) = receiver {
            if let Some(ty) = cx.types.type_id(owner_name.as_str()) {
                if receiver_flow != ValueFlow::ReturnedUnchanged {
                    return Err(
                        LowerError::FlowMismatch { expected: ValueFlow::ReturnedUnchanged, actual: receiver_flow },
                    );
                }
                return self.lower_enum_constructor_call(cx, owner_name, ty, method, args, expected);
            }
        }
        Err(LowerError::UnsupportedExpression("method calls are not lowered yet"))
    }

    /// Lowers a call of a known function: arguments for parameters that are
    /// handed back must be names, which are bound again to the returned
    /// versions; temporaries handed back are zapped.
    #[verifier::loop_isolation(false)]
    fn lower_function_call(&mut self, cx: &LowerContext, name: &String, function: FunctionId, args: &Vec<Arg>) -> (r:
        Result<LoweredValue, LowerError>)
        requires
            cx.wf(),
        ensures
            r is Ok ==> function.0 < cx.program.spec_functions().len() && exists|k: int, j: int|
                0 <= k < final(self).body@.len() && 0 <= j < cx.call_signatures@.len() && cx.call_signatures@[j].id
                    == function && call_lowered(
                    #[trigger] final(self).body@[k],
                    function,
                    cx.program.spec_functions()[function.0 as int],
                    #[trigger] cx.call_signatures@[j].params@.len(),
                ),
            zero_argument_call_lowers(*cx, function, args@, old(self).next_value) ==> r is Ok,
            literal_call_lowers(*cx, function, args@, old(self).next_value) ==> {
                &&& r is Ok
                &&& forall|i: int|
                    0 <= i < args@.len() ==> #[trigger] literal_arg_lowered(
                        args@,
                        final(self).body@,
                        old(self).body@.len() as int,
                        old(self).next_value as int,
                        i,
                    )
                &&& exists|k: int|
                    0 <= k < final(self).body@.len() && call_of_fresh_args(
                        #[trigger] final(self).body@[k],
                        function,
                        args@.len(),
                        old(self).next_value as int,
                    )
            },
        decreases args@, 8int,
    {
        let core_signature = match cx.program.get(function) {
            Some(f) => f,
            None => {
                return Err(LowerError::Core(CoreError::UnknownFunction(function)));
            },
        };
        let call_signature = match find_signature(cx.call_signatures, function) {
            Some(s) => s,
            None => {
                return Err(
                    LowerError::FunctionOutputArity {
                        name: name.clone(),
                        expected: 1,
                        actual: core_signature.outputs.len(),
                    },
                );
            },
        };
        if args.len() != core_signature.inputs.len() {
            return Err(
                LowerError::Core(
                    CoreError::ResultArity { expected: core_signature.inputs.len(), actual: args.len() },
                ),
            );
        }
        let mut arg_values: Vec<ValueId> = Vec::new();
        let mut returned_args: Vec<ReturnedCallArg> = Vec::new();
        let ghost start = *self;
        let ghost lit = literal_call_lowers(*cx, function, args@, start.next_value);
        proof {
            if lit {
                let j = choose|j: int| 0 <= j < cx.call_signatures@.len() && cx.call_signatures@[j] == *call_signature;
                assert(cx.call_signatures@[j].id == function);
            }
        }
        let mut i: usize = 0;
        while i < args.len() && i < call_signature.params.len()
            invariant
                0 <= i <= args@.len() == core_signature.inputs@.len(),
                i <= call_signature.params@.len(),
                arg_values@.len() == i,
                returned_args@.len() <= i,
                i == 0 ==> *self == start,
                *core_signature == cx.program.spec_functions()[function.0 as int],
                function.0 < cx.program.spec_functions().len(),
                lit == literal_call_lowers(*cx, function, args@, start.next_value),
                lit ==> {
                    &&& call_signature.params@.len() >= args@.len()
                    &&& forall|j: int|
                        0 <= j < args@.len() ==> (#[trigger] call_signature.params@[j]).flow == ValueFlow::NotReturned
                    &&& (call_signature.visible_output is Some ==> core_signature.outputs@.len() > 0)
                },
                lit ==> {
                    &&& self.next_value == start.next_value + i
                    &&& self.body@.len() == start.body@.len() + i
                    &&& self.env == start.env
                    &&& returned_args@.len() == 0
                    &&& extends(start.body@, self.body@)
                    &&& forall|j: int| 0 <= j < i ==> #[trigger] arg_values@[j] == ValueId((start.next_value + j) as u32)
                    &&& forall|j: int|
                        0 <= j < i ==> #[trigger] literal_arg_lowered(
                            args@,
                            self.body@,
                            start.body@.len() as int,
                            start.next_value as int,
                            j,
                        )
                },
                cx.wf(),
            decreases args@.len() - i,
        {
            let ghost body_before = self.body@;
            let input_ty = core_signature.inputs[i].ty;
            let param_flow_i = call_signature.params[i].flow;
            match check_arg_flow(args[i].flow, param_flow_i) {
                Ok(()) => {},
                Err(e) => {
                    return Err(e);
                },
            }
            let value = if param_flow_i == ValueFlow::NotReturned {
                match self.lower_consumed_expr(cx, &args[i].value, Some(input_ty)) {
                    Ok(v) => v,
                    Err(e) => {
                        return Err(e);
                    },
                }
            } else {
                let (returned, value) = match self.lower_returned_call_arg(cx, &args[i], input_ty) {
                    Ok(x) => x,
                    Err(e) => {
                        return Err(e);
                    },
                };
                if let ReturnedCallArg::Rebind(n) = &returned {
                    match check_returned_arg_rebind_flow(cx, n, param_flow_i) {
                        Ok(()) => {},
                        Err(e) => {
                            return Err(e);
                        },
                    }
                }
                returned_args.push(returned);
                value
            };
            if value.ty != input_ty {
                return Err(LowerError::TypeMismatch { expected: input_ty, actual: value.ty });
            }
            arg_values.push(value.id);
            proof {
                if lit {
                    assert forall|j: int| 0 <= j < i + 1 implies #[trigger] literal_arg_lowered(
                        args@,
                        self.body@,
                        start.body@.len() as int,
                        start.next_value as int,
                        j,
                    ) by {
                        if j < i {
                            lemma_literal_arg_kept(
                                args@,
                                body_before,
                                self.body@,
                                start.body@.len() as int,
                                start.next_value as int,
                                j,
                            );
                        }
                    }
                }
            }
            i += 1;
        }
        let ghost body_after_args = self.body@;
        let result_ids = match self.fresh_values(core_signature.outputs.len()) {
            Ok(ids) => ids,
            Err(e) => {
                return Err(e);
            },
        };
        let ghost at = self.body@.len() as int;
        self.push_statement(copy_ids(&result_ids), CoreExpr::Call { function, args: arg_values });
        let ghost pushed = self.body@;
        let ghost next_after = self.next_value;
        assert(call_lowered(pushed[at], function, *core_signature, call_signature.params@.len()));
        let hidden_return_count = returned_args.len();
        let mut k: usize = 0;
        while k < returned_args.len() && k < result_ids.len()
            invariant
                0 <= k,
                result_ids@.len() == core_signature.outputs@.len(),
                extends(pushed, self.body@),
                self.next_value == next_after,
            decreases returned_args@.len() - k,
        {
            match &returned_args[k] {
                ReturnedCallArg::Rebind(n) => {
                    self.env_insert(n.clone(), LoweredValue { id: result_ids[k], ty: core_signature.outputs[k] });
                },
                ReturnedCallArg::Zap => {
                    self.push_statement(Vec::new(), CoreExpr::Zap { value: result_ids[k] });
                },
            }
            k += 1;
        }
        assert(self.body@[at] == pushed[at]);
        let ghost before_result = self.body@;
        let r = match call_signature.visible_output {
            Some(ty) => {
                if hidden_return_count < result_ids.len() {
                    Ok(LoweredValue { id: result_ids[hidden_return_count], ty })
                } else {
                    Err(
                        LowerError::FunctionOutputArity {
                            name: name.clone(),
                            expected: hidden_return_count,
                            actual: result_ids.len(),
                        },
                    )
                }
            },
            None => self.lower_unit_payload(cx),
        };
        proof {
            if lit {
                assert(extends(body_after_args, self.body@)) by {
                    assert(extends(body_after_args, pushed));
                }
                assert forall|j: int| 0 <= j < args@.len() implies #[trigger] literal_arg_lowered(
                    args@,
                    self.body@,
                    start.body@.len() as int,
                    start.next_value as int,
                    j,
                ) by {
                    lemma_literal_arg_kept(
                        args@,
                        body_after_args,
                        self.body@,
                        start.body@.len() as int,
                        start.next_value as int,
                        j,
                    );
                }
                assert(self.body@[at] == pushed[at]);
            }
        }
        r
    }

    /// An argument for a parameter that is handed back: a bound name is
    /// bound again afterwards; any other expression is a temporary whose
    /// returned version is zapped.
    fn lower_returned_call_arg(&mut self, cx: &LowerContext, arg: &Arg, expected: TypeId) -> (r: Result<
        (ReturnedCallArg, LoweredValue),
        LowerError,
    >)
        requires
            cx.wf(),
        decreases arg, 11int,
    {
        if let Expr::Name(name) = &arg.value {
            if let Some(value) = self.env_get(name) {
                return Ok((ReturnedCallArg::Rebind(name.clone()), value));
            }
        }
        match self.lower_consumed_expr(cx, &arg.value, Some(expected)) {
            Ok(value) => Ok((ReturnedCallArg::Zap, value)),
            Err(e) => Err(e),
        }
    }

    /// Lowers a record literal at the product type it is expected to have,
    /// its fields found by name.
    fn lower_record(&mut self, cx: &LowerContext, surface: &Vec<Field<Expr>>, expected: Option<TypeId>) -> (r: Result<
        LoweredValue,
        LowerError,
    >)
        requires
            cx.wf(),
        decreases surface@, 7int,
    {
        let ty = match expected {
            Some(t) => t,
            None => {
                return Err(LowerError::UnsupportedExpression("product literals need constructor context"));
            },
        };
        let fields = match cx.types.get(ty) {
            None => {
                return Err(LowerError::Type(TypeError::UnknownType(ty)));
            },
            Some(def) => match &def.kind {
                TypeKind::Product(fields) => copy_components(fields),
                _ => {
                    return Err(LowerError::UnsupportedExpression("product literals need constructor context"));
                },
            },
        };
        let owner = "record".to_owned();
        let field_values = match self.lower_product_fields(cx, &owner, &fields, surface) {
            Ok(v) => v,
            Err(e) => {
                return Err(e);
            },
        };
        let id = match self.fresh_value() {
            Ok(id) => id,
            Err(e) => {
                return Err(e);
            },
        };
        self.push_statement(vec![id], CoreExpr::Product { ty, fields: field_values });
        Ok(LoweredValue { id, ty })
    }

    /// Lowers the argument list of a product constructor into field values:
    /// one record argument by field names, or one argument per field.
    #[verifier::loop_isolation(false)]
    fn lower_constructor_fields(&mut self, cx: &LowerContext, constructor: &String, fields: &Vec<Component>, args: &Vec<
        Arg,
    >) -> (r: Result<Vec<ValueId>, LowerError>)
        requires
            cx.wf(),
        decreases args@, 6int,
    {
        if args.len() == 1 {
            match &args[0].value {
                Expr::Product(surface_fields) => {
                    return self.lower_product_fields(cx, constructor, fields, surface_fields);
                },
                value => {
                    if fields.len() != 1 {
                        return Err(LowerError::Core(CoreError::ResultArity { expected: fields.len(), actual: 1 }));
                    }
                    return match self.lower_consumed_expr(cx, value, Some(fields[0].ty)) {
                        Ok(v) => Ok(vec![v.id]),
                        Err(e) => Err(e),
                    };
                },
            }
        }
        if args.len() != fields.len() {
            return Err(LowerError::Core(CoreError::ResultArity { expected: fields.len(), actual: args.len() }));
        }
        let mut values: Vec<ValueId> = Vec::new();
        let mut i: usize = 0;
        while i < args.len()
            invariant
                0 <= i <= args@.len() == fields@.len(),
                cx.wf(),
            decreases args@.len() - i,
        {
            match self.lower_consumed_expr(cx, &args[i].value, Some(fields[i].ty)) {
                Ok(v) => values.push(v.id),
                Err(e) => {
                    return Err(e);
                },
            }
            i += 1;
        }
        Ok(values)
    }

    fn lower_constructor_call(
        &mut self,
        cx: &LowerContext,
        name: &String,
        ty: TypeId,
        args: &Vec<Arg>,
        expected: Option<TypeId>,
    ) -> (r: Result<LoweredValue, LowerError>)
        requires
            cx.wf(),
        decreases args@, 8int,
    {
        if let Some(expected) = expected {
            if expected != ty {
                return Err(LowerError::TypeMismatch { expected, actual: ty });
            }
        }
        let fields = match cx.types.get(ty) {
            None => {
                return Err(LowerError::Type(TypeError::UnknownType(ty)));
            },
            Some(def) => match &def.kind {
                TypeKind::Product(fields) => copy_components(fields),
                _ => {
                    return Err(LowerError::UnsupportedExpression("only product constructors are lowered yet"));
                },
            },
        };
        let field_values = match self.lower_constructor_fields(cx, name, &fields, args) {
            Ok(v) => v,
            Err(e) => {
                return Err(e);
            },
        };
        let id = match self.fresh_value() {
            Ok(id) => id,
            Err(e) => {
                return Err(e);
            },
        };
        self.push_statement(vec![id], CoreExpr::Product { ty, fields: field_values });
        Ok(LoweredValue { id, ty })
    }

    /// Lowers record fields in the order of the product's components, each
    /// found by name (or by position for a positional component).
    #[verifier::loop_isolation(false)]
    fn lower_product_fields(
        &mut self,
        cx: &LowerContext,
        constructor: &String,
        expected: &Vec<Component>,
        surface: &Vec<Field<Expr>>,
    ) -> (r: Result<Vec<ValueId>, LowerError>)
        requires
            cx.wf(),
        decreases surface@, 5int,
    {
        let mut values: Vec<ValueId> = Vec::new();
        let mut index: usize = 0;
        while index < expected.len()
            invariant
                0 <= index <= expected@.len(),
                cx.wf(),
            decreases expected@.len() - index,
        {
            let found: Option<usize> = match &expected[index].name {
                ComponentName::Named(name) => {
                    let mut k: usize = 0;
                    let mut hit: Option<usize> = None;
                    while k < surface.len()
                        invariant
                            0 <= k <= surface@.len(),
                            hit matches Some(j) ==> j < surface@.len(),
                        decreases surface@.len() - k,
                    {
                        if let Some(n) = &surface[k].name {
                            if *n == *name {
                                hit = Some(k);
                                break;
                            }
                        }
                        k += 1;
                    }
                    hit
                },
                ComponentName::Index(k) => {
                    if *k < surface.len() {
                        Some(*k)
                    } else {
                        None
                    }
                },
            };
            let j = match found {
                Some(j) => j,
                None => {
                    return Err(LowerError::UnknownValue(field_label(constructor, index)));
                },
            };
            match self.lower_consumed_expr(cx, &surface[j].value, Some(expected[index].ty)) {
                Ok(v) => values.push(v.id),
                Err(e) => {
                    return Err(e);
                },
            }
            index += 1;
        }
        Ok(values)
    }

    /// The index and payload type of the variant `variant_name` of the enum
    /// `ty`.
    fn enum_variant(&self, cx: &LowerContext, owner_name: &String, ty: TypeId, variant_name: &String) -> (r: Result<
        (usize, TypeId),
        LowerError,
    >) {
        let variants = match cx.types.get(ty) {
            None => {
                return Err(LowerError::Type(TypeError::UnknownType(ty)));
            },
            Some(def) => match &def.kind {
                TypeKind::Sum(variants) => copy_components(variants),
                _ => {
                    return Err(
                        LowerError::UnsupportedExpression("only enum variants can be constructed with dot syntax"),
                    );
                },
            },
        };
        match find_variant(&variants, variant_name) {
            Some(x) => Ok(x),
            None => Err(LowerError::UnknownValue(variant_label(owner_name.as_str(), variant_name.as_str()))),
        }
    }

    fn lower_unit_enum_constructor(
        &mut self,
        cx: &LowerContext,
        owner_name: &String,
        ty: TypeId,
        variant_name: &String,
        expected: Option<TypeId>,
    ) -> (r: Result<LoweredValue, LowerError>) {
        let (variant, payload_ty) = match self.enum_variant(cx, owner_name, ty, variant_name) {
            Ok(x) => x,
            Err(e) => {
                return Err(e);
            },
        };
        if payload_ty != cx.types.unit() {
            return Err(LowerError::Core(CoreError::ResultArity { expected: 1, actual: 0 }));
        }
        let payload = match self.lower_unit_payload(cx) {
            Ok(p) => p,
            Err(e) => {
                return Err(e);
            },
        };
        self.lower_enum_inject(ty, variant, payload, expected)
    }

    fn lower_enum_constructor_call(
        &mut self,
        cx: &LowerContext,
        owner_name: &String,
        ty: TypeId,
        variant_name: &String,
        args: &Vec<Arg>,
        expected: Option<TypeId>,
    ) -> (r: Result<LoweredValue, LowerError>)
        requires
            cx.wf(),
        decreases args@, 8int,
    {
        let (variant, payload_ty) = match self.enum_variant(cx, owner_name, ty, variant_name) {
            Ok(x) => x,
            Err(e) => {
                return Err(e);
            },
        };
        let payload = match self.lower_variant_payload(cx, owner_name, payload_ty, args) {
            Ok(p) => p,
            Err(e) => {
                return Err(e);
            },
        };
        self.lower_enum_inject(ty, variant, payload, expected)
    }

    fn lower_enum_inject(&mut self, ty: TypeId, variant: usize, payload: LoweredValue, expected: Option<TypeId>) -> (r:
        Result<LoweredValue, LowerError>) {
        if let Some(expected) = expected {
            if expected != ty {
                return Err(LowerError::TypeMismatch { expected, actual: ty });
            }
        }
        let id = match self.fresh_value() {
            Ok(id) => id,
            Err(e) => {
                return Err(e);
            },
        };
        self.push_statement(vec![id], CoreExpr::SumInject { ty, variant, payload: payload.id });
        Ok(LoweredValue { id, ty })
    }

    /// The payload of an enum constructor: `unit` for no arguments, a
    /// product built from the arguments, or the single argument itself.
    fn lower_variant_payload(&mut self, cx: &LowerContext, constructor: &String, payload_ty: TypeId, args: &Vec<Arg>) -> (r:
        Result<LoweredValue, LowerError>)
        requires
            cx.wf(),
        decreases args@, 7int,
    {
        if payload_ty == cx.types.unit() {
            if args.len() != 0 {
                return Err(LowerError::Core(CoreError::ResultArity { expected: 0, actual: args.len() }));
            }
            return self.lower_unit_payload(cx);
        }
        let product = match cx.types.get(payload_ty) {
            None => {
                return Err(LowerError::Type(TypeError::UnknownType(payload_ty)));
            },
            Some(def) => match &def.kind {
                TypeKind::Product(fields) => Some(copy_components(fields)),
                _ => None,
            },
        };
        if let Some(fields) = product {
            let field_values = match self.lower_constructor_fields(cx, constructor, &fields, args) {
                Ok(v) => v,
                Err(e) => {
                    return Err(e);
                },
            };
            let id = match self.fresh_value() {
                Ok(id) => id,
                Err(e) => {
                    return Err(e);
                },
            };
            self.push_statement(vec![id], CoreExpr::Product { ty: payload_ty, fields: field_values });
            return Ok(LoweredValue { id, ty: payload_ty });
        }
        if args.len() != 1 {
            return Err(LowerError::Core(CoreError::ResultArity { expected: 1, actual: args.len() }));
        }
        self.lower_consumed_expr(cx, &args[0].value, Some(payload_ty))
    }
}


impl BodyLowerer {
    /// Lowers `lhs op rhs` into an observer-style builtin: both operands
    /// come back unchanged before the result; an operand that was a bound
    /// name is bound to its returned version, a temporary is zapped.
    fn lower_binary(&mut self, cx: &LowerContext, expr: &Expr) -> (r: Result<LoweredValue, LowerError>)
        requires
            cx.wf(),
        ensures
            r matches Ok(v) ==> exists|k: int|
                0 <= k < final(self).body@.len() && binary_lowered(*expr, #[trigger] final(self).body@[k], v.id, v.ty)
                    && (bound_name_operands(*expr, old(self).env@) matches Some((op, a, va, b, vb)) ==> builtin_args(
                    final(self).body@[k],
                    if op is Gt {
                        vb.id
                    } else {
                        va.id
                    },
                    if op is Gt {
                        va.id
                    } else {
                        vb.id
                    },
                )),
            !(*expr matches Expr::Binary { op, .. } && binary_supported(op)) ==> r is Err,
            name_literal_operands(*expr, old(self).env@) matches Some((op, va, n)) ==> {
                &&& (binary_supported(op) && finite_type(*cx.types, va.ty) && cx.types.spec_lookup("Bool"@) is Some
                    && old(self).next_value + 4 <= u32::MAX ==> r is Ok)
                &&& (r matches Ok(v) ==> {
                    &&& literal_statement(
                        final(self).body@[old(self).body@.len() as int],
                        ValueId(old(self).next_value),
                        n,
                    )
                    &&& exists|k: int|
                        0 <= k < final(self).body@.len() && binary_lowered(
                            *expr,
                            #[trigger] final(self).body@[k],
                            v.id,
                            v.ty,
                        ) && builtin_args(
                            final(self).body@[k],
                            if op is Gt {
                                ValueId(old(self).next_value)
                            } else {
                                va.id
                            },
                            if op is Gt {
                                va.id
                            } else {
                                ValueId(old(self).next_value)
                            },
                        )
                })
            },
            bound_name_operands(*expr, old(self).env@) matches Some((op, a, va, b, vb)) ==> {
                &&& (a == b && finite_type(*cx.types, va.ty) ==> (r matches Err(LowerError::DuplicateLinearUse(s))
                    && s@ == a))
                &&& (!finite_type(*cx.types, va.ty) ==> r == Err::<LoweredValue, LowerError>(
                    not_finite_error(*cx.types, va.ty),
                ))
                &&& (a != b && finite_type(*cx.types, va.ty) && vb.ty != va.ty ==> r == Err::<LoweredValue, LowerError>(
                    LowerError::TypeMismatch { expected: va.ty, actual: vb.ty },
                ))
                &&& (a != b && finite_type(*cx.types, va.ty) && vb.ty == va.ty && cx.types.spec_lookup("Bool"@) is None
                    ==> (r matches Err(LowerError::UnknownType(s)) && s@ == "Bool"@))
                &&& (r matches Ok(v) ==> if op is Add || op is Sub || op is Mul {
                    v.ty == va.ty
                } else {
                    cx.types.spec_lookup("Bool"@) == Some(v.ty)
                })
                &&& (a != b && binary_supported(op) && finite_type(*cx.types, va.ty) && vb.ty == va.ty
                    && cx.types.spec_lookup("Bool"@) is Some && old(self).next_value + 3 <= u32::MAX ==> r is Ok)
            },
        decreases expr, 9int,
    {
        let ghost ops = bound_name_operands(*expr, self.env@);
        let ghost start_len = self.body@.len() as int;
        let (lhs, op, rhs) = match expr {
            Expr::Binary { lhs, op, rhs } => (lhs, *op, rhs),
            _ => {
                return Err(LowerError::UnsupportedExpression("binary operator is not lowered yet"));
            },
        };
        let lhs = match self.lower_binary_operand(cx, lhs, None) {
            Ok(x) => x,
            Err(e) => {
                return Err(e);
            },
        };
        match require_finite(cx, lhs.value.ty) {
            Ok(()) => {},
            Err(e) => {
                return Err(e);
            },
        }
        let rhs = match self.lower_binary_operand(cx, rhs, Some(lhs.value.ty)) {
            Ok(x) => x,
            Err(e) => {
                return Err(e);
            },
        };
        let ghost after_operands = self.body@;
        match self.ensure_binary_operand_still_live(&lhs) {
            Ok(()) => {},
            Err(e) => {
                return Err(e);
            },
        }
        if let (Some(l), Some(r)) = (&lhs.name, &rhs.name) {
            if *l == *r {
                return Err(LowerError::DuplicateLinearUse(l.clone()));
            }
        }
        if rhs.value.ty != lhs.value.ty {
            return Err(LowerError::TypeMismatch { expected: lhs.value.ty, actual: rhs.value.ty });
        }
        let bool_ty = match bool_type(cx) {
            Ok(t) => t,
            Err(e) => {
                return Err(e);
            },
        };
        let ty = lhs.value.ty;
        let (core_op, result_ty, swapped) = match op {
            BinaryOp::Add => (BuiltinOp::FiniteAdd { ty }, ty, false),
            BinaryOp::Sub => (BuiltinOp::FiniteSub { ty }, ty, false),
            BinaryOp::Mul => (BuiltinOp::FiniteMul { ty }, ty, false),
            BinaryOp::Eq => (BuiltinOp::FiniteEq { ty, bool_ty }, bool_ty, false),
            BinaryOp::Lt => (BuiltinOp::FiniteLt { ty, bool_ty }, bool_ty, false),
            BinaryOp::Gt => (BuiltinOp::FiniteLt { ty, bool_ty }, bool_ty, true),
            _ => {
                return Err(LowerError::UnsupportedExpression("binary operator is not lowered yet"));
            },
        };
        let (first, second) = if swapped {
            (rhs, lhs)
        } else {
            (lhs, rhs)
        };
        let returned_first = match self.fresh_value() {
            Ok(id) => id,
            Err(e) => {
                return Err(e);
            },
        };
        let returned_second = match self.fresh_value() {
            Ok(id) => id,
            Err(e) => {
                return Err(e);
            },
        };
        let id = match self.fresh_value() {
            Ok(id) => id,
            Err(e) => {
                return Err(e);
            },
        };
        let ghost at = self.body@.len() as int;
        let ghost first_id = first.value.id;
        let ghost second_id = second.value.id;
        self.push_statement(
            vec![returned_first, returned_second, id],
            CoreExpr::Builtin { op: core_op, args: vec![first.value.id, second.value.id] },
        );
        let ghost pushed = self.body@;
        assert(builtin_args(pushed[at], first_id, second_id));
        self.handle_returned_binary_operand(first, returned_first);
        self.handle_returned_binary_operand(second, returned_second);
        assert(binary_lowered(*expr, self.body@[at], id, result_ty) && builtin_args(
            self.body@[at],
            first_id,
            second_id,
        )) by {
            assert(self.body@[at] == pushed[at]);
        }
        proof {
            if start_len < after_operands.len() {
                assert(self.body@[start_len] == after_operands[start_len]);
            }
        }
        Ok(LoweredValue { id, ty: result_ty })
    }

    fn lower_binary_operand(&mut self, cx: &LowerContext, expr: &Expr, expected: Option<TypeId>) -> (r: Result<
        LoweredBinaryOperand,
        LowerError,
    >)
        requires
            cx.wf(),
        ensures
            *expr matches Expr::Name(n) ==> (env_value(old(self).env@, n@) matches Some(v) ==> (r matches Ok(o)
                && o.value == v && (o.name matches Some(s) && s@ == n@) && *final(self) == *old(self))),
            *expr matches Expr::Int(n) ==> (expected matches Some(ty) ==> (finite_type(*cx.types, ty)
                && old(self).next_value < u32::MAX ==> (r matches Ok(o) && o.name is None && o.value == (LoweredValue {
                id: ValueId(old(self).next_value),
                ty,
            })) && final(self).body@.len() == old(self).body@.len() + 1 && literal_statement(
                final(self).body@[old(self).body@.len() as int],
                ValueId(old(self).next_value),
                n,
            ) && final(self).env == old(self).env && final(self).next_value == old(self).next_value + 1)),
            *expr is Int ==> (r is Ok ==> old(self).next_value < u32::MAX),
        decreases expr, 11int,
    {
        let name = self.local_name(expr);
        match self.lower_expr(cx, expr, expected) {
            Ok(value) => Ok(LoweredBinaryOperand { name, value }),
            Err(e) => Err(e),
        }
    }

    /// A named operand must still be bound to the value it was lowered to.
    fn ensure_binary_operand_still_live(&self, operand: &LoweredBinaryOperand) -> (r: Result<(), LowerError>)
        ensures
            operand.name is None ==> r is Ok,
            operand.name matches Some(s) ==> (r is Ok <==> (env_value(self.env@, s@) matches Some(c) && c.id
                == operand.value.id)),
    {
        match &operand.name {
            None => Ok(()),
            Some(name) => match self.env_get(name) {
                Some(current) => {
                    if current.id == operand.value.id {
                        Ok(())
                    } else {
                        Err(LowerError::ValueMovedDuringExpression(name.clone()))
                    }
                },
                None => Err(LowerError::ValueMovedDuringExpression(name.clone())),
            },
        }
    }

    fn handle_returned_binary_operand(&mut self, operand: LoweredBinaryOperand, returned_id: ValueId)
        ensures
            extends(old(self).body@, final(self).body@),
    {
        match operand.name {
            Some(name) => {
                self.env_insert(name, LoweredValue { id: returned_id, ty: operand.value.ty });
            },
            None => {
                self.push_statement(Vec::new(), CoreExpr::Zap { value: returned_id });
            },
        }
    }

    /// Binds the results of a core match: the threaded names get their
    /// versions back, then the visible result if there is one.
    fn finish_match(
        &mut self,
        cx: &LowerContext,
        scrutinee: ValueId,
        arms: Vec<CoreMatchArm>,
        threaded_names: &Vec<ThreadedName>,
        expected: Option<TypeId>,
    ) -> (r: Result<LoweredValue, LowerError>)
        ensures
            r is Ok ==> exists|k: int|
                0 <= k < final(self).body@.len() && (#[trigger] final(self).body@[k]).expr == (CoreExpr::Match {
                    scrutinee,
                    arms,
                }),
            threaded_names@.len() == 0 && expected is Some && old(self).next_value < u32::MAX ==> r is Ok,
    {
        let ghost arms0 = arms;
        let result_count = match threaded_names.len().checked_add(if expected.is_some() {
            1
        } else {
            0
        }) {
            Some(n) => n,
            None => {
                return Err(LowerError::CapacityExceeded);
            },
        };
        let result_ids = match self.fresh_values(result_count) {
            Ok(ids) => ids,
            Err(e) => {
                return Err(e);
            },
        };
        let ghost at = self.body@.len() as int;
        self.push_statement(copy_ids(&result_ids), CoreExpr::Match { scrutinee, arms });
        let ghost pushed = self.body@;
        let mut i: usize = 0;
        while i < threaded_names.len() && i < result_ids.len()
            invariant
                0 <= i,
                extends(pushed, self.body@),
            decreases threaded_names@.len() - i,
        {
            self.env_insert(threaded_names[i].name.clone(), LoweredValue { id: result_ids[i], ty: threaded_names[i].ty });
            i += 1;
        }
        assert(self.body@[at] == pushed[at]);
        match expected {
            Some(ty) => Ok(LoweredValue { id: result_ids[result_count - 1], ty }),
            None => self.lower_unit_payload(cx),
        }
    }

    /// Lowers a match over an enum. Each arm starts from the environment
    /// without the scrutinee's name, binds its payload pattern (or zaps the
    /// payload), and hands back every other live name and the result.
    #[verifier::loop_isolation(false)]
    fn lower_match(&mut self, cx: &LowerContext, expr: &Expr, expected: Option<TypeId>) -> (r: Result<
        LoweredValue,
        LowerError,
    >)
        requires
            cx.wf(),
        ensures
            !(*expr is Match) ==> r is Err,
            r is Ok ==> exists|k: int|
                0 <= k < final(self).body@.len() && #[trigger] match_on_name_lowered(
                    final(self).body@[k],
                    *expr,
                    old(self).env@,
                    *cx.types,
                ),
        decreases expr, 9int,
    {
        let (scrutinee, arms) = match expr {
            Expr::Match { scrutinee, arms } => (scrutinee, arms),
            _ => {
                return Err(LowerError::UnsupportedExpression("expression form is not lowered yet"));
            },
        };
        let scrutinee_name = self.local_name(scrutinee);
        let scrutinee_value = match self.lower_expr(cx, scrutinee, None) {
            Ok(v) => v,
            Err(e) => {
                return Err(e);
            },
        };
        let variants = match sum_variants(cx, scrutinee_value.ty) {
            Ok(v) => v,
            Err(e) => {
                return Err(e);
            },
        };
        let expected = match expected {
            Some(t) => Some(t),
            None => {
                let env = inference_env(self);
                match infer_match_result_type_with_env(cx, &variants, arms, &env) {
                    Ok(t) => t,
                    Err(e) => {
                        return Err(e);
                    },
                }
            },
        };
        let threaded_names = self.live_names_except(&scrutinee_name);
        let payload_id = match self.fresh_value() {
            Ok(id) => id,
            Err(e) => {
                return Err(e);
            },
        };
        let mut core_arms: Vec<CoreMatchArm> = Vec::new();
        let mut i: usize = 0;
        while i < arms.len()
            invariant
                0 <= i <= arms@.len(),
                cx.wf(),
                payload_id.0 < u32::MAX,
                core_arms@.len() == i,
                forall|j: int|
                    0 <= j < i ==> (#[trigger] core_arms@[j]).variant < variants@.len() && comp_key(
                        variants@[core_arms@[j].variant as int],
                    ).0 == Some(arms@[j].variant@),
            decreases arms@.len() - i,
        {
            let (variant, payload_ty) = match find_variant(&variants, &arms[i].variant) {
                Some(x) => x,
                None => {
                    return Err(LowerError::UnknownValue(arms[i].variant.clone()));
                },
            };
            let mut arm_lowerer = self.arm_lowerer(&scrutinee_name, payload_id);
            let payload = LoweredValue { id: payload_id, ty: payload_ty };
            match &arms[i].payload {
                Some(pattern) => match arm_lowerer.bind_pattern(cx, pattern, payload) {
                    Ok(()) => {},
                    Err(e) => {
                        return Err(e);
                    },
                },
                None => {
                    arm_lowerer.push_statement(Vec::new(), CoreExpr::Zap { value: payload.id });
                },
            }
            let threaded = copy_threaded(&threaded_names);
            let handed_back = match arm_lowerer.lower_expr_block(cx, &arms[i].body, expected, &threaded) {
                Ok(r) => r,
                Err(e) => {
                    return Err(e);
                },
            };
            core_arms.push(CoreMatchArm::new(variant, payload_id, arm_lowerer.body, handed_back));
            i += 1;
        }
        if let Some(name) = &scrutinee_name {
            self.env_remove(name);
        }
        let ghost cas = core_arms;
        let r = self.finish_match(cx, scrutinee_value.id, core_arms, &threaded_names, expected);
        proof {
            if r is Ok {
                let k = choose|k: int|
                    0 <= k < self.body@.len() && (#[trigger] self.body@[k]).expr == (CoreExpr::Match {
                        scrutinee: scrutinee_value.id,
                        arms: cas,
                    });
                assert(match_on_name_lowered(self.body@[k], *expr, old(self).env@, *cx.types));
            }
        }
        r
    }

    /// Lowers `if` as a match over `Bool`: the else branch is the `false`
    /// arm, the then branch the `true` arm.
    #[verifier::loop_isolation(false)]
    fn lower_if(&mut self, cx: &LowerContext, expr: &Expr, expected: Option<TypeId>) -> (r: Result<
        LoweredValue,
        LowerError,
    >)
        requires
            cx.wf(),
        ensures
            expected is Some ==> (r is Ok ==> exists|k: int|
                0 <= k < final(self).body@.len() && #[trigger] if_on_name_lowered(
                    final(self).body@[k],
                    *expr,
                    old(self).env@,
                    expected,
                )),
            r is Ok ==> exists|k: int|
                0 <= k < final(self).body@.len() && if_lowered(*cx.types, #[trigger] final(self).body@[k]) && (
                *expr matches Expr::If { then_branch, else_branch, .. } ==> {
                    &&& (literal_block(then_branch) matches Some(n) ==> arm_has_literal(final(self).body@[k], 1, n))
                    &&& (literal_block(else_branch) matches Some(n) ==> arm_has_literal(final(self).body@[k], 0, n))
                }),
            !(*expr is If) ==> r is Err,
            literal_if_on_sole_name(*expr, old(self).env@, old(self).name_order@, *cx.types, expected)
                && old(self).next_value + 2 <= u32::MAX ==> r is Ok,
        decreases expr, 9int,
    {
        let (condition, then_branch, else_branch) = match expr {
            Expr::If { condition, then_branch, else_branch } => (condition, then_branch, else_branch),
            _ => {
                return Err(LowerError::UnsupportedExpression("expression form is not lowered yet"));
            },
        };
        let bool_ty = match bool_type(cx) {
            Ok(t) => t,
            Err(e) => {
                return Err(e);
            },
        };
        let variants = match sum_variants(cx, bool_ty) {
            Ok(v) => v,
            Err(e) => {
                return Err(e);
            },
        };
        let false_word = "false".to_owned();
        let true_word = "true".to_owned();
        proof {
            if literal_if_on_sole_name(*expr, old(self).env@, old(self).name_order@, *cx.types, expected) {
                reveal_strlit("false");
                reveal_strlit("true");
                assert(comp_key(variants@[0]).0 == Some(false_word@));
                assert(comp_key(variants@[1]).0 == Some(true_word@));
                assert("false"@.len() == 5 && "true"@.len() == 4);
                assert(comp_key(variants@[0]).0 != Some(true_word@));
            }
        }
        let (false_variant, false_payload_ty) = match find_variant(&variants, &false_word) {
            Some(x) => x,
            None => {
                return Err(LowerError::UnknownValue(false_word));
            },
        };
        let (true_variant, true_payload_ty) = match find_variant(&variants, &true_word) {
            Some(x) => x,
            None => {
                return Err(LowerError::UnknownValue(true_word));
            },
        };
        if false_payload_ty != cx.types.unit() || true_payload_ty != cx.types.unit() {
            return Err(LowerError::TypeMismatch { expected: cx.types.unit(), actual: false_payload_ty });
        }
        let condition_name = self.local_name(condition);
        let condition_value = match self.lower_expr(cx, condition, Some(bool_ty)) {
            Ok(v) => v,
            Err(e) => {
                return Err(e);
            },
        };
        if condition_value.ty != bool_ty {
            return Err(LowerError::TypeMismatch { expected: bool_ty, actual: condition_value.ty });
        }
        let expected = match expected {
            Some(t) => Some(t),
            None => {
                let env = inference_env(self);
                let then_ty = match infer_block_result_type_with_env(cx, then_branch, &env) {
                    Ok(t) => t,
                    Err(e) => {
                        return Err(e);
                    },
                };
                let else_ty = match infer_block_result_type_with_env(cx, else_branch, &env) {
                    Ok(t) => t,
                    Err(e) => {
                        return Err(e);
                    },
                };
                match combine_if_types(cx, then_ty, else_ty) {
                    Ok(t) => t,
                    Err(e) => {
                        return Err(e);
                    },
                }
            },
        };
        proof {
            if literal_if_on_sole_name(*expr, old(self).env@, old(self).name_order@, *cx.types, expected) {
                assert(only_excluded(self.name_order@, condition_name)) by {
                    assert(self.name_order@ == old(self).name_order@);
                }
            }
        }
        let threaded_names = self.live_names_except(&condition_name);
        let payload_id = match self.fresh_value() {
            Ok(id) => id,
            Err(e) => {
                return Err(e);
            },
        };
        let mut core_arms: Vec<CoreMatchArm> = Vec::new();
        let mut else_lowerer = self.arm_lowerer(&condition_name, payload_id);
        else_lowerer.push_statement(Vec::new(), CoreExpr::Zap { value: payload_id });
        let ghost else_env = else_lowerer.env@;
        let threaded = copy_threaded(&threaded_names);
        let else_returns = match else_lowerer.lower_block_returning(cx, else_branch, expected, &threaded) {
            Ok(r) => r,
            Err(e) => {
                return Err(e);
            },
        };
        let ghost else_ret = else_returns@;
        core_arms.push(CoreMatchArm::new(false_variant, payload_id, else_lowerer.body, else_returns));
        let mut then_lowerer = self.arm_lowerer(&condition_name, payload_id);
        then_lowerer.push_statement(Vec::new(), CoreExpr::Zap { value: payload_id });
        let ghost then_env = then_lowerer.env@;
        let threaded = copy_threaded(&threaded_names);
        let then_returns = match then_lowerer.lower_block_returning(cx, then_branch, expected, &threaded) {
            Ok(r) => r,
            Err(e) => {
                return Err(e);
            },
        };
        let ghost then_ret = then_returns@;
        core_arms.push(CoreMatchArm::new(true_variant, payload_id, then_lowerer.body, then_returns));
        if let Some(name) = &condition_name {
            self.env_remove(name);
        }
        let ghost arms = core_arms;
        assert(literal_block(*then_branch) matches Some(n) ==> has_literal(arms@[1].body@, n));
        assert(literal_block(*else_branch) matches Some(n) ==> has_literal(arms@[0].body@, n));
        assert(arms@.len() == 2 && bool_variant_named(*cx.types, arms@[0].variant, "false"@) && bool_variant_named(
            *cx.types,
            arms@[1].variant,
            "true"@,
        ));
        let r = self.finish_match(cx, condition_value.id, core_arms, &threaded_names, expected);
        proof {
            if r is Ok {
                let k = choose|k: int|
                    0 <= k < self.body@.len() && (#[trigger] self.body@[k]).expr == (CoreExpr::Match {
                        scrutinee: condition_value.id,
                        arms,
                    });
                assert(if_lowered(*cx.types, self.body@[k]));
                assert(arms@[0].returned@ == else_ret && arms@[1].returned@ == then_ret);
                assert(if_on_name_lowered(self.body@[k], *expr, old(self).env@, expected));
            }
        }
        r
    }
}

/// Lowers a function body against its parameters: the statements, and the
/// values handed back (every parameter not taken, then the visible result).
pub(crate) fn lower_function_body(
    types: &TypeStore,
    program: &CoreProgram,
    call_signatures: &Vec<CallableSignature>,
    params: &Vec<LoweredParam>,
    body: &Block,
    expected_output: Option<TypeId>,
) -> (r: Result<(Vec<Statement>, Vec<ValueId>), LowerError>)
    requires
        types.wf(),
    ensures
        echo_body(params@, *body, expected_output) ==> (r matches Ok((stmts, back)) && stmts@.len() == 0 && back@
            == seq![params@[0].id]),
        dup_body(params@, *body, *types) matches Some(a) ==> (r matches Err(LowerError::DuplicateLinearUse(s)) && s@
            == a),
        copy_body(params@, *body, expected_output) ==> (r matches Ok((stmts, back)) && stmts@.len() == 0 && back@
            == seq![params@[0].id, params@[0].id]),
{
    let cx = LowerContext { types, program, call_signatures, params };
    let mut lowerer = match BodyLowerer::new(params) {
        Ok(l) => l,
        Err(e) => {
            return Err(e);
        },
    };
    let returned_names = lowerer.function_return_names(&cx);
    match lowerer.lower_block_returning(&cx, body, expected_output, &returned_names) {
        Ok(handed_back) => Ok((lowerer.body, handed_back)),
        Err(e) => Err(e),
    }
}


} // verus!
