//! Lowering of a surface module into the type arena and a core program.
//!
//! Type items become definitions of the `TypeStore`: aliases bind a name to
//! an existing id, structs become named products, enums named sums.
//! Anonymous products, sums and function types are interned, so one shape
//! lowers to one id. Generic type items are kept aside and instantiated on
//! use, once per argument list. Globals, functions and impl methods become
//! declarations and function shells of a `CoreProgram`, whose bodies are
//! then lowered into core statements; the result is checked by the core
//! judgement and its flow markers against the inferred value flow.

use vstd::prelude::*;

mod body;

use crate::frontend::ast::{
    block_view, opt_expr_view, opt_str, strs, type_view, Block, BlockV, Expr, ExprV, Field, FunctionDef,
    GlobalDef as SurfaceGlobal, ImplBlock, Item, Module, Param as SurfaceParam, TypeDef as SurfaceTypeDef, TypeExpr,
    TypeV, ValueFlow,
};
use crate::flow::{
    check_function_contract, flows_view, infer_flows, initial_flows, params_view, sp_fixpoint,
    spec_contract_violations, violations_view, FlowViolation, FlowViolationView, FunctionFlow, ParamContract,
    Provenance,
};
use crate::id::{FunctionId, GlobalId, TypeId, ValueId};
use crate::names::lookup;
use crate::ir::{CoreError, CoreProgram, Function, GlobalDecl, Param as CoreParam, Statement};
use crate::types::{
    opt_string_view, Component, ComponentName, DeclaredCapabilities, TypeDef, TypeError, TypeKind, TypeStore,
};

verus! {

// ---------------------------------------------------------------------------
// Results and errors
// ---------------------------------------------------------------------------

#[derive(Debug, PartialEq, Eq)]
pub struct LoweredTypes {
    pub types: TypeStore,
}

#[derive(Debug, PartialEq, Eq)]
pub struct LoweredModule {
    pub types: TypeStore,
    pub program: CoreProgram,
    pub globals: Vec<LoweredGlobal>,
    pub functions: Vec<LoweredFunction>,
    pub methods: Vec<LoweredMethod>,
    /// Non-fatal marker findings from value-flow verification.
    pub flow_warnings: Vec<FlowViolation>,
}

#[derive(Debug, PartialEq, Eq)]
pub struct LoweredGlobal {
    pub id: GlobalId,
    pub name: String,
    pub ty: TypeId,
    pub value: Option<Expr>,
}

#[derive(Debug, PartialEq, Eq)]
pub struct LoweredFunction {
    pub id: FunctionId,
    pub name: String,
    pub params: Vec<LoweredParam>,
    pub output: TypeId,
    pub core_outputs: Vec<TypeId>,
    pub body: Block,
}

#[derive(Debug, PartialEq, Eq)]
pub struct LoweredMethod {
    pub owner: TypeId,
    pub method: String,
    pub function: LoweredFunction,
}

#[derive(Clone, Debug, PartialEq, Eq)]
pub struct LoweredParam {
    pub id: ValueId,
    pub flow: ValueFlow,
    pub name: String,
    pub ty: TypeId,
}

#[derive(Clone, Debug, PartialEq, Eq)]
pub enum LowerError {
    Type(TypeError),
    Core(CoreError),
    UnsupportedGenericDecl { name: String },
    DuplicateGenericParam { name: String, param: String },
    RecursiveGenericType { name: String },
    UnknownType(String),
    BadGenericArity { name: String, expected: usize, actual: usize },
    UnknownCapability(String),
    UnsupportedAliasCapabilities { name: String },
    ExpectedStructBody { name: String },
    ExpectedEnumBody { name: String },
    UnsupportedAnonymousImplTarget,
    UnsupportedExpression(&'static str),
    UnknownValue(String),
    DuplicateValue(String),
    TypeMismatch { expected: TypeId, actual: TypeId },
    FunctionOutputArity { name: String, expected: usize, actual: usize },
    MissingResult { expected: TypeId },
    FlowMismatch { expected: ValueFlow, actual: ValueFlow },
    ExpectedNameForReturnedArgument,
    Flow(FlowViolation),
    DuplicateLinearUse(String),
    ValueMovedDuringExpression(String),
    DeadLinearLocal { name: String, ty: TypeId },
    /// The type arena, the program or a parameter list has no id left.
    CapacityExceeded,
}

// ---------------------------------------------------------------------------
// Declaration checks
// ---------------------------------------------------------------------------

pub open spec fn cap_dup() -> Seq<char> {
    seq!['D', 'u', 'p']
}

pub open spec fn cap_zap() -> Seq<char> {
    seq!['Z', 'a', 'p']
}

/// The capabilities that the first `n` names declare, starting from linear,
/// or the first name that is neither `Dup` nor `Zap`.
pub open spec fn spec_declared(caps: Seq<Seq<char>>, n: int) -> Result<DeclaredCapabilities, Seq<char>>
    decreases n,
{
    if n <= 0 {
        Ok(DeclaredCapabilities { dup: false, zap: false })
    } else {
        match spec_declared(caps, n - 1) {
            Err(e) => Err(e),
            Ok(d) => if caps[n - 1] == cap_dup() {
                Ok(DeclaredCapabilities { dup: true, zap: d.zap })
            } else if caps[n - 1] == cap_zap() {
                Ok(DeclaredCapabilities { dup: d.dup, zap: true })
            } else {
                Err(caps[n - 1])
            },
        }
    }
}

/// The index of the first name of `gs` (among the first `n`) that repeats an
/// earlier one.
pub open spec fn first_repeat(gs: Seq<Seq<char>>, n: int) -> Option<int>
    decreases n,
{
    if n <= 0 {
        None
    } else {
        match first_repeat(gs, n - 1) {
            Some(k) => Some(k),
            None => if gs.subrange(0, n - 1).contains(gs[n - 1]) {
                Some(n - 1)
            } else {
                None
            },
        }
    }
}

fn reject_generics(name: &str, generics: &Vec<String>) -> (r: Result<(), LowerError>)
    ensures
        generics@.len() == 0 ==> r is Ok,
        generics@.len() > 0 ==> (r matches Err(LowerError::UnsupportedGenericDecl { name: n }) && n@ == name@),
{
    if generics.len() == 0 {
        Ok(())
    } else {
        Err(LowerError::UnsupportedGenericDecl { name: name.to_owned() })
    }
}

fn reject_duplicate_generics(name: &str, generics: &Vec<String>) -> (r: Result<(), LowerError>)
    ensures
        match first_repeat(strs(generics@), generics@.len() as int) {
            None => r is Ok,
            Some(k) => r matches Err(LowerError::DuplicateGenericParam { name: n, param: g }) && n@ == name@
                && g@ == generics@[k]@,
        },
{
    let ghost gs = strs(generics@);
    let mut i: usize = 0;
    while i < generics.len()
        invariant
            0 <= i <= generics@.len(),
            gs == strs(generics@),
            first_repeat(gs, i as int) is None,
        decreases generics@.len() - i,
    {
        let mut j: usize = 0;
        while j < i
            invariant
                0 <= j <= i < generics@.len(),
                gs == strs(generics@),
                first_repeat(gs, i as int) is None,
                forall|k: int| 0 <= k < j ==> gs[k] != gs[i as int],
            decreases i - j,
        {
            if generics[j] == generics[i] {
                proof {
                    assert(gs.subrange(0, i as int)[j as int] == gs[i as int]);
                    assert(first_repeat(gs, i + 1) == Some(i as int));
                    lemma_first_repeat_stays(gs, i + 1, generics@.len() as int);
                }
                return Err(LowerError::DuplicateGenericParam { name: name.to_owned(), param: generics[i].clone() });
            }
            j += 1;
        }
        proof {
            assert(!gs.subrange(0, i as int).contains(gs[i as int])) by {
                if gs.subrange(0, i as int).contains(gs[i as int]) {
                    let k = choose|k: int| 0 <= k < i && gs.subrange(0, i as int)[k] == gs[i as int];
                    assert(gs[k] == gs[i as int]);
                }
            }
        }
        i += 1;
    }
    Ok(())
}

proof fn lemma_first_repeat_stays(gs: Seq<Seq<char>>, n: int, m: int)
    requires
        n <= m,
        first_repeat(gs, n) is Some,
    ensures
        first_repeat(gs, m) == first_repeat(gs, n),
    decreases m - n,
{
    if n < m {
        lemma_first_repeat_stays(gs, n, m - 1);
    }
}

fn reject_alias_capabilities(name: &str, capabilities: &Vec<String>) -> (r: Result<(), LowerError>)
    ensures
        capabilities@.len() == 0 ==> r is Ok,
        capabilities@.len() > 0 ==> (r matches Err(LowerError::UnsupportedAliasCapabilities { name: n })
            && n@ == name@),
{
    if capabilities.len() == 0 {
        Ok(())
    } else {
        Err(LowerError::UnsupportedAliasCapabilities { name: name.to_owned() })
    }
}

fn declared_capabilities(capabilities: &Vec<String>) -> (r: Result<DeclaredCapabilities, LowerError>)
    ensures
        match spec_declared(strs(capabilities@), capabilities@.len() as int) {
            Ok(d) => r == Ok::<DeclaredCapabilities, LowerError>(d),
            Err(c) => r matches Err(LowerError::UnknownCapability(s)) && s@ == c,
        },
{
    let ghost cs = strs(capabilities@);
    let dup_word = "Dup".to_owned();
    let zap_word = "Zap".to_owned();
    proof {
        reveal_strlit("Dup");
        reveal_strlit("Zap");
        assert(dup_word@ =~= cap_dup());
        assert(zap_word@ =~= cap_zap());
    }
    let mut declared = DeclaredCapabilities::linear();
    let mut i: usize = 0;
    while i < capabilities.len()
        invariant
            0 <= i <= capabilities@.len(),
            cs == strs(capabilities@),
            dup_word@ == cap_dup(),
            zap_word@ == cap_zap(),
            spec_declared(cs, i as int) == Ok::<DeclaredCapabilities, Seq<char>>(declared),
        decreases capabilities@.len() - i,
    {
        if capabilities[i] == dup_word {
            declared.dup = true;
        } else if capabilities[i] == zap_word {
            declared.zap = true;
        } else {
            proof {
                lemma_declared_err_stays(cs, i + 1, capabilities@.len() as int);
            }
            return Err(LowerError::UnknownCapability(capabilities[i].clone()));
        }
        i += 1;
    }
    Ok(declared)
}

proof fn lemma_declared_err_stays(cs: Seq<Seq<char>>, n: int, m: int)
    requires
        1 <= n <= m,
        spec_declared(cs, n) is Err,
    ensures
        spec_declared(cs, m) == spec_declared(cs, n),
    decreases m - n,
{
    if n < m {
        lemma_declared_err_stays(cs, n, m - 1);
    }
}

// ---------------------------------------------------------------------------
// Signatures
// ---------------------------------------------------------------------------

/// The types a function hands back in core form: each parameter that is
/// returned (changed or unchanged), in order.
pub open spec fn returned_param_types(ps: Seq<LoweredParam>) -> Seq<TypeId>
    decreases ps.len(),
{
    if ps.len() == 0 {
        Seq::empty()
    } else {
        let rest = returned_param_types(ps.drop_last());
        if ps.last().flow != ValueFlow::NotReturned {
            rest.push(ps.last().ty)
        } else {
            rest
        }
    }
}

/// The core outputs of a function: its returned parameters, then its
/// visible output unless that is `unit`.
pub open spec fn spec_core_outputs(unit: TypeId, ps: Seq<LoweredParam>, output: TypeId) -> Seq<TypeId> {
    if output != unit {
        returned_param_types(ps).push(output)
    } else {
        returned_param_types(ps)
    }
}

fn core_output_types(unit: TypeId, params: &Vec<LoweredParam>, output: TypeId) -> (r: Vec<TypeId>)
    ensures
        r@ == spec_core_outputs(unit, params@, output),
{
    let mut outputs: Vec<TypeId> = Vec::new();
    let mut i: usize = 0;
    while i < params.len()
        invariant
            0 <= i <= params@.len(),
            outputs@ == returned_param_types(params@.take(i as int)),
        decreases params@.len() - i,
    {
        proof {
            assert(params@.take(i + 1).drop_last() =~= params@.take(i as int));
        }
        if params[i].flow != ValueFlow::NotReturned {
            outputs.push(params[i].ty);
        }
        i += 1;
    }
    proof {
        assert(params@.take(params@.len() as int) =~= params@);
    }
    if output != unit {
        outputs.push(output);
    }
    outputs
}

/// The output a surface caller sees: none for `unit`.
pub open spec fn spec_visible_output(unit: TypeId, output: TypeId) -> Option<TypeId> {
    if output != unit {
        Some(output)
    } else {
        None
    }
}

fn visible_output(types: &TypeStore, output: TypeId) -> (r: Option<TypeId>)
    ensures
        r == spec_visible_output(types.spec_unit(), output),
{
    if output != types.unit() {
        Some(output)
    } else {
        None
    }
}

/// The name an impl target gives its methods in the core program: a named
/// type by its name, an applied generic as `Name<Arg,...>`; anonymous
/// targets have none.
pub open spec fn core_type_name(t: TypeV) -> Option<Seq<char>>
    decreases t, 0int,
{
    match t {
        TypeV::Name(n) => Some(n),
        TypeV::Apply(n, args) => match core_args_names(args, args.len() as int) {
            Some(j) => Some(n + seq!['<'] + j + seq!['>']),
            None => None,
        },
        _ => None,
    }
}

/// The core names of the first `k` arguments, joined by `,`.
pub open spec fn core_args_names(args: Seq<TypeV>, k: int) -> Option<Seq<char>>
    decreases args, k,
{
    if k <= 0 || k > args.len() {
        Some(Seq::empty())
    } else {
        match (core_args_names(args, k - 1), core_type_name(args[k - 1])) {
            (Some(a), Some(b)) => Some(
                if k == 1 {
                    b
                } else {
                    a + seq![','] + b
                },
            ),
            _ => None,
        }
    }
}

fn push_chars(out: &mut String, s: &str)
    ensures
        final(out)@ == old(out)@ + s@,
{
    let ghost start = out@;
    for c in it: s.chars()
        invariant
            it.seq() == s@,
            out@ == start + s@.take(it.index() as int),
    {
        proof {
            assert(s@.take(it.index() + 1) =~= s@.take(it.index() as int).push(c));
        }
        out.push(c);
    }
    assert(s@.take(s@.len() as int) =~= s@);
}

#[verifier::loop_isolation(false)]
fn type_expr_core_name(ty: &TypeExpr) -> (r: Result<String, LowerError>)
    ensures
        match core_type_name(type_view(*ty)) {
            Some(n) => r matches Ok(s) && s@ == n,
            None => r == Err::<String, LowerError>(LowerError::UnsupportedAnonymousImplTarget),
        },
    decreases ty,
{
    match ty {
        TypeExpr::Name(name) => Ok(name.clone()),
        TypeExpr::Apply { name, args } => {
            let ghost av = crate::frontend::ast::types_view(args@);
            proof {
                crate::frontend::parse::lemma_type_apply_view(*name, *args);
            }
            let mut out = name.clone();
            out.push('<');
            let ghost head = out@;
            let mut i: usize = 0;
            while i < args.len()
                invariant
                    0 <= i <= args@.len(),
                    av == crate::frontend::ast::types_view(args@),
                    av.len() == args@.len(),
                    head == name@ + seq!['<'],
                    core_args_names(av, i as int) matches Some(j) && out@ == head + j,
                decreases args@.len() - i,
            {
                let part = type_expr_core_name(&args[i]);
                match part {
                    Ok(p) => {
                        let ghost before = out@;
                        if i > 0 {
                            out.push(',');
                        }
                        push_chars(&mut out, p.as_str());
                        proof {
                            assert(av[i as int] == type_view(args@[i as int]));
                            let j = core_args_names(av, i as int)->0;
                            if i > 0 {
                                assert(out@ =~= head + (j + seq![','] + p@));
                            } else {
                                assert(j =~= Seq::<char>::empty());
                                assert(out@ =~= head + p@);
                            }
                        }
                    },
                    Err(e) => {
                        proof {
                            assert(av[i as int] == type_view(args@[i as int]));
                            lemma_core_args_none_stays(av, i + 1, av.len() as int);
                        }
                        return Err(e);
                    },
                }
                i += 1;
            }
            out.push('>');
            proof {
                let j = core_args_names(av, av.len() as int)->0;
                assert(out@ =~= name@ + seq!['<'] + j + seq!['>']);
            }
            Ok(out)
        },
        _ => Err(LowerError::UnsupportedAnonymousImplTarget),
    }
}

proof fn lemma_core_args_none_stays(args: Seq<TypeV>, n: int, m: int)
    requires
        1 <= n <= m <= args.len(),
        core_args_names(args, n) is None,
    ensures
        core_args_names(args, m) is None,
    decreases m - n,
{
    if n < m {
        lemma_core_args_none_stays(args, n, m - 1);
    }
}

// ---------------------------------------------------------------------------
// The model of type lowering
// ---------------------------------------------------------------------------

/// How deep generic instantiations may nest inside one another: as deep as
/// a `u32` counts, so the only instance refused as recursive is one that is
/// needed while it is being made.
pub const GENERIC_DEPTH_LIMIT: u32 = 0xFFFF_FFFF;

/// The nesting depth of a type expression; a product or sum counts two
/// levels above its deepest field.
pub open spec fn type_depth(t: TypeV) -> int
    decreases t, 0int,
{
    match t {
        TypeV::Apply(_, args) => 2 + args_depth(args, args.len() as int),
        TypeV::Product(fs) => 2 + fields_depth(fs, fs.len() as int),
        TypeV::Sum(fs) => 2 + fields_depth(fs, fs.len() as int),
        TypeV::Function(i, o) => {
            let a = type_depth(*i);
            let b = type_depth(*o);
            1 + if a < b {
                b
            } else {
                a
            }
        },
        _ => 1,
    }
}

/// The greatest depth among the first `k` arguments.
pub open spec fn args_depth(ts: Seq<TypeV>, k: int) -> int
    decreases ts, k,
{
    if k <= 0 || k > ts.len() {
        0
    } else {
        let a = args_depth(ts, k - 1);
        let b = type_depth(ts[k - 1]);
        if a < b {
            b
        } else {
            a
        }
    }
}

/// The greatest depth among the first `k` field types.
pub open spec fn fields_depth(fs: Seq<(Option<Seq<char>>, TypeV)>, k: int) -> int
    decreases fs, k,
{
    if k <= 0 || k > fs.len() {
        0
    } else {
        let a = fields_depth(fs, k - 1);
        let b = type_depth(fs[k - 1].1);
        if a < b {
            b
        } else {
            a
        }
    }
}

proof fn lemma_depth_positive(t: TypeV)
    ensures
        type_depth(t) >= 1,
    decreases t,
{
    match t {
        TypeV::Apply(_, args) => lemma_args_depth_nonneg(args, args.len() as int),
        TypeV::Product(fs) => lemma_fields_depth_nonneg(fs, fs.len() as int),
        TypeV::Sum(fs) => lemma_fields_depth_nonneg(fs, fs.len() as int),
        TypeV::Function(i, o) => {
            lemma_depth_positive(*i);
        },
        _ => {},
    }
}

proof fn lemma_args_depth_nonneg(ts: Seq<TypeV>, k: int)
    ensures
        args_depth(ts, k) >= 0,
    decreases k,
{
    if 0 < k <= ts.len() {
        lemma_args_depth_nonneg(ts, k - 1);
    }
}

proof fn lemma_fields_depth_nonneg(fs: Seq<(Option<Seq<char>>, TypeV)>, k: int)
    ensures
        fields_depth(fs, k) >= 0,
    decreases k,
{
    if 0 < k <= fs.len() {
        lemma_fields_depth_nonneg(fs, k - 1);
    }
}

proof fn lemma_arg_within(ts: Seq<TypeV>, k: int, i: int)
    requires
        0 <= i < k <= ts.len(),
    ensures
        type_depth(ts[i]) <= args_depth(ts, k),
    decreases k,
{
    if i < k - 1 {
        lemma_arg_within(ts, k - 1, i);
    }
}

proof fn lemma_field_within(fs: Seq<(Option<Seq<char>>, TypeV)>, k: int, i: int)
    requires
        0 <= i < k <= fs.len(),
    ensures
        type_depth(fs[i].1) <= fields_depth(fs, k),
    decreases k,
{
    if i < k - 1 {
        lemma_field_within(fs, k - 1, i);
    }
}

/// The binding of `n` in an environment: its first entry.
pub open spec fn env_lookup(env: Seq<(String, TypeId)>, n: Seq<char>) -> Option<TypeId>
    decreases env.len(),
{
    if env.len() == 0 {
        None
    } else if env[0].0@ == n {
        Some(env[0].1)
    } else {
        env_lookup(env.drop_first(), n)
    }
}

/// The name, in key form, of a component: a named one by its name, a
/// positional one by its index.
pub open spec fn comp_name_key(c: Component) -> (Option<Seq<char>>, int) {
    match c.name {
        ComponentName::Named(n) => (Some(n@), 0),
        ComponentName::Index(i) => (None, i as int),
    }
}

/// The name a surface field gives its component at position `i`.
pub open spec fn field_name_key(f: (Option<Seq<char>>, TypeV), i: int) -> (Option<Seq<char>>, int) {
    match f.0 {
        Some(n) => (Some(n), 0),
        None => (None, i),
    }
}

/// `comps` name exactly the fields `fs`, position by position.
pub open spec fn names_follow(comps: Seq<Component>, fs: Seq<(Option<Seq<char>>, TypeV)>) -> bool {
    &&& comps.len() == fs.len()
    &&& forall|i: int| 0 <= i < comps.len() ==> comp_name_key(#[trigger] comps[i]) == field_name_key(fs[i], i)
}

/// What a component's lowered type is fixed to by its field's type
/// expression `t`: `unit` for `()`; a name by the environment, then the
/// arena; a product, sum or function type by its kind, the components named
/// as the fields; an existing type in any case.
pub open spec fn field_type_fixed(t: TypeV, env: Seq<(String, TypeId)>, types: TypeStore, id: TypeId) -> bool {
    &&& types.valid(id)
    &&& match t {
        TypeV::Unit => id == types.spec_unit(),
        TypeV::Name(n) => match env_lookup(env, n) {
            Some(x) => id == x,
            None => types.spec_lookup(n) == Some(id),
        },
        TypeV::Product(fs) => types.spec_types()[id.0 as int].kind matches TypeKind::Product(cs) && names_follow(
            cs@,
            fs,
        ),
        TypeV::Sum(fs) => types.spec_types()[id.0 as int].kind matches TypeKind::Sum(cs) && names_follow(cs@, fs),
        TypeV::Function(_, _) => types.spec_types()[id.0 as int].kind is Function,
        TypeV::Apply(_, _) => true,
    }
}

/// Each component's type is fixed by its field's type expression.
pub open spec fn fields_fixed(
    cs: Seq<Component>,
    fs: Seq<(Option<Seq<char>>, TypeV)>,
    env: Seq<(String, TypeId)>,
    types: TypeStore,
) -> bool {
    forall|i: int| 0 <= i < cs.len() && i < fs.len() ==> field_type_fixed(fs[i].1, env, types, #[trigger] cs[i].ty)
}

proof fn lemma_field_fixed_stays(t: TypeV, env: Seq<(String, TypeId)>, a: TypeStore, b: TypeStore, id: TypeId)
    requires
        a.wf(),
        b.wf(),
        store_extends(a, b),
        field_type_fixed(t, env, a, id),
    ensures
        field_type_fixed(t, env, b, id),
{
    assert(b.spec_types()[id.0 as int] == b.spec_types().subrange(0, a.spec_types().len() as int)[id.0 as int]);
    if let TypeV::Name(n) = t {
        if env_lookup(env, n) is None {
            lemma_extends_lookup(a, b, n);
        }
    }
}

proof fn lemma_fields_fixed_stays(
    cs: Seq<Component>,
    fs: Seq<(Option<Seq<char>>, TypeV)>,
    env: Seq<(String, TypeId)>,
    a: TypeStore,
    b: TypeStore,
)
    requires
        a.wf(),
        b.wf(),
        store_extends(a, b),
        fields_fixed(cs, fs, env, a),
    ensures
        fields_fixed(cs, fs, env, b),
{
    assert forall|i: int| 0 <= i < cs.len() && i < fs.len() implies field_type_fixed(
        fs[i].1,
        env,
        b,
        #[trigger] cs[i].ty,
    ) by {
        lemma_field_fixed_stays(fs[i].1, env, a, b, cs[i].ty);
    }
}

/// The components of a product or sum kind.
pub open spec fn kind_parts(kind: TypeKind) -> Option<Seq<Component>> {
    match kind {
        TypeKind::Product(cs) => Some(cs@),
        TypeKind::Sum(cs) => Some(cs@),
        _ => None,
    }
}

pub open spec fn comp_key(c: Component) -> (Option<Seq<char>>, int, TypeId) {
    (comp_name_key(c).0, comp_name_key(c).1, c.ty)
}

pub open spec fn comp_keys(cs: Seq<Component>) -> Seq<(Option<Seq<char>>, int, TypeId)> {
    cs.map_values(|c: Component| comp_key(c))
}

/// An anonymous type shape.
pub enum AnonView {
    Product(Seq<(Option<Seq<char>>, int, TypeId)>),
    Sum(Seq<(Option<Seq<char>>, int, TypeId)>),
    Function(TypeId, TypeId),
}

enum AnonymousTypeKey {
    Product(Vec<Component>),
    Sum(Vec<Component>),
    Function { input: TypeId, output: TypeId },
}

spec fn anon_view(k: AnonymousTypeKey) -> AnonView {
    match k {
        AnonymousTypeKey::Product(cs) => AnonView::Product(comp_keys(cs@)),
        AnonymousTypeKey::Sum(cs) => AnonView::Sum(comp_keys(cs@)),
        AnonymousTypeKey::Function { input, output } => AnonView::Function(input, output),
    }
}

/// The shape of a type kind, where it is one that interning shares.
pub open spec fn kind_anon(kind: TypeKind) -> Option<AnonView> {
    match kind {
        TypeKind::Product(cs) => Some(AnonView::Product(comp_keys(cs@))),
        TypeKind::Sum(cs) => Some(AnonView::Sum(comp_keys(cs@))),
        TypeKind::Function { input, output } => Some(AnonView::Function(input, output)),
        _ => None,
    }
}

#[derive(Clone, Copy, PartialEq, Eq, Structural)]
enum GenericTypeKind {
    Alias,
    Struct,
    Enum,
}

/// A generic type item, kept aside until it is applied.
struct GenericTypeDef<'a> {
    kind: GenericTypeKind,
    def: &'a SurfaceTypeDef,
}

struct GenericTypeKey {
    name: String,
    args: Vec<TypeId>,
}

/// Some generic definition is named `n`.
spec fn generic_named(defs: Seq<GenericTypeDef>, n: Seq<char>) -> bool {
    exists|i: int| 0 <= i < defs.len() && (#[trigger] defs[i]).def.name@ == n
}

/// How many parameters the generic definition named `n` takes.
spec fn generic_arity(defs: Seq<GenericTypeDef>, n: Seq<char>) -> Option<int> {
    if generic_named(defs, n) {
        Some(
            defs[choose|i: int| 0 <= i < defs.len() && (#[trigger] defs[i]).def.name@ == n].def.generics@.len() as int,
        )
    } else {
        None
    }
}

/// The instance recorded for the generic `name` at `args`: the first record
/// of that key.
spec fn memo(insts: Seq<(GenericTypeKey, TypeId)>, name: Seq<char>, args: Seq<TypeId>) -> Option<TypeId>
    decreases insts.len(),
{
    if insts.len() == 0 {
        None
    } else if insts[0].0.name@ == name && insts[0].0.args@ == args {
        Some(insts[0].1)
    } else {
        memo(insts.drop_first(), name, args)
    }
}

/// The instance of the generic `name` at `args` is being made.
spec fn in_progress(keys: Seq<GenericTypeKey>, name: Seq<char>, args: Seq<TypeId>) -> bool {
    exists|j: int| 0 <= j < keys.len() && (#[trigger] keys[j]).name@ == name && keys[j].args@ == args
}

proof fn lemma_memo_at(insts: Seq<(GenericTypeKey, TypeId)>, i: int, name: Seq<char>, args: Seq<TypeId>)
    requires
        0 <= i < insts.len(),
        insts[i].0.name@ == name && insts[i].0.args@ == args,
        forall|k: int| 0 <= k < i ==> !((#[trigger] insts[k]).0.name@ == name && insts[k].0.args@ == args),
    ensures
        memo(insts, name, args) == Some(insts[i].1),
    decreases i,
{
    if i > 0 {
        assert(!(insts[0].0.name@ == name && insts[0].0.args@ == args));
        assert forall|k: int| 0 <= k < i - 1 implies !((#[trigger] insts.drop_first()[k]).0.name@ == name
            && insts.drop_first()[k].0.args@ == args) by {
            assert(insts.drop_first()[k] == insts[k + 1]);
        }
        lemma_memo_at(insts.drop_first(), i - 1, name, args);
    }
}

proof fn lemma_memo_none(insts: Seq<(GenericTypeKey, TypeId)>, name: Seq<char>, args: Seq<TypeId>)
    requires
        forall|k: int| 0 <= k < insts.len() ==> !((#[trigger] insts[k]).0.name@ == name && insts[k].0.args@ == args),
    ensures
        memo(insts, name, args) is None,
    decreases insts.len(),
{
    if insts.len() > 0 {
        assert(!(insts[0].0.name@ == name && insts[0].0.args@ == args));
        assert forall|k: int| 0 <= k < insts.len() - 1 implies !((#[trigger] insts.drop_first()[k]).0.name@ == name
            && insts.drop_first()[k].0.args@ == args) by {
            assert(insts.drop_first()[k] == insts[k + 1]);
        }
        lemma_memo_none(insts.drop_first(), name, args);
    }
}

proof fn lemma_memo_push(insts: Seq<(GenericTypeKey, TypeId)>, x: (GenericTypeKey, TypeId), name: Seq<char>, args: Seq<TypeId>)
    ensures
        memo(insts.push(x), name, args) == match memo(insts, name, args) {
            Some(t) => Some(t),
            None => if x.0.name@ == name && x.0.args@ == args {
                Some(x.1)
            } else {
                None
            },
        },
    decreases insts.len(),
{
    if insts.len() > 0 {
        assert(insts.push(x)[0] == insts[0]);
        assert(insts.push(x).drop_first() =~= insts.drop_first().push(x));
        lemma_memo_push(insts.drop_first(), x, name, args);
    } else {
        assert(insts.push(x)[0] == x);
        assert(insts.push(x).drop_first() =~= Seq::<(GenericTypeKey, TypeId)>::empty());
        assert(memo(Seq::<(GenericTypeKey, TypeId)>::empty(), name, args) is None);
    }
}

/// The generic definition named `n`.
spec fn generic_def_named<'a>(defs: Seq<GenericTypeDef<'a>>, n: Seq<char>) -> GenericTypeDef<'a> {
    defs[choose|i: int| 0 <= i < defs.len() && (#[trigger] defs[i]).def.name@ == n]
}

/// The environment binding generic parameters `gens` to `args`, pairwise.
spec fn generic_env(gens: Seq<String>, args: Seq<TypeId>) -> Seq<(String, TypeId)> {
    Seq::new(gens.len(), |k: int| (gens[k], args[k]))
}

/// `id` is an instance of a generic definition of kind `kind` whose body is
/// `t`, its parameters bound by `env`: a struct is a product named as its
/// fields, an enum a sum named as its variants, each of the type its type
/// expression fixes under `env`; an alias is the type its body fixes.
spec fn instance_shape(kind: GenericTypeKind, t: TypeV, env: Seq<(String, TypeId)>, types: TypeStore, id: TypeId) -> bool {
    match kind {
        GenericTypeKind::Alias => field_type_fixed(t, env, types, id),
        GenericTypeKind::Struct => types.valid(id) && (types.spec_types()[id.0 as int].kind matches TypeKind::Product(
            cs,
        ) && match t {
            TypeV::Product(fs) => names_follow(cs@, fs) && fields_fixed(cs@, fs, env, types),
            _ => cs@.len() == 0,
        }),
        GenericTypeKind::Enum => types.valid(id) && (types.spec_types()[id.0 as int].kind matches TypeKind::Sum(cs)
            && t matches TypeV::Sum(fs) && names_follow(cs@, fs) && fields_fixed(cs@, fs, env, types)),
    }
}

/// The body of a generic definition of kind `kind` lowers without fail
/// under `env` in an arena with room: it declares no capability, and its
/// fields (or, for an alias, its body) are `()` or names bound by `env` or
/// the arena.
spec fn instance_plain(kind: GenericTypeKind, td: SurfaceTypeDef, env: Seq<(String, TypeId)>, types: TypeStore) -> bool {
    &&& types.spec_types().len() < 0xFFFF_FFFF
    &&& match kind {
        GenericTypeKind::Alias => type_view(td.ty) is Unit || (type_view(td.ty) matches TypeV::Name(n) && (env_lookup(
            env,
            n,
        ) is Some || types.spec_lookup(n) is Some)),
        GenericTypeKind::Struct => td.capabilities@.len() == 0 && match type_view(td.ty) {
            TypeV::Product(fs) => fields_plain_in(fs, env, types),
            TypeV::Unit => true,
            _ => false,
        },
        GenericTypeKind::Enum => td.capabilities@.len() == 0 && match type_view(td.ty) {
            TypeV::Sum(fs) => fields_plain_in(fs, env, types),
            _ => false,
        },
    }
}

proof fn lemma_generic_def_at<'a>(defs: Seq<GenericTypeDef<'a>>, i: int)
    requires
        generic_names_distinct(defs),
        0 <= i < defs.len(),
    ensures
        generic_def_named(defs, defs[i].def.name@) == defs[i],
{
    let n = defs[i].def.name@;
    let k = choose|k: int| 0 <= k < defs.len() && (#[trigger] defs[k]).def.name@ == n;
    if k != i {
        if k < i {
            assert(defs[k].def.name@ != defs[i].def.name@);
        } else {
            assert(defs[i].def.name@ != defs[k].def.name@);
        }
    }
}

spec fn generic_names_distinct(defs: Seq<GenericTypeDef>) -> bool {
    forall|i: int, j: int|
        0 <= i < j < defs.len() ==> (#[trigger] defs[i]).def.name@ != (#[trigger] defs[j]).def.name@
}

proof fn lemma_generic_arity_at(defs: Seq<GenericTypeDef>, i: int)
    requires
        generic_names_distinct(defs),
        0 <= i < defs.len(),
    ensures
        generic_arity(defs, defs[i].def.name@) == Some(defs[i].def.generics@.len() as int),
{
    let n = defs[i].def.name@;
    assert(generic_named(defs, n));
    let k = choose|k: int| 0 <= k < defs.len() && (#[trigger] defs[k]).def.name@ == n;
    if k != i {
        if k < i {
            assert(defs[k].def.name@ != defs[i].def.name@);
        } else {
            assert(defs[i].def.name@ != defs[k].def.name@);
        }
    }
}

/// `new` holds every definition and name of `old`, in the same places.
pub open spec fn store_extends(old: TypeStore, new: TypeStore) -> bool {
    &&& old.spec_types().len() <= new.spec_types().len()
    &&& new.spec_types().subrange(0, old.spec_types().len() as int) == old.spec_types()
    &&& old.spec_names().len() <= new.spec_names().len()
    &&& new.spec_names().subrange(0, old.spec_names().len() as int) == old.spec_names()
    &&& new.spec_unit() == old.spec_unit()
    &&& new.spec_never() == old.spec_never()
}

proof fn lemma_extends_trans(a: TypeStore, b: TypeStore, c: TypeStore)
    requires
        store_extends(a, b),
        store_extends(b, c),
    ensures
        store_extends(a, c),
{
    assert(c.spec_types().subrange(0, a.spec_types().len() as int) =~= b.spec_types().subrange(
        0,
        a.spec_types().len() as int,
    ));
    assert(c.spec_names().subrange(0, a.spec_names().len() as int) =~= b.spec_names().subrange(
        0,
        a.spec_names().len() as int,
    ));
}

proof fn lemma_extends_refl(a: TypeStore)
    ensures
        store_extends(a, a),
{
    assert(a.spec_types().subrange(0, a.spec_types().len() as int) =~= a.spec_types());
    assert(a.spec_names().subrange(0, a.spec_names().len() as int) =~= a.spec_names());
}

/// What a store binds stays bound, to the same id, in a store that extends it.
proof fn lemma_extends_lookup(old: TypeStore, new: TypeStore, n: Seq<char>)
    requires
        old.wf(),
        new.wf(),
        store_extends(old, new),
        old.spec_lookup(n) is Some,
    ensures
        new.spec_lookup(n) == old.spec_lookup(n),
{
    crate::types::lemma_names_lookup_prefix(old.spec_names(), new.spec_names(), n);
}

struct TypeLowerer<'a> {
    types: TypeStore,
    anonymous: Vec<(AnonymousTypeKey, TypeId)>,
    generic_defs: Vec<GenericTypeDef<'a>>,
    generic_instantiations: Vec<(GenericTypeKey, TypeId)>,
    generic_in_progress: Vec<GenericTypeKey>,
}

impl<'a> TypeLowerer<'a> {
    /// The lowerer's invariant: a well-formed arena whose interned and
    /// instantiated ids exist, interned ids having the shape they were
    /// interned for, and generic names that the arena does not bind.
    spec fn inv(&self) -> bool {
        &&& self.types.wf()
        &&& forall|i: int|
            0 <= i < self.anonymous@.len() ==> {
                let (k, id) = #[trigger] self.anonymous@[i];
                &&& self.types.valid(id)
                &&& kind_anon(self.types.spec_types()[id.0 as int].kind) == Some(anon_view(k))
            }
        &&& forall|i: int|
            0 <= i < self.generic_instantiations@.len() ==> self.types.valid(
                (#[trigger] self.generic_instantiations@[i]).1,
            )
        &&& forall|i: int|
            0 <= i < self.generic_defs@.len() ==> self.types.spec_lookup(
                (#[trigger] self.generic_defs@[i]).def.name@,
            ) is None
        &&& generic_names_distinct(self.generic_defs@)
        &&& forall|j: int|
            0 <= j < self.generic_in_progress@.len() ==> memo(
                self.generic_instantiations@,
                (#[trigger] self.generic_in_progress@[j]).name@,
                self.generic_in_progress@[j].args@,
            ) is None
    }

    /// `self` moved on from `old`: the arena extended, the generic
    /// definitions and the instantiations in progress as they were.
    spec fn moved_on(&self, old: TypeLowerer<'a>) -> bool {
        &&& store_extends(old.types, self.types)
        &&& self.generic_defs@ == old.generic_defs@
        &&& self.generic_in_progress@ == old.generic_in_progress@
    }
}


// ---------------------------------------------------------------------------
// Lowering types, executed
// ---------------------------------------------------------------------------

/// Every id an environment binds exists in `types`.
pub open spec fn env_valid(env: Seq<(String, TypeId)>, types: TypeStore) -> bool {
    forall|i: int| 0 <= i < env.len() ==> types.valid((#[trigger] env[i]).1)
}

proof fn lemma_env_lookup_valid(env: Seq<(String, TypeId)>, types: TypeStore, n: Seq<char>)
    requires
        env_valid(env, types),
    ensures
        env_lookup(env, n) matches Some(t) ==> types.valid(t),
    decreases env.len(),
{
    if env.len() > 0 && env[0].0@ != n {
        assert forall|i: int| 0 <= i < env.drop_first().len() implies types.valid(
            (#[trigger] env.drop_first()[i]).1,
        ) by {
            assert(env.drop_first()[i] == env[i + 1]);
        }
        lemma_env_lookup_valid(env.drop_first(), types, n);
    }
}

proof fn lemma_env_valid_extends(env: Seq<(String, TypeId)>, old: TypeStore, new: TypeStore)
    requires
        env_valid(env, old),
        store_extends(old, new),
    ensures
        env_valid(env, new),
{
}

fn find_env(env: &Vec<(String, TypeId)>, n: &str) -> (r: Option<TypeId>)
    ensures
        r == env_lookup(env@, n@),
{
    let key: String = n.to_owned();
    let mut i: usize = 0;
    assert(env@.skip(0) =~= env@);
    while i < env.len()
        invariant
            0 <= i <= env@.len(),
            key@ == n@,
            env_lookup(env@, n@) == env_lookup(env@.skip(i as int), n@),
        decreases env@.len() - i,
    {
        let ghost rest = env@.skip(i as int);
        assert(rest[0] == env@[i as int]);
        if env[i].0 == key {
            return Some(env[i].1);
        }
        assert(rest.drop_first() =~= env@.skip(i + 1));
        i += 1;
    }
    None
}

fn ids_equal(a: &Vec<TypeId>, b: &Vec<TypeId>) -> (r: bool)
    ensures
        r == (a@ == b@),
{
    if a.len() != b.len() {
        return false;
    }
    let mut i: usize = 0;
    while i < a.len()
        invariant
            0 <= i <= a@.len() == b@.len(),
            forall|j: int| 0 <= j < i ==> a@[j] == b@[j],
        decreases a@.len() - i,
    {
        if a[i] != b[i] {
            return false;
        }
        i += 1;
    }
    assert(a@ =~= b@);
    true
}

fn copy_ids(a: &Vec<TypeId>) -> (r: Vec<TypeId>)
    ensures
        r@ == a@,
{
    let mut out: Vec<TypeId> = Vec::new();
    let mut i: usize = 0;
    while i < a.len()
        invariant
            0 <= i <= a@.len(),
            out@ == a@.take(i as int),
        decreases a@.len() - i,
    {
        proof {
            assert(a@.take(i + 1) =~= a@.take(i as int).push(a@[i as int]));
        }
        out.push(a[i]);
        i += 1;
    }
    assert(a@.take(a@.len() as int) =~= a@);
    out
}

fn component_equal(a: &Component, b: &Component) -> (r: bool)
    ensures
        r == (comp_key(*a) == comp_key(*b)),
{
    if a.ty != b.ty {
        return false;
    }
    match (&a.name, &b.name) {
        (ComponentName::Named(x), ComponentName::Named(y)) => *x == *y,
        (ComponentName::Index(x), ComponentName::Index(y)) => *x == *y,
        _ => false,
    }
}

fn components_equal(a: &Vec<Component>, b: &Vec<Component>) -> (r: bool)
    ensures
        r == (comp_keys(a@) == comp_keys(b@)),
{
    if a.len() != b.len() {
        assert(comp_keys(a@).len() != comp_keys(b@).len());
        return false;
    }
    let mut i: usize = 0;
    while i < a.len()
        invariant
            0 <= i <= a@.len() == b@.len(),
            forall|j: int| 0 <= j < i ==> comp_key(a@[j]) == comp_key(b@[j]),
        decreases a@.len() - i,
    {
        if !component_equal(&a[i], &b[i]) {
            assert(comp_keys(a@)[i as int] != comp_keys(b@)[i as int]);
            return false;
        }
        i += 1;
    }
    assert(comp_keys(a@) =~= comp_keys(b@));
    true
}

fn copy_component(c: &Component) -> (r: Component)
    ensures
        comp_key(r) == comp_key(*c),
{
    let name = match &c.name {
        ComponentName::Named(n) => ComponentName::Named(n.clone()),
        ComponentName::Index(i) => ComponentName::Index(*i),
    };
    Component { name, ty: c.ty }
}

fn copy_components(cs: &Vec<Component>) -> (r: Vec<Component>)
    ensures
        comp_keys(r@) == comp_keys(cs@),
        forall|i: int| 0 <= i < r@.len() ==> (#[trigger] r@[i]).ty == cs@[i].ty,
{
    let mut out: Vec<Component> = Vec::new();
    let mut i: usize = 0;
    while i < cs.len()
        invariant
            0 <= i <= cs@.len(),
            out@.len() == i,
            forall|j: int| 0 <= j < i ==> comp_key(#[trigger] out@[j]) == comp_key(cs@[j]),
        decreases cs@.len() - i,
    {
        out.push(copy_component(&cs[i]));
        i += 1;
    }
    assert(comp_keys(out@) =~= comp_keys(cs@));
    out
}

fn anon_equal(a: &AnonymousTypeKey, b: &AnonymousTypeKey) -> (r: bool)
    ensures
        r == (anon_view(*a) == anon_view(*b)),
{
    match (a, b) {
        (AnonymousTypeKey::Product(x), AnonymousTypeKey::Product(y)) => components_equal(x, y),
        (AnonymousTypeKey::Sum(x), AnonymousTypeKey::Sum(y)) => components_equal(x, y),
        (
            AnonymousTypeKey::Function { input: i1, output: o1 },
            AnonymousTypeKey::Function { input: i2, output: o2 },
        ) => *i1 == *i2 && *o1 == *o2,
        _ => false,
    }
}

fn copy_anon(k: &AnonymousTypeKey) -> (r: AnonymousTypeKey)
    ensures
        anon_view(r) == anon_view(*k),
{
    match k {
        AnonymousTypeKey::Product(cs) => AnonymousTypeKey::Product(copy_components(cs)),
        AnonymousTypeKey::Sum(cs) => AnonymousTypeKey::Sum(copy_components(cs)),
        AnonymousTypeKey::Function { input, output } => AnonymousTypeKey::Function {
            input: *input,
            output: *output,
        },
    }
}


proof fn lemma_lookup_push_other(names: Seq<(Seq<char>, TypeId)>, n: Seq<char>, id: TypeId, g: Seq<char>)
    requires
        g != n,
    ensures
        crate::types::names_lookup(names.push((n, id)), g) == crate::types::names_lookup(names, g),
    decreases names.len(),
{
    let p = names.push((n, id));
    if names.len() > 0 {
        assert(p[0] == names[0]);
        assert(p.drop_first() =~= names.drop_first().push((n, id)));
        lemma_lookup_push_other(names.drop_first(), n, id, g);
        if names[0].0 != g {
            assert(crate::types::names_lookup(p, g) == crate::types::names_lookup(p.drop_first(), g));
            assert(crate::types::names_lookup(names, g) == crate::types::names_lookup(names.drop_first(), g));
        }
    } else {
        assert(names.push((n, id))[0] == (n, id));
        assert(names.push((n, id)).drop_first() =~= Seq::<(Seq<char>, TypeId)>::empty());
    }
}

/// An anonymous addition leaves the names alone and extends the arena.
proof fn lemma_added_anonymous(
    old: TypeStore,
    new: TypeStore,
    kind: TypeKind,
    declared: DeclaredCapabilities,
    r: Result<TypeId, TypeError>,
)
    requires
        new.added_type(old, None, kind, declared, r),
    ensures
        store_extends(old, new),
        new.spec_names() == old.spec_names(),
        r matches Ok(id) ==> new.valid(id) && new.spec_types()[id.0 as int].kind == kind,
{
    if r is Err {
        lemma_extends_refl(old);
    } else {
        assert(new.spec_names().subrange(0, old.spec_names().len() as int) =~= old.spec_names());
    }
}

/// What lowering the type expression `t` gives, as far as it is fixed
/// before any generic is instantiated: `unit` for `()`, a name by the
/// environment, then the arena, with an arity error for a generic used
/// bare; an application checked against the generic's arity; a product,
/// sum or function type of that kind, its components named as the fields.
spec fn type_result(
    t: TypeV,
    env: Seq<(String, TypeId)>,
    old: TypeLowerer,
    new: TypeLowerer,
    r: Result<TypeId, LowerError>,
) -> bool {
    match t {
        TypeV::Unit => r == Ok::<TypeId, LowerError>(old.types.spec_unit()),
        TypeV::Name(n) => name_result(env, old, n, r),
        TypeV::Apply(n, args) => apply_result(old, n, args.len() as int, r),
        TypeV::Product(fs) => r matches Ok(id) ==> (new.types.spec_types()[id.0 as int].kind matches TypeKind::Product(
            cs,
        ) && names_follow(cs@, fs)),
        TypeV::Sum(fs) => r matches Ok(id) ==> (new.types.spec_types()[id.0 as int].kind matches TypeKind::Sum(cs)
            && names_follow(cs@, fs)),
        TypeV::Function(_, _) => r matches Ok(id) ==> new.types.spec_types()[id.0 as int].kind is Function,
    }
}

/// A lowered type expression is fixed as a field's type is.
proof fn lemma_type_result_fixed(t: TypeV, env: Seq<(String, TypeId)>, old: TypeLowerer, new: TypeLowerer, id: TypeId)
    requires
        old.types.wf(),
        new.types.wf(),
        store_extends(old.types, new.types),
        new.types.valid(id),
        type_result(t, env, old, new, Ok(id)),
    ensures
        field_type_fixed(t, env, new.types, id),
{
    if let TypeV::Name(n) = t {
        if env_lookup(env, n) is None {
            lemma_extends_lookup(old.types, new.types, n);
        }
    }
}

spec fn name_result(env: Seq<(String, TypeId)>, old: TypeLowerer, n: Seq<char>, r: Result<TypeId, LowerError>) -> bool {
    match env_lookup(env, n) {
        Some(t) => r == Ok::<TypeId, LowerError>(t),
        None => match old.types.spec_lookup(n) {
            Some(t) => r == Ok::<TypeId, LowerError>(t),
            None => match generic_arity(old.generic_defs@, n) {
                Some(k) => r matches Err(LowerError::BadGenericArity { name, expected, actual }) && name@ == n
                    && expected == k && actual == 0,
                None => r matches Err(LowerError::UnknownType(m)) && m@ == n,
            },
        },
    }
}

spec fn apply_result(old: TypeLowerer, n: Seq<char>, count: int, r: Result<TypeId, LowerError>) -> bool {
    match generic_arity(old.generic_defs@, n) {
        Some(k) => k != count ==> (r matches Err(LowerError::BadGenericArity { name, expected, actual }) && name@
            == n && expected == k && actual == count),
        None => match old.types.spec_lookup(n) {
            Some(_) => r matches Err(LowerError::BadGenericArity { name, expected, actual }) && name@ == n
                && expected == 0 && actual == count,
            None => r matches Err(LowerError::UnknownType(m)) && m@ == n,
        },
    }
}

proof fn lemma_keys_follow(cs: Seq<Component>, ds: Seq<Component>, fs: Seq<(Option<Seq<char>>, TypeV)>)
    requires
        comp_keys(cs) == comp_keys(ds),
        names_follow(ds, fs),
    ensures
        names_follow(cs, fs),
{
    assert(cs.len() == comp_keys(cs).len());
    assert forall|i: int| 0 <= i < cs.len() implies comp_name_key(#[trigger] cs[i]) == field_name_key(fs[i], i) by {
        assert(comp_keys(cs)[i] == comp_keys(ds)[i]);
        assert(comp_name_key(ds[i]) == field_name_key(fs[i], i));
    }
}

impl<'a> TypeLowerer<'a> {
    proof fn lemma_moved_on_trans(a: TypeLowerer<'a>, b: TypeLowerer<'a>, c: TypeLowerer<'a>)
        requires
            b.moved_on(a),
            c.moved_on(b),
        ensures
            c.moved_on(a),
    {
        lemma_extends_trans(a.types, b.types, c.types);
    }

    fn find_generic(&self, n: &str) -> (r: Option<usize>)
        ensures
            match r {
                Some(i) => i < self.generic_defs@.len() && self.generic_defs@[i as int].def.name@ == n@,
                None => !generic_named(self.generic_defs@, n@),
            },
    {
        let key: String = n.to_owned();
        let mut i: usize = 0;
        while i < self.generic_defs.len()
            invariant
                0 <= i <= self.generic_defs@.len(),
                key@ == n@,
                forall|j: int| 0 <= j < i ==> (#[trigger] self.generic_defs@[j]).def.name@ != n@,
            decreases self.generic_defs@.len() - i,
        {
            if self.generic_defs[i].def.name == key {
                return Some(i);
            }
            i += 1;
        }
        None
    }

    fn ensure_type_name_unused(&self, name: &str) -> (r: Result<(), LowerError>)
        ensures
            r is Ok <==> !generic_named(self.generic_defs@, name@),
            r is Err ==> (r matches Err(LowerError::Type(TypeError::DuplicateName(d))) && d@ == name@),
    {
        if self.find_generic(name).is_some() {
            Err(LowerError::Type(TypeError::DuplicateName(name.to_owned())))
        } else {
            Ok(())
        }
    }

    /// Interns an anonymous shape: the id already made for an equal shape,
    /// else a fresh linear type of that shape.
    fn intern_anonymous(&mut self, key: AnonymousTypeKey) -> (r: Result<TypeId, LowerError>)
        requires
            old(self).inv(),
        ensures
            final(self).inv(),
            final(self).moved_on(*old(self)),
            r matches Ok(id) ==> final(self).types.valid(id) && kind_anon(
                final(self).types.spec_types()[id.0 as int].kind,
            ) == Some(anon_view(key)),
    {
        let mut i: usize = 0;
        while i < self.anonymous.len()
            invariant
                0 <= i <= self.anonymous@.len(),
                self == old(self),
                self.inv(),
            decreases self.anonymous@.len() - i,
        {
            if anon_equal(&self.anonymous[i].0, &key) {
                let id = self.anonymous[i].1;
                proof {
                    lemma_extends_refl(self.types);
                    assert(self.anonymous@[i as int] == self.anonymous@[i as int]);
                }
                return Ok(id);
            }
            i += 1;
        }
        if self.types.type_count() >= 0xFFFF_FFFFusize {
            proof {
                lemma_extends_refl(self.types);
            }
            return Err(LowerError::CapacityExceeded);
        }
        let stored = copy_anon(&key);
        let ghost before = self.types;
        let ghost kv = anon_view(key);
        let added = match key {
            AnonymousTypeKey::Product(cs) => {
                let r = self.types.add_product(None, cs, DeclaredCapabilities::linear());
                proof {
                    if crate::types::components_error(before.spec_types().len() as int, cs@) is None {
                        lemma_added_anonymous(before, self.types, TypeKind::Product(cs), DeclaredCapabilities {
                            dup: false,
                            zap: false,
                        }, r);
                    } else {
                        lemma_extends_refl(before);
                    }
                }
                r
            },
            AnonymousTypeKey::Sum(cs) => {
                let r = self.types.add_sum(None, cs, DeclaredCapabilities::linear());
                proof {
                    if crate::types::components_error(before.spec_types().len() as int, cs@) is None {
                        lemma_added_anonymous(before, self.types, TypeKind::Sum(cs), DeclaredCapabilities {
                            dup: false,
                            zap: false,
                        }, r);
                    } else {
                        lemma_extends_refl(before);
                    }
                }
                r
            },
            AnonymousTypeKey::Function { input, output } => {
                let r = self.types.add_function(None, input, output);
                proof {
                    if before.valid(input) && before.valid(output) {
                        lemma_added_anonymous(
                            before,
                            self.types,
                            TypeKind::Function { input, output },
                            DeclaredCapabilities { dup: true, zap: true },
                            r,
                        );
                    } else {
                        lemma_extends_refl(before);
                    }
                }
                r
            },
        };
        let id = match added {
            Ok(id) => id,
            Err(e) => {
                return Err(LowerError::Type(e));
            },
        };
        proof {
            assert(kind_anon(self.types.spec_types()[id.0 as int].kind) == Some(kv));
            assert forall|j: int| 0 <= j < self.anonymous@.len() implies {
                let (k, t) = #[trigger] self.anonymous@[j];
                &&& self.types.valid(t)
                &&& kind_anon(self.types.spec_types()[t.0 as int].kind) == Some(anon_view(k))
            } by {
                let (k, t) = self.anonymous@[j];
                assert(before.valid(t));
                assert(self.types.spec_types()[t.0 as int] == before.spec_types().subrange(
                    0,
                    before.spec_types().len() as int,
                )[t.0 as int]);
            }
        }
        self.anonymous.push((stored, id));
        Ok(id)
    }
}


impl<'a> TypeLowerer<'a> {
    /// Lowers a type expression under an environment that binds generic
    /// parameters.
    fn lower_type(&mut self, ty: &TypeExpr, env: &Vec<(String, TypeId)>, fuel: u32) -> (r: Result<TypeId, LowerError>)
        requires
            old(self).inv(),
            env_valid(env@, old(self).types),
        ensures
            final(self).inv(),
            final(self).moved_on(*old(self)),
            r matches Ok(id) ==> final(self).types.valid(id),
            type_result(type_view(*ty), env@, *old(self), *final(self), r),
            type_view(*ty) is Unit || type_view(*ty) is Name ==> *final(self) == *old(self),
        decreases fuel, type_depth(type_view(*ty)),
    {
        match ty {
            TypeExpr::Unit => {
                proof {
                    lemma_extends_refl(self.types);
                }
                Ok(self.types.unit())
            },
            TypeExpr::Name(name) => {
                proof {
                    lemma_extends_refl(self.types);
                    lemma_env_lookup_valid(env@, self.types, name@);
                }
                if let Some(t) = find_env(env, name.as_str()) {
                    return Ok(t);
                }
                if let Some(t) = self.types.type_id(name.as_str()) {
                    proof {
                        crate::types::lemma_names_lookup_valid(self.types, name@);
                    }
                    return Ok(t);
                }
                if let Some(i) = self.find_generic(name.as_str()) {
                    proof {
                        lemma_generic_arity_at(self.generic_defs@, i as int);
                    }
                    return Err(
                        LowerError::BadGenericArity {
                            name: name.clone(),
                            expected: self.generic_defs[i].def.generics.len(),
                            actual: 0,
                        },
                    );
                }
                Err(LowerError::UnknownType(name.clone()))
            },
            TypeExpr::Apply { name, args } => {
                proof {
                    crate::frontend::parse::lemma_type_apply_view(*name, *args);
                    lemma_args_depth_nonneg(crate::frontend::ast::types_view(args@), args@.len() as int);
                    assert(crate::frontend::ast::types_view(args@).len() == args@.len());
                }
                self.lower_type_apply(name, args, env, fuel)
            },
            TypeExpr::Product(fields) => {
                proof {
                    crate::frontend::parse::lemma_type_product_view(*fields);
                    lemma_fields_depth_nonneg(crate::frontend::ast::type_fields_view(fields@), fields@.len() as int);
                    assert(crate::frontend::ast::type_fields_view(fields@).len() == fields@.len());
                }
                let ghost start = *self;
                let comps = match self.lower_components(fields, env, fuel) {
                    Ok(c) => c,
                    Err(e) => {
                        return Err(e);
                    },
                };
                let ghost mid = *self;
                let ghost ck = comp_keys(comps@);
                let r = self.intern_anonymous(AnonymousTypeKey::Product(comps));
                proof {
                    Self::lemma_moved_on_trans(start, mid, *self);
                    if let Ok(id) = r {
                        let kind = self.types.spec_types()[id.0 as int].kind;
                        if let TypeKind::Product(cs) = kind {
                            lemma_keys_follow(cs@, comps@, crate::frontend::ast::type_fields_view(fields@));
                        }
                    }
                }
                r
            },
            TypeExpr::Sum(fields) => {
                proof {
                    crate::frontend::parse::lemma_type_product_view(*fields);
                    lemma_fields_depth_nonneg(crate::frontend::ast::type_fields_view(fields@), fields@.len() as int);
                    assert(crate::frontend::ast::type_fields_view(fields@).len() == fields@.len());
                }
                let ghost start = *self;
                let comps = match self.lower_components(fields, env, fuel) {
                    Ok(c) => c,
                    Err(e) => {
                        return Err(e);
                    },
                };
                let ghost mid = *self;
                let r = self.intern_anonymous(AnonymousTypeKey::Sum(comps));
                proof {
                    Self::lemma_moved_on_trans(start, mid, *self);
                    if let Ok(id) = r {
                        let kind = self.types.spec_types()[id.0 as int].kind;
                        if let TypeKind::Sum(cs) = kind {
                            lemma_keys_follow(cs@, comps@, crate::frontend::ast::type_fields_view(fields@));
                        }
                    }
                }
                r
            },
            TypeExpr::Function { input, output } => {
                let ghost start = *self;
                proof {
                    lemma_depth_positive(type_view(**input));
                    lemma_depth_positive(type_view(**output));
                }
                let i = match self.lower_type(input, env, fuel) {
                    Ok(i) => i,
                    Err(e) => {
                        return Err(e);
                    },
                };
                let ghost mid = *self;
                proof {
                    lemma_env_valid_extends(env@, start.types, self.types);
                }
                let o = match self.lower_type(output, env, fuel) {
                    Ok(o) => o,
                    Err(e) => {
                        proof {
                            Self::lemma_moved_on_trans(start, mid, *self);
                        }
                        return Err(e);
                    },
                };
                let ghost mid2 = *self;
                let r = self.intern_anonymous(AnonymousTypeKey::Function { input: i, output: o });
                proof {
                    Self::lemma_moved_on_trans(start, mid, mid2);
                    Self::lemma_moved_on_trans(start, mid2, *self);
                }
                r
            },
        }
    }

    /// Lowers `name<args>`: a generic definition of that arity,
    /// instantiated at the lowered arguments.
    fn lower_type_apply(&mut self, name: &String, args: &Vec<TypeExpr>, env: &Vec<(String, TypeId)>, fuel: u32) -> (r:
        Result<TypeId, LowerError>)
        requires
            old(self).inv(),
            env_valid(env@, old(self).types),
        ensures
            final(self).inv(),
            final(self).moved_on(*old(self)),
            r matches Ok(id) ==> final(self).types.valid(id),
            apply_result(*old(self), name@, args@.len() as int, r),
        decreases fuel, 1 + args_depth(crate::frontend::ast::types_view(args@), args@.len() as int),
    {
        proof {
            lemma_extends_refl(self.types);
        }
        match self.find_generic(name.as_str()) {
            Some(gi) => {
                proof {
                    lemma_generic_arity_at(self.generic_defs@, gi as int);
                }
                let expected = self.generic_defs[gi].def.generics.len();
                if args.len() != expected {
                    return Err(LowerError::BadGenericArity { name: name.clone(), expected, actual: args.len() });
                }
                let ghost start = *self;
                let ghost av = crate::frontend::ast::types_view(args@);
                let mut concrete: Vec<TypeId> = Vec::new();
                let mut i: usize = 0;
                while i < args.len()
                    invariant
                        0 <= i <= args@.len(),
                        start == *old(self),
                        generic_arity(old(self).generic_defs@, name@) == Some(args@.len() as int),
                        av == crate::frontend::ast::types_view(args@),
                        self.inv(),
                        self.moved_on(start),
                        env_valid(env@, self.types),
                        concrete@.len() == i,
                        forall|j: int| 0 <= j < i ==> self.types.valid(#[trigger] concrete@[j]),
                    decreases args@.len() - i,
                {
                    proof {
                        assert(av.len() == args@.len());
                        lemma_arg_within(av, av.len() as int, i as int);
                        assert(av[i as int] == type_view(args@[i as int]));
                        lemma_depth_positive(av[i as int]);
                    }
                    let ghost before = *self;
                    let t = match self.lower_type(&args[i], env, fuel) {
                        Ok(t) => t,
                        Err(e) => {
                            proof {
                                Self::lemma_moved_on_trans(start, before, *self);
                            }
                            return Err(e);
                        },
                    };
                    proof {
                        Self::lemma_moved_on_trans(start, before, *self);
                        lemma_env_valid_extends(env@, before.types, self.types);
                    }
                    concrete.push(t);
                    i += 1;
                }
                let ghost before = *self;
                proof {
                    lemma_args_depth_nonneg(av, args@.len() as int);
                }
                let r = self.instantiate_generic_type(name.as_str(), concrete, fuel);
                proof {
                    Self::lemma_moved_on_trans(start, before, *self);
                }
                r
            },
            None => {
                if self.types.type_id(name.as_str()).is_some() {
                    Err(LowerError::BadGenericArity { name: name.clone(), expected: 0, actual: args.len() })
                } else {
                    Err(LowerError::UnknownType(name.clone()))
                }
            },
        }
    }

    /// Lowers the fields of a product or sum into components named as the
    /// fields, a field without a name by its position.
    fn lower_components(&mut self, fields: &Vec<Field<TypeExpr>>, env: &Vec<(String, TypeId)>, fuel: u32) -> (r:
        Result<Vec<Component>, LowerError>)
        requires
            old(self).inv(),
            env_valid(env@, old(self).types),
        ensures
            final(self).inv(),
            final(self).moved_on(*old(self)),
            r matches Ok(cs) ==> names_follow(cs@, crate::frontend::ast::type_fields_view(fields@)) && forall|i: int|
                0 <= i < cs@.len() ==> final(self).types.valid(#[trigger] cs@[i].ty),
            r matches Ok(cs) ==> fields_fixed(
                cs@,
                crate::frontend::ast::type_fields_view(fields@),
                env@,
                final(self).types,
            ),
            fields_plain_in(crate::frontend::ast::type_fields_view(fields@), env@, old(self).types) ==> r is Ok
                && *final(self) == *old(self),
            old(self).generic_defs@.len() == 0 ==> forall|k: int|
                #[trigger] fields_blocked_at(crate::frontend::ast::type_fields_view(fields@), env@, old(self).types, k)
                    ==> (r matches Err(e) && unresolved_type_error(
                    crate::frontend::ast::type_fields_view(fields@)[k].1,
                    old(self).types,
                    e,
                )),
            r matches Ok(cs) ==> forall|k: int|
                0 <= k < cs@.len() ==> ((#[trigger] cs@[k]).name matches ComponentName::Named(n) ==> Some(n@)
                    == crate::frontend::ast::type_fields_view(fields@)[k].0),
        decreases fuel, 1 + fields_depth(
            crate::frontend::ast::type_fields_view(fields@),
            fields@.len() as int,
        ),
    {
        let ghost start = *self;
        let ghost fv = crate::frontend::ast::type_fields_view(fields@);
        proof {
            lemma_extends_refl(self.types);
        }
        let mut out: Vec<Component> = Vec::new();
        let mut i: usize = 0;
        while i < fields.len()
            invariant
                0 <= i <= fields@.len(),
                start == *old(self),
                fv == crate::frontend::ast::type_fields_view(fields@),
                self.inv(),
                self.moved_on(start),
                env_valid(env@, self.types),
                out@.len() == i,
                forall|j: int|
                    0 <= j < i ==> comp_name_key(#[trigger] out@[j]) == field_name_key(fv[j], j) && self.types.valid(
                        out@[j].ty,
                    ),
                fields_fixed(out@, fv, env@, self.types),
                fields_plain_in(fv, env@, start.types) ==> *self == start,
                forall|k: int|
                    0 <= k < out@.len() ==> ((#[trigger] out@[k]).name matches ComponentName::Named(n) ==> Some(n@)
                        == fv[k].0),
                start.generic_defs@.len() == 0 ==> forall|k: int|
                    #[trigger] fields_blocked_at(fv, env@, start.types, k) ==> i <= k && *self == start,
            decreases fields@.len() - i,
        {
            proof {
                assert(fv.len() == fields@.len());
                lemma_field_within(fv, fv.len() as int, i as int);
                assert(fv[i as int].1 == type_view(fields@[i as int].value));
                lemma_depth_positive(fv[i as int].1);
            }
            let ghost before = *self;
            let t = match self.lower_type(&fields[i].value, env, fuel) {
                Ok(t) => t,
                Err(e) => {
                    proof {
                        Self::lemma_moved_on_trans(start, before, *self);
                        if fields_plain_in(fv, env@, start.types) {
                            assert(fv[i as int].0 == fv[i as int].0);
                        }
                        if start.generic_defs@.len() == 0 {
                            assert forall|k: int| #[trigger] fields_blocked_at(fv, env@, start.types, k) implies (Err::<
                                Vec<Component>,
                                LowerError,
                            >(e) matches Err(e2) && unresolved_type_error(fv[k].1, start.types, e2)) by {
                                if k > i {
                                    assert(fv[i as int].1 is Unit || fv[i as int].1 is Name);
                                }
                            }
                        }
                    }
                    return Err(e);
                },
            };
            proof {
                if start.generic_defs@.len() == 0 {
                    assert forall|k: int| #[trigger] fields_blocked_at(fv, env@, start.types, k) implies i + 1 <= k
                        && *self == start by {
                        if k == i {
                            assert(unresolved_type(fv[k].1, env@, start.types));
                        } else {
                            assert(fv[i as int].1 is Unit || fv[i as int].1 is Name);
                        }
                    }
                }
            }
            proof {
                Self::lemma_moved_on_trans(start, before, *self);
                lemma_env_valid_extends(env@, before.types, self.types);
                lemma_fields_fixed_stays(out@, fv, env@, before.types, self.types);
                lemma_type_result_fixed(fv[i as int].1, env@, before, *self, t);
                if fields_plain_in(fv, env@, start.types) {
                    assert(fv[i as int].0 == fv[i as int].0);
                }
                assert(fv[i as int].0 == opt_str(fields@[i as int].name));
            }
            let ghost out0 = out@;
            let c = match &fields[i].name {
                Some(n) => Component::named(n.as_str(), t),
                None => Component::positional(i, t),
            };
            out.push(c);
            proof {
                assert forall|j: int| 0 <= j < out@.len() && j < fv.len() implies field_type_fixed(
                    fv[j].1,
                    env@,
                    self.types,
                    #[trigger] out@[j].ty,
                ) by {
                    if j < i {
                        assert(out@[j] == out0[j]);
                    }
                }
                assert forall|j: int| 0 <= j < out@.len() implies ((#[trigger] out@[j]).name matches ComponentName::Named(
                    n,
                ) ==> Some(n@) == fv[j].0) by {
                    if j < i {
                        assert(out@[j] == out0[j]);
                    }
                }
            }
            i += 1;
        }
        Ok(out)
    }

    /// The instance of the generic definition `name` at `args`: made once
    /// and shared, refused while it is being made.
    fn instantiate_generic_type(&mut self, name: &str, args: Vec<TypeId>, fuel: u32) -> (r: Result<TypeId, LowerError>)
        requires
            old(self).inv(),
            forall|j: int| 0 <= j < args@.len() ==> old(self).types.valid(#[trigger] args@[j]),
        ensures
            final(self).inv(),
            final(self).moved_on(*old(self)),
            r matches Ok(id) ==> final(self).types.valid(id),
            generic_arity(old(self).generic_defs@, name@) is None ==> (r matches Err(LowerError::UnknownType(n))
                && n@ == name@),
            generic_arity(old(self).generic_defs@, name@) matches Some(k) ==> (k != args@.len() ==> (r matches Err(
                LowerError::BadGenericArity { name: n, expected, actual },
            ) && n@ == name@ && expected == k && actual == args@.len())),
            generic_arity(old(self).generic_defs@, name@) == Some(args@.len() as int) ==> match memo(
                old(self).generic_instantiations@,
                name@,
                args@,
            ) {
                Some(t) => r == Ok::<TypeId, LowerError>(t),
                None => in_progress(old(self).generic_in_progress@, name@, args@) ==> (r matches Err(
                    LowerError::RecursiveGenericType { name: n },
                ) && n@ == name@),
            },
            r matches Ok(t) ==> memo(final(self).generic_instantiations@, name@, args@) == Some(t),
            generic_arity(old(self).generic_defs@, name@) == Some(args@.len() as int) && memo(
                old(self).generic_instantiations@,
                name@,
                args@,
            ) is None ==> ({
                let g = generic_def_named(old(self).generic_defs@, name@);
                let env = generic_env(g.def.generics@, args@);
                &&& r matches Ok(t) ==> instance_shape(g.kind, type_view(g.def.ty), env, final(self).types, t)
                &&& !in_progress(old(self).generic_in_progress@, name@, args@) && fuel > 0 && instance_plain(
                    g.kind,
                    *g.def,
                    env,
                    old(self).types,
                ) ==> r is Ok
            }),
        decreases fuel, 0int,
    {
        proof {
            lemma_extends_refl(self.types);
        }
        let gi = match self.find_generic(name) {
            Some(i) => i,
            None => {
                return Err(LowerError::UnknownType(name.to_owned()));
            },
        };
        proof {
            lemma_generic_arity_at(self.generic_defs@, gi as int);
            lemma_generic_def_at(self.generic_defs@, gi as int);
        }
        let def: &'a SurfaceTypeDef = self.generic_defs[gi].def;
        let kind = self.generic_defs[gi].kind;
        if args.len() != def.generics.len() {
            return Err(LowerError::BadGenericArity {
                name: name.to_owned(),
                expected: def.generics.len(),
                actual: args.len(),
            });
        }
        let key_name: String = name.to_owned();
        let mut i: usize = 0;
        while i < self.generic_instantiations.len()
            invariant
                0 <= i <= self.generic_instantiations@.len(),
                self == old(self),
                self.inv(),
                key_name@ == name@,
                generic_arity(old(self).generic_defs@, name@) == Some(args@.len() as int),
                forall|k: int|
                    0 <= k < i ==> !((#[trigger] self.generic_instantiations@[k]).0.name@ == name@
                        && self.generic_instantiations@[k].0.args@ == args@),
            decreases self.generic_instantiations@.len() - i,
        {
            if self.generic_instantiations[i].0.name == key_name && ids_equal(
                &self.generic_instantiations[i].0.args,
                &args,
            ) {
                let t = self.generic_instantiations[i].1;
                proof {
                    assert(self.generic_instantiations@[i as int] == self.generic_instantiations@[i as int]);
                    lemma_extends_refl(self.types);
                    lemma_memo_at(self.generic_instantiations@, i as int, name@, args@);
                }
                return Ok(t);
            }
            i += 1;
        }
        proof {
            lemma_memo_none(self.generic_instantiations@, name@, args@);
        }
        let mut j: usize = 0;
        while j < self.generic_in_progress.len()
            invariant
                0 <= j <= self.generic_in_progress@.len(),
                self == old(self),
                self.inv(),
                key_name@ == name@,
                generic_arity(old(self).generic_defs@, name@) == Some(args@.len() as int),
                forall|k: int|
                    0 <= k < j ==> !((#[trigger] self.generic_in_progress@[k]).name@ == name@
                        && self.generic_in_progress@[k].args@ == args@),
            decreases self.generic_in_progress@.len() - j,
        {
            if self.generic_in_progress[j].name == key_name && ids_equal(&self.generic_in_progress[j].args, &args) {
                proof {
                    lemma_extends_refl(self.types);
                }
                return Err(LowerError::RecursiveGenericType { name: key_name });
            }
            j += 1;
        }
        assert(!in_progress(self.generic_in_progress@, name@, args@));
        if fuel == 0 {
            return Err(LowerError::RecursiveGenericType { name: key_name });
        }
        let mut env: Vec<(String, TypeId)> = Vec::new();
        let mut k: usize = 0;
        while k < args.len()
            invariant
                0 <= k <= args@.len() == def.generics@.len(),
                self == old(self),
                env_valid(env@, self.types),
                forall|j: int| 0 <= j < args@.len() ==> self.types.valid(#[trigger] args@[j]),
                env@.len() == k,
                forall|j: int| 0 <= j < k ==> #[trigger] env@[j] == (def.generics@[j], args@[j]),
            decreases args@.len() - k,
        {
            env.push((def.generics[k].clone(), args[k]));
            k += 1;
        }
        assert(env@ =~= generic_env(def.generics@, args@));
        let ghost before_push = *self;
        let key = GenericTypeKey { name: key_name.clone(), args: copy_ids(&args) };
        assert(key.name@ == name@ && key.args@ == args@);
        self.generic_in_progress.push(key);
        let ghost pushed = *self;
        proof {
            lemma_extends_refl(self.types);
            assert(self.generic_in_progress@[before_push.generic_in_progress@.len() as int] == key);
        }
        let result = self.instantiate_body(kind, def, name, &env, fuel - 1);
        proof {
            let last = before_push.generic_in_progress@.len() as int;
            assert(self.generic_in_progress@[last] == key);
        }
        self.generic_in_progress.pop();
        proof {
            assert(self.generic_in_progress@ =~= before_push.generic_in_progress@);
            lemma_extends_trans(before_push.types, pushed.types, self.types);
        }
        match result {
            Ok(t) => {
                let ghost insts0 = self.generic_instantiations@;
                let entry = (GenericTypeKey { name: key_name, args }, t);
                proof {
                    assert(memo(insts0, name@, args@) is None);
                    lemma_memo_push(insts0, entry, name@, args@);
                    assert forall|j: int| 0 <= j < self.generic_in_progress@.len() implies memo(
                        insts0.push(entry),
                        (#[trigger] self.generic_in_progress@[j]).name@,
                        self.generic_in_progress@[j].args@,
                    ) is None by {
                        let kj = self.generic_in_progress@[j];
                        lemma_memo_push(insts0, entry, kj.name@, kj.args@);
                        assert(old(self).generic_in_progress@[j] == kj);
                    }
                }
                self.generic_instantiations.push(entry);
                Ok(t)
            },
            Err(e) => Err(e),
        }
    }

    /// Builds one instance of a generic definition under the environment
    /// that binds its parameters.
    fn instantiate_body(
        &mut self,
        kind: GenericTypeKind,
        def: &'a SurfaceTypeDef,
        name: &str,
        env: &Vec<(String, TypeId)>,
        fuel: u32,
    ) -> (r: Result<TypeId, LowerError>)
        requires
            old(self).inv(),
            env_valid(env@, old(self).types),
        ensures
            final(self).inv(),
            final(self).moved_on(*old(self)),
            r matches Ok(id) ==> final(self).types.valid(id),
            r matches Ok(id) ==> instance_shape(kind, type_view(def.ty), env@, final(self).types, id),
            instance_plain(kind, *def, env@, old(self).types) ==> r is Ok,
        decreases fuel, type_depth(type_view(def.ty)) + 1,
    {
        proof {
            lemma_extends_refl(self.types);
            lemma_depth_positive(type_view(def.ty));
        }
        match kind {
            GenericTypeKind::Alias => {
                let ghost before = *self;
                let r = self.lower_type(&def.ty, env, fuel);
                proof {
                    if let Ok(id) = r {
                        lemma_type_result_fixed(type_view(def.ty), env@, before, *self, id);
                    }
                }
                r
            },
            GenericTypeKind::Struct => {
                let declared = match declared_capabilities(&def.capabilities) {
                    Ok(d) => d,
                    Err(e) => {
                        return Err(e);
                    },
                };
                let ghost start = *self;
                let fields = match &def.ty {
                    TypeExpr::Product(fs) => {
                        proof {
                            crate::frontend::parse::lemma_type_product_view(*fs);
                            lemma_fields_depth_nonneg(crate::frontend::ast::type_fields_view(fs@), fs@.len() as int);
                            assert(crate::frontend::ast::type_fields_view(fs@).len() == fs@.len());
                        }
                        match self.lower_components(fs, env, fuel) {
                            Ok(c) => c,
                            Err(e) => {
                                return Err(e);
                            },
                        }
                    },
                    TypeExpr::Unit => Vec::new(),
                    _ => {
                        return Err(LowerError::ExpectedStructBody { name: name.to_owned() });
                    },
                };
                let ghost mid = *self;
                let ghost cs = fields@;
                proof {
                    if instance_plain(kind, *def, env@, start.types) {
                        if let TypeV::Product(fs) = type_view(def.ty) {
                            assert forall|k: int| 0 <= k < cs.len() implies mid.types.valid((#[trigger] cs[k]).ty) && (cs[k].name matches ComponentName::Named(
                                n,
                            ) ==> n@.len() > 0) by {
                                assert(fs[k].0 == fs[k].0);
                            }
                        }
                    }
                }
                let r = self.add_anonymous_product(fields, declared, Ghost(start));
                proof {
                    if let Ok(id) = r {
                        if let TypeV::Product(fs) = type_view(def.ty) {
                            lemma_fields_fixed_stays(cs, fs, env@, mid.types, self.types);
                        }
                    }
                }
                r
            },
            GenericTypeKind::Enum => {
                let declared = match declared_capabilities(&def.capabilities) {
                    Ok(d) => d,
                    Err(e) => {
                        return Err(e);
                    },
                };
                let ghost start = *self;
                let variants = match &def.ty {
                    TypeExpr::Sum(fs) => {
                        proof {
                            crate::frontend::parse::lemma_type_product_view(*fs);
                            lemma_fields_depth_nonneg(crate::frontend::ast::type_fields_view(fs@), fs@.len() as int);
                            assert(crate::frontend::ast::type_fields_view(fs@).len() == fs@.len());
                        }
                        match self.lower_components(fs, env, fuel) {
                            Ok(c) => c,
                            Err(e) => {
                                return Err(e);
                            },
                        }
                    },
                    _ => {
                        return Err(LowerError::ExpectedEnumBody { name: name.to_owned() });
                    },
                };
                let ghost mid = *self;
                let ghost cs = variants@;
                proof {
                    if instance_plain(kind, *def, env@, start.types) {
                        if let TypeV::Sum(fs) = type_view(def.ty) {
                            assert forall|k: int| 0 <= k < cs.len() implies mid.types.valid((#[trigger] cs[k]).ty) && (cs[k].name matches ComponentName::Named(
                                n,
                            ) ==> n@.len() > 0) by {
                                assert(fs[k].0 == fs[k].0);
                            }
                        }
                    }
                }
                let r = self.add_anonymous_sum(variants, declared, Ghost(start));
                proof {
                    if let Ok(id) = r {
                        if let TypeV::Sum(fs) = type_view(def.ty) {
                            lemma_fields_fixed_stays(cs, fs, env@, mid.types, self.types);
                        }
                    }
                }
                r
            },
        }
    }

    /// Adds an unnamed product declaring `declared`.
    fn add_anonymous_product(&mut self, fields: Vec<Component>, declared: DeclaredCapabilities, Ghost(start): Ghost<
        TypeLowerer<'a>,
    >) -> (r: Result<TypeId, LowerError>)
        requires
            old(self).inv(),
            old(self).moved_on(start),
        ensures
            final(self).inv(),
            final(self).moved_on(start),
            r matches Ok(id) ==> final(self).types.valid(id) && final(self).types.spec_types()[id.0 as int].kind
                == TypeKind::Product(fields),
            store_extends(old(self).types, final(self).types),
            ({
                &&& old(self).types.spec_types().len() < 0xFFFF_FFFF
                &&& declared == (DeclaredCapabilities { dup: false, zap: false })
                &&& forall|k: int|
                    0 <= k < fields@.len() ==> old(self).types.valid((#[trigger] fields@[k]).ty) && (fields@[k].name matches ComponentName::Named(
                        n,
                    ) ==> n@.len() > 0)
            }) ==> r is Ok,
    {
        if self.types.type_count() >= 0xFFFF_FFFFusize {
            proof {
                lemma_extends_refl(self.types);
            }
            return Err(LowerError::CapacityExceeded);
        }
        let ghost before = *self;
        let r = self.types.add_product(None, fields, declared);
        proof {
            if forall|k: int|
                0 <= k < fields@.len() ==> before.types.valid((#[trigger] fields@[k]).ty) && (fields@[k].name matches ComponentName::Named(
                    n,
                ) ==> n@.len() > 0) {
                lemma_components_ok(before.types.spec_types().len() as int, fields@);
            }
            if crate::types::components_error(before.types.spec_types().len() as int, fields@) is None {
                lemma_added_anonymous(before.types, self.types, TypeKind::Product(fields), declared, r);
            } else {
                lemma_extends_refl(before.types);
            }
            Self::lemma_moved_on_trans(start, before, *self);
            self.lemma_inv_after_growth(before);
        }
        match r {
            Ok(t) => Ok(t),
            Err(e) => Err(LowerError::Type(e)),
        }
    }

    /// Adds an unnamed sum declaring `declared`.
    fn add_anonymous_sum(&mut self, variants: Vec<Component>, declared: DeclaredCapabilities, Ghost(start): Ghost<
        TypeLowerer<'a>,
    >) -> (r: Result<TypeId, LowerError>)
        requires
            old(self).inv(),
            old(self).moved_on(start),
        ensures
            final(self).inv(),
            final(self).moved_on(start),
            r matches Ok(id) ==> final(self).types.valid(id) && final(self).types.spec_types()[id.0 as int].kind
                == TypeKind::Sum(variants),
            store_extends(old(self).types, final(self).types),
            ({
                &&& old(self).types.spec_types().len() < 0xFFFF_FFFF
                &&& declared == (DeclaredCapabilities { dup: false, zap: false })
                &&& forall|k: int|
                    0 <= k < variants@.len() ==> old(self).types.valid((#[trigger] variants@[k]).ty) && (variants@[k].name matches ComponentName::Named(
                        n,
                    ) ==> n@.len() > 0)
            }) ==> r is Ok,
    {
        if self.types.type_count() >= 0xFFFF_FFFFusize {
            proof {
                lemma_extends_refl(self.types);
            }
            return Err(LowerError::CapacityExceeded);
        }
        let ghost before = *self;
        let r = self.types.add_sum(None, variants, declared);
        proof {
            if forall|k: int|
                0 <= k < variants@.len() ==> before.types.valid((#[trigger] variants@[k]).ty) && (variants@[k].name matches ComponentName::Named(
                    n,
                ) ==> n@.len() > 0) {
                lemma_components_ok(before.types.spec_types().len() as int, variants@);
            }
            if crate::types::components_error(before.types.spec_types().len() as int, variants@) is None {
                lemma_added_anonymous(before.types, self.types, TypeKind::Sum(variants), declared, r);
            } else {
                lemma_extends_refl(before.types);
            }
            Self::lemma_moved_on_trans(start, before, *self);
            self.lemma_inv_after_growth(before);
        }
        match r {
            Ok(t) => Ok(t),
            Err(e) => Err(LowerError::Type(e)),
        }
    }

    /// The invariant survives growth of the arena that binds no new name.
    proof fn lemma_inv_after_growth(&self, before: TypeLowerer<'a>)
        requires
            before.inv(),
            self.types.wf(),
            store_extends(before.types, self.types),
            self.types.spec_names() == before.types.spec_names(),
            self.anonymous@ == before.anonymous@,
            self.generic_instantiations@ == before.generic_instantiations@,
            self.generic_defs@ == before.generic_defs@,
            self.generic_in_progress@ == before.generic_in_progress@,
        ensures
            self.inv(),
    {
        assert forall|j: int| 0 <= j < self.anonymous@.len() implies {
            let (k, t) = #[trigger] self.anonymous@[j];
            &&& self.types.valid(t)
            &&& kind_anon(self.types.spec_types()[t.0 as int].kind) == Some(anon_view(k))
        } by {
            let (k, t) = self.anonymous@[j];
            assert(before.anonymous@[j] == self.anonymous@[j]);
            assert(self.types.spec_types()[t.0 as int] == before.types.spec_types().subrange(
                0,
                before.types.spec_types().len() as int,
            )[t.0 as int]);
        }
        assert forall|j: int| 0 <= j < self.generic_instantiations@.len() implies self.types.valid(
            (#[trigger] self.generic_instantiations@[j]).1,
        ) by {
            assert(before.generic_instantiations@[j] == self.generic_instantiations@[j]);
        }
        assert forall|j: int| 0 <= j < self.generic_defs@.len() implies self.types.spec_lookup(
            (#[trigger] self.generic_defs@[j]).def.name@,
        ) is None by {
            assert(before.generic_defs@[j] == self.generic_defs@[j]);
        }
    }
}


proof fn lemma_lookup_push_self(names: Seq<(Seq<char>, TypeId)>, n: Seq<char>, id: TypeId)
    requires
        crate::types::names_lookup(names, n) is None,
    ensures
        crate::types::names_lookup(names.push((n, id)), n) == Some(id),
    decreases names.len(),
{
    let p = names.push((n, id));
    if names.len() > 0 {
        assert(p[0] == names[0]);
        assert(p.drop_first() =~= names.drop_first().push((n, id)));
        lemma_lookup_push_self(names.drop_first(), n, id);
    } else {
        assert(p[0] == (n, id));
    }
}

/// A named addition binds its name to the new id and leaves every other
/// name as it was.
proof fn lemma_added_named(
    old: TypeStore,
    new: TypeStore,
    n: Seq<char>,
    kind: TypeKind,
    declared: DeclaredCapabilities,
    r: Result<TypeId, TypeError>,
)
    requires
        new.added_type(old, Some(n), kind, declared, r),
    ensures
        r is Err ==> new == old,
        r matches Ok(id) ==> {
            &&& store_extends(old, new)
            &&& new.valid(id)
            &&& new.spec_types()[id.0 as int].kind == kind
            &&& old.spec_lookup(n) is None
            &&& new.spec_lookup(n) == Some(id)
            &&& forall|g: Seq<char>| g != n ==> #[trigger] new.spec_lookup(g) == old.spec_lookup(g)
        },
{
    if let Ok(id) = r {
        assert(new.spec_names() == old.spec_names().push((n, id)));
        assert(new.spec_names().subrange(0, old.spec_names().len() as int) =~= old.spec_names());
        lemma_lookup_push_self(old.spec_names(), n, id);
        assert forall|g: Seq<char>| g != n implies #[trigger] new.spec_lookup(g) == old.spec_lookup(g) by {
            lemma_lookup_push_other(old.spec_names(), n, id, g);
        }
    }
}

/// The names of the standard types: the unsigned integers, `Symbol`,
/// `Text`, the linear `Token` and `Bool`.
pub open spec fn standard_names() -> Seq<Seq<char>> {
    seq![
        seq!['U', '8'],
        seq!['U', '1', '6'],
        seq!['U', '3', '2'],
        seq!['U', '6', '4'],
        seq!['S', 'y', 'm', 'b', 'o', 'l'],
        seq!['T', 'e', 'x', 't'],
        seq!['T', 'o', 'k', 'e', 'n'],
        seq!['B', 'o', 'o', 'l'],
    ]
}

/// The names an arena binds before any item: `Never`, `Unit`, then the
/// standard names.
pub open spec fn base_names() -> Seq<Seq<char>> {
    seq![seq!['N', 'e', 'v', 'e', 'r'], seq!['U', 'n', 'i', 't']] + standard_names()
}

proof fn lemma_base_names_distinct()
    ensures
        base_names().len() == 10,
        forall|i: int, j: int| 0 <= i < j < 10 ==> base_names()[i] != base_names()[j],
{
    let b = base_names();
    assert(b.len() == 10);
    assert forall|i: int, j: int| 0 <= i < j < 10 implies b[i] != b[j] by {
        assert(b[i].len() != b[j].len() || b[i][0] != b[j][0] || b[i][1] != b[j][1] || b[i][2] != b[j][2]);
    }
}

/// Every standard name is bound in `t`.
pub open spec fn standard_types_bound(t: TypeStore) -> bool {
    forall|i: int| 0 <= i < standard_names().len() ==> t.spec_lookup(#[trigger] standard_names()[i]) is Some
}

/// No standard name binds `unit`, the unit type.
pub open spec fn standard_types_apart(t: TypeStore) -> bool {
    forall|i: int| 0 <= i < standard_names().len() ==> t.spec_lookup(#[trigger] standard_names()[i]) != Some(t.spec_unit())
}

/// The standard unsigned integers `U8` to `U64` are finite types of `t`.
pub open spec fn standard_types_finite(t: TypeStore) -> bool {
    forall|i: int|
        0 <= i < 4 ==> (t.spec_lookup(#[trigger] standard_names()[i]) matches Some(id) && id.0 < t.spec_types().len()
            && t.spec_types()[id.0 as int].kind is Finite)
}

/// Those of the first `k` standard names that are unsigned integers are
/// finite types of `t`.
spec fn standard_prefix_finite(t: TypeStore, k: int) -> bool {
    forall|i: int|
        0 <= i < k && i < 4 ==> (t.spec_lookup(#[trigger] standard_names()[i]) matches Some(id) && id.0
            < t.spec_types().len() && t.spec_types()[id.0 as int].kind is Finite)
}

/// None of the first `k` standard names binds the unit type.
spec fn standard_prefix_apart(t: TypeStore, k: int) -> bool {
    forall|i: int| 0 <= i < k ==> t.spec_lookup(#[trigger] standard_names()[i]) != Some(t.spec_unit())
}

/// The first `k` standard names are bound in `t`.
spec fn standard_prefix_bound(t: TypeStore, k: int) -> bool {
    forall|i: int| 0 <= i < k ==> t.spec_lookup(#[trigger] standard_names()[i]) is Some
}

proof fn lemma_standard_step(
    old: TypeStore,
    new: TypeStore,
    k: int,
    kind: TypeKind,
    declared: DeclaredCapabilities,
    r: Result<TypeId, TypeError>,
)
    requires
        0 <= k < standard_names().len(),
        standard_prefix_bound(old, k),
        standard_prefix_apart(old, k),
        standard_prefix_finite(old, k),
        k < 4 ==> kind is Finite,
        old.wf(),
        new.added_type(old, Some(standard_names()[k]), kind, declared, r),
        r is Ok,
    ensures
        standard_prefix_bound(new, k + 1),
        standard_prefix_apart(new, k + 1),
        standard_prefix_finite(new, k + 1),
        store_extends(old, new),
        new.spec_types().len() == old.spec_types().len() + 1,
{
    let n = standard_names()[k];
    lemma_added_named(old, new, n, kind, declared, r);
    assert forall|i: int| 0 <= i < k + 1 implies new.spec_lookup(#[trigger] standard_names()[i]) != Some(
        new.spec_unit(),
    ) by {
        if i < k {
            assert(standard_names()[i] != n);
        }
    }
    assert forall|i: int| 0 <= i < k + 1 && i < 4 implies (new.spec_lookup(#[trigger] standard_names()[i]) matches Some(
        id,
    ) && id.0 < new.spec_types().len() && new.spec_types()[id.0 as int].kind is Finite) by {
        if i < k {
            assert(standard_names()[i] != n);
            let id = old.spec_lookup(standard_names()[i])->0;
            assert(new.spec_types()[id.0 as int] == new.spec_types().subrange(0, old.spec_types().len() as int)[id.0 as int]);
        }
    }
    assert forall|i: int| 0 <= i < k + 1 implies new.spec_lookup(#[trigger] standard_names()[i]) is Some by {
        if i < k {
            assert(old.spec_lookup(standard_names()[i]) is Some);
            assert(standard_names()[i] != n);
        }
    }
}

/// The arena with the standard types: `U8`, `U16`, `U32`, `U64`, `Symbol`,
/// `Text`, the linear primitive `Token`, and `Bool` as the linear sum of
/// `false` and `true`.
/// Adding the next standard type to an arena that binds exactly the base
/// names before it succeeds, and binds that one more.
proof fn lemma_base_step(
    old: TypeStore,
    new: TypeStore,
    k: int,
    kind: TypeKind,
    declared: DeclaredCapabilities,
    r: Result<TypeId, TypeError>,
)
    requires
        0 <= k < 8,
        old.wf(),
        new.added_type(old, Some(standard_names()[k]), kind, declared, r),
        forall|n: Seq<char>| #[trigger] old.spec_lookup(n) is Some <==> base_names().subrange(0, k + 2).contains(n),
        old.spec_types().len() == k + 2,
        kind is Primitive || crate::types::caps_allow(
            crate::types::spec_structural_capabilities(old.spec_types(), kind),
            crate::types::declared_caps(declared),
        ),
    ensures
        r is Ok,
        forall|n: Seq<char>| #[trigger] new.spec_lookup(n) is Some <==> base_names().subrange(0, k + 3).contains(n),
        new.spec_types().len() == k + 3,
{
    lemma_base_names_distinct();
    let b = base_names();
    assert(b[k + 2] == standard_names()[k]);
    assert(!b.subrange(0, k + 2).contains(b[k + 2])) by {
        if b.subrange(0, k + 2).contains(b[k + 2]) {
            let j = choose|j: int| 0 <= j < k + 2 && #[trigger] b.subrange(0, k + 2)[j] == b[k + 2];
            assert(b[j] == b[k + 2]);
        }
    }
    assert(standard_names()[k].len() > 0);
    lemma_added_named(old, new, standard_names()[k], kind, declared, r);
    assert forall|n: Seq<char>| #[trigger] new.spec_lookup(n) is Some <==> b.subrange(0, k + 3).contains(n) by {
        if n == b[k + 2] {
            assert(b.subrange(0, k + 3)[k + 2] == n);
        } else {
            if b.subrange(0, k + 3).contains(n) {
                let j = choose|j: int| 0 <= j < k + 3 && #[trigger] b.subrange(0, k + 3)[j] == n;
                assert(b.subrange(0, k + 2)[j] == n);
            }
            if b.subrange(0, k + 2).contains(n) {
                let j = choose|j: int| 0 <= j < k + 2 && #[trigger] b.subrange(0, k + 2)[j] == n;
                assert(b.subrange(0, k + 3)[j] == n);
            }
        }
    }
}

fn standard_store() -> (r: Result<TypeStore, LowerError>)
    ensures
        r matches Ok(t) ==> t.wf() && standard_types_bound(t) && standard_types_apart(t) && standard_types_finite(t),
        r is Ok,
        r matches Ok(t) ==> t.spec_types().len() == 10 && forall|n: Seq<char>| #[trigger] t.spec_lookup(n) is Some
            <==> base_names().contains(n),
{
    let mut types = TypeStore::new();
    proof {
        reveal_strlit("Never");
        reveal_strlit("Unit");
        let b = base_names();
        assert("Never"@ =~= b[0]);
        assert("Unit"@ =~= b[1]);
        assert forall|n: Seq<char>| #[trigger] types.spec_lookup(n) is Some <==> b.subrange(0, 2).contains(n) by {
            crate::types::lemma_names_lookup_some(types.spec_names(), n);
            if b.subrange(0, 2).contains(n) {
                let j = choose|j: int| 0 <= j < 2 && #[trigger] b.subrange(0, 2)[j] == n;
                assert(types.spec_names()[j].0 == n);
            }
            if types.spec_lookup(n) is Some {
                let j = choose|j: int| 0 <= j < types.spec_names().len() && #[trigger] types.spec_names()[j].0 == n;
                assert(b.subrange(0, 2)[j] == n);
            }
        }
    }
    proof {
        reveal_strlit("U8");
        reveal_strlit("U16");
        reveal_strlit("U32");
        reveal_strlit("U64");
        reveal_strlit("Symbol");
        reveal_strlit("Text");
        reveal_strlit("Token");
        reveal_strlit("Bool");
        reveal_strlit("false");
        reveal_strlit("true");
        assert("U8"@ =~= standard_names()[0]);
        assert("U16"@ =~= standard_names()[1]);
        assert("U32"@ =~= standard_names()[2]);
        assert("U64"@ =~= standard_names()[3]);
        assert("Symbol"@ =~= standard_names()[4]);
        assert("Text"@ =~= standard_names()[5]);
        assert("Token"@ =~= standard_names()[6]);
        assert("Bool"@ =~= standard_names()[7]);
    }
    let ghost s0 = types;
    let r = types.add_uint("U8", 8);
    proof {
        lemma_base_step(s0, types, 0, TypeKind::Finite { values: vstd::arithmetic::power2::pow2(8u32 as nat) as u128 }, DeclaredCapabilities { dup: true, zap: true }, r);
    }
    if let Err(e) = r {
        return Err(LowerError::Type(e));
    }
    proof {
        lemma_standard_step(s0, types, 0, TypeKind::Finite { values: vstd::arithmetic::power2::pow2(8u32 as nat) as u128 }, DeclaredCapabilities { dup: true, zap: true }, r);
    }
    let ghost s1 = types;
    let r = types.add_uint("U16", 16);
    proof {
        lemma_base_step(s1, types, 1, TypeKind::Finite { values: vstd::arithmetic::power2::pow2(16u32 as nat) as u128 }, DeclaredCapabilities { dup: true, zap: true }, r);
    }
    if let Err(e) = r {
        return Err(LowerError::Type(e));
    }
    proof {
        lemma_standard_step(s1, types, 1, TypeKind::Finite { values: vstd::arithmetic::power2::pow2(16u32 as nat) as u128 }, DeclaredCapabilities { dup: true, zap: true }, r);
    }
    let ghost s2 = types;
    let r = types.add_uint("U32", 32);
    proof {
        lemma_base_step(s2, types, 2, TypeKind::Finite { values: vstd::arithmetic::power2::pow2(32u32 as nat) as u128 }, DeclaredCapabilities { dup: true, zap: true }, r);
    }
    if let Err(e) = r {
        return Err(LowerError::Type(e));
    }
    proof {
        lemma_standard_step(s2, types, 2, TypeKind::Finite { values: vstd::arithmetic::power2::pow2(32u32 as nat) as u128 }, DeclaredCapabilities { dup: true, zap: true }, r);
    }
    let ghost s3 = types;
    let r = types.add_uint("U64", 64);
    proof {
        lemma_base_step(s3, types, 3, TypeKind::Finite { values: vstd::arithmetic::power2::pow2(64u32 as nat) as u128 }, DeclaredCapabilities { dup: true, zap: true }, r);
    }
    if let Err(e) = r {
        return Err(LowerError::Type(e));
    }
    proof {
        lemma_standard_step(s3, types, 3, TypeKind::Finite { values: vstd::arithmetic::power2::pow2(64u32 as nat) as u128 }, DeclaredCapabilities { dup: true, zap: true }, r);
    }
    let ghost s4 = types;
    let r = types.add_symbol("Symbol");
    proof {
        lemma_base_step(s4, types, 4, TypeKind::Symbol, DeclaredCapabilities { dup: true, zap: true }, r);
    }
    if let Err(e) = r {
        return Err(LowerError::Type(e));
    }
    proof {
        lemma_standard_step(s4, types, 4, TypeKind::Symbol, DeclaredCapabilities { dup: true, zap: true }, r);
    }
    let ghost s5 = types;
    let r = types.add_text("Text");
    proof {
        lemma_base_step(s5, types, 5, TypeKind::Text, DeclaredCapabilities { dup: true, zap: true }, r);
    }
    if let Err(e) = r {
        return Err(LowerError::Type(e));
    }
    proof {
        lemma_standard_step(s5, types, 5, TypeKind::Text, DeclaredCapabilities { dup: true, zap: true }, r);
    }
    let ghost s6 = types;
    let r = types.add_primitive("Token", DeclaredCapabilities::linear());
    proof {
        lemma_base_step(s6, types, 6, TypeKind::Primitive, DeclaredCapabilities { dup: false, zap: false }, r);
    }
    if let Err(e) = r {
        return Err(LowerError::Type(e));
    }
    proof {
        lemma_standard_step(s6, types, 6, TypeKind::Primitive, DeclaredCapabilities { dup: false, zap: false }, r);
    }
    let unit = types.unit();
    let mut variants: Vec<Component> = Vec::new();
    variants.push(Component::named("false", unit));
    variants.push(Component::named("true", unit));
    let ghost s7 = types;
    let r = types.add_sum(Some("Bool".to_owned()), variants, DeclaredCapabilities::linear());
    proof {
        assert(types.valid(unit));
        assert(crate::types::components_error(s7.spec_types().len() as int, variants@) is None) by {
            let len = s7.spec_types().len() as int;
            let v = variants@;
            assert(s7.valid(unit));
            assert(v.drop_first().drop_first() =~= Seq::<Component>::empty());
            assert(crate::types::components_error(len, v.drop_first().drop_first()) is None);
            assert(v.drop_first()[0] == v[1]);
            assert("false"@.len() > 0 && "true"@.len() > 0);
            assert(crate::types::components_error(len, v.drop_first()) is None);
        }
        lemma_base_step(s7, types, 7, TypeKind::Sum(variants), DeclaredCapabilities { dup: false, zap: false }, r);
        assert(base_names().subrange(0, 10) =~= base_names());
    }
    if let Err(e) = r {
        return Err(LowerError::Type(e));
    }
    proof {
        assert(types.valid(unit));
        lemma_standard_step(s7, types, 7, TypeKind::Sum(variants), DeclaredCapabilities { dup: false, zap: false }, r);
    }
    Ok(types)
}

/// The name a struct or enum item binds.
pub open spec fn item_type_name(item: Item) -> Option<Seq<char>> {
    match item {
        Item::Struct(td) => Some(td.name@),
        Item::Enum(td) => Some(td.name@),
        _ => None,
    }
}

/// `n` is bound before item `i` of `items`: a base name, or the name of an
/// earlier struct or enum.
pub open spec fn bound_before(items: Seq<Item>, i: int, n: Seq<char>) -> bool {
    base_names().contains(n) || exists|j: int| 0 <= j < i && #[trigger] item_type_name(items[j]) == Some(n)
}

/// Fields of which each is named, if at all, by a non-empty name, and is of
/// type `()` or of a type bound before item `i` by name.
pub open spec fn plain_fields(fs: Seq<(Option<Seq<char>>, TypeV)>, items: Seq<Item>, i: int) -> bool {
    forall|k: int|
        0 <= k < fs.len() ==> {
            &&& ((#[trigger] fs[k]).0 matches Some(n) ==> n.len() > 0)
            &&& (fs[k].1 is Unit || (fs[k].1 matches TypeV::Name(n) && bound_before(items, i, n)))
        }
}

/// A type that does not resolve where names bound in `env` or `types` do:
/// a name bound in neither, or any application (no generic is defined).
pub open spec fn unresolved_type(t: TypeV, env: Seq<(String, TypeId)>, types: TypeStore) -> bool {
    match t {
        TypeV::Name(n) => env_lookup(env, n) is None && types.spec_lookup(n) is None,
        TypeV::Apply(_, _) => true,
        _ => false,
    }
}

/// The error of resolving the unresolved type `t`: an unknown name, or
/// arguments applied to a type that takes none.
pub open spec fn unresolved_type_error(t: TypeV, types: TypeStore, e: LowerError) -> bool {
    match t {
        TypeV::Name(n) => e matches LowerError::UnknownType(m) && m@ == n,
        TypeV::Apply(n, args) => match types.spec_lookup(n) {
            Some(_) => e matches LowerError::BadGenericArity { name, expected, actual } && name@ == n && expected
                == 0 && actual == args.len(),
            None => e matches LowerError::UnknownType(m) && m@ == n,
        },
        _ => false,
    }
}

/// Field `k` of `fs` is the first whose type does not resolve: every field
/// before it is `()` or a name bound in `env` or `types`.
pub open spec fn fields_blocked_at(
    fs: Seq<(Option<Seq<char>>, TypeV)>,
    env: Seq<(String, TypeId)>,
    types: TypeStore,
    k: int,
) -> bool {
    &&& 0 <= k < fs.len()
    &&& forall|j: int|
        0 <= j < k ==> ((#[trigger] fs[j]).1 is Unit || (fs[j].1 matches TypeV::Name(n) && (env_lookup(env, n) is Some
            || types.spec_lookup(n) is Some)))
    &&& unresolved_type(fs[k].1, env, types)
}

/// The fields of a struct's product body or of an enum's sum body.
pub open spec fn type_item_fields(item: Item) -> Option<Seq<(Option<Seq<char>>, TypeV)>> {
    match item {
        Item::Struct(td) => match type_view(td.ty) {
            TypeV::Product(fs) => Some(fs),
            _ => None,
        },
        Item::Enum(td) => match type_view(td.ty) {
            TypeV::Sum(fs) => Some(fs),
            _ => None,
        },
        _ => None,
    }
}

/// `item` is a struct or an enum that is not generic and declares no
/// capability.
pub open spec fn simple_type_item(item: Item) -> bool {
    match item {
        Item::Struct(td) | Item::Enum(td) => td.generics@.len() == 0 && td.capabilities@.len() == 0,
        _ => false,
    }
}

/// `item` is a simple struct or enum, for a lowerer with no generic
/// definitions, whose field `k` is the first that does not resolve against
/// `types`.
pub open spec fn type_item_blocked_now(item: Item, types: TypeStore, generics: nat, k: int) -> bool {
    &&& generics == 0
    &&& simple_type_item(item)
    &&& type_item_fields(item) matches Some(fs)
    &&& fields_blocked_at(fs, Seq::empty(), types, k)
}

/// `e` is the error of field `k` of the struct or enum `item` against
/// `types`.
pub open spec fn blocked_item_error(item: Item, types: TypeStore, k: int, e: LowerError) -> bool {
    type_item_fields(item) matches Some(fs) && unresolved_type_error(fs[k].1, types, e)
}

/// Every item before `i` is plain, and item `i` is a struct or an enum that
/// is not generic and declares no capability, whose field `k` is the first
/// whose type is neither `()` nor a name bound before item `i`: an unbound
/// name or an application.
pub open spec fn type_field_unresolved(items: Seq<Item>, i: int, k: int) -> bool {
    &&& 0 <= i < items.len()
    &&& items.len() < 0x1000_0000
    &&& forall|j: int| 0 <= j < i ==> #[trigger] plain_item(items, j)
    &&& simple_type_item(items[i])
    &&& type_item_fields(items[i]) matches Some(fs)
    &&& 0 <= k < fs.len()
    &&& forall|j: int|
        0 <= j < k ==> ((#[trigger] fs[j]).1 is Unit || (fs[j].1 matches TypeV::Name(n) && bound_before(items, i, n)))
    &&& match fs[k].1 {
        TypeV::Name(n) => !bound_before(items, i, n),
        TypeV::Apply(_, _) => true,
        _ => false,
    }
}

/// `e` is the error of field `k` of type item `i`: the unknown name, or the
/// type bound before item `i` that was applied to arguments.
pub open spec fn type_field_error(items: Seq<Item>, i: int, k: int, e: LowerError) -> bool {
    match type_item_fields(items[i]) {
        Some(fs) => match fs[k].1 {
            TypeV::Name(n) => e matches LowerError::UnknownType(m) && m@ == n,
            TypeV::Apply(n, args) => if bound_before(items, i, n) {
                e matches LowerError::BadGenericArity { name, expected, actual } && name@ == n && expected == 0
                    && actual == args.len()
            } else {
                e matches LowerError::UnknownType(m) && m@ == n
            },
            _ => false,
        },
        None => false,
    }
}

/// Item `i` of `items` is plain: no type alias; a struct or enum only when
/// it is not generic, declares no capability, takes a fresh non-empty name
/// and has plain fields (a struct may have a unit body).
pub open spec fn plain_item(items: Seq<Item>, i: int) -> bool {
    match items[i] {
        Item::Type(_) => false,
        Item::Struct(td) => {
            &&& td.generics@.len() == 0
            &&& td.capabilities@.len() == 0
            &&& td.name@.len() > 0
            &&& !bound_before(items, i, td.name@)
            &&& match type_view(td.ty) {
                TypeV::Product(fs) => plain_fields(fs, items, i),
                TypeV::Unit => true,
                _ => false,
            }
        },
        Item::Enum(td) => {
            &&& td.generics@.len() == 0
            &&& td.capabilities@.len() == 0
            &&& td.name@.len() > 0
            &&& !bound_before(items, i, td.name@)
            &&& match type_view(td.ty) {
                TypeV::Sum(fs) => plain_fields(fs, items, i),
                _ => false,
            }
        },
        _ => true,
    }
}

/// A module of plain items, fewer than `0x1000_0000` of them.
pub open spec fn plain_module(items: Seq<Item>) -> bool {
    &&& items.len() < 0x1000_0000
    &&& forall|i: int| 0 <= i < items.len() ==> plain_item(items, i)
}

/// Fields of which each is named, if at all, by a non-empty name, and is of
/// type `()` or of a type that `env` or the arena binds by name.
pub open spec fn fields_plain_in(
    fs: Seq<(Option<Seq<char>>, TypeV)>,
    env: Seq<(String, TypeId)>,
    types: TypeStore,
) -> bool {
    forall|k: int|
        0 <= k < fs.len() ==> {
            &&& ((#[trigger] fs[k]).0 matches Some(n) ==> n.len() > 0)
            &&& (fs[k].1 is Unit || (fs[k].1 matches TypeV::Name(n) && (env_lookup(env, n) is Some
                || types.spec_lookup(n) is Some)))
        }
}

/// Components of existing types with non-empty names raise no error.
proof fn lemma_components_ok(len: int, comps: Seq<Component>)
    requires
        forall|k: int|
            0 <= k < comps.len() ==> (#[trigger] comps[k]).ty.0 < len && (comps[k].name matches ComponentName::Named(
                n,
            ) ==> n@.len() > 0),
    ensures
        crate::types::components_error(len, comps) is None,
    decreases comps.len(),
{
    if comps.len() > 0 {
        assert(comps[0].ty.0 < len);
        assert forall|k: int| 0 <= k < comps.drop_first().len() implies (#[trigger] comps.drop_first()[k]).ty.0 < len
            && (comps.drop_first()[k].name matches ComponentName::Named(n) ==> n@.len() > 0) by {
            assert(comps.drop_first()[k] == comps[k + 1]);
        }
        lemma_components_ok(len, comps.drop_first());
    }
}

/// The capability clause of a type item is accepted: an alias declares
/// none, and a non-generic struct or enum names only `Dup` and `Zap`.
pub open spec fn capabilities_accepted(item: Item) -> bool {
    match item {
        Item::Type(td) => td.capabilities@.len() == 0,
        Item::Struct(td) => td.generics@.len() == 0 ==> spec_declared(strs(td.capabilities@), td.capabilities@.len() as int) is Ok,
        Item::Enum(td) => td.generics@.len() == 0 ==> spec_declared(strs(td.capabilities@), td.capabilities@.len() as int) is Ok,
        _ => true,
    }
}

/// `t` is `()` or a name that `types` binds.
pub open spec fn plain_type_in(t: TypeV, types: TypeStore) -> bool {
    t is Unit || (t matches TypeV::Name(n) && types.spec_lookup(n) is Some)
}

/// Parameter `k` of `ps` is the first whose type is not plain in `types`,
/// and it names a type that `types` does not bind.
pub open spec fn params_unresolved_at(ps: Seq<SurfaceParam>, types: TypeStore, k: int) -> bool {
    &&& ps.len() <= 0xFFFF_FFFF
    &&& 0 <= k < ps.len()
    &&& forall|m: int| 0 <= m < k ==> plain_type_in(type_view((#[trigger] ps[m]).ty), types)
    &&& type_view(ps[k].ty) matches TypeV::Name(n)
    &&& types.spec_lookup(n) is None
}

/// `e` reports the type that parameter `k` of `ps` names as unknown.
pub open spec fn param_type_error(ps: Seq<SurfaceParam>, k: int, e: LowerError) -> bool {
    type_view(ps[k].ty) matches TypeV::Name(n) && (e matches LowerError::UnknownType(m) && m@ == n)
}

/// A signature every type of which is plain in `types`: no generics, at
/// most `0xFFFF_FFFF` parameters.
pub open spec fn plain_signature_in(f: FunctionDef, types: TypeStore) -> bool {
    &&& f.generics@.len() == 0
    &&& f.params@.len() <= 0xFFFF_FFFF
    &&& plain_type_in(type_view(f.output), types)
    &&& forall|k: int| 0 <= k < f.params@.len() ==> plain_type_in(type_view((#[trigger] f.params@[k]).ty), types)
}

/// The name a function item binds.
pub open spec fn item_function_name(item: Item) -> Option<Seq<char>> {
    match item {
        Item::Function(f) => Some(f.name@),
        _ => None,
    }
}

/// Signature lowering has nothing to refuse in `items`: there is no global,
/// impl or trait item, and every function has a fresh non-empty name, no
/// generics, at most `0xFFFF_FFFF` parameters, and parameter and output
/// types that are `()` or names bound once the module's types are lowered.
pub open spec fn plain_signatures(items: Seq<Item>) -> bool {
    forall|i: int|
        0 <= i < items.len() ==> match #[trigger] items[i] {
            Item::Function(f) => {
                &&& f.name@.len() > 0
                &&& f.generics@.len() == 0
                &&& f.params@.len() <= 0xFFFF_FFFF
                &&& (type_view(f.output) is Unit || (type_view(f.output) matches TypeV::Name(n) && bound_before(
                    items,
                    items.len() as int,
                    n,
                )))
                &&& forall|k: int|
                    0 <= k < f.params@.len() ==> (type_view((#[trigger] f.params@[k]).ty) is Unit || (type_view(
                        f.params@[k].ty,
                    ) matches TypeV::Name(n) && bound_before(items, items.len() as int, n)))
                &&& forall|j: int| 0 <= j < i ==> item_function_name(items[j]) != Some(f.name@)
            },
            Item::Global(_) => false,
            Item::Impl(_) => false,
            Item::Trait(_) => false,
            _ => true,
        }
}

/// Item `i` of `items` has a plain signature, as `plain_signatures` asks of
/// every item.
pub open spec fn signature_item_plain(items: Seq<Item>, i: int) -> bool {
    match items[i] {
        Item::Function(f) => {
            &&& f.name@.len() > 0
            &&& f.generics@.len() == 0
            &&& f.params@.len() <= 0xFFFF_FFFF
            &&& (type_view(f.output) is Unit || (type_view(f.output) matches TypeV::Name(n) && bound_before(
                items,
                items.len() as int,
                n,
            )))
            &&& forall|k: int|
                0 <= k < f.params@.len() ==> (type_view((#[trigger] f.params@[k]).ty) is Unit || (type_view(
                    f.params@[k].ty,
                ) matches TypeV::Name(n) && bound_before(items, items.len() as int, n)))
            &&& forall|j: int| 0 <= j < i ==> item_function_name(items[j]) != Some(f.name@)
        },
        Item::Global(_) => false,
        Item::Impl(_) => false,
        Item::Trait(_) => false,
        _ => true,
    }
}

/// Every item before `i` has a plain signature, and item `i` is a function
/// that is not generic whose parameter `k` is the first whose type is
/// neither `()` nor a name the module binds: it names a type bound nowhere.
pub open spec fn signature_param_unresolved(items: Seq<Item>, i: int, k: int) -> bool {
    &&& 0 <= i < items.len()
    &&& forall|j: int| 0 <= j < i ==> #[trigger] signature_item_plain(items, j)
    &&& items[i] matches Item::Function(f)
    &&& f.generics@.len() == 0
    &&& f.params@.len() <= 0xFFFF_FFFF
    &&& 0 <= k < f.params@.len()
    &&& forall|m: int|
        0 <= m < k ==> (type_view((#[trigger] f.params@[m]).ty) is Unit || (type_view(f.params@[m].ty) matches TypeV::Name(
            n,
        ) && bound_before(items, items.len() as int, n)))
    &&& type_view(f.params@[k].ty) matches TypeV::Name(n)
    &&& !bound_before(items, items.len() as int, n)
}

/// `e` reports the type that parameter `k` of function item `i` names as
/// unknown.
pub open spec fn signature_param_error(items: Seq<Item>, i: int, k: int, e: LowerError) -> bool {
    match items[i] {
        Item::Function(f) => param_type_error(f.params@, k, e),
        _ => false,
    }
}

/// Item `item` is plain for a lowerer whose arena is `types` and which has
/// `generics` generic definitions: none of them, room in the arena, and no
/// type alias; a struct or enum that is not generic, declares no
/// capability, takes a non-empty name the arena does not bind and has
/// fields plain in the arena.
pub open spec fn plain_item_now(item: Item, types: TypeStore, generics: nat) -> bool {
    &&& generics == 0
    &&& types.spec_types().len() < 0xFFFF_FFFF
    &&& match item {
        Item::Type(_) => false,
        Item::Struct(td) => {
            &&& td.generics@.len() == 0
            &&& td.capabilities@.len() == 0
            &&& td.name@.len() > 0
            &&& types.spec_lookup(td.name@) is None
            &&& match type_view(td.ty) {
                TypeV::Product(fs) => fields_plain_in(fs, Seq::empty(), types),
                TypeV::Unit => true,
                _ => false,
            }
        },
        Item::Enum(td) => {
            &&& td.generics@.len() == 0
            &&& td.capabilities@.len() == 0
            &&& td.name@.len() > 0
            &&& types.spec_lookup(td.name@) is None
            &&& match type_view(td.ty) {
                TypeV::Sum(fs) => fields_plain_in(fs, Seq::empty(), types),
                _ => false,
            }
        },
        _ => true,
    }
}

/// The fields of a product or sum kind stay fixed as the arena grows.
proof fn lemma_kind_fields_stay(kind: TypeKind, t: TypeV, a: TypeStore, b: TypeStore)
    requires
        a.wf(),
        b.wf(),
        store_extends(a, b),
    ensures
        struct_shape(kind, t, a) ==> struct_shape(kind, t, b),
        enum_shape(kind, t, a) ==> enum_shape(kind, t, b),
{
    match (kind, t) {
        (TypeKind::Product(cs), TypeV::Product(fs)) => {
            if fields_fixed(cs@, fs, Seq::empty(), a) {
                lemma_fields_fixed_stays(cs@, fs, Seq::empty(), a, b);
            }
        },
        (TypeKind::Sum(cs), TypeV::Sum(fs)) => {
            if fields_fixed(cs@, fs, Seq::empty(), a) {
                lemma_fields_fixed_stays(cs@, fs, Seq::empty(), a, b);
            }
        },
        _ => {},
    }
}

/// The lowered shape of a struct item: a product named as its fields, each
/// of the type its field's type expression fixes, or an empty product for a
/// unit body.
pub open spec fn struct_shape(kind: TypeKind, t: TypeV, types: TypeStore) -> bool {
    kind matches TypeKind::Product(cs) && match t {
        TypeV::Product(fs) => names_follow(cs@, fs) && fields_fixed(cs@, fs, Seq::empty(), types),
        _ => cs@.len() == 0,
    }
}

/// The lowered shape of an enum item: a sum named as its variants, each of
/// the payload type its type expression fixes.
pub open spec fn enum_shape(kind: TypeKind, t: TypeV, types: TypeStore) -> bool {
    kind matches TypeKind::Sum(cs) && t matches TypeV::Sum(fs) && names_follow(cs@, fs) && fields_fixed(
        cs@,
        fs,
        Seq::empty(),
        types,
    )
}

/// What the arena of a lowered module shows of a type item: a generic
/// item binds no name; an alias binds its name; a struct or enum binds its
/// name to a type of its shape.
pub open spec fn item_bound(types: TypeStore, item: Item) -> bool {
    match item {
        Item::Type(td) => if td.generics@.len() == 0 {
            types.spec_lookup(td.name@) is Some
        } else {
            types.spec_lookup(td.name@) is None
        },
        Item::Struct(td) => if td.generics@.len() == 0 {
            types.spec_lookup(td.name@) matches Some(id) && types.valid(id) && struct_shape(
                types.spec_types()[id.0 as int].kind,
                type_view(td.ty),
                types,
            )
        } else {
            types.spec_lookup(td.name@) is None
        },
        Item::Enum(td) => if td.generics@.len() == 0 {
            types.spec_lookup(td.name@) matches Some(id) && types.valid(id) && enum_shape(
                types.spec_types()[id.0 as int].kind,
                type_view(td.ty),
                types,
            )
        } else {
            types.spec_lookup(td.name@) is None
        },
        _ => true,
    }
}

impl<'a> TypeLowerer<'a> {
    /// A lowerer over the standard arena.
    fn new_with_standard_types() -> (r: Result<Self, LowerError>)
        ensures
            r matches Ok(l) ==> l.inv() && standard_types_bound(l.types) && standard_types_apart(l.types)
                && standard_types_finite(l.types)
                && l.generic_defs@.len() == 0
                && l.generic_in_progress@.len() == 0,
            r is Ok,
            r matches Ok(l) ==> l.types.spec_types().len() == 10 && forall|n: Seq<char>| #[trigger] l.types.spec_lookup(
                n,
            ) is Some <==> base_names().contains(n),
    {
        let types = match standard_store() {
            Ok(t) => t,
            Err(e) => {
                return Err(e);
            },
        };
        Ok(
            TypeLowerer {
                types,
                anonymous: Vec::new(),
                generic_defs: Vec::new(),
                generic_instantiations: Vec::new(),
                generic_in_progress: Vec::new(),
            },
        )
    }

    /// `self` keeps what `old` had: an extended arena, the generic
    /// definitions as a prefix, the instantiations in progress unchanged.
    spec fn grew_from(&self, old: TypeLowerer<'a>) -> bool {
        &&& store_extends(old.types, self.types)
        &&& old.generic_defs@.len() <= self.generic_defs@.len()
        &&& self.generic_defs@.subrange(0, old.generic_defs@.len() as int) == old.generic_defs@
        &&& self.generic_in_progress@ == old.generic_in_progress@
    }

    /// What lowering the type items so far has established of `item`.
    spec fn item_lowered(&self, item: Item) -> bool {
        match item {
            Item::Type(td) => if td.generics@.len() == 0 {
                self.types.spec_lookup(td.name@) is Some
            } else {
                generic_named(self.generic_defs@, td.name@)
            },
            Item::Struct(td) => if td.generics@.len() == 0 {
                self.types.spec_lookup(td.name@) matches Some(id) && self.types.valid(id) && struct_shape(
                    self.types.spec_types()[id.0 as int].kind,
                    type_view(td.ty),
                    self.types,
                )
            } else {
                generic_named(self.generic_defs@, td.name@)
            },
            Item::Enum(td) => if td.generics@.len() == 0 {
                self.types.spec_lookup(td.name@) matches Some(id) && self.types.valid(id) && enum_shape(
                    self.types.spec_types()[id.0 as int].kind,
                    type_view(td.ty),
                    self.types,
                )
            } else {
                generic_named(self.generic_defs@, td.name@)
            },
            _ => true,
        }
    }

    proof fn lemma_grew_trans(a: TypeLowerer<'a>, b: TypeLowerer<'a>, c: TypeLowerer<'a>)
        requires
            b.grew_from(a),
            c.grew_from(b),
        ensures
            c.grew_from(a),
    {
        lemma_extends_trans(a.types, b.types, c.types);
        assert(c.generic_defs@.subrange(0, a.generic_defs@.len() as int) =~= b.generic_defs@.subrange(
            0,
            a.generic_defs@.len() as int,
        ));
    }

    proof fn lemma_moved_on_grew(&self, old: TypeLowerer<'a>)
        requires
            self.moved_on(old),
        ensures
            self.grew_from(old),
    {
        assert(self.generic_defs@.subrange(0, old.generic_defs@.len() as int) =~= old.generic_defs@);
    }

    proof fn lemma_grew_refl(&self)
        ensures
            self.grew_from(*self),
    {
        lemma_extends_refl(self.types);
        assert(self.generic_defs@.subrange(0, self.generic_defs@.len() as int) =~= self.generic_defs@);
    }

    proof fn lemma_item_lowered_stays(&self, old: TypeLowerer<'a>, item: Item)
        requires
            old.inv(),
            self.inv(),
            self.grew_from(old),
            old.item_lowered(item),
        ensures
            self.item_lowered(item),
    {
        match item {
            Item::Type(td) => {
                if td.generics@.len() == 0 {
                    lemma_extends_lookup(old.types, self.types, td.name@);
                } else {
                    let i = choose|i: int| 0 <= i < old.generic_defs@.len() && (#[trigger] old.generic_defs@[i]).def.name@ == td.name@;
                    assert(self.generic_defs@[i] == old.generic_defs@[i]);
                }
            },
            Item::Struct(td) | Item::Enum(td) => {
                if td.generics@.len() == 0 {
                    lemma_extends_lookup(old.types, self.types, td.name@);
                    let id = old.types.spec_lookup(td.name@)->0;
                    assert(self.types.spec_types()[id.0 as int] == old.types.spec_types()[id.0 as int]) by {
                        assert(self.types.spec_types().subrange(0, old.types.spec_types().len() as int)[id.0 as int]
                            == self.types.spec_types()[id.0 as int]);
                    }
                    lemma_kind_fields_stay(old.types.spec_types()[id.0 as int].kind, type_view(td.ty), old.types, self.types);
                } else {
                    let i = choose|i: int| 0 <= i < old.generic_defs@.len() && (#[trigger] old.generic_defs@[i]).def.name@ == td.name@;
                    assert(self.generic_defs@[i] == old.generic_defs@[i]);
                }
            },
            _ => {},
        }
    }

    /// Keeps a generic type item aside under its name.
    fn add_generic_type_def(&mut self, kind: GenericTypeKind, td: &'a SurfaceTypeDef) -> (r: Result<(), LowerError>)
        requires
            old(self).inv(),
        ensures
            final(self).inv(),
            final(self).grew_from(*old(self)),
            r is Ok ==> generic_named(final(self).generic_defs@, td.name@),
    {
        proof {
            self.lemma_grew_refl();
        }
        match self.ensure_type_name_unused(td.name.as_str()) {
            Ok(()) => {},
            Err(e) => {
                return Err(e);
            },
        }
        if self.types.type_id(td.name.as_str()).is_some() {
            return Err(LowerError::Type(TypeError::DuplicateName(td.name.clone())));
        }
        match reject_duplicate_generics(td.name.as_str(), &td.generics) {
            Ok(()) => {},
            Err(e) => {
                return Err(e);
            },
        }
        let ghost before = *self;
        self.generic_defs.push(GenericTypeDef { kind, def: td });
        proof {
            let n = self.generic_defs@.len() - 1;
            assert(self.generic_defs@[n].def.name@ == td.name@);
            assert(generic_named(self.generic_defs@, td.name@));
            assert forall|i: int, j: int| 0 <= i < j < self.generic_defs@.len() implies (#[trigger] self.generic_defs@[i]).def.name@
                != (#[trigger] self.generic_defs@[j]).def.name@ by {
                if j == n {
                    assert(self.generic_defs@[i] == before.generic_defs@[i]);
                } else {
                    assert(self.generic_defs@[i] == before.generic_defs@[i]);
                    assert(self.generic_defs@[j] == before.generic_defs@[j]);
                }
            }
            assert forall|i: int| 0 <= i < self.generic_defs@.len() implies self.types.spec_lookup(
                (#[trigger] self.generic_defs@[i]).def.name@,
            ) is None by {
                if i < n {
                    assert(self.generic_defs@[i] == before.generic_defs@[i]);
                }
            }
            lemma_extends_refl(self.types);
            assert(self.generic_defs@.subrange(0, before.generic_defs@.len() as int) =~= before.generic_defs@);
        }
        Ok(())
    }

    /// Binds `name` to `target`.
    fn bind_alias(&mut self, name: &String, target: TypeId) -> (r: Result<(), LowerError>)
        requires
            old(self).inv(),
            old(self).types.valid(target),
            !generic_named(old(self).generic_defs@, name@),
        ensures
            final(self).inv(),
            final(self).moved_on(*old(self)),
            r is Ok ==> final(self).types.spec_lookup(name@) == Some(target),
    {
        let ghost before = *self;
        let r = self.types.add_alias(name.as_str(), target);
        proof {
            if r is Ok {
                assert(self.types.spec_names().subrange(0, before.types.spec_names().len() as int)
                    =~= before.types.spec_names());
                lemma_lookup_push_self(before.types.spec_names(), name@, target);
                assert(self.types.spec_types().subrange(0, before.types.spec_types().len() as int)
                    =~= before.types.spec_types());
                assert forall|i: int| 0 <= i < self.generic_defs@.len() implies self.types.spec_lookup(
                    (#[trigger] self.generic_defs@[i]).def.name@,
                ) is None by {
                    let g = self.generic_defs@[i].def.name@;
                    assert(g != name@);
                    lemma_lookup_push_other(before.types.spec_names(), name@, target, g);
                }
                assert forall|j: int| 0 <= j < self.anonymous@.len() implies {
                    let (k, t) = #[trigger] self.anonymous@[j];
                    &&& self.types.valid(t)
                    &&& kind_anon(self.types.spec_types()[t.0 as int].kind) == Some(anon_view(k))
                } by {
                    assert(before.anonymous@[j] == self.anonymous@[j]);
                }
                assert forall|j: int| 0 <= j < self.generic_instantiations@.len() implies self.types.valid(
                    (#[trigger] self.generic_instantiations@[j]).1,
                ) by {
                    assert(before.generic_instantiations@[j] == self.generic_instantiations@[j]);
                }
            } else {
                lemma_extends_refl(self.types);
            }
        }
        match r {
            Ok(()) => Ok(()),
            Err(e) => Err(LowerError::Type(e)),
        }
    }

    /// Adds a named product (or, with `sum`, a named sum) of `comps`.
    fn add_named(&mut self, name: &String, sum: bool, comps: Vec<Component>, declared: DeclaredCapabilities) -> (r:
        Result<TypeId, LowerError>)
        requires
            old(self).inv(),
            !generic_named(old(self).generic_defs@, name@),
        ensures
            final(self).inv(),
            final(self).moved_on(*old(self)),
            r matches Ok(id) ==> final(self).types.spec_lookup(name@) == Some(id) && final(self).types.valid(id)
                && final(self).types.spec_types()[id.0 as int].kind == if sum {
                TypeKind::Sum(comps)
            } else {
                TypeKind::Product(comps)
            },
            ({
                &&& old(self).types.spec_types().len() < 0xFFFF_FFFF
                &&& name@.len() > 0
                &&& old(self).types.spec_lookup(name@) is None
                &&& declared == (DeclaredCapabilities { dup: false, zap: false })
                &&& forall|k: int|
                    0 <= k < comps@.len() ==> old(self).types.valid((#[trigger] comps@[k]).ty) && (comps@[k].name matches ComponentName::Named(
                        n,
                    ) ==> n@.len() > 0)
            }) ==> r is Ok && final(self).types.spec_types().len() == old(self).types.spec_types().len() + 1
                && forall|g: Seq<char>|
                #![trigger final(self).types.spec_lookup(g)]
                g != name@ ==> final(self).types.spec_lookup(g) == old(self).types.spec_lookup(g),
    {
        if self.types.type_count() >= 0xFFFF_FFFFusize {
            proof {
                lemma_extends_refl(self.types);
            }
            return Err(LowerError::CapacityExceeded);
        }
        let ghost before = *self;
        let ghost kind = if sum {
            TypeKind::Sum(comps)
        } else {
            TypeKind::Product(comps)
        };
        let r = if sum {
            self.types.add_sum(Some(name.clone()), comps, declared)
        } else {
            self.types.add_product(Some(name.clone()), comps, declared)
        };
        proof {
            if before.types.spec_types().len() < 0xFFFF_FFFF && forall|k: int|
                0 <= k < comps@.len() ==> before.types.valid((#[trigger] comps@[k]).ty) && (comps@[k].name matches ComponentName::Named(
                    n,
                ) ==> n@.len() > 0) {
                lemma_components_ok(before.types.spec_types().len() as int, comps@);
            }
            if crate::types::components_error(before.types.spec_types().len() as int, comps@) is None {
                lemma_added_named(before.types, self.types, name@, kind, declared, r);
                if r is Ok {
                    assert forall|i: int| 0 <= i < self.generic_defs@.len() implies self.types.spec_lookup(
                        (#[trigger] self.generic_defs@[i]).def.name@,
                    ) is None by {
                        let g = self.generic_defs@[i].def.name@;
                        assert(g != name@);
                        assert(self.types.spec_lookup(g) == before.types.spec_lookup(g));
                    }
                    assert forall|j: int| 0 <= j < self.anonymous@.len() implies {
                        let (k, t) = #[trigger] self.anonymous@[j];
                        &&& self.types.valid(t)
                        &&& kind_anon(self.types.spec_types()[t.0 as int].kind) == Some(anon_view(k))
                    } by {
                        let (k, t) = self.anonymous@[j];
                        assert(before.anonymous@[j] == self.anonymous@[j]);
                        assert(self.types.spec_types()[t.0 as int] == self.types.spec_types().subrange(
                            0,
                            before.types.spec_types().len() as int,
                        )[t.0 as int]);
                    }
                    assert forall|j: int| 0 <= j < self.generic_instantiations@.len() implies self.types.valid(
                        (#[trigger] self.generic_instantiations@[j]).1,
                    ) by {
                        assert(before.generic_instantiations@[j] == self.generic_instantiations@[j]);
                    }
                } else {
                    lemma_extends_refl(self.types);
                }
            } else {
                lemma_extends_refl(self.types);
            }
        }
        match r {
            Ok(id) => Ok(id),
            Err(e) => Err(LowerError::Type(e)),
        }
    }
}


impl<'a> TypeLowerer<'a> {
    /// Lowers the body of a non-generic struct into its components.
    fn struct_components(&mut self, td: &'a SurfaceTypeDef) -> (r: Result<Vec<Component>, LowerError>)
        requires
            old(self).inv(),
        ensures
            final(self).inv(),
            final(self).moved_on(*old(self)),
            r matches Ok(cs) ==> match type_view(td.ty) {
                TypeV::Product(fs) => names_follow(cs@, fs) && fields_fixed(cs@, fs, Seq::empty(), final(self).types),
                TypeV::Unit => cs@.len() == 0,
                _ => false,
            },
            match type_view(td.ty) {
                TypeV::Product(fs) => fields_plain_in(fs, Seq::empty(), old(self).types),
                TypeV::Unit => true,
                _ => false,
            } ==> r is Ok && *final(self) == *old(self),
            r matches Ok(cs) ==> forall|k: int|
                0 <= k < cs@.len() ==> ((#[trigger] cs@[k]).name matches ComponentName::Named(n) ==> match type_view(
                    td.ty,
                ) {
                    TypeV::Product(fs) => Some(n@) == fs[k].0,
                    _ => false,
                }),
            type_view(td.ty) !is Product && type_view(td.ty) !is Unit ==> (r matches Err(
                LowerError::ExpectedStructBody { name },
            ) && name@ == td.name@),
            old(self).generic_defs@.len() == 0 ==> (type_view(td.ty) matches TypeV::Product(fs) ==> forall|k: int|
                #[trigger] fields_blocked_at(fs, Seq::empty(), old(self).types, k) ==> (r matches Err(e)
                    && unresolved_type_error(fs[k].1, old(self).types, e))),
    {
        proof {
            lemma_extends_refl(self.types);
        }
        let env: Vec<(String, TypeId)> = Vec::new();
        match &td.ty {
            TypeExpr::Product(fs) => {
                proof {
                    crate::frontend::parse::lemma_type_product_view(*fs);
                }
                self.lower_components(fs, &env, GENERIC_DEPTH_LIMIT)
            },
            TypeExpr::Unit => Ok(Vec::new()),
            _ => {
                proof {
                    crate::frontend::parse::lemma_type_product_view_not(td.ty);
                }
                Err(LowerError::ExpectedStructBody { name: td.name.clone() })
            },
        }
    }

    /// Lowers the body of a non-generic enum into its variants.
    fn enum_components(&mut self, td: &'a SurfaceTypeDef) -> (r: Result<Vec<Component>, LowerError>)
        requires
            old(self).inv(),
        ensures
            final(self).inv(),
            final(self).moved_on(*old(self)),
            r matches Ok(cs) ==> match type_view(td.ty) {
                TypeV::Sum(fs) => names_follow(cs@, fs) && fields_fixed(cs@, fs, Seq::empty(), final(self).types),
                _ => false,
            },
            match type_view(td.ty) {
                TypeV::Sum(fs) => fields_plain_in(fs, Seq::empty(), old(self).types),
                _ => false,
            } ==> r is Ok && *final(self) == *old(self),
            r matches Ok(cs) ==> forall|k: int|
                0 <= k < cs@.len() ==> ((#[trigger] cs@[k]).name matches ComponentName::Named(n) ==> match type_view(
                    td.ty,
                ) {
                    TypeV::Sum(fs) => Some(n@) == fs[k].0,
                    _ => false,
                }),
            type_view(td.ty) !is Sum ==> (r matches Err(LowerError::ExpectedEnumBody { name }) && name@ == td.name@),
            old(self).generic_defs@.len() == 0 ==> (type_view(td.ty) matches TypeV::Sum(fs) ==> forall|k: int|
                #[trigger] fields_blocked_at(fs, Seq::empty(), old(self).types, k) ==> (r matches Err(e)
                    && unresolved_type_error(fs[k].1, old(self).types, e))),
    {
        proof {
            lemma_extends_refl(self.types);
        }
        let env: Vec<(String, TypeId)> = Vec::new();
        match &td.ty {
            TypeExpr::Sum(fs) => {
                proof {
                    crate::frontend::parse::lemma_type_product_view(*fs);
                }
                self.lower_components(fs, &env, GENERIC_DEPTH_LIMIT)
            },
            _ => {
                proof {
                    crate::frontend::parse::lemma_type_product_view_not(td.ty);
                }
                Err(LowerError::ExpectedEnumBody { name: td.name.clone() })
            },
        }
    }

    /// Lowers one item: type items into the arena, generic ones aside;
    /// other items are left to signature lowering.
    fn lower_item(&mut self, item: &'a Item) -> (r: Result<(), LowerError>)
        requires
            old(self).inv(),
        ensures
            final(self).inv(),
            final(self).grew_from(*old(self)),
            r is Ok ==> final(self).item_lowered(*item),
            r is Ok ==> capabilities_accepted(*item),
            plain_item_now(*item, old(self).types, old(self).generic_defs@.len()) ==> {
                &&& r is Ok
                &&& final(self).generic_defs@.len() == 0
                &&& final(self).types.spec_types().len() <= old(self).types.spec_types().len() + 1
                &&& forall|g: Seq<char>|
                    #[trigger] final(self).types.spec_lookup(g) is Some <==> (old(self).types.spec_lookup(g) is Some
                        || item_type_name(*item) == Some(g))
            },
            forall|k: int|
                #[trigger] type_item_blocked_now(*item, old(self).types, old(self).generic_defs@.len(), k) ==> (r matches Err(
                    e,
                ) && blocked_item_error(*item, old(self).types, k, e)),
    {
        proof {
            self.lemma_grew_refl();
        }
        let ghost start = *self;
        match item {
            Item::Type(td) => {
                match reject_alias_capabilities(td.name.as_str(), &td.capabilities) {
                    Ok(()) => {},
                    Err(e) => {
                        return Err(e);
                    },
                }
                if td.generics.len() == 0 {
                    match self.ensure_type_name_unused(td.name.as_str()) {
                        Ok(()) => {},
                        Err(e) => {
                            return Err(e);
                        },
                    }
                    let env: Vec<(String, TypeId)> = Vec::new();
                    let ty = match self.lower_type(&td.ty, &env, GENERIC_DEPTH_LIMIT) {
                        Ok(t) => t,
                        Err(e) => {
                            proof {
                                self.lemma_moved_on_grew(start);
                            }
                            return Err(e);
                        },
                    };
                    let ghost mid = *self;
                    let r = self.bind_alias(&td.name, ty);
                    proof {
                        Self::lemma_moved_on_trans(start, mid, *self);
                        self.lemma_moved_on_grew(start);
                    }
                    r
                } else {
                    self.add_generic_type_def(GenericTypeKind::Alias, td)
                }
            },
            Item::Struct(td) => {
                if td.generics.len() == 0 {
                    match self.ensure_type_name_unused(td.name.as_str()) {
                        Ok(()) => {},
                        Err(e) => {
                            return Err(e);
                        },
                    }
                    let declared = match declared_capabilities(&td.capabilities) {
                        Ok(d) => d,
                        Err(e) => {
                            return Err(e);
                        },
                    };
                    let fields = match self.struct_components(td) {
                        Ok(c) => c,
                        Err(e) => {
                            proof {
                                self.lemma_moved_on_grew(start);
                            }
                            return Err(e);
                        },
                    };
                    let ghost mid = *self;
                    let ghost fv = fields@;
                    let r = self.add_named(&td.name, false, fields, declared);
                    proof {
                        Self::lemma_moved_on_trans(start, mid, *self);
                        self.lemma_moved_on_grew(start);
                        if let TypeV::Product(fs) = type_view(td.ty) {
                            lemma_fields_fixed_stays(fv, fs, Seq::empty(), mid.types, self.types);
                        }
                    }
                    match r {
                        Ok(_) => Ok(()),
                        Err(e) => Err(e),
                    }
                } else {
                    self.add_generic_type_def(GenericTypeKind::Struct, td)
                }
            },
            Item::Enum(td) => {
                if td.generics.len() == 0 {
                    match self.ensure_type_name_unused(td.name.as_str()) {
                        Ok(()) => {},
                        Err(e) => {
                            return Err(e);
                        },
                    }
                    let declared = match declared_capabilities(&td.capabilities) {
                        Ok(d) => d,
                        Err(e) => {
                            return Err(e);
                        },
                    };
                    let variants = match self.enum_components(td) {
                        Ok(c) => c,
                        Err(e) => {
                            proof {
                                self.lemma_moved_on_grew(start);
                            }
                            return Err(e);
                        },
                    };
                    let ghost mid = *self;
                    let ghost vv = variants@;
                    let r = self.add_named(&td.name, true, variants, declared);
                    proof {
                        Self::lemma_moved_on_trans(start, mid, *self);
                        self.lemma_moved_on_grew(start);
                        if let TypeV::Sum(fs) = type_view(td.ty) {
                            lemma_fields_fixed_stays(vv, fs, Seq::empty(), mid.types, self.types);
                        }
                    }
                    match r {
                        Ok(_) => Ok(()),
                        Err(e) => Err(e),
                    }
                } else {
                    self.add_generic_type_def(GenericTypeKind::Enum, td)
                }
            },
            _ => Ok(()),
        }
    }

    /// Lowers the type items of a module, in order.
    fn lower_module(&mut self, module: &'a Module) -> (r: Result<(), LowerError>)
        requires
            old(self).inv(),
        ensures
            final(self).inv(),
            final(self).grew_from(*old(self)),
            r is Ok ==> forall|i: int| 0 <= i < module.items@.len() ==> final(self).item_lowered(#[trigger] module.items@[i]),
            r is Ok ==> forall|i: int| 0 <= i < module.items@.len() ==> capabilities_accepted(#[trigger] module.items@[i]),
            ({
                &&& plain_module(module.items@)
                &&& old(self).generic_defs@.len() == 0
                &&& old(self).types.spec_types().len() <= 10
                &&& forall|n: Seq<char>| #[trigger] old(self).types.spec_lookup(n) is Some <==> base_names().contains(n)
            }) ==> r is Ok && final(self).generic_defs@.len() == 0 && forall|n: Seq<char>|
                #[trigger] final(self).types.spec_lookup(n) is Some <==> bound_before(
                    module.items@,
                    module.items@.len() as int,
                    n,
                ),
            ({
                &&& old(self).generic_defs@.len() == 0
                &&& old(self).types.spec_types().len() <= 10
                &&& forall|n: Seq<char>| #[trigger] old(self).types.spec_lookup(n) is Some <==> base_names().contains(n)
            }) ==> forall|i: int, k: int|
                #[trigger] type_field_unresolved(module.items@, i, k) ==> (r matches Err(e) && type_field_error(
                    module.items@,
                    i,
                    k,
                    e,
                )),
    {
        proof {
            self.lemma_grew_refl();
        }
        let ghost start = *self;
        let ghost plain = {
            &&& plain_module(module.items@)
            &&& start.generic_defs@.len() == 0
            &&& start.types.spec_types().len() <= 10
            &&& forall|n: Seq<char>| #[trigger] start.types.spec_lookup(n) is Some <==> base_names().contains(n)
        };
        let ghost items = module.items@;
        let ghost startc = {
            &&& start.generic_defs@.len() == 0
            &&& start.types.spec_types().len() <= 10
            &&& forall|n: Seq<char>| #[trigger] start.types.spec_lookup(n) is Some <==> base_names().contains(n)
        };
        proof {
            if startc {
                assert forall|n: Seq<char>| #[trigger] self.types.spec_lookup(n) is Some <==> bound_before(items, 0, n) by {}
            }
        }
        let mut i: usize = 0;
        while i < module.items.len()
            invariant
                0 <= i <= module.items@.len(),
                start == *old(self),
                items == module.items@,
                plain == ({
                    &&& plain_module(module.items@)
                    &&& start.generic_defs@.len() == 0
                    &&& start.types.spec_types().len() <= 10
                    &&& forall|n: Seq<char>| #[trigger] start.types.spec_lookup(n) is Some <==> base_names().contains(n)
                }),
                self.inv(),
                self.grew_from(start),
                forall|j: int| 0 <= j < i ==> self.item_lowered(#[trigger] module.items@[j]),
                forall|j: int| 0 <= j < i ==> capabilities_accepted(#[trigger] module.items@[j]),
                startc == ({
                    &&& start.generic_defs@.len() == 0
                    &&& start.types.spec_types().len() <= 10
                    &&& forall|n: Seq<char>| #[trigger] start.types.spec_lookup(n) is Some <==> base_names().contains(n)
                }),
                startc && items.len() < 0x1000_0000 && (forall|j: int| 0 <= j < i ==> #[trigger] plain_item(items, j))
                    ==> {
                    &&& self.generic_defs@.len() == 0
                    &&& self.types.spec_types().len() <= 10 + i
                    &&& forall|n: Seq<char>| #[trigger] self.types.spec_lookup(n) is Some <==> bound_before(items, i as int, n)
                },
                startc ==> forall|b: int, k: int| #[trigger] type_field_unresolved(items, b, k) ==> i <= b,
            decreases module.items@.len() - i,
        {
            let ghost before = *self;
            let ghost prefix = startc && items.len() < 0x1000_0000 && (forall|j: int|
                0 <= j < i ==> #[trigger] plain_item(items, j));
            let ghost step = prefix && plain_item(items, i as int);
            proof {
                if plain {
                    assert forall|j: int| 0 <= j < i + 1 implies #[trigger] plain_item(items, j) by {}
                }
                if step {
                    assert(plain_item_now(items[i as int], before.types, before.generic_defs@.len())) by {
                        match items[i as int] {
                            Item::Struct(td) | Item::Enum(td) => {
                                assert(!bound_before(items, i as int, td.name@));
                                match type_view(td.ty) {
                                    TypeV::Product(fs) | TypeV::Sum(fs) => {
                                        assert forall|k: int| 0 <= k < fs.len() implies {
                                            &&& ((#[trigger] fs[k]).0 matches Some(n) ==> n.len() > 0)
                                            &&& (fs[k].1 is Unit || (fs[k].1 matches TypeV::Name(n) && (env_lookup(
                                                Seq::empty(),
                                                n,
                                            ) is Some || before.types.spec_lookup(n) is Some)))
                                        } by {
                                            assert(plain_fields(fs, items, i as int));
                                            if let TypeV::Name(n) = fs[k].1 {
                                                assert(bound_before(items, i as int, n));
                                            }
                                        }
                                    },
                                    _ => {},
                                }
                            },
                            _ => {},
                        }
                    }
                }
            }
            proof {
                if startc {
                    assert forall|b: int, k: int| #[trigger] type_field_unresolved(items, b, k) && b == i implies
                        type_item_blocked_now(items[i as int], before.types, before.generic_defs@.len(), k) by {
                        assert(prefix);
                        if let Some(fs) = type_item_fields(items[i as int]) {
                            assert forall|j: int| 0 <= j < k implies ((#[trigger] fs[j]).1 is Unit || (
                            fs[j].1 matches TypeV::Name(n) && (env_lookup(Seq::empty(), n) is Some
                                || before.types.spec_lookup(n) is Some))) by {
                                if let TypeV::Name(n) = fs[j].1 {
                                    assert(bound_before(items, i as int, n));
                                }
                            }
                            if let TypeV::Name(n) = fs[k].1 {
                                assert(!bound_before(items, i as int, n));
                                assert(before.types.spec_lookup(n) is None);
                            }
                            assert(fields_blocked_at(fs, Seq::empty(), before.types, k));
                        }
                    }
                }
            }
            let r = self.lower_item(&module.items[i]);
            proof {
                Self::lemma_grew_trans(start, before, *self);
                if startc {
                    assert forall|b: int, k: int| #[trigger] type_field_unresolved(items, b, k) && b == i implies (
                    r matches Err(e) && type_field_error(items, b, k, e)) by {
                        assert(type_item_blocked_now(items[i as int], before.types, before.generic_defs@.len(), k));
                        if let Some(fs) = type_item_fields(items[i as int]) {
                            if let TypeV::Apply(n, args) = fs[k].1 {
                                assert(before.types.spec_lookup(n) is Some <==> bound_before(items, i as int, n));
                            }
                        }
                    }
                }
                if step {
                    assert forall|n: Seq<char>| #[trigger] self.types.spec_lookup(n) is Some <==> bound_before(
                        items,
                        i + 1,
                        n,
                    ) by {
                        if bound_before(items, i + 1, n) && !base_names().contains(n) {
                            let j = choose|j: int| 0 <= j < i + 1 && #[trigger] item_type_name(items[j]) == Some(n);
                            if j < i {
                                assert(bound_before(items, i as int, n));
                            }
                        }
                        if bound_before(items, i as int, n) && !base_names().contains(n) {
                            let j = choose|j: int| 0 <= j < i && #[trigger] item_type_name(items[j]) == Some(n);
                            assert(bound_before(items, i + 1, n));
                        }
                        if item_type_name(items[i as int]) == Some(n) {
                            assert(bound_before(items, i + 1, n));
                        }
                    }
                }
            }
            if let Err(e) = r {
                return Err(e);
            }
            proof {
                if startc {
                    assert forall|b: int, k: int| #[trigger] type_field_unresolved(items, b, k) implies i + 1 <= b by {
                        if b == i {
                            assert(type_item_blocked_now(items[i as int], before.types, before.generic_defs@.len(), k));
                        }
                    }
                    if prefix && !plain_item(items, i as int) {
                        assert(!step);
                    }
                }
            }
            proof {
                assert forall|j: int| 0 <= j < i + 1 implies self.item_lowered(#[trigger] module.items@[j]) by {
                    if j < i {
                        self.lemma_item_lowered_stays(before, module.items@[j]);
                    }
                }
            }
            i += 1;
        }
        Ok(())
    }
}


impl<'a> TypeLowerer<'a> {
    proof fn lemma_item_bound(&self, item: Item)
        requires
            self.inv(),
            self.item_lowered(item),
        ensures
            item_bound(self.types, item),
    {
        match item {
            Item::Type(td) | Item::Struct(td) | Item::Enum(td) => {
                if td.generics@.len() > 0 {
                    let i = choose|i: int| 0 <= i < self.generic_defs@.len() && (#[trigger] self.generic_defs@[i]).def.name@ == td.name@;
                    assert(self.types.spec_lookup(self.generic_defs@[i].def.name@) is None);
                }
            },
            _ => {},
        }
    }

    proof fn lemma_standard_stays(old: TypeStore, new: TypeStore)
        requires
            old.wf(),
            new.wf(),
            store_extends(old, new),
            standard_types_bound(old),
        ensures
            standard_types_bound(new),
            standard_types_apart(old) ==> standard_types_apart(new),
            standard_types_finite(old) ==> standard_types_finite(new),
    {
        assert forall|i: int| 0 <= i < 4 && standard_types_finite(old) implies (new.spec_lookup(
            #[trigger] standard_names()[i],
        ) matches Some(id) && id.0 < new.spec_types().len() && new.spec_types()[id.0 as int].kind is Finite) by {
            lemma_extends_lookup(old, new, standard_names()[i]);
            let id = old.spec_lookup(standard_names()[i])->0;
            assert(new.spec_types()[id.0 as int] == new.spec_types().subrange(0, old.spec_types().len() as int)[id.0 as int]);
        }
        assert forall|i: int| 0 <= i < standard_names().len() implies new.spec_lookup(#[trigger] standard_names()[i]) is Some
            && (standard_types_apart(old) ==> new.spec_lookup(standard_names()[i]) != Some(new.spec_unit())) by {
            lemma_extends_lookup(old, new, standard_names()[i]);
        }
    }
}

/// Lowers the type items of a module into the arena of the standard types:
/// aliases, structs and enums in order, generic items instantiated where
/// they are applied.
pub fn lower_type_items(module: &Module) -> (r: Result<LoweredTypes, LowerError>)
    ensures
        r matches Ok(t) ==> {
            &&& t.types.wf()
            &&& standard_types_bound(t.types)
            &&& forall|i: int| 0 <= i < module.items@.len() ==> item_bound(t.types, #[trigger] module.items@[i])
        },
        plain_module(module.items@) ==> r is Ok,
        r is Ok ==> forall|i: int| 0 <= i < module.items@.len() ==> capabilities_accepted(#[trigger] module.items@[i]),
        forall|i: int, k: int|
            #[trigger] type_field_unresolved(module.items@, i, k) ==> (r matches Err(e) && type_field_error(
                module.items@,
                i,
                k,
                e,
            )),
{
    let mut lowerer = match TypeLowerer::new_with_standard_types() {
        Ok(l) => l,
        Err(e) => {
            return Err(e);
        },
    };
    let ghost start = lowerer;
    match lowerer.lower_module(module) {
        Ok(()) => {},
        Err(e) => {
            return Err(e);
        },
    }
    proof {
        TypeLowerer::lemma_standard_stays(start.types, lowerer.types);
        assert forall|i: int| 0 <= i < module.items@.len() implies item_bound(lowerer.types, #[trigger] module.items@[i]) by {
            lowerer.lemma_item_bound(module.items@[i]);
        }
    }
    Ok(LoweredTypes { types: lowerer.types })
}


// ---------------------------------------------------------------------------
// Lowering signatures
// ---------------------------------------------------------------------------

/// What `id`, lowered from the type expression `t`, is fixed to: `unit`
/// for `()`, the binding of a name; any existing type otherwise.
pub open spec fn type_fixed(t: TypeV, types: TypeStore, id: TypeId) -> bool {
    &&& types.valid(id)
    &&& match t {
        TypeV::Unit => id == types.spec_unit(),
        TypeV::Name(n) => types.spec_lookup(n) == Some(id),
        _ => true,
    }
}

/// Lowered parameters follow the surface ones: numbered from 0, with the
/// same flow markers and names, at existing types fixed by theirs.
pub open spec fn params_follow(ps: Seq<LoweredParam>, src: Seq<SurfaceParam>, types: TypeStore) -> bool {
    &&& ps.len() == src.len()
    &&& forall|i: int|
        0 <= i < ps.len() ==> {
            &&& (#[trigger] ps[i]).id == ValueId(i as u32)
            &&& ps[i].flow == src[i].flow
            &&& ps[i].name@ == src[i].name@
            &&& type_fixed(type_view(src[i].ty), types, ps[i].ty)
        }
}

/// `new` holds every function and global of `old`, in the same places and
/// under the same names.
pub open spec fn program_grew(old: CoreProgram, new: CoreProgram) -> bool {
    &&& old.spec_functions().len() <= new.spec_functions().len()
    &&& new.spec_functions().subrange(0, old.spec_functions().len() as int) == old.spec_functions()
    &&& old.spec_global_decls().len() <= new.spec_global_decls().len()
    &&& new.spec_global_decls().subrange(0, old.spec_global_decls().len() as int) == old.spec_global_decls()
    &&& forall|n: Seq<char>|
        lookup(old.spec_function_names(), n) is Some ==> #[trigger] lookup(new.spec_function_names(), n) == lookup(
            old.spec_function_names(),
            n,
        )
    &&& forall|n: Seq<char>|
        lookup(old.spec_global_names(), n) is Some ==> #[trigger] lookup(new.spec_global_names(), n) == lookup(
            old.spec_global_names(),
            n,
        )
}

proof fn lemma_program_grew_refl(p: CoreProgram)
    ensures
        program_grew(p, p),
{
    assert(p.spec_functions().subrange(0, p.spec_functions().len() as int) =~= p.spec_functions());
    assert(p.spec_global_decls().subrange(0, p.spec_global_decls().len() as int) =~= p.spec_global_decls());
}

proof fn lemma_program_grew_trans(a: CoreProgram, b: CoreProgram, c: CoreProgram)
    requires
        program_grew(a, b),
        program_grew(b, c),
    ensures
        program_grew(a, c),
{
    assert(c.spec_functions().subrange(0, a.spec_functions().len() as int) =~= b.spec_functions().subrange(
        0,
        a.spec_functions().len() as int,
    ));
    assert(c.spec_global_decls().subrange(0, a.spec_global_decls().len() as int) =~= b.spec_global_decls().subrange(
        0,
        a.spec_global_decls().len() as int,
    ));
    assert forall|n: Seq<char>| lookup(a.spec_function_names(), n) is Some implies #[trigger] lookup(
        c.spec_function_names(),
        n,
    ) == lookup(a.spec_function_names(), n) by {
        assert(lookup(b.spec_function_names(), n) == lookup(a.spec_function_names(), n));
    }
    assert forall|n: Seq<char>| lookup(a.spec_global_names(), n) is Some implies #[trigger] lookup(
        c.spec_global_names(),
        n,
    ) == lookup(a.spec_global_names(), n) by {
        assert(lookup(b.spec_global_names(), n) == lookup(a.spec_global_names(), n));
    }
}

/// The core function declared for `f`: its name, inputs and outputs.
pub open spec fn declared_as(func: Function, f: LoweredFunction) -> bool {
    &&& opt_string_view(func.name) == Some(f.name@)
    &&& func.inputs@.len() == f.params@.len()
    &&& forall|i: int|
        0 <= i < func.inputs@.len() ==> #[trigger] func.inputs@[i] == (CoreParam {
            id: f.params@[i].id,
            ty: f.params@[i].ty,
        })
    &&& func.outputs@ == f.core_outputs@
}

/// The empty core function that stands for `f` until its body is lowered.
pub open spec fn shell_of(func: Function, f: LoweredFunction) -> bool {
    &&& declared_as(func, f)
    &&& func.body@.len() == 0
    &&& func.returned@.len() == 0
}

/// `f` is the lowered signature of the surface function `src` under the
/// core name `name`, declared in `program` with those inputs and outputs.
pub open spec fn function_declared(
    f: LoweredFunction,
    src: FunctionDef,
    name: Seq<char>,
    types: TypeStore,
    program: CoreProgram,
) -> bool {
    &&& f.name@ == name
    &&& params_follow(f.params@, src.params@, types)
    &&& type_fixed(type_view(src.output), types, f.output)
    &&& f.core_outputs@ == spec_core_outputs(types.spec_unit(), f.params@, f.output)
    &&& crate::frontend::ast::block_view(f.body) == crate::frontend::ast::block_view(src.body)
    &&& lookup(program.spec_function_names(), name) == Some(f.id)
    &&& f.id.0 < program.spec_functions().len()
    &&& declared_as(program.spec_functions()[f.id.0 as int], f)
}

/// `f` is the lowered signature of the surface function `src` under the
/// core name `name`, declared in `program` as an empty shell.
pub open spec fn function_lowered(
    f: LoweredFunction,
    src: FunctionDef,
    name: Seq<char>,
    types: TypeStore,
    program: CoreProgram,
) -> bool {
    &&& f.name@ == name
    &&& params_follow(f.params@, src.params@, types)
    &&& type_fixed(type_view(src.output), types, f.output)
    &&& f.core_outputs@ == spec_core_outputs(types.spec_unit(), f.params@, f.output)
    &&& crate::frontend::ast::block_view(f.body) == crate::frontend::ast::block_view(src.body)
    &&& lookup(program.spec_function_names(), name) == Some(f.id)
    &&& f.id.0 < program.spec_functions().len()
    &&& shell_of(program.spec_functions()[f.id.0 as int], f)
}

/// `g` is the lowered declaration of the surface global `src`.
pub open spec fn global_lowered(g: LoweredGlobal, src: SurfaceGlobal, types: TypeStore, program: CoreProgram) -> bool {
    &&& g.name@ == src.name@
    &&& type_fixed(type_view(src.ty), types, g.ty)
    &&& opt_expr_view(g.value) == opt_expr_view(src.value)
    &&& lookup(program.spec_global_names(), src.name@) == Some(g.id)
    &&& g.id.0 < program.spec_global_decls().len()
    &&& program.spec_global_decls()[g.id.0 as int].name@ == src.name@
    &&& program.spec_global_decls()[g.id.0 as int].ty == g.ty
}

proof fn lemma_type_fixed_stays(t: TypeV, old: TypeStore, new: TypeStore, id: TypeId)
    requires
        old.wf(),
        new.wf(),
        store_extends(old, new),
        type_fixed(t, old, id),
    ensures
        type_fixed(t, new, id),
{
    if let TypeV::Name(n) = t {
        lemma_extends_lookup(old, new, n);
    }
}

proof fn lemma_params_follow_stays(ps: Seq<LoweredParam>, src: Seq<SurfaceParam>, old: TypeStore, new: TypeStore)
    requires
        old.wf(),
        new.wf(),
        store_extends(old, new),
        params_follow(ps, src, old),
    ensures
        params_follow(ps, src, new),
{
    assert forall|i: int| 0 <= i < ps.len() implies type_fixed(type_view(src[i].ty), new, (#[trigger] ps[i]).ty) by {
        lemma_type_fixed_stays(type_view(src[i].ty), old, new, ps[i].ty);
    }
}

proof fn lemma_function_lowered_stays(
    f: LoweredFunction,
    src: FunctionDef,
    name: Seq<char>,
    types: TypeStore,
    program: CoreProgram,
    types2: TypeStore,
    program2: CoreProgram,
)
    requires
        types.wf(),
        types2.wf(),
        store_extends(types, types2),
        program_grew(program, program2),
        function_lowered(f, src, name, types, program),
    ensures
        function_lowered(f, src, name, types2, program2),
{
    lemma_params_follow_stays(f.params@, src.params@, types, types2);
    lemma_type_fixed_stays(type_view(src.output), types, types2, f.output);
    assert(program2.spec_functions()[f.id.0 as int] == program2.spec_functions().subrange(
        0,
        program.spec_functions().len() as int,
    )[f.id.0 as int]);
}

proof fn lemma_global_lowered_stays(
    g: LoweredGlobal,
    src: SurfaceGlobal,
    types: TypeStore,
    program: CoreProgram,
    types2: TypeStore,
    program2: CoreProgram,
)
    requires
        types.wf(),
        types2.wf(),
        store_extends(types, types2),
        program_grew(program, program2),
        global_lowered(g, src, types, program),
    ensures
        global_lowered(g, src, types2, program2),
{
    lemma_type_fixed_stays(type_view(src.ty), types, types2, g.ty);
    assert(program2.spec_global_decls()[g.id.0 as int] == program2.spec_global_decls().subrange(
        0,
        program.spec_global_decls().len() as int,
    )[g.id.0 as int]);
}

impl<'a> TypeLowerer<'a> {
    /// Lowers a top-level type expression.
    fn lower_plain_type(&mut self, ty: &TypeExpr) -> (r: Result<TypeId, LowerError>)
        requires
            old(self).inv(),
        ensures
            final(self).inv(),
            final(self).moved_on(*old(self)),
            r matches Ok(id) ==> type_fixed(type_view(*ty), final(self).types, id),
            plain_type_in(type_view(*ty), old(self).types) ==> r is Ok && *final(self) == *old(self),
            old(self).generic_defs@.len() == 0 ==> (type_view(*ty) matches TypeV::Name(n) ==> (old(
                self,
            ).types.spec_lookup(n) is None ==> (r matches Err(LowerError::UnknownType(m)) && m@ == n))),
    {
        let env: Vec<(String, TypeId)> = Vec::new();
        let ghost start = *self;
        let r = self.lower_type(ty, &env, GENERIC_DEPTH_LIMIT);
        proof {
            if let Ok(id) = r {
                if let TypeV::Name(n) = type_view(*ty) {
                    assert(env_lookup(env@, n) is None);
                    lemma_extends_lookup(start.types, self.types, n);
                }
            }
        }
        r
    }

    /// Lowers parameters, numbering them from 0.
    fn lower_params(&mut self, params: &Vec<SurfaceParam>) -> (r: Result<Vec<LoweredParam>, LowerError>)
        requires
            old(self).inv(),
        ensures
            final(self).inv(),
            final(self).moved_on(*old(self)),
            r matches Ok(ps) ==> params_follow(ps@, params@, final(self).types),
            params@.len() <= 0xFFFF_FFFF && (forall|k: int|
                0 <= k < params@.len() ==> plain_type_in(type_view((#[trigger] params@[k]).ty), old(self).types))
                ==> r is Ok && *final(self) == *old(self),
            old(self).generic_defs@.len() == 0 ==> forall|k: int|
                #[trigger] params_unresolved_at(params@, old(self).types, k) ==> (r matches Err(e) && param_type_error(
                    params@,
                    k,
                    e,
                )),
    {
        proof {
            lemma_extends_refl(self.types);
        }
        if params.len() > 0xFFFF_FFFFusize {
            return Err(LowerError::CapacityExceeded);
        }
        let ghost start = *self;
        let mut out: Vec<LoweredParam> = Vec::new();
        let mut i: usize = 0;
        while i < params.len()
            invariant
                0 <= i <= params@.len() <= 0xFFFF_FFFF,
                start == *old(self),
                self.inv(),
                self.moved_on(start),
                out@.len() == i,
                params_follow(out@, params@.take(i as int), self.types),
                (forall|k: int|
                    0 <= k < params@.len() ==> plain_type_in(type_view((#[trigger] params@[k]).ty), start.types))
                    ==> *self == start,
                start.generic_defs@.len() == 0 ==> forall|k: int|
                    #[trigger] params_unresolved_at(params@, start.types, k) ==> i <= k && *self == start,
            decreases params@.len() - i,
        {
            let ghost before = *self;
            let ty = match self.lower_plain_type(&params[i].ty) {
                Ok(t) => t,
                Err(e) => {
                    proof {
                        if start.generic_defs@.len() == 0 {
                            assert forall|k: int| #[trigger] params_unresolved_at(params@, start.types, k) implies (Err::<
                                Vec<LoweredParam>,
                                LowerError,
                            >(e) matches Err(e2) && param_type_error(params@, k, e2)) by {
                                if k > i {
                                    assert(plain_type_in(type_view(params@[i as int].ty), start.types));
                                }
                            }
                        }
                        Self::lemma_moved_on_trans(start, before, *self);
                        if forall|k: int|
                            0 <= k < params@.len() ==> plain_type_in(type_view((#[trigger] params@[k]).ty), start.types) {
                            assert(plain_type_in(type_view(params@[i as int].ty), start.types));
                        }
                    }
                    return Err(e);
                },
            };
            proof {
                if forall|k: int|
                    0 <= k < params@.len() ==> plain_type_in(type_view((#[trigger] params@[k]).ty), start.types) {
                    assert(plain_type_in(type_view(params@[i as int].ty), start.types));
                }
                if start.generic_defs@.len() == 0 {
                    assert forall|k: int| #[trigger] params_unresolved_at(params@, start.types, k) implies i + 1 <= k
                        && *self == start by {
                        if k > i {
                            assert(plain_type_in(type_view(params@[i as int].ty), start.types));
                        }
                    }
                }
            }
            proof {
                Self::lemma_moved_on_trans(start, before, *self);
                lemma_params_follow_stays(out@, params@.take(i as int), before.types, self.types);
            }
            let p = LoweredParam { id: ValueId(i as u32), flow: params[i].flow, name: params[i].name.clone(), ty };
            proof {
                let src = params@.take(i + 1);
                assert forall|j: int| 0 <= j < i + 1 implies {
                    &&& (#[trigger] out@.push(p)[j]).id == ValueId(j as u32)
                    &&& out@.push(p)[j].flow == src[j].flow
                    &&& out@.push(p)[j].name@ == src[j].name@
                    &&& type_fixed(type_view(src[j].ty), self.types, out@.push(p)[j].ty)
                } by {
                    if j < i {
                        assert(out@.push(p)[j] == out@[j]);
                        assert(src[j] == params@.take(i as int)[j]);
                    }
                }
            }
            out.push(p);
            i += 1;
        }
        proof {
            assert(params@.take(params@.len() as int) =~= params@);
        }
        Ok(out)
    }

    /// Lowers a function's signature into an empty core function named
    /// `core_name`.
    fn lower_function_signature(&mut self, program: &mut CoreProgram, function: &FunctionDef, core_name: String) -> (r:
        Result<LoweredFunction, LowerError>)
        requires
            old(self).inv(),
            old(program).wf(),
        ensures
            final(self).inv(),
            final(self).moved_on(*old(self)),
            final(program).wf(),
            program_grew(*old(program), *final(program)),
            function.generics@.len() > 0 ==> (r matches Err(LowerError::UnsupportedGenericDecl { name }) && name@
                == function.name@),
            function.generics@.len() == 0 && old(self).generic_defs@.len() == 0 ==> forall|k: int|
                #[trigger] params_unresolved_at(function.params@, old(self).types, k) ==> (r matches Err(e)
                    && param_type_error(function.params@, k, e)),
            r matches Ok(f) ==> function_lowered(f, *function, core_name@, final(self).types, *final(program)),
            r matches Ok(f) ==> f.id.0 == old(program).spec_functions().len(),
            r is Ok ==> final(program).spec_functions().len() == old(program).spec_functions().len() + 1
                && final(program).spec_global_decls().len() == old(program).spec_global_decls().len(),
            ({
                &&& plain_signature_in(*function, old(self).types)
                &&& core_name@.len() > 0
                &&& !old(program).name_taken(core_name@)
                &&& old(program).spec_functions().len() < 0xFFFF_FFFF
            }) ==> {
                &&& r is Ok
                &&& *final(self) == *old(self)
                &&& forall|n: Seq<char>|
                    #[trigger] final(program).name_taken(n) <==> (old(program).name_taken(n) || n == core_name@)
            },
    {
        proof {
            lemma_extends_refl(self.types);
            lemma_program_grew_refl(*program);
        }
        match reject_generics(function.name.as_str(), &function.generics) {
            Ok(()) => {},
            Err(e) => {
                return Err(e);
            },
        }
        let ghost start = *self;
        let params = match self.lower_params(&function.params) {
            Ok(p) => p,
            Err(e) => {
                return Err(e);
            },
        };
        proof {
            if plain_signature_in(*function, start.types) {
                assert(*self == start);
            }
        }
        let ghost mid = *self;
        let output = match self.lower_plain_type(&function.output) {
            Ok(t) => t,
            Err(e) => {
                proof {
                    Self::lemma_moved_on_trans(start, mid, *self);
                }
                return Err(e);
            },
        };
        proof {
            Self::lemma_moved_on_trans(start, mid, *self);
            lemma_params_follow_stays(params@, function.params@, mid.types, self.types);
        }
        let core_outputs = core_output_types(self.types.unit(), &params, output);
        let mut inputs: Vec<CoreParam> = Vec::new();
        let mut i: usize = 0;
        while i < params.len()
            invariant
                0 <= i <= params@.len(),
                inputs@.len() == i,
                forall|j: int|
                    0 <= j < i ==> #[trigger] inputs@[j] == (CoreParam { id: params@[j].id, ty: params@[j].ty }),
            decreases params@.len() - i,
        {
            inputs.push(CoreParam::new(params[i].id, params[i].ty));
            i += 1;
        }
        if program.function_count() >= 0xFFFF_FFFFusize {
            return Err(LowerError::CapacityExceeded);
        }
        let shell = Function {
            name: Some(core_name.clone()),
            inputs,
            outputs: copy_ids(&core_outputs),
            body: Vec::new(),
            returned: Vec::new(),
        };
        let ghost p0 = *program;
        let ghost sh = shell;
        let id = match program.add_function(shell) {
            Ok(id) => id,
            Err(e) => {
                return Err(LowerError::Core(e));
            },
        };
        proof {
            assert forall|n: Seq<char>| #[trigger] program.name_taken(n) <==> (p0.name_taken(n) || n == core_name@) by {
                crate::names::lemma_lookup_push(p0.spec_function_names(), (core_name@, id), n);
            }
            crate::names::lemma_lookup_some(p0.spec_function_names(), core_name@);
            crate::names::lemma_lookup_push(p0.spec_function_names(), (core_name@, id), core_name@);
            assert forall|n: Seq<char>| lookup(p0.spec_function_names(), n) is Some implies #[trigger] lookup(
                program.spec_function_names(),
                n,
            ) == lookup(p0.spec_function_names(), n) by {
                crate::names::lemma_lookup_push(p0.spec_function_names(), (core_name@, id), n);
            }
            assert(program.spec_functions().subrange(0, p0.spec_functions().len() as int) =~= p0.spec_functions());
            assert(program.spec_global_decls().subrange(0, p0.spec_global_decls().len() as int)
                =~= p0.spec_global_decls());
            assert(program.spec_functions()[id.0 as int] == sh);
        }
        Ok(
            LoweredFunction {
                id,
                name: core_name,
                params,
                output,
                core_outputs,
                body: crate::frontend::parse::copy_block(&function.body),
            },
        )
    }

    /// Lowers a global's declaration.
    fn lower_global_signature(&mut self, program: &mut CoreProgram, global: &SurfaceGlobal) -> (r: Result<
        LoweredGlobal,
        LowerError,
    >)
        requires
            old(self).inv(),
            old(program).wf(),
        ensures
            final(self).inv(),
            final(self).moved_on(*old(self)),
            final(program).wf(),
            program_grew(*old(program), *final(program)),
            r matches Ok(g) ==> global_lowered(g, *global, final(self).types, *final(program)),
            r is Ok ==> final(program).spec_global_decls().len() == old(program).spec_global_decls().len() + 1
                && final(program).spec_functions().len() == old(program).spec_functions().len(),
    {
        proof {
            lemma_program_grew_refl(*program);
        }
        let ty = match self.lower_plain_type(&global.ty) {
            Ok(t) => t,
            Err(e) => {
                return Err(e);
            },
        };
        if program.global_count() >= 0xFFFF_FFFFusize {
            return Err(LowerError::CapacityExceeded);
        }
        let ghost p0 = *program;
        let decl = GlobalDecl::new(global.name.as_str(), ty);
        let ghost d = decl;
        let id = match program.add_global_decl(decl) {
            Ok(id) => id,
            Err(e) => {
                return Err(LowerError::Core(e));
            },
        };
        proof {
            crate::names::lemma_lookup_some(p0.spec_global_names(), global.name@);
            crate::names::lemma_lookup_push(p0.spec_global_names(), (global.name@, id), global.name@);
            assert forall|n: Seq<char>| lookup(p0.spec_global_names(), n) is Some implies #[trigger] lookup(
                program.spec_global_names(),
                n,
            ) == lookup(p0.spec_global_names(), n) by {
                crate::names::lemma_lookup_push(p0.spec_global_names(), (global.name@, id), n);
            }
            assert(program.spec_functions().subrange(0, p0.spec_functions().len() as int) =~= p0.spec_functions());
            assert(program.spec_global_decls().subrange(0, p0.spec_global_decls().len() as int)
                =~= p0.spec_global_decls());
            assert(program.spec_global_decls()[id.0 as int] == d);
        }
        let value = match &global.value {
            Some(v) => Some(crate::frontend::parse::copy_expr(v)),
            None => None,
        };
        Ok(LoweredGlobal { id, name: global.name.clone(), ty, value })
    }
}


/// The global items of `items`, in order.
pub open spec fn global_items(items: Seq<Item>) -> Seq<SurfaceGlobal>
    decreases items.len(),
{
    if items.len() == 0 {
        Seq::empty()
    } else {
        let rest = global_items(items.drop_last());
        match items.last() {
            Item::Global(g) => rest.push(g),
            _ => rest,
        }
    }
}

/// The function items of `items`, in order.
pub open spec fn function_items(items: Seq<Item>) -> Seq<FunctionDef>
    decreases items.len(),
{
    if items.len() == 0 {
        Seq::empty()
    } else {
        let rest = function_items(items.drop_last());
        match items.last() {
            Item::Function(f) => rest.push(f),
            _ => rest,
        }
    }
}

/// The methods of a block, each with the block's target and trait.
pub open spec fn block_methods(b: ImplBlock) -> Seq<(TypeExpr, Option<TypeExpr>, FunctionDef)> {
    b.methods@.map_values(|m: FunctionDef| (b.target, b.trait_ref, m))
}

/// The methods of the impl blocks of `items`, in order.
pub open spec fn impl_methods(items: Seq<Item>) -> Seq<(TypeExpr, Option<TypeExpr>, FunctionDef)>
    decreases items.len(),
{
    if items.len() == 0 {
        Seq::empty()
    } else {
        let rest = impl_methods(items.drop_last());
        match items.last() {
            Item::Impl(b) => rest + block_methods(b),
            _ => rest,
        }
    }
}

/// The core name of a method: its target's name, the trait's name if the
/// block implements one, and its own name, joined by `.`.
pub open spec fn method_core_name(target: TypeV, trait_ref: Option<TypeV>, m: Seq<char>) -> Option<Seq<char>> {
    match core_type_name(target) {
        None => None,
        Some(t) => match trait_ref {
            None => Some(t + seq!['.'] + m),
            Some(tr) => match core_type_name(tr) {
                Some(n) => Some(t + seq!['.'] + n + seq!['.'] + m),
                None => None,
            },
        },
    }
}

/// The core name of method `m` of an impl on the type named `t`.
pub open spec fn method_full_name(t: Seq<char>, m: Seq<char>) -> Seq<char> {
    t + seq!['.'] + m
}

/// Method core names on one type are as distinct as the methods' names.
proof fn lemma_method_names_distinct(t: Seq<char>, a: Seq<char>, b: Seq<char>)
    requires
        method_full_name(t, a) == method_full_name(t, b),
    ensures
        a == b,
{
    let x = method_full_name(t, a);
    assert(a =~= x.subrange(t.len() + 1int, x.len() as int));
    assert(b =~= method_full_name(t, b).subrange(t.len() + 1int, x.len() as int));
}

/// The core names an item declares: a function's name, or the core names
/// of the methods of an impl on a named type.
pub open spec fn item_core_names(item: Item) -> Seq<Seq<char>> {
    match item {
        Item::Function(f) => seq![f.name@],
        Item::Impl(b) => match type_view(b.target) {
            TypeV::Name(t) => b.methods@.map_values(|m: FunctionDef| method_full_name(t, m.name@)),
            _ => Seq::empty(),
        },
        _ => Seq::empty(),
    }
}

/// `n` is a core name that an item before `i` declares.
pub open spec fn declared_before(items: Seq<Item>, i: int, n: Seq<char>) -> bool {
    exists|j: int, k: int|
        0 <= j < i && 0 <= k < item_core_names(items[j]).len() && #[trigger] item_core_names(items[j])[k] == n
}

/// A type of a signature is `()` or a name the module binds.
pub open spec fn module_type_plain(items: Seq<Item>, t: TypeV) -> bool {
    t is Unit || (t matches TypeV::Name(n) && bound_before(items, items.len() as int, n))
}

/// A signature of a function or method whose types the module binds.
pub open spec fn module_signature_plain(items: Seq<Item>, f: FunctionDef) -> bool {
    &&& f.generics@.len() == 0
    &&& f.params@.len() <= 0xFFFF_FFFF
    &&& module_type_plain(items, type_view(f.output))
    &&& forall|k: int| 0 <= k < f.params@.len() ==> module_type_plain(items, type_view((#[trigger] f.params@[k]).ty))
}

/// Item `i` has a plain signature, an impl block being allowed: a function
/// as `plain_signatures` asks, under a name no item before declares; an
/// impl on a bound type name, with no generics or trait, fewer than
/// `0x8000` methods of plain signatures, distinct names, and core names no
/// item before declares. No global or trait.
pub open spec fn signature_item_with_impls(items: Seq<Item>, i: int) -> bool {
    match items[i] {
        Item::Function(f) => {
            &&& f.name@.len() > 0
            &&& module_signature_plain(items, f)
            &&& !declared_before(items, i, f.name@)
        },
        Item::Impl(b) => {
            &&& b.generics@.len() == 0
            &&& b.trait_ref is None
            &&& type_view(b.target) matches TypeV::Name(t)
            &&& bound_before(items, items.len() as int, t)
            &&& b.methods@.len() < 0x8000
            &&& forall|m: int| 0 <= m < b.methods@.len() ==> module_signature_plain(items, #[trigger] b.methods@[m])
            &&& forall|m: int|
                0 <= m < b.methods@.len() ==> !declared_before(
                    items,
                    i,
                    method_full_name(t, (#[trigger] b.methods@[m]).name@),
                )
            &&& forall|m: int, l: int|
                0 <= m < l < b.methods@.len() ==> (#[trigger] b.methods@[m]).name@ != (#[trigger] b.methods@[l]).name@
        },
        Item::Global(_) => false,
        Item::Trait(_) => false,
        _ => true,
    }
}

/// Every item has a plain signature, impl blocks allowed, in a module of
/// fewer than `0x10000` items.
pub open spec fn impl_signatures(items: Seq<Item>) -> bool {
    &&& items.len() < 0x10000
    &&& forall|i: int| 0 <= i < items.len() ==> #[trigger] signature_item_with_impls(items, i)
}

proof fn lemma_declared_step(items: Seq<Item>, i: int, n: Seq<char>)
    requires
        0 <= i < items.len(),
    ensures
        declared_before(items, i + 1, n) <==> (declared_before(items, i, n) || exists|k: int|
            0 <= k < item_core_names(items[i]).len() && #[trigger] item_core_names(items[i])[k] == n),
{
    if declared_before(items, i + 1, n) {
        let (j, k) = choose|j: int, k: int|
            0 <= j < i + 1 && 0 <= k < item_core_names(items[j]).len() && #[trigger] item_core_names(items[j])[k] == n;
        if j < i {
            assert(declared_before(items, i, n));
        }
    }
    if declared_before(items, i, n) {
        let (j, k) = choose|j: int, k: int|
            0 <= j < i && 0 <= k < item_core_names(items[j]).len() && #[trigger] item_core_names(items[j])[k] == n;
        assert(0 <= j < i + 1);
    }
    if exists|k: int| 0 <= k < item_core_names(items[i]).len() && #[trigger] item_core_names(items[i])[k] == n {
        let k = choose|k: int| 0 <= k < item_core_names(items[i]).len() && #[trigger] item_core_names(items[i])[k] == n;
        assert(0 <= i < i + 1);
    }
}

/// An impl block that lowers against `types` into `program`: not generic,
/// no trait, its target a bound type name, its methods of plain
/// signatures, distinct names, and core names the program does not take.
pub open spec fn impl_plain_in(b: ImplBlock, types: TypeStore, program: CoreProgram) -> bool {
    &&& b.generics@.len() == 0
    &&& b.trait_ref is None
    &&& type_view(b.target) matches TypeV::Name(t)
    &&& types.spec_lookup(t) is Some
    &&& program.spec_functions().len() + b.methods@.len() < 0xFFFF_FFFF
    &&& forall|j: int| 0 <= j < b.methods@.len() ==> plain_signature_in(#[trigger] b.methods@[j], types)
    &&& forall|j: int|
        0 <= j < b.methods@.len() ==> !program.name_taken(method_full_name(t, (#[trigger] b.methods@[j]).name@))
    &&& forall|j: int, l: int|
        0 <= j < l < b.methods@.len() ==> (#[trigger] b.methods@[j]).name@ != (#[trigger] b.methods@[l]).name@
}

/// `lm` is the lowered method of the impl method `src`.
pub open spec fn method_lowered(
    lm: LoweredMethod,
    src: (TypeExpr, Option<TypeExpr>, FunctionDef),
    types: TypeStore,
    program: CoreProgram,
) -> bool {
    &&& lm.method@ == src.2.name@
    &&& type_fixed(type_view(src.0), types, lm.owner)
    &&& method_core_name(
        type_view(src.0),
        crate::frontend::ast::opt_type_view(src.1),
        src.2.name@,
    ) matches Some(n) && function_lowered(lm.function, src.2, n, types, program)
}

pub open spec fn globals_lowered(gs: Seq<LoweredGlobal>, src: Seq<SurfaceGlobal>, types: TypeStore, program: CoreProgram) -> bool {
    &&& gs.len() == src.len()
    &&& forall|k: int| 0 <= k < gs.len() ==> global_lowered(#[trigger] gs[k], src[k], types, program)
}

pub open spec fn functions_lowered(
    fs: Seq<LoweredFunction>,
    src: Seq<FunctionDef>,
    types: TypeStore,
    program: CoreProgram,
) -> bool {
    &&& fs.len() == src.len()
    &&& forall|k: int| 0 <= k < fs.len() ==> function_lowered(#[trigger] fs[k], src[k], src[k].name@, types, program)
}

pub open spec fn methods_lowered(
    ms: Seq<LoweredMethod>,
    src: Seq<(TypeExpr, Option<TypeExpr>, FunctionDef)>,
    types: TypeStore,
    program: CoreProgram,
) -> bool {
    &&& ms.len() == src.len()
    &&& forall|k: int| 0 <= k < ms.len() ==> method_lowered(#[trigger] ms[k], src[k], types, program)
}

proof fn lemma_lowered_stay(
    gs: Seq<LoweredGlobal>,
    gsrc: Seq<SurfaceGlobal>,
    fs: Seq<LoweredFunction>,
    fsrc: Seq<FunctionDef>,
    ms: Seq<LoweredMethod>,
    msrc: Seq<(TypeExpr, Option<TypeExpr>, FunctionDef)>,
    t1: TypeStore,
    p1: CoreProgram,
    t2: TypeStore,
    p2: CoreProgram,
)
    requires
        t1.wf(),
        t2.wf(),
        store_extends(t1, t2),
        program_grew(p1, p2),
        globals_lowered(gs, gsrc, t1, p1),
        functions_lowered(fs, fsrc, t1, p1),
        methods_lowered(ms, msrc, t1, p1),
    ensures
        globals_lowered(gs, gsrc, t2, p2),
        functions_lowered(fs, fsrc, t2, p2),
        methods_lowered(ms, msrc, t2, p2),
{
    assert forall|k: int| 0 <= k < gs.len() implies global_lowered(#[trigger] gs[k], gsrc[k], t2, p2) by {
        lemma_global_lowered_stays(gs[k], gsrc[k], t1, p1, t2, p2);
    }
    assert forall|k: int| 0 <= k < fs.len() implies function_lowered(#[trigger] fs[k], fsrc[k], fsrc[k].name@, t2, p2) by {
        lemma_function_lowered_stays(fs[k], fsrc[k], fsrc[k].name@, t1, p1, t2, p2);
    }
    assert forall|k: int| 0 <= k < ms.len() implies method_lowered(#[trigger] ms[k], msrc[k], t2, p2) by {
        let src = msrc[k];
        lemma_type_fixed_stays(type_view(src.0), t1, t2, ms[k].owner);
        let n = method_core_name(
            type_view(src.0),
            crate::frontend::ast::opt_type_view(src.1),
            src.2.name@,
        )->0;
        lemma_function_lowered_stays(ms[k].function, src.2, n, t1, p1, t2, p2);
    }
}

/// The core name of a method, as a string.
fn method_name(target: &TypeExpr, trait_name: &Option<String>, m: &String) -> (r: Result<String, LowerError>)
    ensures
        core_type_name(type_view(*target)) matches Some(t) ==> (r matches Ok(s) && s@ == match trait_name {
            None => t + seq!['.'] + m@,
            Some(n) => t + seq!['.'] + n@ + seq!['.'] + m@,
        }),
        core_type_name(type_view(*target)) is None ==> r == Err::<String, LowerError>(
            LowerError::UnsupportedAnonymousImplTarget,
        ),
{
    let mut out = match type_expr_core_name(target) {
        Ok(t) => t,
        Err(e) => {
            return Err(e);
        },
    };
    out.push('.');
    if let Some(n) = trait_name {
        push_chars(&mut out, n.as_str());
        out.push('.');
    }
    push_chars(&mut out, m.as_str());
    Ok(out)
}


impl<'a> TypeLowerer<'a> {
    /// Lowers the methods of an impl block, each under its core name.
    fn lower_impl_block(
        &mut self,
        program: &mut CoreProgram,
        b: &ImplBlock,
        methods: &mut Vec<LoweredMethod>,
        Ghost(msrc): Ghost<Seq<(TypeExpr, Option<TypeExpr>, FunctionDef)>>,
    ) -> (r: Result<(), LowerError>)
        requires
            old(self).inv(),
            old(program).wf(),
            methods_lowered(old(methods)@, msrc, old(self).types, *old(program)),
        ensures
            final(self).inv(),
            final(self).moved_on(*old(self)),
            final(program).wf(),
            program_grew(*old(program), *final(program)),
            b.generics@.len() > 0 ==> r matches Err(LowerError::UnsupportedGenericDecl { name }),
            r is Ok ==> {
                &&& methods_lowered(final(methods)@, msrc + block_methods(*b), final(self).types, *final(program))
                &&& final(program).spec_functions().len() == old(program).spec_functions().len() + b.methods@.len()
                &&& final(program).spec_global_decls().len() == old(program).spec_global_decls().len()
            },
            impl_plain_in(*b, old(self).types, *old(program)) ==> {
                &&& r is Ok
                &&& *final(self) == *old(self)
                &&& forall|n: Seq<char>|
                    #[trigger] final(program).name_taken(n) <==> (old(program).name_taken(n) || exists|j: int|
                        0 <= j < b.methods@.len() && n == method_full_name(
                            type_view(b.target)->Name_0,
                            #[trigger] b.methods@[j].name@,
                        ))
            },
    {
        proof {
            lemma_extends_refl(self.types);
            lemma_program_grew_refl(*program);
        }
        let impl_word = "impl".to_owned();
        match reject_generics(impl_word.as_str(), &b.generics) {
            Ok(()) => {},
            Err(e) => {
                return Err(e);
            },
        }
        let ghost start = *self;
        let ghost p0 = *program;
        let owner = match self.lower_plain_type(&b.target) {
            Ok(t) => t,
            Err(e) => {
                return Err(e);
            },
        };
        let trait_name = match &b.trait_ref {
            Some(t) => match type_expr_core_name(t) {
                Ok(n) => Some(n),
                Err(e) => {
                    return Err(e);
                },
            },
            None => None,
        };
        let ghost bm = block_methods(*b);
        let ghost base = old(methods)@.len();
        let ghost ip = impl_plain_in(*b, start.types, p0);
        let ghost tn = type_view(b.target)->Name_0;
        proof {
            lemma_program_grew_refl(*program);
            lemma_lowered_stay(
                Seq::empty(),
                Seq::empty(),
                Seq::empty(),
                Seq::empty(),
                methods@,
                msrc,
                start.types,
                p0,
                self.types,
                *program,
            );
        }
        let mut j: usize = 0;
        while j < b.methods.len()
            invariant
                0 <= j <= b.methods@.len(),
                start == *old(self),
                p0 == *old(program),
                bm == block_methods(*b),
                b.generics@.len() == 0,
                base == old(methods)@.len(),
                self.inv(),
                self.moved_on(start),
                program.wf(),
                program_grew(p0, *program),
                program.spec_functions().len() == p0.spec_functions().len() + j,
                program.spec_global_decls().len() == p0.spec_global_decls().len(),
                type_fixed(type_view(b.target), self.types, owner),
                match trait_name {
                    Some(n) => b.trait_ref matches Some(t) && core_type_name(type_view(t)) == Some(n@),
                    None => b.trait_ref is None,
                },
                methods_lowered(methods@, msrc + bm.take(j as int), self.types, *program),
                ip == impl_plain_in(*b, start.types, p0),
                ip ==> tn == type_view(b.target)->Name_0 && trait_name is None,
                ip ==> *self == start,
                ip ==> forall|n: Seq<char>|
                    #[trigger] program.name_taken(n) <==> (p0.name_taken(n) || exists|l: int|
                        0 <= l < j && n == method_full_name(tn, #[trigger] b.methods@[l].name@)),
            decreases b.methods@.len() - j,
        {
            let core_name = match method_name(&b.target, &trait_name, &b.methods[j].name) {
                Ok(n) => n,
                Err(e) => {
                    return Err(e);
                },
            };
            let ghost before = *self;
            let ghost p1 = *program;
            proof {
                if ip {
                    assert(plain_signature_in(b.methods@[j as int], self.types));
                    assert(core_name@ == method_full_name(tn, b.methods@[j as int].name@));
                    assert(!program.name_taken(core_name@)) by {
                        if program.name_taken(core_name@) {
                            if !p0.name_taken(core_name@) {
                                let l = choose|l: int|
                                    0 <= l < j && core_name@ == method_full_name(tn, #[trigger] b.methods@[l].name@);
                                lemma_method_names_distinct(tn, b.methods@[l].name@, b.methods@[j as int].name@);
                            }
                        }
                    }
                }
            }
            let ghost core_view = core_name@;
            let function = match self.lower_function_signature(program, &b.methods[j], core_name) {
                Ok(f) => f,
                Err(e) => {
                    proof {
                        Self::lemma_moved_on_trans(start, before, *self);
                        lemma_program_grew_trans(p0, p1, *program);
                    }
                    return Err(e);
                },
            };
            proof {
                Self::lemma_moved_on_trans(start, before, *self);
                lemma_program_grew_trans(p0, p1, *program);
                lemma_lowered_stay(
                    Seq::empty(),
                    Seq::empty(),
                    Seq::empty(),
                    Seq::empty(),
                    methods@,
                    msrc + bm.take(j as int),
                    before.types,
                    p1,
                    self.types,
                    *program,
                );
                lemma_type_fixed_stays(type_view(b.target), before.types, self.types, owner);
            }
            let lm = LoweredMethod { owner, method: b.methods[j].name.clone(), function };
            proof {
                let src = msrc + bm.take(j + 1);
                assert(src =~= (msrc + bm.take(j as int)).push(bm[j as int]));
                assert(bm[j as int] == (b.target, b.trait_ref, b.methods@[j as int]));
                assert(method_lowered(lm, bm[j as int], self.types, *program));
                assert forall|k: int| 0 <= k < methods@.push(lm).len() implies method_lowered(
                    #[trigger] methods@.push(lm)[k],
                    src[k],
                    self.types,
                    *program,
                ) by {
                    if k < methods@.len() {
                        assert(methods@.push(lm)[k] == methods@[k]);
                        assert(src[k] == (msrc + bm.take(j as int))[k]);
                    }
                }
            }
            methods.push(lm);
            proof {
                if ip {
                    assert forall|n: Seq<char>| #[trigger] program.name_taken(n) <==> (p0.name_taken(n) || exists|l: int|
                        0 <= l < j + 1 && n == method_full_name(tn, #[trigger] b.methods@[l].name@)) by {
                        if n == core_view {
                            assert(n == method_full_name(tn, b.methods@[j as int].name@));
                        }
                        if exists|l: int| 0 <= l < j + 1 && n == method_full_name(tn, #[trigger] b.methods@[l].name@) {
                            let l = choose|l: int|
                                0 <= l < j + 1 && n == method_full_name(tn, #[trigger] b.methods@[l].name@);
                            if l < j {
                                assert(p1.name_taken(n));
                            }
                        }
                    }
                }
            }
            j += 1;
        }
        proof {
            assert(bm.take(b.methods@.len() as int) =~= bm);
        }
        Ok(())
    }

    /// Lowers the globals, functions and impl methods of a module into
    /// declarations and empty function shells of a new core program.
    fn lower_signatures(self, module: &Module) -> (r: Result<LoweredModule, LowerError>)
        requires
            self.inv(),
        ensures
            r matches Ok(m) ==> {
                &&& m.types.wf()
                &&& store_extends(self.types, m.types)
                &&& m.program.wf()
                &&& globals_lowered(m.globals@, global_items(module.items@), m.types, m.program)
                &&& functions_lowered(m.functions@, function_items(module.items@), m.types, m.program)
                &&& methods_lowered(m.methods@, impl_methods(module.items@), m.types, m.program)
                &&& m.program.spec_functions().len() == m.functions@.len() + m.methods@.len()
                &&& m.program.spec_global_decls().len() == m.globals@.len()
                &&& m.flow_warnings@.len() == 0
                &&& forall|i: int|
                    0 <= i < self.generic_defs@.len() ==> m.types.spec_lookup(
                        (#[trigger] self.generic_defs@[i]).def.name@,
                    ) is None
            },
            ({
                &&& plain_signatures(module.items@)
                &&& module.items@.len() < 0x1000_0000
                &&& forall|n: Seq<char>|
                    #[trigger] self.types.spec_lookup(n) is Some <==> bound_before(
                        module.items@,
                        module.items@.len() as int,
                        n,
                    )
            }) ==> r is Ok,
            ({
                &&& module.items@.len() < 0x1000_0000
                &&& self.generic_defs@.len() == 0
                &&& forall|n: Seq<char>|
                    #[trigger] self.types.spec_lookup(n) is Some <==> bound_before(
                        module.items@,
                        module.items@.len() as int,
                        n,
                    )
            }) ==> forall|b: int, k: int|
                #[trigger] signature_param_unresolved(module.items@, b, k) ==> (r matches Err(e)
                    && signature_param_error(module.items@, b, k, e)),
            plain_signatures(module.items@) ==> (r matches Ok(m) ==> m.methods@.len() == 0 && forall|k: int|
                0 <= k < m.functions@.len() ==> (#[trigger] m.functions@[k]).id.0 == k),
            ({
                &&& impl_signatures(module.items@)
                &&& forall|n: Seq<char>|
                    #[trigger] self.types.spec_lookup(n) is Some <==> bound_before(
                        module.items@,
                        module.items@.len() as int,
                        n,
                    )
            }) ==> r is Ok,
    {
        let ghost wide = {
            &&& module.items@.len() < 0x10000
            &&& forall|n: Seq<char>|
                #[trigger] self.types.spec_lookup(n) is Some <==> bound_before(
                    module.items@,
                    module.items@.len() as int,
                    n,
                )
        };
        let ghost base = {
            &&& module.items@.len() < 0x1000_0000
            &&& forall|n: Seq<char>|
                #[trigger] self.types.spec_lookup(n) is Some <==> bound_before(
                    module.items@,
                    module.items@.len() as int,
                    n,
                )
        };
        let ghost plain = {
            &&& plain_signatures(module.items@)
            &&& module.items@.len() < 0x1000_0000
            &&& forall|n: Seq<char>|
                #[trigger] self.types.spec_lookup(n) is Some <==> bound_before(
                    module.items@,
                    module.items@.len() as int,
                    n,
                )
        };
        let mut this = self;
        let ghost start = this;
        let mut program = CoreProgram::new();
        let mut globals: Vec<LoweredGlobal> = Vec::new();
        let mut functions: Vec<LoweredFunction> = Vec::new();
        let mut methods: Vec<LoweredMethod> = Vec::new();
        let items = &module.items;
        proof {
            lemma_extends_refl(this.types);
            assert(items@.take(0) =~= Seq::<Item>::empty());
        }
        let mut i: usize = 0;
        while i < items.len()
            invariant
                0 <= i <= items@.len(),
                items == &module.items,
                this.inv(),
                this.moved_on(start),
                program.wf(),
                globals_lowered(globals@, global_items(items@.take(i as int)), this.types, program),
                functions_lowered(functions@, function_items(items@.take(i as int)), this.types, program),
                methods_lowered(methods@, impl_methods(items@.take(i as int)), this.types, program),
                program.spec_functions().len() == functions@.len() + methods@.len(),
                program.spec_global_decls().len() == globals@.len(),
                base && (forall|j: int| 0 <= j < i ==> #[trigger] signature_item_plain(items@, j)) ==> {
                    &&& this == start
                    &&& program.spec_functions().len() <= i
                    &&& forall|n: Seq<char>|
                        #[trigger] program.name_taken(n) <==> exists|j: int|
                            0 <= j < i && item_function_name(#[trigger] items@[j]) == Some(n)
                },
                base == ({
                    &&& module.items@.len() < 0x1000_0000
                    &&& forall|n: Seq<char>|
                        #[trigger] self.types.spec_lookup(n) is Some <==> bound_before(
                            module.items@,
                            module.items@.len() as int,
                            n,
                        )
                }),
                start == self,
                base && self.generic_defs@.len() == 0 ==> forall|b: int, k: int|
                    #[trigger] signature_param_unresolved(items@, b, k) ==> i <= b,
                (forall|j: int| 0 <= j < i ==> #[trigger] signature_item_plain(items@, j)) ==> methods@.len() == 0
                    && forall|k: int| 0 <= k < functions@.len() ==> (#[trigger] functions@[k]).id.0 == k,
                plain == ({
                    &&& plain_signatures(module.items@)
                    &&& module.items@.len() < 0x1000_0000
                    &&& forall|n: Seq<char>|
                        #[trigger] self.types.spec_lookup(n) is Some <==> bound_before(
                            module.items@,
                            module.items@.len() as int,
                            n,
                        )
                }),
                start.types == self.types,
                wide == ({
                    &&& module.items@.len() < 0x10000
                    &&& forall|n: Seq<char>|
                        #[trigger] self.types.spec_lookup(n) is Some <==> bound_before(
                            module.items@,
                            module.items@.len() as int,
                            n,
                        )
                }),
                wide && (forall|j: int| 0 <= j < i ==> #[trigger] signature_item_with_impls(items@, j)) ==> {
                    &&& this == start
                    &&& program.spec_functions().len() <= i * 0x8000
                    &&& forall|n: Seq<char>| #[trigger] program.name_taken(n) <==> declared_before(items@, i as int, n)
                },
            decreases items@.len() - i,
        {
            let ghost wprefix = wide && (forall|j: int| 0 <= j < i ==> #[trigger] signature_item_with_impls(items@, j));
            let ghost wstep = wprefix && signature_item_with_impls(items@, i as int);
            proof {
                if wide && impl_signatures(module.items@) {
                    assert forall|j: int| 0 <= j < i + 1 implies #[trigger] signature_item_with_impls(items@, j) by {}
                    assert(wstep);
                }
            }
            let ghost before = this;
            let ghost p0 = program;
            let ghost f0 = functions@;
            let ghost m0 = methods@;
            let ghost pre = items@.take(i as int);
            let ghost item_i = items@[i as int];
            let ghost sprefix = base && (forall|j: int| 0 <= j < i ==> #[trigger] signature_item_plain(items@, j));
            let ghost step = sprefix && signature_item_plain(items@, i as int);
            proof {
                if plain {
                    assert forall|j: int| 0 <= j < i + 1 implies #[trigger] signature_item_plain(items@, j) by {
                        assert(plain_signatures(module.items@));
                        assert(items@[j] == module.items@[j]);
                    }
                    assert(step);
                }
                if step {
                    assert(match item_i {
                        Item::Global(_) => false,
                        Item::Impl(_) => false,
                        Item::Trait(_) => false,
                        _ => true,
                    });
                    if let Item::Function(f) = item_i {
                        assert(!p0.name_taken(f.name@)) by {
                            if p0.name_taken(f.name@) {
                                let j = choose|j: int| 0 <= j < i && item_function_name(#[trigger] items@[j]) == Some(f.name@);
                            }
                        }
                        assert(plain_signature_in(f, this.types)) by {
                            assert forall|k: int| 0 <= k < f.params@.len() implies plain_type_in(
                                type_view((#[trigger] f.params@[k]).ty),
                                this.types,
                            ) by {
                                if let TypeV::Name(n) = type_view(f.params@[k].ty) {
                                    assert(bound_before(items@, items@.len() as int, n));
                                }
                            }
                            if let TypeV::Name(n) = type_view(f.output) {
                                assert(bound_before(items@, items@.len() as int, n));
                            }
                        }
                    }
                }
            }
            proof {
                assert(items@.take(i + 1).drop_last() =~= pre);
                assert(items@.take(i + 1).last() == items@[i as int]);
            }
            match &items[i] {
                Item::Global(g) => {
                    let lg = match this.lower_global_signature(&mut program, g) {
                        Ok(x) => x,
                        Err(e) => {
                            proof {
                                if base && start.generic_defs@.len() == 0 {
                                    assert forall|b: int, k: int| #[trigger] signature_param_unresolved(items@, b, k) implies false by {
                                        if b > i {
                                            assert(signature_item_plain(items@, i as int));
                                        }
                                    }
                                }
                            }
                            return Err(e);
                        },
                    };
                    proof {
                        Self::lemma_moved_on_trans(start, before, this);
                        lemma_lowered_stay(
                            globals@,
                            global_items(pre),
                            functions@,
                            function_items(pre),
                            methods@,
                            impl_methods(pre),
                            before.types,
                            p0,
                            this.types,
                            program,
                        );
                        let src = global_items(items@.take(i + 1));
                        assert(src =~= global_items(pre).push(*g));
                        assert forall|k: int| 0 <= k < globals@.push(lg).len() implies global_lowered(
                            #[trigger] globals@.push(lg)[k],
                            src[k],
                            this.types,
                            program,
                        ) by {
                            if k < globals@.len() {
                                assert(globals@.push(lg)[k] == globals@[k]);
                            }
                        }
                        assert(function_items(items@.take(i + 1)) =~= function_items(pre));
                        assert(impl_methods(items@.take(i + 1)) =~= impl_methods(pre));
                    }
                    globals.push(lg);
                },
                Item::Function(f) => {
                    proof {
                        if wstep {
                            assert(item_i == Item::Function(*f));
                            assert(plain_signature_in(*f, this.types)) by {
                                assert forall|k: int| 0 <= k < f.params@.len() implies plain_type_in(
                                    type_view((#[trigger] f.params@[k]).ty),
                                    this.types,
                                ) by {
                                    assert(module_type_plain(items@, type_view(f.params@[k].ty)));
                                }
                                assert(module_type_plain(items@, type_view(f.output)));
                            }
                            assert(!program.name_taken(f.name@));
                            assert(program.spec_functions().len() < 0xFFFF_FFFF);
                        }
                    }
                    proof {
                        if step {
                            assert(item_i == Item::Function(*f));
                            assert(f.name@.len() > 0);
                            assert(plain_signature_in(*f, this.types));
                            assert(!program.name_taken(f.name@));
                            assert(program.spec_functions().len() < 0xFFFF_FFFF);
                        }
                    }
                    proof {
                        if base && start.generic_defs@.len() == 0 {
                            assert forall|k: int| #[trigger] signature_param_unresolved(items@, i as int, k) implies params_unresolved_at(
                                f.params@,
                                this.types,
                                k,
                            ) by {
                                assert(items@[i as int] == Item::Function(*f));
                                assert(sprefix);
                                assert forall|m: int| 0 <= m < k implies plain_type_in(
                                    type_view((#[trigger] f.params@[m]).ty),
                                    this.types,
                                ) by {
                                    if let TypeV::Name(n) = type_view(f.params@[m].ty) {
                                        assert(bound_before(items@, items@.len() as int, n));
                                    }
                                }
                            }
                        }
                    }
                    let lf = match this.lower_function_signature(&mut program, f, f.name.clone()) {
                        Ok(x) => x,
                        Err(e) => {
                            proof {
                                if base && start.generic_defs@.len() == 0 {
                                    assert forall|b: int, k: int| #[trigger] signature_param_unresolved(items@, b, k) implies (Err::<
                                        LoweredModule,
                                        LowerError,
                                    >(e) matches Err(e2) && signature_param_error(items@, b, k, e2)) by {
                                        if b > i {
                                            assert(signature_item_plain(items@, i as int));
                                            assert(step);
                                        } else {
                                            assert(items@[i as int] == Item::Function(*f));
                                assert(params_unresolved_at(f.params@, before.types, k));
                                        }
                                    }
                                }
                            }
                            return Err(e);
                        },
                    };
                    proof {
                        Self::lemma_moved_on_trans(start, before, this);
                        lemma_lowered_stay(
                            globals@,
                            global_items(pre),
                            functions@,
                            function_items(pre),
                            methods@,
                            impl_methods(pre),
                            before.types,
                            p0,
                            this.types,
                            program,
                        );
                        let src = function_items(items@.take(i + 1));
                        assert(src =~= function_items(pre).push(*f));
                        assert forall|k: int| 0 <= k < functions@.push(lf).len() implies function_lowered(
                            #[trigger] functions@.push(lf)[k],
                            src[k],
                            src[k].name@,
                            this.types,
                            program,
                        ) by {
                            if k < functions@.len() {
                                assert(functions@.push(lf)[k] == functions@[k]);
                            }
                        }
                        assert(global_items(items@.take(i + 1)) =~= global_items(pre));
                        assert(impl_methods(items@.take(i + 1)) =~= impl_methods(pre));
                    }
                    functions.push(lf);
                    proof {
                        if wstep {
                            assert forall|n: Seq<char>| #[trigger] program.name_taken(n) <==> declared_before(
                                items@,
                                i + 1,
                                n,
                            ) by {
                                lemma_declared_step(items@, i as int, n);
                                assert(item_core_names(items@[i as int]) == seq![f.name@]);
                                if n == f.name@ {
                                    assert(item_core_names(items@[i as int])[0] == n);
                                }
                            }
                        }
                    }
                    proof {
                        if step {
                            assert forall|n: Seq<char>| #[trigger] program.name_taken(n) <==> exists|j: int|
                                0 <= j < i + 1 && item_function_name(#[trigger] items@[j]) == Some(n) by {
                                if n == f.name@ {
                                    assert(item_function_name(items@[i as int]) == Some(n));
                                }
                                if p0.name_taken(n) {
                                    let j = choose|j: int| 0 <= j < i && item_function_name(#[trigger] items@[j]) == Some(n);
                                    assert(0 <= j < i + 1);
                                }
                                if exists|j: int| 0 <= j < i + 1 && item_function_name(#[trigger] items@[j]) == Some(n) {
                                    let j = choose|j: int| 0 <= j < i + 1 && item_function_name(#[trigger] items@[j]) == Some(n);
                                    if j < i {
                                        assert(p0.name_taken(n));
                                    }
                                }
                            }
                        }
                    }
                },
                Item::Impl(b) => {
                    proof {
                        if wstep {
                            assert(item_i == Item::Impl(*b));
                            let t = type_view(b.target)->Name_0;
                            assert forall|j: int| 0 <= j < b.methods@.len() implies plain_signature_in(
                                #[trigger] b.methods@[j],
                                this.types,
                            ) by {
                                let f = b.methods@[j];
                                assert(module_signature_plain(items@, f));
                                assert forall|k: int| 0 <= k < f.params@.len() implies plain_type_in(
                                    type_view((#[trigger] f.params@[k]).ty),
                                    this.types,
                                ) by {
                                    assert(module_type_plain(items@, type_view(f.params@[k].ty)));
                                }
                            }
                            assert forall|j: int| 0 <= j < b.methods@.len() implies !program.name_taken(
                                method_full_name(t, (#[trigger] b.methods@[j]).name@),
                            ) by {}
                            assert(impl_plain_in(*b, this.types, program));
                        }
                    }
                    let ghost p_before = program;
                    let r = this.lower_impl_block(&mut program, b, &mut methods, Ghost(impl_methods(pre)));
                    if let Err(e) = r {
                        proof {
                            if base && start.generic_defs@.len() == 0 {
                                assert forall|b: int, k: int| #[trigger] signature_param_unresolved(items@, b, k) implies false by {
                                    if b > i {
                                        assert(signature_item_plain(items@, i as int));
                                    }
                                }
                            }
                        }
                        return Err(e);
                    }
                    proof {
                        Self::lemma_moved_on_trans(start, before, this);
                        lemma_lowered_stay(
                            globals@,
                            global_items(pre),
                            functions@,
                            function_items(pre),
                            Seq::empty(),
                            Seq::empty(),
                            before.types,
                            p0,
                            this.types,
                            program,
                        );
                        assert(impl_methods(items@.take(i + 1)) =~= impl_methods(pre) + block_methods(*b));
                        assert(global_items(items@.take(i + 1)) =~= global_items(pre));
                        assert(function_items(items@.take(i + 1)) =~= function_items(pre));
                        assert(block_methods(*b).len() == b.methods@.len());
                        if wstep {
                            let t = type_view(b.target)->Name_0;
                            assert(item_core_names(items@[i as int]) == b.methods@.map_values(
                                |m: FunctionDef| method_full_name(t, m.name@),
                            ));
                            assert forall|n: Seq<char>| #[trigger] program.name_taken(n) <==> declared_before(
                                items@,
                                i + 1,
                                n,
                            ) by {
                                lemma_declared_step(items@, i as int, n);
                                let names = item_core_names(items@[i as int]);
                                if exists|j: int| 0 <= j < b.methods@.len() && n == method_full_name(t, #[trigger] b.methods@[j].name@) {
                                    let j = choose|j: int| 0 <= j < b.methods@.len() && n == method_full_name(t, #[trigger] b.methods@[j].name@);
                                    assert(names[j] == n);
                                }
                                if exists|k: int| 0 <= k < names.len() && #[trigger] names[k] == n {
                                    let k = choose|k: int| 0 <= k < names.len() && #[trigger] names[k] == n;
                                    assert(n == method_full_name(t, b.methods@[k].name@));
                                }
                            }
                        }
                    }
                },
                _ => {
                    proof {
                        assert(global_items(items@.take(i + 1)) =~= global_items(pre));
                        assert(function_items(items@.take(i + 1)) =~= function_items(pre));
                        assert(impl_methods(items@.take(i + 1)) =~= impl_methods(pre));
                        if wstep {
                            assert forall|n: Seq<char>| #[trigger] program.name_taken(n) <==> declared_before(
                                items@,
                                i + 1,
                                n,
                            ) by {
                                lemma_declared_step(items@, i as int, n);
                                assert(item_core_names(items@[i as int]).len() == 0);
                            }
                        }
                        if step {
                            assert(item_function_name(items@[i as int]) is None);
                            assert forall|n: Seq<char>| #[trigger] program.name_taken(n) <==> exists|j: int|
                                0 <= j < i + 1 && item_function_name(#[trigger] items@[j]) == Some(n) by {
                                if exists|j: int| 0 <= j < i + 1 && item_function_name(#[trigger] items@[j]) == Some(n) {
                                    let j = choose|j: int| 0 <= j < i + 1 && item_function_name(#[trigger] items@[j]) == Some(n);
                                    assert(j != i);
                                }
                            }
                        }
                    }
                },
            }
            proof {
                if forall|j: int| 0 <= j < i + 1 ==> #[trigger] signature_item_plain(items@, j) {
                    assert forall|j: int| 0 <= j < i implies #[trigger] signature_item_plain(items@, j) by {}
                    assert(signature_item_plain(items@, i as int));
                    assert forall|k: int| 0 <= k < functions@.len() implies (#[trigger] functions@[k]).id.0 == k by {
                        if k < f0.len() {
                            assert(functions@[k] == f0[k]);
                        }
                    }
                }
            }
            i += 1;
        }
        proof {
            assert(items@.take(items@.len() as int) =~= items@);
            assert forall|i: int| 0 <= i < start.generic_defs@.len() implies this.types.spec_lookup(
                (#[trigger] start.generic_defs@[i]).def.name@,
            ) is None by {
                assert(this.generic_defs@[i] == start.generic_defs@[i]);
            }
        }
        Ok(
            LoweredModule {
                types: this.types,
                program,
                globals,
                functions,
                methods,
                flow_warnings: Vec::new(),
            },
        )
    }
}


proof fn lemma_item_bound_stays(t1: TypeStore, t2: TypeStore, item: Item)
    requires
        t1.wf(),
        t2.wf(),
        store_extends(t1, t2),
        item_bound(t1, item),
        match item {
            Item::Type(td) | Item::Struct(td) | Item::Enum(td) => td.generics@.len() > 0 ==> t2.spec_lookup(td.name@) is None,
            _ => true,
        },
    ensures
        item_bound(t2, item),
{
    match item {
        Item::Type(td) | Item::Struct(td) | Item::Enum(td) => {
            if td.generics@.len() == 0 {
                lemma_extends_lookup(t1, t2, td.name@);
                crate::types::lemma_names_lookup_valid(t1, td.name@);
                let id = t1.spec_lookup(td.name@)->0;
                assert(t2.spec_types()[id.0 as int] == t2.spec_types().subrange(0, t1.spec_types().len() as int)[id.0 as int]);
                lemma_kind_fields_stay(t1.spec_types()[id.0 as int].kind, type_view(td.ty), t1, t2);
            }
        },
        _ => {},
    }
}

/// Lowers the type items of a module, then its globals, functions and impl
/// methods into declarations and empty function shells of a core program.
/// A function keeps its name; a method is named by its target, the trait
/// it implements if any, and its own name, joined by `.`.
pub fn lower_module_signatures(module: &Module) -> (r: Result<LoweredModule, LowerError>)
    ensures
        r matches Ok(m) ==> {
            &&& m.types.wf()
            &&& standard_types_bound(m.types)
            &&& forall|i: int| 0 <= i < module.items@.len() ==> item_bound(m.types, #[trigger] module.items@[i])
            &&& m.program.wf()
            &&& globals_lowered(m.globals@, global_items(module.items@), m.types, m.program)
            &&& functions_lowered(m.functions@, function_items(module.items@), m.types, m.program)
            &&& methods_lowered(m.methods@, impl_methods(module.items@), m.types, m.program)
            &&& m.program.spec_functions().len() == m.functions@.len() + m.methods@.len()
            &&& m.program.spec_global_decls().len() == m.globals@.len()
            &&& m.flow_warnings@.len() == 0
            &&& forall|i: int| 0 <= i < module.items@.len() ==> capabilities_accepted(#[trigger] module.items@[i])
        },
        plain_module(module.items@) && plain_signatures(module.items@) ==> r is Ok,
        plain_module(module.items@) && impl_signatures(module.items@) ==> r is Ok,
        r matches Ok(m) ==> standard_types_apart(m.types) && standard_types_finite(m.types),
        plain_signatures(module.items@) ==> (r matches Ok(m) ==> m.methods@.len() == 0 && forall|k: int|
            0 <= k < m.functions@.len() ==> (#[trigger] m.functions@[k]).id.0 == k),
        plain_module(module.items@) ==> forall|i: int, k: int|
            #[trigger] signature_param_unresolved(module.items@, i, k) ==> (r matches Err(e) && signature_param_error(
                module.items@,
                i,
                k,
                e,
            )),
        forall|i: int, k: int|
            #[trigger] type_field_unresolved(module.items@, i, k) ==> (r matches Err(e) && type_field_error(
                module.items@,
                i,
                k,
                e,
            )),
{
    let mut lowerer = match TypeLowerer::new_with_standard_types() {
        Ok(l) => l,
        Err(e) => {
            return Err(e);
        },
    };
    let ghost l0 = lowerer;
    match lowerer.lower_module(module) {
        Ok(()) => {},
        Err(e) => {
            return Err(e);
        },
    }
    let ghost l1 = lowerer;
    let r = lowerer.lower_signatures(module);
    proof {
        if r is Ok {
            let m = r->Ok_0;
            TypeLowerer::lemma_standard_stays(l0.types, l1.types);
            TypeLowerer::lemma_standard_stays(l1.types, m.types);
            assert forall|i: int| 0 <= i < module.items@.len() implies item_bound(m.types, #[trigger] module.items@[i]) by {
                let item = module.items@[i];
                l1.lemma_item_bound(item);
                match item {
                    Item::Type(td) | Item::Struct(td) | Item::Enum(td) => {
                        if td.generics@.len() > 0 {
                            let k = choose|k: int| 0 <= k < l1.generic_defs@.len() && (#[trigger] l1.generic_defs@[k]).def.name@ == td.name@;
                            assert(m.types.spec_lookup(l1.generic_defs@[k].def.name@) is None);
                        }
                    },
                    _ => {},
                }
                lemma_item_bound_stays(l1.types, m.types, item);
            }
        }
    }
    r
}


// ---------------------------------------------------------------------------
// Lowering bodies
// ---------------------------------------------------------------------------

pub open spec fn functions_declared(
    fs: Seq<LoweredFunction>,
    src: Seq<FunctionDef>,
    types: TypeStore,
    program: CoreProgram,
) -> bool {
    &&& fs.len() == src.len()
    &&& forall|k: int| 0 <= k < fs.len() ==> function_declared(#[trigger] fs[k], src[k], src[k].name@, types, program)
}

/// `lm` is the lowered method of the impl method `src`, declared in
/// `program`.
pub open spec fn method_declared(
    lm: LoweredMethod,
    src: (TypeExpr, Option<TypeExpr>, FunctionDef),
    types: TypeStore,
    program: CoreProgram,
) -> bool {
    &&& lm.method@ == src.2.name@
    &&& type_fixed(type_view(src.0), types, lm.owner)
    &&& method_core_name(
        type_view(src.0),
        crate::frontend::ast::opt_type_view(src.1),
        src.2.name@,
    ) matches Some(n) && function_declared(lm.function, src.2, n, types, program)
}

pub open spec fn methods_declared(
    ms: Seq<LoweredMethod>,
    src: Seq<(TypeExpr, Option<TypeExpr>, FunctionDef)>,
    types: TypeStore,
    program: CoreProgram,
) -> bool {
    &&& ms.len() == src.len()
    &&& forall|k: int| 0 <= k < ms.len() ==> method_declared(#[trigger] ms[k], src[k], types, program)
}

/// `new` is `old` with some function bodies replaced: the same functions
/// under the same names with the same inputs and outputs, the same globals.
pub open spec fn bodies_replaced(old: CoreProgram, new: CoreProgram) -> bool {
    &&& new.spec_function_names() == old.spec_function_names()
    &&& new.spec_global_names() == old.spec_global_names()
    &&& new.spec_global_decls() == old.spec_global_decls()
    &&& new.spec_functions().len() == old.spec_functions().len()
    &&& forall|k: int|
        0 <= k < old.spec_functions().len() ==> {
            &&& (#[trigger] new.spec_functions()[k]).name == old.spec_functions()[k].name
            &&& new.spec_functions()[k].inputs == old.spec_functions()[k].inputs
            &&& new.spec_functions()[k].outputs == old.spec_functions()[k].outputs
        }
}

proof fn lemma_bodies_replaced_trans(a: CoreProgram, b: CoreProgram, c: CoreProgram)
    requires
        bodies_replaced(a, b),
        bodies_replaced(b, c),
    ensures
        bodies_replaced(a, c),
{
    assert forall|k: int| 0 <= k < a.spec_functions().len() implies {
        &&& (#[trigger] c.spec_functions()[k]).name == a.spec_functions()[k].name
        &&& c.spec_functions()[k].inputs == a.spec_functions()[k].inputs
        &&& c.spec_functions()[k].outputs == a.spec_functions()[k].outputs
    } by {
        assert(b.spec_functions()[k].name == a.spec_functions()[k].name);
    }
}

proof fn lemma_declared_stays(
    gs: Seq<LoweredGlobal>,
    gsrc: Seq<SurfaceGlobal>,
    fs: Seq<LoweredFunction>,
    fsrc: Seq<FunctionDef>,
    ms: Seq<LoweredMethod>,
    msrc: Seq<(TypeExpr, Option<TypeExpr>, FunctionDef)>,
    types: TypeStore,
    p1: CoreProgram,
    p2: CoreProgram,
)
    requires
        bodies_replaced(p1, p2),
        globals_lowered(gs, gsrc, types, p1),
        functions_declared(fs, fsrc, types, p1),
        methods_declared(ms, msrc, types, p1),
    ensures
        globals_lowered(gs, gsrc, types, p2),
        functions_declared(fs, fsrc, types, p2),
        methods_declared(ms, msrc, types, p2),
{
    assert forall|k: int| 0 <= k < fs.len() implies function_declared(#[trigger] fs[k], fsrc[k], fsrc[k].name@, types, p2) by {
        let f = fs[k];
        assert(p2.spec_functions()[f.id.0 as int].inputs == p1.spec_functions()[f.id.0 as int].inputs);
    }
    assert forall|k: int| 0 <= k < ms.len() implies method_declared(#[trigger] ms[k], msrc[k], types, p2) by {
        let f = ms[k].function;
        assert(p2.spec_functions()[f.id.0 as int].inputs == p1.spec_functions()[f.id.0 as int].inputs);
    }
}

proof fn lemma_lowered_declared(
    fs: Seq<LoweredFunction>,
    fsrc: Seq<FunctionDef>,
    ms: Seq<LoweredMethod>,
    msrc: Seq<(TypeExpr, Option<TypeExpr>, FunctionDef)>,
    types: TypeStore,
    program: CoreProgram,
)
    requires
        functions_lowered(fs, fsrc, types, program),
        methods_lowered(ms, msrc, types, program),
    ensures
        functions_declared(fs, fsrc, types, program),
        methods_declared(ms, msrc, types, program),
{
    assert forall|k: int| 0 <= k < fs.len() implies function_declared(#[trigger] fs[k], fsrc[k], fsrc[k].name@, types, program) by {
        assert(function_lowered(fs[k], fsrc[k], fsrc[k].name@, types, program));
    }
    assert forall|k: int| 0 <= k < ms.len() implies method_declared(#[trigger] ms[k], msrc[k], types, program) by {
        assert(method_lowered(ms[k], msrc[k], types, program));
    }
}

fn callable_signature(types: &TypeStore, function: &LoweredFunction) -> (r: body::CallableSignature) {
    body::CallableSignature {
        id: function.id,
        params: function.params.clone(),
        visible_output: visible_output(types, function.output),
    }
}

/// What callers need of every lowered function and method.
fn build_call_signatures(lowered: &LoweredModule) -> (r: Vec<body::CallableSignature>) {
    let mut signatures: Vec<body::CallableSignature> = Vec::new();
    let mut i: usize = 0;
    while i < lowered.functions.len()
        invariant
            0 <= i <= lowered.functions@.len(),
        decreases lowered.functions@.len() - i,
    {
        signatures.push(callable_signature(&lowered.types, &lowered.functions[i]));
        i += 1;
    }
    let mut j: usize = 0;
    while j < lowered.methods.len()
        invariant
            0 <= j <= lowered.methods@.len(),
        decreases lowered.methods@.len() - j,
    {
        signatures.push(callable_signature(&lowered.types, &lowered.methods[j].function));
        j += 1;
    }
    signatures
}

/// Lowers the body of `function` and puts it into its core shell.
fn lower_one_body(
    types: &TypeStore,
    program: &mut CoreProgram,
    signatures: &Vec<body::CallableSignature>,
    function: &LoweredFunction,
) -> (r: Result<(), LowerError>)
    requires
        types.wf(),
        old(program).wf(),
    ensures
        final(program).wf(),
        bodies_replaced(*old(program), *final(program)),
        body::dup_body(function.params@, function.body, *types) matches Some(a) ==> (r matches Err(
            LowerError::DuplicateLinearUse(s),
        ) && s@ == a),
        body::copy_body(function.params@, function.body, spec_visible_output(types.spec_unit(), function.output))
            && function.id.0 < old(program).spec_functions().len() ==> {
            &&& r is Ok
            &&& final(program).spec_functions().len() == old(program).spec_functions().len()
            &&& final(program).spec_functions()[function.id.0 as int].body@.len() == 0
            &&& final(program).spec_functions()[function.id.0 as int].returned@ == seq![
                function.params@[0].id,
                function.params@[0].id,
            ]
        },
        body::echo_body(function.params@, function.body, spec_visible_output(types.spec_unit(), function.output))
            && function.id.0 < old(program).spec_functions().len() ==> {
            &&& r is Ok
            &&& final(program).spec_functions().len() == old(program).spec_functions().len()
            &&& forall|k: int|
                0 <= k < old(program).spec_functions().len() && k != function.id.0
                    ==> #[trigger] final(program).spec_functions()[k] == old(program).spec_functions()[k]
            &&& final(program).spec_functions()[function.id.0 as int].body@.len() == 0
            &&& final(program).spec_functions()[function.id.0 as int].returned@ == seq![function.params@[0].id]
        },
{
    let expected_output = visible_output(types, function.output);
    let (statements, handed_back) = match body::lower_function_body(
        types,
        program,
        signatures,
        &function.params,
        &function.body,
        expected_output,
    ) {
        Ok(x) => x,
        Err(e) => {
            return Err(e);
        },
    };
    let ghost p0 = *program;
    let r = program.replace_function_body(function.id, statements, handed_back);
    proof {
        assert forall|k: int| 0 <= k < p0.spec_functions().len() implies {
            &&& (#[trigger] program.spec_functions()[k]).name == p0.spec_functions()[k].name
            &&& program.spec_functions()[k].inputs == p0.spec_functions()[k].inputs
            &&& program.spec_functions()[k].outputs == p0.spec_functions()[k].outputs
        } by {}
    }
    match r {
        Ok(()) => Ok(()),
        Err(e) => Err(LowerError::Core(e)),
    }
}

/// Compares one function's flow markers with its inferred value flow: a
/// borrow that is not proven is an error; a `mut` or `take` that is really
/// a borrow is a warning.
/// The contract a flow marker declares.
pub open spec fn param_contract(flow: ValueFlow) -> ParamContract {
    match flow {
        ValueFlow::ReturnedUnchanged => ParamContract::Borrowed,
        ValueFlow::ReturnedChanged => ParamContract::Updated,
        ValueFlow::NotReturned => ParamContract::Consumed,
    }
}

/// The declared contracts of lowered parameters, by name.
pub open spec fn marker_contracts(ps: Seq<LoweredParam>) -> Seq<(Seq<char>, ParamContract)> {
    ps.map_values(|p: LoweredParam| (p.name@, param_contract(p.flow)))
}

/// How the inferred flow of `f` violates its flow markers.
pub open spec fn marker_violations(f: LoweredFunction, flows: Seq<Seq<Provenance>>) -> Seq<FlowViolationView> {
    if f.id.0 < flows.len() {
        spec_contract_violations(f.name@, marker_contracts(f.params@), flows[f.id.0 as int], 0, 0)
    } else {
        Seq::empty()
    }
}

/// No violation is an unproven borrow.
pub open spec fn borrows_proven(vs: Seq<FlowViolationView>) -> bool {
    forall|i: int| 0 <= i < vs.len() ==> !((#[trigger] vs[i]) is BorrowNotProven)
}

/// The marker violations of `fs`, function by function.
pub open spec fn all_marker_violations(fs: Seq<LoweredFunction>, flows: Seq<Seq<Provenance>>) -> Seq<FlowViolationView>
    decreases fs.len(),
{
    if fs.len() == 0 {
        Seq::empty()
    } else {
        all_marker_violations(fs.drop_last(), flows) + marker_violations(fs.last(), flows)
    }
}

pub open spec fn method_functions(ms: Seq<LoweredMethod>) -> Seq<LoweredFunction> {
    ms.map_values(|m: LoweredMethod| m.function)
}

/// Every lowered function and then every lowered method.
pub open spec fn lowered_functions(m: LoweredModule) -> Seq<LoweredFunction> {
    m.functions@ + method_functions(m.methods@)
}

/// The summaries the flow analysis infers for `program`.
pub open spec fn inferred_flows(program: CoreProgram) -> Seq<Seq<Provenance>> {
    sp_fixpoint(program.spec_functions(), initial_flows(program.spec_functions()))
}

fn verify_marker_contracts(
    function: &LoweredFunction,
    flows: &Vec<FunctionFlow>,
    warnings: &mut Vec<FlowViolation>,
) -> (r: Result<(), LowerError>)
    ensures
        r is Ok <==> borrows_proven(marker_violations(*function, flows_view(flows@))),
        r is Ok ==> violations_view(final(warnings)@) == violations_view(old(warnings)@) + marker_violations(
            *function,
            flows_view(flows@),
        ),
        r matches Err(e) ==> e matches LowerError::Flow(v) && v is BorrowNotProven,
{
    let ghost fv = flows_view(flows@);
    let ghost w0 = warnings@;
    if (function.id.0 as usize) >= flows.len() {
        assert(violations_view(warnings@) =~= violations_view(w0) + Seq::<FlowViolationView>::empty());
        return Ok(());
    }
    let index = function.id.0 as usize;
    let index = function.id.0 as usize;
    if index >= flows.len() {
        return Ok(());
    }
    let flow = &flows[index];
    assert(fv[index as int] == flow.outputs@);
    let mut params: Vec<(String, ParamContract)> = Vec::new();
    let mut i: usize = 0;
    while i < function.params.len()
        invariant
            0 <= i <= function.params@.len(),
            params_view(params@) == marker_contracts(function.params@.subrange(0, i as int)),
        decreases function.params@.len() - i,
    {
        let contract = match function.params[i].flow {
            ValueFlow::ReturnedUnchanged => ParamContract::Borrowed,
            ValueFlow::ReturnedChanged => ParamContract::Updated,
            ValueFlow::NotReturned => ParamContract::Consumed,
        };
        let ghost pv0 = params_view(params@);
        params.push((function.params[i].name.clone(), contract));
        proof {
            assert(params_view(params@) =~= pv0.push((function.params@[i as int].name@, contract)));
            assert(marker_contracts(function.params@.subrange(0, i + 1)) =~= marker_contracts(
                function.params@.subrange(0, i as int),
            ).push((function.params@[i as int].name@, contract)));
        }
        i += 1;
    }
    proof {
        assert(function.params@.subrange(0, function.params@.len() as int) =~= function.params@);
    }
    let violations = check_function_contract(function.name.as_str(), params.as_slice(), flow);
    assert(violations_view(violations@) == marker_violations(*function, fv));
    let mut k: usize = 0;
    while k < violations.len()
        invariant
            0 <= k <= violations@.len(),
            fv == flows_view(flows@),
            violations_view(violations@) == marker_violations(*function, fv),
            violations_view(warnings@) == violations_view(w0) + violations_view(violations@).subrange(0, k as int),
            forall|j: int| 0 <= j < k ==> !((#[trigger] violations_view(violations@)[j]) is BorrowNotProven),
        decreases violations@.len() - k,
    {
        let ghost wv0 = violations_view(warnings@);
        proof {
            assert(violations_view(violations@).subrange(0, k + 1) =~= violations_view(violations@).subrange(
                0,
                k as int,
            ).push(violations@[k as int]@));
        }
        match &violations[k] {
            FlowViolation::BorrowNotProven { function: fname, param } => {
                proof {
                    assert(violations_view(violations@)[k as int] is BorrowNotProven);
                    assert(marker_violations(*function, fv)[k as int] is BorrowNotProven);
                    assert(!borrows_proven(marker_violations(*function, fv)));
                }
                return Err(
                    LowerError::Flow(FlowViolation::BorrowNotProven { function: fname.clone(), param: param.clone() }),
                );
            },
            FlowViolation::MutIsBorrow { function, param } => {
                warnings.push(FlowViolation::MutIsBorrow { function: function.clone(), param: param.clone() });
                proof {
                    assert(violations_view(warnings@) =~= wv0.push(violations@[k as int]@));
                }
            },
            FlowViolation::TakeIsBorrow { function, param } => {
                warnings.push(FlowViolation::TakeIsBorrow { function: function.clone(), param: param.clone() });
                proof {
                    assert(violations_view(warnings@) =~= wv0.push(violations@[k as int]@));
                }
            },
        }
        k += 1;
    }
    proof {
        assert(violations_view(violations@).subrange(0, violations@.len() as int) =~= violations_view(violations@));
    }
    Ok(())
}

/// Function `k` of `lowered` is the `k`-th core function and only hands
/// back its sole parameter.
pub(crate) open spec fn echo_function_at(lowered: LoweredModule, k: int) -> bool {
    &&& lowered.functions@[k].id.0 == k
    &&& body::echo_body(
        lowered.functions@[k].params@,
        lowered.functions@[k].body,
        spec_visible_output(lowered.types.spec_unit(), lowered.functions@[k].output),
    )
}

/// Every function of `lowered` only hands back its sole parameter, is the
/// core function of its own index, and there are no methods.
pub(crate) open spec fn echo_functions(lowered: LoweredModule) -> bool {
    &&& lowered.methods@.len() == 0
    &&& lowered.functions@.len() == lowered.program.spec_functions().len()
    &&& forall|k: int| 0 <= k < lowered.functions@.len() ==> #[trigger] echo_function_at(lowered, k)
}

/// `lowered` has a single function, the only core function, whose sole
/// parameter, handed back, is also its visible result; and no methods.
pub(crate) open spec fn copy_function(lowered: LoweredModule) -> bool {
    &&& lowered.methods@.len() == 0
    &&& lowered.functions@.len() == 1
    &&& lowered.program.spec_functions().len() == 1
    &&& lowered.functions@[0].id.0 == 0
    &&& body::copy_body(
        lowered.functions@[0].params@,
        lowered.functions@[0].body,
        spec_visible_output(lowered.types.spec_unit(), lowered.functions@[0].output),
    )
}

/// Lowers every function and method body into its shell.
fn lower_all_bodies(lowered: &mut LoweredModule) -> (r: Result<(), LowerError>)
    requires
        old(lowered).types.wf(),
        old(lowered).program.wf(),
    ensures
        final(lowered).program.wf(),
        bodies_replaced(old(lowered).program, final(lowered).program),
        final(lowered).types == old(lowered).types,
        final(lowered).globals == old(lowered).globals,
        final(lowered).functions == old(lowered).functions,
        final(lowered).methods == old(lowered).methods,
        old(lowered).functions@.len() == 0 && old(lowered).methods@.len() == 0 ==> r is Ok && *final(lowered)
            == *old(lowered),
        old(lowered).functions@.len() > 0 ==> (body::dup_body(
            old(lowered).functions@[0].params@,
            old(lowered).functions@[0].body,
            old(lowered).types,
        ) matches Some(a) ==> (r matches Err(LowerError::DuplicateLinearUse(s)) && s@ == a)),
        copy_function(*old(lowered)) ==> r is Ok && final(lowered).program.spec_functions()[0].body@.len() == 0
            && final(lowered).program.spec_functions()[0].returned@ == seq![
            old(lowered).functions@[0].params@[0].id,
            old(lowered).functions@[0].params@[0].id,
        ],
        echo_functions(*old(lowered)) ==> r is Ok && forall|k: int|
            0 <= k < old(lowered).functions@.len() ==> (#[trigger] final(lowered).program.spec_functions()[k]).body@.len()
                == 0 && final(lowered).program.spec_functions()[k].returned@ == seq![
                old(lowered).functions@[k].params@[0].id,
            ],
{
    let ghost p0 = lowered.program;
    let ghost echoes = echo_functions(*lowered);
    let ghost copy1 = copy_function(*lowered);
    let ghost dup0 = lowered.functions@.len() > 0 && body::dup_body(
        lowered.functions@[0].params@,
        lowered.functions@[0].body,
        lowered.types,
    ) is Some;
    proof {
        assert(bodies_replaced(p0, p0));
    }
    let signatures = build_call_signatures(lowered);
    let mut i: usize = 0;
    while i < lowered.functions.len()
        invariant
            0 <= i <= lowered.functions@.len(),
            p0 == old(lowered).program,
            lowered.types == old(lowered).types,
            lowered.globals == old(lowered).globals,
            lowered.functions == old(lowered).functions,
            lowered.methods == old(lowered).methods,
            lowered.types.wf(),
            lowered.program.wf(),
            bodies_replaced(p0, lowered.program),
            old(lowered).functions@.len() == 0 ==> *lowered == *old(lowered),
            echoes == echo_functions(*old(lowered)),
            dup0 == (old(lowered).functions@.len() > 0 && body::dup_body(
                old(lowered).functions@[0].params@,
                old(lowered).functions@[0].body,
                old(lowered).types,
            ) is Some),
            dup0 ==> i == 0,
            copy1 == copy_function(*old(lowered)),
            copy1 && i == 1 ==> lowered.program.spec_functions()[0].body@.len() == 0
                && lowered.program.spec_functions()[0].returned@ == seq![
                lowered.functions@[0].params@[0].id,
                lowered.functions@[0].params@[0].id,
            ],
            echoes ==> forall|j: int|
                0 <= j < i ==> (#[trigger] lowered.program.spec_functions()[j]).body@.len() == 0
                    && lowered.program.spec_functions()[j].returned@ == seq![lowered.functions@[j].params@[0].id],
        decreases lowered.functions@.len() - i,
    {
        let ghost before = lowered.program;
        proof {
            if echoes {
                assert(echo_function_at(*old(lowered), i as int));
            }
        }
        match lower_one_body(&lowered.types, &mut lowered.program, &signatures, &lowered.functions[i]) {
            Ok(()) => {},
            Err(e) => {
                return Err(e);
            },
        }
        proof {
            lemma_bodies_replaced_trans(p0, before, lowered.program);
        }
        i += 1;
    }
    let mut j: usize = 0;
    while j < lowered.methods.len()
        invariant
            0 <= j <= lowered.methods@.len(),
            p0 == old(lowered).program,
            lowered.types == old(lowered).types,
            lowered.globals == old(lowered).globals,
            lowered.functions == old(lowered).functions,
            lowered.methods == old(lowered).methods,
            lowered.types.wf(),
            lowered.program.wf(),
            bodies_replaced(p0, lowered.program),
            old(lowered).functions@.len() == 0 && old(lowered).methods@.len() == 0 ==> *lowered == *old(lowered),
            echoes == echo_functions(*old(lowered)),
            dup0 == (old(lowered).functions@.len() > 0 && body::dup_body(
                old(lowered).functions@[0].params@,
                old(lowered).functions@[0].body,
                old(lowered).types,
            ) is Some),
            !dup0,
            copy1 == copy_function(*old(lowered)),
            copy1 ==> j == 0 && lowered.program.spec_functions()[0].body@.len() == 0
                && lowered.program.spec_functions()[0].returned@ == seq![
                lowered.functions@[0].params@[0].id,
                lowered.functions@[0].params@[0].id,
            ],
            echoes ==> j == 0 && forall|k: int|
                0 <= k < lowered.functions@.len() ==> (#[trigger] lowered.program.spec_functions()[k]).body@.len() == 0
                    && lowered.program.spec_functions()[k].returned@ == seq![lowered.functions@[k].params@[0].id],
        decreases lowered.methods@.len() - j,
    {
        let ghost before = lowered.program;
        match lower_one_body(&lowered.types, &mut lowered.program, &signatures, &lowered.methods[j].function) {
            Ok(()) => {},
            Err(e) => {
                return Err(e);
            },
        }
        proof {
            lemma_bodies_replaced_trans(p0, before, lowered.program);
        }
        j += 1;
    }
    Ok(())
}

/// The flow-marker warnings of every function and method, or the first
/// borrow that is not proven.
proof fn lemma_all_marker_violations_step(fs: Seq<LoweredFunction>, k: int, flows: Seq<Seq<Provenance>>)
    requires
        0 <= k < fs.len(),
    ensures
        all_marker_violations(fs.subrange(0, k + 1), flows) == all_marker_violations(fs.subrange(0, k), flows)
            + marker_violations(fs[k], flows),
{
    assert(fs.subrange(0, k + 1).drop_last() =~= fs.subrange(0, k));
}

proof fn lemma_borrows_proven_concat(a: Seq<FlowViolationView>, b: Seq<FlowViolationView>)
    ensures
        borrows_proven(a + b) <==> borrows_proven(a) && borrows_proven(b),
{
    if borrows_proven(a) && borrows_proven(b) {
        assert forall|i: int| 0 <= i < (a + b).len() implies !((#[trigger] (a + b)[i]) is BorrowNotProven) by {
            if i >= a.len() {
                assert((a + b)[i] == b[i - a.len()]);
            }
        }
    }
    if borrows_proven(a + b) {
        assert forall|i: int| 0 <= i < b.len() implies !((#[trigger] b[i]) is BorrowNotProven) by {
            assert((a + b)[a.len() + i] == b[i]);
        }
        assert forall|i: int| 0 <= i < a.len() implies !((#[trigger] a[i]) is BorrowNotProven) by {
            assert((a + b)[i] == a[i]);
        }
    }
}

/// Checks the flow markers of every lowered function and method against
/// the inferred flow: the violations that are not unproven borrows come
/// back as warnings; an unproven borrow is an error.
fn collect_flow_warnings(lowered: &LoweredModule) -> (r: Result<Vec<FlowViolation>, LowerError>)
    requires
        lowered.program.wf(),
    ensures
        r matches Ok(w) ==> violations_view(w@) == all_marker_violations(
            lowered_functions(*lowered),
            inferred_flows(lowered.program),
        ) && borrows_proven(violations_view(w@)),
        r matches Err(e) ==> (e matches LowerError::Flow(v) && v is BorrowNotProven) && exists|k: int|
            0 <= k < lowered_functions(*lowered).len() && !borrows_proven(
                marker_violations(#[trigger] lowered_functions(*lowered)[k], inferred_flows(lowered.program)),
            ),
        lowered.functions@.len() == 0 && lowered.methods@.len() == 0 ==> r is Ok,
{
    let flows = infer_flows(&lowered.program);
    let ghost fv = flows_view(flows@);
    let ghost all = lowered_functions(*lowered);
    let ghost nf = lowered.functions@.len() as int;
    assert(fv == inferred_flows(lowered.program));
    let mut warnings: Vec<FlowViolation> = Vec::new();
    assert(violations_view(warnings@) =~= all_marker_violations(all.subrange(0, 0), fv));
    let mut k: usize = 0;
    while k < lowered.functions.len()
        invariant
            0 <= k <= lowered.functions@.len(),
            all == lowered_functions(*lowered),
            nf == lowered.functions@.len(),
            fv == flows_view(flows@),
            fv == inferred_flows(lowered.program),
            violations_view(warnings@) == all_marker_violations(all.subrange(0, k as int), fv),
            borrows_proven(violations_view(warnings@)),
        decreases lowered.functions@.len() - k,
    {
        let ghost w0 = violations_view(warnings@);
        assert(all[k as int] == lowered.functions@[k as int]);
        match verify_marker_contracts(&lowered.functions[k], &flows, &mut warnings) {
            Ok(()) => {},
            Err(e) => {
                assert(!borrows_proven(marker_violations(lowered_functions(*lowered)[k as int], fv)));
                return Err(e);
            },
        }
        proof {
            lemma_all_marker_violations_step(all, k as int, fv);
            lemma_borrows_proven_concat(w0, marker_violations(all[k as int], fv));
        }
        k += 1;
    }
    let mut l: usize = 0;
    while l < lowered.methods.len()
        invariant
            0 <= l <= lowered.methods@.len(),
            all == lowered_functions(*lowered),
            nf == lowered.functions@.len(),
            fv == flows_view(flows@),
            fv == inferred_flows(lowered.program),
            violations_view(warnings@) == all_marker_violations(all.subrange(0, nf + l), fv),
            borrows_proven(violations_view(warnings@)),
        decreases lowered.methods@.len() - l,
    {
        let ghost w0 = violations_view(warnings@);
        assert(all[nf + l] == lowered.methods@[l as int].function);
        match verify_marker_contracts(&lowered.methods[l].function, &flows, &mut warnings) {
            Ok(()) => {},
            Err(e) => {
                assert(!borrows_proven(marker_violations(lowered_functions(*lowered)[nf + l], fv)));
                return Err(e);
            },
        }
        proof {
            lemma_all_marker_violations_step(all, nf + l, fv);
            lemma_borrows_proven_concat(w0, marker_violations(all[nf + l], fv));
        }
        l += 1;
    }
    assert(all.subrange(0, all.len() as int) =~= all);
    Ok(warnings)
}

/// What a lowered module is of the module it was lowered from: the
/// signatures lowered, every body replaced so that the program passes the
/// core checker, the flow warnings exactly the marker violations of the
/// inferred flow, none of them an unproven borrow, and every capability
/// clause accepted.
/// No item is a function.
pub open spec fn function_free(items: Seq<Item>) -> bool {
    forall|i: int| 0 <= i < items.len() ==> !(#[trigger] items[i] is Function)
}

/// Items that are neither functions, globals nor impl blocks declare none
/// of them.
proof fn lemma_declares_nothing_callable(items: Seq<Item>)
    requires
        forall|i: int|
            0 <= i < items.len() ==> !(#[trigger] items[i] is Function) && !(items[i] is Global) && !(
            items[i] is Impl),
    ensures
        function_items(items).len() == 0,
        impl_methods(items).len() == 0,
        global_items(items).len() == 0,
    decreases items.len(),
{
    if items.len() > 0 {
        let rest = items.drop_last();
        assert forall|i: int| 0 <= i < rest.len() implies !(#[trigger] rest[i] is Function) && !(
        rest[i] is Global) && !(rest[i] is Impl) by {
            assert(rest[i] == items[i]);
        }
        lemma_declares_nothing_callable(rest);
        assert(items[items.len() - 1] == items.last());
    }
}

/// A function item that only hands back its sole parameter, taken, of a
/// standard type: `fn f(take x: T) -> T { x }`.
pub open spec fn echo_item(f: FunctionDef) -> bool {
    &&& f.params@.len() == 1
    &&& f.params@[0].flow == ValueFlow::NotReturned
    &&& type_view(f.params@[0].ty) == type_view(f.output)
    &&& type_view(f.output) matches TypeV::Name(n)
    &&& standard_names().contains(n)
    &&& block_view(f.body) == (BlockV {
        lets: Seq::empty(),
        result: Some(Box::new(ExprV::Name(f.params@[0].name@))),
    })
}

/// A plain module whose signatures are plain and whose functions all only
/// hand back their parameter.
pub open spec fn echo_module(items: Seq<Item>) -> bool {
    &&& plain_module(items)
    &&& plain_signatures(items)
    &&& forall|k: int| 0 <= k < function_items(items).len() ==> #[trigger] echo_item(function_items(items)[k])
}

/// A function item whose sole parameter, of a standard unsigned integer
/// type, is both operands of the infix operator that is its body's result,
/// and whose body binds nothing.
pub open spec fn dup_item(f: FunctionDef) -> bool {
    &&& f.params@.len() == 1
    &&& type_view(f.params@[0].ty) matches TypeV::Name(n)
    &&& exists|i: int| 0 <= i < 4 && #[trigger] standard_names()[i] == n
    &&& exists|op: crate::frontend::ast::BinaryOp|
        block_view(f.body) == (BlockV {
            lets: Seq::empty(),
            result: Some(
                Box::new(
                    ExprV::Binary(
                        Box::new(ExprV::Name(f.params@[0].name@)),
                        op,
                        Box::new(ExprV::Name(f.params@[0].name@)),
                    ),
                ),
            ),
        })
}

/// A block whose view binds nothing and has `x op x` as its result binds
/// nothing and has an infix operator on names viewed as `x` as its result.
proof fn lemma_dup_block(b: Block, x: Seq<char>, op: crate::frontend::ast::BinaryOp)
    requires
        block_view(b) == (BlockV {
            lets: Seq::empty(),
            result: Some(Box::new(ExprV::Binary(Box::new(ExprV::Name(x)), op, Box::new(ExprV::Name(x))))),
        }),
    ensures
        b.lets@.len() == 0,
        b.result matches Some(e) && (*e matches Expr::Binary { lhs, rhs, .. } && (*lhs matches Expr::Name(m) && m@
            == x) && (*rhs matches Expr::Name(m2) && m2@ == x)),
{
    assert(block_view(b).lets.len() == b.lets@.len());
    match b.result {
        Some(e) => {
            match *e {
                Expr::Binary { lhs, op: o, rhs } => {
                    assert(expr_view_is_name(*lhs, x));
                    assert(expr_view_is_name(*rhs, x));
                },
                _ => {},
            }
        },
        None => {},
    }
}

/// A function item whose sole parameter, not taken, of a standard type, is
/// handed back and is also its visible result: `fn f(x: T) -> T { x }`.
pub open spec fn copy_item(f: FunctionDef) -> bool {
    &&& f.params@.len() == 1
    &&& f.params@[0].flow != ValueFlow::NotReturned
    &&& type_view(f.params@[0].ty) == type_view(f.output)
    &&& type_view(f.output) matches TypeV::Name(n)
    &&& standard_names().contains(n)
    &&& block_view(f.body) == (BlockV {
        lets: Seq::empty(),
        result: Some(Box::new(ExprV::Name(f.params@[0].name@))),
    })
}

/// A plain module, with plain signatures, whose one function hands its
/// parameter back twice: as itself and as its result.
pub open spec fn copy_module(items: Seq<Item>) -> bool {
    &&& plain_module(items)
    &&& plain_signatures(items)
    &&& function_items(items).len() == 1
    &&& copy_item(function_items(items)[0])
}

/// A core function that computes nothing and hands back its first input.
pub open spec fn hands_back_first_input(f: Function) -> bool {
    &&& f.body@.len() == 0
    &&& f.returned@ == seq![ValueId(0)]
}

/// A block whose view binds nothing and has the name `n` as its result
/// binds nothing and has a name viewed as `n` as its result.
proof fn lemma_echo_block(b: Block, n: Seq<char>)
    requires
        block_view(b) == (BlockV { lets: Seq::empty(), result: Some(Box::new(ExprV::Name(n))) }),
    ensures
        b.lets@.len() == 0,
        b.result matches Some(e) && (*e matches Expr::Name(m) && m@ == n),
{
    assert(block_view(b).lets.len() == b.lets@.len());
    match b.result {
        Some(e) => {
            assert(expr_view_is_name(*e, n));
        },
        None => {},
    }
}

spec fn expr_view_is_name(e: Expr, n: Seq<char>) -> bool {
    crate::frontend::ast::expr_view(e) == ExprV::Name(n) ==> (e matches Expr::Name(m) && m@ == n)
}

/// Items with no global among them declare no global.
proof fn lemma_no_global_items(items: Seq<Item>)
    requires
        forall|i: int| 0 <= i < items.len() ==> !(#[trigger] items[i] is Global),
    ensures
        global_items(items).len() == 0,
    decreases items.len(),
{
    if items.len() > 0 {
        let rest = items.drop_last();
        assert forall|i: int| 0 <= i < rest.len() implies !(#[trigger] rest[i] is Global) by {
            assert(rest[i] == items[i]);
        }
        lemma_no_global_items(rest);
        assert(items[items.len() - 1] == items.last());
    }
}

/// Contracts none of which is a borrow give no unproven borrow.
proof fn lemma_no_borrow_contract(
    function: Seq<char>,
    params: Seq<(Seq<char>, ParamContract)>,
    outputs: Seq<Provenance>,
    index: int,
    slot: int,
)
    requires
        forall|k: int| 0 <= k < params.len() ==> !((#[trigger] params[k]).1 is Borrowed),
    ensures
        borrows_proven(spec_contract_violations(function, params, outputs, index, slot)),
    decreases params.len() - index,
{
    if 0 <= index < params.len() {
        let next_slot = if params[index].1 is Consumed {
            slot
        } else {
            slot + 1
        };
        lemma_no_borrow_contract(function, params, outputs, index + 1, next_slot);
        let rest = spec_contract_violations(function, params, outputs, index + 1, next_slot);
        let all = spec_contract_violations(function, params, outputs, index, slot);
        assert(!(params[index].1 is Borrowed));
        assert forall|i: int| 0 <= i < all.len() implies !((#[trigger] all[i]) is BorrowNotProven) by {
            match params[index].1 {
                ParamContract::Consumed => {
                    let h = if crate::flow::escapes(outputs, index) {
                        seq![FlowViolationView::TakeIsBorrow { function, param: params[index].0 }]
                    } else {
                        Seq::empty()
                    };
                    assert(all == h + rest);
                    if i >= h.len() {
                        assert(all[i] == rest[i - h.len()]);
                    }
                },
                ParamContract::Updated => {
                    let h = if crate::flow::same_version(outputs, slot, index) {
                        seq![FlowViolationView::MutIsBorrow { function, param: params[index].0 }]
                    } else {
                        Seq::empty()
                    };
                    assert(all == h + rest);
                    if i >= h.len() {
                        assert(all[i] == rest[i - h.len()]);
                    }
                },
                ParamContract::Borrowed => {},
            }
        }
    }
}

/// Functions `fs[from..]` that each check make the list check.
proof fn lemma_functions_check(types: &TypeStore, program: &CoreProgram, fs: Seq<Function>, from: int)
    requires
        0 <= from,
        forall|k: int| from <= k < fs.len() ==> crate::ir::checker::spec_check_function(types, program, #[trigger] fs[k]) is Ok,
    ensures
        crate::ir::spec_check_functions(types, program, fs, from) is Ok,
    decreases fs.len() - from,
{
    if from < fs.len() {
        lemma_functions_check(types, program, fs, from + 1);
    }
}

/// The lowered signatures of a module whose functions only hand back their
/// parameter are such functions too.
proof fn lemma_echo_function(items: Seq<Item>, lowered: LoweredModule, k: int)
    requires
        echo_module(items),
        lowered.types.wf(),
        standard_types_apart(lowered.types),
        functions_lowered(lowered.functions@, function_items(items), lowered.types, lowered.program),
        lowered.methods@.len() == 0,
        lowered.program.spec_functions().len() == lowered.functions@.len() + lowered.methods@.len(),
        forall|k: int| 0 <= k < lowered.functions@.len() ==> (#[trigger] lowered.functions@[k]).id.0 == k,
        0 <= k < lowered.functions@.len(),
    ensures
        echo_function_at(lowered, k),
        lowered.functions@[k].params@.len() == 1,
        lowered.functions@[k].params@[0].id == ValueId(0),
        lowered.functions@[k].output == lowered.functions@[k].params@[0].ty,
        lowered.types.valid(lowered.functions@[k].output),
        lowered.functions@[k].core_outputs@ == seq![lowered.functions@[k].output],
{
    let src = function_items(items);
    let f = lowered.functions@[k];
    let sf = src[k];
    assert(function_lowered(f, sf, sf.name@, lowered.types, lowered.program));
    assert(echo_item(sf));
    let p = f.params@[0];
    assert(params_follow(f.params@, sf.params@, lowered.types));
    assert(p.id == ValueId(0));
    if let TypeV::Name(n) = type_view(sf.output) {
        let j = choose|j: int| 0 <= j < standard_names().len() && standard_names()[j] == n;
        assert(lowered.types.spec_lookup(standard_names()[j]) != Some(lowered.types.spec_unit()));
        assert(lowered.types.spec_lookup(n) == Some(f.output));
        assert(type_view(sf.params@[0].ty) == TypeV::Name(n));
        assert(lowered.types.spec_lookup(n) == Some(p.ty));
    }
    assert(spec_visible_output(lowered.types.spec_unit(), f.output) == Some(p.ty));
    assert(crate::frontend::ast::block_view(f.body) == crate::frontend::ast::block_view(sf.body));
    lemma_echo_block(f.body, sf.params@[0].name@);
    assert(f.params@.drop_last() =~= Seq::<LoweredParam>::empty());
    assert(p.flow == sf.params@[0].flow);
    assert(f.params@.last() == p);
    assert(returned_param_types(Seq::<LoweredParam>::empty()) =~= Seq::<TypeId>::empty());
    assert(returned_param_types(f.params@) =~= Seq::<TypeId>::empty());
    assert(f.core_outputs@ =~= seq![f.output]);
}

/// The lowered signature of a module whose one function hands its
/// parameter back as itself and as its result is such a function too.
proof fn lemma_copy_function(items: Seq<Item>, lowered: LoweredModule)
    requires
        copy_module(items),
        lowered.types.wf(),
        standard_types_apart(lowered.types),
        functions_lowered(lowered.functions@, function_items(items), lowered.types, lowered.program),
        lowered.methods@.len() == 0,
        lowered.program.spec_functions().len() == lowered.functions@.len() + lowered.methods@.len(),
        forall|k: int| 0 <= k < lowered.functions@.len() ==> (#[trigger] lowered.functions@[k]).id.0 == k,
    ensures
        copy_function(lowered),
        lowered.functions@[0].params@[0].id == ValueId(0),
        lowered.functions@[0].output == lowered.functions@[0].params@[0].ty,
        lowered.types.valid(lowered.functions@[0].output),
        lowered.functions@[0].core_outputs@ == seq![lowered.functions@[0].output, lowered.functions@[0].output],
{
    let f = lowered.functions@[0];
    let sf = function_items(items)[0];
    assert(function_lowered(f, sf, sf.name@, lowered.types, lowered.program));
    let p = f.params@[0];
    assert(params_follow(f.params@, sf.params@, lowered.types));
    assert(p.id == ValueId(0));
    if let TypeV::Name(n) = type_view(sf.output) {
        let j = choose|j: int| 0 <= j < standard_names().len() && standard_names()[j] == n;
        assert(lowered.types.spec_lookup(standard_names()[j]) != Some(lowered.types.spec_unit()));
        assert(lowered.types.spec_lookup(n) == Some(f.output));
        assert(type_view(sf.params@[0].ty) == TypeV::Name(n));
        assert(lowered.types.spec_lookup(n) == Some(p.ty));
    }
    assert(spec_visible_output(lowered.types.spec_unit(), f.output) == Some(p.ty));
    assert(crate::frontend::ast::block_view(f.body) == crate::frontend::ast::block_view(sf.body));
    lemma_echo_block(f.body, sf.params@[0].name@);
    assert(f.params@.drop_last() =~= Seq::<LoweredParam>::empty());
    assert(p.flow == sf.params@[0].flow);
    assert(f.params@.last() == p);
    assert(returned_param_types(Seq::<LoweredParam>::empty()) =~= Seq::<TypeId>::empty());
    assert(returned_param_types(f.params@) =~= seq![p.ty]);
    assert(f.core_outputs@ =~= seq![f.output, f.output]);
}

proof fn lemma_echo_functions(items: Seq<Item>, lowered: LoweredModule)
    requires
        echo_module(items),
        lowered.types.wf(),
        standard_types_apart(lowered.types),
        functions_lowered(lowered.functions@, function_items(items), lowered.types, lowered.program),
        lowered.methods@.len() == 0,
        lowered.program.spec_functions().len() == lowered.functions@.len() + lowered.methods@.len(),
        forall|k: int| 0 <= k < lowered.functions@.len() ==> (#[trigger] lowered.functions@[k]).id.0 == k,
    ensures
        echo_functions(lowered),
        forall|k: int|
            0 <= k < lowered.functions@.len() ==> #[trigger] echo_function_at(lowered, k) && {
                &&& lowered.functions@[k].params@.len() == 1
                &&& lowered.functions@[k].params@[0].id == ValueId(0)
                &&& lowered.functions@[k].output == lowered.functions@[k].params@[0].ty
                &&& lowered.types.valid(lowered.functions@[k].output)
                &&& lowered.functions@[k].core_outputs@ == seq![lowered.functions@[k].output]
            },
{
    assert forall|k: int| 0 <= k < lowered.functions@.len() implies #[trigger] echo_function_at(lowered, k) && {
        &&& lowered.functions@[k].params@.len() == 1
        &&& lowered.functions@[k].params@[0].id == ValueId(0)
        &&& lowered.functions@[k].output == lowered.functions@[k].params@[0].ty
        &&& lowered.types.valid(lowered.functions@[k].output)
        &&& lowered.functions@[k].core_outputs@ == seq![lowered.functions@[k].output]
    } by {
        lemma_echo_function(items, lowered, k);
    }
}

pub open spec fn bodies_lowered(module: Module, m: LoweredModule) -> bool {
    &&& m.types.wf()
    &&& standard_types_bound(m.types)
    &&& forall|i: int| 0 <= i < module.items@.len() ==> item_bound(m.types, #[trigger] module.items@[i])
    &&& m.program.wf()
    &&& crate::ir::spec_check_program(&m.types, &m.program) is Ok
    &&& globals_lowered(m.globals@, global_items(module.items@), m.types, m.program)
    &&& functions_declared(m.functions@, function_items(module.items@), m.types, m.program)
    &&& methods_declared(m.methods@, impl_methods(module.items@), m.types, m.program)
    &&& m.program.spec_functions().len() == m.functions@.len() + m.methods@.len()
    &&& m.program.spec_global_decls().len() == m.globals@.len()
    &&& violations_view(m.flow_warnings@) == all_marker_violations(lowered_functions(m), inferred_flows(m.program))
    &&& borrows_proven(violations_view(m.flow_warnings@))
    &&& forall|i: int| 0 <= i < module.items@.len() ==> capabilities_accepted(#[trigger] module.items@[i])
}

/// Lowers a whole module: its types and signatures, then the body of every
/// function and method. The program is checked by the core checker, and
/// the flow markers are verified against the inferred value flow.
pub fn lower_module_bodies(module: &Module) -> (r: Result<LoweredModule, LowerError>)
    ensures
        r matches Ok(m) ==> bodies_lowered(*module, m),
        plain_module(module.items@) && plain_signatures(module.items@) && function_free(module.items@) ==> r is Ok,
        plain_module(module.items@) && plain_signatures(module.items@) && function_items(module.items@).len() > 0
            && dup_item(function_items(module.items@)[0]) ==> (r matches Err(LowerError::DuplicateLinearUse(s)) && s@
            == function_items(module.items@)[0].params@[0].name@),
        copy_module(module.items@) ==> r == Err::<LoweredModule, LowerError>(
            LowerError::Core(CoreError::ConsumedValue(ValueId(0))),
        ),
        echo_module(module.items@) ==> (r matches Ok(m) && forall|k: int|
            0 <= k < m.functions@.len() ==> hands_back_first_input(
                #[trigger] m.program.spec_functions()[m.functions@[k].id.0 as int],
            )),
        plain_module(module.items@) ==> forall|i: int, k: int|
            #[trigger] signature_param_unresolved(module.items@, i, k) ==> (r matches Err(e) && signature_param_error(
                module.items@,
                i,
                k,
                e,
            )),
        forall|i: int, k: int|
            #[trigger] type_field_unresolved(module.items@, i, k) ==> (r matches Err(e) && type_field_error(
                module.items@,
                i,
                k,
                e,
            )),
{
    let mut lowered = match lower_module_signatures(module) {
        Ok(m) => m,
        Err(e) => {
            return Err(e);
        },
    };
    let ghost items = module.items@;
    let ghost echoes = echo_module(items);
    proof {
        if echoes {
            assert forall|i: int| 0 <= i < items.len() implies !(#[trigger] items[i] is Global) by {
                assert(plain_signatures(items));
                assert(items[i] == items[i]);
            }
            lemma_no_global_items(items);
            lemma_echo_functions(items, lowered);
        }
        if copy_module(items) {
            assert forall|i: int| 0 <= i < items.len() implies !(#[trigger] items[i] is Global) by {
                assert(plain_signatures(items));
                assert(items[i] == items[i]);
            }
            lemma_no_global_items(items);
            lemma_copy_function(items, lowered);
        }
        if plain_module(items) && plain_signatures(items) && function_items(items).len() > 0 && dup_item(
            function_items(items)[0],
        ) {
            let sf = function_items(items)[0];
            let f = lowered.functions@[0];
            assert(function_lowered(f, sf, sf.name@, lowered.types, lowered.program));
            let x = sf.params@[0].name@;
            let op = choose|op: crate::frontend::ast::BinaryOp|
                block_view(sf.body) == (BlockV {
                    lets: Seq::empty(),
                    result: Some(
                        Box::new(ExprV::Binary(Box::new(ExprV::Name(x)), op, Box::new(ExprV::Name(x)))),
                    ),
                });
            assert(block_view(f.body) == block_view(sf.body));
            lemma_dup_block(f.body, x, op);
            let p = f.params@[0];
            assert(params_follow(f.params@, sf.params@, lowered.types));
            assert(p.name@ == x);
            if let TypeV::Name(n) = type_view(sf.params@[0].ty) {
                let i = choose|i: int| 0 <= i < 4 && #[trigger] standard_names()[i] == n;
                assert(lowered.types.spec_lookup(standard_names()[i]) == Some(p.ty));
            }
            assert(body::finite_type(lowered.types, p.ty));
            assert(body::dup_body(f.params@, f.body, lowered.types) == Some(x));
        }
    }
    let ghost no_callables = plain_module(items) && plain_signatures(items) && function_free(items);
    proof {
        if no_callables {
            assert forall|i: int| 0 <= i < items.len() implies !(#[trigger] items[i] is Function) && !(
            items[i] is Global) && !(items[i] is Impl) by {
                assert(plain_signatures(items));
                assert(function_free(items));
            }
            lemma_declares_nothing_callable(items);
        }
    }
    let ghost before = lowered;
    proof {
        lemma_lowered_declared(
            lowered.functions@,
            function_items(items),
            lowered.methods@,
            impl_methods(items),
            lowered.types,
            lowered.program,
        );
    }
    match lower_all_bodies(&mut lowered) {
        Ok(()) => {},
        Err(e) => {
            return Err(e);
        },
    }
    proof {
        lemma_declared_stays(
            lowered.globals@,
            global_items(items),
            lowered.functions@,
            function_items(items),
            lowered.methods@,
            impl_methods(items),
            lowered.types,
            before.program,
            lowered.program,
        );
    }
    proof {
        if no_callables {
            assert(lowered.program.spec_functions().len() == 0);
            assert(lowered.program.spec_global_decls().len() == 0);
            assert(crate::ir::spec_check_program(&lowered.types, &lowered.program) is Ok);
        }
        if copy_module(items) {
            let fs = lowered.program.spec_functions();
            let f = lowered.functions@[0];
            assert(lowered.program.spec_global_decls().len() == 0);
            assert(function_lowered(f, function_items(items)[0], function_items(items)[0].name@, before.types, before.program));
            let sh = before.program.spec_functions()[0];
            assert(declared_as(sh, f));
            assert(fs[0].inputs == sh.inputs && fs[0].outputs == sh.outputs);
            assert(sh.inputs@[0] == CoreParam { id: f.params@[0].id, ty: f.params@[0].ty });
            assert(fs[0].inputs@ =~= seq![CoreParam { id: ValueId(0), ty: f.output }]);
            assert(fs[0].outputs@ =~= seq![f.output, f.output]);
            crate::ir::checker::lemma_hand_back_twice_refused(&lowered.types, &lowered.program, fs[0], f.output);
            assert(crate::ir::spec_check_functions(&lowered.types, &lowered.program, fs, 0) == Err::<(), CoreError>(
                CoreError::ConsumedValue(ValueId(0)),
            ));
            assert(crate::ir::spec_check_program(&lowered.types, &lowered.program) == Err::<(), CoreError>(
                CoreError::ConsumedValue(ValueId(0)),
            ));
        }
        if echoes {
            let fs = lowered.program.spec_functions();
            assert(lowered.program.spec_global_decls().len() == 0);
            assert forall|k: int| 0 <= k < fs.len() implies crate::ir::checker::spec_check_function(
                &lowered.types,
                &lowered.program,
                #[trigger] fs[k],
            ) is Ok by {
                let f = lowered.functions@[k];
                assert(echo_function_at(before, k));
                assert(f.id.0 == k);
                assert(function_lowered(f, function_items(items)[k], function_items(items)[k].name@, before.types, before.program));
                let sh = before.program.spec_functions()[k];
                assert(declared_as(sh, f));
                assert(fs[k].inputs == sh.inputs && fs[k].outputs == sh.outputs);
                assert(f.params@.len() == 1 && f.params@[0].id == ValueId(0) && f.output == f.params@[0].ty);
                assert(sh.inputs@[0] == CoreParam { id: f.params@[0].id, ty: f.params@[0].ty });
                assert(fs[k].inputs@ =~= seq![CoreParam { id: ValueId(0), ty: f.output }]);
                assert(fs[k].outputs@ =~= seq![f.output]);
                crate::ir::checker::lemma_hand_back_checks(&lowered.types, &lowered.program, fs[k], f.output);
            }
            lemma_functions_check(&lowered.types, &lowered.program, fs, 0);
            assert(crate::ir::spec_check_program(&lowered.types, &lowered.program) is Ok);
        }
    }
    match lowered.program.check(&lowered.types) {
        Ok(()) => {},
        Err(e) => {
            return Err(LowerError::Core(e));
        },
    }
    proof {
        if echoes {
            let all = lowered_functions(lowered);
            assert(method_functions(lowered.methods@) =~= Seq::<LoweredFunction>::empty());
            assert(all =~= lowered.functions@);
            assert forall|k: int| 0 <= k < all.len() implies borrows_proven(
                marker_violations(#[trigger] all[k], inferred_flows(lowered.program)),
            ) by {
                let f = all[k];
                assert(echo_function_at(before, k));
                let cs = marker_contracts(f.params@);
                assert forall|j: int| 0 <= j < cs.len() implies !((#[trigger] cs[j]).1 is Borrowed) by {
                    assert(j == 0);
                }
                let flows = inferred_flows(lowered.program);
                if f.id.0 < flows.len() {
                    lemma_no_borrow_contract(f.name@, cs, flows[f.id.0 as int], 0, 0);
                }
            }
        }
    }
    let warnings = match collect_flow_warnings(&lowered) {
        Ok(w) => w,
        Err(e) => {
            return Err(e);
        },
    };
    let ghost before_warnings = lowered;
    lowered.flow_warnings = warnings;
    assert(lowered_functions(lowered) == lowered_functions(before_warnings));
    Ok(lowered)
}

} // verus!
