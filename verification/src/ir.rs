//! The semantic core: a small linear IR that all surface syntax lowers into.
//!
//! A [`CoreProgram`] is a set of functions plus non-function globals. A
//! [`Function`] body is a list of single-assignment [`Statement`]s: each
//! statement evaluates one [`Expr`] and binds its results to fresh
//! [`ValueId`]s, and the function ends by returning a list of ids. Branching
//! is the [`Expr::Match`] expression, whose arms are blocks of the same shape.
//!
//! Values are linear: every id is defined once and consumed exactly once, by
//! an expression that uses it, by being returned, or by an explicit
//! [`Expr::Zap`]. Copying is the explicit [`Expr::Dup`]. Both are gated by the
//! type's capabilities. The checker (`Function::check`, in `checker.rs`)
//! enforces definition-before-use, single assignment, single consumption, no
//! live values left at a block end, and full type agreement.
//!
//! Products are taken apart whole ([`Expr::SplitProduct`]) or one field at a
//! time ([`Expr::ProjectProduct`], yielding the field and the residual product
//! of the remaining fields), and put back with [`Expr::Product`] or
//! [`Expr::InsertProductField`].
//!
//! Function types are unary `A -> B`. A multi-input/multi-output function is
//! referenced as a value ([`Expr::FunctionRef`]) by packing: zero
//! inputs/outputs pack as unit, one is used directly, several pack into a
//! product in declaration order. [`Expr::CallValue`] applies such a value.

use vstd::prelude::*;

use crate::id::{FunctionId, GlobalId, TypeId, ValueId};
use crate::names::{distinct_names, find_name, lookup, table_view};
use crate::types::{Component, ComponentName, TypeDef, TypeError, TypeKind, TypeStore};

pub mod checker;
mod copying;

use checker::{check_function, spec_check_function};

verus! {

/// A checkable core program: functions, global declarations, and literal
/// global definitions. Function and global names share one namespace.
#[derive(Debug, Default, PartialEq, Eq)]
pub struct CoreProgram {
    functions: Vec<Function>,
    global_decls: Vec<GlobalDecl>,
    global_defs: Vec<Option<GlobalExpr>>,
    function_names: Vec<(String, FunctionId)>,
    global_names: Vec<(String, GlobalId)>,
}

#[derive(Clone, Debug, PartialEq, Eq)]
pub struct GlobalDecl {
    pub name: String,
    pub ty: TypeId,
}

#[derive(Debug, PartialEq, Eq)]
pub struct GlobalDef {
    pub name: String,
    pub ty: TypeId,
    pub value: GlobalExpr,
}

/// A literal value tree for a global definition. Globals cannot reference
/// other globals, so definitions are acyclic by construction.
#[derive(Debug, PartialEq, Eq)]
pub enum GlobalExpr {
    Unit,
    FiniteLiteral { ty: TypeId, value: u128 },
    SymbolLiteral { ty: TypeId, value: String },
    TextLiteral { ty: TypeId, value: String },
    FunctionRef { ty: TypeId, function: FunctionId },
    Product { ty: TypeId, fields: Vec<GlobalExpr> },
    SumInject { ty: TypeId, variant: usize, payload: Box<GlobalExpr> },
}

/// A core function: typed input ids, output types, a straight-line body of
/// single-assignment statements, and the ids it returned.
#[derive(Debug, PartialEq, Eq)]
pub struct Function {
    pub name: Option<String>,
    pub inputs: Vec<Param>,
    pub outputs: Vec<TypeId>,
    pub body: Vec<Statement>,
    pub returned: Vec<ValueId>,
}

#[derive(Clone, Copy, Debug, PartialEq, Eq)]
pub struct Param {
    pub id: ValueId,
    pub ty: TypeId,
}

/// One single-assignment step: evaluate `expr`, bind its results (in order)
/// to the fresh ids in `results`.
#[derive(Debug, PartialEq, Eq)]
pub struct Statement {
    pub results: Vec<ValueId>,
    pub expr: Expr,
}

/// One arm of an [`Expr::Match`]. The arm's block starts with the variant
/// payload bound to `payload` plus every value live before the match (the
/// match consumes the entire environment, and each arm must account for all
/// of it). All arms must return the same types, which become the match's
/// results.
#[derive(Debug, PartialEq, Eq)]
pub struct MatchArm {
    pub variant: usize,
    pub payload: ValueId,
    pub body: Vec<Statement>,
    pub returned: Vec<ValueId>,
}

/// A core expression. Every id an expression mentions is consumed; the
/// comment on each variant gives its result shape.
#[derive(Debug, PartialEq, Eq)]
pub enum Expr {
    /// The unit value. Results: `(unit)`.
    Unit,
    /// A constant of a finite type, below its cardinality. Results: `(ty)`.
    FiniteLiteral { ty: TypeId, value: u128 },
    /// A static function as a value of function type `ty`. Results: `(ty)`.
    FunctionRef { ty: TypeId, function: FunctionId },
    /// Construct a product from all of its fields, in order. Results: `(ty)`.
    Product { ty: TypeId, fields: Vec<ValueId> },
    /// Deconstruct a product into all of its fields. Results: one per field.
    SplitProduct { value: ValueId },
    /// Take one field out of a product; `residual_ty` is the product of the
    /// remaining fields, names and order preserved. Results:
    /// `(field type, residual_ty)`.
    ProjectProduct { value: ValueId, field: usize, residual_ty: TypeId },
    /// Put a field back into its residual, rebuilding product `ty`.
    /// Results: `(ty)`.
    InsertProductField { ty: TypeId, field: usize, field_value: ValueId, residual: ValueId },
    /// Construct a sum by injecting a payload at `variant`. Results: `(ty)`.
    SumInject { ty: TypeId, variant: usize, payload: ValueId },
    /// Deconstruct a sum; exactly one arm per variant. Results: what the arms
    /// agree on returning.
    Match { scrutinee: ValueId, arms: Vec<MatchArm> },
    /// Reference a global, minting a fresh local of its type. Results:
    /// `(global's type)`.
    Global { global: GlobalId },
    /// Call a known function. Results: the callee's output types.
    Call { function: FunctionId, args: Vec<ValueId> },
    /// Call through a function value with the packing convention. Results:
    /// `(B)` for a function value of type `A -> B`.
    CallValue { function: ValueId, arg: ValueId },
    /// A primitive operation; see [`BuiltinOp`].
    Builtin { op: BuiltinOp, args: Vec<ValueId> },
    /// Duplicate a value; requires `Dup`. Results: `(T, T)`.
    Dup { value: ValueId },
    /// Drop a value; requires `Zap`. Results: none.
    Zap { value: ValueId },
}

#[derive(Clone, Debug, PartialEq, Eq)]
pub enum CoreError {
    Type(TypeError),
    EmptyName,
    DuplicateFunctionName(String),
    DuplicateGlobalName(String),
    UnknownFunction(FunctionId),
    UnknownGlobal(GlobalId),
    UnknownType(TypeId),
    DuplicateValue(ValueId),
    UnknownValue(ValueId),
    ConsumedValue(ValueId),
    LiveValueAtEnd(ValueId),
    ResultArity { expected: usize, actual: usize },
    ReturnArity { expected: usize, actual: usize },
    TypeMismatch { expected: TypeId, actual: TypeId },
    NotFinite(TypeId),
    FiniteLiteralOutOfRange { ty: TypeId, value: u128, values: u128 },
    NotProduct(TypeId),
    BadField { ty: TypeId, field: usize },
    BadProductResidual { product: TypeId, field: usize, residual: TypeId },
    NotSum(TypeId),
    NotSymbol(TypeId),
    NotText(TypeId),
    NotFunction(TypeId),
    BadVariant { ty: TypeId, variant: usize },
    DuplicateMatchArm { ty: TypeId, variant: usize },
    MissingMatchArm { ty: TypeId, variant: usize },
    CannotDup(TypeId),
    CannotZap(TypeId),
    FunctionTypeMismatch { function: FunctionId, ty: TypeId },
}

/// Primitive operations. The arithmetic/comparison ops are observer-style:
/// they consume both operands and return them unchanged before the fresh
/// visible result.
///
/// ```text
/// add/sub/mul (lhs, rhs) -> (lhs, rhs, result)     modular over cardinality
/// eq/lt       (lhs, rhs) -> (lhs, rhs, bool)       bool_ty: any 2-unit sum
/// next        (x)        -> (x')                   changed version, +1 mod N
/// ```
#[derive(Clone, Copy, Debug, PartialEq, Eq)]
pub enum BuiltinOp {
    FiniteAdd { ty: TypeId },
    FiniteSub { ty: TypeId },
    FiniteMul { ty: TypeId },
    FiniteEq { ty: TypeId, bool_ty: TypeId },
    FiniteLt { ty: TypeId, bool_ty: TypeId },
    /// Toy update builtin: its output is a changed version of its input.
    FiniteNext { ty: TypeId },
}

impl From<TypeError> for CoreError {
    fn from(error: TypeError) -> (r: Self)
        ensures
            r == CoreError::Type(error),
    {
        CoreError::Type(error)
    }
}

impl vstd::std_specs::convert::FromSpecImpl<TypeError> for CoreError {
    open spec fn obeys_from_spec() -> bool {
        true
    }

    open spec fn from_spec(error: TypeError) -> Self {
        CoreError::Type(error)
    }
}

// ---------------------------------------------------------------------------
// Shared type queries (spec and exec)
// ---------------------------------------------------------------------------

/// The kind of type `id`, if the store has it.
pub open spec fn spec_type_kind(types: Seq<TypeDef>, id: TypeId) -> Result<TypeKind, CoreError> {
    if id.0 < types.len() {
        Ok(types[id.0 as int].kind)
    } else {
        Err(CoreError::UnknownType(id))
    }
}

/// The cardinality of finite type `id`.
pub open spec fn spec_finite_cardinality(types: Seq<TypeDef>, id: TypeId) -> Result<u128, CoreError> {
    match spec_type_kind(types, id) {
        Err(e) => Err(e),
        Ok(TypeKind::Finite { values }) => Ok(values),
        Ok(_) => Err(CoreError::NotFinite(id)),
    }
}

/// Input and output of function type `id`.
pub open spec fn spec_function_parts(types: Seq<TypeDef>, id: TypeId) -> Result<(TypeId, TypeId), CoreError> {
    match spec_type_kind(types, id) {
        Err(e) => Err(e),
        Ok(TypeKind::Function { input, output }) => Ok((input, output)),
        Ok(_) => Err(CoreError::NotFunction(id)),
    }
}

/// `packed` packs `parts` by the function-value convention: unit for none,
/// the part itself for one, a product of exactly those component types for
/// several.
pub open spec fn spec_packed_matches(
    types: Seq<TypeDef>,
    unit: TypeId,
    packed: TypeId,
    parts: Seq<TypeId>,
) -> Result<bool, CoreError> {
    if parts.len() == 0 {
        Ok(packed == unit)
    } else if parts.len() == 1 {
        Ok(packed == parts[0])
    } else {
        match spec_type_kind(types, packed) {
            Err(e) => Err(e),
            Ok(TypeKind::Product(fields)) => Ok(fields@.len() == parts.len() && forall|i: int|
                0 <= i < parts.len() ==> (#[trigger] fields@[i]).ty == parts[i]),
            Ok(_) => Ok(false),
        }
    }
}

pub open spec fn param_types(inputs: Seq<Param>) -> Seq<TypeId> {
    inputs.map_values(|p: Param| p.ty)
}

/// Function `function` of `functions` is a valid value of function type
/// `function_ty`.
pub open spec fn spec_function_value_check(
    types: Seq<TypeDef>,
    unit: TypeId,
    functions: Seq<Function>,
    function: FunctionId,
    function_ty: TypeId,
) -> Result<(), CoreError> {
    match spec_function_parts(types, function_ty) {
        Err(e) => Err(e),
        Ok((input, output)) => if function.0 >= functions.len() {
            Err(CoreError::UnknownFunction(function))
        } else {
            let callee = functions[function.0 as int];
            match spec_packed_matches(types, unit, input, param_types(callee.inputs@)) {
                Err(e) => Err(e),
                Ok(false) => Err(CoreError::FunctionTypeMismatch { function, ty: function_ty }),
                Ok(true) => match spec_packed_matches(types, unit, output, callee.outputs@) {
                    Err(e) => Err(e),
                    Ok(false) => Err(CoreError::FunctionTypeMismatch { function, ty: function_ty }),
                    Ok(true) => Ok(()),
                },
            }
        },
    }
}

pub fn type_kind<'a>(types: &'a TypeStore, id: TypeId) -> (r: Result<&'a TypeKind, CoreError>)
    ensures
        match spec_type_kind(types.spec_types(), id) {
            Ok(k) => r == Ok::<&TypeKind, CoreError>(&k),
            Err(e) => r == Err::<&TypeKind, CoreError>(e),
        },
{
    match types.get(id) {
        Some(def) => Ok(&def.kind),
        None => Err(CoreError::UnknownType(id)),
    }
}

pub fn finite_cardinality(types: &TypeStore, id: TypeId) -> (r: Result<u128, CoreError>)
    ensures
        r == spec_finite_cardinality(types.spec_types(), id),
{
    match type_kind(types, id)? {
        TypeKind::Finite { values } => Ok(*values),
        _ => Err(CoreError::NotFinite(id)),
    }
}

pub fn function_parts(types: &TypeStore, id: TypeId) -> (r: Result<(TypeId, TypeId), CoreError>)
    ensures
        r == spec_function_parts(types.spec_types(), id),
{
    match type_kind(types, id)? {
        TypeKind::Function { input, output } => Ok((*input, *output)),
        _ => Err(CoreError::NotFunction(id)),
    }
}

#[verifier::loop_isolation(false)]
fn packed_signature_matches(types: &TypeStore, packed_ty: TypeId, parts: &Vec<TypeId>) -> (r: Result<bool, CoreError>)
    ensures
        r == spec_packed_matches(types.spec_types(), types.spec_unit(), packed_ty, parts@),
{
    if parts.len() == 0 {
        return Ok(packed_ty == types.unit());
    }
    if parts.len() == 1 {
        return Ok(packed_ty == parts[0]);
    }
    match type_kind(types, packed_ty)? {
        TypeKind::Product(fields) => {
            if fields.len() != parts.len() {
                return Ok(false);
            }
            let mut i: usize = 0;
            while i < parts.len()
                invariant
                    0 <= i <= parts@.len(),
                    fields@.len() == parts@.len(),
                    forall|k: int| 0 <= k < i ==> (#[trigger] fields@[k]).ty == parts@[k],
                decreases parts@.len() - i,
            {
                if fields[i].ty != parts[i] {
                    assert(fields@[i as int].ty != parts@[i as int]);
                    return Ok(false);
                }
                i += 1;
            }
            Ok(true)
        },
        _ => Ok(false),
    }
}

pub(crate) fn input_types(inputs: &Vec<Param>) -> (tys: Vec<TypeId>)
    ensures
        tys@ == param_types(inputs@),
{
    let mut tys: Vec<TypeId> = Vec::new();
    let mut i: usize = 0;
    while i < inputs.len()
        invariant
            0 <= i <= inputs@.len(),
            tys@ == param_types(inputs@.subrange(0, i as int)),
        decreases inputs@.len() - i,
    {
        tys.push(inputs[i].ty);
        proof {
            assert(param_types(inputs@.subrange(0, i + 1)) =~= param_types(
                inputs@.subrange(0, i as int),
            ).push(inputs@[i as int].ty));
        }
        i += 1;
    }
    assert(inputs@.subrange(0, inputs@.len() as int) =~= inputs@);
    tys
}

pub fn check_function_value_type(
    types: &TypeStore,
    program: &CoreProgram,
    function: FunctionId,
    function_ty: TypeId,
) -> (r: Result<(), CoreError>)
    ensures
        r == spec_function_value_check(
            types.spec_types(),
            types.spec_unit(),
            program.spec_functions(),
            function,
            function_ty,
        ),
{
    let (input, output) = function_parts(types, function_ty)?;
    let callee = match program.get(function) {
        Some(callee) => callee,
        None => return Err(CoreError::UnknownFunction(function)),
    };
    let input_parts = input_types(&callee.inputs);
    if !packed_signature_matches(types, input, &input_parts)? {
        return Err(CoreError::FunctionTypeMismatch { function, ty: function_ty });
    }
    if !packed_signature_matches(types, output, &callee.outputs)? {
        return Err(CoreError::FunctionTypeMismatch { function, ty: function_ty });
    }
    Ok(())
}

// ---------------------------------------------------------------------------
// Global literal trees
// ---------------------------------------------------------------------------

/// The type a global literal tree checks at, or why it does not. With no
/// program, function references are checked against their type's kind only.
pub open spec fn spec_global_type(
    types: Seq<TypeDef>,
    unit: TypeId,
    functions: Option<Seq<Function>>,
    expr: GlobalExpr,
) -> Result<TypeId, CoreError>
    decreases expr,
{
    match expr {
        GlobalExpr::Unit => Ok(unit),
        GlobalExpr::FiniteLiteral { ty, value } => match spec_finite_cardinality(types, ty) {
            Err(e) => Err(e),
            Ok(values) => if value >= values {
                Err(CoreError::FiniteLiteralOutOfRange { ty, value, values })
            } else {
                Ok(ty)
            },
        },
        GlobalExpr::SymbolLiteral { ty, .. } => match spec_type_kind(types, ty) {
            Err(e) => Err(e),
            Ok(TypeKind::Symbol) => Ok(ty),
            Ok(_) => Err(CoreError::NotSymbol(ty)),
        },
        GlobalExpr::TextLiteral { ty, .. } => match spec_type_kind(types, ty) {
            Err(e) => Err(e),
            Ok(TypeKind::Text) => Ok(ty),
            Ok(_) => Err(CoreError::NotText(ty)),
        },
        GlobalExpr::FunctionRef { ty, function } => match spec_type_kind(types, ty) {
            Err(e) => Err(e),
            Ok(TypeKind::Function { .. }) => match functions {
                None => Ok(ty),
                Some(fs) => match spec_function_value_check(types, unit, fs, function, ty) {
                    Err(e) => Err(e),
                    Ok(()) => Ok(ty),
                },
            },
            Ok(_) => Err(CoreError::NotFunction(ty)),
        },
        GlobalExpr::Product { ty, fields } => match spec_type_kind(types, ty) {
            Err(e) => Err(e),
            Ok(TypeKind::Product(expected)) => if fields@.len() != expected@.len() {
                Err(CoreError::ResultArity { expected: expected@.len() as usize, actual: fields@.len() as usize })
            } else {
                match spec_global_fields(types, unit, functions, fields@, expected@, 0) {
                    Err(e) => Err(e),
                    Ok(()) => Ok(ty),
                }
            },
            Ok(_) => Err(CoreError::NotProduct(ty)),
        },
        GlobalExpr::SumInject { ty, variant, payload } => match spec_type_kind(types, ty) {
            Err(e) => Err(e),
            Ok(TypeKind::Sum(variants)) => if variant >= variants@.len() {
                Err(CoreError::BadVariant { ty, variant })
            } else {
                let expected = variants@[variant as int].ty;
                match spec_global_type(types, unit, functions, *payload) {
                    Err(e) => Err(e),
                    Ok(actual) => if actual != expected {
                        Err(CoreError::TypeMismatch { expected, actual })
                    } else {
                        Ok(ty)
                    },
                }
            },
            Ok(_) => Err(CoreError::NotSum(ty)),
        },
    }
}

/// Checks `fields[from..]` against the component types `expected[from..]`,
/// in order.
pub open spec fn spec_global_fields(
    types: Seq<TypeDef>,
    unit: TypeId,
    functions: Option<Seq<Function>>,
    fields: Seq<GlobalExpr>,
    expected: Seq<Component>,
    from: int,
) -> Result<(), CoreError>
    decreases fields, fields.len() - from,
{
    if from < 0 || from >= fields.len() || from >= expected.len() {
        Ok(())
    } else {
        match spec_global_type(types, unit, functions, fields[from]) {
            Err(e) => Err(e),
            Ok(actual) => if actual != expected[from].ty {
                Err(CoreError::TypeMismatch { expected: expected[from].ty, actual })
            } else {
                spec_global_fields(types, unit, functions, fields, expected, from + 1)
            },
        }
    }
}

/// No function reference occurs in the literal tree `expr`.
pub open spec fn refs_no_function(expr: GlobalExpr) -> bool
    decreases expr,
{
    match expr {
        GlobalExpr::FunctionRef { .. } => false,
        GlobalExpr::Product { fields, .. } => fields_ref_no_function(fields@, 0),
        GlobalExpr::SumInject { payload, .. } => refs_no_function(*payload),
        _ => true,
    }
}

/// No function reference occurs in `fields[from..]`.
pub open spec fn fields_ref_no_function(fields: Seq<GlobalExpr>, from: int) -> bool
    decreases fields, fields.len() - from,
{
    if from < 0 || from >= fields.len() {
        true
    } else {
        refs_no_function(fields[from]) && fields_ref_no_function(fields, from + 1)
    }
}

/// Checking a literal tree in which no function is referenced does not
/// depend on the program: `infer_type` and `check` agree on it.
pub proof fn law_global_type_without_functions(
    types: Seq<TypeDef>,
    unit: TypeId,
    functions: Seq<Function>,
    expr: GlobalExpr,
)
    requires
        refs_no_function(expr),
    ensures
        spec_global_type(types, unit, None, expr) == spec_global_type(types, unit, Some(functions), expr),
    decreases expr,
{
    match expr {
        GlobalExpr::Product { ty, fields } => {
            if let Ok(TypeKind::Product(expected)) = spec_type_kind(types, ty) {
                lemma_global_fields_without_functions(types, unit, functions, fields@, expected@, 0);
            }
        },
        GlobalExpr::SumInject { payload, .. } => {
            law_global_type_without_functions(types, unit, functions, *payload);
        },
        _ => {},
    }
}

proof fn lemma_global_fields_without_functions(
    types: Seq<TypeDef>,
    unit: TypeId,
    functions: Seq<Function>,
    fields: Seq<GlobalExpr>,
    expected: Seq<Component>,
    from: int,
)
    requires
        fields_ref_no_function(fields, from),
    ensures
        spec_global_fields(types, unit, None, fields, expected, from) == spec_global_fields(
            types,
            unit,
            Some(functions),
            fields,
            expected,
            from,
        ),
    decreases fields, fields.len() - from,
{
    if !(from < 0 || from >= fields.len() || from >= expected.len()) {
        law_global_type_without_functions(types, unit, functions, fields[from]);
        lemma_global_fields_without_functions(types, unit, functions, fields, expected, from + 1);
    }
}

impl GlobalExpr {
    pub fn infer_type(&self, types: &TypeStore) -> (r: Result<TypeId, CoreError>)
        ensures
            r == spec_global_type(types.spec_types(), types.spec_unit(), None, *self),
    {
        self.check_inner(types, None)
    }

    pub fn check(&self, types: &TypeStore, program: &CoreProgram) -> (r: Result<TypeId, CoreError>)
        ensures
            r == spec_global_type(
                types.spec_types(),
                types.spec_unit(),
                Some(program.spec_functions()),
                *self,
            ),
    {
        self.check_inner(types, Some(program))
    }

    #[verifier::loop_isolation(false)]
    fn check_inner(&self, types: &TypeStore, program: Option<&CoreProgram>) -> (r: Result<TypeId, CoreError>)
        ensures
            r == spec_global_type(
                types.spec_types(),
                types.spec_unit(),
                match program {
                    Some(p) => Some(p.spec_functions()),
                    None => None,
                },
                *self,
            ),
        decreases *self,
    {
        let ghost functions = match program {
            Some(p) => Some(p.spec_functions()),
            None => None,
        };
        match self {
            GlobalExpr::Unit => Ok(types.unit()),
            GlobalExpr::FiniteLiteral { ty, value } => {
                let values = finite_cardinality(types, *ty)?;
                if *value >= values {
                    return Err(CoreError::FiniteLiteralOutOfRange { ty: *ty, value: *value, values });
                }
                Ok(*ty)
            },
            GlobalExpr::SymbolLiteral { ty, .. } => match type_kind(types, *ty)? {
                TypeKind::Symbol => Ok(*ty),
                _ => Err(CoreError::NotSymbol(*ty)),
            },
            GlobalExpr::TextLiteral { ty, .. } => match type_kind(types, *ty)? {
                TypeKind::Text => Ok(*ty),
                _ => Err(CoreError::NotText(*ty)),
            },
            GlobalExpr::FunctionRef { ty, function } => {
                match type_kind(types, *ty)? {
                    TypeKind::Function { .. } => {},
                    _ => return Err(CoreError::NotFunction(*ty)),
                }
                if let Some(program) = program {
                    check_function_value_type(types, program, *function, *ty)?;
                }
                Ok(*ty)
            },
            GlobalExpr::Product { ty, fields } => {
                let expected_fields = match type_kind(types, *ty)? {
                    TypeKind::Product(expected_fields) => expected_fields,
                    _ => return Err(CoreError::NotProduct(*ty)),
                };
                if fields.len() != expected_fields.len() {
                    return Err(CoreError::ResultArity { expected: expected_fields.len(), actual: fields.len() });
                }
                let mut i: usize = 0;
                while i < fields.len()
                    invariant
                        0 <= i <= fields@.len(),
                        fields@.len() == expected_fields@.len(),
                        *self == (GlobalExpr::Product { ty: *ty, fields: *fields }),
                        functions == match program {
                            Some(p) => Some(p.spec_functions()),
                            None => None,
                        },
                        spec_global_fields(types.spec_types(), types.spec_unit(), functions, fields@, expected_fields@, 0)
                            == spec_global_fields(types.spec_types(), types.spec_unit(), functions, fields@, expected_fields@, i as int),
                    decreases fields@.len() - i,
                {
                    assert(decreases_to!(*self => fields@[i as int]));
                    let actual = match fields[i].check_inner(types, program) {
                        Ok(actual) => actual,
                        Err(e) => {
                            assert(spec_global_fields(types.spec_types(), types.spec_unit(), functions, fields@, expected_fields@, i as int) == Err::<(), CoreError>(e));
                            return Err(e);
                        },
                    };
                    if actual != expected_fields[i].ty {
                        return Err(CoreError::TypeMismatch { expected: expected_fields[i].ty, actual });
                    }
                    i += 1;
                }
                Ok(*ty)
            },
            GlobalExpr::SumInject { ty, variant, payload } => {
                let expected_payload = match type_kind(types, *ty)? {
                    TypeKind::Sum(variants) => {
                        if *variant >= variants.len() {
                            return Err(CoreError::BadVariant { ty: *ty, variant: *variant });
                        }
                        variants[*variant].ty
                    },
                    _ => return Err(CoreError::NotSum(*ty)),
                };
                let actual_payload = payload.check_inner(types, program)?;
                if actual_payload != expected_payload {
                    return Err(CoreError::TypeMismatch { expected: expected_payload, actual: actual_payload });
                }
                Ok(*ty)
            },
        }
    }
}

// ---------------------------------------------------------------------------
// The program
// ---------------------------------------------------------------------------

impl CoreProgram {
    pub closed spec fn spec_functions(&self) -> Seq<Function> {
        self.functions@
    }

    pub closed spec fn spec_global_decls(&self) -> Seq<GlobalDecl> {
        self.global_decls@
    }

    pub closed spec fn spec_global_defs(&self) -> Seq<Option<GlobalExpr>> {
        self.global_defs@
    }

    pub closed spec fn spec_function_names(&self) -> Seq<(Seq<char>, FunctionId)> {
        table_view(self.function_names@)
    }

    pub closed spec fn spec_global_names(&self) -> Seq<(Seq<char>, GlobalId)> {
        table_view(self.global_names@)
    }

    /// The program invariant: one definition slot per global declaration,
    /// ids that fit, and name tables that bind distinct names to existing
    /// ids, with no name in both tables.
    pub open spec fn wf(&self) -> bool {
        &&& self.spec_global_defs().len() == self.spec_global_decls().len()
        &&& self.spec_functions().len() <= u32::MAX
        &&& self.spec_global_decls().len() <= u32::MAX
        &&& distinct_names(self.spec_function_names())
        &&& distinct_names(self.spec_global_names())
        &&& forall|k: int|
            0 <= k < self.spec_function_names().len() ==> (#[trigger] self.spec_function_names()[k]).1.0
                < self.spec_functions().len()
        &&& forall|k: int|
            0 <= k < self.spec_global_names().len() ==> (#[trigger] self.spec_global_names()[k]).1.0
                < self.spec_global_decls().len()
        &&& forall|n: Seq<char>|
            !(lookup(self.spec_function_names(), n) is Some && #[trigger] lookup(
                self.spec_global_names(),
                n,
            ) is Some)
    }

    /// `name` is bound to a function or a global.
    pub open spec fn name_taken(&self, name: Seq<char>) -> bool {
        lookup(self.spec_function_names(), name) is Some || lookup(self.spec_global_names(), name) is Some
    }

    /// Every bound name is the name of the function or global it binds.
    pub open spec fn names_consistent(&self) -> bool {
        &&& forall|k: int|
            0 <= k < self.spec_function_names().len() ==> {
                let entry = #[trigger] self.spec_function_names()[k];
                &&& entry.1.0 < self.spec_functions().len()
                &&& crate::types::opt_string_view(self.spec_functions()[entry.1.0 as int].name) == Some(entry.0)
            }
        &&& forall|k: int|
            0 <= k < self.spec_global_names().len() ==> {
                let entry = #[trigger] self.spec_global_names()[k];
                &&& entry.1.0 < self.spec_global_decls().len()
                &&& self.spec_global_decls()[entry.1.0 as int].name@ == entry.0
            }
    }

    /// In a program whose names are consistent, the function or global a
    /// name is bound to carries that name.
    pub proof fn law_bound_names_name_themselves(&self, n: Seq<char>)
        requires
            self.names_consistent(),
        ensures
            lookup(self.spec_function_names(), n) matches Some(id) ==> id.0 < self.spec_functions().len()
                && crate::types::opt_string_view(self.spec_functions()[id.0 as int].name) == Some(n),
            lookup(self.spec_global_names(), n) matches Some(g) ==> g.0 < self.spec_global_decls().len()
                && self.spec_global_decls()[g.0 as int].name@ == n,
    {
        crate::names::lemma_lookup_some(self.spec_function_names(), n);
        crate::names::lemma_lookup_some(self.spec_global_names(), n);
        if let Some(id) = lookup(self.spec_function_names(), n) {
            let k = choose|k: int|
                0 <= k < self.spec_function_names().len() && self.spec_function_names()[k].0 == n
                    && self.spec_function_names()[k].1 == id;
            assert(self.spec_function_names()[k] == (n, id));
        }
        if let Some(g) = lookup(self.spec_global_names(), n) {
            let k = choose|k: int|
                0 <= k < self.spec_global_names().len() && self.spec_global_names()[k].0 == n
                    && self.spec_global_names()[k].1 == g;
            assert(self.spec_global_names()[k] == (n, g));
        }
    }

    pub fn new() -> (p: Self)
        ensures
            p.wf(),
            p.names_consistent(),
            p.spec_functions().len() == 0,
            p.spec_global_decls().len() == 0,
            p.spec_function_names().len() == 0,
            p.spec_global_names().len() == 0,
    {
        let p = CoreProgram {
            functions: Vec::new(),
            global_decls: Vec::new(),
            global_defs: Vec::new(),
            function_names: Vec::new(),
            global_names: Vec::new(),
        };
        assert(p.spec_function_names() =~= Seq::<(Seq<char>, FunctionId)>::empty());
        assert(p.spec_global_names() =~= Seq::<(Seq<char>, GlobalId)>::empty());
        p
    }

    /// Checks the whole program against `types`.
    pub fn check(&self, types: &TypeStore) -> (r: Result<(), CoreError>)
        requires
            types.wf(),
            self.wf(),
        ensures
            r == spec_check_program(types, self),
    {
        let mut i: usize = 0;
        while i < self.global_decls.len()
            invariant
                0 <= i <= self.global_decls@.len(),
                first_unknown_decl(types.spec_types(), self.global_decls@, 0) == first_unknown_decl(
                    types.spec_types(),
                    self.global_decls@,
                    i as int,
                ),
            decreases self.global_decls@.len() - i,
        {
            self.global_decls[i].check(types)?;
            i += 1;
        }
        let mut i: usize = 0;
        while i < self.global_defs.len() && i < self.global_decls.len()
            invariant
                0 <= i <= self.global_defs@.len(),
                first_unknown_decl(types.spec_types(), self.global_decls@, 0) is None,
                spec_check_defs(
                    types.spec_types(),
                    types.spec_unit(),
                    self.functions@,
                    self.global_decls@,
                    self.global_defs@,
                    0,
                ) == spec_check_defs(
                    types.spec_types(),
                    types.spec_unit(),
                    self.functions@,
                    self.global_decls@,
                    self.global_defs@,
                    i as int,
                ),
            decreases self.global_defs@.len() - i,
        {
            if let Some(value) = &self.global_defs[i] {
                let actual = value.check(types, self)?;
                if actual != self.global_decls[i].ty {
                    return Err(CoreError::TypeMismatch { expected: self.global_decls[i].ty, actual });
                }
            }
            i += 1;
        }
        let mut i: usize = 0;
        while i < self.functions.len()
            invariant
                0 <= i <= self.functions@.len(),
                types.wf(),
                first_unknown_decl(types.spec_types(), self.global_decls@, 0) is None,
                spec_check_defs(
                    types.spec_types(),
                    types.spec_unit(),
                    self.functions@,
                    self.global_decls@,
                    self.global_defs@,
                    0,
                ) is Ok,
                spec_check_functions(types, self, self.functions@, 0) == spec_check_functions(
                    types,
                    self,
                    self.functions@,
                    i as int,
                ),
            decreases self.functions@.len() - i,
        {
            self.functions[i].check(types, self)?;
            i += 1;
        }
        Ok(())
    }

    fn name_exists(&self, name: &String) -> (b: bool)
        ensures
            b == self.name_taken(name@),
    {
        find_name(&self.function_names, name).is_some() || find_name(&self.global_names, name).is_some()
    }

    /// How many functions the program holds.
    pub(crate) fn function_count(&self) -> (n: usize)
        ensures
            n == self.spec_functions().len(),
    {
        self.functions.len()
    }

    /// How many globals the program declares.
    pub(crate) fn global_count(&self) -> (n: usize)
        ensures
            n == self.spec_global_decls().len(),
    {
        self.global_decls.len()
    }

    pub fn add_function(&mut self, function: Function) -> (r: Result<FunctionId, CoreError>)
        requires
            old(self).wf(),
            old(self).spec_functions().len() < u32::MAX,
        ensures
            final(self).wf(),
            final(self).spec_global_decls() == old(self).spec_global_decls(),
            final(self).spec_global_defs() == old(self).spec_global_defs(),
            final(self).spec_global_names() == old(self).spec_global_names(),
            function.name matches Some(n) && n@.len() == 0 ==> r == Err::<FunctionId, CoreError>(
                CoreError::EmptyName,
            ),
            function.name is Some && function.name->0@.len() > 0 && old(self).name_taken(
                function.name->0@,
            ) ==> (r matches Err(CoreError::DuplicateFunctionName(d)) && d@ == function.name->0@),
            r is Ok <==> !(function.name is Some && (function.name->0@.len() == 0
                || old(self).name_taken(function.name->0@))),
            r is Err ==> *final(self) == *old(self),
            old(self).names_consistent() ==> final(self).names_consistent(),
            r matches Ok(id) ==> {
                &&& id.0 == old(self).spec_functions().len()
                &&& final(self).spec_functions() == old(self).spec_functions().push(function)
                &&& final(self).spec_function_names() == match function.name {
                    Some(n) => old(self).spec_function_names().push((n@, id)),
                    None => old(self).spec_function_names(),
                }
            },
    {
        if let Some(name) = &function.name {
            if name.as_str().is_empty() {
                return Err(CoreError::EmptyName);
            }
            if self.name_exists(name) {
                return Err(CoreError::DuplicateFunctionName(name.clone()));
            }
        }
        let id = FunctionId(self.functions.len() as u32);
        let ghost old_names = self.spec_function_names();
        let ghost old_globals = self.spec_global_names();
        if let Some(name) = &function.name {
            self.function_names.push((name.clone(), id));
            proof {
                crate::names::lemma_push_fresh(old_names, name@, id);
                assert(self.spec_function_names() =~= old_names.push((name@, id)));
                assert forall|n: Seq<char>|
                    !(lookup(self.spec_function_names(), n) is Some && #[trigger] lookup(
                        self.spec_global_names(),
                        n,
                    ) is Some) by {
                    if n != name@ {
                        assert(lookup(self.spec_function_names(), n) == lookup(old_names, n));
                    }
                }
            }
        }
        let ghost old_functions = self.spec_functions();
        let ghost f = function;
        self.functions.push(function);
        proof {
            assert(self.spec_functions() == old_functions.push(f));
            if old(self).names_consistent() {
                assert forall|k: int| 0 <= k < self.spec_function_names().len() implies {
                    let entry = #[trigger] self.spec_function_names()[k];
                    &&& entry.1.0 < self.spec_functions().len()
                    &&& crate::types::opt_string_view(self.spec_functions()[entry.1.0 as int].name) == Some(entry.0)
                } by {
                    if k < old_names.len() {
                        assert(self.spec_function_names()[k] == old_names[k]);
                        assert(old(self).spec_function_names()[k] == old_names[k]);
                    }
                }
                assert forall|k: int| 0 <= k < self.spec_global_names().len() implies {
                    let entry = #[trigger] self.spec_global_names()[k];
                    &&& entry.1.0 < self.spec_global_decls().len()
                    &&& self.spec_global_decls()[entry.1.0 as int].name@ == entry.0
                } by {
                    assert(self.spec_global_names()[k] == old(self).spec_global_names()[k]);
                }
            }
        }
        Ok(id)
    }

    pub fn add_global_decl(&mut self, global: GlobalDecl) -> (r: Result<GlobalId, CoreError>)
        requires
            old(self).wf(),
            old(self).spec_global_decls().len() < u32::MAX,
        ensures
            final(self).wf(),
            final(self).added_global(*old(self), global, None, r),
            old(self).names_consistent() ==> final(self).names_consistent(),
    {
        self.add_global(global, None)
    }

    pub fn add_global_def(&mut self, global: GlobalDef) -> (r: Result<GlobalId, CoreError>)
        requires
            old(self).wf(),
            old(self).spec_global_decls().len() < u32::MAX,
        ensures
            final(self).wf(),
            final(self).added_global(
                *old(self),
                GlobalDecl { name: global.name, ty: global.ty },
                Some(global.value),
                r,
            ),
            old(self).names_consistent() ==> final(self).names_consistent(),
    {
        self.add_global(GlobalDecl { name: global.name, ty: global.ty }, Some(global.value))
    }

    /// `self` is `old` with one global appended, or `old` unchanged and the
    /// reason it was refused.
    pub open spec fn added_global(
        &self,
        old: CoreProgram,
        decl: GlobalDecl,
        def: Option<GlobalExpr>,
        r: Result<GlobalId, CoreError>,
    ) -> bool {
        &&& (decl.name@.len() == 0 ==> r == Err::<GlobalId, CoreError>(CoreError::EmptyName))
        &&& (decl.name@.len() > 0 && old.name_taken(decl.name@) ==> (r matches Err(
            CoreError::DuplicateGlobalName(d),
        ) && d@ == decl.name@))
        &&& (r is Ok <==> decl.name@.len() > 0 && !old.name_taken(decl.name@))
        &&& (r is Err ==> *self == old)
        &&& (r matches Ok(id) ==> {
            &&& id.0 == old.spec_global_decls().len()
            &&& self.spec_global_decls() == old.spec_global_decls().push(decl)
            &&& self.spec_global_defs() == old.spec_global_defs().push(def)
            &&& self.spec_global_names() == old.spec_global_names().push((decl.name@, id))
            &&& self.spec_functions() == old.spec_functions()
            &&& self.spec_function_names() == old.spec_function_names()
        })
    }

    fn add_global(&mut self, decl: GlobalDecl, def: Option<GlobalExpr>) -> (r: Result<GlobalId, CoreError>)
        requires
            old(self).wf(),
            old(self).spec_global_decls().len() < u32::MAX,
        ensures
            final(self).wf(),
            final(self).added_global(*old(self), decl, def, r),
            old(self).names_consistent() ==> final(self).names_consistent(),
    {
        if decl.name.as_str().is_empty() {
            return Err(CoreError::EmptyName);
        }
        if self.name_exists(&decl.name) {
            return Err(CoreError::DuplicateGlobalName(decl.name.clone()));
        }
        let id = GlobalId(self.global_decls.len() as u32);
        let ghost old_names = self.spec_global_names();
        self.global_names.push((decl.name.clone(), id));
        proof {
            crate::names::lemma_push_fresh(old_names, decl.name@, id);
            assert(self.spec_global_names() =~= old_names.push((decl.name@, id)));
            assert forall|n: Seq<char>|
                !(lookup(self.spec_function_names(), n) is Some && #[trigger] lookup(
                    self.spec_global_names(),
                    n,
                ) is Some) by {
                if n != decl.name@ {
                    assert(lookup(self.spec_global_names(), n) == lookup(old_names, n));
                }
            }
        }
        let ghost old_decls = self.spec_global_decls();
        let ghost d = decl;
        self.global_decls.push(decl);
        self.global_defs.push(def);
        proof {
            assert(self.spec_global_decls() == old_decls.push(d));
            if old(self).names_consistent() {
                assert forall|k: int| 0 <= k < self.spec_function_names().len() implies {
                    let entry = #[trigger] self.spec_function_names()[k];
                    &&& entry.1.0 < self.spec_functions().len()
                    &&& crate::types::opt_string_view(self.spec_functions()[entry.1.0 as int].name) == Some(entry.0)
                } by {
                    assert(self.spec_function_names()[k] == old(self).spec_function_names()[k]);
                }
                assert forall|k: int| 0 <= k < self.spec_global_names().len() implies {
                    let entry = #[trigger] self.spec_global_names()[k];
                    &&& entry.1.0 < self.spec_global_decls().len()
                    &&& self.spec_global_decls()[entry.1.0 as int].name@ == entry.0
                } by {
                    if k < old_names.len() {
                        assert(self.spec_global_names()[k] == old_names[k]);
                        assert(old(self).spec_global_names()[k] == old_names[k]);
                    }
                }
            }
        }
        Ok(id)
    }

    pub fn get(&self, id: FunctionId) -> (r: Option<&Function>)
        ensures
            id.0 < self.spec_functions().len() ==> r == Some(&self.spec_functions()[id.0 as int]),
            id.0 >= self.spec_functions().len() ==> r is None,
    {
        if (id.0 as usize) < self.functions.len() {
            Some(&self.functions[id.0 as usize])
        } else {
            None
        }
    }

    /// Mutable access to function `id`; what is written through it becomes
    /// that function.
    pub fn get_mut(&mut self, id: FunctionId) -> (r: Option<&mut Function>)
        ensures
            id.0 >= old(self).spec_functions().len() ==> r is None && *final(self) == *old(self),
            id.0 < old(self).spec_functions().len() ==> r is Some && *r->0 == old(self).spec_functions()[id.0 as int]
                && final(self).spec_functions() == old(self).spec_functions().update(id.0 as int, *final(r->0))
                && final(self).spec_global_decls() == old(self).spec_global_decls()
                && final(self).spec_global_defs() == old(self).spec_global_defs()
                && final(self).spec_function_names() == old(self).spec_function_names()
                && final(self).spec_global_names() == old(self).spec_global_names(),
    {
        if (id.0 as usize) < self.functions.len() {
            Some(&mut self.functions[id.0 as usize])
        } else {
            None
        }
    }

    pub fn replace_function_body(&mut self, id: FunctionId, body: Vec<Statement>, returned: Vec<ValueId>) -> (r: Result<(), CoreError>)
        requires
            old(self).wf(),
        ensures
            final(self).wf(),
            final(self).spec_global_decls() == old(self).spec_global_decls(),
            final(self).spec_global_defs() == old(self).spec_global_defs(),
            final(self).spec_global_names() == old(self).spec_global_names(),
            final(self).spec_function_names() == old(self).spec_function_names(),
            id.0 >= old(self).spec_functions().len() ==> r == Err::<(), CoreError>(
                CoreError::UnknownFunction(id),
            ) && *final(self) == *old(self),
            id.0 < old(self).spec_functions().len() ==> r is Ok && final(self).spec_functions()
                == old(self).spec_functions().update(
                id.0 as int,
                Function { body, returned, ..old(self).spec_functions()[id.0 as int] },
            ),
            old(self).names_consistent() ==> final(self).names_consistent(),
    {
        if (id.0 as usize) >= self.functions.len() {
            return Err(CoreError::UnknownFunction(id));
        }
        let i = id.0 as usize;
        let placeholder = Function { name: None, inputs: Vec::new(), outputs: Vec::new(), body: Vec::new(), returned: Vec::new() };
        let mut function = placeholder;
        std::mem::swap(&mut self.functions[i], &mut function);
        function.body = body;
        function.returned = returned;
        self.functions.set(i, function);
        Ok(())
    }

    pub fn get_global_decl(&self, id: GlobalId) -> (r: Option<&GlobalDecl>)
        ensures
            id.0 < self.spec_global_decls().len() ==> r == Some(&self.spec_global_decls()[id.0 as int]),
            id.0 >= self.spec_global_decls().len() ==> r is None,
    {
        if (id.0 as usize) < self.global_decls.len() {
            Some(&self.global_decls[id.0 as usize])
        } else {
            None
        }
    }

    pub fn get_global_def(&self, id: GlobalId) -> (r: Option<&GlobalExpr>)
        requires
            self.wf(),
        ensures
            id.0 < self.spec_global_defs().len() && self.spec_global_defs()[id.0 as int] is Some
                ==> r == Some(&self.spec_global_defs()[id.0 as int]->0),
            !(id.0 < self.spec_global_defs().len() && self.spec_global_defs()[id.0 as int] is Some)
                ==> r is None,
    {
        if (id.0 as usize) < self.global_defs.len() {
            match &self.global_defs[id.0 as usize] {
                Some(def) => Some(def),
                None => None,
            }
        } else {
            None
        }
    }

    pub fn function_id(&self, name: &str) -> (r: Option<FunctionId>)
        ensures
            r == lookup(self.spec_function_names(), name@),
    {
        let key: String = name.to_owned();
        find_name(&self.function_names, &key)
    }

    pub fn global_decl_id(&self, name: &str) -> (r: Option<GlobalId>)
        ensures
            r == lookup(self.spec_global_names(), name@),
    {
        let key: String = name.to_owned();
        find_name(&self.global_names, &key)
    }

    /// Every function paired with its id, in id order.
    pub fn functions(&self) -> (all: Vec<(FunctionId, &Function)>)
        requires
            self.wf(),
        ensures
            all@.len() == self.spec_functions().len(),
            forall|i: int|
                0 <= i < all@.len() ==> (#[trigger] all@[i]).0 == FunctionId(i as u32) && *all@[i].1
                    == self.spec_functions()[i],
    {
        let mut all: Vec<(FunctionId, &Function)> = Vec::new();
        let mut i: usize = 0;
        while i < self.functions.len()
            invariant
                0 <= i <= self.functions@.len() <= u32::MAX,
                self.spec_functions() == self.functions@,
                all@.len() == i,
                forall|k: int|
                    0 <= k < i ==> (#[trigger] all@[k]).0 == FunctionId(k as u32) && *all@[k].1
                        == self.spec_functions()[k],
            decreases self.functions@.len() - i,
        {
            all.push((FunctionId(i as u32), &self.functions[i]));
            i += 1;
        }
        all
    }

    /// Every global declaration paired with its id, in id order.
    pub fn global_decls(&self) -> (all: Vec<(GlobalId, &GlobalDecl)>)
        requires
            self.wf(),
        ensures
            all@.len() == self.spec_global_decls().len(),
            forall|i: int|
                0 <= i < all@.len() ==> (#[trigger] all@[i]).0 == GlobalId(i as u32) && *all@[i].1
                    == self.spec_global_decls()[i],
    {
        let mut all: Vec<(GlobalId, &GlobalDecl)> = Vec::new();
        let mut i: usize = 0;
        while i < self.global_decls.len()
            invariant
                0 <= i <= self.global_decls@.len() <= u32::MAX,
                self.spec_global_decls() == self.global_decls@,
                all@.len() == i,
                forall|k: int|
                    0 <= k < i ==> (#[trigger] all@[k]).0 == GlobalId(k as u32) && *all@[k].1
                        == self.spec_global_decls()[k],
            decreases self.global_decls@.len() - i,
        {
            all.push((GlobalId(i as u32), &self.global_decls[i]));
            i += 1;
        }
        all
    }

    /// Every defined global with its declaration and literal value, in id
    /// order; declared-only globals are skipped.
    pub fn global_defs(&self) -> (all: Vec<(GlobalId, &GlobalDecl, &GlobalExpr)>)
        requires
            self.wf(),
        ensures
            all@ == self.defined_globals(self.spec_global_decls().len() as int),
    {
        let mut all: Vec<(GlobalId, &GlobalDecl, &GlobalExpr)> = Vec::new();
        let mut i: usize = 0;
        while i < self.global_decls.len()
            invariant
                0 <= i <= self.global_decls@.len() <= u32::MAX,
                self.wf(),
                self.spec_global_decls() == self.global_decls@,
                self.spec_global_defs() == self.global_defs@,
                all@ == self.defined_globals(i as int),
            decreases self.global_decls@.len() - i,
        {
            if let Some(value) = &self.global_defs[i] {
                all.push((GlobalId(i as u32), &self.global_decls[i], value));
            }
            i += 1;
        }
        all
    }

    /// `global_defs` lists exactly the defined globals, in increasing id
    /// order, each with its own declaration and value.
    pub proof fn law_defined_globals(&self, n: int)
        requires
            self.wf(),
            0 <= n <= self.spec_global_decls().len(),
        ensures
            forall|k: int|
                0 <= k < self.defined_globals(n).len() ==> {
                    let entry = #[trigger] self.defined_globals(n)[k];
                    &&& 0 <= entry.0.0 < n
                    &&& self.spec_global_defs()[entry.0.0 as int] == Some(*entry.2)
                    &&& *entry.1 == self.spec_global_decls()[entry.0.0 as int]
                },
            forall|k: int, l: int|
                0 <= k < l < self.defined_globals(n).len() ==> (#[trigger] self.defined_globals(n)[k]).0.0
                    < (#[trigger] self.defined_globals(n)[l]).0.0,
            forall|g: int|
                0 <= g < n && (#[trigger] self.spec_global_defs()[g]) is Some ==> exists|k: int|
                    0 <= k < self.defined_globals(n).len() && (#[trigger] self.defined_globals(n)[k]).0.0 == g,
        decreases n,
    {
        if n > 0 {
            self.law_defined_globals(n - 1);
            let rest = self.defined_globals(n - 1);
            let all = self.defined_globals(n);
            match self.spec_global_defs()[n - 1] {
                Some(value) => {
                    assert(all == rest.push((GlobalId((n - 1) as u32), &self.spec_global_decls()[n - 1], &value)));
                    assert(all[rest.len() as int].0.0 == n - 1);
                    assert forall|k: int| 0 <= k < rest.len() implies all[k] == rest[k] by {}
                    assert forall|g: int| 0 <= g < n && (#[trigger] self.spec_global_defs()[g]) is Some implies exists|k: int|
                        0 <= k < all.len() && (#[trigger] all[k]).0.0 == g by {
                        if g < n - 1 {
                            let k = choose|k: int| 0 <= k < rest.len() && (#[trigger] rest[k]).0.0 == g;
                            assert(all[k] == rest[k]);
                        } else {
                            assert(all[rest.len() as int].0.0 == g);
                        }
                    }
                },
                None => {},
            }
        }
    }

    /// The defined globals among the first `n`, in id order.
    pub open spec fn defined_globals(&self, n: int) -> Seq<(GlobalId, &GlobalDecl, &GlobalExpr)>
        decreases n,
    {
        if n <= 0 {
            Seq::empty()
        } else {
            let rest = self.defined_globals(n - 1);
            match self.spec_global_defs()[n - 1] {
                Some(value) => rest.push((GlobalId((n - 1) as u32), &self.spec_global_decls()[n - 1], &value)),
                None => rest,
            }
        }
    }
}

impl Function {
    /// Checks this function against `program`: linearity, scoping and types,
    /// as [`spec_check_function`] states them.
    pub fn check(&self, types: &TypeStore, program: &CoreProgram) -> (r: Result<(), CoreError>)
        requires
            types.wf(),
        ensures
            r == spec_check_function(types, program, *self),
    {
        check_function(types, program, self)
    }
}

/// The first declared global type that the store does not have.
pub open spec fn first_unknown_decl(types: Seq<TypeDef>, decls: Seq<GlobalDecl>, from: int) -> Option<TypeId>
    decreases decls.len() - from,
{
    if from < 0 || from >= decls.len() {
        None
    } else if decls[from].ty.0 >= types.len() {
        Some(decls[from].ty)
    } else {
        first_unknown_decl(types, decls, from + 1)
    }
}

/// Checks the global definitions `defs[from..]` against their declarations.
pub open spec fn spec_check_defs(
    types: Seq<TypeDef>,
    unit: TypeId,
    functions: Seq<Function>,
    decls: Seq<GlobalDecl>,
    defs: Seq<Option<GlobalExpr>>,
    from: int,
) -> Result<(), CoreError>
    decreases defs.len() - from,
{
    if from < 0 || from >= defs.len() || from >= decls.len() {
        Ok(())
    } else {
        match defs[from] {
            None => spec_check_defs(types, unit, functions, decls, defs, from + 1),
            Some(value) => match spec_global_type(types, unit, Some(functions), value) {
                Err(e) => Err(e),
                Ok(actual) => if actual != decls[from].ty {
                    Err(CoreError::TypeMismatch { expected: decls[from].ty, actual })
                } else {
                    spec_check_defs(types, unit, functions, decls, defs, from + 1)
                },
            },
        }
    }
}

/// Checks the functions `functions[from..]`, in id order.
pub open spec fn spec_check_functions(types: &TypeStore, program: &CoreProgram, functions: Seq<Function>, from: int) -> Result<(), CoreError>
    decreases functions.len() - from,
{
    if from < 0 || from >= functions.len() {
        Ok(())
    } else {
        match spec_check_function(types, program, functions[from]) {
            Err(e) => Err(e),
            Ok(()) => spec_check_functions(types, program, functions, from + 1),
        }
    }
}

/// Checking a whole program: every declared global type exists, every
/// global definition checks at its declared type, and every function checks;
/// the first failure in that order is the error.
pub open spec fn spec_check_program(types: &TypeStore, program: &CoreProgram) -> Result<(), CoreError> {
    match first_unknown_decl(types.spec_types(), program.spec_global_decls(), 0) {
        Some(ty) => Err(CoreError::UnknownType(ty)),
        None => match spec_check_defs(
            types.spec_types(),
            types.spec_unit(),
            program.spec_functions(),
            program.spec_global_decls(),
            program.spec_global_defs(),
            0,
        ) {
            Err(e) => Err(e),
            Ok(()) => spec_check_functions(types, program, program.spec_functions(), 0),
        },
    }
}

impl GlobalDecl {
    pub fn new(name: &str, ty: TypeId) -> (g: Self)
        ensures
            g.name@ == name@,
            g.ty == ty,
    {
        GlobalDecl { name: name.to_owned(), ty }
    }

    pub fn check(&self, types: &TypeStore) -> (r: Result<(), CoreError>)
        ensures
            types.valid(self.ty) ==> r is Ok,
            !types.valid(self.ty) ==> r == Err::<(), CoreError>(CoreError::UnknownType(self.ty)),
    {
        if types.get(self.ty).is_some() {
            Ok(())
        } else {
            Err(CoreError::UnknownType(self.ty))
        }
    }
}

impl GlobalDef {
    pub fn new(name: &str, ty: TypeId, value: GlobalExpr) -> (g: Self)
        ensures
            g.name@ == name@,
            g.ty == ty,
            g.value == value,
    {
        GlobalDef { name: name.to_owned(), ty, value }
    }
}

impl Param {
    pub fn new(id: ValueId, ty: TypeId) -> (p: Self)
        ensures
            p == (Param { id, ty }),
    {
        Param { id, ty }
    }
}

impl Statement {
    pub fn new(results: Vec<ValueId>, expr: Expr) -> (s: Self)
        ensures
            s == (Statement { results, expr }),
    {
        Statement { results, expr }
    }
}

impl MatchArm {
    pub fn new(variant: usize, payload: ValueId, body: Vec<Statement>, returned: Vec<ValueId>) -> (a: Self)
        ensures
            a == (MatchArm { variant, payload, body, returned }),
    {
        MatchArm { variant, payload, body, returned }
    }
}

} // verus!
