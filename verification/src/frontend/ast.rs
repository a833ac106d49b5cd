//! The surface syntax tree, and its mathematical model.
//!
//! Every syntax type has a model in which strings are character sequences
//! and lists are sequences; the parser's contract is stated over the model.

use vstd::prelude::*;

verus! {

#[derive(Debug, PartialEq, Eq)]
pub struct Module {
    pub items: Vec<Item>,
}

#[derive(Debug, PartialEq, Eq)]
pub enum Item {
    Type(TypeDef),
    Struct(TypeDef),
    Enum(TypeDef),
    Global(GlobalDef),
    Function(FunctionDef),
    Impl(ImplBlock),
    Trait(TraitDef),
}

#[derive(Debug, PartialEq, Eq)]
pub struct TypeDef {
    pub name: String,
    pub generics: Vec<String>,
    pub ty: TypeExpr,
    pub capabilities: Vec<String>,
}

#[derive(Debug, PartialEq, Eq)]
pub struct GlobalDef {
    pub name: String,
    pub ty: TypeExpr,
    pub value: Option<Expr>,
}

#[derive(Debug, PartialEq, Eq)]
pub struct FunctionDef {
    pub name: String,
    pub generics: Vec<String>,
    pub params: Vec<Param>,
    pub output: TypeExpr,
    pub body: Block,
}

#[derive(Debug, PartialEq, Eq)]
pub struct ImplBlock {
    pub generics: Vec<String>,
    pub trait_ref: Option<TypeExpr>,
    pub target: TypeExpr,
    pub methods: Vec<FunctionDef>,
}

#[derive(Debug, PartialEq, Eq)]
pub struct TraitDef {
    pub name: String,
    pub generics: Vec<String>,
    pub methods: Vec<FunctionSig>,
}

#[derive(Debug, PartialEq, Eq)]
pub struct FunctionSig {
    pub name: String,
    pub generics: Vec<String>,
    pub params: Vec<Param>,
    pub output: TypeExpr,
}

#[derive(Debug, PartialEq, Eq)]
pub struct Param {
    pub flow: ValueFlow,
    pub name: String,
    pub ty: TypeExpr,
}

/// How a parameter or argument relates to what the call returns.
#[derive(Clone, Copy, Debug, PartialEq, Eq, Structural)]
pub enum ValueFlow {
    /// Unmarked: handed back unchanged.
    ReturnedUnchanged,
    /// `mut` or `!`: handed back changed.
    ReturnedChanged,
    /// `take` or `@`: consumed.
    NotReturned,
}

impl Default for ValueFlow {
    fn default() -> (r: Self)
        ensures
            r == ValueFlow::ReturnedUnchanged,
    {
        ValueFlow::ReturnedUnchanged
    }
}

#[derive(Debug, PartialEq, Eq)]
pub enum TypeExpr {
    Unit,
    Name(String),
    Apply { name: String, args: Vec<TypeExpr> },
    Product(Vec<Field<TypeExpr>>),
    Sum(Vec<Field<TypeExpr>>),
    Function { input: Box<TypeExpr>, output: Box<TypeExpr> },
}

#[derive(Debug, PartialEq, Eq)]
pub struct Field<T> {
    pub name: Option<String>,
    pub value: T,
}

#[derive(Debug, PartialEq, Eq)]
pub struct Block {
    pub lets: Vec<LetStmt>,
    pub result: Option<Box<Expr>>,
}

#[derive(Debug, PartialEq, Eq)]
pub struct LetStmt {
    pub pattern: Pattern,
    pub ty: Option<TypeExpr>,
    pub value: Expr,
}

#[derive(Debug, PartialEq, Eq)]
pub enum Pattern {
    Name(String),
    Wildcard,
    Unit,
    Tuple(Vec<Pattern>),
    Record(Vec<Field<Pattern>>),
}

#[derive(Debug, PartialEq, Eq)]
pub enum Expr {
    Name(String),
    Int(u128),
    String(String),
    Unit,
    Block(Block),
    Product(Vec<Field<Expr>>),
    Call { callee: Box<Expr>, args: Vec<Arg> },
    MethodCall { receiver: Box<Expr>, receiver_flow: ValueFlow, method: String, args: Vec<Arg> },
    FieldAccess { receiver: Box<Expr>, field: String },
    Match { scrutinee: Box<Expr>, arms: Vec<MatchArm> },
    If { condition: Box<Expr>, then_branch: Block, else_branch: Block },
    Binary { lhs: Box<Expr>, op: BinaryOp, rhs: Box<Expr> },
}

#[derive(Clone, Copy, Debug, PartialEq, Eq, Structural)]
pub enum BinaryOp {
    Add,
    Sub,
    Mul,
    Div,
    Eq,
    NotEq,
    Lt,
    Lte,
    Gt,
    Gte,
}

#[derive(Debug, PartialEq, Eq)]
pub struct Arg {
    pub flow: ValueFlow,
    pub label: Option<String>,
    pub value: Expr,
}

#[derive(Debug, PartialEq, Eq)]
pub struct MatchArm {
    pub variant: String,
    pub payload: Option<Pattern>,
    pub body: Expr,
}

// ---------------------------------------------------------------------------
// The model
// ---------------------------------------------------------------------------

pub enum TypeV {
    Unit,
    Name(Seq<char>),
    Apply(Seq<char>, Seq<TypeV>),
    Product(Seq<(Option<Seq<char>>, TypeV)>),
    Sum(Seq<(Option<Seq<char>>, TypeV)>),
    Function(Box<TypeV>, Box<TypeV>),
}

pub enum PatternV {
    Name(Seq<char>),
    Wildcard,
    Unit,
    Tuple(Seq<PatternV>),
    Record(Seq<(Option<Seq<char>>, PatternV)>),
}

pub struct ArgV {
    pub flow: ValueFlow,
    pub label: Option<Seq<char>>,
    pub value: ExprV,
}

pub struct ArmV {
    pub variant: Seq<char>,
    pub payload: Option<PatternV>,
    pub body: ExprV,
}

pub struct LetV {
    pub pattern: PatternV,
    pub ty: Option<TypeV>,
    pub value: ExprV,
}

pub struct BlockV {
    pub lets: Seq<LetV>,
    pub result: Option<Box<ExprV>>,
}

pub enum ExprV {
    Name(Seq<char>),
    Int(u128),
    Str(Seq<char>),
    Unit,
    Block(BlockV),
    Product(Seq<(Option<Seq<char>>, ExprV)>),
    Call(Box<ExprV>, Seq<ArgV>),
    MethodCall(Box<ExprV>, ValueFlow, Seq<char>, Seq<ArgV>),
    FieldAccess(Box<ExprV>, Seq<char>),
    Match(Box<ExprV>, Seq<ArmV>),
    If(Box<ExprV>, BlockV, BlockV),
    Binary(Box<ExprV>, BinaryOp, Box<ExprV>),
}

pub struct ParamV {
    pub flow: ValueFlow,
    pub name: Seq<char>,
    pub ty: TypeV,
}

pub struct FunctionDefV {
    pub name: Seq<char>,
    pub generics: Seq<Seq<char>>,
    pub params: Seq<ParamV>,
    pub output: TypeV,
    pub body: BlockV,
}

pub struct FunctionSigV {
    pub name: Seq<char>,
    pub generics: Seq<Seq<char>>,
    pub params: Seq<ParamV>,
    pub output: TypeV,
}

pub struct TypeDefV {
    pub name: Seq<char>,
    pub generics: Seq<Seq<char>>,
    pub ty: TypeV,
    pub capabilities: Seq<Seq<char>>,
}

pub enum ItemV {
    Type(TypeDefV),
    Struct(TypeDefV),
    Enum(TypeDefV),
    Global(Seq<char>, TypeV, Option<ExprV>),
    Function(FunctionDefV),
    Impl(Seq<Seq<char>>, Option<TypeV>, TypeV, Seq<FunctionDefV>),
    Trait(Seq<char>, Seq<Seq<char>>, Seq<FunctionSigV>),
}

pub open spec fn opt_str(s: Option<String>) -> Option<Seq<char>> {
    match s {
        Some(x) => Some(x@),
        None => None,
    }
}

pub open spec fn strs(v: Seq<String>) -> Seq<Seq<char>> {
    v.map_values(|x: String| x@)
}

pub open spec fn type_view(t: TypeExpr) -> TypeV
    decreases t,
{
    match t {
        TypeExpr::Unit => TypeV::Unit,
        TypeExpr::Name(n) => TypeV::Name(n@),
        TypeExpr::Apply { name, args } => TypeV::Apply(
            name@,
            Seq::new(args@.len(), |i: int| if 0 <= i < args@.len() { type_view(args@[i]) } else { TypeV::Unit }),
        ),
        TypeExpr::Product(fs) => TypeV::Product(
            Seq::new(
                fs@.len(),
                |i: int|
                    if 0 <= i < fs@.len() {
                        (opt_str(fs@[i].name), type_view(fs@[i].value))
                    } else {
                        (None, TypeV::Unit)
                    },
            ),
        ),
        TypeExpr::Sum(fs) => TypeV::Sum(
            Seq::new(
                fs@.len(),
                |i: int|
                    if 0 <= i < fs@.len() {
                        (opt_str(fs@[i].name), type_view(fs@[i].value))
                    } else {
                        (None, TypeV::Unit)
                    },
            ),
        ),
        TypeExpr::Function { input, output } => TypeV::Function(
            Box::new(type_view(*input)),
            Box::new(type_view(*output)),
        ),
    }
}

pub open spec fn types_view(ts: Seq<TypeExpr>) -> Seq<TypeV> {
    ts.map_values(|t: TypeExpr| type_view(t))
}

pub open spec fn type_fields_view(fs: Seq<Field<TypeExpr>>) -> Seq<(Option<Seq<char>>, TypeV)> {
    fs.map_values(|f: Field<TypeExpr>| (opt_str(f.name), type_view(f.value)))
}

pub open spec fn opt_type_view(t: Option<TypeExpr>) -> Option<TypeV> {
    match t {
        Some(t) => Some(type_view(t)),
        None => None,
    }
}

pub open spec fn pattern_view(p: Pattern) -> PatternV
    decreases p,
{
    match p {
        Pattern::Name(n) => PatternV::Name(n@),
        Pattern::Wildcard => PatternV::Wildcard,
        Pattern::Unit => PatternV::Unit,
        Pattern::Tuple(ps) => PatternV::Tuple(
            Seq::new(ps@.len(), |i: int| if 0 <= i < ps@.len() { pattern_view(ps@[i]) } else { PatternV::Unit }),
        ),
        Pattern::Record(fs) => PatternV::Record(
            Seq::new(
                fs@.len(),
                |i: int|
                    if 0 <= i < fs@.len() {
                        (opt_str(fs@[i].name), pattern_view(fs@[i].value))
                    } else {
                        (None, PatternV::Unit)
                    },
            ),
        ),
    }
}

pub open spec fn patterns_view(ps: Seq<Pattern>) -> Seq<PatternV> {
    ps.map_values(|p: Pattern| pattern_view(p))
}

pub open spec fn pattern_fields_view(fs: Seq<Field<Pattern>>) -> Seq<(Option<Seq<char>>, PatternV)> {
    fs.map_values(|f: Field<Pattern>| (opt_str(f.name), pattern_view(f.value)))
}

pub open spec fn opt_pattern_view(p: Option<Pattern>) -> Option<PatternV> {
    match p {
        Some(p) => Some(pattern_view(p)),
        None => None,
    }
}

pub open spec fn expr_view(e: Expr) -> ExprV
    decreases e, 1int,
{
    match e {
        Expr::Name(n) => ExprV::Name(n@),
        Expr::Int(n) => ExprV::Int(n),
        Expr::String(s) => ExprV::Str(s@),
        Expr::Unit => ExprV::Unit,
        Expr::Block(b) => ExprV::Block(block_view(b)),
        Expr::Product(fs) => ExprV::Product(
            Seq::new(
                fs@.len(),
                |i: int|
                    if 0 <= i < fs@.len() {
                        (opt_str(fs@[i].name), expr_view(fs@[i].value))
                    } else {
                        (None, ExprV::Unit)
                    },
            ),
        ),
        Expr::Call { callee, args } => ExprV::Call(
            Box::new(expr_view(*callee)),
            Seq::new(
                args@.len(),
                |i: int|
                    if 0 <= i < args@.len() {
                        ArgV { flow: args@[i].flow, label: opt_str(args@[i].label), value: expr_view(args@[i].value) }
                    } else {
                        ArgV { flow: ValueFlow::ReturnedUnchanged, label: None, value: ExprV::Unit }
                    },
            ),
        ),
        Expr::MethodCall { receiver, receiver_flow, method, args } => ExprV::MethodCall(
            Box::new(expr_view(*receiver)),
            receiver_flow,
            method@,
            Seq::new(
                args@.len(),
                |i: int|
                    if 0 <= i < args@.len() {
                        ArgV { flow: args@[i].flow, label: opt_str(args@[i].label), value: expr_view(args@[i].value) }
                    } else {
                        ArgV { flow: ValueFlow::ReturnedUnchanged, label: None, value: ExprV::Unit }
                    },
            ),
        ),
        Expr::FieldAccess { receiver, field } => ExprV::FieldAccess(Box::new(expr_view(*receiver)), field@),
        Expr::Match { scrutinee, arms } => ExprV::Match(
            Box::new(expr_view(*scrutinee)),
            Seq::new(
                arms@.len(),
                |i: int|
                    if 0 <= i < arms@.len() {
                        ArmV {
                            variant: arms@[i].variant@,
                            payload: opt_pattern_view(arms@[i].payload),
                            body: expr_view(arms@[i].body),
                        }
                    } else {
                        ArmV { variant: Seq::empty(), payload: None, body: ExprV::Unit }
                    },
            ),
        ),
        Expr::If { condition, then_branch, else_branch } => ExprV::If(
            Box::new(expr_view(*condition)),
            block_view(then_branch),
            block_view(else_branch),
        ),
        Expr::Binary { lhs, op, rhs } => ExprV::Binary(Box::new(expr_view(*lhs)), op, Box::new(expr_view(*rhs))),
    }
}

pub open spec fn block_view(b: Block) -> BlockV
    decreases b, 0int,
{
    BlockV {
        lets: Seq::new(
            b.lets@.len(),
            |i: int|
                if 0 <= i < b.lets@.len() {
                    LetV {
                        pattern: pattern_view(b.lets@[i].pattern),
                        ty: opt_type_view(b.lets@[i].ty),
                        value: expr_view(b.lets@[i].value),
                    }
                } else {
                    LetV { pattern: PatternV::Unit, ty: None, value: ExprV::Unit }
                },
        ),
        result: match b.result {
            Some(e) => Some(Box::new(expr_view(*e))),
            None => None,
        },
    }
}

pub open spec fn arg_view(a: Arg) -> ArgV {
    ArgV { flow: a.flow, label: opt_str(a.label), value: expr_view(a.value) }
}

pub open spec fn args_view(args: Seq<Arg>) -> Seq<ArgV> {
    args.map_values(|a: Arg| arg_view(a))
}

pub open spec fn arm_view(a: MatchArm) -> ArmV {
    ArmV { variant: a.variant@, payload: opt_pattern_view(a.payload), body: expr_view(a.body) }
}

pub open spec fn arms_view(arms: Seq<MatchArm>) -> Seq<ArmV> {
    arms.map_values(|a: MatchArm| arm_view(a))
}

pub open spec fn let_view(l: LetStmt) -> LetV {
    LetV { pattern: pattern_view(l.pattern), ty: opt_type_view(l.ty), value: expr_view(l.value) }
}

pub open spec fn lets_view(ls: Seq<LetStmt>) -> Seq<LetV> {
    ls.map_values(|l: LetStmt| let_view(l))
}

pub open spec fn exprs_view(es: Seq<Expr>) -> Seq<ExprV> {
    es.map_values(|e: Expr| expr_view(e))
}

pub open spec fn expr_fields_view(fs: Seq<Field<Expr>>) -> Seq<(Option<Seq<char>>, ExprV)> {
    fs.map_values(|f: Field<Expr>| (opt_str(f.name), expr_view(f.value)))
}

pub open spec fn opt_expr_view(e: Option<Expr>) -> Option<ExprV> {
    match e {
        Some(e) => Some(expr_view(e)),
        None => None,
    }
}

pub open spec fn param_view(p: Param) -> ParamV {
    ParamV { flow: p.flow, name: p.name@, ty: type_view(p.ty) }
}

pub open spec fn params_view(ps: Seq<Param>) -> Seq<ParamV> {
    ps.map_values(|p: Param| param_view(p))
}

pub open spec fn function_view(f: FunctionDef) -> FunctionDefV {
    FunctionDefV {
        name: f.name@,
        generics: strs(f.generics@),
        params: params_view(f.params@),
        output: type_view(f.output),
        body: block_view(f.body),
    }
}

pub open spec fn functions_view(fs: Seq<FunctionDef>) -> Seq<FunctionDefV> {
    fs.map_values(|f: FunctionDef| function_view(f))
}

pub open spec fn sig_view(f: FunctionSig) -> FunctionSigV {
    FunctionSigV { name: f.name@, generics: strs(f.generics@), params: params_view(f.params@), output: type_view(f.output) }
}

pub open spec fn sigs_view(fs: Seq<FunctionSig>) -> Seq<FunctionSigV> {
    fs.map_values(|f: FunctionSig| sig_view(f))
}

pub open spec fn type_def_view(t: TypeDef) -> TypeDefV {
    TypeDefV { name: t.name@, generics: strs(t.generics@), ty: type_view(t.ty), capabilities: strs(t.capabilities@) }
}

pub open spec fn item_view(item: Item) -> ItemV {
    match item {
        Item::Type(t) => ItemV::Type(type_def_view(t)),
        Item::Struct(t) => ItemV::Struct(type_def_view(t)),
        Item::Enum(t) => ItemV::Enum(type_def_view(t)),
        Item::Global(g) => ItemV::Global(g.name@, type_view(g.ty), opt_expr_view(g.value)),
        Item::Function(f) => ItemV::Function(function_view(f)),
        Item::Impl(b) => ItemV::Impl(strs(b.generics@), opt_type_view(b.trait_ref), type_view(b.target), functions_view(b.methods@)),
        Item::Trait(t) => ItemV::Trait(t.name@, strs(t.generics@), sigs_view(t.methods@)),
    }
}

pub open spec fn items_view(items: Seq<Item>) -> Seq<ItemV> {
    items.map_values(|i: Item| item_view(i))
}

} // verus!
