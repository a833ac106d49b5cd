//! The Linear language: a type arena with linear capabilities, a linear
//! core IR with its checker, a reference interpreter, value-flow analysis
//! of parameter contracts, and a surface frontend that parses source text
//! and lowers it into checked core programs.

pub mod eval;
pub mod flow;
pub mod frontend;
pub mod id;
pub mod ir;
pub mod names;
pub mod types;

pub use eval::{EvalError, Evaluator, Value};
pub use flow::{check_function_contract, infer_function_flows, FlowViolation, FunctionFlow, ParamContract, Provenance};
pub use id::{FunctionId, GlobalId, TypeId, ValueId};
pub use ir::{
    BuiltinOp, CoreError, CoreProgram, Expr, Function, GlobalDecl, GlobalDef, GlobalExpr, MatchArm, Param, Statement,
};
pub use types::{
    Capabilities, Component, ComponentName, DeclaredCapabilities, TypeDef, TypeError, TypeKind, TypeStore,
};
