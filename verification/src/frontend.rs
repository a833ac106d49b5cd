//! The surface frontend: syntax tree, parser, lowering into the core, and
//! source diagnostics.

pub mod ast;
pub mod diagnostic;
pub mod driver;
pub mod lower;
pub mod parse;

pub use ast::{
    Arg, BinaryOp, Block, Expr, Field, FunctionDef, FunctionSig, GlobalDef, ImplBlock, Item, LetStmt, MatchArm,
    Module, Param, Pattern, TraitDef, TypeDef, TypeExpr, ValueFlow,
};
pub use diagnostic::{line_column_at, Diagnostic, LineColumnSpan, SourceLocation, SourceSpan};
pub use driver::{compile_module, FrontendError};
pub use parse::{parse_module, parse_module_diagnostics, ParseDiagnostics, ParseErrors};
pub use lower::{
    lower_module_bodies, lower_module_signatures, lower_type_items, LowerError, LoweredFunction, LoweredGlobal, LoweredMethod, LoweredModule,
    LoweredParam, LoweredTypes,
};
