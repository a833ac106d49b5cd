//! Copies of core programs and of their parts.

use vstd::prelude::*;

use crate::id::{FunctionId, GlobalId, ValueId};
use crate::ir::{CoreProgram, Expr, Function, GlobalDecl, GlobalDef, GlobalExpr, MatchArm, Param, Statement};

verus! {

fn copy_values(v: &Vec<ValueId>) -> (r: Vec<ValueId>)
    ensures
        r@ == v@,
{
    let mut out: Vec<ValueId> = Vec::new();
    let mut i: usize = 0;
    while i < v.len()
        invariant
            0 <= i <= v@.len(),
            out@ == v@.subrange(0, i as int),
        decreases v@.len() - i,
    {
        out.push(v[i]);
        proof {
            assert(v@.subrange(0, i + 1) =~= v@.subrange(0, i as int).push(v@[i as int]));
        }
        i += 1;
    }
    assert(v@.subrange(0, v@.len() as int) =~= v@);
    out
}

#[verifier::loop_isolation(false)]
fn copy_expr(e: &Expr) -> (r: Expr)
    decreases e, 2int,
{
    match e {
        Expr::Unit => Expr::Unit,
        Expr::FiniteLiteral { ty, value } => Expr::FiniteLiteral { ty: *ty, value: *value },
        Expr::FunctionRef { ty, function } => Expr::FunctionRef { ty: *ty, function: *function },
        Expr::Product { ty, fields } => Expr::Product { ty: *ty, fields: copy_values(fields) },
        Expr::SplitProduct { value } => Expr::SplitProduct { value: *value },
        Expr::ProjectProduct { value, field, residual_ty } => Expr::ProjectProduct {
            value: *value,
            field: *field,
            residual_ty: *residual_ty,
        },
        Expr::InsertProductField { ty, field, field_value, residual } => Expr::InsertProductField {
            ty: *ty,
            field: *field,
            field_value: *field_value,
            residual: *residual,
        },
        Expr::SumInject { ty, variant, payload } => Expr::SumInject { ty: *ty, variant: *variant, payload: *payload },
        Expr::Match { scrutinee, arms } => {
            let mut out: Vec<MatchArm> = Vec::new();
            let mut i: usize = 0;
            while i < arms.len()
                invariant
                    0 <= i <= arms@.len(),
                decreases arms@.len() - i,
            {
                let arm = &arms[i];
                proof {
                    vstd::std_specs::vec::axiom_vec_index_decreases(*arms, i as int);
                    assert(decreases_to!(*e => *arms));
                    assert(decreases_to!(arms[i as int] => arms[i as int].body));
                }
                out.push(
                    MatchArm {
                        variant: arm.variant,
                        payload: arm.payload,
                        body: copy_body(&arm.body),
                        returned: copy_values(&arm.returned),
                    },
                );
                i += 1;
            }
            Expr::Match { scrutinee: *scrutinee, arms: out }
        },
        Expr::Global { global } => Expr::Global { global: *global },
        Expr::Call { function, args } => Expr::Call { function: *function, args: copy_values(args) },
        Expr::CallValue { function, arg } => Expr::CallValue { function: *function, arg: *arg },
        Expr::Builtin { op, args } => Expr::Builtin { op: *op, args: copy_values(args) },
        Expr::Dup { value } => Expr::Dup { value: *value },
        Expr::Zap { value } => Expr::Zap { value: *value },
    }
}

fn copy_body(body: &Vec<Statement>) -> (r: Vec<Statement>)
    decreases body, 1int,
{
    let mut out: Vec<Statement> = Vec::new();
    let mut i: usize = 0;
    while i < body.len()
        invariant
            0 <= i <= body@.len(),
        decreases body@.len() - i,
    {
        proof {
            vstd::std_specs::vec::axiom_vec_index_decreases(*body, i as int);
            assert(decreases_to!(body[i as int] => body[i as int].expr));
        }
        out.push(Statement { results: copy_values(&body[i].results), expr: copy_expr(&body[i].expr) });
        i += 1;
    }
    out
}

fn copy_function(f: &Function) -> (r: Function) {
    let mut inputs: Vec<Param> = Vec::new();
    let mut i: usize = 0;
    while i < f.inputs.len()
        invariant
            0 <= i <= f.inputs@.len(),
        decreases f.inputs@.len() - i,
    {
        inputs.push(f.inputs[i]);
        i += 1;
    }
    let mut outputs: Vec<crate::id::TypeId> = Vec::new();
    let mut k: usize = 0;
    while k < f.outputs.len()
        invariant
            0 <= k <= f.outputs@.len(),
        decreases f.outputs@.len() - k,
    {
        outputs.push(f.outputs[k]);
        k += 1;
    }
    Function {
        name: match &f.name {
            Some(n) => Some(n.clone()),
            None => None,
        },
        inputs,
        outputs,
        body: copy_body(&f.body),
        returned: copy_values(&f.returned),
    }
}

#[verifier::loop_isolation(false)]
fn copy_global_expr(e: &GlobalExpr) -> (r: GlobalExpr)
    decreases e, 1int,
{
    match e {
        GlobalExpr::Unit => GlobalExpr::Unit,
        GlobalExpr::FiniteLiteral { ty, value } => GlobalExpr::FiniteLiteral { ty: *ty, value: *value },
        GlobalExpr::SymbolLiteral { ty, value } => GlobalExpr::SymbolLiteral { ty: *ty, value: value.clone() },
        GlobalExpr::TextLiteral { ty, value } => GlobalExpr::TextLiteral { ty: *ty, value: value.clone() },
        GlobalExpr::FunctionRef { ty, function } => GlobalExpr::FunctionRef { ty: *ty, function: *function },
        GlobalExpr::Product { ty, fields } => {
            let mut out: Vec<GlobalExpr> = Vec::new();
            let mut i: usize = 0;
            while i < fields.len()
                invariant
                    0 <= i <= fields@.len(),
                decreases fields@.len() - i,
            {
                proof {
                    vstd::std_specs::vec::axiom_vec_index_decreases(*fields, i as int);
                    assert(decreases_to!(*e => *fields));
                }
                out.push(copy_global_expr(&fields[i]));
                i += 1;
            }
            GlobalExpr::Product { ty: *ty, fields: out }
        },
        GlobalExpr::SumInject { ty, variant, payload } => GlobalExpr::SumInject {
            ty: *ty,
            variant: *variant,
            payload: Box::new(copy_global_expr(payload)),
        },
    }
}

impl Clone for Expr {
    fn clone(&self) -> Self {
        copy_expr(self)
    }
}

impl Clone for Statement {
    fn clone(&self) -> Self {
        Statement { results: copy_values(&self.results), expr: copy_expr(&self.expr) }
    }
}

impl Clone for MatchArm {
    fn clone(&self) -> Self {
        MatchArm {
            variant: self.variant,
            payload: self.payload,
            body: copy_body(&self.body),
            returned: copy_values(&self.returned),
        }
    }
}

impl Clone for Function {
    fn clone(&self) -> Self {
        copy_function(self)
    }
}

impl Clone for GlobalExpr {
    fn clone(&self) -> Self {
        copy_global_expr(self)
    }
}

impl Clone for GlobalDef {
    fn clone(&self) -> Self {
        GlobalDef { name: self.name.clone(), ty: self.ty, value: copy_global_expr(&self.value) }
    }
}

impl Clone for CoreProgram {
    fn clone(&self) -> Self {
        let mut functions: Vec<Function> = Vec::new();
        let mut i: usize = 0;
        while i < self.functions.len()
            invariant
                0 <= i <= self.functions@.len(),
            decreases self.functions@.len() - i,
        {
            functions.push(copy_function(&self.functions[i]));
            i += 1;
        }
        let mut global_decls: Vec<GlobalDecl> = Vec::new();
        let mut global_defs: Vec<Option<GlobalExpr>> = Vec::new();
        let mut j: usize = 0;
        while j < self.global_decls.len()
            invariant
                0 <= j <= self.global_decls@.len(),
            decreases self.global_decls@.len() - j,
        {
            global_decls.push(GlobalDecl { name: self.global_decls[j].name.clone(), ty: self.global_decls[j].ty });
            j += 1;
        }
        let mut k: usize = 0;
        while k < self.global_defs.len()
            invariant
                0 <= k <= self.global_defs@.len(),
            decreases self.global_defs@.len() - k,
        {
            global_defs.push(
                match &self.global_defs[k] {
                    Some(e) => Some(copy_global_expr(e)),
                    None => None,
                },
            );
            k += 1;
        }
        let mut function_names: Vec<(String, FunctionId)> = Vec::new();
        let mut a: usize = 0;
        while a < self.function_names.len()
            invariant
                0 <= a <= self.function_names@.len(),
            decreases self.function_names@.len() - a,
        {
            function_names.push((self.function_names[a].0.clone(), self.function_names[a].1));
            a += 1;
        }
        let mut global_names: Vec<(String, GlobalId)> = Vec::new();
        let mut b: usize = 0;
        while b < self.global_names.len()
            invariant
                0 <= b <= self.global_names@.len(),
            decreases self.global_names@.len() - b,
        {
            global_names.push((self.global_names[b].0.clone(), self.global_names[b].1));
            b += 1;
        }
        CoreProgram { functions, global_decls, global_defs, function_names, global_names }
    }
}

} // verus!
