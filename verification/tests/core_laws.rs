use linear::{
    BuiltinOp, Component, CoreProgram, DeclaredCapabilities, Evaluator, Expr, Function, GlobalDecl, GlobalDef,
    GlobalExpr, Param, Provenance, Statement, TypeKind, TypeStore, Value, ValueId, infer_function_flows,
};

#[test]
fn capabilities_stay_as_the_store_grows() {
    let mut types = TypeStore::new();
    let token = types.add_primitive("Token", DeclaredCapabilities::linear()).unwrap();
    let u8_ty = types.add_uint("U8", 8).unwrap();
    let pair = types
        .add_product(
            Some("Pair".into()),
            vec![Component::named("a", u8_ty), Component::named("b", token)],
            DeclaredCapabilities::linear(),
        )
        .unwrap();
    let before = types.capabilities(pair).unwrap();
    types.add_uint("U16", 16).unwrap();
    types.add_symbol("Symbol").unwrap();
    assert_eq!(types.capabilities(pair).unwrap(), before);
    assert!(!before.dup && !before.zap);
}

#[test]
fn components_refer_to_earlier_types() {
    let mut types = TypeStore::new();
    let u8_ty = types.add_uint("U8", 8).unwrap();
    let pair = types
        .add_product(
            None,
            vec![Component::positional(0, u8_ty), Component::positional(1, u8_ty)],
            DeclaredCapabilities::dup_zap(),
        )
        .unwrap();
    let TypeKind::Product(fields) = &types.get(pair).unwrap().kind else {
        panic!("expected product");
    };
    assert!(fields.iter().all(|f| f.ty.0 < pair.0));
}

#[test]
fn finite_add_wraps_at_full_u128_width() {
    let mut types = TypeStore::new();
    let wide = types.add_finite(Some("Wide".into()), u128::MAX, DeclaredCapabilities::dup_zap()).unwrap();
    let mut program = CoreProgram::new();
    let add = program
        .add_function(Function {
            name: Some("add".into()),
            inputs: vec![Param::new(ValueId(0), wide), Param::new(ValueId(1), wide)],
            outputs: vec![wide],
            body: vec![
                Statement::new(
                    vec![ValueId(2), ValueId(3), ValueId(4)],
                    Expr::Builtin { op: BuiltinOp::FiniteAdd { ty: wide }, args: vec![ValueId(0), ValueId(1)] },
                ),
                Statement::new(vec![], Expr::Zap { value: ValueId(2) }),
                Statement::new(vec![], Expr::Zap { value: ValueId(3) }),
            ],
            returned: vec![ValueId(4)],
        })
        .unwrap();
    program.check(&types).unwrap();
    let result = Evaluator::new(&types, &program)
        .run_function(add, vec![Value::Finite(u128::MAX - 1), Value::Finite(5)])
        .unwrap();
    assert_eq!(result, vec![Value::Finite(4)]);
}

#[test]
fn flow_summaries_of_a_pass_through_are_the_parameters() {
    let mut types = TypeStore::new();
    let u8_ty = types.add_uint("U8", 8).unwrap();
    let mut program = CoreProgram::new();
    let id = program
        .add_function(Function {
            name: Some("id".into()),
            inputs: vec![Param::new(ValueId(0), u8_ty)],
            outputs: vec![u8_ty],
            body: vec![],
            returned: vec![ValueId(0)],
        })
        .unwrap();
    let flows = infer_function_flows(&program);
    assert_eq!(flows[&id].outputs, vec![Provenance::Param(0)]);
}

#[test]
fn uint_is_a_finite_type_of_two_to_the_bits_values() {
    let mut a = TypeStore::new();
    let mut b = TypeStore::new();
    let x = a.add_uint("U8", 8).unwrap();
    let y = b
        .add_finite(Some("U8".into()), 1u128 << 8, DeclaredCapabilities::dup_zap())
        .unwrap();
    assert_eq!(x, y);
    assert_eq!(a.get(x), b.get(y));
    assert_eq!(a.get(x).unwrap().kind, TypeKind::Finite { values: 256 });
}

#[test]
fn global_defs_skip_declarations_and_keep_id_order() {
    let mut types = TypeStore::new();
    let bit = types
        .add_finite(Some("Bit".into()), 2, DeclaredCapabilities::dup_zap())
        .unwrap();
    let mut program = CoreProgram::new();
    let one = program
        .add_global_def(GlobalDef::new("one", bit, GlobalExpr::FiniteLiteral { ty: bit, value: 1 }))
        .unwrap();
    program.add_global_decl(GlobalDecl::new("later", bit)).unwrap();
    let zero = program
        .add_global_def(GlobalDef::new("zero", bit, GlobalExpr::FiniteLiteral { ty: bit, value: 0 }))
        .unwrap();
    let defs = program.global_defs();
    assert_eq!(defs.len(), 2);
    assert_eq!(defs[0].0, one);
    assert_eq!(defs[0].2, &GlobalExpr::FiniteLiteral { ty: bit, value: 1 });
    assert_eq!(defs[1].0, zero);
    assert_eq!(defs[1].1.name, "zero");
}

#[test]
fn literal_trees_without_function_references_check_alike() {
    let mut types = TypeStore::new();
    let bit = types
        .add_finite(Some("Bit".into()), 2, DeclaredCapabilities::dup_zap())
        .unwrap();
    let pair = types
        .add_product(
            Some("Pair".into()),
            vec![Component::named("left", bit), Component::named("right", bit)],
            DeclaredCapabilities::linear(),
        )
        .unwrap();
    let program = CoreProgram::new();
    let good = GlobalExpr::Product {
        ty: pair,
        fields: vec![
            GlobalExpr::FiniteLiteral { ty: bit, value: 1 },
            GlobalExpr::FiniteLiteral { ty: bit, value: 0 },
        ],
    };
    let bad = GlobalExpr::Product {
        ty: pair,
        fields: vec![
            GlobalExpr::FiniteLiteral { ty: bit, value: 1 },
            GlobalExpr::FiniteLiteral { ty: bit, value: 2 },
        ],
    };
    assert_eq!(good.infer_type(&types), Ok(pair));
    assert_eq!(good.infer_type(&types), good.check(&types, &program));
    assert!(bad.infer_type(&types).is_err());
    assert_eq!(bad.infer_type(&types), bad.check(&types, &program));
}

#[test]
fn a_run_within_its_budget_is_unchanged_by_a_larger_one() {
    let mut types = TypeStore::new();
    let u32_ty = types.add_uint("U32", 32).unwrap();
    let mut program = CoreProgram::new();
    let twice = program
        .add_function(Function {
            name: Some("twice".into()),
            inputs: vec![Param::new(ValueId(0), u32_ty)],
            outputs: vec![u32_ty, u32_ty],
            body: vec![Statement::new(vec![ValueId(1), ValueId(2)], Expr::Dup { value: ValueId(0) })],
            returned: vec![ValueId(1), ValueId(2)],
        })
        .unwrap();
    program.check(&types).unwrap();
    let run = |limit: usize| {
        Evaluator::new(&types, &program)
            .with_step_limit(limit)
            .run_function(twice, vec![Value::Finite(7)])
    };
    assert_eq!(run(1), Err(linear::EvalError::StepLimitExceeded));
    assert_eq!(run(2), Ok(vec![Value::Finite(7), Value::Finite(7)]));
    assert_eq!(run(3), run(2));
    assert_eq!(run(1000), run(2));
}

#[test]
fn a_cloned_program_equals_its_source() {
    let mut types = TypeStore::new();
    let bit = types
        .add_finite(Some("Bit".into()), 2, DeclaredCapabilities::dup_zap())
        .unwrap();
    let mut program = CoreProgram::new();
    program
        .add_global_def(GlobalDef::new("one", bit, GlobalExpr::FiniteLiteral { ty: bit, value: 1 }))
        .unwrap();
    program
        .add_function(Function {
            name: Some("keep".into()),
            inputs: vec![Param::new(ValueId(0), bit)],
            outputs: vec![bit, bit],
            body: vec![Statement::new(vec![ValueId(1), ValueId(2)], Expr::Dup { value: ValueId(0) })],
            returned: vec![ValueId(1), ValueId(2)],
        })
        .unwrap();
    let copy = program.clone();
    assert_eq!(copy, program);
    assert_eq!(copy.check(&types), Ok(()));
}
