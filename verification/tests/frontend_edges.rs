use linear::frontend::{self, Expr, FrontendError, Item, LowerError, Pattern, SourceLocation, SourceSpan, TypeExpr};
use linear::{CoreError, Evaluator, EvalError, TypeKind, Value};

fn lower(src: &str) -> frontend::LoweredModule {
    let module = frontend::parse_module(src).unwrap();
    frontend::lower_module_bodies(&module).unwrap()
}

fn lower_err(src: &str) -> LowerError {
    let module = frontend::parse_module(src).unwrap();
    frontend::lower_module_bodies(&module).unwrap_err()
}

#[test]
fn parse_failure_names_the_character_where_items_stop() {
    let errors = frontend::parse_module("fn").unwrap_err();
    assert_eq!(errors, vec!["unexpected input at 0".to_string()]);

    let errors = frontend::parse_module("global root: U32\nfn").unwrap_err();
    assert_eq!(errors, vec!["unexpected input at 17".to_string()]);
}

#[test]
fn parse_diagnostic_span_covers_the_stopping_character() {
    let diagnostics = frontend::parse_module_diagnostics("global é: U32").unwrap_err();
    assert_eq!(diagnostics.len(), 1);
    assert_eq!(diagnostics[0].message, "unexpected input at 0");
    assert_eq!(diagnostics[0].span, Some(SourceSpan { start: 0, end: 1 }));

    let diagnostics = frontend::parse_module_diagnostics("é)").unwrap_err();
    assert_eq!(diagnostics[0].span, Some(SourceSpan { start: 0, end: 2 }));
}

#[test]
fn parse_diagnostics_agree_with_parse_module_on_success() {
    let src = "struct User { id: U32 }\nglobal root: User";
    let plain = frontend::parse_module(src).unwrap();
    let with_spans = frontend::parse_module_diagnostics(src).unwrap();
    assert_eq!(plain, with_spans);
}

#[test]
fn call_arguments_must_start_on_the_callee_line() {
    let module = frontend::parse_module(
        "fn f(take x: U32) -> () {\n  let h = x\n  ()\n}",
    )
    .unwrap();
    let Item::Function(function) = &module.items[0] else {
        panic!("expected function");
    };
    assert_eq!(function.body.lets.len(), 1);
    assert_eq!(function.body.lets[0].value, Expr::Name("x".into()));
    assert_eq!(function.body.result, Some(Box::new(Expr::Unit)));

    let module = frontend::parse_module("fn g(x: U32) -> U32 { f(x) }").unwrap();
    let Item::Function(function) = &module.items[0] else {
        panic!("expected function");
    };
    assert!(matches!(function.body.result.as_deref(), Some(Expr::Call { .. })));
}

#[test]
fn expression_statements_become_unit_lets() {
    let module = frontend::parse_module("fn f(x: U32) -> U32 {\n  touch(x)\n  x\n}").unwrap();
    let Item::Function(function) = &module.items[0] else {
        panic!("expected function");
    };
    assert_eq!(function.body.lets.len(), 1);
    assert_eq!(function.body.lets[0].pattern, Pattern::Unit);
    assert_eq!(function.body.lets[0].ty, Some(TypeExpr::Unit));
    assert_eq!(function.body.result, Some(Box::new(Expr::Name("x".into()))));

    assert!(frontend::parse_module("fn f(x: U32) -> U32 { touch(x) x }").is_err());
}

#[test]
fn line_and_column_count_characters() {
    assert_eq!(frontend::line_column_at("ab\ncd", 0), SourceLocation { line: 1, column: 1 });
    assert_eq!(frontend::line_column_at("ab\ncd", 4), SourceLocation { line: 2, column: 2 });
    assert_eq!(frontend::line_column_at("éa", 2), SourceLocation { line: 1, column: 2 });
    let span = SourceSpan { start: 1, end: 4 };
    let lc = span.line_columns("ab\ncd");
    assert_eq!(lc.start, SourceLocation { line: 1, column: 2 });
    assert_eq!(lc.end, SourceLocation { line: 2, column: 2 });
}

#[test]
fn span_ends_come_no_earlier_than_their_starts() {
    let src = "ab\ncd\n\nxyz";
    for start in 0..=src.len() {
        for end in start..=src.len() {
            let lc = SourceSpan { start, end }.line_columns(src);
            assert!(
                lc.start.line < lc.end.line || (lc.start.line == lc.end.line && lc.start.column <= lc.end.column)
            );
        }
    }
}

#[test]
fn core_outputs_put_threaded_params_before_the_visible_result() {
    let module = frontend::parse_module(
        r#"
        struct State { n: U32 }
        struct Config { k: U32 }
        enum Decision { allow, deny }
        fn step(mut state: State, config: Config, take event: U32) -> Decision {
          Decision.allow
        }
        "#,
    )
    .unwrap();
    let lowered = frontend::lower_module_signatures(&module).unwrap();
    let state = lowered.types.type_id("State").unwrap();
    let config = lowered.types.type_id("Config").unwrap();
    let decision = lowered.types.type_id("Decision").unwrap();
    assert_eq!(lowered.functions[0].core_outputs, vec![state, config, decision]);
}

#[test]
fn equal_anonymous_shapes_share_one_type() {
    let module = frontend::parse_module("type A = (U32, U8)\ntype B = (U32, U8)\ntype C = (U8, U32)").unwrap();
    let types = frontend::lower_type_items(&module).unwrap().types;
    assert_eq!(types.type_id("A"), types.type_id("B"));
    assert_ne!(types.type_id("A"), types.type_id("C"));
}

#[test]
fn a_generic_that_needs_itself_is_refused() {
    let module = frontend::parse_module("struct Loop<T> { next: Loop<T> }\nstruct Use { x: Loop<U32> }").unwrap();
    assert_eq!(
        frontend::lower_type_items(&module).unwrap_err(),
        LowerError::RecursiveGenericType { name: "Loop".into() }
    );
}

#[test]
fn generic_impls_and_anonymous_targets_are_refused() {
    let module = frontend::parse_module("impl<T> U32 { fn id(self) -> U32 { self } }").unwrap();
    assert_eq!(
        frontend::lower_module_signatures(&module).unwrap_err(),
        LowerError::UnsupportedGenericDecl { name: "impl".into() }
    );

    let module = frontend::parse_module("impl (U32, U32) { fn first(self) -> U32 { 1 } }").unwrap();
    assert_eq!(
        frontend::lower_module_signatures(&module).unwrap_err(),
        LowerError::UnsupportedAnonymousImplTarget
    );
}

#[test]
fn generic_type_items_bind_no_name() {
    let module = frontend::parse_module("struct Box<T> { value: T }\ntype Alias = U32").unwrap();
    let types = frontend::lower_type_items(&module).unwrap().types;
    assert_eq!(types.type_id("Box"), None);
    assert_eq!(types.type_id("Alias"), types.type_id("U32"));
    let unit_struct = frontend::parse_module("struct Empty").map(|m| {
        frontend::lower_type_items(&m).unwrap().types
    });
    if let Ok(types) = unit_struct {
        let empty = types.type_id("Empty").unwrap();
        assert_eq!(types.get(empty).unwrap().kind, TypeKind::Product(vec![]));
    }
}

#[test]
fn finite_arithmetic_wraps_at_the_cardinality() {
    let lowered = lower("fn add(take x: U8, take y: U8) -> U8 { x + y }");
    let add = lowered.program.function_id("add").unwrap();
    let result = Evaluator::new(&lowered.types, &lowered.program)
        .run_function(add, vec![Value::Finite(250), Value::Finite(10)])
        .unwrap();
    assert_eq!(result, vec![Value::Finite(4)]);

    let lowered = lower("fn sub(take x: U8, take y: U8) -> U8 { x - y }");
    let sub = lowered.program.function_id("sub").unwrap();
    let result = Evaluator::new(&lowered.types, &lowered.program)
        .run_function(sub, vec![Value::Finite(3), Value::Finite(5)])
        .unwrap();
    assert_eq!(result, vec![Value::Finite(254)]);

    let lowered = lower("fn mul(take x: U64, take y: U64) -> U64 { x * y }");
    let mul = lowered.program.function_id("mul").unwrap();
    let big = u64::MAX as u128;
    let result = Evaluator::new(&lowered.types, &lowered.program)
        .run_function(mul, vec![Value::Finite(big), Value::Finite(big)])
        .unwrap();
    assert_eq!(result, vec![Value::Finite(1)]);
}

#[test]
fn greater_than_swaps_its_operands() {
    let lowered = lower("fn gt(take x: U32, take y: U32) -> Bool { x > y }");
    let gt = lowered.program.function_id("gt").unwrap();
    let evaluator = Evaluator::new(&lowered.types, &lowered.program);
    let yes = evaluator.run_function(gt, vec![Value::Finite(7), Value::Finite(2)]).unwrap();
    let no = evaluator.run_function(gt, vec![Value::Finite(2), Value::Finite(7)]).unwrap();
    assert_eq!(yes, vec![Value::Sum { variant: 1, payload: Box::new(Value::Unit) }]);
    assert_eq!(no, vec![Value::Sum { variant: 0, payload: Box::new(Value::Unit) }]);
}

#[test]
fn step_limit_stops_evaluation() {
    let lowered = lower("fn add(take x: U32, take y: U32) -> U32 { x + y }");
    let add = lowered.program.function_id("add").unwrap();
    let err = Evaluator::new(&lowered.types, &lowered.program)
        .with_step_limit(0)
        .run_function(add, vec![Value::Finite(1), Value::Finite(2)])
        .unwrap_err();
    assert_eq!(err, EvalError::StepLimitExceeded);
}

#[test]
fn body_lowering_reports_each_error_kind() {
    assert_eq!(
        lower_err("fn f(take x: U32) -> U32 { x + x }"),
        LowerError::DuplicateLinearUse("x".into())
    );
    assert_eq!(
        lower_err("fn f(take x: U32) -> U32 {\n  let y = x\n}"),
        LowerError::MissingResult { expected: frontend::lower_type_items(&frontend::parse_module("").unwrap()).unwrap().types.type_id("U32").unwrap() }
    );
    assert_eq!(lower_err("fn f() -> U32 { y }"), LowerError::UnknownValue("y".into()));
    assert_eq!(
        lower_err("fn f(take x: U32, take y: U32) -> U32 { x / y }"),
        LowerError::UnsupportedExpression("binary operator is not lowered yet")
    );
    assert_eq!(
        lower_err("fn f() -> U32 { \"text\" }"),
        LowerError::UnsupportedExpression("expression form is not lowered yet")
    );
    assert!(matches!(
        lower_err("fn g(x: U32) -> () { () }\nfn f(take x: U32) -> () { g(mut x) }"),
        LowerError::FlowMismatch { .. }
    ));
    assert!(matches!(
        lower_err("fn f(take t: Token) -> () {\n  let u = t\n  ()\n}"),
        LowerError::DeadLinearLocal { .. }
    ));
    assert!(matches!(
        lower_err("fn f(take x: U32) -> Bool { x }"),
        LowerError::TypeMismatch { .. }
    ));
}

#[test]
fn lowered_programs_pass_the_core_checker() {
    let lowered = lower(
        r#"
        enum Maybe { none, some(U32) }
        fn or_zero(take m: Maybe) -> U32 {
          match m {
            none => 0,
            some(x) => x,
          }
        }
        "#,
    );
    assert_eq!(lowered.program.check(&lowered.types), Ok(()));
    let or_zero = lowered.program.function_id("or_zero").unwrap();
    let result = Evaluator::new(&lowered.types, &lowered.program)
        .run_function(or_zero, vec![Value::Sum { variant: 1, payload: Box::new(Value::Finite(5)) }])
        .unwrap();
    assert_eq!(result, vec![Value::Finite(5)]);
}

#[test]
fn compile_module_reports_lowering_and_core_errors() {
    let err = frontend::compile_module("global root: U32\nfn root(x: U32) -> U32 { x }").unwrap_err();
    assert_eq!(
        err,
        FrontendError::Lower(LowerError::Core(CoreError::DuplicateFunctionName("root".into())))
    );
}

#[test]
fn a_single_braced_name_stays_a_block() {
    // `{ x }` is a block, which bodies do not lower; two names make a record.
    assert_eq!(
        lower_err(
            r#"
        fn keep(take x: U32) -> { x: U32 } {
          { x }
        }
        "#
        ),
        LowerError::UnsupportedExpression("expression form is not lowered yet")
    );
    let lowered = lower(
        r#"
        fn both(take x: U32, take y: U32) -> { y: U32, x: U32 } {
          { x, y, }
        }
        "#,
    );
    let both = lowered.program.function_id("both").unwrap();
    let result = Evaluator::new(&lowered.types, &lowered.program)
        .run_function(both, vec![Value::Finite(1), Value::Finite(2)])
        .unwrap();
    assert_eq!(result, vec![Value::Product(vec![Value::Finite(2), Value::Finite(1)])]);
}

#[test]
fn greater_than_compares_its_operands_in_order() {
    let lowered = lower(
        r#"
        fn above(take a: U32, take b: U32) -> Bool {
          a > b
        }
        "#,
    );
    let above = lowered.program.function_id("above").unwrap();
    let run = |a: u128, b: u128| {
        Evaluator::new(&lowered.types, &lowered.program)
            .run_function(above, vec![Value::Finite(a), Value::Finite(b)])
            .unwrap()
    };
    let truth = |variant: usize| vec![Value::Sum { variant, payload: Box::new(Value::Unit) }];
    assert_eq!(run(7, 3), truth(1));
    assert_eq!(run(3, 7), truth(0));
    assert_eq!(run(5, 5), truth(0));
}

#[test]
fn an_if_lowers_its_then_block_into_the_true_arm() {
    let lowered = lower(
        r#"
        fn pick(take c: Bool) -> U32 {
          if c { 1 } else { 2 }
        }
        "#,
    );
    let pick = lowered.program.function_id("pick").unwrap();
    let run = |variant: usize| {
        Evaluator::new(&lowered.types, &lowered.program)
            .run_function(pick, vec![Value::Sum { variant, payload: Box::new(Value::Unit) }])
            .unwrap()
    };
    assert_eq!(run(1), vec![Value::Finite(1)]);
    assert_eq!(run(0), vec![Value::Finite(2)]);
}

#[test]
fn a_module_of_type_items_alone_compiles() {
    let lowered =
        frontend::compile_module("struct Pair { a: U32, b: U32 }\nenum Decision { allow, deny }").unwrap();
    assert!(lowered.types.type_id("Pair").is_some());
    assert!(lowered.types.type_id("Decision").is_some());
    assert!(lowered.flow_warnings.is_empty());
}

#[test]
fn a_call_passes_its_literal_arguments_in_order() {
    let lowered = lower(
        r#"
        fn diff(take a: U32, take b: U32) -> U32 {
          a - b
        }
        fn seven() -> U32 {
          diff(10, 3)
        }
        "#,
    );
    let seven = lowered.program.function_id("seven").unwrap();
    let result = Evaluator::new(&lowered.types, &lowered.program)
        .run_function(seven, vec![])
        .unwrap();
    assert_eq!(result, vec![Value::Finite(7)]);
}

#[test]
fn an_enum_payload_of_an_unknown_type_is_reported() {
    let module = frontend::parse_module("enum Bad { fine(U32), broken(Missing) }").unwrap();
    assert_eq!(
        frontend::lower_type_items(&module).unwrap_err(),
        LowerError::UnknownType("Missing".into())
    );
    let module = frontend::parse_module("enum Worse { wrapped(U32<U8>) }").unwrap();
    assert_eq!(
        frontend::lower_type_items(&module).unwrap_err(),
        LowerError::BadGenericArity { name: "U32".into(), expected: 0, actual: 1 }
    );
}

#[test]
fn functions_that_hand_back_their_parameter_compile_to_empty_bodies() {
    let lowered = frontend::compile_module(
        "fn id(take x: U32) -> U32 { x }\nfn keep(take b: Bool) -> Bool { b }",
    )
    .unwrap();
    let id = lowered.program.function_id("id").unwrap();
    let function = lowered.program.get(id).unwrap();
    assert!(function.body.is_empty());
    assert_eq!(function.returned, vec![linear::ValueId(0)]);
    let result = Evaluator::new(&lowered.types, &lowered.program)
        .run_function(id, vec![Value::Finite(5)])
        .unwrap();
    assert_eq!(result, vec![Value::Finite(5)]);
}
