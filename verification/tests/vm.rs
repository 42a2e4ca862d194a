use lib::ast::{ASTNode, Type};
use lib::floats::{FloatArith, FloatCompare, FloatOps};
use lib::lexer::tokenize;
use lib::parser::Parser;
use lib::token::Token;
use lib::value::Value;
use lib::vm::{apply_operator, MiniLangVM, RunError, VariableCheck};

type Ops = FloatOps<fn(FloatArith, u64, u64) -> u64, fn(FloatCompare, u64, u64) -> bool>;

fn arith(op: FloatArith, a: u64, b: u64) -> u64 {
    let (x, y) = (f64::from_bits(a), f64::from_bits(b));
    let r = match op {
        FloatArith::Add => x + y,
        FloatArith::Sub => x - y,
        FloatArith::Mul => x * y,
        FloatArith::Div => x / y,
    };
    r.to_bits()
}

fn compare(op: FloatCompare, a: u64, b: u64) -> bool {
    let (x, y) = (f64::from_bits(a), f64::from_bits(b));
    match op {
        FloatCompare::Eq => x == y,
        FloatCompare::Ne => x != y,
        FloatCompare::Gt => x > y,
        FloatCompare::Ge => x >= y,
        FloatCompare::Lt => x < y,
        FloatCompare::Le => x <= y,
    }
}

fn ops() -> Ops {
    FloatOps { arith: arith as fn(FloatArith, u64, u64) -> u64, compare: compare as fn(FloatCompare, u64, u64) -> bool }
}

fn parse_float(text: String) -> u64 {
    text.parse::<f64>().unwrap().to_bits()
}

fn parse(text: &str) -> ASTNode {
    Parser::new(tokenize(&text.to_string(), &parse_float).unwrap()).try_parse_program().unwrap()
}

fn run(vm: &mut MiniLangVM, text: &str, budget: usize) -> Result<Option<(Value, Type)>, RunError> {
    vm.try_run(parse(text), &ops(), budget)
}

fn var(vm: &MiniLangVM, name: &str) -> Option<String> {
    vm.variables().get(&name.to_string()).map(|(v, t)| format!("{:?} {:?}", v, t))
}

fn outcome<T: std::fmt::Debug>(x: T) -> String {
    format!("{:?}", x)
}

fn failure(e: RunError) -> String {
    format!("Err({:?})", e)
}

fn order(vm: &MiniLangVM) -> Vec<String> {
    vm.variable_order().clone()
}

fn boxed(n: ASTNode) -> Box<ASTNode> {
    Box::new(n)
}

fn binary(l: ASTNode, op: Token, r: ASTNode) -> ASTNode {
    ASTNode::BinaryExpression { left: boxed(l), operator: op, right: boxed(r) }
}

fn eval(e: ASTNode) -> Result<(Value, Type), RunError> {
    MiniLangVM::new().try_evaluate_expression(e, &ops(), 10)
}

fn text(s: &str) -> ASTNode {
    ASTNode::StringLiteral(s.to_string())
}

#[test]
fn declarations_bind_variables_in_order() {
    let mut vm = MiniLangVM::new();
    assert_eq!(outcome(run(&mut vm, "let x: int = 10; let y: int = 20;", 10)), "Ok(None)");
    assert_eq!(var(&vm, "x").as_deref(), Some("Int(10) Int"));
    assert_eq!(var(&vm, "y").as_deref(), Some("Int(20) Int"));
    assert_eq!(order(&vm), vec!["x".to_string(), "y".to_string()]);
}

#[test]
fn redeclaring_replaces_the_value_and_repeats_the_name() {
    let mut vm = MiniLangVM::new();
    run(&mut vm, "let x: int = 1; let x: int = x + 1;", 10).unwrap();
    assert_eq!(var(&vm, "x").as_deref(), Some("Int(2) Int"));
    assert_eq!(order(&vm), vec!["x".to_string(), "x".to_string()]);
    assert_eq!(vm.variables().entries().len(), 1);
}

#[test]
fn arithmetic_follows_i32() {
    let mut vm = MiniLangVM::new();
    run(&mut vm, "let a: int = 7 / 2; let b: int = (0 - 7) / 2; let c: int = 2 * 3 - 4;", 10).unwrap();
    assert_eq!(var(&vm, "a").as_deref(), Some("Int(3) Int"));
    assert_eq!(var(&vm, "b").as_deref(), Some("Int(-3) Int"));
    assert_eq!(var(&vm, "c").as_deref(), Some("Int(2) Int"));
}

#[test]
fn integer_overflow_and_division_by_zero_fail() {
    let mut vm = MiniLangVM::new();
    assert_eq!(outcome(run(&mut vm, "let a: int = 2147483647 + 1;", 10)), failure(RunError::IntegerOverflow));
    assert_eq!(outcome(run(&mut vm, "let a: int = 1 / 0;", 10)), failure(RunError::DivisionByZero));
    assert_eq!(outcome(run(&mut vm, "let m: int = 0 - 2147483647 - 1; let a: int = m / (0 - 1);", 10)), failure(RunError::IntegerOverflow));
    assert_eq!(var(&vm, "a"), None);
}

#[test]
fn floats_use_the_given_arithmetic() {
    let mut vm = MiniLangVM::new();
    run(&mut vm, "let f: float = 1.5 + 2.25; let g: float = 1.0 / 4.0;", 10).unwrap();
    assert_eq!(var(&vm, "f"), Some(format!("Float({}) Float", 3.75f64.to_bits())));
    assert_eq!(var(&vm, "g"), Some(format!("Float({}) Float", 0.25f64.to_bits())));
}

#[test]
fn an_identifier_is_reported_as_int() {
    let mut vm = MiniLangVM::new();
    assert_eq!(outcome(run(&mut vm, "let f: float = 1.5; let g: float = f;", 10)), failure(RunError::DeclaredTypeMismatch { expected: Type::Float, found: Type::Int }));
    assert_eq!(var(&vm, "g"), None);
    run(&mut vm, "let h: int = f;", 10).unwrap();
    assert_eq!(var(&vm, "h"), Some(format!("Float({}) Int", 1.5f64.to_bits())));
}

#[test]
fn mixing_types_fails() {
    let mut vm = MiniLangVM::new();
    assert_eq!(outcome(run(&mut vm, "let x: int = 1 + 1.5;", 10)), failure(RunError::MixedTypes));
    assert_eq!(outcome(run(&mut vm, "let b: bool = 1;", 10)), failure(RunError::DeclaredTypeMismatch { expected: Type::Bool, found: Type::Int }));
}

#[test]
fn functions_return_values() {
    let mut vm = MiniLangVM::new();
    run(&mut vm, "function add(a, b) { return a + b; } let r: int = add(2, 3);", 10).unwrap();
    assert_eq!(var(&vm, "r").as_deref(), Some("Int(5) Int"));
}

#[test]
fn a_call_gives_the_callers_variables_back() {
    let mut vm = MiniLangVM::new();
    run(
        &mut vm,
        "let a: int = 1; function f(a) { let z: int = a * 10; return z; } let b: int = f(7);",
        10,
    )
    .unwrap();
    assert_eq!(var(&vm, "a").as_deref(), Some("Int(1) Int"));
    assert_eq!(var(&vm, "b").as_deref(), Some("Int(70) Int"));
    assert_eq!(var(&vm, "z"), None);
    assert_eq!(order(&vm), vec!["a".to_string(), "z".to_string(), "b".to_string()]);
}

#[test]
fn a_body_sees_only_its_arguments() {
    let mut vm = MiniLangVM::new();
    assert_eq!(outcome(run(&mut vm, "let g: int = 1; function f() { return g; } let x: int = f();", 10)), failure(RunError::VariableNotFound));
    assert_eq!(var(&vm, "g").as_deref(), Some("Int(1) Int"));
}

#[test]
fn extra_arguments_and_parameters_are_ignored() {
    let mut vm = MiniLangVM::new();
    run(&mut vm, "function first(a) { return a; } let x: int = first(4, 5);", 10).unwrap();
    assert_eq!(var(&vm, "x").as_deref(), Some("Int(4) Int"));
    assert_eq!(outcome(run(&mut vm, "function second(a, b) { return b; } let y: int = second(4);", 10)), failure(RunError::VariableNotFound));
}

#[test]
fn declarations_inside_a_body_stay_declared() {
    let mut vm = MiniLangVM::new();
    run(
        &mut vm,
        "function outer() { function inner() { return 3; } return 1; } let a: int = outer(); let b: int = inner();",
        10,
    )
    .unwrap();
    assert_eq!(var(&vm, "b").as_deref(), Some("Int(3) Int"));
}

#[test]
fn endless_recursion_runs_out_of_budget() {
    let mut vm = MiniLangVM::new();
    assert_eq!(outcome(run(&mut vm, "function f(n) { return f(n); } let x: int = f(1);", 20)), failure(RunError::CallDepthExceeded));
}

#[test]
fn the_budget_bounds_the_depth_of_calls() {
    let text = "function one() { return 1; } function two() { return one() + 1; } let x: int = two();";
    let mut shallow = MiniLangVM::new();
    assert_eq!(outcome(run(&mut shallow, text, 1)), failure(RunError::CallDepthExceeded));
    let mut enough = MiniLangVM::new();
    assert_eq!(outcome(run(&mut enough, text, 2)), "Ok(None)");
    let mut plenty = MiniLangVM::new();
    assert_eq!(outcome(run(&mut plenty, text, 50)), "Ok(None)");
    assert_eq!(var(&enough, "x"), var(&plenty, "x"));
    assert_eq!(var(&plenty, "x").as_deref(), Some("Int(2) Int"));
}

#[test]
fn call_errors() {
    let mut vm = MiniLangVM::new();
    assert_eq!(outcome(run(&mut vm, "let x: int = nope();", 10)), failure(RunError::FunctionNotFound));
    assert_eq!(outcome(run(&mut vm, "function quiet() { let q: int = 1; } let x: int = quiet();", 10)), failure(RunError::NoReturnValue));
    assert_eq!(outcome(run(&mut vm, "let y: int = missing;", 10)), failure(RunError::VariableNotFound));
}

#[test]
fn a_call_statement_ends_the_program_with_its_value() {
    let mut vm = MiniLangVM::new();
    let ast = ASTNode::Program(vec![
        boxed(ASTNode::FunctionDeclaration {
            name: "one".to_string(),
            parameters: vec![],
            body: vec![boxed(ASTNode::Return { expression: boxed(ASTNode::Number(1)) })],
        }),
        boxed(ASTNode::FunctionCall { name: "one".to_string(), arguments: vec![] }),
        boxed(ASTNode::LetDeclaration {
            identifier: "after".to_string(),
            var_type: Type::Int,
            expression: boxed(ASTNode::Number(2)),
        }),
    ]);
    let result = vm.run(ast, &ops(), 10);
    assert_eq!(format!("{:?}", result), "Some((Int(1), Int))");
    assert_eq!(var(&vm, "after"), None);
}

#[test]
fn a_true_condition_runs_the_first_branch() {
    let mut vm = MiniLangVM::new();
    let ast = ASTNode::IfElse {
        condition: boxed(binary(ASTNode::Number(1), Token::Less, ASTNode::Number(2))),
        if_branch: vec![
            boxed(ASTNode::LetDeclaration {
                identifier: "z".to_string(),
                var_type: Type::Int,
                expression: boxed(ASTNode::Number(1)),
            }),
            boxed(ASTNode::Return { expression: boxed(ASTNode::Number(9)) }),
            boxed(ASTNode::LetDeclaration {
                identifier: "w".to_string(),
                var_type: Type::Int,
                expression: boxed(ASTNode::Number(2)),
            }),
        ],
        else_branch: Some(vec![]),
    };
    assert_eq!(outcome(vm.try_run(ast, &ops(), 10)), "Ok(None)");
    assert_eq!(var(&vm, "z").as_deref(), Some("Int(1) Int"));
    assert_eq!(var(&vm, "w").as_deref(), Some("Int(2) Int"));
}

#[test]
fn a_false_condition_fails_and_the_else_branch_never_runs() {
    let mut vm = MiniLangVM::new();
    let result = vm.try_execute_if_else(
        ASTNode::BooleanLiteral(false),
        vec![],
        Some(vec![boxed(ASTNode::LetDeclaration {
            identifier: "e".to_string(),
            var_type: Type::Int,
            expression: boxed(ASTNode::Number(1)),
        })]),
        &ops(),
        10,
    );
    assert_eq!(result, Err(RunError::ConditionNotBoolean));
    assert_eq!(var(&vm, "e"), None);
    let mut vm = MiniLangVM::new();
    assert_eq!(
        vm.try_execute_if_else(ASTNode::Number(1), vec![], None, &ops(), 10),
        Err(RunError::ConditionNotBoolean)
    );
}

#[test]
fn operators_on_values() {
    let o = ops();
    let show = |r: Result<(Value, Type), RunError>| format!("{:?}", r);
    assert_eq!(show(apply_operator(&o, Value::Int(3), Value::Int(4), Token::Less)), "Ok((Bool(true), Bool))");
    assert_eq!(show(apply_operator(&o, Value::Int(3), Value::Int(4), Token::GreaterEqual)), "Ok((Bool(false), Bool))");
    assert_eq!(show(apply_operator(&o, Value::Int(3), Value::Int(3), Token::EqualEqual)), "Ok((Bool(true), Bool))");
    assert_eq!(show(apply_operator(&o, Value::Int(3), Value::Int(3), Token::NotEqual)), "Ok((Bool(false), Bool))");
    assert_eq!(show(apply_operator(&o, Value::Int(3), Value::Int(4), Token::Greater)), "Ok((Bool(false), Bool))");
    assert_eq!(show(apply_operator(&o, Value::Int(3), Value::Int(4), Token::LessEqual)), "Ok((Bool(true), Bool))");
    assert_eq!(
        show(apply_operator(&o, Value::Float(1.0f64.to_bits()), Value::Float(2.0f64.to_bits()), Token::Greater)),
        "Ok((Bool(false), Bool))"
    );
    assert_eq!(
        show(apply_operator(&o, Value::Float(3.0f64.to_bits()), Value::Float(2.0f64.to_bits()), Token::Minus)),
        format!("Ok((Float({}), Float))", 1.0f64.to_bits())
    );
    assert_eq!(
        show(apply_operator(&o, Value::Float(3.0f64.to_bits()), Value::Float(2.0f64.to_bits()), Token::Multiply)),
        format!("Ok((Float({}), Float))", 6.0f64.to_bits())
    );
    assert_eq!(
        show(apply_operator(&o, Value::String("ab".to_string()), Value::String("cd".to_string()), Token::Plus)),
        "Ok((String(\"abcd\"), String))"
    );
    assert_eq!(outcome(apply_operator(&o, Value::String("ab".to_string()), Value::String("cd".to_string()), Token::Minus)), failure(RunError::UnsupportedOperation));
    assert_eq!(outcome(apply_operator(&o, Value::Bool(true), Value::Bool(true), Token::Plus)), failure(RunError::UnsupportedOperation));
    assert_eq!(outcome(apply_operator(&o, Value::Int(1), Value::Int(1), Token::Comma)), failure(RunError::UnsupportedOperation));
    assert_eq!(outcome(apply_operator(&o, Value::Int(1), Value::Float(0), Token::Plus)), failure(RunError::UnsupportedOperation));
}

#[test]
fn evaluating_nodes_that_give_no_value_fails() {
    assert_eq!(
        eval(ASTNode::FunctionDeclaration { name: "f".to_string(), parameters: vec![], body: vec![] }).unwrap_err(),
        RunError::UnexpectedFunctionDeclaration
    );
    assert_eq!(eval(ASTNode::Program(vec![])).unwrap_err(), RunError::UnsupportedExpression);
    assert_eq!(format!("{:?}", eval(binary(text("a"), Token::Plus, text("b")))), "Ok((String(\"ab\"), String))");
    assert_eq!(
        format!("{:?}", eval(ASTNode::Return { expression: boxed(ASTNode::BooleanLiteral(true)) })),
        "Ok((Bool(true), Bool))"
    );
}

#[test]
fn running_a_bare_expression_fails() {
    let mut vm = MiniLangVM::new();
    assert_eq!(outcome(vm.try_run(ASTNode::Number(1), &ops(), 10)), failure(RunError::UnsupportedStatement));
    assert_eq!(outcome(vm.try_run(ASTNode::Identifier("x".to_string()), &ops(), 10)), failure(RunError::UnsupportedStatement));
}

#[test]
fn a_return_statement_gives_its_value() {
    let mut vm = MiniLangVM::new();
    let result = run(&mut vm, "return 1 + 2;", 10);
    assert_eq!(format!("{:?}", result), "Ok(Some((Int(3), Int)))");
}

#[test]
fn execute_function_call_directly() {
    let mut vm = MiniLangVM::new();
    run(&mut vm, "function twice(n) { return n * 2; }", 10).unwrap();
    let result = vm.execute_function_call("twice".to_string(), vec![boxed(ASTNode::Number(21))], &ops(), 10);
    assert_eq!(format!("{:?}", result), "Some((Int(42), Int))");
    let result = vm.try_execute_function_call("thrice".to_string(), vec![], &ops(), 10);
    assert_eq!(outcome(result), failure(RunError::FunctionNotFound));
}

#[test]
fn determine_type_names_the_kind() {
    let vm = MiniLangVM::new();
    assert_eq!(vm.determine_type(&Value::Int(1)), Type::Int);
    assert_eq!(vm.determine_type(&Value::Float(0)), Type::Float);
    assert_eq!(vm.determine_type(&Value::Bool(false)), Type::Bool);
    assert_eq!(vm.determine_type(&Value::String(String::new())), Type::String);
}

#[test]
fn assert_variable_reports_each_outcome() {
    let mut vm = MiniLangVM::new();
    run(&mut vm, "let x: int = 10; let f: float = 0.5;", 10).unwrap();
    let o = ops();
    assert!(matches!(vm.assert_variable(&"x".to_string(), Value::Int(10), Type::Int, &o), VariableCheck::Passed));
    assert!(matches!(vm.assert_variable(&"x".to_string(), Value::Int(11), Type::Int, &o), VariableCheck::Failed(Value::Int(10))));
    assert!(matches!(vm.assert_variable(&"x".to_string(), Value::Int(10), Type::Float, &o), VariableCheck::Failed(_)));
    assert!(matches!(vm.assert_variable(&"y".to_string(), Value::Int(10), Type::Int, &o), VariableCheck::Missing));
    assert!(matches!(
        vm.assert_variable(&"f".to_string(), Value::Float(0.5f64.to_bits()), Type::Float, &o),
        VariableCheck::Passed
    ));
}

#[test]
fn a_failed_statement_keeps_earlier_declarations() {
    let mut vm = MiniLangVM::new();
    assert_eq!(outcome(run(&mut vm, "let a: int = 1; let b: int = 1 / 0; let c: int = 3;", 10)), failure(RunError::DivisionByZero));
    assert_eq!(var(&vm, "a").as_deref(), Some("Int(1) Int"));
    assert_eq!(var(&vm, "c"), None);
    assert_eq!(order(&vm), vec!["a".to_string()]);
}

#[test]
fn evaluate_expression_gives_value_and_type() {
    let mut vm = MiniLangVM::new();
    let (value, ty) = vm.evaluate_expression(
        binary(ASTNode::Number(7), Token::Divide, ASTNode::Number(-2)),
        &ops(),
        10,
    );
    assert_eq!(outcome(value), "Int(-3)");
    assert_eq!(ty, Type::Int);
    assert_eq!(outcome(eval(binary(ASTNode::Number(1), Token::Divide, ASTNode::Number(0)))), failure(RunError::DivisionByZero));
    assert_eq!(outcome(eval(binary(ASTNode::Number(i32::MAX), Token::Plus, ASTNode::Number(1)))), failure(RunError::IntegerOverflow));
}

#[test]
fn execute_if_else_on_a_true_condition() {
    let mut vm = MiniLangVM::new();
    vm.execute_if_else(
        ASTNode::BooleanLiteral(true),
        vec![boxed(ASTNode::LetDeclaration {
            identifier: "t".to_string(),
            var_type: Type::Int,
            expression: boxed(ASTNode::Number(5)),
        })],
        None,
        &ops(),
        10,
    );
    assert_eq!(var(&vm, "t").as_deref(), Some("Int(5) Int"));
}

#[test]
fn run_binds_a_declaration_and_refuses_a_mismatch() {
    let mut vm = MiniLangVM::new();
    let result = vm.run(
        ASTNode::LetDeclaration { identifier: "x".to_string(), var_type: Type::Int, expression: boxed(ASTNode::Number(1)) },
        &ops(),
        10,
    );
    assert!(result.is_none());
    assert_eq!(var(&vm, "x").as_deref(), Some("Int(1) Int"));
    let mut vm = MiniLangVM::new();
    let result = vm.try_run(
        ASTNode::LetDeclaration { identifier: "x".to_string(), var_type: Type::Bool, expression: boxed(ASTNode::Number(1)) },
        &ops(),
        10,
    );
    assert_eq!(outcome(result), failure(RunError::DeclaredTypeMismatch { expected: Type::Bool, found: Type::Int }));
    assert_eq!(var(&vm, "x"), None);
}
