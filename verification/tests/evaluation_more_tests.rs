use monkey_lang::ast::{Expression, InfixOperator, PrefixOperator, Program, Statement};
use monkey_lang::environment::Environment;
use monkey_lang::evaluation::{
    apply_function, eval_expr_bang_operator, eval_expr_infix, eval_expr_infix_bool,
    eval_expr_infix_integer, eval_expr_minus_operator, eval_expr_prefix, eval_statements,
    extend_function_env, is_true, strip_return, EvalError, MAX_CALL_DEPTH,
};
use monkey_lang::lexer::Lexer;
use monkey_lang::object::Object;
use monkey_lang::parser::Parser;

fn parse(input: &str) -> Program {
    let mut parser = Parser::new(Lexer::new(input.to_string()));
    let program = parser.parse_program().unwrap();
    assert_eq!(parser.errors.len(), 0, "{:?}", parser.errors);
    program
}

fn run(input: &str) -> Result<Object, EvalError> {
    let mut env = Environment::new_rc();
    parse(input).eval(&mut env)
}

#[test]
fn end_to_end_scenarios() {
    assert_eq!(run("5"), Ok(Object::Integer(5)));
    assert_eq!(run("-50 + 100 + -50"), Ok(Object::Integer(0)));
    assert_eq!(run("(5 + 10 * 2 + 15 / 3) * 2 + -10"), Ok(Object::Integer(50)));
    assert_eq!(
        run("if (10 > 1) { if (10 > 1) { return 10; } return 1; }"),
        Ok(Object::Integer(10))
    );
    assert_eq!(
        run("let a = 5; let b = a; let c = a + b + 5; c;"),
        Ok(Object::Integer(15))
    );
    assert_eq!(
        run("true + false;"),
        Err(EvalError::InfixBooleanOperator {
            left: true,
            operator: InfixOperator::Plus,
            right: false,
        })
    );
    assert_eq!(
        run("foobar"),
        Err(EvalError::IdentifierNotFound("foobar".to_string()))
    );
    assert_eq!(
        run("let adder = fn(x) { fn(y) { x + y } }; let addTwo = adder(2); addTwo(3);"),
        Ok(Object::Integer(5))
    );
}

#[test]
fn empty_program_is_null() {
    assert_eq!(run(""), Ok(Object::Null));
    assert_eq!(run("   "), Ok(Object::Null));
}

#[test]
fn evaluation_is_deterministic() {
    let program = parse("let f = fn(x) { if (x > 2) { return x * 2; } x + 1 }; f(1) + f(5)");
    let mut first_env = Environment::new_rc();
    let mut second_env = Environment::new_rc();
    let first = program.eval(&mut first_env);
    let second = program.eval(&mut second_env);
    assert_eq!(first, Ok(Object::Integer(12)));
    assert_eq!(first, second);
    assert_eq!(first_env, second_env);
}

#[test]
fn integer_arithmetic() {
    assert_eq!(
        eval_expr_infix_integer(InfixOperator::Plus, 2, 3),
        Ok(Object::Integer(5))
    );
    assert_eq!(
        eval_expr_infix_integer(InfixOperator::Minus, 2, 3),
        Ok(Object::Integer(-1))
    );
    assert_eq!(
        eval_expr_infix_integer(InfixOperator::Mult, -4, 3),
        Ok(Object::Integer(-12))
    );
    assert_eq!(
        eval_expr_infix_integer(InfixOperator::Division, 7, 2),
        Ok(Object::Integer(3))
    );
    assert_eq!(
        eval_expr_infix_integer(InfixOperator::Division, -7, 2),
        Ok(Object::Integer(-3))
    );
    assert_eq!(
        eval_expr_infix_integer(InfixOperator::Division, 7, -2),
        Ok(Object::Integer(-3))
    );
    assert_eq!(
        eval_expr_infix_integer(InfixOperator::Division, -7, -2),
        Ok(Object::Integer(3))
    );
    assert_eq!(
        eval_expr_infix_integer(InfixOperator::Division, 0, -2),
        Ok(Object::Integer(0))
    );
    assert_eq!(
        eval_expr_infix_integer(InfixOperator::GreaterThan, 3, 2),
        Ok(Object::Bool(true))
    );
    assert_eq!(
        eval_expr_infix_integer(InfixOperator::LessThan, 3, 2),
        Ok(Object::Bool(false))
    );
    assert_eq!(
        eval_expr_infix_integer(InfixOperator::Equal, 3, 3),
        Ok(Object::Bool(true))
    );
    assert_eq!(
        eval_expr_infix_integer(InfixOperator::NotEqual, 3, 3),
        Ok(Object::Bool(false))
    );
}

#[test]
fn integer_arithmetic_wraps() {
    assert_eq!(
        eval_expr_infix_integer(InfixOperator::Plus, i64::MAX, 1),
        Ok(Object::Integer(i64::MIN))
    );
    assert_eq!(
        eval_expr_infix_integer(InfixOperator::Minus, i64::MIN, 1),
        Ok(Object::Integer(i64::MAX))
    );
    assert_eq!(
        eval_expr_infix_integer(InfixOperator::Mult, i64::MAX, 2),
        Ok(Object::Integer(-2))
    );
    assert_eq!(
        eval_expr_infix_integer(InfixOperator::Division, i64::MIN, -1),
        Ok(Object::Integer(i64::MIN))
    );
    assert_eq!(
        eval_expr_minus_operator(Object::Integer(i64::MIN)),
        Ok(Object::Integer(i64::MIN))
    );
    assert_eq!(
        run("9223372036854775807 + 1"),
        Ok(Object::Integer(i64::MIN))
    );
}

#[test]
fn division_by_zero_is_an_error() {
    assert_eq!(
        eval_expr_infix_integer(InfixOperator::Division, 1, 0),
        Err(EvalError::DivisionByZero)
    );
    assert_eq!(run("1 / 0"), Err(EvalError::DivisionByZero));
    assert_eq!(run("1 / (2 - 2); 5"), Err(EvalError::DivisionByZero));
}

#[test]
fn boolean_operators() {
    assert_eq!(
        eval_expr_infix_bool(InfixOperator::Equal, true, true),
        Ok(Object::Bool(true))
    );
    assert_eq!(
        eval_expr_infix_bool(InfixOperator::NotEqual, true, true),
        Ok(Object::Bool(false))
    );
    for operator in [
        InfixOperator::Plus,
        InfixOperator::Minus,
        InfixOperator::Mult,
        InfixOperator::Division,
        InfixOperator::GreaterThan,
        InfixOperator::LessThan,
    ] {
        assert_eq!(
            eval_expr_infix_bool(operator, true, false),
            Err(EvalError::InfixBooleanOperator {
                left: true,
                operator,
                right: false,
            })
        );
    }
}

#[test]
fn mismatched_types() {
    assert_eq!(
        run("5 + true"),
        Err(EvalError::MismatchedTypes {
            left: Object::Integer(5),
            operator: InfixOperator::Plus,
            right: Object::Bool(true),
        })
    );
    assert_eq!(
        eval_expr_infix(InfixOperator::Equal, Object::Null, Object::Null),
        Err(EvalError::MismatchedTypes {
            left: Object::Null,
            operator: InfixOperator::Equal,
            right: Object::Null,
        })
    );
    assert_eq!(
        run("1 + if (true) { return 2; }"),
        Err(EvalError::MismatchedTypes {
            left: Object::Integer(1),
            operator: InfixOperator::Plus,
            right: Object::ReturnValue {
                value: Box::new(Object::Integer(2)),
            },
        })
    );
}

#[test]
fn prefix_operators() {
    assert_eq!(
        eval_expr_prefix(PrefixOperator::Bang, Object::Bool(true)),
        Ok(Object::Bool(false))
    );
    assert_eq!(
        eval_expr_bang_operator(Object::Integer(0)),
        Ok(Object::Bool(true))
    );
    assert_eq!(
        eval_expr_bang_operator(Object::Integer(7)),
        Ok(Object::Bool(false))
    );
    assert_eq!(
        eval_expr_bang_operator(Object::Null),
        Err(EvalError::UnknownPrefix {
            operator: PrefixOperator::Bang,
            value: Object::Null,
        })
    );
    assert_eq!(
        eval_expr_prefix(PrefixOperator::Minus, Object::Integer(5)),
        Ok(Object::Integer(-5))
    );
    assert_eq!(
        run("-true"),
        Err(EvalError::UnknownPrefix {
            operator: PrefixOperator::Minus,
            value: Object::Bool(true),
        })
    );
    assert_eq!(
        run("!fn() { 1 }"),
        Err(EvalError::UnknownPrefix {
            operator: PrefixOperator::Bang,
            value: Object::Function {
                parameters: vec![],
                body: vec![Statement::Expression(Expression::Int(1))],
                env: 0,
            },
        })
    );
}

#[test]
fn truthiness() {
    assert!(!is_true(&Object::Null));
    assert!(!is_true(&Object::Bool(false)));
    assert!(is_true(&Object::Bool(true)));
    assert!(is_true(&Object::Integer(0)));
    assert!(is_true(&Object::Integer(1)));
    assert_eq!(run("if (0) { 1 } else { 2 }"), Ok(Object::Integer(1)));
    assert_eq!(run("if (if (false) { 1 }) { 1 } else { 2 }"), Ok(Object::Integer(2)));
}

#[test]
fn if_does_not_open_a_scope() {
    assert_eq!(run("if (true) { let a = 7; } a"), Ok(Object::Integer(7)));
}

#[test]
fn let_gives_the_bound_value() {
    assert_eq!(run("let a = 5 * 5"), Ok(Object::Integer(25)));
}

#[test]
fn a_bound_null_is_found() {
    assert_eq!(run("let a = if (false) { 1 }; a"), Ok(Object::Null));
}

#[test]
fn set_writes_to_the_scope_of_the_call_only() {
    assert_eq!(
        run("let a = 1; let f = fn() { let a = 2; a }; f() + a"),
        Ok(Object::Integer(3))
    );
}

#[test]
fn return_ends_at_the_call() {
    assert_eq!(
        run("let f = fn() { if (true) { if (true) { return 1; } return 2; } return 3; }; f() + 10"),
        Ok(Object::Integer(11))
    );
    assert_eq!(
        run("let f = fn() { return 1; 2 }; let a = f(); a + 1"),
        Ok(Object::Integer(2))
    );
}

#[test]
fn return_ends_at_the_program() {
    assert_eq!(run("1; return 2; 3"), Ok(Object::Integer(2)));
    assert_eq!(
        run("if (true) { if (true) { if (true) { return 4; } 5 } 6 } 7"),
        Ok(Object::Integer(4))
    );
    assert_eq!(
        run("return if (true) { return 1; };"),
        Ok(Object::Integer(1))
    );
}

#[test]
fn a_block_keeps_the_mark_of_return() {
    let program = parse("if (true) { return 10; } 1");
    let mut env = Environment::new_rc();
    assert_eq!(
        eval_statements(&program.statements, &mut env, 0, MAX_CALL_DEPTH),
        Ok(Object::ReturnValue {
            value: Box::new(Object::Integer(10)),
        })
    );
    assert_eq!(
        program.statements[0].eval(&mut env, 0, MAX_CALL_DEPTH),
        Ok(Object::ReturnValue {
            value: Box::new(Object::Integer(10)),
        })
    );
    assert_eq!(program.eval(&mut env), Ok(Object::Integer(10)));
}

#[test]
fn strip_takes_off_every_mark() {
    let marked = Object::ReturnValue {
        value: Box::new(Object::ReturnValue {
            value: Box::new(Object::Integer(3)),
        }),
    };
    assert_eq!(strip_return(marked), Object::Integer(3));
    assert_eq!(strip_return(Object::Null), Object::Null);
}

#[test]
fn a_closure_sees_later_bindings() {
    assert_eq!(
        run("let f = fn() { x }; let x = 5; f()"),
        Ok(Object::Integer(5))
    );
    assert_eq!(
        run("let f = fn() { x }; let x = 5; let a = f(); let x = 6; a + f()"),
        Ok(Object::Integer(11))
    );
}

#[test]
fn closures_over_one_scope_share_it() {
    assert_eq!(
        run("let make = fn(n) { let get = fn() { n }; let twice = fn() { n * 2 }; get() + twice() }; make(7)"),
        Ok(Object::Integer(21))
    );
    assert_eq!(
        run("let f = fn() { shared }; let g = fn() { shared + 1 }; let shared = 10; f() + g()"),
        Ok(Object::Integer(21))
    );
}

#[test]
fn a_call_uses_the_scope_of_the_function_not_of_the_caller() {
    assert_eq!(
        run("let x = 1; let f = fn() { x }; let g = fn() { let x = 2; f() }; g()"),
        Ok(Object::Integer(1))
    );
}

#[test]
fn recursion() {
    assert_eq!(
        run("let fact = fn(n) { if (n < 2) { return 1; } n * fact(n - 1) }; fact(10)"),
        Ok(Object::Integer(3628800))
    );
}

#[test]
fn call_depth_is_limited() {
    assert_eq!(
        run("let f = fn(x) { f(x + 1) }; f(0)"),
        Err(EvalError::CallDepthExceeded)
    );
    let program = parse("let f = fn(n) { if (n < 1) { return 0; } f(n - 1) }; f(3)");
    let mut env = Environment::new_rc();
    assert_eq!(
        eval_statements(&program.statements, &mut env, 0, 4),
        Ok(Object::Integer(0))
    );
    let mut env = Environment::new_rc();
    assert_eq!(
        eval_statements(&program.statements, &mut env, 0, 3),
        Err(EvalError::CallDepthExceeded)
    );
}

#[test]
fn calling_what_is_no_function() {
    assert_eq!(
        run("5()"),
        Err(EvalError::MismatchedObject {
            expected: "Object::Function{ }".to_string(),
            got: Object::Integer(5),
        })
    );
    let mut env = Environment::new_rc();
    assert_eq!(
        apply_function(Object::Null, vec![], &mut env, 1),
        Err(EvalError::MismatchedObject {
            expected: "Object::Function{ }".to_string(),
            got: Object::Null,
        })
    );
    assert_eq!(
        extend_function_env(&Object::Bool(true), &vec![], &mut env),
        Err(EvalError::MismatchedObject {
            expected: "Object::Function{ }".to_string(),
            got: Object::Bool(true),
        })
    );
    assert_eq!(env, Environment::new_rc());
}

#[test]
fn wrong_number_of_arguments() {
    assert_eq!(
        run("let f = fn(x, y) { x }; f(1)"),
        Err(EvalError::InvalidNumberArguments {
            expected: 2,
            got: 1,
        })
    );
    assert_eq!(
        run("fn() { 1 }(1, 2, 3)"),
        Err(EvalError::InvalidNumberArguments {
            expected: 0,
            got: 3,
        })
    );
}

#[test]
fn arguments_are_evaluated_from_left_to_right() {
    assert_eq!(
        run("let f = fn(a, b) { a }; f(missing, 1 / 0)"),
        Err(EvalError::IdentifierNotFound("missing".to_string()))
    );
    assert_eq!(
        run("let f = fn(a, b) { a }; f(1 / 0, missing)"),
        Err(EvalError::DivisionByZero)
    );
}

#[test]
fn zero_parameters_and_zero_arguments() {
    assert_eq!(run("let f = fn() { 42 }; f()"), Ok(Object::Integer(42)));
    assert_eq!(run("fn() { }()"), Ok(Object::Null));
}

#[test]
fn later_parameter_of_one_name_wins() {
    assert_eq!(run("fn(x, x) { x }(1, 2)"), Ok(Object::Integer(2)));
}

#[test]
fn extend_function_env_binds_parameters() {
    let mut env = Environment::new_rc();
    let function = Object::Function {
        parameters: vec![
            Expression::Identifier("a".to_string()),
            Expression::Identifier("b".to_string()),
        ],
        body: vec![],
        env: 0,
    };
    let scope = extend_function_env(
        &function,
        &vec![Object::Integer(1), Object::Bool(true)],
        &mut env,
    );
    assert_eq!(scope, Ok(1));
    assert_eq!(env.size(), 2);
    assert_eq!(env.get(1, &"a".to_string()), Some(Object::Integer(1)));
    assert_eq!(env.get(1, &"b".to_string()), Some(Object::Bool(true)));
    assert_eq!(env.get(0, &"a".to_string()), None);
}

#[test]
fn a_function_value_holds_its_scope() {
    assert_eq!(
        run("fn(x) { x }"),
        Ok(Object::Function {
            parameters: vec![Expression::Identifier("x".to_string())],
            body: vec![Statement::Expression(Expression::Identifier(
                "x".to_string()
            ))],
            env: 0,
        })
    );
}

#[test]
fn the_empty_expression_is_unhandled() {
    let program = Program {
        statements: vec![Statement::Expression(Expression::Empty)],
    };
    let mut env = Environment::new_rc();
    assert_eq!(program.eval(&mut env), Err(EvalError::Unhandled));
}

#[test]
fn an_error_ends_the_evaluation() {
    let mut env = Environment::new_rc();
    let result = parse("let a = 1; missing; let b = 2;").eval(&mut env);
    assert_eq!(
        result,
        Err(EvalError::IdentifierNotFound("missing".to_string()))
    );
    assert_eq!(env.get(0, &"a".to_string()), Some(Object::Integer(1)));
    assert_eq!(env.get(0, &"b".to_string()), None);
}

#[test]
fn the_environment_lasts_across_programs() {
    let mut env = Environment::new_rc();
    assert_eq!(parse("let a = 2;").eval(&mut env), Ok(Object::Integer(2)));
    assert_eq!(parse("a * 21").eval(&mut env), Ok(Object::Integer(42)));
}
