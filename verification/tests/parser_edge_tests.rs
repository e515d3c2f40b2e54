use monkey_lang::ast::{Expression, InfixOperator, PrefixOperator, Program, Statement};
use monkey_lang::lexer::Lexer;
use monkey_lang::parser::{Parser, ParserError, Precedence};
use monkey_lang::token::Token;

fn parse(input: &str) -> (Program, Vec<ParserError>) {
    let mut parser = Parser::new(Lexer::new(input.to_string()));
    let program = parser.parse_program().unwrap();
    (program, parser.into_errors())
}

fn printed(input: &str) -> String {
    let (program, errors) = parse(input);
    assert_eq!(errors.len(), 0, "{:?}", errors);
    program.to_string()
}

fn ident(name: &str) -> Expression {
    Expression::Identifier(name.to_string())
}

fn infix(left: Expression, operator: InfixOperator, right: Expression) -> Expression {
    Expression::Infix {
        left: Box::new(left),
        operator,
        right: Box::new(right),
    }
}

#[test]
fn empty_input_is_an_empty_program() {
    let (program, errors) = parse("");
    assert_eq!(program.statements.len(), 0);
    assert_eq!(errors.len(), 0);
    assert_eq!(program.to_string(), "");
}

#[test]
fn whitespace_only_is_an_empty_program() {
    let (program, errors) = parse("  \n\t ");
    assert_eq!(program.statements.len(), 0);
    assert_eq!(errors.len(), 0);
}

#[test]
fn semicolons_may_be_missing() {
    let (with, errors_with) = parse("let x = 5; return x; x + 1;");
    let (without, errors_without) = parse("let x = 5 return x x + 1");
    assert_eq!(errors_with.len(), 0);
    assert_eq!(errors_without.len(), 0);
    assert_eq!(with, without);
    assert_eq!(with.statements.len(), 3);
}

#[test]
fn ast_format_scenarios() {
    assert_eq!(printed("-a * b"), "((-a) * b)");
    assert_eq!(printed("3 + 4; -5 * 5"), "(3 + 4)((-5) * 5)");
    assert_eq!(printed("!(true == true)"), "(!(true == true))");
    assert_eq!(
        printed("a + b * c + d / e - f"),
        "(((a + (b * c)) + (d / e)) - f)"
    );
    assert_eq!(
        printed("add(a, b, 1, 2 * 3, 4 + 5, add(6, 7 * 8))"),
        "add(a, b, 1, (2 * 3), (4 + 5), add(6, (7 * 8)))"
    );
}

#[test]
fn tighter_second_operator_groups_to_the_right() {
    let (program, errors) = parse("x + y * z");
    assert_eq!(errors.len(), 0);
    assert_eq!(
        program.statements,
        vec![Statement::Expression(infix(
            ident("x"),
            InfixOperator::Plus,
            infix(ident("y"), InfixOperator::Mult, ident("z")),
        ))]
    );
}

#[test]
fn looser_second_operator_groups_to_the_left() {
    let (program, errors) = parse("x * y + z");
    assert_eq!(errors.len(), 0);
    assert_eq!(
        program.statements,
        vec![Statement::Expression(infix(
            infix(ident("x"), InfixOperator::Mult, ident("y")),
            InfixOperator::Plus,
            ident("z"),
        ))]
    );
}

#[test]
fn equal_precedence_associates_to_the_left() {
    let (program, errors) = parse("x - y + z");
    assert_eq!(errors.len(), 0);
    assert_eq!(
        program.statements,
        vec![Statement::Expression(infix(
            infix(ident("x"), InfixOperator::Minus, ident("y")),
            InfixOperator::Plus,
            ident("z"),
        ))]
    );
    assert_eq!(printed("1 == 2 != 3"), "((1 == 2) != 3)");
    assert_eq!(printed("1 < 2 > 3"), "((1 < 2) > 3)");
    assert_eq!(printed("8 / 4 / 2"), "((8 / 4) / 2)");
}

#[test]
fn every_pair_of_operators_follows_the_precedence_table() {
    let operators = vec![
        ("==", 2),
        ("!=", 2),
        ("<", 3),
        (">", 3),
        ("+", 4),
        ("-", 4),
        ("*", 5),
        ("/", 5),
    ];
    for (a, pa) in &operators {
        for (b, pb) in &operators {
            let input = format!("x {} y {} z", a, b);
            let expected = if pa < pb {
                format!("(x {} (y {} z))", a, b)
            } else {
                format!("((x {} y) {} z)", a, b)
            };
            assert_eq!(printed(&input), expected);
        }
    }
}

#[test]
fn precedence_levels() {
    assert_eq!(Precedence::Lowest.level(), 1);
    assert_eq!(Precedence::Equals.level(), 2);
    assert_eq!(Precedence::LessGreater.level(), 3);
    assert_eq!(Precedence::Sum.level(), 4);
    assert_eq!(Precedence::Product.level(), 5);
    assert_eq!(Precedence::Prefix.level(), 6);
    assert_eq!(Precedence::Call.level(), 7);
    assert_eq!(Precedence::from(&Token::Eq), Precedence::Equals);
    assert_eq!(Precedence::from(&Token::NotEq), Precedence::Equals);
    assert_eq!(Precedence::from(&Token::LessThan), Precedence::LessGreater);
    assert_eq!(Precedence::from(&Token::GreaterThan), Precedence::LessGreater);
    assert_eq!(Precedence::from(&Token::Plus), Precedence::Sum);
    assert_eq!(Precedence::from(&Token::Minus), Precedence::Sum);
    assert_eq!(Precedence::from(&Token::Slash), Precedence::Product);
    assert_eq!(Precedence::from(&Token::Asterisk), Precedence::Product);
    assert_eq!(Precedence::from(&Token::LParen), Precedence::Call);
    assert_eq!(Precedence::from(&Token::Semicolon), Precedence::Lowest);
    assert_eq!(Precedence::from(&Token::Bang), Precedence::Lowest);
}

#[test]
fn prefix_binds_tighter_than_infix() {
    assert_eq!(printed("-a + b"), "((-a) + b)");
    assert_eq!(printed("!a == b"), "((!a) == b)");
    assert_eq!(printed("- - a"), "(-(-a))");
    assert_eq!(printed("-f(x)"), "(-f(x))");
}

#[test]
fn function_with_zero_parameters() {
    let (program, errors) = parse("fn() { 1 }");
    assert_eq!(errors.len(), 0);
    assert_eq!(
        program.statements,
        vec![Statement::Expression(Expression::Function {
            parameters: vec![],
            body: vec![Statement::Expression(Expression::Int(1))],
        })]
    );
}

#[test]
fn call_with_zero_arguments() {
    let (program, errors) = parse("f()");
    assert_eq!(errors.len(), 0);
    assert_eq!(
        program.statements,
        vec![Statement::Expression(Expression::FunctionCall {
            function: Box::new(ident("f")),
            arguments: vec![],
        })]
    );
}

#[test]
fn call_of_a_function_literal_and_of_a_call() {
    assert_eq!(printed("fn(x) { x }(5)"), "FUNCTION(x)x(5)");
    assert_eq!(printed("f(1)(2)"), "f(1)(2)");
}

#[test]
fn missing_right_parenthesis() {
    let (program, errors) = parse("(1 + 2");
    assert_eq!(program.statements.len(), 0);
    assert_eq!(errors.len(), 1);
    match &errors[0] {
        ParserError::MissRightParenthesis { operator } => assert_eq!(operator, &Token::Int(2)),
        other => panic!("{:?}", other),
    }
}

#[test]
fn unbalanced_right_parenthesis() {
    let (program, errors) = parse("1 + 2)");
    assert_eq!(
        program.statements,
        vec![Statement::Expression(infix(
            Expression::Int(1),
            InfixOperator::Plus,
            Expression::Int(2),
        ))]
    );
    assert_eq!(errors.len(), 1);
    match &errors[0] {
        ParserError::InvalidPrefixOperator { operator } => assert_eq!(operator, &Token::RParen),
        other => panic!("{:?}", other),
    }
}

#[test]
fn let_without_a_name() {
    let (program, errors) = parse("let = 5;");
    assert_eq!(errors.len(), 2);
    match &errors[0] {
        ParserError::UnexpectedToken { expected, got } => {
            assert_eq!(expected, &Token::Ident(String::new()));
            assert_eq!(got, &Token::Assign);
        }
        other => panic!("{:?}", other),
    }
    match &errors[1] {
        ParserError::InvalidPrefixOperator { operator } => assert_eq!(operator, &Token::Assign),
        other => panic!("{:?}", other),
    }
    assert_eq!(
        program.statements,
        vec![Statement::Expression(Expression::Int(5))]
    );
}

#[test]
fn let_without_an_initialiser() {
    let (program, errors) = parse("let x;");
    assert_eq!(program.statements.len(), 0);
    assert_eq!(errors.len(), 2);
    match &errors[0] {
        ParserError::UnexpectedToken { expected, got } => {
            assert_eq!(expected, &Token::Assign);
            assert_eq!(got, &Token::Ident("x".to_string()));
        }
        other => panic!("{:?}", other),
    }

    let (program, errors) = parse("let x =");
    assert_eq!(program.statements.len(), 0);
    assert_eq!(errors.len(), 1);
    match &errors[0] {
        ParserError::InvalidPrefixOperator { operator } => assert_eq!(operator, &Token::Eof),
        other => panic!("{:?}", other),
    }
}

#[test]
fn parsing_goes_on_behind_a_failed_statement() {
    let (program, errors) = parse("let x 5; 7");
    assert_eq!(errors.len(), 1);
    assert_eq!(
        program.statements,
        vec![
            Statement::Expression(Expression::Int(5)),
            Statement::Expression(Expression::Int(7)),
        ]
    );
}

#[test]
fn prefix_operator_without_operand_is_an_error() {
    let (program, errors) = parse("-");
    assert_eq!(program.statements.len(), 0);
    assert_eq!(errors.len(), 1);
    match &errors[0] {
        ParserError::InvalidPrefixOperator { operator } => assert_eq!(operator, &Token::Eof),
        other => panic!("{:?}", other),
    }
}

#[test]
fn if_without_parenthesis_is_an_error() {
    let (_, errors) = parse("if x { 1 }");
    assert!(errors.len() > 0);
    match &errors[0] {
        ParserError::UnexpectedToken { expected, got } => {
            assert_eq!(expected, &Token::LParen);
            assert_eq!(got, &Token::If);
        }
        other => panic!("{:?}", other),
    }
}

#[test]
fn errors_inside_a_block_are_recorded() {
    let (program, errors) = parse("if (x) { let = 1; 2 }");
    assert_eq!(errors.len(), 2);
    assert_eq!(
        program.statements,
        vec![Statement::Expression(Expression::If {
            condition: Box::new(ident("x")),
            consequence: vec![
                Statement::Expression(Expression::Int(1)),
                Statement::Expression(Expression::Int(2)),
            ],
            alternative: None,
        })]
    );
}

#[test]
fn block_ends_at_the_end_of_input() {
    let (program, errors) = parse("if (x) { 1");
    assert_eq!(errors.len(), 0);
    assert_eq!(
        program.statements,
        vec![Statement::Expression(Expression::If {
            condition: Box::new(ident("x")),
            consequence: vec![Statement::Expression(Expression::Int(1))],
            alternative: None,
        })]
    );
}

#[test]
fn parameters_are_named_by_the_text_of_their_tokens() {
    let (program, errors) = parse("fn(a, 1, +) { }");
    assert_eq!(errors.len(), 0);
    assert_eq!(
        program.statements,
        vec![Statement::Expression(Expression::Function {
            parameters: vec![ident("a"), ident("1"), ident("+")],
            body: vec![],
        })]
    );
}

#[test]
fn nested_blocks() {
    let (program, errors) = parse("if (a) { if (b) { return 1; } return 2; } else { 3 }");
    assert_eq!(errors.len(), 0);
    assert_eq!(
        program.statements,
        vec![Statement::Expression(Expression::If {
            condition: Box::new(ident("a")),
            consequence: vec![
                Statement::Expression(Expression::If {
                    condition: Box::new(ident("b")),
                    consequence: vec![Statement::Return(Expression::Int(1))],
                    alternative: None,
                }),
                Statement::Return(Expression::Int(2)),
            ],
            alternative: Some(vec![Statement::Expression(Expression::Int(3))]),
        })]
    );
}

#[test]
fn operators_from_tokens_and_signs() {
    assert_eq!(PrefixOperator::try_from(&Token::Bang), Ok(PrefixOperator::Bang));
    assert_eq!(PrefixOperator::try_from(&Token::Minus), Ok(PrefixOperator::Minus));
    assert_eq!(PrefixOperator::try_from(&Token::Plus), Err(()));
    assert_eq!(InfixOperator::from(&Token::Plus), InfixOperator::Plus);
    assert_eq!(InfixOperator::from(&Token::Minus), InfixOperator::Minus);
    assert_eq!(InfixOperator::from(&Token::Asterisk), InfixOperator::Mult);
    assert_eq!(InfixOperator::from(&Token::Slash), InfixOperator::Division);
    assert_eq!(InfixOperator::from(&Token::GreaterThan), InfixOperator::GreaterThan);
    assert_eq!(InfixOperator::from(&Token::LessThan), InfixOperator::LessThan);
    assert_eq!(InfixOperator::from(&Token::Eq), InfixOperator::Equal);
    assert_eq!(InfixOperator::from(&Token::NotEq), InfixOperator::NotEqual);
    assert_eq!(InfixOperator::from_str("=="), Ok(InfixOperator::Equal));
    assert_eq!(InfixOperator::from_str("="), Err(()));
    assert_eq!(InfixOperator::from_str(""), Err(()));
}

#[test]
fn statements_print_as_written() {
    assert_eq!(printed("let x = 1 + 2;"), "let x = (1 + 2);");
    assert_eq!(printed("return -x"), "return (-x);");
    assert_eq!(printed("if (a) { b } else { c }"), "if abelse c");
    assert_eq!(printed("fn(x, y) { x + y; }"), "FUNCTION(x, y)(x + y)");
}

#[test]
fn a_copy_is_equal() {
    let (program, _) = parse("let f = fn(x) { if (x) { return -x; } else { f(x, 1) } };");
    assert_eq!(program.clone(), program);
    assert_eq!(program.statements[0].clone(), program.statements[0]);
}
