use monkey_lang::ast::{Expression, Program, Statement};

#[test]
fn program_to_string() {
    let program = Program {
        statements: vec![
            Statement::Let {
                name: "myVar".to_string(),
                value: Expression::Identifier("anotherVar".to_string()),
            },
            Statement::Return(Expression::Empty),
        ],
    };

    assert_eq!(program.to_string(), "let myVar = anotherVar;return A;");
}
