use monkey_lang::ast::{Expression, InfixOperator, Statement};
use monkey_lang::object::Object;

#[test]
fn printed_values() {
    assert_eq!(Object::Null.to_string(), "null");
    assert_eq!(Object::Integer(0).to_string(), "0");
    assert_eq!(Object::Integer(-17).to_string(), "-17");
    assert_eq!(Object::Integer(1234567890123).to_string(), "1234567890123");
    assert_eq!(Object::Bool(true).to_string(), "true");
    assert_eq!(Object::Bool(false).to_string(), "false");
    assert_eq!(
        Object::ReturnValue {
            value: Box::new(Object::Integer(5)),
        }
        .to_string(),
        "5"
    );
}

#[test]
fn printed_function() {
    let function = Object::Function {
        parameters: vec![
            Expression::Identifier("x".to_string()),
            Expression::Identifier("y".to_string()),
        ],
        body: vec![
            Statement::Let {
                name: "z".to_string(),
                value: Expression::Infix {
                    left: Box::new(Expression::Identifier("x".to_string())),
                    operator: InfixOperator::Plus,
                    right: Box::new(Expression::Identifier("y".to_string())),
                },
            },
            Statement::Expression(Expression::Identifier("z".to_string())),
        ],
        env: 0,
    };
    assert_eq!(function.to_string(), "fn(x, y) {\n let z = (x + y);\n z\n}");

    let empty = Object::Function {
        parameters: vec![],
        body: vec![],
        env: 3,
    };
    assert_eq!(empty.to_string(), "fn() {\n \n}");
}

#[test]
fn kinds() {
    assert_eq!(Object::Null.object_type(), "NULL");
    assert_eq!(Object::Integer(1).object_type(), "INTEGER");
    assert_eq!(Object::Bool(true).object_type(), "BOOLEAN");
    assert_eq!(
        Object::ReturnValue {
            value: Box::new(Object::Null),
        }
        .object_type(),
        "RETURN_VALUE"
    );
    assert_eq!(
        Object::Function {
            parameters: vec![],
            body: vec![],
            env: 0,
        }
        .object_type(),
        "FUNCTION"
    );
}

#[test]
fn a_copied_value_is_equal() {
    let function = Object::Function {
        parameters: vec![Expression::Identifier("x".to_string())],
        body: vec![Statement::Return(Expression::Int(1))],
        env: 2,
    };
    assert_eq!(function.clone(), function);
    let marked = Object::ReturnValue {
        value: Box::new(function),
    };
    assert_eq!(marked.clone(), marked);
}
