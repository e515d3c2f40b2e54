use monkey_lang::ast::{Expression, Statement};
use monkey_lang::evaluation::EvalError;
use monkey_lang::object::Object;
use monkey_lang::repl::{Repl, ReplMode, Reply};
use monkey_lang::token::Token;

fn line(text: &str) -> String {
    text.to_string()
}

#[test]
fn modes_from_lines() {
    assert_eq!(ReplMode::from_str("lexing"), Ok(ReplMode::Lexing));
    assert_eq!(ReplMode::from_str("parsing"), Ok(ReplMode::Parsing));
    assert_eq!(ReplMode::from_str("eval"), Ok(ReplMode::Eval));
    assert_eq!(ReplMode::from_str("evaluate"), Err(()));
    assert_eq!(ReplMode::from_str(""), Err(()));
}

#[test]
fn white_space_round_a_command_is_disregarded() {
    assert_eq!(ReplMode::from_str("  eval \n"), Ok(ReplMode::Eval));
    assert_eq!(ReplMode::from_str("\tlexing\r\n"), Ok(ReplMode::Lexing));
    assert_eq!(ReplMode::from_str("le xing"), Err(()));
}

#[test]
fn the_case_of_a_command_is_disregarded() {
    assert_eq!(ReplMode::from_str("EVAL"), Ok(ReplMode::Eval));
    assert_eq!(ReplMode::from_str("Parsing"), Ok(ReplMode::Parsing));
}

#[test]
fn command_words_are_exact() {
    assert_eq!(ReplMode::from_word(&line("eval")), Ok(ReplMode::Eval));
    assert_eq!(ReplMode::from_word(&line("EVAL")), Err(()));
    assert_eq!(ReplMode::from_word(&line(" eval")), Err(()));
}

#[test]
fn mode_names() {
    assert_eq!(ReplMode::Lexing.to_string(), "Lexing");
    assert_eq!(ReplMode::Parsing.to_string(), "Parsing");
    assert_eq!(ReplMode::Eval.to_string(), "Eval");
}

#[test]
fn the_shell_starts_in_evaluation_mode() {
    let repl = Repl::default();
    assert_eq!(repl.mode(), ReplMode::Eval);
}

#[test]
fn evaluation_keeps_the_environment_across_lines() {
    let mut repl = Repl::default();
    repl.swap_mode(ReplMode::Eval);
    match repl.step(line("let a = 20;\n")) {
        Reply::Value(value) => assert_eq!(value, Object::Integer(20)),
        other => panic!("{:?}", other),
    }
    match repl.step(line("a + 1\n")) {
        Reply::Value(value) => assert_eq!(value, Object::Integer(21)),
        other => panic!("{:?}", other),
    }
}

#[test]
fn evaluation_without_an_environment_makes_one() {
    let mut repl = Repl::default();
    match repl.step(line("let a = 1;")) {
        Reply::Value(value) => assert_eq!(value, Object::Integer(1)),
        other => panic!("{:?}", other),
    }
    match repl.step(line("a")) {
        Reply::Value(value) => assert_eq!(value, Object::Integer(1)),
        other => panic!("{:?}", other),
    }
}

#[test]
fn changing_the_mode_forgets_the_environment() {
    let mut repl = Repl::default();
    repl.swap_mode(ReplMode::Eval);
    repl.step(line("let a = 20;"));
    match repl.step(line(" EVAL \n")) {
        Reply::Mode(mode) => assert_eq!(mode, ReplMode::Eval),
        other => panic!("{:?}", other),
    }
    match repl.step(line("a")) {
        Reply::EvalFailed(error) => {
            assert_eq!(error, EvalError::IdentifierNotFound("a".to_string()))
        }
        other => panic!("{:?}", other),
    }
}

#[test]
fn a_line_that_does_not_parse_is_not_evaluated() {
    let mut repl = Repl::default();
    match repl.step(line("let a 5; let b = 6;")) {
        Reply::ParseFailed(errors) => assert_eq!(errors.len(), 1),
        other => panic!("{:?}", other),
    }
    match repl.step(line("b")) {
        Reply::EvalFailed(error) => {
            assert_eq!(error, EvalError::IdentifierNotFound("b".to_string()))
        }
        other => panic!("{:?}", other),
    }
}

#[test]
fn lexing_mode_gives_the_tokens() {
    let mut repl = Repl::default();
    match repl.step(line("lexing\n")) {
        Reply::Mode(mode) => assert_eq!(mode, ReplMode::Lexing),
        other => panic!("{:?}", other),
    }
    assert_eq!(repl.mode(), ReplMode::Lexing);
    match repl.step(line("let a = 5;\n")) {
        Reply::Tokens(tokens) => assert_eq!(
            tokens,
            vec![
                Token::Let,
                Token::Ident("a".to_string()),
                Token::Assign,
                Token::Int(5),
                Token::Semicolon,
            ]
        ),
        other => panic!("{:?}", other),
    }
    match repl.step(line("\n")) {
        Reply::Tokens(tokens) => assert_eq!(tokens.len(), 0),
        other => panic!("{:?}", other),
    }
}

#[test]
fn parsing_mode_gives_the_program_and_the_errors() {
    let mut repl = Repl::default();
    repl.step(line("parsing"));
    match repl.step(line("1 + 2; )")) {
        Reply::Parsed { program, errors } => {
            assert_eq!(program.to_string(), "(1 + 2)");
            assert_eq!(errors.len(), 1);
        }
        other => panic!("{:?}", other),
    }
    match repl.step(line("x")) {
        Reply::Parsed { program, errors } => {
            assert_eq!(
                program.statements,
                vec![Statement::Expression(Expression::Identifier(
                    "x".to_string()
                ))]
            );
            assert_eq!(errors.len(), 0);
        }
        other => panic!("{:?}", other),
    }
}

#[test]
fn exit_ends_the_session_in_every_mode() {
    for mode in [ReplMode::Lexing, ReplMode::Parsing, ReplMode::Eval] {
        let mut repl = Repl::default();
        repl.swap_mode(mode);
        match repl.step(line("  Exit\n")) {
            Reply::Exit => {}
            other => panic!("{:?}", other),
        }
        assert_eq!(repl.mode(), mode);
    }
}

#[test]
fn react_takes_the_command_word_as_given() {
    let mut repl = Repl::default();
    match repl.react(&line("exit"), line("anything")) {
        Reply::Exit => {}
        other => panic!("{:?}", other),
    }
    match repl.react(&line("EXIT"), line("5")) {
        Reply::Value(value) => assert_eq!(value, Object::Integer(5)),
        other => panic!("{:?}", other),
    }
}
