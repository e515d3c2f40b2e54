//! The evaluator: walks the syntax tree and produces values.

use vstd::prelude::*;
use crate::ast::{
    clone_exprs, clone_stmts, expr_text, exprs_view, lemma_exprs_view_index,
    lemma_stmts_view_index, stmts_view, ExprView, Expression, InfixOperator, PrefixOperator,
    Program, Statement, StmtView,
};
use crate::environment::{bind, extend, lookup, Environment, ScopeView};
use crate::object::{objs_view, ObjView, Object};

verus! {

/// What can go wrong while evaluating.
#[derive(Debug, PartialEq)]
#[allow(inconsistent_fields)]
pub enum EvalError {
    /// An infix operator between values of different kinds.
    MismatchedTypes { left: Object, operator: InfixOperator, right: Object },
    /// A prefix operator on a value that it does not apply to.
    UnknownPrefix { operator: PrefixOperator, value: Object },
    /// An infix operator between booleans that is no test for equality.
    InfixBooleanOperator { left: bool, operator: InfixOperator, right: bool },
    /// A name that no scope binds.
    IdentifierNotFound(String),
    /// A call of a value that is no function.
    MismatchedObject { expected: String, got: Object },
    /// A call with the wrong number of arguments.
    InvalidNumberArguments { expected: u64, got: u64 },
    /// A division by zero.
    DivisionByZero,
    /// Calls nested more deeply than the evaluation allows.
    CallDepthExceeded,
    Unhandled,
}

/// The mathematical value of an evaluation error.
#[allow(inconsistent_fields)]
pub enum EvalErrorView {
    MismatchedTypes { left: ObjView, operator: InfixOperator, right: ObjView },
    UnknownPrefix { operator: PrefixOperator, value: ObjView },
    InfixBooleanOperator { left: bool, operator: InfixOperator, right: bool },
    IdentifierNotFound(Seq<char>),
    MismatchedObject { expected: Seq<char>, got: ObjView },
    InvalidNumberArguments { expected: u64, got: u64 },
    DivisionByZero,
    CallDepthExceeded,
    Unhandled,
}

impl View for EvalError {
    type V = EvalErrorView;

    open spec fn view(&self) -> EvalErrorView {
        match self {
            EvalError::MismatchedTypes { left, operator, right } => EvalErrorView::MismatchedTypes {
                left: left@,
                operator: *operator,
                right: right@,
            },
            EvalError::UnknownPrefix { operator, value } => EvalErrorView::UnknownPrefix {
                operator: *operator,
                value: value@,
            },
            EvalError::InfixBooleanOperator {
                left,
                operator,
                right,
            } => EvalErrorView::InfixBooleanOperator {
                left: *left,
                operator: *operator,
                right: *right,
            },
            EvalError::IdentifierNotFound(name) => EvalErrorView::IdentifierNotFound(name@),
            EvalError::MismatchedObject { expected, got } => EvalErrorView::MismatchedObject {
                expected: expected@,
                got: got@,
            },
            EvalError::InvalidNumberArguments {
                expected,
                got,
            } => EvalErrorView::InvalidNumberArguments { expected: *expected, got: *got },
            EvalError::DivisionByZero => EvalErrorView::DivisionByZero,
            EvalError::CallDepthExceeded => EvalErrorView::CallDepthExceeded,
            EvalError::Unhandled => EvalErrorView::Unhandled,
        }
    }
}

/// The outcome of an evaluation as a mathematical value.
pub type Outcome = Result<ObjView, EvalErrorView>;

/// The model of the outcome of an evaluation.
pub open spec fn outcome_view(r: Result<Object, EvalError>) -> Outcome {
    match r {
        Ok(value) => Ok(value@),
        Err(e) => Err(e@),
    }
}

/// How deeply calls may be nested when a program is evaluated.
pub const MAX_CALL_DEPTH: usize = 200;

/// Whether a value counts as true in a condition: all but the null value
/// and `false` do.
pub open spec fn truthy(o: ObjView) -> bool {
    match o {
        ObjView::Null => false,
        ObjView::Bool(b) => b,
        _ => true,
    }
}

/// A value without the marks of `return` around it.
pub open spec fn strip(o: ObjView) -> ObjView
    decreases o,
{
    match o {
        ObjView::ReturnValue { value } => strip(*value),
        _ => o,
    }
}

/// The quotient of two integers, rounded towards zero.
pub open spec fn truncated_quotient(a: int, b: int) -> int {
    if b == 0 || a == 0 {
        0
    } else if a >= 0 && b > 0 {
        a / b
    } else if a < 0 && b > 0 {
        -((-a) / b)
    } else if a >= 0 && b < 0 {
        -(a / (-b))
    } else {
        (-a) / (-b)
    }
}

/// The value of `!` on a value.
pub open spec fn bang_result(right: ObjView) -> Outcome {
    match right {
        ObjView::Bool(b) => Ok(ObjView::Bool(!b)),
        ObjView::Integer(n) => Ok(ObjView::Bool(n == 0)),
        _ => Err(EvalErrorView::UnknownPrefix { operator: PrefixOperator::Bang, value: right }),
    }
}

/// The value of `-` on a value. The negation wraps.
pub open spec fn minus_result(right: ObjView) -> Outcome {
    match right {
        ObjView::Integer(n) => Ok(ObjView::Integer(0i64.wrapping_sub(n))),
        _ => Err(EvalErrorView::UnknownPrefix { operator: PrefixOperator::Minus, value: right }),
    }
}

/// The value of a prefix operator on a value.
pub open spec fn prefix_result(operator: PrefixOperator, right: ObjView) -> Outcome {
    match operator {
        PrefixOperator::Bang => bang_result(right),
        PrefixOperator::Minus => minus_result(right),
    }
}

/// The value of an infix operator between two integers. Arithmetic wraps
/// round in 64 signed bits; a quotient is rounded towards zero, and a
/// division by zero fails.
pub open spec fn integer_infix_result(operator: InfixOperator, left: i64, right: i64) -> Outcome {
    match operator {
        InfixOperator::Plus => Ok(ObjView::Integer(left.wrapping_add(right))),
        InfixOperator::Minus => Ok(ObjView::Integer(left.wrapping_sub(right))),
        InfixOperator::Mult => Ok(ObjView::Integer(left.wrapping_mul(right))),
        InfixOperator::Division => if right == 0 {
            Err(EvalErrorView::DivisionByZero)
        } else if left == i64::MIN && right == -1 {
            Ok(ObjView::Integer(i64::MIN))
        } else {
            Ok(ObjView::Integer(truncated_quotient(left as int, right as int) as i64))
        },
        InfixOperator::Equal => Ok(ObjView::Bool(left == right)),
        InfixOperator::NotEqual => Ok(ObjView::Bool(left != right)),
        InfixOperator::GreaterThan => Ok(ObjView::Bool(left > right)),
        InfixOperator::LessThan => Ok(ObjView::Bool(left < right)),
    }
}

/// The value of an infix operator between two booleans: only the tests for
/// equality are defined.
pub open spec fn bool_infix_result(operator: InfixOperator, left: bool, right: bool) -> Outcome {
    match operator {
        InfixOperator::Equal => Ok(ObjView::Bool(left == right)),
        InfixOperator::NotEqual => Ok(ObjView::Bool(left != right)),
        _ => Err(EvalErrorView::InfixBooleanOperator { left, operator, right }),
    }
}

/// The value of an infix operator between two values.
pub open spec fn infix_result(operator: InfixOperator, left: ObjView, right: ObjView) -> Outcome {
    match (left, right) {
        (ObjView::Integer(l), ObjView::Integer(r)) => integer_infix_result(operator, l, r),
        (ObjView::Bool(l), ObjView::Bool(r)) => bool_infix_result(operator, l, r),
        _ => Err(EvalErrorView::MismatchedTypes { left, operator, right }),
    }
}

/// The environment after binding each parameter, named by its printed form,
/// to the argument at the same place, in order, in `scope`.
pub open spec fn bind_all(
    env: Seq<ScopeView>,
    scope: nat,
    parameters: Seq<ExprView>,
    args: Seq<ObjView>,
) -> Seq<ScopeView>
    decreases parameters.len(),
{
    if parameters.len() == 0 || args.len() == 0 {
        env
    } else {
        bind_all(
            bind(env, scope, expr_text(parameters.first()), args.first()),
            scope,
            parameters.drop_first(),
            args.drop_first(),
        )
    }
}

/// The value of an expression in `scope`, and the environment after its
/// evaluation. Calls may be nested `depth` deep.
pub open spec fn eval_expr(e: ExprView, env: Seq<ScopeView>, scope: nat, depth: nat) -> (
    Outcome,
    Seq<ScopeView>,
)
    decreases depth, 1nat, e, 0nat,
{
    match e {
        ExprView::Empty => (Err(EvalErrorView::Unhandled), env),
        ExprView::Int(n) => (Ok(ObjView::Integer(n)), env),
        ExprView::Bool(b) => (Ok(ObjView::Bool(b)), env),
        ExprView::Prefix { operator, right } => {
            let (right, env1) = eval_expr(*right, env, scope, depth);
            match right {
                Err(e) => (Err(e), env1),
                Ok(right) => (prefix_result(operator, right), env1),
            }
        },
        ExprView::Infix { left, operator, right } => {
            let (left, env1) = eval_expr(*left, env, scope, depth);
            match left {
                Err(e) => (Err(e), env1),
                Ok(left) => {
                    let (right, env2) = eval_expr(*right, env1, scope, depth);
                    match right {
                        Err(e) => (Err(e), env2),
                        Ok(right) => (infix_result(operator, left, right), env2),
                    }
                },
            }
        },
        ExprView::If { condition, consequence, alternative } => {
            let (condition, env1) = eval_expr(*condition, env, scope, depth);
            match condition {
                Err(e) => (Err(e), env1),
                Ok(condition) => if truthy(condition) {
                    eval_block(consequence, env1, scope, depth)
                } else {
                    match alternative {
                        Some(alternative) => eval_block(alternative, env1, scope, depth),
                        None => (Ok(ObjView::Null), env1),
                    }
                },
            }
        },
        ExprView::Identifier(name) => match lookup(env, scope, name) {
            Some(value) => (Ok(value), env),
            None => (Err(EvalErrorView::IdentifierNotFound(name)), env),
        },
        ExprView::Function { parameters, body } => (
            Ok(ObjView::Function { parameters, body, env: scope }),
            env,
        ),
        ExprView::FunctionCall { function, arguments } => {
            let (function, env1) = eval_expr(*function, env, scope, depth);
            match function {
                Err(e) => (Err(e), env1),
                Ok(function) => {
                    let (args, env2) = eval_args(arguments, Seq::empty(), env1, scope, depth);
                    match args {
                        Err(e) => (Err(e), env2),
                        Ok(args) => call_outcome(function, args, env2, depth),
                    }
                },
            }
        },
    }
}

/// The values of the expressions in `arguments`, from left to right, behind
/// those in `values`. The first failure ends the evaluation.
pub open spec fn eval_args(
    arguments: Seq<ExprView>,
    values: Seq<ObjView>,
    env: Seq<ScopeView>,
    scope: nat,
    depth: nat,
) -> (Result<Seq<ObjView>, EvalErrorView>, Seq<ScopeView>)
    decreases depth, 1nat, arguments, 0nat,
{
    if arguments.len() == 0 {
        (Ok(values), env)
    } else {
        let (value, env1) = eval_expr(arguments.first(), env, scope, depth);
        match value {
            Err(e) => (Err(e), env1),
            Ok(value) => eval_args(arguments.drop_first(), values.push(value), env1, scope, depth),
        }
    }
}

/// The result of calling a value on arguments: the body of the function is
/// evaluated in a new scope enclosed by the scope that the function was made
/// in, with the parameters bound to the arguments, and the marks of `return`
/// are taken off its value.
pub open spec fn call_outcome(
    function: ObjView,
    args: Seq<ObjView>,
    env: Seq<ScopeView>,
    depth: nat,
) -> (Outcome, Seq<ScopeView>)
    decreases depth, 0nat, function, 0nat,
{
    match function {
        ObjView::Function { parameters, body, env: captured } => {
            if parameters.len() != args.len() {
                (
                    Err(
                        EvalErrorView::InvalidNumberArguments {
                            expected: parameters.len() as u64,
                            got: args.len() as u64,
                        },
                    ),
                    env,
                )
            } else if depth == 0 {
                (Err(EvalErrorView::CallDepthExceeded), env)
            } else {
                let scope = env.len();
                let env1 = bind_all(extend(env, captured), scope, parameters, args);
                let (value, env2) = eval_block(body, env1, scope, (depth - 1) as nat);
                match value {
                    Err(e) => (Err(e), env2),
                    Ok(value) => (Ok(strip(value)), env2),
                }
            }
        },
        _ => (
            Err(
                EvalErrorView::MismatchedObject { expected: "Object::Function{ }"@, got: function },
            ),
            env,
        ),
    }
}

/// The value of a statement in `scope`, and the environment after it.
pub open spec fn eval_stmt(s: StmtView, env: Seq<ScopeView>, scope: nat, depth: nat) -> (
    Outcome,
    Seq<ScopeView>,
)
    decreases depth, 1nat, s, 0nat,
{
    match s {
        StmtView::Expression(value) => eval_expr(value, env, scope, depth),
        StmtView::Block(statements) => eval_block(statements, env, scope, depth),
        StmtView::Return(value) => {
            let (value, env1) = eval_expr(value, env, scope, depth);
            match value {
                Err(e) => (Err(e), env1),
                Ok(value) => (Ok(ObjView::ReturnValue { value: Box::new(value) }), env1),
            }
        },
        StmtView::Let { name, value } => {
            let (value, env1) = eval_expr(value, env, scope, depth);
            match value {
                Err(e) => (Err(e), env1),
                Ok(value) => (Ok(value), bind(env1, scope, name, value)),
            }
        },
    }
}

/// The value of a sequence of statements that follow a statement of value
/// `last`: that of the first statement that fails or returns, or else that
/// of the last statement, or `last` where there is no statement. A returned
/// value keeps its mark.
pub open spec fn eval_rest(
    statements: Seq<StmtView>,
    last: ObjView,
    env: Seq<ScopeView>,
    scope: nat,
    depth: nat,
) -> (Outcome, Seq<ScopeView>)
    decreases depth, 1nat, statements, 0nat,
{
    if statements.len() == 0 {
        (Ok(last), env)
    } else {
        let (value, env1) = eval_stmt(statements.first(), env, scope, depth);
        match value {
            Err(e) => (Err(e), env1),
            Ok(value) => if value is ReturnValue {
                (Ok(value), env1)
            } else {
                eval_rest(statements.drop_first(), value, env1, scope, depth)
            },
        }
    }
}

/// The value of a block: that of its statements in order, the null value
/// for an empty block.
pub open spec fn eval_block(statements: Seq<StmtView>, env: Seq<ScopeView>, scope: nat, depth: nat)
    -> (Outcome, Seq<ScopeView>)
    decreases depth, 1nat, statements, 1nat,
{
    eval_rest(statements, ObjView::Null, env, scope, depth)
}

/// The value of a program in the root scope: that of its statements in
/// order, with the marks of `return` taken off.
pub open spec fn eval_program(statements: Seq<StmtView>, env: Seq<ScopeView>) -> (
    Outcome,
    Seq<ScopeView>,
) {
    let (value, env1) = eval_block(statements, env, 0, MAX_CALL_DEPTH as nat);
    match value {
        Err(e) => (Err(e), env1),
        Ok(value) => (Ok(strip(value)), env1),
    }
}

/// A value without the marks of `return` is no returned value.
pub proof fn lemma_strip_is_plain(o: ObjView)
    ensures
        !(strip(o) is ReturnValue),
    decreases o,
{
    match o {
        ObjView::ReturnValue { value } => {
            lemma_strip_is_plain(*value);
        },
        _ => {},
    }
}

/// Whether a value counts as true in a condition.
pub fn is_true(condition: &Object) -> (b: bool)
    ensures
        b == truthy(condition@),
{
    match condition {
        Object::Null => false,
        Object::Bool(b) => *b,
        _ => true,
    }
}

/// Takes the marks of `return` off a value.
pub fn strip_return(value: Object) -> (res: Object)
    ensures
        res@ == strip(value@),
    decreases value,
{
    match value {
        Object::ReturnValue { value } => strip_return(*value),
        other => other,
    }
}

/// Applies a prefix operator to a value.
pub fn eval_expr_prefix(operator: PrefixOperator, right: Object) -> (res: Result<
    Object,
    EvalError,
>)
    ensures
        outcome_view(res) == prefix_result(operator, right@),
{
    match operator {
        PrefixOperator::Bang => eval_expr_bang_operator(right),
        PrefixOperator::Minus => eval_expr_minus_operator(right),
    }
}

/// Applies `!` to a value.
pub fn eval_expr_bang_operator(right: Object) -> (res: Result<Object, EvalError>)
    ensures
        outcome_view(res) == bang_result(right@),
{
    match right {
        Object::Bool(b) => Ok(Object::Bool(!b)),
        Object::Integer(i) => Ok(Object::Bool(i == 0)),
        other => Err(EvalError::UnknownPrefix { operator: PrefixOperator::Bang, value: other }),
    }
}

/// Applies `-` to a value.
pub fn eval_expr_minus_operator(right: Object) -> (res: Result<Object, EvalError>)
    ensures
        outcome_view(res) == minus_result(right@),
{
    match right {
        Object::Integer(i) => Ok(Object::Integer(0i64.wrapping_sub(i))),
        other => Err(EvalError::UnknownPrefix { operator: PrefixOperator::Minus, value: other }),
    }
}

/// Applies an infix operator to two values.
pub fn eval_expr_infix(operator: InfixOperator, left: Object, right: Object) -> (res: Result<
    Object,
    EvalError,
>)
    ensures
        outcome_view(res) == infix_result(operator, left@, right@),
{
    match (&left, &right) {
        (Object::Integer(l), Object::Integer(r)) => eval_expr_infix_integer(operator, *l, *r),
        (Object::Bool(l), Object::Bool(r)) => eval_expr_infix_bool(operator, *l, *r),
        _ => Err(EvalError::MismatchedTypes { left, operator, right }),
    }
}

/// Applies an infix operator to two integers.
pub fn eval_expr_infix_integer(operator: InfixOperator, left: i64, right: i64) -> (res: Result<
    Object,
    EvalError,
>)
    ensures
        outcome_view(res) == integer_infix_result(operator, left, right),
{
    match operator {
        InfixOperator::Plus => Ok(Object::Integer(left.wrapping_add(right))),
        InfixOperator::Minus => Ok(Object::Integer(left.wrapping_sub(right))),
        InfixOperator::Mult => Ok(Object::Integer(left.wrapping_mul(right))),
        InfixOperator::Division => {
            if right == 0 {
                Err(EvalError::DivisionByZero)
            } else {
                proof {
                    broadcast use vstd::arithmetic::div_mod::group_div_basics;

                    if left < 0 && right < -1 {
                        vstd::arithmetic::div_mod::lemma_div_is_ordered_by_denominator(
                            -(left as int),
                            2,
                            -(right as int),
                        );
                    }
                }
                match left.checked_div(right) {
                    Some(quotient) => Ok(Object::Integer(quotient)),
                    None => Ok(Object::Integer(i64::MIN)),
                }
            }
        },
        InfixOperator::Equal => Ok(Object::Bool(left == right)),
        InfixOperator::NotEqual => Ok(Object::Bool(left != right)),
        InfixOperator::GreaterThan => Ok(Object::Bool(left > right)),
        InfixOperator::LessThan => Ok(Object::Bool(left < right)),
    }
}

/// Applies an infix operator to two booleans.
pub fn eval_expr_infix_bool(operator: InfixOperator, left: bool, right: bool) -> (res: Result<
    Object,
    EvalError,
>)
    ensures
        outcome_view(res) == bool_infix_result(operator, left, right),
{
    match operator {
        InfixOperator::Equal => Ok(Object::Bool(left == right)),
        InfixOperator::NotEqual => Ok(Object::Bool(left != right)),
        _ => Err(EvalError::InfixBooleanOperator { left, operator, right }),
    }
}

/// Whether a value is a function.
pub fn is_function(o: &Object) -> (b: bool)
    ensures
        b == o@ is Function,
{
    match o {
        Object::Function { .. } => true,
        _ => false,
    }
}

/// Makes the scope for a call of a function: a new scope enclosed by the
/// scope that the function was made in, with each parameter bound to the
/// argument at the same place. Gives the index of the new scope. Fails, and
/// leaves the environment as it is, where the value is no function.
pub fn extend_function_env(obj_fn: &Object, args: &Vec<Object>, environment: &mut Environment)
    -> (res: Result<usize, EvalError>)
    ensures
        match obj_fn@ {
            ObjView::Function { parameters, body, env: captured } => {
                &&& res == Ok::<usize, EvalError>(old(environment)@.len() as usize)
                &&& old(environment)@.len() <= usize::MAX
                &&& final(environment)@ == bind_all(
                    extend(old(environment)@, captured),
                    old(environment)@.len(),
                    parameters,
                    objs_view(args@),
                )
            },
            _ => {
                &&& res is Err
                &&& res->Err_0@ == (EvalErrorView::MismatchedObject {
                    expected: "Object::Function{ }"@,
                    got: obj_fn@,
                })
                &&& final(environment)@ == old(environment)@
            },
        },
{
    match obj_fn {
        Object::Function { parameters, body, env } => {
            let scope = environment.with_outer(*env);
            let ghost all_parameters = exprs_view(parameters@);
            let ghost all_args = objs_view(args@);
            let ghost extended = environment@;
            let mut i: usize = 0;
            proof {
                lemma_exprs_view_index(parameters@);
                assert(all_parameters.skip(0) =~= all_parameters);
                assert(all_args.skip(0) =~= all_args);
            }
            while i < parameters.len() && i < args.len()
                invariant
                    i <= parameters.len(),
                    i <= args.len(),
                    all_parameters == exprs_view(parameters@),
                    all_parameters.len() == parameters.len(),
                    all_args == objs_view(args@),
                    bind_all(extended, scope as nat, all_parameters, all_args) == bind_all(
                        environment@,
                        scope as nat,
                        all_parameters.skip(i as int),
                        all_args.skip(i as int),
                    ),
                decreases parameters.len() - i,
            {
                let name = parameters[i].to_string();
                let value = args[i].clone();
                proof {
                    lemma_exprs_view_index(parameters@);
                    assert(all_parameters.skip(i as int).drop_first() =~= all_parameters.skip(
                        i + 1,
                    ));
                    assert(all_args.skip(i as int).drop_first() =~= all_args.skip(i + 1));
                }
                environment.set(scope, name, value);
                i = i + 1;
            }
            Ok(scope)
        },
        _ => Err(
            EvalError::MismatchedObject {
                expected: String::from_str("Object::Function{ }"),
                got: obj_fn.clone(),
            },
        ),
    }
}

/// Calls a value on arguments. The body of a function is evaluated in a new
/// scope enclosed by the scope that the function was made in, and the marks
/// of `return` are taken off its value: a `return` ends the call and
/// nothing around it.
pub fn apply_function(
    obj_fn: Object,
    args: Vec<Object>,
    environment: &mut Environment,
    depth: usize,
) -> (res: Result<Object, EvalError>)
    ensures
        (outcome_view(res), final(environment)@) == call_outcome(
            obj_fn@,
            objs_view(args@),
            old(environment)@,
            depth as nat,
        ),
        res is Ok ==> !(res->Ok_0@ is ReturnValue),
    decreases depth, 0nat, obj_fn, 0nat,
{
    if !is_function(&obj_fn) {
        return Err(
            EvalError::MismatchedObject {
                expected: String::from_str("Object::Function{ }"),
                got: obj_fn,
            },
        );
    }
    match &obj_fn {
        Object::Function { parameters, body, env } => {
            proof {
                lemma_exprs_view_index(parameters@);
            }
            if parameters.len() != args.len() {
                return Err(
                    EvalError::InvalidNumberArguments {
                        expected: parameters.len() as u64,
                        got: args.len() as u64,
                    },
                );
            }
            if depth == 0 {
                return Err(EvalError::CallDepthExceeded);
            }
            let scope = match extend_function_env(&obj_fn, &args, environment) {
                Ok(scope) => scope,
                Err(e) => {
                    return Err(e);
                },
            };
            let value = match eval_statements(body, environment, scope, depth - 1) {
                Ok(value) => value,
                Err(e) => {
                    return Err(e);
                },
            };
            proof {
                lemma_strip_is_plain(value@);
            }
            Ok(strip_return(value))
        },
        _ => Err(EvalError::Unhandled),
    }
}

/// Evaluates the statements of a block in order, in `scope`. The value is
/// that of the first statement that returns, with its mark, or else that of
/// the last statement; the first failure ends the evaluation.
pub fn eval_statements(
    statements: &Vec<Statement>,
    environment: &mut Environment,
    scope: usize,
    depth: usize,
) -> (res: Result<Object, EvalError>)
    ensures
        (outcome_view(res), final(environment)@) == eval_block(
            stmts_view(statements@),
            old(environment)@,
            scope as nat,
            depth as nat,
        ),
    decreases depth, 1nat, statements, 0nat,
{
    let ghost all = stmts_view(statements@);
    let mut last = Object::Null;
    let mut i: usize = 0;
    proof {
        lemma_stmts_view_index(statements@);
        assert(all.skip(0) =~= all);
    }
    while i < statements.len()
        invariant
            i <= statements.len(),
            all == stmts_view(statements@),
            all.len() == statements.len(),
            eval_block(all, old(environment)@, scope as nat, depth as nat) == eval_rest(
                all.skip(i as int),
                last@,
                environment@,
                scope as nat,
                depth as nat,
            ),
        decreases statements.len() - i,
    {
        proof {
            lemma_stmts_view_index(statements@);
            assert(all.skip(i as int).drop_first() =~= all.skip(i + 1));
        }
        let value = match statements[i].eval(environment, scope, depth) {
            Ok(value) => value,
            Err(e) => {
                return Err(e);
            },
        };
        if is_return_value(&value) {
            return Ok(value);
        }
        last = value;
        i = i + 1;
    }
    Ok(last)
}

/// Whether a value carries the mark of `return`.
pub fn is_return_value(o: &Object) -> (b: bool)
    ensures
        b == o@ is ReturnValue,
{
    match o {
        Object::ReturnValue { .. } => true,
        _ => false,
    }
}

/// Evaluates the arguments of a call from left to right, in `scope`. The
/// first failure ends the evaluation.
pub fn eval_arguments(
    arguments: &Vec<Expression>,
    environment: &mut Environment,
    scope: usize,
    depth: usize,
) -> (res: Result<Vec<Object>, EvalError>)
    ensures
        (
            match res {
                Ok(values) => Ok::<Seq<ObjView>, EvalErrorView>(objs_view(values@)),
                Err(e) => Err::<Seq<ObjView>, EvalErrorView>(e@),
            },
            final(environment)@,
        ) == eval_args(
            exprs_view(arguments@),
            Seq::empty(),
            old(environment)@,
            scope as nat,
            depth as nat,
        ),
    decreases depth, 1nat, arguments, 0nat,
{
    let ghost all = exprs_view(arguments@);
    let mut values: Vec<Object> = Vec::new();
    let mut i: usize = 0;
    proof {
        lemma_exprs_view_index(arguments@);
        assert(all.skip(0) =~= all);
        assert(objs_view(values@) =~= Seq::<ObjView>::empty());
    }
    while i < arguments.len()
        invariant
            i <= arguments.len(),
            all == exprs_view(arguments@),
            all.len() == arguments.len(),
            eval_args(all, Seq::empty(), old(environment)@, scope as nat, depth as nat)
                == eval_args(
                all.skip(i as int),
                objs_view(values@),
                environment@,
                scope as nat,
                depth as nat,
            ),
        decreases arguments.len() - i,
    {
        proof {
            lemma_exprs_view_index(arguments@);
            assert(all.skip(i as int).drop_first() =~= all.skip(i + 1));
        }
        let value = match arguments[i].eval(environment, scope, depth) {
            Ok(value) => value,
            Err(e) => {
                return Err(e);
            },
        };
        proof {
            assert(objs_view(values@.push(value)) =~= objs_view(values@).push(value@));
        }
        values.push(value);
        i = i + 1;
    }
    Ok(values)
}

impl Expression {
    /// Evaluates the expression in `scope`. Calls may be nested `depth` deep.
    pub fn eval(&self, environment: &mut Environment, scope: usize, depth: usize) -> (res: Result<
        Object,
        EvalError,
    >)
        ensures
            (outcome_view(res), final(environment)@) == eval_expr(
                self@,
                old(environment)@,
                scope as nat,
                depth as nat,
            ),
        decreases depth, 1nat, self, 0nat,
    {
        match self {
            Expression::Empty => Err(EvalError::Unhandled),
            Expression::Int(i) => Ok(Object::Integer(*i)),
            Expression::Bool(b) => Ok(Object::Bool(*b)),
            Expression::Prefix { operator, right } => {
                let right = match right.eval(environment, scope, depth) {
                    Ok(right) => right,
                    Err(e) => {
                        return Err(e);
                    },
                };
                eval_expr_prefix(*operator, right)
            },
            Expression::Infix { left, operator, right } => {
                let left = match left.eval(environment, scope, depth) {
                    Ok(left) => left,
                    Err(e) => {
                        return Err(e);
                    },
                };
                let right = match right.eval(environment, scope, depth) {
                    Ok(right) => right,
                    Err(e) => {
                        return Err(e);
                    },
                };
                eval_expr_infix(*operator, left, right)
            },
            Expression::If { condition, consequence, alternative } => {
                let condition = match condition.eval(environment, scope, depth) {
                    Ok(condition) => condition,
                    Err(e) => {
                        return Err(e);
                    },
                };
                if is_true(&condition) {
                    eval_statements(consequence, environment, scope, depth)
                } else {
                    match alternative {
                        Some(alternative) => eval_statements(alternative, environment, scope, depth),
                        None => Ok(Object::Null),
                    }
                }
            },
            Expression::Identifier(name) => {
                match environment.get(scope, name) {
                    Some(value) => Ok(value),
                    None => Err(EvalError::IdentifierNotFound(name.clone())),
                }
            },
            Expression::Function { parameters, body } => Ok(
                Object::Function {
                    parameters: clone_exprs(parameters),
                    body: clone_stmts(body),
                    env: scope,
                },
            ),
            Expression::FunctionCall { function, arguments } => {
                let obj_fn = match function.eval(environment, scope, depth) {
                    Ok(obj_fn) => obj_fn,
                    Err(e) => {
                        return Err(e);
                    },
                };
                let args = match eval_arguments(arguments, environment, scope, depth) {
                    Ok(args) => args,
                    Err(e) => {
                        return Err(e);
                    },
                };
                apply_function(obj_fn, args, environment, depth)
            },
        }
    }
}

impl Statement {
    /// Evaluates the statement in `scope`. Calls may be nested `depth` deep.
    pub fn eval(&self, environment: &mut Environment, scope: usize, depth: usize) -> (res: Result<
        Object,
        EvalError,
    >)
        ensures
            (outcome_view(res), final(environment)@) == eval_stmt(
                self@,
                old(environment)@,
                scope as nat,
                depth as nat,
            ),
        decreases depth, 1nat, self, 0nat,
    {
        match self {
            Statement::Expression(expression) => expression.eval(environment, scope, depth),
            Statement::Block(statements) => eval_statements(statements, environment, scope, depth),
            Statement::Return(expression) => {
                match expression.eval(environment, scope, depth) {
                    Ok(value) => Ok(Object::ReturnValue { value: Box::new(value) }),
                    Err(e) => Err(e),
                }
            },
            Statement::Let { name, value } => {
                let value = match value.eval(environment, scope, depth) {
                    Ok(value) => value,
                    Err(e) => {
                        return Err(e);
                    },
                };
                Ok(environment.set(scope, name.clone(), value))
            },
        }
    }
}

impl Program {
    /// Evaluates the program in the root scope of `environment`. The value
    /// is that of the first statement that returns, or else that of the last
    /// statement, and never carries the mark of `return`; the first failure
    /// ends the evaluation.
    pub fn eval(&self, environment: &mut Environment) -> (res: Result<Object, EvalError>)
        ensures
            (outcome_view(res), final(environment)@) == eval_program(self@, old(environment)@),
            res is Ok ==> !(res->Ok_0@ is ReturnValue),
    {
        match eval_statements(&self.statements, environment, 0, MAX_CALL_DEPTH) {
            Ok(value) => {
                proof {
                    lemma_strip_is_plain(value@);
                }
                Ok(strip_return(value))
            },
            Err(e) => Err(e),
        }
    }
}

/// Determinism. Two evaluations of one program against the environment
/// that holds the empty root scope alone give equal values, or equal
/// errors, and leave equal environments.
pub proof fn lemma_eval_deterministic(
    program: Seq<StmtView>,
    first: (Outcome, Seq<ScopeView>),
    second: (Outcome, Seq<ScopeView>),
)
    requires
        first == eval_program(program, crate::environment::root_only()),
        second == eval_program(program, crate::environment::root_only()),
    ensures
        first == second,
{
}

/// The statements `inner` wrapped in `layers` conditionals on `condition`
/// without alternative, each followed by the statements `following`.
pub open spec fn nested_in_ifs(
    layers: nat,
    condition: ExprView,
    inner: Seq<StmtView>,
    following: Seq<StmtView>,
) -> Seq<StmtView>
    decreases layers,
{
    if layers == 0 {
        inner
    } else {
        seq![
            StmtView::Expression(
                ExprView::If {
                    condition: Box::new(condition),
                    consequence: nested_in_ifs((layers - 1) as nat, condition, inner, following),
                    alternative: None,
                },
            ),
        ] + following
    }
}

/// A `return` passes through the blocks around it. Where statements give a
/// returned value, so do the same statements wrapped in any number of
/// conditionals whose condition holds, with the same mark and the same
/// environment: no statement that follows one of the conditionals is
/// evaluated.
pub proof fn lemma_return_passes_blocks(
    layers: nat,
    condition: ExprView,
    inner: Seq<StmtView>,
    following: Seq<StmtView>,
    env: Seq<ScopeView>,
    scope: nat,
    depth: nat,
)
    requires
        eval_expr(condition, env, scope, depth).0 is Ok,
        truthy(eval_expr(condition, env, scope, depth).0->Ok_0),
        eval_expr(condition, env, scope, depth).1 == env,
        eval_block(inner, env, scope, depth).0 is Ok,
        eval_block(inner, env, scope, depth).0->Ok_0 is ReturnValue,
    ensures
        eval_block(nested_in_ifs(layers, condition, inner, following), env, scope, depth)
            == eval_block(inner, env, scope, depth),
    decreases layers,
{
    if layers > 0 {
        lemma_return_passes_blocks(
            (layers - 1) as nat,
            condition,
            inner,
            following,
            env,
            scope,
            depth,
        );
        let wrapped = nested_in_ifs(layers, condition, inner, following);
        let conditional = ExprView::If {
            condition: Box::new(condition),
            consequence: nested_in_ifs((layers - 1) as nat, condition, inner, following),
            alternative: None,
        };
        assert(wrapped.first() == StmtView::Expression(conditional));
        assert(eval_expr(conditional, env, scope, depth) == eval_block(inner, env, scope, depth));
        assert(eval_stmt(wrapped.first(), env, scope, depth) == eval_block(
            inner,
            env,
            scope,
            depth,
        ));
    }
}

/// A `return` ends at the program. Where the statements of a program,
/// wrapped in any number of conditionals whose condition holds, give a
/// returned value, the program gives that value without its marks.
pub proof fn lemma_return_ends_at_program(
    layers: nat,
    condition: ExprView,
    inner: Seq<StmtView>,
    following: Seq<StmtView>,
    env: Seq<ScopeView>,
)
    requires
        eval_expr(condition, env, 0, MAX_CALL_DEPTH as nat).0 is Ok,
        truthy(eval_expr(condition, env, 0, MAX_CALL_DEPTH as nat).0->Ok_0),
        eval_expr(condition, env, 0, MAX_CALL_DEPTH as nat).1 == env,
        eval_block(inner, env, 0, MAX_CALL_DEPTH as nat).0 is Ok,
        eval_block(inner, env, 0, MAX_CALL_DEPTH as nat).0->Ok_0 is ReturnValue,
    ensures
        eval_program(nested_in_ifs(layers, condition, inner, following), env).0 == Ok::<
            ObjView,
            EvalErrorView,
        >(strip(eval_block(inner, env, 0, MAX_CALL_DEPTH as nat).0->Ok_0)),
        !(eval_program(nested_in_ifs(layers, condition, inner, following), env).0->Ok_0
            is ReturnValue),
{
    lemma_return_passes_blocks(
        layers,
        condition,
        inner,
        following,
        env,
        0,
        MAX_CALL_DEPTH as nat,
    );
    lemma_strip_is_plain(eval_block(inner, env, 0, MAX_CALL_DEPTH as nat).0->Ok_0);
}

/// A `return` ends at the call. The value of a call never carries the mark
/// of `return`, so the statements behind the call are evaluated.
pub proof fn lemma_return_ends_at_call(
    function: ObjView,
    args: Seq<ObjView>,
    env: Seq<ScopeView>,
    depth: nat,
)
    requires
        call_outcome(function, args, env, depth).0 is Ok,
    ensures
        !(call_outcome(function, args, env, depth).0->Ok_0 is ReturnValue),
{
    match function {
        ObjView::Function { parameters, body, env: captured } => {
            let scope = env.len();
            let env1 = bind_all(extend(env, captured), scope, parameters, args);
            lemma_strip_is_plain(eval_block(body, env1, scope, (depth - 1) as nat).0->Ok_0);
        },
        _ => {},
    }
}

/// Binding parameters leaves every scope but the one of the call as it
/// was, and in that one every name that no parameter is printed as.
pub proof fn lemma_bind_all_keeps(
    env: Seq<ScopeView>,
    scope: nat,
    parameters: Seq<ExprView>,
    args: Seq<ObjView>,
    from: nat,
    name: Seq<char>,
)
    requires
        forall|i: int| 0 <= i < parameters.len() ==> expr_text(#[trigger] parameters[i]) != name,
    ensures
        bind_all(env, scope, parameters, args).len() == env.len(),
        lookup(bind_all(env, scope, parameters, args), from, name) == lookup(env, from, name),
    decreases parameters.len(),
{
    if parameters.len() == 0 || args.len() == 0 {
    } else {
        let bound = bind(env, scope, expr_text(parameters.first()), args.first());
        lemma_bind_keeps(env, scope, expr_text(parameters.first()), args.first(), from, name);
        assert forall|i: int| 0 <= i < parameters.drop_first().len() implies expr_text(
            #[trigger] parameters.drop_first()[i],
        ) != name by {
            assert(parameters.drop_first()[i] == parameters[i + 1]);
        }
        lemma_bind_all_keeps(bound, scope, parameters.drop_first(), args.drop_first(), from, name);
    }
}

/// Binding one name leaves what every other name resolves to as it was.
pub proof fn lemma_bind_keeps(
    env: Seq<ScopeView>,
    scope: nat,
    bound: Seq<char>,
    value: ObjView,
    from: nat,
    name: Seq<char>,
)
    requires
        bound != name,
    ensures
        bind(env, scope, bound, value).len() == env.len(),
        lookup(bind(env, scope, bound, value), from, name) == lookup(env, from, name),
    decreases from,
{
    if from < env.len() {
        match env[from as int].outer {
            Some(outer) => {
                if outer < from {
                    lemma_bind_keeps(env, scope, bound, value, outer, name);
                }
            },
            None => {},
        }
    }
}

/// What a name resolves to from a new scope that binds nothing is what it
/// resolves to from the scope around it.
pub proof fn lemma_lookup_through_new_scope(env: Seq<ScopeView>, outer: nat, name: Seq<char>)
    requires
        outer < env.len(),
    ensures
        lookup(extend(env, outer), env.len(), name) == lookup(env, outer, name),
{
    lemma_extend_keeps(env, outer, outer, name);
}

/// A new scope leaves what a name resolves to from an older scope as it was.
pub proof fn lemma_extend_keeps(env: Seq<ScopeView>, outer: nat, from: nat, name: Seq<char>)
    requires
        from < env.len(),
    ensures
        lookup(extend(env, outer), from, name) == lookup(env, from, name),
    decreases from,
{
    match env[from as int].outer {
        Some(enclosing) => {
            if enclosing < from {
                lemma_extend_keeps(env, outer, enclosing, name);
            }
        },
        None => {},
    }
}

/// Closures share the scope they were made in. A function value holds the
/// index of its scope, not a copy of it: when a name is bound in that scope
/// after the function was made, a call of the function, and of any other
/// function made in the same scope, resolves the name to the new value,
/// unless a parameter of the called function has that name.
pub proof fn lemma_closure_sees_later_binding(
    env: Seq<ScopeView>,
    function: ObjView,
    args: Seq<ObjView>,
    name: Seq<char>,
    value: ObjView,
)
    requires
        function is Function,
        function->env < env.len(),
        forall|i: int|
            0 <= i < function->parameters.len() ==> expr_text(
                #[trigger] function->parameters[i],
            ) != name,
    ensures
        ({
            let later = bind(env, function->env, name, value);
            let call_scope = later.len();
            let at_call = bind_all(
                extend(later, function->env),
                call_scope,
                function->parameters,
                args,
            );
            lookup(at_call, call_scope, name) == Some(value)
        }),
{
    let later = bind(env, function->env, name, value);
    let call_scope = later.len();
    lemma_bind_all_keeps(
        extend(later, function->env),
        call_scope,
        function->parameters,
        args,
        call_scope,
        name,
    );
    lemma_lookup_through_new_scope(later, function->env, name);
}

} // verus!
