//! The abstract syntax tree, its mathematical model and its printed form.

use vstd::prelude::*;
use crate::text::{int_text, push_int, push_str};
use crate::token::{Token, TokenView};

verus! {

/// A prefix operator.
#[derive(Clone, Copy, Debug, PartialEq, Eq, Structural)]
pub enum PrefixOperator {
    Bang,
    Minus,
}

/// An infix operator.
#[derive(Clone, Copy, Debug, PartialEq, Eq, Structural)]
pub enum InfixOperator {
    Plus,
    Minus,
    Mult,
    Division,
    GreaterThan,
    LessThan,
    Equal,
    NotEqual,
}

/// A statement.
#[derive(Debug, PartialEq)]
pub enum Statement {
    Let { name: String, value: Expression },
    Return(Expression),
    Expression(Expression),
    Block(Vec<Statement>),
}

/// An expression.
#[derive(Debug, PartialEq)]
#[allow(inconsistent_fields)]
pub enum Expression {
    Empty,
    Identifier(String),
    Int(i64),
    Prefix { operator: PrefixOperator, right: Box<Expression> },
    Infix { left: Box<Expression>, operator: InfixOperator, right: Box<Expression> },
    Bool(bool),
    If {
        condition: Box<Expression>,
        consequence: Vec<Statement>,
        alternative: Option<Vec<Statement>>,
    },
    Function { parameters: Vec<Expression>, body: Vec<Statement> },
    FunctionCall { function: Box<Expression>, arguments: Vec<Expression> },
}

/// The root of the syntax tree: the statements of a program, in order.
#[derive(Debug, PartialEq)]
pub struct Program {
    pub statements: Vec<Statement>,
}

/// The mathematical value of a statement.
pub enum StmtView {
    Let { name: Seq<char>, value: ExprView },
    Return(ExprView),
    Expression(ExprView),
    Block(Seq<StmtView>),
}

/// The mathematical value of an expression.
#[allow(inconsistent_fields)]
pub enum ExprView {
    Empty,
    Identifier(Seq<char>),
    Int(i64),
    Prefix { operator: PrefixOperator, right: Box<ExprView> },
    Infix { left: Box<ExprView>, operator: InfixOperator, right: Box<ExprView> },
    Bool(bool),
    If { condition: Box<ExprView>, consequence: Seq<StmtView>, alternative: Option<Seq<StmtView>> },
    Function { parameters: Seq<ExprView>, body: Seq<StmtView> },
    FunctionCall { function: Box<ExprView>, arguments: Seq<ExprView> },
}

/// The model of a statement.
pub open spec fn stmt_view(s: Statement) -> StmtView
    decreases s,
{
    match s {
        Statement::Let { name, value } => StmtView::Let { name: name@, value: expr_view(value) },
        Statement::Return(value) => StmtView::Return(expr_view(value)),
        Statement::Expression(value) => StmtView::Expression(expr_view(value)),
        Statement::Block(statements) => StmtView::Block(stmts_view(statements@)),
    }
}

/// The models of a sequence of statements, in order.
pub open spec fn stmts_view(v: Seq<Statement>) -> Seq<StmtView>
    decreases v,
{
    if v.len() == 0 {
        Seq::empty()
    } else {
        stmts_view(v.drop_last()).push(stmt_view(v.last()))
    }
}

/// The models of a sequence of expressions, in order.
pub open spec fn exprs_view(v: Seq<Expression>) -> Seq<ExprView>
    decreases v,
{
    if v.len() == 0 {
        Seq::empty()
    } else {
        exprs_view(v.drop_last()).push(expr_view(v.last()))
    }
}

/// The model of an expression.
pub open spec fn expr_view(e: Expression) -> ExprView
    decreases e,
{
    match e {
        Expression::Empty => ExprView::Empty,
        Expression::Identifier(name) => ExprView::Identifier(name@),
        Expression::Int(n) => ExprView::Int(n),
        Expression::Prefix { operator, right } => ExprView::Prefix {
            operator,
            right: Box::new(expr_view(*right)),
        },
        Expression::Infix { left, operator, right } => ExprView::Infix {
            left: Box::new(expr_view(*left)),
            operator,
            right: Box::new(expr_view(*right)),
        },
        Expression::Bool(b) => ExprView::Bool(b),
        Expression::If { condition, consequence, alternative } => ExprView::If {
            condition: Box::new(expr_view(*condition)),
            consequence: stmts_view(consequence@),
            alternative: match alternative {
                Some(statements) => Some(stmts_view(statements@)),
                None => None,
            },
        },
        Expression::Function { parameters, body } => ExprView::Function {
            parameters: exprs_view(parameters@),
            body: stmts_view(body@),
        },
        Expression::FunctionCall { function, arguments } => ExprView::FunctionCall {
            function: Box::new(expr_view(*function)),
            arguments: exprs_view(arguments@),
        },
    }
}

impl View for Statement {
    type V = StmtView;

    open spec fn view(&self) -> StmtView {
        stmt_view(*self)
    }
}

impl View for Expression {
    type V = ExprView;

    open spec fn view(&self) -> ExprView {
        expr_view(*self)
    }
}

impl View for Program {
    type V = Seq<StmtView>;

    open spec fn view(&self) -> Seq<StmtView> {
        stmts_view(self.statements@)
    }
}

/// A sequence of statements extended by one is modelled by the model of the
/// sequence extended by the model of the one.
pub proof fn lemma_stmts_view_push(v: Seq<Statement>, s: Statement)
    ensures
        stmts_view(v.push(s)) == stmts_view(v).push(stmt_view(s)),
{
    assert(v.push(s).drop_last() =~= v);
}

/// A sequence of expressions extended by one is modelled by the model of the
/// sequence extended by the model of the one.
pub proof fn lemma_exprs_view_push(v: Seq<Expression>, e: Expression)
    ensures
        exprs_view(v.push(e)) == exprs_view(v).push(expr_view(e)),
{
    assert(v.push(e).drop_last() =~= v);
}

/// The model of a sequence of statements has the same length and holds, at
/// each place, the model of the statement at that place.
pub proof fn lemma_stmts_view_index(v: Seq<Statement>)
    ensures
        stmts_view(v).len() == v.len(),
        forall|i: int| 0 <= i < v.len() ==> (#[trigger] stmts_view(v)[i]) == stmt_view(v[i]),
    decreases v.len(),
{
    if v.len() > 0 {
        lemma_stmts_view_index(v.drop_last());
    }
}

/// The model of a sequence of expressions has the same length and holds, at
/// each place, the model of the expression at that place.
pub proof fn lemma_exprs_view_index(v: Seq<Expression>)
    ensures
        exprs_view(v).len() == v.len(),
        forall|i: int| 0 <= i < v.len() ==> (#[trigger] exprs_view(v)[i]) == expr_view(v[i]),
    decreases v.len(),
{
    if v.len() > 0 {
        lemma_exprs_view_index(v.drop_last());
    }
}

/// The sign of a prefix operator.
pub open spec fn prefix_text(operator: PrefixOperator) -> Seq<char> {
    match operator {
        PrefixOperator::Bang => "!"@,
        PrefixOperator::Minus => "-"@,
    }
}

/// The sign of an infix operator.
pub open spec fn infix_text(operator: InfixOperator) -> Seq<char> {
    match operator {
        InfixOperator::Plus => "+"@,
        InfixOperator::Minus => "-"@,
        InfixOperator::Mult => "*"@,
        InfixOperator::Division => "/"@,
        InfixOperator::GreaterThan => ">"@,
        InfixOperator::LessThan => "<"@,
        InfixOperator::Equal => "=="@,
        InfixOperator::NotEqual => "!="@,
    }
}

/// The prefix operator that a token stands for, if any.
pub open spec fn prefix_operator_of(t: TokenView) -> Option<PrefixOperator> {
    match t {
        TokenView::Bang => Some(PrefixOperator::Bang),
        TokenView::Minus => Some(PrefixOperator::Minus),
        _ => None,
    }
}

/// The infix operator that a token stands for, if any.
pub open spec fn infix_operator_of(t: TokenView) -> Option<InfixOperator> {
    match t {
        TokenView::Plus => Some(InfixOperator::Plus),
        TokenView::Minus => Some(InfixOperator::Minus),
        TokenView::Asterisk => Some(InfixOperator::Mult),
        TokenView::Slash => Some(InfixOperator::Division),
        TokenView::GreaterThan => Some(InfixOperator::GreaterThan),
        TokenView::LessThan => Some(InfixOperator::LessThan),
        TokenView::Eq => Some(InfixOperator::Equal),
        TokenView::NotEq => Some(InfixOperator::NotEqual),
        _ => None,
    }
}

impl PrefixOperator {
    /// The prefix operator that a token stands for; an error for any other token.
    pub fn try_from(value: &Token) -> (res: Result<PrefixOperator, ()>)
        ensures
            res.ok() == prefix_operator_of(value@),
    {
        match value {
            Token::Bang => Ok(PrefixOperator::Bang),
            Token::Minus => Ok(PrefixOperator::Minus),
            _ => Err(()),
        }
    }

    /// Appends the operator's sign to `out`.
    pub fn write(&self, out: &mut String)
        ensures
            final(out)@ == old(out)@ + prefix_text(*self),
    {
        match self {
            PrefixOperator::Bang => push_str(out, "!"),
            PrefixOperator::Minus => push_str(out, "-"),
        }
    }
}

impl InfixOperator {
    /// The infix operator that an operator token stands for.
    pub fn from(value: &Token) -> (operator: InfixOperator)
        requires
            infix_operator_of(value@) is Some,
        ensures
            Some(operator) == infix_operator_of(value@),
    {
        match value {
            Token::Plus => InfixOperator::Plus,
            Token::Minus => InfixOperator::Minus,
            Token::Asterisk => InfixOperator::Mult,
            Token::Slash => InfixOperator::Division,
            Token::GreaterThan => InfixOperator::GreaterThan,
            Token::LessThan => InfixOperator::LessThan,
            Token::Eq => InfixOperator::Equal,
            _ => InfixOperator::NotEqual,
        }
    }

    /// The infix operator of the given sign; an error for any other text.
    pub fn from_str(s: &str) -> (res: Result<InfixOperator, ()>)
        ensures
            match res {
                Ok(operator) => s@ == infix_text(operator),
                Err(_) => forall|operator: InfixOperator| s@ != infix_text(operator),
            },
    {
        let text = String::from_str(s);
        if text == String::from_str("+") {
            Ok(InfixOperator::Plus)
        } else if text == String::from_str("-") {
            Ok(InfixOperator::Minus)
        } else if text == String::from_str("*") {
            Ok(InfixOperator::Mult)
        } else if text == String::from_str("/") {
            Ok(InfixOperator::Division)
        } else if text == String::from_str(">") {
            Ok(InfixOperator::GreaterThan)
        } else if text == String::from_str("<") {
            Ok(InfixOperator::LessThan)
        } else if text == String::from_str("==") {
            Ok(InfixOperator::Equal)
        } else if text == String::from_str("!=") {
            Ok(InfixOperator::NotEqual)
        } else {
            Err(())
        }
    }

    /// Appends the operator's sign to `out`.
    pub fn write(&self, out: &mut String)
        ensures
            final(out)@ == old(out)@ + infix_text(*self),
    {
        match self {
            InfixOperator::Plus => push_str(out, "+"),
            InfixOperator::Minus => push_str(out, "-"),
            InfixOperator::Mult => push_str(out, "*"),
            InfixOperator::Division => push_str(out, "/"),
            InfixOperator::GreaterThan => push_str(out, ">"),
            InfixOperator::LessThan => push_str(out, "<"),
            InfixOperator::Equal => push_str(out, "=="),
            InfixOperator::NotEqual => push_str(out, "!="),
        }
    }
}

/// The printed form of an expression. Prefix and infix expressions are
/// fully parenthesised.
pub open spec fn expr_text(e: ExprView) -> Seq<char>
    decreases e,
{
    match e {
        ExprView::Empty => "A"@,
        ExprView::Identifier(name) => name,
        ExprView::Int(n) => int_text(n as int),
        ExprView::Prefix { operator, right } => "("@ + prefix_text(operator) + expr_text(*right)
            + ")"@,
        ExprView::Infix { left, operator, right } => "("@ + expr_text(*left) + " "@ + infix_text(
            operator,
        ) + " "@ + expr_text(*right) + ")"@,
        ExprView::Bool(b) => if b {
            "true"@
        } else {
            "false"@
        },
        ExprView::If { condition, consequence, alternative } => "if "@ + expr_text(*condition)
            + stmts_text(consequence) + match alternative {
            Some(statements) => "else "@ + stmts_text(statements),
            None => Seq::empty(),
        },
        ExprView::Function { parameters, body } => "FUNCTION("@ + list_text(parameters) + ")"@
            + stmts_text(body),
        ExprView::FunctionCall { function, arguments } => expr_text(*function) + "("@ + list_text(
            arguments,
        ) + ")"@,
    }
}

/// The printed form of a statement.
pub open spec fn stmt_text(s: StmtView) -> Seq<char>
    decreases s,
{
    match s {
        StmtView::Let { name, value } => "let "@ + name + " = "@ + expr_text(value) + ";"@,
        StmtView::Return(value) => "return "@ + expr_text(value) + ";"@,
        StmtView::Expression(value) => expr_text(value),
        StmtView::Block(statements) => stmts_text(statements),
    }
}

/// The printed forms of a sequence of statements, one behind the other.
pub open spec fn stmts_text(v: Seq<StmtView>) -> Seq<char>
    decreases v,
{
    if v.len() == 0 {
        Seq::empty()
    } else {
        stmts_text(v.drop_last()) + stmt_text(v.last())
    }
}

/// The printed forms of a sequence of expressions, separated by `, `.
pub open spec fn list_text(v: Seq<ExprView>) -> Seq<char>
    decreases v,
{
    if v.len() == 0 {
        Seq::empty()
    } else if v.len() == 1 {
        expr_text(v.last())
    } else {
        list_text(v.drop_last()) + ", "@ + expr_text(v.last())
    }
}

/// The printed form of a sequence of statements extended by one.
pub proof fn lemma_stmts_text_push(v: Seq<StmtView>, s: StmtView)
    ensures
        stmts_text(v.push(s)) == stmts_text(v) + stmt_text(s),
{
    assert(v.push(s).drop_last() =~= v);
}

/// The printed form of a list of expressions extended by one.
pub proof fn lemma_list_text_push(v: Seq<ExprView>, e: ExprView)
    ensures
        list_text(v.push(e)) == if v.len() == 0 {
            expr_text(e)
        } else {
            list_text(v) + ", "@ + expr_text(e)
        },
{
    assert(v.push(e).drop_last() =~= v);
}

/// Appends the printed form of an expression to `out`.
pub fn write_expr(e: &Expression, out: &mut String)
    ensures
        final(out)@ == old(out)@ + expr_text(e@),
    decreases e,
{
    let ghost start = out@;
    match e {
        Expression::Empty => {
            push_str(out, "A");
        },
        Expression::Identifier(name) => {
            push_str(out, name.as_str());
        },
        Expression::Int(n) => {
            push_int(out, *n);
        },
        Expression::Prefix { operator, right } => {
            push_str(out, "(");
            operator.write(out);
            write_expr(right, out);
            push_str(out, ")");
            assert(out@ =~= start + expr_text(e@));
        },
        Expression::Infix { left, operator, right } => {
            push_str(out, "(");
            write_expr(left, out);
            push_str(out, " ");
            operator.write(out);
            push_str(out, " ");
            write_expr(right, out);
            push_str(out, ")");
            assert(out@ =~= start + expr_text(e@));
        },
        Expression::Bool(b) => {
            if *b {
                push_str(out, "true");
            } else {
                push_str(out, "false");
            }
        },
        Expression::If { condition, consequence, alternative } => {
            push_str(out, "if ");
            write_expr(condition, out);
            write_stmts(consequence, out);
            match alternative {
                Some(statements) => {
                    push_str(out, "else ");
                    write_stmts(statements, out);
                },
                None => {},
            }
            assert(out@ =~= start + expr_text(e@));
        },
        Expression::Function { parameters, body } => {
            push_str(out, "FUNCTION(");
            write_list(parameters, out);
            push_str(out, ")");
            write_stmts(body, out);
            assert(out@ =~= start + expr_text(e@));
        },
        Expression::FunctionCall { function, arguments } => {
            write_expr(function, out);
            push_str(out, "(");
            write_list(arguments, out);
            push_str(out, ")");
            assert(out@ =~= start + expr_text(e@));
        },
    }
}

/// Appends the printed form of a statement to `out`.
pub fn write_stmt(s: &Statement, out: &mut String)
    ensures
        final(out)@ == old(out)@ + stmt_text(s@),
    decreases s,
{
    let ghost start = out@;
    match s {
        Statement::Let { name, value } => {
            push_str(out, "let ");
            push_str(out, name.as_str());
            push_str(out, " = ");
            write_expr(value, out);
            push_str(out, ";");
            assert(out@ =~= start + stmt_text(s@));
        },
        Statement::Return(value) => {
            push_str(out, "return ");
            write_expr(value, out);
            push_str(out, ";");
            assert(out@ =~= start + stmt_text(s@));
        },
        Statement::Expression(value) => {
            write_expr(value, out);
        },
        Statement::Block(statements) => {
            write_stmts(statements, out);
        },
    }
}

/// Appends the printed forms of the statements, one behind the other, to `out`.
pub fn write_stmts(v: &Vec<Statement>, out: &mut String)
    ensures
        final(out)@ == old(out)@ + stmts_text(stmts_view(v@)),
    decreases v,
{
    let ghost start = out@;
    let mut i: usize = 0;
    assert(out@ =~= start + stmts_text(stmts_view(v@.take(0))));
    while i < v.len()
        invariant
            i <= v.len(),
            out@ == start + stmts_text(stmts_view(v@.take(i as int))),
        decreases v.len() - i,
    {
        write_stmt(&v[i], out);
        proof {
            assert(v@.take(i + 1) =~= v@.take(i as int).push(v@[i as int]));
            lemma_stmts_view_push(v@.take(i as int), v@[i as int]);
            lemma_stmts_text_push(stmts_view(v@.take(i as int)), stmt_view(v@[i as int]));
            assert(out@ =~= start + stmts_text(stmts_view(v@.take(i + 1))));
        }
        i = i + 1;
    }
    assert(v@.take(v.len() as int) =~= v@);
}

/// Appends the printed forms of the expressions, separated by `, `, to `out`.
pub fn write_list(v: &Vec<Expression>, out: &mut String)
    ensures
        final(out)@ == old(out)@ + list_text(exprs_view(v@)),
    decreases v,
{
    let ghost start = out@;
    let mut i: usize = 0;
    assert(out@ =~= start + list_text(exprs_view(v@.take(0))));
    while i < v.len()
        invariant
            i <= v.len(),
            out@ == start + list_text(exprs_view(v@.take(i as int))),
        decreases v.len() - i,
    {
        if i > 0 {
            push_str(out, ", ");
        }
        write_expr(&v[i], out);
        proof {
            assert(v@.take(i + 1) =~= v@.take(i as int).push(v@[i as int]));
            lemma_exprs_view_push(v@.take(i as int), v@[i as int]);
            lemma_list_text_push(exprs_view(v@.take(i as int)), expr_view(v@[i as int]));
            lemma_exprs_view_index(v@.take(i as int));
            assert(out@ =~= start + list_text(exprs_view(v@.take(i + 1))));
        }
        i = i + 1;
    }
    assert(v@.take(v.len() as int) =~= v@);
}

/// A copy of an expression.
pub fn clone_expr(e: &Expression) -> (res: Expression)
    ensures
        res@ == e@,
    decreases e,
{
    match e {
        Expression::Empty => Expression::Empty,
        Expression::Identifier(name) => Expression::Identifier(name.clone()),
        Expression::Int(n) => Expression::Int(*n),
        Expression::Prefix { operator, right } => Expression::Prefix {
            operator: *operator,
            right: Box::new(clone_expr(right)),
        },
        Expression::Infix { left, operator, right } => Expression::Infix {
            left: Box::new(clone_expr(left)),
            operator: *operator,
            right: Box::new(clone_expr(right)),
        },
        Expression::Bool(b) => Expression::Bool(*b),
        Expression::If { condition, consequence, alternative } => Expression::If {
            condition: Box::new(clone_expr(condition)),
            consequence: clone_stmts(consequence),
            alternative: match alternative {
                Some(statements) => Some(clone_stmts(statements)),
                None => None,
            },
        },
        Expression::Function { parameters, body } => Expression::Function {
            parameters: clone_exprs(parameters),
            body: clone_stmts(body),
        },
        Expression::FunctionCall { function, arguments } => Expression::FunctionCall {
            function: Box::new(clone_expr(function)),
            arguments: clone_exprs(arguments),
        },
    }
}

/// A copy of a statement.
pub fn clone_stmt(s: &Statement) -> (res: Statement)
    ensures
        res@ == s@,
    decreases s,
{
    match s {
        Statement::Let { name, value } => Statement::Let {
            name: name.clone(),
            value: clone_expr(value),
        },
        Statement::Return(value) => Statement::Return(clone_expr(value)),
        Statement::Expression(value) => Statement::Expression(clone_expr(value)),
        Statement::Block(statements) => Statement::Block(clone_stmts(statements)),
    }
}

/// A copy of a sequence of statements.
pub fn clone_stmts(v: &Vec<Statement>) -> (res: Vec<Statement>)
    ensures
        stmts_view(res@) == stmts_view(v@),
    decreases v,
{
    let mut res: Vec<Statement> = Vec::new();
    let mut i: usize = 0;
    assert(v@.take(0) =~= res@);
    while i < v.len()
        invariant
            i <= v.len(),
            stmts_view(res@) == stmts_view(v@.take(i as int)),
        decreases v.len() - i,
    {
        let copy = clone_stmt(&v[i]);
        proof {
            assert(v@.take(i + 1) =~= v@.take(i as int).push(v@[i as int]));
            lemma_stmts_view_push(v@.take(i as int), v@[i as int]);
            lemma_stmts_view_push(res@, copy);
        }
        res.push(copy);
        i = i + 1;
    }
    assert(v@.take(v.len() as int) =~= v@);
    res
}

/// A copy of a sequence of expressions.
pub fn clone_exprs(v: &Vec<Expression>) -> (res: Vec<Expression>)
    ensures
        exprs_view(res@) == exprs_view(v@),
    decreases v,
{
    let mut res: Vec<Expression> = Vec::new();
    let mut i: usize = 0;
    assert(v@.take(0) =~= res@);
    while i < v.len()
        invariant
            i <= v.len(),
            exprs_view(res@) == exprs_view(v@.take(i as int)),
        decreases v.len() - i,
    {
        let copy = clone_expr(&v[i]);
        proof {
            assert(v@.take(i + 1) =~= v@.take(i as int).push(v@[i as int]));
            lemma_exprs_view_push(v@.take(i as int), v@[i as int]);
            lemma_exprs_view_push(res@, copy);
        }
        res.push(copy);
        i = i + 1;
    }
    assert(v@.take(v.len() as int) =~= v@);
    res
}

impl Clone for Expression {
    fn clone(&self) -> (res: Expression)
        ensures
            res@ == self@,
    {
        clone_expr(self)
    }
}

impl Clone for Statement {
    fn clone(&self) -> (res: Statement)
        ensures
            res@ == self@,
    {
        clone_stmt(self)
    }
}

impl Clone for Program {
    fn clone(&self) -> (res: Program)
        ensures
            res@ == self@,
    {
        Program { statements: clone_stmts(&self.statements) }
    }
}

impl Expression {
    /// The printed form of the expression.
    pub fn to_string(&self) -> (text: String)
        ensures
            text@ == expr_text(self@),
    {
        let mut text = String::new();
        write_expr(self, &mut text);
        assert(text@ =~= expr_text(self@));
        text
    }
}

impl Statement {
    /// The printed form of the statement.
    pub fn to_string(&self) -> (text: String)
        ensures
            text@ == stmt_text(self@),
    {
        let mut text = String::new();
        write_stmt(self, &mut text);
        assert(text@ =~= stmt_text(self@));
        text
    }
}

impl Program {
    /// The printed form of the program: that of its statements, one behind
    /// the other.
    pub fn to_string(&self) -> (text: String)
        ensures
            text@ == stmts_text(self@),
    {
        let mut text = String::new();
        write_stmts(&self.statements, &mut text);
        assert(text@ =~= stmts_text(self@));
        text
    }
}

} // verus!
