//! What the printer writes, the parser reads back: for expressions made of
//! identifiers, literals, operators and calls, parsing the tokens of the
//! printed form gives the expression again.

use vstd::prelude::*;
use crate::ast::{infix_operator_of, ExprView, InfixOperator, PrefixOperator, StmtView};
use crate::parser::{
    lemma_infix_loop_ends, precedence_of, ParserErrorView, ParserModel, Precedence,
};
use crate::token::TokenView;

verus! {

/// The tokens `rest` with the token `t` before them.
pub open spec fn cons(t: TokenView, rest: Seq<TokenView>) -> Seq<TokenView> {
    seq![t] + rest
}

/// The parser state with the given tokens to come and errors recorded.
pub open spec fn model(tokens: Seq<TokenView>, errors: Seq<ParserErrorView>) -> ParserModel {
    ParserModel { tokens, errors }
}

/// The token of a prefix operator.
pub open spec fn prefix_token(operator: PrefixOperator) -> TokenView {
    match operator {
        PrefixOperator::Bang => TokenView::Bang,
        PrefixOperator::Minus => TokenView::Minus,
    }
}

/// The token of an infix operator.
pub open spec fn infix_token(operator: InfixOperator) -> TokenView {
    match operator {
        InfixOperator::Plus => TokenView::Plus,
        InfixOperator::Minus => TokenView::Minus,
        InfixOperator::Mult => TokenView::Asterisk,
        InfixOperator::Division => TokenView::Slash,
        InfixOperator::GreaterThan => TokenView::GreaterThan,
        InfixOperator::LessThan => TokenView::LessThan,
        InfixOperator::Equal => TokenView::Eq,
        InfixOperator::NotEqual => TokenView::NotEq,
    }
}

/// An expression made of identifiers, integers that are not negative,
/// booleans, prefix and infix operators and calls.
pub open spec fn plain(e: ExprView) -> bool
    decreases e,
{
    match e {
        ExprView::Identifier(_) => true,
        ExprView::Int(n) => n >= 0,
        ExprView::Bool(_) => true,
        ExprView::Prefix { operator, right } => plain(*right),
        ExprView::Infix { left, operator, right } => plain(*left) && plain(*right),
        ExprView::FunctionCall { function, arguments } => plain(*function) && all_plain(
            arguments,
        ),
        _ => false,
    }
}

/// Whether every expression of a sequence is plain.
pub open spec fn all_plain(v: Seq<ExprView>) -> bool
    decreases v,
{
    v.len() == 0 || (plain(v.first()) && all_plain(v.drop_first()))
}

/// The tokens of the printed form of a plain expression, followed by `rest`.
/// A prefix or infix expression is printed in parentheses, a call as the
/// function and the arguments, separated by commas, in parentheses.
pub open spec fn tokens_then(e: ExprView, rest: Seq<TokenView>) -> Seq<TokenView>
    decreases e,
{
    match e {
        ExprView::Identifier(name) => cons(TokenView::Ident(name), rest),
        ExprView::Int(n) => cons(TokenView::Int(n), rest),
        ExprView::Bool(b) => cons(
            if b {
                TokenView::True
            } else {
                TokenView::False
            },
            rest,
        ),
        ExprView::Prefix { operator, right } => cons(
            TokenView::LParen,
            cons(prefix_token(operator), tokens_then(*right, cons(TokenView::RParen, rest))),
        ),
        ExprView::Infix { left, operator, right } => cons(
            TokenView::LParen,
            tokens_then(
                *left,
                cons(infix_token(operator), tokens_then(*right, cons(TokenView::RParen, rest))),
            ),
        ),
        ExprView::FunctionCall { function, arguments } => tokens_then(
            *function,
            cons(TokenView::LParen, arguments_then(arguments, cons(TokenView::RParen, rest))),
        ),
        _ => rest,
    }
}

/// The tokens of the printed forms of arguments, separated by commas,
/// followed by `rest`.
pub open spec fn arguments_then(v: Seq<ExprView>, rest: Seq<TokenView>) -> Seq<TokenView>
    decreases v,
{
    if v.len() == 0 {
        rest
    } else {
        tokens_then(v.first(), more_arguments_then(v.drop_first(), rest))
    }
}

/// The tokens of the printed forms of arguments, a comma before each,
/// followed by `rest`.
pub open spec fn more_arguments_then(v: Seq<ExprView>, rest: Seq<TokenView>) -> Seq<TokenView>
    decreases v,
{
    if v.len() == 0 {
        rest
    } else {
        cons(TokenView::Comma, tokens_then(v.first(), more_arguments_then(v.drop_first(), rest)))
    }
}

/// The last token of the printed form of a plain expression, followed by
/// `rest`: where the parser stands when it has read the expression.
pub open spec fn end_then(e: ExprView, rest: Seq<TokenView>) -> Seq<TokenView> {
    match e {
        ExprView::Identifier(_) | ExprView::Int(_) | ExprView::Bool(_) => tokens_then(e, rest),
        _ => cons(TokenView::RParen, rest),
    }
}

/// Whether the tokens begin with one that ends an expression parsed at
/// `precedence`, or are empty.
pub open spec fn stops(rest: Seq<TokenView>, precedence: Precedence) -> bool {
    rest.len() == 0 || rest[0] is Semicolon || precedence_of(rest[0]).rank() <= precedence.rank()
}

/// The first two tokens of a state whose tokens begin with `t`, and the
/// state behind `t`.
pub proof fn lemma_cons(t: TokenView, rest: Seq<TokenView>, errors: Seq<ParserErrorView>)
    ensures
        cons(t, rest).len() == rest.len() + 1,
        cons(t, rest)[0] == t,
        !(t is Eof) ==> model(cons(t, rest), errors).curr() == t,
        model(cons(t, rest), errors).peek() == model(rest, errors).curr(),
        model(cons(t, rest), errors).advance() == model(rest, errors),
        rest.len() > 0 ==> model(rest, errors).curr() == rest[0],
        rest.len() == 0 ==> model(rest, errors).curr() is Eof,
{
    assert(cons(t, rest).drop_first() =~= rest);
}

/// The printed form of a plain expression has at least one token, and the
/// parser stands at one token before what follows when it has read it.
pub proof fn lemma_tokens_then_len(e: ExprView, rest: Seq<TokenView>)
    requires
        plain(e),
    ensures
        tokens_then(e, rest).len() > rest.len(),
        end_then(e, rest).len() == rest.len() + 1,
        end_then(e, rest).len() <= tokens_then(e, rest).len(),
        end_then(e, rest).drop_first() == rest,
        !(end_then(e, rest)[0] is Eof),
        !(tokens_then(e, rest)[0] is Eof),
    decreases e,
{
    assert(end_then(e, rest).drop_first() =~= rest);
    match e {
        ExprView::Prefix { operator, right } => {
            lemma_tokens_then_len(*right, cons(TokenView::RParen, rest));
        },
        ExprView::Infix { left, operator, right } => {
            lemma_tokens_then_len(*right, cons(TokenView::RParen, rest));
            lemma_tokens_then_len(
                *left,
                cons(infix_token(operator), tokens_then(*right, cons(TokenView::RParen, rest))),
            );
        },
        ExprView::FunctionCall { function, arguments } => {
            lemma_arguments_then_len(arguments, cons(TokenView::RParen, rest));
            lemma_tokens_then_len(
                *function,
                cons(TokenView::LParen, arguments_then(arguments, cons(TokenView::RParen, rest))),
            );
        },
        _ => {},
    }
}

/// The printed form of arguments adds no fewer tokens than none.
pub proof fn lemma_arguments_then_len(v: Seq<ExprView>, rest: Seq<TokenView>)
    requires
        all_plain(v),
    ensures
        arguments_then(v, rest).len() >= rest.len(),
        more_arguments_then(v, rest).len() >= rest.len(),
        rest.len() > 0 ==> more_arguments_then(v, rest).len() > 0 && (more_arguments_then(
            v,
            rest,
        )[0] == rest[0] || more_arguments_then(v, rest)[0] is Comma),
    decreases v,
{
    if v.len() > 0 {
        lemma_arguments_then_len(v.drop_first(), rest);
        lemma_tokens_then_len(v.first(), more_arguments_then(v.drop_first(), rest));
    }
}

/// A plain expression that is followed by a token that ends it parses to
/// itself. Parsing the tokens of its printed form, at any precedence below
/// that of a call, gives the expression, and the parser then stands at its
/// last token.
pub proof fn lemma_printed_expression_parses(
    e: ExprView,
    rest: Seq<TokenView>,
    errors: Seq<ParserErrorView>,
    precedence: Precedence,
)
    requires
        plain(e),
        precedence.rank() < Precedence::Call.rank(),
        stops(rest, precedence),
    ensures
        model(tokens_then(e, rest), errors).parse_expression(precedence) == (
            Ok::<ExprView, ParserErrorView>(e),
            model(end_then(e, rest), errors),
        ),
    decreases e, 2nat,
{
    lemma_printed_expression_is_read(e, rest, errors, precedence);
    lemma_tokens_then_len(e, rest);
    lemma_cons(end_then(e, rest)[0], rest, errors);
    assert(end_then(e, rest) =~= cons(end_then(e, rest)[0], rest));
    lemma_infix_loop_ends(model(end_then(e, rest), errors), precedence, e);
}

/// Parsing the tokens of the printed form of a plain expression, at any
/// precedence below that of a call, reads the whole expression and goes on
/// with what follows it.
pub proof fn lemma_printed_expression_is_read(
    e: ExprView,
    rest: Seq<TokenView>,
    errors: Seq<ParserErrorView>,
    precedence: Precedence,
)
    requires
        plain(e),
        precedence.rank() < Precedence::Call.rank(),
    ensures
        model(tokens_then(e, rest), errors).parse_expression(precedence) == model(
            end_then(e, rest),
            errors,
        ).parse_infix_loop(precedence, e),
    decreases e, 1nat,
{
    let start = model(tokens_then(e, rest), errors);
    let closing = cons(TokenView::RParen, rest);
    lemma_tokens_then_len(e, rest);
    match e {
        ExprView::Identifier(name) => {
            lemma_cons(TokenView::Ident(name), rest, errors);
        },
        ExprView::Int(n) => {
            lemma_cons(TokenView::Int(n), rest, errors);
        },
        ExprView::Bool(b) => {
            lemma_cons(TokenView::True, rest, errors);
            lemma_cons(TokenView::False, rest, errors);
        },
        ExprView::Prefix { operator, right } => {
            let inner = tokens_then(*right, closing);
            let at_operator = cons(prefix_token(operator), inner);
            lemma_cons(TokenView::LParen, at_operator, errors);
            lemma_cons(prefix_token(operator), inner, errors);
            lemma_cons(TokenView::RParen, rest, errors);
            lemma_tokens_then_len(*right, closing);
            lemma_printed_expression_parses(*right, closing, errors, Precedence::Prefix);
            let at_end = model(end_then(*right, closing), errors);
            lemma_cons(end_then(*right, closing)[0], closing, errors);
            assert(end_then(*right, closing) =~= cons(end_then(*right, closing)[0], closing));
            assert(model(at_operator, errors).parse_expr_prefix() == (
                Ok::<ExprView, ParserErrorView>(e),
                at_end,
            ));
            assert(model(at_operator, errors).parse_prefix() == (
                Ok::<ExprView, ParserErrorView>(e),
                at_end,
            ));
            lemma_infix_loop_ends(at_end, Precedence::Lowest, e);
            assert(model(at_operator, errors).parse_expression(Precedence::Lowest) == (
                Ok::<ExprView, ParserErrorView>(e),
                at_end,
            ));
            assert(start.parse_expr_grouped() == (
                Ok::<ExprView, ParserErrorView>(e),
                model(closing, errors),
            ));
            assert(start.parse_prefix() == (
                Ok::<ExprView, ParserErrorView>(e),
                model(closing, errors),
            ));
        },
        ExprView::Infix { left, operator, right } => {
            let right_tokens = tokens_then(*right, closing);
            let at_operator = cons(infix_token(operator), right_tokens);
            let inner = tokens_then(*left, at_operator);
            lemma_cons(TokenView::LParen, inner, errors);
            lemma_cons(infix_token(operator), right_tokens, errors);
            lemma_cons(TokenView::RParen, rest, errors);
            lemma_tokens_then_len(*left, at_operator);
            lemma_tokens_then_len(*right, closing);
            lemma_printed_expression_is_read(*left, at_operator, errors, Precedence::Lowest);
            let after_left = model(end_then(*left, at_operator), errors);
            lemma_cons(end_then(*left, at_operator)[0], at_operator, errors);
            assert(end_then(*left, at_operator) =~= cons(
                end_then(*left, at_operator)[0],
                at_operator,
            ));
            lemma_printed_expression_parses(
                *right,
                closing,
                errors,
                precedence_of(infix_token(operator)),
            );
            let at_end = model(end_then(*right, closing), errors);
            lemma_cons(end_then(*right, closing)[0], closing, errors);
            assert(end_then(*right, closing) =~= cons(end_then(*right, closing)[0], closing));
            assert(infix_operator_of(infix_token(operator)) == Some(operator));
            assert(model(at_operator, errors).parse_expr_infix(*left) == (
                Ok::<ExprView, ParserErrorView>(e),
                at_end,
            ));
            lemma_infix_loop_ends(at_end, Precedence::Lowest, e);
            assert(after_left.parse_infix_loop(Precedence::Lowest, *left) == (
                Ok::<ExprView, ParserErrorView>(e),
                at_end,
            ));
            assert(model(inner, errors).parse_expression(Precedence::Lowest) == (
                Ok::<ExprView, ParserErrorView>(e),
                at_end,
            ));
            assert(start.parse_expr_grouped() == (
                Ok::<ExprView, ParserErrorView>(e),
                model(closing, errors),
            ));
            assert(start.parse_prefix() == (
                Ok::<ExprView, ParserErrorView>(e),
                model(closing, errors),
            ));
        },
        ExprView::FunctionCall { function, arguments } => {
            let argument_tokens = arguments_then(arguments, closing);
            let at_parenthesis = cons(TokenView::LParen, argument_tokens);
            lemma_cons(TokenView::LParen, argument_tokens, errors);
            lemma_cons(TokenView::RParen, rest, errors);
            lemma_tokens_then_len(*function, at_parenthesis);
            lemma_arguments_then_len(arguments, closing);
            lemma_printed_expression_is_read(*function, at_parenthesis, errors, precedence);
            let after_function = model(end_then(*function, at_parenthesis), errors);
            lemma_cons(end_then(*function, at_parenthesis)[0], at_parenthesis, errors);
            assert(end_then(*function, at_parenthesis) =~= cons(
                end_then(*function, at_parenthesis)[0],
                at_parenthesis,
            ));
            lemma_printed_arguments_parse(arguments, rest, errors);
            assert(model(at_parenthesis, errors).parse_expr_call(*function) == (
                Ok::<ExprView, ParserErrorView>(e),
                model(closing, errors),
            ));
            assert(after_function.parse_infix_loop(precedence, *function) == model(
                closing,
                errors,
            ).parse_infix_loop(precedence, e));
        },
        _ => {},
    }
}

/// Parsing the tokens of the printed form of plain arguments, from the
/// opening parenthesis on, gives the arguments, and the parser then stands
/// at the closing parenthesis.
pub proof fn lemma_printed_arguments_parse(
    arguments: Seq<ExprView>,
    rest: Seq<TokenView>,
    errors: Seq<ParserErrorView>,
)
    requires
        all_plain(arguments),
    ensures
        model(
            cons(TokenView::LParen, arguments_then(arguments, cons(TokenView::RParen, rest))),
            errors,
        ).parse_call_arguments() == (
            Ok::<Seq<ExprView>, ParserErrorView>(arguments),
            model(cons(TokenView::RParen, rest), errors),
        ),
    decreases arguments, 1nat,
{
    let closing = cons(TokenView::RParen, rest);
    let argument_tokens = arguments_then(arguments, closing);
    lemma_cons(TokenView::LParen, argument_tokens, errors);
    lemma_cons(TokenView::RParen, rest, errors);
    if arguments.len() == 0 {
        assert(arguments =~= Seq::<ExprView>::empty());
    } else {
        let first = arguments.first();
        let more = more_arguments_then(arguments.drop_first(), closing);
        lemma_arguments_then_len(arguments.drop_first(), closing);
        lemma_tokens_then_len(first, more);
        assert(!(argument_tokens[0] is RParen)) by {
            lemma_first_token_opens(first, more);
        }
        lemma_printed_expression_parses(first, more, errors, Precedence::Lowest);
        lemma_more_printed_arguments_parse(
            arguments.drop_first(),
            end_then(first, more)[0],
            seq![first],
            rest,
            errors,
        );
        assert(end_then(first, more) =~= cons(end_then(first, more)[0], more));
        assert(seq![first] + arguments.drop_first() =~= arguments);
    }
}

/// The printed form of a plain expression does not begin with a closing
/// parenthesis nor with a comma.
pub proof fn lemma_first_token_opens(e: ExprView, rest: Seq<TokenView>)
    requires
        plain(e),
    ensures
        tokens_then(e, rest).len() > 0,
        !(tokens_then(e, rest)[0] is RParen),
        !(tokens_then(e, rest)[0] is Comma),
    decreases e,
{
    match e {
        ExprView::FunctionCall { function, arguments } => {
            lemma_first_token_opens(
                *function,
                cons(
                    TokenView::LParen,
                    arguments_then(arguments, cons(TokenView::RParen, rest)),
                ),
            );
        },
        _ => {},
    }
}

/// Parsing the tokens of the printed form of the arguments behind the
/// first gives them behind the arguments read before, and the parser then
/// stands at the closing parenthesis.
pub proof fn lemma_more_printed_arguments_parse(
    arguments: Seq<ExprView>,
    at: TokenView,
    before: Seq<ExprView>,
    rest: Seq<TokenView>,
    errors: Seq<ParserErrorView>,
)
    requires
        all_plain(arguments),
    ensures
        model(
            cons(at, more_arguments_then(arguments, cons(TokenView::RParen, rest))),
            errors,
        ).parse_arguments_loop(before) == (
            Ok::<Seq<ExprView>, ParserErrorView>(before + arguments),
            model(cons(TokenView::RParen, rest), errors),
        ),
    decreases arguments, 0nat,
{
    let closing = cons(TokenView::RParen, rest);
    let following = more_arguments_then(arguments, closing);
    let start = model(cons(at, following), errors);
    lemma_cons(at, following, errors);
    lemma_cons(TokenView::RParen, rest, errors);
    if arguments.len() == 0 {
        assert(before + arguments =~= before);
    } else {
        let first = arguments.first();
        let more = more_arguments_then(arguments.drop_first(), closing);
        let first_tokens = tokens_then(first, more);
        lemma_cons(TokenView::Comma, first_tokens, errors);
        lemma_arguments_then_len(arguments.drop_first(), closing);
        lemma_tokens_then_len(first, more);
        lemma_printed_expression_parses(first, more, errors, Precedence::Lowest);
        lemma_more_printed_arguments_parse(
            arguments.drop_first(),
            end_then(first, more)[0],
            before.push(first),
            rest,
            errors,
        );
        assert(end_then(first, more) =~= cons(end_then(first, more)[0], more));
        assert(before.push(first) + arguments.drop_first() =~= before + arguments);
        assert(start.advance().advance() == model(first_tokens, errors));
    }
}

/// A statement that is no block and whose expression is plain.
pub open spec fn plain_statement(s: StmtView) -> bool {
    match s {
        StmtView::Let { name, value } => plain(value),
        StmtView::Return(value) => plain(value),
        StmtView::Expression(value) => plain(value),
        StmtView::Block(_) => false,
    }
}

/// The tokens of the printed form of a plain statement, followed by `rest`.
/// A `let` and a `return` are printed with a semicolon at the end, an
/// expression statement without one.
pub open spec fn statement_tokens_then(s: StmtView, rest: Seq<TokenView>) -> Seq<TokenView> {
    match s {
        StmtView::Let { name, value } => cons(
            TokenView::Let,
            cons(
                TokenView::Ident(name),
                cons(TokenView::Assign, tokens_then(value, cons(TokenView::Semicolon, rest))),
            ),
        ),
        StmtView::Return(value) => cons(
            TokenView::Return,
            tokens_then(value, cons(TokenView::Semicolon, rest)),
        ),
        StmtView::Expression(value) => tokens_then(value, rest),
        StmtView::Block(_) => rest,
    }
}

/// The tokens of the printed form of plain statements, one behind the other.
pub open spec fn program_tokens(v: Seq<StmtView>) -> Seq<TokenView>
    decreases v.len(),
{
    if v.len() == 0 {
        Seq::empty()
    } else {
        statement_tokens_then(v.first(), program_tokens(v.drop_first()))
    }
}

/// Statements whose printed form can be told apart again: each is plain,
/// and no expression statement is followed by a statement that begins with
/// a parenthesis, which would read as a call of the expression.
pub open spec fn separable(v: Seq<StmtView>) -> bool
    decreases v.len(),
{
    v.len() == 0 || {
        &&& plain_statement(v.first())
        &&& separable(v.drop_first())
        &&& v.first() is Expression && v.len() > 1 ==> !(program_tokens(v.drop_first())[0]
            is LParen)
    }
}

/// The printed form of a plain expression begins with an identifier, a
/// literal or an opening parenthesis.
pub proof fn lemma_first_token(e: ExprView, rest: Seq<TokenView>)
    requires
        plain(e),
    ensures
        tokens_then(e, rest).len() > 0,
        ({
            let t = tokens_then(e, rest)[0];
            t is Ident || t is Int || t is True || t is False || t is LParen
        }),
    decreases e,
{
    match e {
        ExprView::FunctionCall { function, arguments } => {
            lemma_first_token(
                *function,
                cons(
                    TokenView::LParen,
                    arguments_then(arguments, cons(TokenView::RParen, rest)),
                ),
            );
        },
        _ => {},
    }
}

/// The printed form of separable statements, where there are any, begins
/// with `let`, `return`, an identifier, a literal or an opening parenthesis.
pub proof fn lemma_first_token_of_program(v: Seq<StmtView>)
    requires
        separable(v),
        v.len() > 0,
    ensures
        program_tokens(v).len() > 0,
        ({
            let t = program_tokens(v)[0];
            t is Let || t is Return || t is Ident || t is Int || t is True || t is False
                || t is LParen
        }),
{
    match v.first() {
        StmtView::Expression(value) => {
            lemma_first_token(value, program_tokens(v.drop_first()));
        },
        _ => {},
    }
}

/// Parsing the tokens of the printed form of a statement, where the
/// statements with it are separable, gives the statement, and the parser
/// then stands at its last token.
pub proof fn lemma_printed_statement_parses(v: Seq<StmtView>, errors: Seq<ParserErrorView>)
    requires
        separable(v),
        v.len() > 0,
    ensures
        program_tokens(v).len() > program_tokens(v.drop_first()).len(),
        model(program_tokens(v), errors).parse_statement().0 == Ok::<StmtView, ParserErrorView>(
            v.first(),
        ),
        model(program_tokens(v), errors).parse_statement().1.tokens.len() == program_tokens(
            v.drop_first(),
        ).len() + 1,
        model(program_tokens(v), errors).parse_statement().1.advance() == model(
            program_tokens(v.drop_first()),
            errors,
        ),
{
    let rest = program_tokens(v.drop_first());
    let closing = cons(TokenView::Semicolon, rest);
    let start = model(program_tokens(v), errors);
    lemma_cons(TokenView::Semicolon, rest, errors);
    match v.first() {
        StmtView::Let { name, value } => {
            let value_tokens = tokens_then(value, closing);
            let at_assign = cons(TokenView::Assign, value_tokens);
            let at_name = cons(TokenView::Ident(name), at_assign);
            lemma_cons(TokenView::Let, at_name, errors);
            lemma_cons(TokenView::Ident(name), at_assign, errors);
            lemma_cons(TokenView::Assign, value_tokens, errors);
            lemma_tokens_then_len(value, closing);
            lemma_printed_expression_parses(value, closing, errors, Precedence::Lowest);
            lemma_cons(end_then(value, closing)[0], closing, errors);
            assert(end_then(value, closing) =~= cons(end_then(value, closing)[0], closing));
            assert(model(at_name, errors).expect_peek(TokenView::Assign) == (
                Ok::<TokenView, ParserErrorView>(TokenView::Assign),
                model(at_assign, errors),
            ));
            assert(start.parse_statement_let() == (
                Ok::<StmtView, ParserErrorView>(v.first()),
                model(closing, errors),
            ));
        },
        StmtView::Return(value) => {
            let value_tokens = tokens_then(value, closing);
            lemma_cons(TokenView::Return, value_tokens, errors);
            lemma_tokens_then_len(value, closing);
            lemma_printed_expression_parses(value, closing, errors, Precedence::Lowest);
            lemma_cons(end_then(value, closing)[0], closing, errors);
            assert(end_then(value, closing) =~= cons(end_then(value, closing)[0], closing));
            assert(start.parse_statement_ret() == (
                Ok::<StmtView, ParserErrorView>(v.first()),
                model(closing, errors),
            ));
        },
        StmtView::Expression(value) => {
            lemma_first_token(value, rest);
            lemma_tokens_then_len(value, rest);
            if v.len() > 1 {
                lemma_first_token_of_program(v.drop_first());
            } else {
                assert(v.drop_first().len() == 0);
            }
            assert(stops(rest, Precedence::Lowest));
            lemma_printed_expression_parses(value, rest, errors, Precedence::Lowest);
            lemma_cons(end_then(value, rest)[0], rest, errors);
            assert(end_then(value, rest) =~= cons(end_then(value, rest)[0], rest));
            assert(start.curr() == tokens_then(value, rest)[0]);
            assert(start.parse_statement_expr() == (
                Ok::<StmtView, ParserErrorView>(v.first()),
                model(end_then(value, rest), errors),
            ));
        },
        StmtView::Block(_) => {},
    }
}

/// Parsing the tokens of the printed form of separable statements gives
/// them behind the statements read before, records no error and reads all
/// the tokens.
pub proof fn lemma_printed_statements_parse(
    v: Seq<StmtView>,
    before: Seq<StmtView>,
    errors: Seq<ParserErrorView>,
)
    requires
        separable(v),
    ensures
        model(program_tokens(v), errors).parse_program_loop(before) == (
            before + v,
            model(Seq::empty(), errors),
        ),
    decreases v.len(),
{
    if v.len() == 0 {
        assert(before + v =~= before);
    } else {
        lemma_printed_statement_parses(v, errors);
        lemma_first_token_of_program(v);
        lemma_printed_statements_parse(v.drop_first(), before.push(v.first()), errors);
        assert(before.push(v.first()) + v.drop_first() =~= before + v);
    }
}

/// What is printed parses back, token by token. Parsing the tokens of the
/// printed form of separable statements gives the statements again and
/// records no error.
pub proof fn lemma_printed_program_parses(v: Seq<StmtView>)
    requires
        separable(v),
    ensures
        model(program_tokens(v), Seq::empty()).parse_program() == (
            v,
            model(Seq::empty(), Seq::empty()),
        ),
{
    lemma_printed_statements_parse(v, Seq::empty(), Seq::empty());
    assert(Seq::<StmtView>::empty() + v =~= v);
}

} // verus!
