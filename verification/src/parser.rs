//! The parser: a Pratt parser that turns tokens into a program.

use vstd::prelude::*;
use crate::ast::{
    exprs_view, infix_operator_of, lemma_exprs_view_push, lemma_stmts_view_push,
    prefix_operator_of, stmts_view, ExprView, Expression, InfixOperator, PrefixOperator, Program,
    Statement, StmtView,
};
use crate::lexer::Lexer;
use crate::token::{token_text, Token, TokenView};

verus! {

/// What can go wrong while parsing.
#[derive(Debug)]
pub enum ParserError {
    UnexpectedToken { expected: Token, got: Token },
    InvalidPrefixOperator { operator: Token },
    InvalidInfixOperator { operator: Token },
    MissRightParenthesis { operator: Token },
}

/// The mathematical value of a parser error.
pub enum ParserErrorView {
    UnexpectedToken { expected: TokenView, got: TokenView },
    InvalidPrefixOperator { operator: TokenView },
    InvalidInfixOperator { operator: TokenView },
    MissRightParenthesis { operator: TokenView },
}

impl View for ParserError {
    type V = ParserErrorView;

    open spec fn view(&self) -> ParserErrorView {
        match self {
            ParserError::UnexpectedToken { expected, got } => ParserErrorView::UnexpectedToken {
                expected: expected@,
                got: got@,
            },
            ParserError::InvalidPrefixOperator { operator } => ParserErrorView::InvalidPrefixOperator {
                operator: operator@,
            },
            ParserError::InvalidInfixOperator { operator } => ParserErrorView::InvalidInfixOperator {
                operator: operator@,
            },
            ParserError::MissRightParenthesis { operator } => ParserErrorView::MissRightParenthesis {
                operator: operator@,
            },
        }
    }
}

impl Clone for ParserError {
    fn clone(&self) -> (res: ParserError)
        ensures
            res@ == self@,
    {
        match self {
            ParserError::UnexpectedToken { expected, got } => ParserError::UnexpectedToken {
                expected: expected.clone(),
                got: got.clone(),
            },
            ParserError::InvalidPrefixOperator { operator } => ParserError::InvalidPrefixOperator {
                operator: operator.clone(),
            },
            ParserError::InvalidInfixOperator { operator } => ParserError::InvalidInfixOperator {
                operator: operator.clone(),
            },
            ParserError::MissRightParenthesis { operator } => ParserError::MissRightParenthesis {
                operator: operator.clone(),
            },
        }
    }
}

/// How tightly an operator binds, from loosest to tightest.
#[derive(Clone, Copy, Debug, PartialEq, Eq, Structural)]
pub enum Precedence {
    Lowest,
    Equals,
    LessGreater,
    Sum,
    Product,
    Prefix,
    Call,
}

/// The precedence that a token has as an infix operator; `Lowest` for a
/// token that is none.
pub open spec fn precedence_of(t: TokenView) -> Precedence {
    match t {
        TokenView::Eq | TokenView::NotEq => Precedence::Equals,
        TokenView::LessThan | TokenView::GreaterThan => Precedence::LessGreater,
        TokenView::Plus | TokenView::Minus => Precedence::Sum,
        TokenView::Slash | TokenView::Asterisk => Precedence::Product,
        TokenView::LParen => Precedence::Call,
        _ => Precedence::Lowest,
    }
}

impl Precedence {
    /// The number of the level, from 1 for `Lowest` to 7 for `Call`.
    pub open spec fn rank(self) -> int {
        match self {
            Precedence::Lowest => 1,
            Precedence::Equals => 2,
            Precedence::LessGreater => 3,
            Precedence::Sum => 4,
            Precedence::Product => 5,
            Precedence::Prefix => 6,
            Precedence::Call => 7,
        }
    }

    /// The number of the level, from 1 for `Lowest` to 7 for `Call`.
    pub fn level(&self) -> (n: u8)
        ensures
            n == self.rank(),
    {
        match self {
            Precedence::Lowest => 1,
            Precedence::Equals => 2,
            Precedence::LessGreater => 3,
            Precedence::Sum => 4,
            Precedence::Product => 5,
            Precedence::Prefix => 6,
            Precedence::Call => 7,
        }
    }

    /// The precedence that a token has as an infix operator.
    pub fn from(value: &Token) -> (precedence: Precedence)
        ensures
            precedence == precedence_of(value@),
    {
        match value {
            Token::Eq | Token::NotEq => Precedence::Equals,
            Token::LessThan | Token::GreaterThan => Precedence::LessGreater,
            Token::Plus | Token::Minus => Precedence::Sum,
            Token::Slash | Token::Asterisk => Precedence::Product,
            Token::LParen => Precedence::Call,
            _ => Precedence::Lowest,
        }
    }
}

/// The state of a parser as a mathematical value: the tokens that are still
/// to be read, the final `Eof` left out, and the errors recorded so far.
pub struct ParserModel {
    pub tokens: Seq<TokenView>,
    pub errors: Seq<ParserErrorView>,
}

impl ParserModel {
    /// The token under examination: `Eof` when no token is left.
    pub open spec fn curr(self) -> TokenView {
        if self.tokens.len() > 0 {
            self.tokens[0]
        } else {
            TokenView::Eof
        }
    }

    /// The token behind the one under examination.
    pub open spec fn peek(self) -> TokenView {
        if self.tokens.len() > 1 {
            self.tokens[1]
        } else {
            TokenView::Eof
        }
    }

    /// The state after moving on by one token.
    pub open spec fn advance(self) -> ParserModel {
        if self.tokens.len() > 0 {
            ParserModel { tokens: self.tokens.drop_first(), errors: self.errors }
        } else {
            self
        }
    }

    /// The state with one more error recorded.
    pub open spec fn record(self, error: ParserErrorView) -> ParserModel {
        ParserModel { tokens: self.tokens, errors: self.errors.push(error) }
    }

    /// The state itself, as long as no more than `bound` tokens are left in
    /// it. Parsing never adds tokens, so this changes nothing where it is
    /// applied; it makes evident that the parsing functions terminate.
    pub open spec fn within(self, bound: nat) -> ParserModel {
        if self.tokens.len() <= bound {
            self
        } else {
            ParserModel { tokens: Seq::empty(), errors: self.errors }
        }
    }

    /// The state after moving past a semicolon, if one follows.
    pub open spec fn skip_semicolon(self) -> ParserModel {
        if self.peek() is Semicolon {
            self.advance()
        } else {
            self
        }
    }

    /// Moves on if the next token is `expected`; otherwise stays and fails
    /// with the token under examination.
    pub open spec fn expect_peek(self, expected: TokenView) -> (
        Result<TokenView, ParserErrorView>,
        ParserModel,
    ) {
        if self.peek() == expected {
            (Ok(expected), self.advance())
        } else {
            (Err(ParserErrorView::UnexpectedToken { expected, got: self.curr() }), self)
        }
    }

    /// Parses an expression whose operators all bind tighter than `precedence`.
    pub open spec fn parse_expression(self, precedence: Precedence) -> (
        Result<ExprView, ParserErrorView>,
        ParserModel,
    )
        decreases self.tokens.len(), 2nat,
    {
        let (prefix, m) = self.parse_prefix();
        match prefix {
            Err(e) => (Err(e), m),
            Ok(left) => m.within(self.tokens.len()).parse_infix_loop(precedence, left),
        }
    }

    /// Parses what the token under examination begins: a literal, an
    /// identifier, a prefix expression, a group, a conditional or a function.
    pub open spec fn parse_prefix(self) -> (Result<ExprView, ParserErrorView>, ParserModel)
        decreases self.tokens.len(), 1nat,
    {
        match self.curr() {
            TokenView::Ident(name) => (Ok(ExprView::Identifier(name)), self),
            TokenView::Int(n) => (Ok(ExprView::Int(n)), self),
            TokenView::Bang | TokenView::Minus => self.parse_expr_prefix(),
            TokenView::True => (Ok(ExprView::Bool(true)), self),
            TokenView::False => (Ok(ExprView::Bool(false)), self),
            TokenView::LParen => self.parse_expr_grouped(),
            TokenView::If => self.parse_expr_if(),
            TokenView::Function => self.parse_expr_function(),
            _ => (Err(ParserErrorView::InvalidPrefixOperator { operator: self.curr() }), self),
        }
    }

    /// Extends `left` by the infix operators and calls that follow, as long
    /// as they bind tighter than `precedence` and no semicolon comes first.
    pub open spec fn parse_infix_loop(self, precedence: Precedence, left: ExprView) -> (
        Result<ExprView, ParserErrorView>,
        ParserModel,
    )
        decreases self.tokens.len(), 1nat,
    {
        if !(self.peek() is Semicolon) && precedence.rank() < precedence_of(self.peek()).rank() {
            let m = self.advance();
            if infix_operator_of(m.curr()) is Some {
                let (extended, m2) = m.parse_expr_infix(left);
                match extended {
                    Err(e) => (Err(e), m2),
                    Ok(e) => m2.within(m.tokens.len()).parse_infix_loop(precedence, e),
                }
            } else if m.curr() is LParen {
                let (extended, m2) = m.parse_expr_call(left);
                match extended {
                    Err(e) => (Err(e), m2),
                    Ok(e) => m2.within(m.tokens.len()).parse_infix_loop(precedence, e),
                }
            } else {
                (Ok(left), m)
            }
        } else {
            (Ok(left), self)
        }
    }

    /// Parses a prefix operator and its operand.
    pub open spec fn parse_expr_prefix(self) -> (Result<ExprView, ParserErrorView>, ParserModel)
        decreases self.tokens.len(), 0nat,
    {
        match prefix_operator_of(self.curr()) {
            None => (
                Err(ParserErrorView::InvalidPrefixOperator { operator: self.curr() }),
                self,
            ),
            Some(operator) => {
                let (right, m) = self.advance().parse_expression(Precedence::Prefix);
                match right {
                    Err(e) => (Err(e), m),
                    Ok(right) => (Ok(ExprView::Prefix { operator, right: Box::new(right) }), m),
                }
            },
        }
    }

    /// Parses an operator and its right operand, with `left` as the left one.
    pub open spec fn parse_expr_infix(self, left: ExprView) -> (
        Result<ExprView, ParserErrorView>,
        ParserModel,
    )
        decreases self.tokens.len(), 3nat,
    {
        match infix_operator_of(self.curr()) {
            None => (Err(ParserErrorView::InvalidInfixOperator { operator: self.curr() }), self),
            Some(operator) => {
                let (right, m) = self.advance().parse_expression(precedence_of(self.curr()));
                match right {
                    Err(e) => (Err(e), m),
                    Ok(right) => (
                        Ok(
                            ExprView::Infix {
                                left: Box::new(left),
                                operator,
                                right: Box::new(right),
                            },
                        ),
                        m,
                    ),
                }
            },
        }
    }

    /// Parses the arguments of a call of `function`.
    pub open spec fn parse_expr_call(self, function: ExprView) -> (
        Result<ExprView, ParserErrorView>,
        ParserModel,
    )
        decreases self.tokens.len(), 5nat,
    {
        let (arguments, m) = self.parse_call_arguments();
        match arguments {
            Err(e) => (Err(e), m),
            Ok(arguments) => (
                Ok(ExprView::FunctionCall { function: Box::new(function), arguments }),
                m,
            ),
        }
    }

    /// Parses a list of arguments, separated by commas and closed by `)`.
    pub open spec fn parse_call_arguments(self) -> (
        Result<Seq<ExprView>, ParserErrorView>,
        ParserModel,
    )
        decreases self.tokens.len(), 4nat,
    {
        if self.peek() is RParen {
            (Ok(Seq::empty()), self.advance())
        } else {
            let (first, m) = self.advance().parse_expression(Precedence::Lowest);
            match first {
                Err(e) => (Err(e), m),
                Ok(e) => m.within(self.tokens.len()).parse_arguments_loop(seq![e]),
            }
        }
    }

    /// Parses the arguments behind the first, up to the closing `)`.
    pub open spec fn parse_arguments_loop(self, arguments: Seq<ExprView>) -> (
        Result<Seq<ExprView>, ParserErrorView>,
        ParserModel,
    )
        decreases self.tokens.len(), 3nat,
    {
        if self.peek() is Comma {
            let (next, m) = self.advance().advance().parse_expression(Precedence::Lowest);
            match next {
                Err(e) => (Err(e), m),
                Ok(e) => m.within((self.tokens.len() - 2) as nat).parse_arguments_loop(
                    arguments.push(e),
                ),
            }
        } else {
            match self.expect_peek(TokenView::RParen) {
                (Err(e), m) => (Err(e), m),
                (Ok(_), m) => (Ok(arguments), m),
            }
        }
    }

    /// Parses an expression in parentheses.
    pub open spec fn parse_expr_grouped(self) -> (Result<ExprView, ParserErrorView>, ParserModel)
        decreases self.tokens.len(), 0nat,
    {
        if !(self.curr() is LParen) {
            (Err(ParserErrorView::InvalidPrefixOperator { operator: self.curr() }), self)
        } else {
            let (inner, m) = self.advance().parse_expression(Precedence::Lowest);
            match inner {
                Err(e) => (Err(e), m),
                Ok(e) => match m.expect_peek(TokenView::RParen) {
                    (Err(_), m2) => (
                        Err(ParserErrorView::MissRightParenthesis { operator: m.curr() }),
                        m2,
                    ),
                    (Ok(_), m2) => (Ok(e), m2),
                },
            }
        }
    }

    /// Parses a conditional: a condition in parentheses, a block, and
    /// optionally `else` and a second block.
    pub open spec fn parse_expr_if(self) -> (Result<ExprView, ParserErrorView>, ParserModel)
        decreases self.tokens.len(), 0nat,
    {
        if !(self.curr() is If) {
            (Err(ParserErrorView::InvalidPrefixOperator { operator: self.curr() }), self)
        } else {
            match self.expect_peek(TokenView::LParen) {
                (Err(e), m) => (Err(e), m),
                (Ok(_), m1) => {
                    let (condition, m2) = m1.advance().parse_expression(Precedence::Lowest);
                    match condition {
                        Err(e) => (Err(e), m2),
                        Ok(condition) => m2.within(m1.tokens.len()).parse_if_blocks(condition),
                    }
                },
            }
        }
    }

    /// Parses what follows the condition of a conditional.
    pub open spec fn parse_if_blocks(self, condition: ExprView) -> (
        Result<ExprView, ParserErrorView>,
        ParserModel,
    )
        decreases self.tokens.len(), 7nat,
    {
        match self.expect_peek(TokenView::RParen) {
            (Err(e), m) => (Err(e), m),
            (Ok(_), m3) => match m3.expect_peek(TokenView::LBrace) {
                (Err(e), m) => (Err(e), m),
                (Ok(_), m4) => {
                    let (consequence, m5) = m4.parse_statement_block();
                    if m5.peek() is Else {
                        match m5.advance().expect_peek(TokenView::LBrace) {
                            (Err(e), m) => (Err(e), m),
                            (Ok(_), m7) => {
                                let (alternative, m8) = m7.within(
                                    self.tokens.len(),
                                ).parse_statement_block();
                                (
                                    Ok(
                                        ExprView::If {
                                            condition: Box::new(condition),
                                            consequence,
                                            alternative: Some(alternative),
                                        },
                                    ),
                                    m8,
                                )
                            },
                        }
                    } else {
                        (
                            Ok(
                                ExprView::If {
                                    condition: Box::new(condition),
                                    consequence,
                                    alternative: None,
                                },
                            ),
                            m5,
                        )
                    }
                },
            },
        }
    }

    /// Parses a function literal: parameters in parentheses and a block.
    pub open spec fn parse_expr_function(self) -> (Result<ExprView, ParserErrorView>, ParserModel)
        decreases self.tokens.len(), 0nat,
    {
        if !(self.curr() is Function) {
            (Err(ParserErrorView::InvalidPrefixOperator { operator: self.curr() }), self)
        } else {
            match self.expect_peek(TokenView::LParen) {
                (Err(e), m) => (Err(e), m),
                (Ok(_), m1) => match m1.parse_function_parameters() {
                    (Err(e), m) => (Err(e), m),
                    (Ok(parameters), m2) => match m2.within(m1.tokens.len()).expect_peek(
                        TokenView::LBrace,
                    ) {
                        (Err(e), m) => (Err(e), m),
                        (Ok(_), m3) => {
                            let (body, m4) = m3.parse_statement_block();
                            (Ok(ExprView::Function { parameters, body }), m4)
                        },
                    },
                },
            }
        }
    }

    /// Parses a list of parameters, separated by commas and closed by `)`.
    /// Each parameter is an identifier named by the text of its token.
    pub open spec fn parse_function_parameters(self) -> (
        Result<Seq<ExprView>, ParserErrorView>,
        ParserModel,
    ) {
        let m1 = self.advance();
        if m1.curr() is RParen {
            (Ok(Seq::empty()), m1)
        } else {
            let (parameters, m2) = m1.parse_parameters_loop(
                seq![ExprView::Identifier(token_text(m1.curr()))],
            );
            match m2.expect_peek(TokenView::RParen) {
                (Err(e), m) => (Err(e), m),
                (Ok(_), m) => (Ok(parameters), m),
            }
        }
    }

    /// Parses the parameters behind the first.
    pub open spec fn parse_parameters_loop(self, parameters: Seq<ExprView>) -> (
        Seq<ExprView>,
        ParserModel,
    )
        decreases self.tokens.len(),
    {
        if self.peek() is Comma {
            let m = self.advance().advance();
            m.parse_parameters_loop(parameters.push(ExprView::Identifier(token_text(m.curr()))))
        } else {
            (parameters, self)
        }
    }

    /// Parses the statements of a block up to its closing `}` or the end of
    /// the input. A statement that fails is left out and its error recorded.
    pub open spec fn parse_statement_block(self) -> (Seq<StmtView>, ParserModel)
        decreases self.tokens.len(), 6nat,
    {
        self.advance().parse_block_loop(Seq::empty())
    }

    /// Parses the statements of a block behind those in `block`.
    pub open spec fn parse_block_loop(self, block: Seq<StmtView>) -> (Seq<StmtView>, ParserModel)
        decreases self.tokens.len(), 5nat,
    {
        if self.curr() is RBrace || self.curr() is Eof {
            (block, self)
        } else {
            let (statement, m) = self.parse_statement();
            let m = m.within(self.tokens.len());
            match statement {
                Ok(statement) => m.advance().parse_block_loop(block.push(statement)),
                Err(e) => m.record(e).advance().parse_block_loop(block),
            }
        }
    }

    /// Parses one statement.
    pub open spec fn parse_statement(self) -> (Result<StmtView, ParserErrorView>, ParserModel)
        decreases self.tokens.len(), 4nat,
    {
        match self.curr() {
            TokenView::Let => self.parse_statement_let(),
            TokenView::Return => self.parse_statement_ret(),
            _ => self.parse_statement_expr(),
        }
    }

    /// Parses `let`, a name, `=`, an expression and an optional semicolon.
    pub open spec fn parse_statement_let(self) -> (Result<StmtView, ParserErrorView>, ParserModel)
        decreases self.tokens.len(), 3nat,
    {
        match self.peek() {
            TokenView::Ident(name) => match self.advance().expect_peek(TokenView::Assign) {
                (Err(e), m) => (Err(e), m),
                (Ok(_), m2) => {
                    let (value, m3) = m2.advance().parse_expression(Precedence::Lowest);
                    match value {
                        Err(e) => (Err(e), m3),
                        Ok(value) => (Ok(StmtView::Let { name, value }), m3.skip_semicolon()),
                    }
                },
            },
            _ => (
                Err(
                    ParserErrorView::UnexpectedToken {
                        expected: TokenView::Ident(Seq::empty()),
                        got: self.peek(),
                    },
                ),
                self,
            ),
        }
    }

    /// Parses `return`, an expression and an optional semicolon.
    pub open spec fn parse_statement_ret(self) -> (Result<StmtView, ParserErrorView>, ParserModel)
        decreases self.tokens.len(), 3nat,
    {
        let (value, m) = self.advance().parse_expression(Precedence::Lowest);
        match value {
            Err(e) => (Err(e), m),
            Ok(value) => (Ok(StmtView::Return(value)), m.skip_semicolon()),
        }
    }

    /// Parses an expression and an optional semicolon.
    pub open spec fn parse_statement_expr(self) -> (Result<StmtView, ParserErrorView>, ParserModel)
        decreases self.tokens.len(), 3nat,
    {
        let (value, m) = self.parse_expression(Precedence::Lowest);
        match value {
            Err(e) => (Err(e), m),
            Ok(value) => (Ok(StmtView::Expression(value)), m.skip_semicolon()),
        }
    }

    /// Parses statements up to the end of the input. A statement that fails
    /// is left out and its error recorded; parsing goes on behind it.
    pub open spec fn parse_program(self) -> (Seq<StmtView>, ParserModel) {
        self.parse_program_loop(Seq::empty())
    }

    /// Parses the statements of a program behind those in `statements`.
    pub open spec fn parse_program_loop(self, statements: Seq<StmtView>) -> (
        Seq<StmtView>,
        ParserModel,
    )
        decreases self.tokens.len(),
    {
        if self.curr() is Eof {
            (statements, self)
        } else {
            let (statement, m) = self.parse_statement();
            let m = m.within(self.tokens.len());
            match statement {
                Ok(statement) => m.advance().parse_program_loop(statements.push(statement)),
                Err(e) => m.record(e).advance().parse_program_loop(statements),
            }
        }
    }
}

/// The models of a sequence of parser errors, in order.
pub open spec fn errors_view(v: Seq<ParserError>) -> Seq<ParserErrorView> {
    v.map_values(|e: ParserError| e@)
}

/// The model of the outcome of parsing a token.
pub open spec fn token_result(r: Result<Token, ParserError>) -> Result<TokenView, ParserErrorView> {
    match r {
        Ok(t) => Ok(t@),
        Err(e) => Err(e@),
    }
}

/// The model of the outcome of parsing an expression.
pub open spec fn expr_result(r: Result<Expression, ParserError>) -> Result<
    ExprView,
    ParserErrorView,
> {
    match r {
        Ok(e) => Ok(e@),
        Err(e) => Err(e@),
    }
}

/// The model of the outcome of parsing a list of expressions.
pub open spec fn exprs_result(r: Result<Vec<Expression>, ParserError>) -> Result<
    Seq<ExprView>,
    ParserErrorView,
> {
    match r {
        Ok(v) => Ok(exprs_view(v@)),
        Err(e) => Err(e@),
    }
}

/// The model of the outcome of parsing a statement.
pub open spec fn stmt_result(r: Result<Statement, ParserError>) -> Result<
    StmtView,
    ParserErrorView,
> {
    match r {
        Ok(s) => Ok(s@),
        Err(e) => Err(e@),
    }
}

/// A parser over the tokens of a lexer. It looks at two tokens at a time:
/// the one under examination and the one behind it.
#[derive(Debug)]
pub struct Parser {
    lexer: Lexer,
    curr_token: Token,
    peek_token: Token,
    /// The errors met so far, in the order in which they were met.
    pub errors: Vec<ParserError>,
}

impl View for Parser {
    type V = ParserModel;

    closed spec fn view(&self) -> ParserModel {
        ParserModel { tokens: self.stream(), errors: errors_view(self.errors@) }
    }
}

impl Parser {
    /// The parser's two tokens agree with its lexer: once `Eof` is under
    /// examination or behind it, nothing else follows.
    pub closed spec fn wf(&self) -> bool {
        &&& self.curr_token@ is Eof ==> self.peek_token@ is Eof
        &&& self.peek_token@ is Eof ==> self.lexer.remaining().len() == 0
    }

    /// The tokens that are still to be read, from the one under examination
    /// on, the final `Eof` left out.
    pub closed spec fn stream(&self) -> Seq<TokenView> {
        if self.curr_token@ is Eof {
            Seq::empty()
        } else if self.peek_token@ is Eof {
            seq![self.curr_token@]
        } else {
            seq![self.curr_token@, self.peek_token@] + self.lexer.remaining()
        }
    }

    /// The two tokens that the parser holds are the first two of its stream.
    proof fn lemma_tokens(&self)
        requires
            self.wf(),
        ensures
            self@.curr() == self.curr_token@,
            self@.peek() == self.peek_token@,
            self@.errors == errors_view(self.errors@),
    {
    }

    /// A parser at the first token of `lexer`, with no error recorded.
    pub fn new(lexer: Lexer) -> (parser: Parser)
        ensures
            parser.wf(),
            parser@.tokens == lexer.remaining(),
            parser@.errors == Seq::<ParserErrorView>::empty(),
    {
        let mut lexer = lexer;
        let ghost all = lexer.remaining();
        let curr_token = lexer.next_token();
        let peek_token = lexer.next_token();
        let parser = Parser { lexer, curr_token, peek_token, errors: Vec::new() };
        proof {
            assert(parser.stream() =~= all);
            assert(parser@.errors =~= Seq::<ParserErrorView>::empty());
        }
        parser
    }

    /// Gives up the parser for the errors that it met.
    pub fn into_errors(self) -> (errors: Vec<ParserError>)
        ensures
            errors_view(errors@) == self@.errors,
    {
        self.errors
    }

    /// Moves on by one token.
    fn next_token(&mut self)
        requires
            old(self).wf(),
        ensures
            final(self).wf(),
            final(self)@ == old(self)@.advance(),
            final(self).errors == old(self).errors,
    {
        self.curr_token = self.peek_token.clone();
        self.peek_token = self.lexer.next_token();
        proof {
            assert(self.stream() =~= old(self)@.advance().tokens);
        }
    }

    /// Whether the token under examination is `t`.
    fn curr_token_is(&self, t: &Token) -> (b: bool)
        requires
            self.wf(),
        ensures
            b == (self@.curr() == t@),
    {
        self.curr_token.same(t)
    }

    /// Whether the token behind the one under examination is `t`.
    fn peek_token_is(&self, t: &Token) -> (b: bool)
        requires
            self.wf(),
        ensures
            b == (self@.peek() == t@),
    {
        self.peek_token.same(t)
    }

    /// Moves on if the next token is `t`; otherwise stays and fails.
    fn expect_peek(&mut self, t: Token) -> (res: Result<Token, ParserError>)
        requires
            old(self).wf(),
        ensures
            final(self).wf(),
            (token_result(res), final(self)@) == old(self)@.expect_peek(t@),
            final(self)@.tokens.len() <= old(self)@.tokens.len(),
            final(self).errors == old(self).errors,
            res is Ok && !(t@ is Eof) ==> final(self)@.tokens.len() < old(self)@.tokens.len(),
    {
        if self.peek_token_is(&t) {
            proof {
                self.lemma_tokens();
            }
            self.next_token();
            proof {
                self.lemma_tokens();
            }
            Ok(self.curr_token.clone())
        } else {
            Err(self.peek_error(t))
        }
    }

    /// The precedence of the token under examination.
    fn curr_precedence(&self) -> (precedence: Precedence)
        requires
            self.wf(),
        ensures
            precedence == precedence_of(self@.curr()),
    {
        Precedence::from(&self.curr_token)
    }

    /// The precedence of the token behind the one under examination.
    fn peek_precedence(&self) -> (precedence: Precedence)
        requires
            self.wf(),
        ensures
            precedence == precedence_of(self@.peek()),
    {
        Precedence::from(&self.peek_token)
    }

    /// Records an error.
    fn record(&mut self, error: ParserError)
        requires
            old(self).wf(),
        ensures
            final(self).wf(),
            final(self)@ == old(self)@.record(error@),
    {
        self.errors.push(error);
        proof {
            assert(errors_view(self.errors@) =~= errors_view(old(self).errors@).push(error@));
        }
    }

    /// Moves past a semicolon, if one follows.
    fn skip_semicolon(&mut self)
        requires
            old(self).wf(),
        ensures
            final(self).wf(),
            final(self)@ == old(self)@.skip_semicolon(),
            final(self)@.tokens.len() <= old(self)@.tokens.len(),
    {
        if self.peek_token_is(&Token::Semicolon) {
            self.next_token();
        }
    }

    /// Parses statements up to the end of the input. A statement that fails
    /// is left out and its error recorded; parsing goes on behind it. The
    /// result is always `Ok`.
    pub fn parse_program(&mut self) -> (res: Result<Program, ()>)
        requires
            old(self).wf(),
        ensures
            final(self).wf(),
            res is Ok,
            (res->Ok_0@, final(self)@) == old(self)@.parse_program(),
            final(self)@.tokens.len() == 0,
    {
        let ghost start = self@;
        let mut statements: Vec<Statement> = Vec::new();
        assert(stmts_view(statements@) =~= Seq::<StmtView>::empty());
        while !self.curr_token_is(&Token::Eof)
            invariant
                self.wf(),
                start.parse_program() == self@.parse_program_loop(stmts_view(statements@)),
            decreases self@.tokens.len(),
        {
            match self.parse_statement() {
                Ok(statement) => {
                    proof {
                        lemma_stmts_view_push(statements@, statement);
                    }
                    statements.push(statement);
                },
                Err(e) => {
                    self.record(e);
                },
            }
            self.next_token();
        }
        Ok(Program { statements })
    }

    /// Parses one statement.
    fn parse_statement(&mut self) -> (res: Result<Statement, ParserError>)
        requires
            old(self).wf(),
        ensures
            final(self).wf(),
            (stmt_result(res), final(self)@) == old(self)@.parse_statement(),
            final(self)@.tokens.len() <= old(self)@.tokens.len(),
        decreases old(self)@.tokens.len(), 4nat,
    {
        proof {
            self.lemma_tokens();
        }
        match self.curr_token {
            Token::Let => self.parse_statement_let(),
            Token::Return => self.parse_statement_ret(),
            _ => self.parse_statement_expr(),
        }
    }

    /// Parses `let`, a name, `=`, an expression and an optional semicolon.
    fn parse_statement_let(&mut self) -> (res: Result<Statement, ParserError>)
        requires
            old(self).wf(),
        ensures
            final(self).wf(),
            (stmt_result(res), final(self)@) == old(self)@.parse_statement_let(),
            final(self)@.tokens.len() <= old(self)@.tokens.len(),
        decreases old(self)@.tokens.len(), 3nat,
    {
        proof {
            self.lemma_tokens();
        }
        let name = match &self.peek_token {
            Token::Ident(name) => name.clone(),
            _ => {
                return Err(
                    ParserError::UnexpectedToken {
                        expected: Token::Ident(String::new()),
                        got: self.peek_token.clone(),
                    },
                );
            },
        };
        self.next_token();
        match self.expect_peek(Token::Assign) {
            Ok(_) => {},
            Err(e) => {
                return Err(e);
            },
        }
        self.next_token();
        let value = match self.parse_expression(Precedence::Lowest) {
            Ok(value) => value,
            Err(e) => {
                return Err(e);
            },
        };
        self.skip_semicolon();
        Ok(Statement::Let { name, value })
    }

    /// Parses `return`, an expression and an optional semicolon.
    fn parse_statement_ret(&mut self) -> (res: Result<Statement, ParserError>)
        requires
            old(self).wf(),
        ensures
            final(self).wf(),
            (stmt_result(res), final(self)@) == old(self)@.parse_statement_ret(),
            final(self)@.tokens.len() <= old(self)@.tokens.len(),
        decreases old(self)@.tokens.len(), 3nat,
    {
        self.next_token();
        let value = match self.parse_expression(Precedence::Lowest) {
            Ok(value) => value,
            Err(e) => {
                return Err(e);
            },
        };
        self.skip_semicolon();
        Ok(Statement::Return(value))
    }

    /// Parses an expression and an optional semicolon.
    fn parse_statement_expr(&mut self) -> (res: Result<Statement, ParserError>)
        requires
            old(self).wf(),
        ensures
            final(self).wf(),
            (stmt_result(res), final(self)@) == old(self)@.parse_statement_expr(),
            final(self)@.tokens.len() <= old(self)@.tokens.len(),
        decreases old(self)@.tokens.len(), 3nat,
    {
        let value = match self.parse_expression(Precedence::Lowest) {
            Ok(value) => value,
            Err(e) => {
                return Err(e);
            },
        };
        self.skip_semicolon();
        Ok(Statement::Expression(value))
    }

    /// Parses the statements of a block up to its closing `}` or the end of
    /// the input. A statement that fails is left out and its error recorded.
    fn parse_statement_block(&mut self) -> (block: Vec<Statement>)
        requires
            old(self).wf(),
        ensures
            final(self).wf(),
            (stmts_view(block@), final(self)@) == old(self)@.parse_statement_block(),
            final(self)@.tokens.len() <= old(self)@.tokens.len(),
        decreases old(self)@.tokens.len(), 6nat,
    {
        let ghost start = self@;
        let mut block: Vec<Statement> = Vec::new();
        assert(stmts_view(block@) =~= Seq::<StmtView>::empty());
        self.next_token();
        while !self.curr_token_is(&Token::RBrace) && !self.curr_token_is(&Token::Eof)
            invariant
                self.wf(),
                start == old(self)@,
                self@.tokens.len() <= start.tokens.len(),
                start.parse_statement_block() == self@.parse_block_loop(stmts_view(block@)),
            decreases self@.tokens.len(),
        {
            match self.parse_statement() {
                Ok(statement) => {
                    proof {
                        lemma_stmts_view_push(block@, statement);
                    }
                    block.push(statement);
                },
                Err(e) => {
                    self.record(e);
                },
            }
            self.next_token();
        }
        block
    }

    /// Parses an expression whose operators all bind tighter than `precedence`.
    fn parse_expression(&mut self, precedence: Precedence) -> (res: Result<
        Expression,
        ParserError,
    >)
        requires
            old(self).wf(),
        ensures
            final(self).wf(),
            (expr_result(res), final(self)@) == old(self)@.parse_expression(precedence),
            final(self)@.tokens.len() <= old(self)@.tokens.len(),
        decreases old(self)@.tokens.len(), 2nat,
    {
        let ghost start = self@;
        let mut left = match self.parse_prefix() {
            Ok(left) => left,
            Err(e) => {
                return Err(e);
            },
        };
        while !self.peek_token_is(&Token::Semicolon) && precedence.level()
            < self.peek_precedence().level()
            invariant
                self.wf(),
                start == old(self)@,
                self@.tokens.len() <= start.tokens.len(),
                start.parse_expression(precedence) == self@.parse_infix_loop(precedence, left@),
            decreases self@.tokens.len(),
        {
            self.next_token();
            proof {
                self.lemma_tokens();
            }
            if is_infix_operator(&self.curr_token) {
                left = match self.parse_expr_infix(left) {
                    Ok(extended) => extended,
                    Err(e) => {
                        return Err(e);
                    },
                };
            } else if self.curr_token_is(&Token::LParen) {
                left = match self.parse_expr_call(left) {
                    Ok(extended) => extended,
                    Err(e) => {
                        return Err(e);
                    },
                };
            } else {
                return Ok(left);
            }
        }
        Ok(left)
    }

    /// Parses what the token under examination begins: a literal, an
    /// identifier, a prefix expression, a group, a conditional or a function.
    fn parse_prefix(&mut self) -> (res: Result<Expression, ParserError>)
        requires
            old(self).wf(),
        ensures
            final(self).wf(),
            (expr_result(res), final(self)@) == old(self)@.parse_prefix(),
            final(self)@.tokens.len() <= old(self)@.tokens.len(),
        decreases old(self)@.tokens.len(), 1nat,
    {
        proof {
            self.lemma_tokens();
        }
        let token = self.curr_token.clone();
        match token {
            Token::Ident(name) => Ok(self.parse_expr_identifier(name)),
            Token::Int(n) => Ok(self.parse_expr_integer(n)),
            Token::Bang | Token::Minus => self.parse_expr_prefix(),
            Token::True | Token::False => Ok(self.parse_expr_boolean()),
            Token::LParen => self.parse_expr_grouped(),
            Token::If => self.parse_expr_if(),
            Token::Function => self.parse_expr_function(),
            _ => Err(ParserError::InvalidPrefixOperator { operator: token }),
        }
    }

    /// The identifier expression of the given name.
    fn parse_expr_identifier(&self, name: String) -> (e: Expression)
        ensures
            e@ == ExprView::Identifier(name@),
    {
        Expression::Identifier(name)
    }

    /// The integer literal of the given value.
    fn parse_expr_integer(&self, nb: i64) -> (e: Expression)
        ensures
            e@ == ExprView::Int(nb),
    {
        Expression::Int(nb)
    }

    /// The boolean literal under examination: true for `true`, false for anything else.
    fn parse_expr_boolean(&self) -> (e: Expression)
        requires
            self.wf(),
        ensures
            e@ == ExprView::Bool(self@.curr() is True),
    {
        proof {
            self.lemma_tokens();
        }
        Expression::Bool(self.curr_token_is(&Token::True))
    }

    /// Parses a prefix operator and its operand.
    fn parse_expr_prefix(&mut self) -> (res: Result<Expression, ParserError>)
        requires
            old(self).wf(),
        ensures
            final(self).wf(),
            (expr_result(res), final(self)@) == old(self)@.parse_expr_prefix(),
            final(self)@.tokens.len() <= old(self)@.tokens.len(),
        decreases old(self)@.tokens.len(), 0nat,
    {
        proof {
            self.lemma_tokens();
        }
        let operator = match PrefixOperator::try_from(&self.curr_token) {
            Ok(operator) => operator,
            Err(_) => {
                return Err(ParserError::InvalidPrefixOperator { operator: self.curr_token.clone() });
            },
        };
        self.next_token();
        let right = match self.parse_expression(Precedence::Prefix) {
            Ok(right) => right,
            Err(e) => {
                return Err(e);
            },
        };
        Ok(Expression::Prefix { operator, right: Box::new(right) })
    }

    /// Parses an operator and its right operand, with `left` as the left one.
    fn parse_expr_infix(&mut self, left: Expression) -> (res: Result<Expression, ParserError>)
        requires
            old(self).wf(),
        ensures
            final(self).wf(),
            (expr_result(res), final(self)@) == old(self)@.parse_expr_infix(left@),
            final(self)@.tokens.len() <= old(self)@.tokens.len(),
        decreases old(self)@.tokens.len(), 3nat,
    {
        proof {
            self.lemma_tokens();
        }
        if !is_infix_operator(&self.curr_token) {
            return Err(ParserError::InvalidInfixOperator { operator: self.curr_token.clone() });
        }
        let precedence = self.curr_precedence();
        let operator = InfixOperator::from(&self.curr_token);
        self.next_token();
        let right = match self.parse_expression(precedence) {
            Ok(right) => right,
            Err(e) => {
                return Err(e);
            },
        };
        Ok(Expression::Infix { left: Box::new(left), operator, right: Box::new(right) })
    }

    /// Parses the arguments of a call of `function`.
    fn parse_expr_call(&mut self, function: Expression) -> (res: Result<Expression, ParserError>)
        requires
            old(self).wf(),
        ensures
            final(self).wf(),
            (expr_result(res), final(self)@) == old(self)@.parse_expr_call(function@),
            final(self)@.tokens.len() <= old(self)@.tokens.len(),
        decreases old(self)@.tokens.len(), 5nat,
    {
        let arguments = match self.parse_call_arguments() {
            Ok(arguments) => arguments,
            Err(e) => {
                return Err(e);
            },
        };
        Ok(Expression::FunctionCall { function: Box::new(function), arguments })
    }

    /// Parses a list of arguments, separated by commas and closed by `)`.
    fn parse_call_arguments(&mut self) -> (res: Result<Vec<Expression>, ParserError>)
        requires
            old(self).wf(),
        ensures
            final(self).wf(),
            (exprs_result(res), final(self)@) == old(self)@.parse_call_arguments(),
            final(self)@.tokens.len() <= old(self)@.tokens.len(),
        decreases old(self)@.tokens.len(), 4nat,
    {
        let ghost start = self@;
        let mut arguments: Vec<Expression> = Vec::new();
        assert(exprs_view(arguments@) =~= Seq::<ExprView>::empty());
        if self.peek_token_is(&Token::RParen) {
            self.next_token();
            return Ok(arguments);
        }
        self.next_token();
        let first = match self.parse_expression(Precedence::Lowest) {
            Ok(first) => first,
            Err(e) => {
                return Err(e);
            },
        };
        proof {
            lemma_exprs_view_push(arguments@, first);
            assert(exprs_view(arguments@).push(first@) =~= seq![first@]);
        }
        arguments.push(first);
        while self.peek_token_is(&Token::Comma)
            invariant
                self.wf(),
                start == old(self)@,
                self@.tokens.len() <= start.tokens.len(),
                start.parse_call_arguments() == self@.parse_arguments_loop(exprs_view(arguments@)),
            decreases self@.tokens.len(),
        {
            self.next_token();
            self.next_token();
            let next = match self.parse_expression(Precedence::Lowest) {
                Ok(next) => next,
                Err(e) => {
                    return Err(e);
                },
            };
            proof {
                lemma_exprs_view_push(arguments@, next);
            }
            arguments.push(next);
        }
        match self.expect_peek(Token::RParen) {
            Ok(_) => Ok(arguments),
            Err(e) => Err(e),
        }
    }

    /// Parses an expression in parentheses.
    fn parse_expr_grouped(&mut self) -> (res: Result<Expression, ParserError>)
        requires
            old(self).wf(),
        ensures
            final(self).wf(),
            (expr_result(res), final(self)@) == old(self)@.parse_expr_grouped(),
            final(self)@.tokens.len() <= old(self)@.tokens.len(),
        decreases old(self)@.tokens.len(), 0nat,
    {
        if !self.curr_token_is(&Token::LParen) {
            proof {
                self.lemma_tokens();
            }
            return Err(ParserError::InvalidPrefixOperator { operator: self.curr_token.clone() });
        }
        self.next_token();
        let inner = match self.parse_expression(Precedence::Lowest) {
            Ok(inner) => inner,
            Err(e) => {
                return Err(e);
            },
        };
        match self.expect_peek(Token::RParen) {
            Ok(_) => Ok(inner),
            Err(_) => {
                proof {
                    self.lemma_tokens();
                }
                Err(ParserError::MissRightParenthesis { operator: self.curr_token.clone() })
            },
        }
    }

    /// Parses a conditional: a condition in parentheses, a block, and
    /// optionally `else` and a second block.
    fn parse_expr_if(&mut self) -> (res: Result<Expression, ParserError>)
        requires
            old(self).wf(),
        ensures
            final(self).wf(),
            (expr_result(res), final(self)@) == old(self)@.parse_expr_if(),
            final(self)@.tokens.len() <= old(self)@.tokens.len(),
        decreases old(self)@.tokens.len(), 0nat,
    {
        if !self.curr_token_is(&Token::If) {
            proof {
                self.lemma_tokens();
            }
            return Err(ParserError::InvalidPrefixOperator { operator: self.curr_token.clone() });
        }
        match self.expect_peek(Token::LParen) {
            Ok(_) => {},
            Err(e) => {
                return Err(e);
            },
        }
        self.next_token();
        let condition = match self.parse_expression(Precedence::Lowest) {
            Ok(condition) => condition,
            Err(e) => {
                return Err(e);
            },
        };
        match self.expect_peek(Token::RParen) {
            Ok(_) => {},
            Err(e) => {
                return Err(e);
            },
        }
        match self.expect_peek(Token::LBrace) {
            Ok(_) => {},
            Err(e) => {
                return Err(e);
            },
        }
        let consequence = self.parse_statement_block();
        let alternative = if self.peek_token_is(&Token::Else) {
            self.next_token();
            match self.expect_peek(Token::LBrace) {
                Ok(_) => {},
                Err(e) => {
                    return Err(e);
                },
            }
            Some(self.parse_statement_block())
        } else {
            None
        };
        Ok(Expression::If { condition: Box::new(condition), consequence, alternative })
    }

    /// Parses a function literal: parameters in parentheses and a block.
    fn parse_expr_function(&mut self) -> (res: Result<Expression, ParserError>)
        requires
            old(self).wf(),
        ensures
            final(self).wf(),
            (expr_result(res), final(self)@) == old(self)@.parse_expr_function(),
            final(self)@.tokens.len() <= old(self)@.tokens.len(),
        decreases old(self)@.tokens.len(), 0nat,
    {
        if !self.curr_token_is(&Token::Function) {
            proof {
                self.lemma_tokens();
            }
            return Err(ParserError::InvalidPrefixOperator { operator: self.curr_token.clone() });
        }
        match self.expect_peek(Token::LParen) {
            Ok(_) => {},
            Err(e) => {
                return Err(e);
            },
        }
        let parameters = match self.parse_function_parameters() {
            Ok(parameters) => parameters,
            Err(e) => {
                return Err(e);
            },
        };
        match self.expect_peek(Token::LBrace) {
            Ok(_) => {},
            Err(e) => {
                return Err(e);
            },
        }
        let body = self.parse_statement_block();
        Ok(Expression::Function { parameters, body })
    }

    /// Parses a list of parameters, separated by commas and closed by `)`.
    /// Each parameter is an identifier named by the text of its token.
    fn parse_function_parameters(&mut self) -> (res: Result<Vec<Expression>, ParserError>)
        requires
            old(self).wf(),
        ensures
            final(self).wf(),
            (exprs_result(res), final(self)@) == old(self)@.parse_function_parameters(),
            final(self)@.tokens.len() <= old(self)@.tokens.len(),
    {
        let mut identifiers: Vec<Expression> = Vec::new();
        assert(exprs_view(identifiers@) =~= Seq::<ExprView>::empty());
        self.next_token();
        if self.curr_token_is(&Token::RParen) {
            return Ok(identifiers);
        }
        let ghost at_first = self@;
        proof {
            self.lemma_tokens();
        }
        let first = Expression::Identifier(self.curr_token.to_string());
        proof {
            lemma_exprs_view_push(identifiers@, first);
            assert(exprs_view(identifiers@).push(first@) =~= seq![first@]);
        }
        identifiers.push(first);
        let ghost first_only = exprs_view(identifiers@);
        while self.peek_token_is(&Token::Comma)
            invariant
                self.wf(),
                self@.tokens.len() <= at_first.tokens.len(),
                at_first.parse_parameters_loop(first_only) == self@.parse_parameters_loop(
                    exprs_view(identifiers@),
                ),
            decreases self@.tokens.len(),
        {
            self.next_token();
            self.next_token();
            proof {
                self.lemma_tokens();
            }
            let next = Expression::Identifier(self.curr_token.to_string());
            proof {
                lemma_exprs_view_push(identifiers@, next);
            }
            identifiers.push(next);
        }
        match self.expect_peek(Token::RParen) {
            Ok(_) => Ok(identifiers),
            Err(e) => Err(e),
        }
    }

    /// The error for a next token that is not the expected one.
    fn peek_error(&self, t: Token) -> (error: ParserError)
        requires
            self.wf(),
        ensures
            error@ == (ParserErrorView::UnexpectedToken { expected: t@, got: self@.curr() }),
    {
        ParserError::UnexpectedToken { expected: t, got: self.curr_token.clone() }
    }
}

/// Whether a token is an infix operator.
pub fn is_infix_operator(t: &Token) -> (b: bool)
    ensures
        b == infix_operator_of(t@) is Some,
{
    match t {
        Token::Plus
        | Token::Minus
        | Token::Asterisk
        | Token::Slash
        | Token::Eq
        | Token::NotEq
        | Token::LessThan
        | Token::GreaterThan => true,
        _ => false,
    }
}

/// Parsing a list of parameters adds no token.
pub proof fn lemma_parameters_add_no_tokens(m: ParserModel, parameters: Seq<ExprView>)
    ensures
        m.parse_parameters_loop(parameters).1.tokens.len() <= m.tokens.len(),
        m.parse_function_parameters().1.tokens.len() <= m.tokens.len(),
    decreases m.tokens.len(),
{
    if m.peek() is Comma {
        let next = m.advance().advance();
        lemma_parameters_add_no_tokens(
            next,
            parameters.push(ExprView::Identifier(token_text(next.curr()))),
        );
    }
    let first = m.advance();
    if !(first.curr() is RParen) && first.peek() is Comma {
        let next = first.advance().advance();
        lemma_parameters_add_no_tokens(
            next,
            seq![ExprView::Identifier(token_text(first.curr()))].push(
                ExprView::Identifier(token_text(next.curr())),
            ),
        );
    }
}

/// Parsing an expression adds no token: no more tokens are to come behind
/// it than before it.
pub proof fn lemma_expression_adds_no_tokens(m: ParserModel, precedence: Precedence)
    ensures
        m.parse_expression(precedence).1.tokens.len() <= m.tokens.len(),
    decreases m.tokens.len(), 2nat,
{
    lemma_prefix_adds_no_tokens(m);
    let (prefix, after) = m.parse_prefix();
    if let Ok(left) = prefix {
        lemma_infix_loop_adds_no_tokens(after.within(m.tokens.len()), precedence, left);
    }
}

/// Parsing what a token begins adds no token.
pub proof fn lemma_prefix_adds_no_tokens(m: ParserModel)
    ensures
        m.parse_prefix().1.tokens.len() <= m.tokens.len(),
    decreases m.tokens.len(), 1nat,
{
    match m.curr() {
        TokenView::Bang | TokenView::Minus => {
            lemma_expression_adds_no_tokens(m.advance(), Precedence::Prefix);
        },
        TokenView::LParen => {
            lemma_expression_adds_no_tokens(m.advance(), Precedence::Lowest);
        },
        TokenView::If => {
            lemma_if_adds_no_tokens(m);
        },
        TokenView::Function => {
            lemma_function_adds_no_tokens(m);
        },
        _ => {},
    }
}

/// Parsing the operators and calls behind an expression adds no token.
pub proof fn lemma_infix_loop_adds_no_tokens(
    m: ParserModel,
    precedence: Precedence,
    left: ExprView,
)
    ensures
        m.parse_infix_loop(precedence, left).1.tokens.len() <= m.tokens.len(),
    decreases m.tokens.len(), 1nat,
{
    if !(m.peek() is Semicolon) && precedence.rank() < precedence_of(m.peek()).rank() {
        let at = m.advance();
        if infix_operator_of(at.curr()) is Some {
            lemma_expression_adds_no_tokens(at.advance(), precedence_of(at.curr()));
            let (extended, after) = at.parse_expr_infix(left);
            if let Ok(e) = extended {
                lemma_infix_loop_adds_no_tokens(after.within(at.tokens.len()), precedence, e);
            }
        } else if at.curr() is LParen {
            lemma_call_arguments_add_no_tokens(at);
            let (extended, after) = at.parse_expr_call(left);
            if let Ok(e) = extended {
                lemma_infix_loop_adds_no_tokens(after.within(at.tokens.len()), precedence, e);
            }
        }
    }
}

/// Parsing the arguments of a call adds no token.
pub proof fn lemma_call_arguments_add_no_tokens(m: ParserModel)
    ensures
        m.parse_call_arguments().1.tokens.len() <= m.tokens.len(),
    decreases m.tokens.len(), 4nat,
{
    if !(m.peek() is RParen) {
        lemma_expression_adds_no_tokens(m.advance(), Precedence::Lowest);
        let (first, after) = m.advance().parse_expression(Precedence::Lowest);
        if let Ok(e) = first {
            lemma_arguments_loop_adds_no_tokens(after.within(m.tokens.len()), seq![e]);
        }
    }
}

/// Parsing the arguments behind the first adds no token.
pub proof fn lemma_arguments_loop_adds_no_tokens(m: ParserModel, arguments: Seq<ExprView>)
    ensures
        m.parse_arguments_loop(arguments).1.tokens.len() <= m.tokens.len(),
    decreases m.tokens.len(), 3nat,
{
    if m.peek() is Comma {
        lemma_expression_adds_no_tokens(m.advance().advance(), Precedence::Lowest);
        let (next, after) = m.advance().advance().parse_expression(Precedence::Lowest);
        if let Ok(e) = next {
            lemma_arguments_loop_adds_no_tokens(
                after.within((m.tokens.len() - 2) as nat),
                arguments.push(e),
            );
        }
    }
}

/// Parsing a conditional adds no token.
pub proof fn lemma_if_adds_no_tokens(m: ParserModel)
    ensures
        m.parse_expr_if().1.tokens.len() <= m.tokens.len(),
    decreases m.tokens.len(), 0nat,
{
    if m.curr() is If && m.peek() is LParen {
        let at = m.advance();
        lemma_expression_adds_no_tokens(at.advance(), Precedence::Lowest);
        let (condition, after) = at.advance().parse_expression(Precedence::Lowest);
        if let Ok(condition) = condition {
            lemma_if_blocks_add_no_tokens(after.within(at.tokens.len()), condition);
        }
    }
}

/// Parsing the blocks of a conditional adds no token.
pub proof fn lemma_if_blocks_add_no_tokens(m: ParserModel, condition: ExprView)
    ensures
        m.parse_if_blocks(condition).1.tokens.len() <= m.tokens.len(),
    decreases m.tokens.len(), 7nat,
{
    if m.peek() is RParen && m.advance().peek() is LBrace {
        let at = m.advance().advance();
        lemma_block_adds_no_tokens(at);
        let (consequence, after) = at.parse_statement_block();
        if after.peek() is Else && after.advance().peek() is LBrace {
            lemma_block_adds_no_tokens(after.advance().advance().within(m.tokens.len()));
        }
    }
}

/// Parsing a function literal adds no token.
pub proof fn lemma_function_adds_no_tokens(m: ParserModel)
    ensures
        m.parse_expr_function().1.tokens.len() <= m.tokens.len(),
    decreases m.tokens.len(), 0nat,
{
    if m.curr() is Function && m.peek() is LParen {
        let at = m.advance();
        lemma_parameters_add_no_tokens(at, Seq::empty());
        let (parameters, after) = at.parse_function_parameters();
        if parameters is Ok && after.within(at.tokens.len()).peek() is LBrace {
            lemma_block_adds_no_tokens(after.within(at.tokens.len()).advance());
        }
    }
}

/// Parsing a block adds no token.
pub proof fn lemma_block_adds_no_tokens(m: ParserModel)
    ensures
        m.parse_statement_block().1.tokens.len() <= m.tokens.len(),
    decreases m.tokens.len(), 6nat,
{
    lemma_block_loop_adds_no_tokens(m.advance(), Seq::empty());
}

/// Parsing the statements of a block adds no token.
pub proof fn lemma_block_loop_adds_no_tokens(m: ParserModel, block: Seq<StmtView>)
    ensures
        m.parse_block_loop(block).1.tokens.len() <= m.tokens.len(),
    decreases m.tokens.len(), 5nat,
{
    if !(m.curr() is RBrace || m.curr() is Eof) {
        lemma_statement_adds_no_tokens(m);
        let (statement, after) = m.parse_statement();
        let after = after.within(m.tokens.len());
        match statement {
            Ok(statement) => {
                lemma_block_loop_adds_no_tokens(after.advance(), block.push(statement));
            },
            Err(e) => {
                lemma_block_loop_adds_no_tokens(after.record(e).advance(), block);
            },
        }
    }
}

/// Parsing a statement adds no token.
pub proof fn lemma_statement_adds_no_tokens(m: ParserModel)
    ensures
        m.parse_statement().1.tokens.len() <= m.tokens.len(),
    decreases m.tokens.len(), 4nat,
{
    match m.curr() {
        TokenView::Let => {
            if m.peek() is Ident && m.advance().peek() is Assign {
                lemma_expression_adds_no_tokens(
                    m.advance().advance().advance(),
                    Precedence::Lowest,
                );
            }
        },
        TokenView::Return => {
            lemma_expression_adds_no_tokens(m.advance(), Precedence::Lowest);
        },
        _ => {
            lemma_expression_adds_no_tokens(m, Precedence::Lowest);
        },
    }
}

/// Parsing adds no token. Wherever the parsing functions bound the state
/// that a step leaves by the tokens that were to come before the step, the
/// bound holds of the state already: the bound changes nothing.
pub proof fn lemma_bound_changes_nothing(m: ParserModel, precedence: Precedence)
    ensures
        m.parse_expression(precedence).1.within(m.tokens.len()) == m.parse_expression(
            precedence,
        ).1,
        m.parse_prefix().1.within(m.tokens.len()) == m.parse_prefix().1,
        m.parse_statement().1.within(m.tokens.len()) == m.parse_statement().1,
        m.parse_statement_block().1.within(m.tokens.len()) == m.parse_statement_block().1,
        m.parse_function_parameters().1.within(m.tokens.len()) == m.parse_function_parameters().1,
{
    lemma_expression_adds_no_tokens(m, precedence);
    lemma_prefix_adds_no_tokens(m);
    lemma_statement_adds_no_tokens(m);
    lemma_block_adds_no_tokens(m);
    lemma_parameters_add_no_tokens(m, Seq::empty());
}

/// The statements that a text is parsed to, and the errors met on the way.
pub open spec fn parse_text(text: Seq<char>) -> (Seq<StmtView>, Seq<ParserErrorView>) {
    let (statements, m) = (ParserModel {
        tokens: crate::lexer::tokens_of(text),
        errors: Seq::empty(),
    }).parse_program();
    (statements, m.errors)
}

/// The expression that an operand token stands for by itself: an
/// identifier, an integer or a boolean.
pub open spec fn operand_of(t: TokenView) -> Option<ExprView> {
    match t {
        TokenView::Ident(name) => Some(ExprView::Identifier(name)),
        TokenView::Int(n) => Some(ExprView::Int(n)),
        TokenView::True => Some(ExprView::Bool(true)),
        TokenView::False => Some(ExprView::Bool(false)),
        _ => None,
    }
}

/// Whether the next token ends an expression that is parsed at `precedence`:
/// it is a semicolon, or binds no tighter than `precedence`.
pub open spec fn ends_expression(m: ParserModel, precedence: Precedence) -> bool {
    m.peek() is Semicolon || precedence_of(m.peek()).rank() <= precedence.rank()
}

/// The infix expression of two operands.
pub open spec fn infix_of(left: ExprView, operator: TokenView, right: ExprView) -> ExprView {
    ExprView::Infix {
        left: Box::new(left),
        operator: infix_operator_of(operator)->0,
        right: Box::new(right),
    }
}

/// Nothing is added to an expression that is followed by a token that ends it.
pub proof fn lemma_infix_loop_ends(m: ParserModel, precedence: Precedence, left: ExprView)
    requires
        ends_expression(m, precedence),
    ensures
        m.parse_infix_loop(precedence, left) == (Ok::<ExprView, ParserErrorView>(left), m),
{
}

/// An operand that is followed by a token that ends the expression is the
/// whole expression, and parsing stays at the operand.
pub proof fn lemma_operand_alone(m: ParserModel, precedence: Precedence)
    requires
        operand_of(m.curr()) is Some,
        ends_expression(m, precedence),
    ensures
        m.parse_expression(precedence) == (
            Ok::<ExprView, ParserErrorView>(operand_of(m.curr())->0),
            m,
        ),
{
    assert(m.parse_prefix() == (Ok::<ExprView, ParserErrorView>(operand_of(m.curr())->0), m));
    lemma_infix_loop_ends(m, precedence, operand_of(m.curr())->0);
}

/// Where an operator that binds tighter than `precedence` follows `left`,
/// and `right` is what is parsed behind the operator at the operator's own
/// precedence, the two are joined and parsing goes on behind `right`.
pub proof fn lemma_infix_loop_step(
    m: ParserModel,
    precedence: Precedence,
    left: ExprView,
    right: ExprView,
    after: ParserModel,
)
    requires
        infix_operator_of(m.peek()) is Some,
        precedence.rank() < precedence_of(m.peek()).rank(),
        m.advance().advance().parse_expression(precedence_of(m.peek())) == (
            Ok::<ExprView, ParserErrorView>(right),
            after,
        ),
        after.tokens.len() <= m.advance().tokens.len(),
    ensures
        m.parse_infix_loop(precedence, left) == after.parse_infix_loop(
            precedence,
            infix_of(left, m.peek(), right),
        ),
{
    let at_operator = m.advance();
    assert(at_operator.curr() == m.peek());
    assert(at_operator.parse_expr_infix(left) == (
        Ok::<ExprView, ParserErrorView>(infix_of(left, m.peek(), right)),
        after,
    ));
}

/// Operator precedence. Of the five tokens `x a y b z`, where `x`, `y` and
/// `z` are operands and `a` and `b` infix operators, the parser makes one
/// expression statement and records no error: `(x a (y b z))` where `b`
/// binds tighter than `a`, and `((x a y) b z)` where it binds as tightly or
/// less, so that operators of one precedence associate to the left.
pub proof fn lemma_operator_precedence(
    x: TokenView,
    a: TokenView,
    y: TokenView,
    b: TokenView,
    z: TokenView,
    errors: Seq<ParserErrorView>,
)
    requires
        operand_of(x) is Some,
        operand_of(y) is Some,
        operand_of(z) is Some,
        infix_operator_of(a) is Some,
        infix_operator_of(b) is Some,
    ensures
        (ParserModel { tokens: seq![x, a, y, b, z], errors }).parse_program().0 == seq![
            StmtView::Expression(
                if precedence_of(a).rank() < precedence_of(b).rank() {
                    infix_of(
                        operand_of(x)->0,
                        a,
                        infix_of(operand_of(y)->0, b, operand_of(z)->0),
                    )
                } else {
                    infix_of(
                        infix_of(operand_of(x)->0, a, operand_of(y)->0),
                        b,
                        operand_of(z)->0,
                    )
                },
            ),
        ],
        (ParserModel { tokens: seq![x, a, y, b, z], errors }).parse_program().1.errors == errors,
{
    let m0 = ParserModel { tokens: seq![x, a, y, b, z], errors };
    let m2 = ParserModel { tokens: seq![y, b, z], errors };
    let m4 = ParserModel { tokens: seq![z], errors };
    let done = ParserModel { tokens: Seq::empty(), errors };
    let ex = operand_of(x)->0;
    let ey = operand_of(y)->0;
    let ez = operand_of(z)->0;
    assert(m0.advance().tokens =~= seq![a, y, b, z]);
    assert(m0.advance().advance().tokens =~= m2.tokens);
    assert(m0.advance().advance() == m2);
    assert(m2.advance().tokens =~= seq![b, z]);
    assert(m2.advance().advance().tokens =~= m4.tokens);
    assert(m2.advance().advance() == m4);
    assert(m4.advance().tokens =~= done.tokens);
    assert(m4.advance() == done);
    assert(m0.curr() == x && m0.peek() == a);
    assert(m2.curr() == y && m2.peek() == b);
    assert(m4.curr() == z && m4.peek() is Eof);
    let whole = if precedence_of(a).rank() < precedence_of(b).rank() {
        infix_of(ex, a, infix_of(ey, b, ez))
    } else {
        infix_of(infix_of(ex, a, ey), b, ez)
    };
    lemma_operand_alone(m4, precedence_of(b));
    assert(m0.parse_prefix() == (Ok::<ExprView, ParserErrorView>(ex), m0));
    if precedence_of(a).rank() < precedence_of(b).rank() {
        assert(m2.parse_prefix() == (Ok::<ExprView, ParserErrorView>(ey), m2));
        lemma_infix_loop_step(m2, precedence_of(a), ey, ez, m4);
        lemma_infix_loop_ends(m4, precedence_of(a), infix_of(ey, b, ez));
        assert(m2.parse_expression(precedence_of(a)) == (
            Ok::<ExprView, ParserErrorView>(infix_of(ey, b, ez)),
            m4,
        ));
        lemma_infix_loop_step(m0, Precedence::Lowest, ex, infix_of(ey, b, ez), m4);
        lemma_infix_loop_ends(m4, Precedence::Lowest, whole);
    } else {
        lemma_operand_alone(m2, precedence_of(a));
        lemma_infix_loop_step(m0, Precedence::Lowest, ex, ey, m2);
        lemma_infix_loop_step(m2, Precedence::Lowest, infix_of(ex, a, ey), ez, m4);
        lemma_infix_loop_ends(m4, Precedence::Lowest, whole);
    }
    assert(m0.parse_expression(Precedence::Lowest) == (
        Ok::<ExprView, ParserErrorView>(whole),
        m4,
    ));
    assert(m0.parse_statement() == (
        Ok::<StmtView, ParserErrorView>(StmtView::Expression(whole)),
        m4,
    ));
    assert(done.parse_program_loop(seq![StmtView::Expression(whole)]) == (
        seq![StmtView::Expression(whole)],
        done,
    ));
    assert(Seq::<StmtView>::empty().push(StmtView::Expression(whole)) =~= seq![
        StmtView::Expression(whole),
    ]);
    assert(m0.parse_program_loop(Seq::empty()) == done.parse_program_loop(
        seq![StmtView::Expression(whole)],
    ));
}

} // verus!
