//! The decisions of the interactive shell: what a line of input means in
//! each mode. Reading the lines and printing the replies is left to the
//! program around the library.

use vstd::prelude::*;
use crate::ast::{Program, StmtView};
use crate::environment::{root_only, Environment, ScopeView};
use crate::evaluation::{eval_program, EvalError, EvalErrorView};
use crate::lexer::{tokens_of, Lexer};
use crate::object::{ObjView, Object};
use crate::parser::{errors_view, parse_text, Parser, ParserError, ParserErrorView};
use crate::token::{Token, TokenView};

verus! {

/// What the shell does with a line of input.
#[derive(Clone, Copy, Debug, PartialEq, Eq, Structural)]
pub enum ReplMode {
    /// Show its tokens.
    Lexing,
    /// Show the program it is parsed to.
    Parsing,
    /// Show the value it evaluates to.
    Eval,
}

/// The text of a line without the white space at its ends, as `str::trim`
/// gives it.
pub uninterp spec fn trimmed_text(line: Seq<char>) -> Seq<char>;

/// The text in lower case, as `str::to_lowercase` gives it.
pub uninterp spec fn lowercase_text(text: Seq<char>) -> Seq<char>;

/// The text without the white space at its ends.
///
/// Trusted: the result is what `str::trim` returns, which depends on the
/// text alone.
#[verifier::external_body]
fn trimmed(line: &str) -> (text: &str)
    ensures
        text@ == trimmed_text(line@),
{
    line.trim()
}

/// The text in lower case.
///
/// Trusted: the result is what `str::to_lowercase` returns, which depends
/// on the text alone.
#[verifier::external_body]
fn lowercased(text: &str) -> (lower: String)
    ensures
        lower@ == lowercase_text(text@),
{
    text.to_lowercase()
}

/// The word that a line is compared with to tell a command: the line
/// without the white space at its ends, in lower case.
pub open spec fn command_word(line: Seq<char>) -> Seq<char> {
    lowercase_text(trimmed_text(line))
}

/// The mode that a command word names, if any.
pub open spec fn mode_named(word: Seq<char>) -> Option<ReplMode> {
    if word == "lexing"@ {
        Some(ReplMode::Lexing)
    } else if word == "parsing"@ {
        Some(ReplMode::Parsing)
    } else if word == "eval"@ {
        Some(ReplMode::Eval)
    } else {
        None
    }
}

/// The name that a mode is shown by.
pub open spec fn mode_text(mode: ReplMode) -> Seq<char> {
    match mode {
        ReplMode::Lexing => "Lexing"@,
        ReplMode::Parsing => "Parsing"@,
        ReplMode::Eval => "Eval"@,
    }
}

impl ReplMode {
    /// The mode that a command word names; an error for any other word.
    pub fn from_word(word: &String) -> (res: Result<ReplMode, ()>)
        ensures
            res.ok() == mode_named(word@),
    {
        if *word == String::from_str("lexing") {
            Ok(ReplMode::Lexing)
        } else if *word == String::from_str("parsing") {
            Ok(ReplMode::Parsing)
        } else if *word == String::from_str("eval") {
            Ok(ReplMode::Eval)
        } else {
            Err(())
        }
    }

    /// The mode that a line names, white space at its ends and the case of
    /// its letters disregarded; an error for any other line.
    pub fn from_str(s: &str) -> (res: Result<ReplMode, ()>)
        ensures
            res.ok() == mode_named(command_word(s@)),
    {
        let word = lowercased(trimmed(s));
        ReplMode::from_word(&word)
    }

    /// The name that the mode is shown by.
    pub fn to_string(&self) -> (name: String)
        ensures
            name@ == mode_text(*self),
    {
        match self {
            ReplMode::Lexing => String::from_str("Lexing"),
            ReplMode::Parsing => String::from_str("Parsing"),
            ReplMode::Eval => String::from_str("Eval"),
        }
    }
}

/// What the shell answers to a line.
#[derive(Debug)]
pub enum Reply {
    /// The mode was changed to this one.
    Mode(ReplMode),
    /// The session is over.
    Exit,
    /// The tokens of the line.
    Tokens(Vec<Token>),
    /// The program that the line was parsed to, and the errors met.
    Parsed { program: Program, errors: Vec<ParserError> },
    /// The line did not parse; it was not evaluated.
    ParseFailed(Vec<ParserError>),
    /// The value of the line.
    Value(Object),
    /// The evaluation of the line failed.
    EvalFailed(EvalError),
}

/// The mathematical value of a reply.
pub enum ReplyView {
    Mode(ReplMode),
    Exit,
    Tokens(Seq<TokenView>),
    Parsed { program: Seq<StmtView>, errors: Seq<ParserErrorView> },
    ParseFailed(Seq<ParserErrorView>),
    Value(ObjView),
    EvalFailed(EvalErrorView),
}

/// The models of a sequence of tokens, in order.
pub open spec fn tokens_view(v: Seq<Token>) -> Seq<TokenView> {
    v.map_values(|t: Token| t@)
}

impl View for Reply {
    type V = ReplyView;

    open spec fn view(&self) -> ReplyView {
        match self {
            Reply::Mode(mode) => ReplyView::Mode(*mode),
            Reply::Exit => ReplyView::Exit,
            Reply::Tokens(tokens) => ReplyView::Tokens(tokens_view(tokens@)),
            Reply::Parsed { program, errors } => ReplyView::Parsed {
                program: program@,
                errors: errors_view(errors@),
            },
            Reply::ParseFailed(errors) => ReplyView::ParseFailed(errors_view(errors@)),
            Reply::Value(value) => ReplyView::Value(value@),
            Reply::EvalFailed(error) => ReplyView::EvalFailed(error@),
        }
    }
}

/// The state of a shell as a mathematical value.
pub struct ReplView {
    pub mode: ReplMode,
    pub environment: Option<Seq<ScopeView>>,
}

/// The state of a shell: its mode and, in evaluation mode, the environment
/// that the lines of the session share.
#[derive(Debug)]
pub struct Repl {
    mode: ReplMode,
    environment: Option<Environment>,
}

/// The state after a change to `mode`: a new environment in evaluation
/// mode, none in the other modes.
pub open spec fn swapped(mode: ReplMode) -> ReplView {
    ReplView {
        mode,
        environment: if mode is Eval {
            Some(root_only())
        } else {
            None
        },
    }
}

/// The environment that a line is evaluated in: that of the session, or a
/// new one where the session has none.
pub open spec fn session_environment(state: ReplView) -> Seq<ScopeView> {
    match state.environment {
        Some(environment) => environment,
        None => root_only(),
    }
}

/// The reply to a line in evaluation mode and the state after it. A line
/// that does not parse without error is not evaluated.
pub open spec fn evaluated(state: ReplView, line: Seq<char>) -> (ReplyView, ReplView) {
    let (program, errors) = parse_text(line);
    if errors.len() > 0 {
        (
            ReplyView::ParseFailed(errors),
            ReplView { mode: state.mode, environment: Some(session_environment(state)) },
        )
    } else {
        let (outcome, environment) = eval_program(program, session_environment(state));
        (
            match outcome {
                Ok(value) => ReplyView::Value(value),
                Err(error) => ReplyView::EvalFailed(error),
            },
            ReplView { mode: state.mode, environment: Some(environment) },
        )
    }
}

/// The reply to a line whose command word is `word`, and the state after
/// it. The name of a mode changes the mode; `exit` ends the session; any
/// other line is handled as the mode says.
pub open spec fn reaction(state: ReplView, word: Seq<char>, line: Seq<char>) -> (
    ReplyView,
    ReplView,
) {
    match mode_named(word) {
        Some(mode) => (ReplyView::Mode(mode), swapped(mode)),
        None => if word == "exit"@ {
            (ReplyView::Exit, state)
        } else {
            match state.mode {
                ReplMode::Lexing => (ReplyView::Tokens(tokens_of(line)), state),
                ReplMode::Parsing => (
                    ReplyView::Parsed { program: parse_text(line).0, errors: parse_text(line).1 },
                    state,
                ),
                ReplMode::Eval => evaluated(state, line),
            }
        },
    }
}

impl View for Repl {
    type V = ReplView;

    closed spec fn view(&self) -> ReplView {
        ReplView {
            mode: self.mode,
            environment: match self.environment {
                Some(environment) => Some(environment@),
                None => None,
            },
        }
    }
}

impl Default for Repl {
    /// A shell in evaluation mode that has no environment yet.
    fn default() -> (repl: Repl)
        ensures
            repl@ == (ReplView { mode: ReplMode::Eval, environment: None }),
    {
        Repl { mode: ReplMode::Eval, environment: None }
    }
}

impl Repl {
    /// The mode that the shell is in.
    pub fn mode(&self) -> (mode: ReplMode)
        ensures
            mode == self@.mode,
    {
        self.mode
    }

    /// Changes the mode. Evaluation mode begins with a new environment; the
    /// other modes have none.
    pub fn swap_mode(&mut self, mode: ReplMode)
        ensures
            final(self)@ == swapped(mode),
    {
        self.mode = mode;
        match mode {
            ReplMode::Eval => {
                self.environment = Some(Environment::new_rc());
            },
            _ => {
                self.environment = None;
            },
        }
    }

    /// The tokens of a line, the final `Eof` left out.
    pub fn lex_input(&self, input: String) -> (reply: Reply)
        ensures
            reply@ == ReplyView::Tokens(tokens_of(input@)),
    {
        let ghost all = tokens_of(input@);
        let mut lexer = Lexer::new(input);
        let mut tokens: Vec<Token> = Vec::new();
        assert(tokens_view(tokens@) + lexer.remaining() =~= all);
        loop
            invariant
                all == tokens_of(input@),
                tokens_view(tokens@) + lexer.remaining() == all,
            decreases lexer.remaining().len(),
        {
            let token = lexer.next_token();
            if token.same(&Token::Eof) {
                assert(tokens_view(tokens@) =~= all);
                return Reply::Tokens(tokens);
            }
            proof {
                assert(tokens_view(tokens@.push(token)) =~= tokens_view(tokens@).push(token@));
                assert(tokens_view(tokens@).push(token@) + lexer.remaining() =~= all);
            }
            tokens.push(token);
        }
    }

    /// The program that a line is parsed to, and the errors met.
    pub fn parse_input(&self, input: String) -> (reply: Reply)
        ensures
            reply@ == (ReplyView::Parsed {
                program: parse_text(input@).0,
                errors: parse_text(input@).1,
            }),
    {
        let mut parser = Parser::new(Lexer::new(input));
        match parser.parse_program() {
            Ok(program) => Reply::Parsed { program, errors: parser.into_errors() },
            Err(_) => Reply::Parsed {
                program: Program { statements: Vec::new() },
                errors: parser.into_errors(),
            },
        }
    }

    /// Evaluates a line in the environment of the session, unless it does
    /// not parse without error.
    pub fn eval_input(&mut self, input: String) -> (reply: Reply)
        ensures
            (reply@, final(self)@) == evaluated(old(self)@, input@),
    {
        let mut parser = Parser::new(Lexer::new(input));
        let parsed = parser.parse_program();
        let errors = parser.into_errors();
        let mut environment = match self.environment.take() {
            Some(environment) => environment,
            None => Environment::new_rc(),
        };
        if errors.len() > 0 {
            self.environment = Some(environment);
            return Reply::ParseFailed(errors);
        }
        let reply = match parsed {
            Ok(program) => match program.eval(&mut environment) {
                Ok(value) => Reply::Value(value),
                Err(error) => Reply::EvalFailed(error),
            },
            Err(_) => Reply::ParseFailed(errors),
        };
        self.environment = Some(environment);
        reply
    }

    /// Answers a line whose command word is `word`.
    pub fn react(&mut self, word: &String, line: String) -> (reply: Reply)
        ensures
            (reply@, final(self)@) == reaction(old(self)@, word@, line@),
    {
        match ReplMode::from_word(word) {
            Ok(mode) => {
                self.swap_mode(mode);
                Reply::Mode(mode)
            },
            Err(_) => {
                if *word == String::from_str("exit") {
                    Reply::Exit
                } else {
                    match self.mode {
                        ReplMode::Lexing => self.lex_input(line),
                        ReplMode::Parsing => self.parse_input(line),
                        ReplMode::Eval => self.eval_input(line),
                    }
                }
            },
        }
    }

    /// Answers a line of input: the name of a mode changes the mode, `exit`
    /// ends the session, and any other line is handled as the mode says.
    /// White space at the ends of a command and the case of its letters are
    /// disregarded.
    pub fn step(&mut self, line: String) -> (reply: Reply)
        ensures
            (reply@, final(self)@) == reaction(old(self)@, command_word(line@), line@),
    {
        let word = lowercased(trimmed(line.as_str()));
        self.react(&word, line)
    }
}

} // verus!
