//! What the printer writes, the lexer reads back: the tokens of the printed
//! form of an expression or a statement are those that the parser expects.

use vstd::prelude::*;
use crate::ast::{
    expr_text, infix_text, list_text, prefix_text, stmt_text, stmts_text, ExprView,
    InfixOperator, PrefixOperator, StmtView,
};
use crate::lexer::{
    digit_value, digits_value, identifier_end, is_blank_char, is_digit_char, is_identifier_char,
    next_token_at, number_end, number_token, skip_blank, tokens_from, word_token,
};
use crate::parser::{parse_text, ParserErrorView};
use crate::reparse::{
    all_plain, arguments_then, cons, infix_token, lemma_printed_program_parses,
    more_arguments_then, plain, program_tokens, separable, tokens_then,
};
use crate::text::{digit_char, nat_text};
use crate::token::TokenView;

verus! {

/// Whether the text `s` holds the text `t` at `pos`.
pub open spec fn has_at(s: Seq<char>, pos: int, t: Seq<char>) -> bool {
    0 <= pos && pos + t.len() <= s.len() && s.subrange(pos, pos + t.len()) == t
}

/// Where a text holds two texts joined, it holds the first, and the second
/// behind the first.
pub proof fn lemma_has_at_split(s: Seq<char>, pos: int, a: Seq<char>, b: Seq<char>)
    requires
        has_at(s, pos, a + b),
    ensures
        has_at(s, pos, a),
        has_at(s, pos + a.len(), b),
{
    assert(s.subrange(pos, pos + a.len()) =~= (a + b).subrange(0, a.len() as int));
    assert((a + b).subrange(0, a.len() as int) =~= a);
    assert(s.subrange(pos + a.len(), pos + a.len() + b.len()) =~= (a + b).subrange(
        a.len() as int,
        (a + b).len() as int,
    ));
    assert((a + b).subrange(a.len() as int, (a + b).len() as int) =~= b);
}

/// Where a text holds a text, it holds each of its characters.
pub proof fn lemma_has_at_index(s: Seq<char>, pos: int, t: Seq<char>, i: int)
    requires
        has_at(s, pos, t),
        0 <= i < t.len(),
    ensures
        s[pos + i] == t[i],
{
    assert(s.subrange(pos, pos + t.len())[i] == s[pos + i]);
}

/// The token of a character that is a token by itself.
pub open spec fn sign_token(c: char) -> TokenView {
    if c == '+' {
        TokenView::Plus
    } else if c == '-' {
        TokenView::Minus
    } else if c == '*' {
        TokenView::Asterisk
    } else if c == '/' {
        TokenView::Slash
    } else if c == '<' {
        TokenView::LessThan
    } else if c == '>' {
        TokenView::GreaterThan
    } else if c == ';' {
        TokenView::Semicolon
    } else if c == '(' {
        TokenView::LParen
    } else if c == ')' {
        TokenView::RParen
    } else if c == ',' {
        TokenView::Comma
    } else if c == '=' {
        TokenView::Assign
    } else {
        TokenView::Bang
    }
}

/// A character that is a token by itself, unless it is `=` or `!` and `=`
/// follows.
pub open spec fn is_sign(c: char) -> bool {
    c == '+' || c == '-' || c == '*' || c == '/' || c == '<' || c == '>' || c == ';' || c == '('
        || c == ')' || c == ',' || c == '=' || c == '!'
}

/// A sign is read as its token.
pub proof fn lemma_lex_sign(s: Seq<char>, pos: int)
    requires
        0 <= pos < s.len(),
        is_sign(s[pos]),
        s[pos] == '=' || s[pos] == '!' ==> pos + 1 == s.len() || s[pos + 1] != '=',
    ensures
        tokens_from(s, pos) == cons(sign_token(s[pos]), tokens_from(s, pos + 1)),
{
    assert(skip_blank(s, pos) == pos);
}

/// `==` and `!=` are read as one token.
pub proof fn lemma_lex_equality(s: Seq<char>, pos: int)
    requires
        0 <= pos,
        pos + 1 < s.len(),
        s[pos] == '=' || s[pos] == '!',
        s[pos + 1] == '=',
    ensures
        tokens_from(s, pos) == cons(
            if s[pos] == '=' {
                TokenView::Eq
            } else {
                TokenView::NotEq
            },
            tokens_from(s, pos + 2),
        ),
{
    assert(skip_blank(s, pos) == pos);
}

/// A space is passed over.
pub proof fn lemma_lex_space(s: Seq<char>, pos: int)
    requires
        0 <= pos < s.len(),
        s[pos] == ' ',
    ensures
        tokens_from(s, pos) == tokens_from(s, pos + 1),
{
    assert(skip_blank(s, pos) == skip_blank(s, pos + 1));
    assert(next_token_at(s, pos) == next_token_at(s, pos + 1));
    crate::lexer::lemma_next_token_advances(s, pos);
    crate::lexer::lemma_next_token_advances(s, pos + 1);
}

/// A run of identifier characters ends where the first other character
/// stands.
pub proof fn lemma_identifier_run(s: Seq<char>, pos: int, count: int)
    requires
        0 <= pos,
        0 <= count,
        pos + count <= s.len(),
        forall|i: int| 0 <= i < count ==> is_identifier_char(#[trigger] s[pos + i]),
        pos + count == s.len() || !is_identifier_char(s[pos + count]),
    ensures
        identifier_end(s, pos) == pos + count,
    decreases count,
{
    if count > 0 {
        assert(is_identifier_char(s[pos + 0]));
        assert forall|i: int| 0 <= i < count - 1 implies is_identifier_char(
            #[trigger] s[pos + 1 + i],
        ) by {
            assert(s[pos + 1 + i] == s[pos + (i + 1)]);
        }
        lemma_identifier_run(s, pos + 1, count - 1);
    }
}

/// A run of digits ends where the first other character stands.
pub proof fn lemma_number_run(s: Seq<char>, pos: int, count: int)
    requires
        0 <= pos,
        0 <= count,
        pos + count <= s.len(),
        forall|i: int| 0 <= i < count ==> is_digit_char(#[trigger] s[pos + i]),
        pos + count == s.len() || !is_digit_char(s[pos + count]),
    ensures
        number_end(s, pos) == pos + count,
    decreases count,
{
    if count > 0 {
        assert(is_digit_char(s[pos + 0]));
        assert forall|i: int| 0 <= i < count - 1 implies is_digit_char(
            #[trigger] s[pos + 1 + i],
        ) by {
            assert(s[pos + 1 + i] == s[pos + (i + 1)]);
        }
        lemma_number_run(s, pos + 1, count - 1);
    }
}

/// A text that can stand as a word: not empty, made of identifier
/// characters, and beginning with none that counts as white space.
pub open spec fn is_word(w: Seq<char>) -> bool {
    &&& w.len() > 0
    &&& forall|i: int| 0 <= i < w.len() ==> is_identifier_char(#[trigger] w[i])
    &&& !is_blank_char(w[0])
}

/// A word that is followed by no identifier character is read as the
/// keyword or identifier that it spells.
pub proof fn lemma_lex_word(s: Seq<char>, pos: int, w: Seq<char>)
    requires
        has_at(s, pos, w),
        is_word(w),
        pos + w.len() == s.len() || !is_identifier_char(s[pos + w.len()]),
    ensures
        tokens_from(s, pos) == cons(word_token(w), tokens_from(s, pos + w.len())),
{
    assert forall|i: int| 0 <= i < w.len() implies is_identifier_char(#[trigger] s[pos + i]) by {
        lemma_has_at_index(s, pos, w, i);
    }
    lemma_identifier_run(s, pos, w.len() as int);
    lemma_has_at_index(s, pos, w, 0);
    assert(skip_blank(s, pos) == pos);
    assert(is_identifier_char(s[pos]));
}

/// Every character of the decimal digits of a number is a digit.
pub proof fn lemma_nat_text_digits(n: nat)
    ensures
        nat_text(n).len() > 0,
        forall|i: int| 0 <= i < nat_text(n).len() ==> is_digit_char(#[trigger] nat_text(n)[i]),
    decreases n,
{
    if n >= 10 {
        lemma_nat_text_digits(n / 10);
    }
}

/// The decimal digits of a number denote the number.
pub proof fn lemma_nat_text_value(n: nat)
    ensures
        digits_value(nat_text(n)) == n,
    decreases n,
{
    if n < 10 {
        assert(nat_text(n).drop_last() =~= Seq::<char>::empty());
        assert(digits_value(nat_text(n).drop_last()) == 0);
        assert(digit_value(digit_char(n as int)) == n);
    } else {
        lemma_nat_text_value(n / 10);
        assert(nat_text(n).drop_last() =~= nat_text(n / 10));
        assert(digit_value(digit_char((n % 10) as int)) == n % 10);
    }
}

/// The decimal digits of a number that fits in 64 signed bits, followed by
/// no digit, are read as the number.
pub proof fn lemma_lex_number(s: Seq<char>, pos: int, n: i64)
    requires
        n >= 0,
        has_at(s, pos, nat_text(n as nat)),
        pos + nat_text(n as nat).len() == s.len() || !is_digit_char(
            s[pos + nat_text(n as nat).len()],
        ),
    ensures
        tokens_from(s, pos) == cons(
            TokenView::Int(n),
            tokens_from(s, pos + nat_text(n as nat).len()),
        ),
{
    let digits = nat_text(n as nat);
    lemma_nat_text_digits(n as nat);
    lemma_nat_text_value(n as nat);
    assert forall|i: int| 0 <= i < digits.len() implies is_digit_char(#[trigger] s[pos + i]) by {
        lemma_has_at_index(s, pos, digits, i);
    }
    lemma_number_run(s, pos, digits.len() as int);
    lemma_has_at_index(s, pos, digits, 0);
    assert(is_digit_char(s[pos]));
    assert(skip_blank(s, pos) == pos);
    assert(number_token(digits) == TokenView::Int(n));
}

/// What the texts that the printer writes around names and numbers hold.
pub proof fn lemma_printed_signs()
    ensures
        "("@ == seq!['('],
        ")"@ == seq![')'],
        " "@ == seq![' '],
        ", "@ == seq![',', ' '],
        ";"@ == seq![';'],
        "!"@ == seq!['!'],
        "-"@ == seq!['-'],
        "+"@ == seq!['+'],
        "*"@ == seq!['*'],
        "/"@ == seq!['/'],
        ">"@ == seq!['>'],
        "<"@ == seq!['<'],
        "=="@ == seq!['=', '='],
        "!="@ == seq!['!', '='],
        " = "@ == seq![' ', '=', ' '],
{
    reveal_strlit("(");
    reveal_strlit(")");
    reveal_strlit(" ");
    reveal_strlit(", ");
    reveal_strlit(";");
    reveal_strlit("!");
    reveal_strlit("-");
    reveal_strlit("+");
    reveal_strlit("*");
    reveal_strlit("/");
    reveal_strlit(">");
    reveal_strlit("<");
    reveal_strlit("==");
    reveal_strlit("!=");
    reveal_strlit(" = ");
    assert("("@ =~= seq!['(']);
    assert(")"@ =~= seq![')']);
    assert(" "@ =~= seq![' ']);
    assert(", "@ =~= seq![',', ' ']);
    assert(";"@ =~= seq![';']);
    assert("!"@ =~= seq!['!']);
    assert("-"@ =~= seq!['-']);
    assert("+"@ =~= seq!['+']);
    assert("*"@ =~= seq!['*']);
    assert("/"@ =~= seq!['/']);
    assert(">"@ =~= seq!['>']);
    assert("<"@ =~= seq!['<']);
    assert("=="@ =~= seq!['=', '=']);
    assert("!="@ =~= seq!['!', '=']);
    assert(" = "@ =~= seq![' ', '=', ' ']);
}

/// What the words that the printer writes hold, and the tokens that they
/// are read as.
pub proof fn lemma_printed_words()
    ensures
        "true"@ == seq!['t', 'r', 'u', 'e'],
        "false"@ == seq!['f', 'a', 'l', 's', 'e'],
        "let "@ == seq!['l', 'e', 't', ' '],
        "return "@ == seq!['r', 'e', 't', 'u', 'r', 'n', ' '],
        is_word("true"@),
        is_word("false"@),
        is_word(seq!['l', 'e', 't']),
        is_word(seq!['r', 'e', 't', 'u', 'r', 'n']),
        word_token("true"@) == TokenView::True,
        word_token("false"@) == TokenView::False,
        word_token(seq!['l', 'e', 't']) == TokenView::Let,
        word_token(seq!['r', 'e', 't', 'u', 'r', 'n']) == TokenView::Return,
{
    reveal_strlit("fn");
    reveal_strlit("let");
    reveal_strlit("true");
    reveal_strlit("false");
    reveal_strlit("if");
    reveal_strlit("else");
    reveal_strlit("return");
    reveal_strlit("let ");
    reveal_strlit("return ");
    assert("true"@ =~= seq!['t', 'r', 'u', 'e']);
    assert("false"@ =~= seq!['f', 'a', 'l', 's', 'e']);
    assert("let "@ =~= seq!['l', 'e', 't', ' ']);
    assert("return "@ =~= seq!['r', 'e', 't', 'u', 'r', 'n', ' ']);
    assert("let"@ =~= seq!['l', 'e', 't']);
    assert("return"@ =~= seq!['r', 'e', 't', 'u', 'r', 'n']);
    assert("fn"@.len() == 2);
    assert("if"@.len() == 2);
    assert("else"@.len() == 4);
    assert("else"@[0] == 'e');
}

/// A text that the lexer reads as an identifier of that name: a word that
/// is no keyword.
pub open spec fn is_name(name: Seq<char>) -> bool {
    is_word(name) && word_token(name) == TokenView::Ident(name)
}

/// A plain expression all of whose identifiers are names.
pub open spec fn writable(e: ExprView) -> bool
    decreases e,
{
    match e {
        ExprView::Identifier(name) => is_name(name),
        ExprView::Int(n) => n >= 0,
        ExprView::Bool(_) => true,
        ExprView::Prefix { operator, right } => writable(*right),
        ExprView::Infix { left, operator, right } => writable(*left) && writable(*right),
        ExprView::FunctionCall { function, arguments } => writable(*function) && all_writable(
            arguments,
        ),
        _ => false,
    }
}

/// Whether every expression of a sequence is writable.
pub open spec fn all_writable(v: Seq<ExprView>) -> bool
    decreases v,
{
    v.len() == 0 || (writable(v.first()) && all_writable(v.drop_first()))
}

/// A writable expression is plain.
pub proof fn lemma_writable_is_plain(e: ExprView)
    requires
        writable(e),
    ensures
        plain(e),
    decreases e,
{
    match e {
        ExprView::Prefix { operator, right } => {
            lemma_writable_is_plain(*right);
        },
        ExprView::Infix { left, operator, right } => {
            lemma_writable_is_plain(*left);
            lemma_writable_is_plain(*right);
        },
        ExprView::FunctionCall { function, arguments } => {
            lemma_writable_is_plain(*function);
            lemma_all_writable_is_plain(arguments);
        },
        _ => {},
    }
}

/// Writable expressions are plain.
pub proof fn lemma_all_writable_is_plain(v: Seq<ExprView>)
    requires
        all_writable(v),
    ensures
        all_plain(v),
    decreases v,
{
    if v.len() > 0 {
        lemma_writable_is_plain(v.first());
        lemma_all_writable_is_plain(v.drop_first());
    }
}

/// Whether the printed form of an expression, when it ends at `end` in the
/// text `s`, is kept apart from what follows: a name or a boolean is
/// followed by no identifier character, an integer by no digit.
pub open spec fn kept_apart(e: ExprView, s: Seq<char>, end: int) -> bool {
    match e {
        ExprView::Identifier(_) | ExprView::Bool(_) => end >= s.len() || !is_identifier_char(
            s[end],
        ),
        ExprView::Int(_) => end >= s.len() || !is_digit_char(s[end]),
        _ => true,
    }
}

/// The printed forms of arguments, `, ` between them.
pub open spec fn arguments_text(v: Seq<ExprView>) -> Seq<char>
    decreases v.len(),
{
    if v.len() == 0 {
        Seq::empty()
    } else {
        expr_text(v.first()) + more_arguments_text(v.drop_first())
    }
}

/// The printed forms of arguments, `, ` before each.
pub open spec fn more_arguments_text(v: Seq<ExprView>) -> Seq<char>
    decreases v.len(),
{
    if v.len() == 0 {
        Seq::empty()
    } else {
        ", "@ + expr_text(v.first()) + more_arguments_text(v.drop_first())
    }
}

/// The printed form of arguments extended by one.
pub proof fn lemma_more_arguments_text_push(v: Seq<ExprView>, e: ExprView)
    ensures
        more_arguments_text(v.push(e)) == more_arguments_text(v) + ", "@ + expr_text(e),
    decreases v.len(),
{
    if v.len() == 0 {
        assert(v.push(e).drop_first() =~= Seq::<ExprView>::empty());
        assert(v.push(e).first() == e);
        assert(more_arguments_text(v.push(e).drop_first()) == Seq::<char>::empty());
        assert(more_arguments_text(v) == Seq::<char>::empty());
        assert(more_arguments_text(v.push(e)) == ", "@ + expr_text(e) + Seq::<char>::empty());
        assert(", "@ + expr_text(e) + Seq::<char>::empty() =~= Seq::<char>::empty() + ", "@
            + expr_text(e));
    } else {
        lemma_more_arguments_text_push(v.drop_first(), e);
        assert(v.push(e).drop_first() =~= v.drop_first().push(e));
        assert(v.push(e).first() == v.first());
        let tail = more_arguments_text(v.drop_first());
        assert(more_arguments_text(v.push(e)) == ", "@ + expr_text(v.first()) + (tail + ", "@
            + expr_text(e)));
        assert(more_arguments_text(v) == ", "@ + expr_text(v.first()) + tail);
        assert(", "@ + expr_text(v.first()) + (tail + ", "@ + expr_text(e)) =~= (", "@ + expr_text(
            v.first(),
        ) + tail) + ", "@ + expr_text(e));
    }
}

/// A list of expressions is printed as its first expression and the others
/// with `, ` before each.
pub proof fn lemma_list_text_from_first(v: Seq<ExprView>)
    ensures
        list_text(v) == arguments_text(v),
    decreases v.len(),
{
    if v.len() == 0 {
    } else if v.len() == 1 {
        assert(v.drop_first() =~= Seq::<ExprView>::empty());
        assert(list_text(v) =~= arguments_text(v));
    } else {
        let front = v.drop_last();
        lemma_list_text_from_first(front);
        lemma_more_arguments_text_push(front.drop_first(), v.last());
        assert(front.drop_first().push(v.last()) =~= v.drop_first());
        assert(front.first() == v.first());
        assert(list_text(v) =~= arguments_text(v));
    }
}

/// The printed form of a writable expression is not empty and begins with
/// a character that is neither white space nor `=`.
pub proof fn lemma_text_starts(e: ExprView)
    requires
        writable(e),
    ensures
        expr_text(e).len() > 0,
        !is_blank_char(expr_text(e)[0]),
        expr_text(e)[0] != '=',
        expr_text(e)[0] != ')',
    decreases e,
{
    lemma_printed_signs();
    lemma_printed_words();
    match e {
        ExprView::Int(n) => {
            lemma_nat_text_digits(n as nat);
        },
        ExprView::FunctionCall { function, arguments } => {
            lemma_text_starts(*function);
        },
        _ => {},
    }
}

/// Where the parts of a printed prefix expression stand.
pub proof fn lemma_prefix_layout(operator: PrefixOperator, right: ExprView, s: Seq<char>, pos: int)
    requires
        writable(right),
        has_at(s, pos, expr_text(ExprView::Prefix { operator, right: Box::new(right) })),
    ensures
        expr_text(ExprView::Prefix { operator, right: Box::new(right) }).len() == expr_text(
            right,
        ).len() + 3,
        s[pos] == '(',
        s[pos + 1] == (if operator is Bang {
            '!'
        } else {
            '-'
        }),
        has_at(s, pos + 2, expr_text(right)),
        s[pos + 2] != '=',
        s[pos + 2 + expr_text(right).len()] == ')',
{
    lemma_printed_signs();
    let sign = prefix_text(operator);
    let inner = expr_text(right);
    lemma_has_at_split(s, pos, "("@ + sign + inner, ")"@);
    lemma_has_at_split(s, pos, "("@ + sign, inner);
    lemma_has_at_split(s, pos, "("@, sign);
    lemma_has_at_index(s, pos, "("@, 0);
    lemma_has_at_index(s, pos + 1, sign, 0);
    lemma_has_at_index(s, pos + 2 + inner.len(), ")"@, 0);
    lemma_text_starts(right);
    lemma_has_at_index(s, pos + 2, inner, 0);
}

/// The number of characters of the sign of an infix operator.
pub open spec fn infix_sign_len(operator: InfixOperator) -> int {
    match operator {
        InfixOperator::Equal | InfixOperator::NotEqual => 2,
        _ => 1,
    }
}

/// Where the parts of a printed infix expression stand, and what the lexer
/// reads the operator as.
pub proof fn lemma_infix_layout(
    left: ExprView,
    operator: InfixOperator,
    right: ExprView,
    s: Seq<char>,
    pos: int,
)
    requires
        has_at(
            s,
            pos,
            expr_text(
                ExprView::Infix { left: Box::new(left), operator, right: Box::new(right) },
            ),
        ),
    ensures
        expr_text(
            ExprView::Infix { left: Box::new(left), operator, right: Box::new(right) },
        ).len() == expr_text(left).len() + expr_text(right).len() + infix_sign_len(operator) + 4,
        s[pos] == '(',
        has_at(s, pos + 1, expr_text(left)),
        s[pos + 1 + expr_text(left).len()] == ' ',
        tokens_from(s, pos + 2 + expr_text(left).len()) == cons(
            infix_token(operator),
            tokens_from(s, pos + 2 + expr_text(left).len() + infix_sign_len(operator)),
        ),
        s[pos + 2 + expr_text(left).len() + infix_sign_len(operator)] == ' ',
        has_at(
            s,
            pos + 3 + expr_text(left).len() + infix_sign_len(operator),
            expr_text(right),
        ),
        s[pos + 3 + expr_text(left).len() + infix_sign_len(operator) + expr_text(right).len()]
            == ')',
{
    lemma_printed_signs();
    let first = expr_text(left);
    let sign = infix_text(operator);
    let second = expr_text(right);
    let at_space = pos + 1 + first.len();
    let at_sign = at_space + 1;
    let at_second = at_sign + sign.len() + 1;
    lemma_has_at_split(s, pos, "("@ + first + " "@ + sign + " "@ + second, ")"@);
    lemma_has_at_split(s, pos, "("@ + first + " "@ + sign + " "@, second);
    lemma_has_at_split(s, pos, "("@ + first + " "@ + sign, " "@);
    lemma_has_at_split(s, pos, "("@ + first + " "@, sign);
    lemma_has_at_split(s, pos, "("@ + first, " "@);
    lemma_has_at_split(s, pos, "("@, first);
    lemma_has_at_index(s, pos, "("@, 0);
    lemma_has_at_index(s, at_space, " "@, 0);
    lemma_has_at_index(s, at_sign, sign, 0);
    lemma_has_at_index(s, at_sign + sign.len(), " "@, 0);
    lemma_has_at_index(s, at_second + second.len(), ")"@, 0);
    match operator {
        InfixOperator::Equal => {
            lemma_has_at_index(s, at_sign, sign, 1);
            lemma_lex_equality(s, at_sign);
        },
        InfixOperator::NotEqual => {
            lemma_has_at_index(s, at_sign, sign, 1);
            lemma_lex_equality(s, at_sign);
        },
        _ => {
            lemma_lex_sign(s, at_sign);
        },
    }
}

/// Where the parts of a printed call stand.
pub proof fn lemma_call_layout(
    function: ExprView,
    arguments: Seq<ExprView>,
    s: Seq<char>,
    pos: int,
)
    requires
        has_at(s, pos, expr_text(ExprView::FunctionCall { function: Box::new(function), arguments })),
    ensures
        expr_text(ExprView::FunctionCall { function: Box::new(function), arguments }).len()
            == expr_text(function).len() + arguments_text(arguments).len() + 2,
        has_at(s, pos, expr_text(function)),
        s[pos + expr_text(function).len()] == '(',
        has_at(s, pos + expr_text(function).len() + 1, arguments_text(arguments)),
        s[pos + expr_text(function).len() + 1 + arguments_text(arguments).len()] == ')',
{
    lemma_printed_signs();
    let callee = expr_text(function);
    let listed = list_text(arguments);
    let at_open = pos + callee.len();
    let at_close = at_open + 1 + listed.len();
    lemma_list_text_from_first(arguments);
    lemma_has_at_split(s, pos, callee + "("@ + listed, ")"@);
    lemma_has_at_split(s, pos, callee + "("@, listed);
    lemma_has_at_split(s, pos, callee, "("@);
    lemma_has_at_index(s, at_open, "("@, 0);
    lemma_has_at_index(s, at_close, ")"@, 0);
}

/// The lexer reads the printed form of a writable expression as the tokens
/// that the parser expects, where what follows is kept apart from it.
pub proof fn lemma_lex_printed_expression(e: ExprView, s: Seq<char>, pos: int)
    requires
        writable(e),
        has_at(s, pos, expr_text(e)),
        kept_apart(e, s, pos + expr_text(e).len()),
    ensures
        tokens_from(s, pos) == tokens_then(e, tokens_from(s, pos + expr_text(e).len())),
    decreases e,
{
    match e {
        ExprView::Identifier(name) => {
            lemma_lex_word(s, pos, name);
        },
        ExprView::Int(n) => {
            lemma_lex_number(s, pos, n);
        },
        ExprView::Bool(b) => {
            lemma_printed_words();
            lemma_lex_word(s, pos, expr_text(e));
        },
        ExprView::Prefix { operator, right } => {
            let inner = expr_text(*right);
            lemma_prefix_layout(operator, *right, s, pos);
            lemma_lex_sign(s, pos);
            lemma_lex_sign(s, pos + 1);
            lemma_lex_printed_expression(*right, s, pos + 2);
            lemma_lex_sign(s, pos + 2 + inner.len());
        },
        ExprView::Infix { left, operator, right } => {
            let first = expr_text(*left);
            let second = expr_text(*right);
            let at_space = pos + 1 + first.len();
            let at_second = at_space + 2 + infix_sign_len(operator);
            lemma_infix_layout(*left, operator, *right, s, pos);
            lemma_lex_sign(s, pos);
            lemma_lex_printed_expression(*left, s, pos + 1);
            lemma_lex_space(s, at_space);
            lemma_lex_space(s, at_second - 1);
            lemma_lex_printed_expression(*right, s, at_second);
            lemma_lex_sign(s, at_second + second.len());
        },
        ExprView::FunctionCall { function, arguments } => {
            let at_open = pos + expr_text(*function).len();
            let at_close = at_open + 1 + arguments_text(arguments).len();
            lemma_call_layout(*function, arguments, s, pos);
            lemma_lex_printed_expression(*function, s, pos);
            lemma_lex_sign(s, at_open);
            lemma_lex_printed_arguments(arguments, s, at_open + 1);
            lemma_lex_sign(s, at_close);
        },
        _ => {},
    }
}

/// The lexer reads the printed form of writable arguments, which a closing
/// parenthesis follows, as the tokens that the parser expects.
pub proof fn lemma_lex_printed_arguments(v: Seq<ExprView>, s: Seq<char>, pos: int)
    requires
        all_writable(v),
        has_at(s, pos, arguments_text(v)),
        pos + arguments_text(v).len() < s.len(),
        s[pos + arguments_text(v).len()] == ')',
    ensures
        tokens_from(s, pos) == arguments_then(v, tokens_from(s, pos + arguments_text(v).len())),
    decreases v,
{
    lemma_printed_signs();
    if v.len() > 0 {
        let first = expr_text(v.first());
        let more = more_arguments_text(v.drop_first());
        lemma_has_at_split(s, pos, first, more);
        if v.drop_first().len() > 0 {
            lemma_has_at_index(s, pos + first.len(), more, 0);
        }
        lemma_lex_printed_expression(v.first(), s, pos);
        lemma_lex_more_printed_arguments(v.drop_first(), s, pos + first.len());
    }
}

/// The lexer reads the printed form of writable arguments, a comma before
/// each, which a closing parenthesis follows, as the tokens that the parser
/// expects.
pub proof fn lemma_lex_more_printed_arguments(v: Seq<ExprView>, s: Seq<char>, pos: int)
    requires
        all_writable(v),
        has_at(s, pos, more_arguments_text(v)),
        pos + more_arguments_text(v).len() < s.len(),
        s[pos + more_arguments_text(v).len()] == ')',
    ensures
        tokens_from(s, pos) == more_arguments_then(
            v,
            tokens_from(s, pos + more_arguments_text(v).len()),
        ),
    decreases v,
{
    lemma_printed_signs();
    if v.len() > 0 {
        let first = expr_text(v.first());
        let more = more_arguments_text(v.drop_first());
        lemma_has_at_split(s, pos, ", "@ + first, more);
        lemma_has_at_split(s, pos, ", "@, first);
        lemma_has_at_index(s, pos, ", "@, 0);
        lemma_has_at_index(s, pos, ", "@, 1);
        if v.drop_first().len() > 0 {
            lemma_has_at_index(s, pos + 2 + first.len(), more, 0);
        }
        lemma_lex_sign(s, pos);
        lemma_lex_space(s, pos + 1);
        lemma_lex_printed_expression(v.first(), s, pos + 2);
        lemma_lex_more_printed_arguments(v.drop_first(), s, pos + 2 + first.len());
    }
}

/// The printed forms of statements, the first before the others.
pub open spec fn program_text(v: Seq<StmtView>) -> Seq<char>
    decreases v.len(),
{
    if v.len() == 0 {
        Seq::empty()
    } else {
        stmt_text(v.first()) + program_text(v.drop_first())
    }
}

/// The printed form of statements extended by one.
pub proof fn lemma_program_text_push(v: Seq<StmtView>, last: StmtView)
    ensures
        program_text(v.push(last)) == program_text(v) + stmt_text(last),
    decreases v.len(),
{
    if v.len() == 0 {
        assert(v.push(last).drop_first() =~= Seq::<StmtView>::empty());
        assert(v.push(last).first() == last);
        assert(program_text(v.push(last).drop_first()) == Seq::<char>::empty());
        assert(program_text(v) == Seq::<char>::empty());
        assert(stmt_text(last) + Seq::<char>::empty() =~= Seq::<char>::empty() + stmt_text(last));
    } else {
        lemma_program_text_push(v.drop_first(), last);
        assert(v.push(last).drop_first() =~= v.drop_first().push(last));
        assert(v.push(last).first() == v.first());
        let tail = program_text(v.drop_first());
        assert(program_text(v.push(last)) == stmt_text(v.first()) + (tail + stmt_text(last)));
        assert(stmt_text(v.first()) + (tail + stmt_text(last)) =~= (stmt_text(v.first()) + tail)
            + stmt_text(last));
    }
}

/// Statements are printed as the first statement and then the others.
pub proof fn lemma_stmts_text_from_first(v: Seq<StmtView>)
    ensures
        stmts_text(v) == program_text(v),
    decreases v.len(),
{
    if v.len() > 0 {
        lemma_stmts_text_from_first(v.drop_last());
        lemma_program_text_push(v.drop_last(), v.last());
        assert(v.drop_last().push(v.last()) =~= v);
    }
}

/// A plain statement all of whose identifiers are names.
pub open spec fn writable_statement(s: StmtView) -> bool {
    match s {
        StmtView::Let { name, value } => is_name(name) && writable(value),
        StmtView::Return(value) => writable(value),
        StmtView::Expression(value) => writable(value),
        StmtView::Block(_) => false,
    }
}

/// Whether the text `next` can follow the printed form of an expression
/// statement without being read as a part of it: it does not begin with a
/// parenthesis, nor with an identifier character behind a name or a
/// boolean, nor with a digit behind an integer.
pub open spec fn follows_apart(e: ExprView, next: Seq<char>) -> bool {
    &&& next.len() > 0
    &&& next[0] != '('
    &&& match e {
        ExprView::Identifier(_) | ExprView::Bool(_) => !is_identifier_char(next[0]),
        ExprView::Int(_) => !is_digit_char(next[0]),
        _ => true,
    }
}

/// Statements whose printed form reads as the statements again: every
/// statement is a `let`, a `return` or an expression statement, its
/// expression is made of names, integers that are not negative, booleans,
/// operators and calls, and what follows an expression statement is kept
/// apart from it.
pub open spec fn readable(v: Seq<StmtView>) -> bool
    decreases v.len(),
{
    v.len() == 0 || {
        &&& writable_statement(v.first())
        &&& readable(v.drop_first())
        &&& v.first() is Expression && v.len() > 1 ==> follows_apart(
            v.first()->Expression_0,
            program_text(v.drop_first()),
        )
    }
}

/// Where the printed form of a writable expression begins with a token
/// that is a parenthesis, it begins with the character `(`.
pub proof fn lemma_first_token_and_char(e: ExprView, rest: Seq<TokenView>)
    requires
        writable(e),
    ensures
        tokens_then(e, rest).len() > 0,
        expr_text(e).len() > 0,
        tokens_then(e, rest)[0] is LParen ==> expr_text(e)[0] == '(',
    decreases e,
{
    lemma_printed_signs();
    lemma_text_starts(e);
    match e {
        ExprView::FunctionCall { function, arguments } => {
            lemma_first_token_and_char(
                *function,
                cons(
                    TokenView::LParen,
                    arguments_then(arguments, cons(TokenView::RParen, rest)),
                ),
            );
            lemma_text_starts(*function);
        },
        _ => {},
    }
}

/// Where the printed form of readable statements begins with a token that
/// is a parenthesis, it begins with the character `(`.
pub proof fn lemma_first_token_and_char_of_program(v: Seq<StmtView>)
    requires
        readable(v),
        v.len() > 0,
    ensures
        program_tokens(v).len() > 0,
        program_text(v).len() > 0,
        program_tokens(v)[0] is LParen ==> program_text(v)[0] == '(',
{
    lemma_printed_words();
    match v.first() {
        StmtView::Expression(value) => {
            lemma_first_token_and_char(value, program_tokens(v.drop_first()));
        },
        _ => {},
    }
}

/// Readable statements are separable.
pub proof fn lemma_readable_is_separable(v: Seq<StmtView>)
    requires
        readable(v),
    ensures
        separable(v),
    decreases v.len(),
{
    if v.len() > 0 {
        lemma_readable_is_separable(v.drop_first());
        match v.first() {
            StmtView::Let { name, value } => {
                lemma_writable_is_plain(value);
            },
            StmtView::Return(value) => {
                lemma_writable_is_plain(value);
            },
            StmtView::Expression(value) => {
                lemma_writable_is_plain(value);
                if v.len() > 1 {
                    lemma_first_token_and_char_of_program(v.drop_first());
                }
            },
            StmtView::Block(_) => {},
        }
    }
}

/// Where the parts of a printed `let` stand, and what the lexer reads
/// before and behind the value.
pub proof fn lemma_let_layout(name: Seq<char>, value: ExprView, s: Seq<char>, pos: int)
    requires
        is_name(name),
        has_at(s, pos, stmt_text(StmtView::Let { name, value })),
    ensures
        stmt_text(StmtView::Let { name, value }).len() == name.len() + expr_text(value).len() + 8,
        has_at(s, pos + 7 + name.len(), expr_text(value)),
        s[pos + 7 + name.len() + expr_text(value).len()] == ';',
        tokens_from(s, pos) == cons(
            TokenView::Let,
            cons(
                TokenView::Ident(name),
                cons(TokenView::Assign, tokens_from(s, pos + 7 + name.len())),
            ),
        ),
{
    lemma_printed_signs();
    lemma_printed_words();
    let printed = expr_text(value);
    let at_name = pos + 4;
    let at_assign = at_name + name.len();
    lemma_has_at_split(s, pos, "let "@ + name + " = "@ + printed, ";"@);
    lemma_has_at_split(s, pos, "let "@ + name + " = "@, printed);
    lemma_has_at_split(s, pos, "let "@ + name, " = "@);
    lemma_has_at_split(s, pos, "let "@, name);
    assert(seq!['l', 'e', 't'] + seq![' '] =~= "let "@);
    lemma_has_at_split(s, pos, seq!['l', 'e', 't'], seq![' ']);
    lemma_has_at_index(s, pos + 3, seq![' '], 0);
    lemma_has_at_index(s, at_assign, " = "@, 0);
    lemma_has_at_index(s, at_assign, " = "@, 1);
    lemma_has_at_index(s, at_assign, " = "@, 2);
    lemma_has_at_index(s, at_assign + 3 + printed.len(), ";"@, 0);
    lemma_lex_word(s, pos, seq!['l', 'e', 't']);
    lemma_lex_space(s, pos + 3);
    lemma_lex_word(s, at_name, name);
    lemma_lex_space(s, at_assign);
    lemma_lex_sign(s, at_assign + 1);
    lemma_lex_space(s, at_assign + 2);
}

/// Where the parts of a printed `return` stand, and what the lexer reads
/// before the value.
pub proof fn lemma_return_layout(value: ExprView, s: Seq<char>, pos: int)
    requires
        has_at(s, pos, stmt_text(StmtView::Return(value))),
    ensures
        stmt_text(StmtView::Return(value)).len() == expr_text(value).len() + 8,
        has_at(s, pos + 7, expr_text(value)),
        s[pos + 7 + expr_text(value).len()] == ';',
        tokens_from(s, pos) == cons(TokenView::Return, tokens_from(s, pos + 7)),
{
    lemma_printed_signs();
    lemma_printed_words();
    let printed = expr_text(value);
    lemma_has_at_split(s, pos, "return "@ + printed, ";"@);
    lemma_has_at_split(s, pos, "return "@, printed);
    assert(seq!['r', 'e', 't', 'u', 'r', 'n'] + seq![' '] =~= "return "@);
    lemma_has_at_split(s, pos, seq!['r', 'e', 't', 'u', 'r', 'n'], seq![' ']);
    lemma_has_at_index(s, pos + 6, seq![' '], 0);
    lemma_has_at_index(s, pos + 7 + printed.len(), ";"@, 0);
    lemma_lex_word(s, pos, seq!['r', 'e', 't', 'u', 'r', 'n']);
    lemma_lex_space(s, pos + 6);
}

/// The lexer reads the printed form of readable statements, which end the
/// text, as the tokens that the parser expects.
pub proof fn lemma_lex_printed_program(v: Seq<StmtView>, s: Seq<char>, pos: int)
    requires
        readable(v),
        has_at(s, pos, program_text(v)),
        pos + program_text(v).len() == s.len(),
    ensures
        tokens_from(s, pos) == program_tokens(v),
    decreases v.len(),
{
    if v.len() == 0 {
        assert(skip_blank(s, pos) == pos);
    } else {
        let rest = v.drop_first();
        let printed = stmt_text(v.first());
        lemma_has_at_split(s, pos, printed, program_text(rest));
        lemma_lex_printed_program(rest, s, pos + printed.len());
        match v.first() {
            StmtView::Let { name, value } => {
                lemma_let_layout(name, value, s, pos);
                lemma_lex_printed_expression(value, s, pos + 7 + name.len());
                lemma_lex_sign(s, pos + 7 + name.len() + expr_text(value).len());
            },
            StmtView::Return(value) => {
                lemma_return_layout(value, s, pos);
                lemma_lex_printed_expression(value, s, pos + 7);
                lemma_lex_sign(s, pos + 7 + expr_text(value).len());
            },
            StmtView::Expression(value) => {
                if rest.len() > 0 {
                    lemma_has_at_index(s, pos + printed.len(), program_text(rest), 0);
                }
                lemma_lex_printed_expression(value, s, pos);
            },
            StmtView::Block(_) => {},
        }
    }
}

/// What is printed parses back. The printed form of readable statements is
/// lexed and parsed to the statements again, and no error is met.
pub proof fn lemma_printed_text_parses(v: Seq<StmtView>)
    requires
        readable(v),
    ensures
        parse_text(stmts_text(v)) == (v, Seq::<ParserErrorView>::empty()),
{
    let printed = stmts_text(v);
    lemma_stmts_text_from_first(v);
    assert(printed.subrange(0, printed.len() as int) =~= printed);
    lemma_lex_printed_program(v, printed, 0);
    lemma_readable_is_separable(v);
    lemma_printed_program_parses(v);
}

/// Round trip. Where a text parses without error to readable statements,
/// printing them and parsing what was printed gives the same statements
/// again, without error.
pub proof fn lemma_round_trip(text: Seq<char>)
    requires
        parse_text(text).1.len() == 0,
        readable(parse_text(text).0),
    ensures
        parse_text(stmts_text(parse_text(text).0)) == parse_text(text),
{
    lemma_printed_text_parses(parse_text(text).0);
    assert(parse_text(text).1 =~= Seq::<ParserErrorView>::empty());
}

} // verus!
