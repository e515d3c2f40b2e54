//! The lexer: turns source text into tokens, one at a time.

use vstd::prelude::*;
use crate::text::push_char;
use crate::token::{Token, TokenView};

verus! {

/// Whether `char::is_whitespace` holds of a character.
pub uninterp spec fn char_is_whitespace(c: char) -> bool;

/// Whether `char::is_alphabetic` holds of a character.
pub uninterp spec fn char_is_alphabetic(c: char) -> bool;

/// A character of the ASCII range.
pub open spec fn is_ascii_char(c: char) -> bool {
    c <= '\u{7f}'
}

/// A character that counts as white space: in the ASCII range the space and
/// the characters from tab to carriage return, beyond it what
/// `char::is_whitespace` holds of.
pub open spec fn is_blank_char(c: char) -> bool {
    if is_ascii_char(c) {
        c == ' ' || ('\t' <= c && c <= '\r')
    } else {
        char_is_whitespace(c)
    }
}

/// A character that counts as a letter: in the ASCII range the letters from
/// `a` to `z` in either case, beyond it what `char::is_alphabetic` holds of.
pub open spec fn is_letter_char(c: char) -> bool {
    if is_ascii_char(c) {
        ('a' <= c && c <= 'z') || ('A' <= c && c <= 'Z')
    } else {
        char_is_alphabetic(c)
    }
}

/// Tests a character for white space.
///
/// Trusted: the result is what `char::is_whitespace` returns, which depends
/// on the character alone.
#[verifier::external_body]
pub(crate) fn is_whitespace_char(c: char) -> (b: bool)
    ensures
        b == char_is_whitespace(c),
{
    c.is_whitespace()
}

/// Tests a character for being a letter.
///
/// Trusted: the result is what `char::is_alphabetic` returns, which depends
/// on the character alone.
#[verifier::external_body]
pub(crate) fn is_alphabetic_char(c: char) -> (b: bool)
    ensures
        b == char_is_alphabetic(c),
{
    c.is_alphabetic()
}

/// A character that may stand in an identifier: a letter or `_`.
pub open spec fn is_identifier_char(c: char) -> bool {
    is_letter_char(c) || c == '_'
}

/// An ASCII decimal digit.
pub open spec fn is_digit_char(c: char) -> bool {
    '0' <= c <= '9'
}

/// The value of an ASCII decimal digit.
pub open spec fn digit_value(c: char) -> nat {
    (c as int - '0' as int) as nat
}

/// The first position at or after `pos` that holds no white space.
pub open spec fn skip_blank(s: Seq<char>, pos: int) -> int
    decreases s.len() - pos,
{
    if 0 <= pos < s.len() && is_blank_char(s[pos]) {
        skip_blank(s, pos + 1)
    } else {
        pos
    }
}

/// The end of the longest run of identifier characters that starts at `pos`.
pub open spec fn identifier_end(s: Seq<char>, pos: int) -> int
    decreases s.len() - pos,
{
    if 0 <= pos < s.len() && is_identifier_char(s[pos]) {
        identifier_end(s, pos + 1)
    } else {
        pos
    }
}

/// The end of the longest run of digits that starts at `pos`.
pub open spec fn number_end(s: Seq<char>, pos: int) -> int
    decreases s.len() - pos,
{
    if 0 <= pos < s.len() && is_digit_char(s[pos]) {
        number_end(s, pos + 1)
    } else {
        pos
    }
}

/// The number that a sequence of decimal digits denotes.
pub open spec fn digits_value(digits: Seq<char>) -> nat
    decreases digits.len(),
{
    if digits.len() == 0 {
        0
    } else {
        digits_value(digits.drop_last()) * 10 + digit_value(digits.last())
    }
}

/// The token that a run of identifier characters stands for: a keyword, or
/// else an identifier of that name.
pub open spec fn word_token(word: Seq<char>) -> TokenView {
    if word == "fn"@ {
        TokenView::Function
    } else if word == "let"@ {
        TokenView::Let
    } else if word == "true"@ {
        TokenView::True
    } else if word == "false"@ {
        TokenView::False
    } else if word == "if"@ {
        TokenView::If
    } else if word == "else"@ {
        TokenView::Else
    } else if word == "return"@ {
        TokenView::Return
    } else {
        TokenView::Ident(word)
    }
}

/// The token that a run of digits stands for: the integer it denotes, or an
/// illegal token holding its first digit when the value does not fit in 64
/// signed bits.
pub open spec fn number_token(digits: Seq<char>) -> TokenView {
    if digits_value(digits) <= i64::MAX {
        TokenView::Int(digits_value(digits) as i64)
    } else {
        TokenView::Illegal(digits[0])
    }
}

/// The token that begins at `pos`, where `pos` holds no white space, and the
/// position just behind it. At the end of the input the token is `Eof` and
/// the position stays.
pub open spec fn token_at(s: Seq<char>, pos: int) -> (TokenView, int) {
    if !(0 <= pos < s.len()) {
        (TokenView::Eof, pos)
    } else {
        let c = s[pos];
        let followed_by_eq = pos + 1 < s.len() && s[pos + 1] == '=';
        if c == '=' {
            if followed_by_eq {
                (TokenView::Eq, pos + 2)
            } else {
                (TokenView::Assign, pos + 1)
            }
        } else if c == '+' {
            (TokenView::Plus, pos + 1)
        } else if c == '-' {
            (TokenView::Minus, pos + 1)
        } else if c == '!' {
            if followed_by_eq {
                (TokenView::NotEq, pos + 2)
            } else {
                (TokenView::Bang, pos + 1)
            }
        } else if c == '*' {
            (TokenView::Asterisk, pos + 1)
        } else if c == '/' {
            (TokenView::Slash, pos + 1)
        } else if c == '<' {
            (TokenView::LessThan, pos + 1)
        } else if c == '>' {
            (TokenView::GreaterThan, pos + 1)
        } else if c == ';' {
            (TokenView::Semicolon, pos + 1)
        } else if c == '(' {
            (TokenView::LParen, pos + 1)
        } else if c == ')' {
            (TokenView::RParen, pos + 1)
        } else if c == ',' {
            (TokenView::Comma, pos + 1)
        } else if c == '{' {
            (TokenView::LBrace, pos + 1)
        } else if c == '}' {
            (TokenView::RBrace, pos + 1)
        } else if is_identifier_char(c) {
            (word_token(s.subrange(pos, identifier_end(s, pos))), identifier_end(s, pos))
        } else if is_digit_char(c) {
            (number_token(s.subrange(pos, number_end(s, pos))), number_end(s, pos))
        } else {
            (TokenView::Illegal(c), pos + 1)
        }
    }
}

/// The next token at or after `pos`, white space skipped, and the position
/// just behind it.
pub open spec fn next_token_at(s: Seq<char>, pos: int) -> (TokenView, int) {
    token_at(s, skip_blank(s, pos))
}

/// The tokens from `pos` to the end of the input, the final `Eof` left out.
pub open spec fn tokens_from(s: Seq<char>, pos: int) -> Seq<TokenView>
    decreases s.len() - pos,
    when 0 <= pos
    via tokens_from_decreases
{
    let (token, next) = next_token_at(s, pos);
    if token is Eof {
        Seq::empty()
    } else {
        seq![token] + tokens_from(s, next)
    }
}

#[via_fn]
proof fn tokens_from_decreases(s: Seq<char>, pos: int) {
    lemma_next_token_advances(s, pos);
}

/// All the tokens of a text, the final `Eof` left out.
pub open spec fn tokens_of(s: Seq<char>) -> Seq<TokenView> {
    tokens_from(s, 0)
}

/// Skipping white space never moves backwards nor past the end.
pub proof fn lemma_skip_blank_bounds(s: Seq<char>, pos: int)
    requires
        0 <= pos <= s.len(),
    ensures
        pos <= skip_blank(s, pos) <= s.len(),
        skip_blank(s, pos) < s.len() ==> !is_blank_char(s[skip_blank(s, pos)]),
    decreases s.len() - pos,
{
    if pos < s.len() && is_blank_char(s[pos]) {
        lemma_skip_blank_bounds(s, pos + 1);
    }
}

/// A run of identifier characters ends at or after its start, within the input.
pub proof fn lemma_identifier_end_bounds(s: Seq<char>, pos: int)
    requires
        0 <= pos <= s.len(),
    ensures
        pos <= identifier_end(s, pos) <= s.len(),
        pos < s.len() && is_identifier_char(s[pos]) ==> pos < identifier_end(s, pos),
    decreases s.len() - pos,
{
    if pos < s.len() && is_identifier_char(s[pos]) {
        lemma_identifier_end_bounds(s, pos + 1);
    }
}

/// A run of digits ends at or after its start, within the input.
pub proof fn lemma_number_end_bounds(s: Seq<char>, pos: int)
    requires
        0 <= pos <= s.len(),
    ensures
        pos <= number_end(s, pos) <= s.len(),
        pos < s.len() && is_digit_char(s[pos]) ==> pos < number_end(s, pos),
    decreases s.len() - pos,
{
    if pos < s.len() && is_digit_char(s[pos]) {
        lemma_number_end_bounds(s, pos + 1);
    }
}

/// Every token but `Eof` consumes at least one character, and no token
/// reaches past the end of the input.
pub proof fn lemma_next_token_advances(s: Seq<char>, pos: int)
    requires
        0 <= pos,
    ensures
        !(next_token_at(s, pos).0 is Eof) ==> pos < next_token_at(s, pos).1 <= s.len(),
        next_token_at(s, pos).0 is Eof ==> next_token_at(s, pos).1 >= s.len() || pos > s.len(),
{
    if pos <= s.len() {
        lemma_skip_blank_bounds(s, pos);
        let start = skip_blank(s, pos);
        if start < s.len() {
            lemma_identifier_end_bounds(s, start);
            lemma_number_end_bounds(s, start);
        }
    }
}

/// The tokens to come shrink by one with every token that is not `Eof`, and
/// are exhausted exactly when the next token is `Eof`.
pub proof fn lemma_tokens_from_step(s: Seq<char>, pos: int)
    requires
        0 <= pos,
    ensures
        next_token_at(s, pos).0 is Eof ==> tokens_from(s, pos).len() == 0,
        next_token_at(s, pos).0 is Eof ==> tokens_from(s, next_token_at(s, pos).1).len() == 0,
        !(next_token_at(s, pos).0 is Eof) ==> tokens_from(s, pos) == seq![next_token_at(s, pos).0]
            + tokens_from(s, next_token_at(s, pos).1),
{
    lemma_next_token_advances(s, pos);
    let (token, next) = next_token_at(s, pos);
    if token is Eof {
        if pos <= s.len() {
            lemma_skip_blank_bounds(s, pos);
            assert(next >= s.len());
        }
        assert(skip_blank(s, next) == next);
        assert(next_token_at(s, next).0 is Eof);
    }
}

/// A lexer over a text. It hands out the tokens of the text one by one and
/// `Eof` ever after.
#[derive(Debug)]
pub struct Lexer {
    input: Vec<char>,
    position: usize,
}

impl Lexer {
    /// The text that is being read.
    pub closed spec fn text(&self) -> Seq<char> {
        self.input@
    }

    /// The position of the next character to read.
    pub closed spec fn offset(&self) -> int {
        self.position as int
    }

    /// The tokens that are still to come, the final `Eof` left out.
    pub open spec fn remaining(&self) -> Seq<TokenView> {
        tokens_from(self.text(), self.offset())
    }

    /// A lexer at the start of `input`.
    pub fn new(input: String) -> (lexer: Lexer)
        ensures
            lexer.text() == input@,
            lexer.offset() == 0,
            lexer.remaining() == tokens_of(input@),
    {
        Lexer { input: crate::text::chars_of(input.as_str()), position: 0 }
    }

    /// Moves to the next character, unless the input is exhausted.
    fn read_char(&mut self)
        ensures
            final(self).input == old(self).input,
            final(self).position == if old(self).position < old(self).input.len() {
                old(self).position + 1
            } else {
                old(self).position as int
            },
    {
        if self.position < self.input.len() {
            self.position = self.position + 1;
        }
    }

    /// The character behind the current one, without moving; `None` at the end.
    fn peek_char(&self) -> (c: Option<char>)
        ensures
            c == if self.position + 1 < self.input.len() {
                Some(self.input@[self.position + 1])
            } else {
                None::<char>
            },
    {
        if self.position < self.input.len() && self.position + 1 < self.input.len() {
            Some(self.input[self.position + 1])
        } else {
            None
        }
    }

    /// Whether a character may stand in an identifier.
    fn is_valid_identifier_char(&self, ch: char) -> (b: bool)
        ensures
            b == is_identifier_char(ch),
    {
        is_letter(ch) || ch == '_'
    }

    /// Moves to the first character at or after the current one that is no white space.
    fn skip_whitespace(&mut self)
        requires
            old(self).position <= old(self).input.len(),
        ensures
            final(self).input == old(self).input,
            final(self).position == skip_blank(old(self).input@, old(self).position as int),
            final(self).position <= final(self).input.len(),
    {
        while self.position < self.input.len() && is_blank(self.input[self.position])
            invariant
                self.input == old(self).input,
                self.position <= self.input.len(),
                skip_blank(self.input@, self.position as int) == skip_blank(
                    old(self).input@,
                    old(self).position as int,
                ),
            decreases self.input.len() - self.position,
        {
            self.read_char();
        }
    }

    /// Whether the characters from `start` to `end` spell `word`.
    fn spells(&self, start: usize, end: usize, word: &str) -> (b: bool)
        requires
            start <= end <= self.input.len(),
        ensures
            b == (self.input@.subrange(start as int, end as int) == word@),
    {
        let n = word.unicode_len();
        if end - start != n {
            return false;
        }
        let mut i: usize = 0;
        while i < n
            invariant
                start <= end <= self.input.len(),
                n == word@.len(),
                end - start == n,
                i <= n,
                forall|j: int| 0 <= j < i ==> self.input@[start + j] == word@[j],
            decreases n - i,
        {
            if self.input[start + i] != word.get_char(i) {
                assert(self.input@.subrange(start as int, end as int)[i as int] != word@[i as int]);
                return false;
            }
            i = i + 1;
        }
        assert(self.input@.subrange(start as int, end as int) =~= word@);
        true
    }

    /// Reads the run of identifier characters at the current position and
    /// gives the keyword or identifier that it spells.
    fn read_identifier(&mut self) -> (token: Token)
        requires
            old(self).position <= old(self).input.len(),
        ensures
            final(self).input == old(self).input,
            final(self).position == identifier_end(old(self).input@, old(self).position as int),
            final(self).position <= final(self).input.len(),
            token@ == word_token(
                old(self).input@.subrange(old(self).position as int, final(self).position as int),
            ),
    {
        let start = self.position;
        while self.position < self.input.len() && self.is_valid_identifier_char(
            self.input[self.position],
        )
            invariant
                self.input == old(self).input,
                start <= self.position <= self.input.len(),
                identifier_end(self.input@, self.position as int) == identifier_end(
                    self.input@,
                    start as int,
                ),
            decreases self.input.len() - self.position,
        {
            self.read_char();
        }
        let end = self.position;
        if self.spells(start, end, "fn") {
            Token::Function
        } else if self.spells(start, end, "let") {
            Token::Let
        } else if self.spells(start, end, "true") {
            Token::True
        } else if self.spells(start, end, "false") {
            Token::False
        } else if self.spells(start, end, "if") {
            Token::If
        } else if self.spells(start, end, "else") {
            Token::Else
        } else if self.spells(start, end, "return") {
            Token::Return
        } else {
            let mut name = String::new();
            let mut i: usize = start;
            while i < end
                invariant
                    start <= i <= end <= self.input.len(),
                    name@ == self.input@.subrange(start as int, i as int),
                decreases end - i,
            {
                push_char(&mut name, self.input[i]);
                assert(self.input@.subrange(start as int, i + 1) =~= self.input@.subrange(
                    start as int,
                    i as int,
                ).push(self.input@[i as int]));
                i = i + 1;
            }
            Token::Ident(name)
        }
    }

    /// Reads the run of digits at the current position and gives the integer
    /// that it denotes, or an illegal token when it is too large.
    fn read_number(&mut self) -> (token: Token)
        requires
            old(self).position < old(self).input.len(),
            is_digit_char(old(self).input@[old(self).position as int]),
        ensures
            final(self).input == old(self).input,
            final(self).position == number_end(old(self).input@, old(self).position as int),
            final(self).position <= final(self).input.len(),
            token@ == number_token(
                old(self).input@.subrange(old(self).position as int, final(self).position as int),
            ),
    {
        let start = self.position;
        let first = self.input[start];
        let mut value: u64 = 0;
        let mut too_large = false;
        assert(self.input@.subrange(start as int, start as int) =~= Seq::<char>::empty());
        while self.position < self.input.len() && is_decimal_digit(self.input[self.position])
            invariant
                self.input == old(self).input,
                start <= self.position <= self.input.len(),
                number_end(self.input@, self.position as int) == number_end(
                    self.input@,
                    start as int,
                ),
                !too_large ==> value == digits_value(
                    self.input@.subrange(start as int, self.position as int),
                ) && value <= i64::MAX,
                too_large ==> digits_value(
                    self.input@.subrange(start as int, self.position as int),
                ) > i64::MAX,
            decreases self.input.len() - self.position,
        {
            let c = self.input[self.position];
            let d: u64 = decimal_digit_value(c);
            proof {
                let before = self.input@.subrange(start as int, self.position as int);
                let after = self.input@.subrange(start as int, self.position + 1);
                assert(after.drop_last() =~= before);
                assert(after.last() == c);
                assert(digits_value(after) == digits_value(before) * 10 + digit_value(c));
            }
            if !too_large {
                if value > (9223372036854775807u64 - d) / 10 {
                    too_large = true;
                } else {
                    value = value * 10 + d;
                }
            }
            self.read_char();
        }
        assert(self.position > start);
        if too_large {
            Token::Illegal(first)
        } else {
            Token::Int(value as i64)
        }
    }

    /// The next token. After the input is exhausted, `Eof` is returned on
    /// every call.
    pub fn next_token(&mut self) -> (token: Token)
        ensures
            final(self).text() == old(self).text(),
            token@ == next_token_at(old(self).text(), old(self).offset()).0,
            final(self).offset() == next_token_at(old(self).text(), old(self).offset()).1,
            token@ is Eof ==> old(self).remaining().len() == 0 && final(self).remaining().len()
                == 0,
            !(token@ is Eof) ==> old(self).remaining() == seq![token@] + final(self).remaining(),
    {
        proof {
            lemma_tokens_from_step(self.text(), self.offset());
        }
        if self.position > self.input.len() {
            return Token::Eof;
        }
        self.skip_whitespace();
        if self.position >= self.input.len() {
            return Token::Eof;
        }
        let c = self.input[self.position];
        let followed_by_eq = match self.peek_char() {
            Some(next) => next == '=',
            None => false,
        };
        let token = if c == '=' {
            if followed_by_eq {
                self.read_char();
                Token::Eq
            } else {
                Token::Assign
            }
        } else if c == '+' {
            Token::Plus
        } else if c == '-' {
            Token::Minus
        } else if c == '!' {
            if followed_by_eq {
                self.read_char();
                Token::NotEq
            } else {
                Token::Bang
            }
        } else if c == '*' {
            Token::Asterisk
        } else if c == '/' {
            Token::Slash
        } else if c == '<' {
            Token::LessThan
        } else if c == '>' {
            Token::GreaterThan
        } else if c == ';' {
            Token::Semicolon
        } else if c == '(' {
            Token::LParen
        } else if c == ')' {
            Token::RParen
        } else if c == ',' {
            Token::Comma
        } else if c == '{' {
            Token::LBrace
        } else if c == '}' {
            Token::RBrace
        } else if self.is_valid_identifier_char(c) {
            return self.read_identifier();
        } else if is_decimal_digit(c) {
            return self.read_number();
        } else {
            Token::Illegal(c)
        };
        self.read_char();
        token
    }
}

/// Whether a character counts as white space.
pub fn is_blank(c: char) -> (b: bool)
    ensures
        b == is_blank_char(c),
{
    if c <= '\u{7f}' {
        c == ' ' || ('\t' <= c && c <= '\r')
    } else {
        is_whitespace_char(c)
    }
}

/// Whether a character counts as a letter.
pub fn is_letter(c: char) -> (b: bool)
    ensures
        b == is_letter_char(c),
{
    if c <= '\u{7f}' {
        ('a' <= c && c <= 'z') || ('A' <= c && c <= 'Z')
    } else {
        is_alphabetic_char(c)
    }
}

/// Whether a character is an ASCII decimal digit.
pub fn is_decimal_digit(c: char) -> (b: bool)
    ensures
        b == is_digit_char(c),
{
    '0' <= c && c <= '9'
}

/// The value of an ASCII decimal digit.
pub fn decimal_digit_value(c: char) -> (d: u64)
    requires
        is_digit_char(c),
    ensures
        d == digit_value(c),
        d < 10,
{
    (c as u32 - '0' as u32) as u64
}

} // verus!
