//! The scanner: turns source text into tokens, one at a time.

use vstd::prelude::*;
use crate::token::{eof_token, keyword_kind, SpecToken, Token, TokenType};

verus! {

/// The classes of character of which the scanner reads whole runs.
#[derive(Debug, PartialEq, Eq, Clone, Copy, Structural)]
pub enum CharClass {
    Whitespace,
    /// A letter or a digit: what an identifier holds after its first
    /// letter.
    Word,
    Digit,
}

pub open spec fn letter(c: char) -> bool {
    'a' <= c <= 'z' || 'A' <= c <= 'Z' || c == '_'
}

pub open spec fn digit(c: char) -> bool {
    '0' <= c <= '9'
}

pub open spec fn whitespace(c: char) -> bool {
    c == ' ' || c == '\t' || c == '\n' || c == '\r'
}

pub open spec fn in_class(c: char, class: CharClass) -> bool {
    match class {
        CharClass::Whitespace => whitespace(c),
        CharClass::Word => letter(c) || digit(c),
        CharClass::Digit => digit(c),
    }
}

/// How many characters of `class` stand in a row in `s` from `pos` on.
pub open spec fn run_length(s: Seq<char>, pos: nat, class: CharClass) -> nat
    decreases s.len() - pos,
{
    if pos < s.len() && in_class(s[pos as int], class) {
        1 + run_length(s, pos + 1, class)
    } else {
        0
    }
}

/// The character after the one at `start` is `=`.
pub open spec fn equals_follows(s: Seq<char>, start: nat) -> bool {
    start + 1 < s.len() && s[start as int + 1] == '='
}

/// The kind and the length of the token that begins at `start`, where
/// `start` is the position of a character that is not whitespace.
pub open spec fn token_extent(s: Seq<char>, start: nat) -> (TokenType, nat) {
    let c = s[start as int];
    if c == '=' {
        if equals_follows(s, start) {
            (TokenType::EQ, 2)
        } else {
            (TokenType::ASSIGN, 1)
        }
    } else if c == '+' {
        if equals_follows(s, start) {
            (TokenType::PLUSSELF, 2)
        } else {
            (TokenType::PLUS, 1)
        }
    } else if c == '-' {
        if equals_follows(s, start) {
            (TokenType::MINUSSELF, 2)
        } else {
            (TokenType::MINUS, 1)
        }
    } else if c == '!' {
        if equals_follows(s, start) {
            (TokenType::NOTEQ, 2)
        } else {
            (TokenType::BANG, 1)
        }
    } else if c == '<' {
        if equals_follows(s, start) {
            (TokenType::LTEQ, 2)
        } else {
            (TokenType::LT, 1)
        }
    } else if c == '>' {
        if equals_follows(s, start) {
            (TokenType::GTEQ, 2)
        } else {
            (TokenType::GT, 1)
        }
    } else if c == ';' {
        (TokenType::SEMICOLON, 1)
    } else if c == '(' {
        (TokenType::LPAREN, 1)
    } else if c == ')' {
        (TokenType::RPAREN, 1)
    } else if c == ',' {
        (TokenType::COMMA, 1)
    } else if c == '/' {
        (TokenType::SLASH, 1)
    } else if c == '*' {
        (TokenType::ASTERISK, 1)
    } else if c == '^' {
        (TokenType::POWER, 1)
    } else if c == '{' {
        (TokenType::LBRACE, 1)
    } else if c == '}' {
        (TokenType::RBRACE, 1)
    } else if letter(c) {
        let n = 1 + run_length(s, start + 1, CharClass::Word);
        (keyword_kind(s.subrange(start as int, start as int + n)), n)
    } else if digit(c) {
        (TokenType::INT, 1 + run_length(s, start + 1, CharClass::Digit))
    } else {
        (TokenType::ILLEGAL, 1)
    }
}

/// The next token of `s` at or after `pos`, and the position just behind it.
/// Whitespace before the token is skipped. At the end of the text the token
/// is the end-of-input token, and the position stays at the end.
pub open spec fn scan_token(s: Seq<char>, pos: nat) -> (SpecToken, nat) {
    let start = pos + run_length(s, pos, CharClass::Whitespace);
    if start >= s.len() {
        (eof_token(), start)
    } else {
        let (kind, n) = token_extent(s, start);
        (SpecToken { kind: kind, literal: s.subrange(start as int, start as int + n) }, start + n)
    }
}

/// What is left of a text of `len` characters at `pos`.
pub open spec fn remaining(len: nat, pos: nat) -> nat {
    if pos <= len {
        (len - pos) as nat
    } else {
        0
    }
}

/// All tokens of `s` from `pos` on: the tokens in order, then one
/// end-of-input token.
pub open spec fn tokens_from(s: Seq<char>, pos: nat) -> Seq<SpecToken>
    decreases remaining(s.len(), pos),
{
    let (tok, next) = scan_token(s, pos);
    if tok.kind == TokenType::EOF {
        seq![tok]
    } else {
        seq![tok] + tokens_from(s, next)
    }
}

/// A token stream is well terminated when it ends with the end-of-input
/// token and holds no other token of that kind.
pub open spec fn well_terminated(toks: Seq<SpecToken>) -> bool {
    &&& toks.len() > 0
    &&& toks.last() == eof_token()
    &&& forall|i: int| 0 <= i < toks.len() - 1 ==> (#[trigger] toks[i]).kind != TokenType::EOF
}

/// A run never leaves the text.
pub proof fn lemma_run_length_bound(s: Seq<char>, pos: nat, class: CharClass)
    requires
        pos <= s.len(),
    ensures
        pos + run_length(s, pos, class) <= s.len(),
        forall|i: int| pos <= i < pos + run_length(s, pos, class) ==> in_class(s[i], class),
        pos + run_length(s, pos, class) < s.len() ==> !in_class(
            s[pos as int + run_length(s, pos, class)],
            class,
        ),
    decreases s.len() - pos,
{
    if pos < s.len() && in_class(s[pos as int], class) {
        lemma_run_length_bound(s, pos + 1, class);
    }
}

/// A token lies inside the text, and only the end of the text gives the
/// end-of-input token.
pub proof fn lemma_scan_token(s: Seq<char>, pos: nat)
    requires
        pos <= s.len(),
    ensures
        pos <= scan_token(s, pos).1 <= s.len(),
        scan_token(s, pos).0.kind == TokenType::EOF ==> scan_token(s, pos).0 == eof_token()
            && scan_token(s, pos).1 == s.len(),
        scan_token(s, pos).0.kind != TokenType::EOF ==> pos < scan_token(s, pos).1,
{
    lemma_run_length_bound(s, pos, CharClass::Whitespace);
    let start = pos + run_length(s, pos, CharClass::Whitespace);
    if start < s.len() {
        lemma_run_length_bound(s, start + 1, CharClass::Word);
        lemma_run_length_bound(s, start + 1, CharClass::Digit);
    }
}

/// The tokens of a text are well terminated.
pub proof fn law_tokens_well_terminated(s: Seq<char>, pos: nat)
    requires
        pos <= s.len(),
    ensures
        well_terminated(tokens_from(s, pos)),
    decreases remaining(s.len(), pos),
{
    lemma_scan_token(s, pos);
    let (tok, next) = scan_token(s, pos);
    if tok.kind != TokenType::EOF {
        law_tokens_well_terminated(s, next);
        let rest = tokens_from(s, next);
        let all = tokens_from(s, pos);
        assert(all == seq![tok] + rest);
        assert(all.last() == rest.last());
        assert forall|i: int| 0 <= i < all.len() - 1 implies (#[trigger] all[i]).kind
            != TokenType::EOF by {
            if i > 0 {
                assert(all[i] == rest[i - 1]);
            }
        }
    }
}

pub fn is_letter(byte: char) -> (r: bool)
    ensures
        r == letter(byte),
{
    'a' <= byte && byte <= 'z' || 'A' <= byte && byte <= 'Z' || byte == '_'
}

pub fn is_digit(byte: char) -> (r: bool)
    ensures
        r == digit(byte),
{
    '0' <= byte && byte <= '9'
}

fn is_whitespace(byte: char) -> (r: bool)
    ensures
        r == whitespace(byte),
{
    byte == ' ' || byte == '\t' || byte == '\n' || byte == '\r'
}

fn is_in_class(byte: char, class: CharClass) -> (r: bool)
    ensures
        r == in_class(byte, class),
{
    match class {
        CharClass::Whitespace => is_whitespace(byte),
        CharClass::Word => is_letter(byte) || is_digit(byte),
        CharClass::Digit => is_digit(byte),
    }
}

/// A scanner over a text. `position` and `length` count characters, not
/// bytes; `ch` is the character at `position`, or NUL at the end of the
/// text.
#[derive(Debug)]
pub struct Lexer {
    pub input: String,
    pub position: usize,
    pub length: usize,
    pub ch: char,
}

impl Lexer {
    /// The scanner's bookkeeping agrees with its text.
    pub open spec fn wf(&self) -> bool {
        &&& self.length == self.input@.len()
        &&& self.position <= self.length
        &&& self.ch == if self.position < self.length {
            self.input@[self.position as int]
        } else {
            '\0'
        }
    }

    /// The tokens that the scanner has yet to hand out.
    pub open spec fn pending(&self) -> Seq<SpecToken> {
        tokens_from(self.input@, self.position as nat)
    }

    pub fn new(input: String) -> (l: Lexer)
        ensures
            l.wf(),
            l.input@ == input@,
            l.position == 0,
    {
        let length = input.as_str().unicode_len();
        let ch = if 0 < length {
            input.as_str().get_char(0)
        } else {
            '\0'
        };
        Lexer { input: input, position: 0, length: length, ch: ch }
    }

    /// Steps to the next character; at the end of the text nothing moves.
    fn read_char(&mut self)
        requires
            old(self).wf(),
        ensures
            final(self).wf(),
            final(self).input == old(self).input,
            final(self).position == if old(self).position < old(self).length {
                old(self).position + 1
            } else {
                old(self).position as int
            },
    {
        if !self.reached_eof() {
            self.position += 1;
            if self.position < self.length {
                self.ch = self.input.as_str().get_char(self.position);
            } else {
                self.ch = '\0';
            }
        }
    }

    /// The character after the current one, if there is one.
    fn peek_char(&self) -> (r: Option<char>)
        requires
            self.wf(),
        ensures
            r == if self.position + 1 < self.length {
                Some(self.input@[self.position + 1])
            } else {
                None
            },
    {
        if self.position < self.length && self.position + 1 < self.length {
            Some(self.input.as_str().get_char(self.position + 1))
        } else {
            None
        }
    }

    /// Steps over the run of `class` characters at the current position.
    fn read_run(&mut self, class: CharClass)
        requires
            old(self).wf(),
        ensures
            final(self).wf(),
            final(self).input == old(self).input,
            final(self).position == old(self).position + run_length(
                old(self).input@,
                old(self).position as nat,
                class,
            ),
    {
        let ghost start = self.position as nat;
        while !self.reached_eof() && is_in_class(self.ch, class)
            invariant
                self.wf(),
                self.input == old(self).input,
                start <= self.position,
                start == old(self).position,
                start + run_length(self.input@, start, class) == self.position + run_length(
                    self.input@,
                    self.position as nat,
                    class,
                ),
            decreases self.length - self.position,
        {
            self.read_char();
        }
    }

    /// The text from `start` up to the current position.
    fn text_since(&self, start: usize) -> (r: String)
        requires
            self.wf(),
            start <= self.position,
        ensures
            r@ == self.input@.subrange(start as int, self.position as int),
    {
        String::from_str(self.input.as_str().substring_char(start, self.position))
    }

    /// Reads the digits at the current position and returns them.
    fn read_number(&mut self) -> (r: String)
        requires
            old(self).wf(),
        ensures
            final(self).wf(),
            final(self).input == old(self).input,
            final(self).position == old(self).position + run_length(
                old(self).input@,
                old(self).position as nat,
                CharClass::Digit,
            ),
            r@ == old(self).input@.subrange(
                old(self).position as int,
                final(self).position as int,
            ),
    {
        let start_pos: usize = self.position;
        self.read_run(CharClass::Digit);
        self.text_since(start_pos)
    }

    /// Reads the identifier that begins at the current position, a letter,
    /// and returns it: the letter and the letters and digits behind it.
    fn read_identifier(&mut self) -> (r: String)
        requires
            old(self).wf(),
            old(self).position < old(self).length,
        ensures
            final(self).wf(),
            final(self).input == old(self).input,
            final(self).position == old(self).position + 1 + run_length(
                old(self).input@,
                (old(self).position + 1) as nat,
                CharClass::Word,
            ),
            r@ == old(self).input@.subrange(
                old(self).position as int,
                final(self).position as int,
            ),
    {
        let start_pos: usize = self.position;
        self.read_char();
        self.read_run(CharClass::Word);
        self.text_since(start_pos)
    }

    /// Reads a token of one character, or of two where `second_char`
    /// follows, and steps past it.
    fn make_two_char_token(
        &mut self,
        one_char_tokentype: TokenType,
        two_char_tokentype: TokenType,
        second_char: char,
    ) -> (r: Token)
        requires
            old(self).wf(),
            old(self).position < old(self).length,
        ensures
            final(self).wf(),
            final(self).input == old(self).input,
            ({
                let s = old(self).input@;
                let start = old(self).position as int;
                let two = start + 1 < s.len() && s[start + 1] == second_char;
                let n: int = if two {
                    2
                } else {
                    1
                };
                &&& final(self).position == start + n
                &&& r@ == (SpecToken {
                    kind: if two {
                        two_char_tokentype
                    } else {
                        one_char_tokentype
                    },
                    literal: s.subrange(start, start + n),
                })
            }),
    {
        let start_pos: usize = self.position;
        let two = match self.peek_char() {
            Some(c) => c == second_char,
            None => false,
        };
        self.read_char();
        if two {
            self.read_char();
            Token::new(two_char_tokentype, self.text_since(start_pos))
        } else {
            Token::new(one_char_tokentype, self.text_since(start_pos))
        }
    }

    /// Reads a token of one character and steps past it.
    fn make_one_char_token(&mut self, tokentype: TokenType) -> (r: Token)
        requires
            old(self).wf(),
            old(self).position < old(self).length,
        ensures
            final(self).wf(),
            final(self).input == old(self).input,
            final(self).position == old(self).position + 1,
            r@ == (SpecToken {
                kind: tokentype,
                literal: old(self).input@.subrange(
                    old(self).position as int,
                    old(self).position + 1,
                ),
            }),
    {
        let start_pos: usize = self.position;
        self.read_char();
        Token::new(tokentype, self.text_since(start_pos))
    }

    fn eat_whitespaces(&mut self)
        requires
            old(self).wf(),
        ensures
            final(self).wf(),
            final(self).input == old(self).input,
            final(self).position == old(self).position + run_length(
                old(self).input@,
                old(self).position as nat,
                CharClass::Whitespace,
            ),
    {
        self.read_run(CharClass::Whitespace)
    }

    fn reached_eof(&self) -> (r: bool)
        ensures
            r == (self.position >= self.length),
    {
        self.position >= self.length
    }

    /// Hands out the next token. Once the text is used up, every call
    /// returns the end-of-input token.
    pub fn next_token(&mut self) -> (r: Token)
        requires
            old(self).wf(),
        ensures
            final(self).wf(),
            final(self).input == old(self).input,
            r@ == scan_token(old(self).input@, old(self).position as nat).0,
            final(self).position == scan_token(old(self).input@, old(self).position as nat).1,
    {
        self.eat_whitespaces();
        if self.reached_eof() {
            return Token::new(TokenType::EOF, String::from_str("eof"));
        }
        let start_pos: usize = self.position;
        match self.ch {
            '=' => self.make_two_char_token(TokenType::ASSIGN, TokenType::EQ, '='),
            ';' => self.make_one_char_token(TokenType::SEMICOLON),
            '(' => self.make_one_char_token(TokenType::LPAREN),
            ')' => self.make_one_char_token(TokenType::RPAREN),
            ',' => self.make_one_char_token(TokenType::COMMA),
            '+' => self.make_two_char_token(TokenType::PLUS, TokenType::PLUSSELF, '='),
            '-' => self.make_two_char_token(TokenType::MINUS, TokenType::MINUSSELF, '='),
            '!' => self.make_two_char_token(TokenType::BANG, TokenType::NOTEQ, '='),
            '/' => self.make_one_char_token(TokenType::SLASH),
            '*' => self.make_one_char_token(TokenType::ASTERISK),
            '^' => self.make_one_char_token(TokenType::POWER),
            '<' => self.make_two_char_token(TokenType::LT, TokenType::LTEQ, '='),
            '>' => self.make_two_char_token(TokenType::GT, TokenType::GTEQ, '='),
            '{' => self.make_one_char_token(TokenType::LBRACE),
            '}' => self.make_one_char_token(TokenType::RBRACE),
            _ => {
                if is_letter(self.ch) {
                    let literal: String = self.read_identifier();
                    Token::new(TokenType::lookup_keyword(literal.as_str()), literal)
                } else if is_digit(self.ch) {
                    let literal: String = self.read_number();
                    Token::new(TokenType::INT, literal)
                } else {
                    self.make_one_char_token(TokenType::ILLEGAL)
                }
            },
        }
    }
}

} // verus!
