//! The grammar: what the parser reads out of a sequence of tokens, stated as
//! functions on that sequence.
//!
//! A position is an index into the token sequence; past its end every
//! position holds the end-of-input token. Each function is given the
//! position of the first token of what it reads and returns, with the tree,
//! the number of further tokens that belong to it: read from position `p`
//! with result `n`, the last token of the construct is at `p + n`.

use vstd::prelude::*;
use crate::ast::{SpecBlock, SpecExpression, SpecIdentifier, SpecStatement};
use crate::lexer::{digit, remaining};
use crate::token::{eof_token, SpecToken, TokenType};

verus! {

/// Why a token sequence is not a program.
#[derive(Debug, PartialEq, Eq, Clone, Copy, Structural)]
pub enum ParseError {
    /// A token that the grammar requires is missing: `found` stands where
    /// `expected` has to.
    UnexpectedToken { expected: TokenType, found: TokenType },
    /// No expression begins with a token of this kind.
    NoPrefixRule(TokenType),
    /// No expression continues with a token of this kind.
    NoInfixRule(TokenType),
    /// An integer literal is not a decimal number of 64 bits.
    InvalidInteger,
    /// The input holds no statement.
    EmptyProgram,
}

/// How tightly an operator binds, from loosest to tightest.
#[derive(Debug, PartialEq, Eq, Clone, Copy, Structural)]
pub enum Precedence {
    LOWEST,
    EQUAL,
    LESSGREATER,
    SUM,
    PRODUCT,
    POWER,
    PREFIX,
    CALL,
}

/// How an expression may begin.
#[derive(Debug, PartialEq, Eq, Clone, Copy, Structural)]
pub enum PrefixRule {
    Identifier,
    IntegerLiteral,
    Boolean,
    PrefixOperator,
    Grouped,
    If,
    FunctionLiteral,
}

/// How an expression may continue.
#[derive(Debug, PartialEq, Eq, Clone, Copy, Structural)]
pub enum InfixRule {
    Binary,
    Call,
}

impl Precedence {
    /// The number of a precedence level: 1 for the loosest, 8 for the
    /// tightest.
    pub open spec fn rank(self) -> int {
        match self {
            Precedence::LOWEST => 1,
            Precedence::EQUAL => 2,
            Precedence::LESSGREATER => 3,
            Precedence::SUM => 4,
            Precedence::PRODUCT => 5,
            Precedence::POWER => 6,
            Precedence::PREFIX => 7,
            Precedence::CALL => 8,
        }
    }

    pub fn into_i32(&self) -> (r: i32)
        ensures
            r == self.rank(),
    {
        match self {
            Self::LOWEST => 1,
            Self::EQUAL => 2,
            Self::LESSGREATER => 3,
            Self::SUM => 4,
            Self::PRODUCT => 5,
            Self::POWER => 6,
            Self::PREFIX => 7,
            Self::CALL => 8,
        }
    }

    pub fn from_i32(level: i32) -> (r: Option<Precedence>)
        ensures
            match r {
                Some(p) => p.rank() == level,
                None => level < 1 || level > 8,
            },
    {
        match level {
            1 => Some(Precedence::LOWEST),
            2 => Some(Precedence::EQUAL),
            3 => Some(Precedence::LESSGREATER),
            4 => Some(Precedence::SUM),
            5 => Some(Precedence::PRODUCT),
            6 => Some(Precedence::POWER),
            7 => Some(Precedence::PREFIX),
            8 => Some(Precedence::CALL),
            _ => None,
        }
    }
}

/// The precedence of a token that stands between two operands.
pub open spec fn token_precedence(kind: TokenType) -> Precedence {
    match kind {
        TokenType::EQ | TokenType::NOTEQ => Precedence::EQUAL,
        TokenType::GT | TokenType::LT | TokenType::GTEQ | TokenType::LTEQ => Precedence::LESSGREATER,
        TokenType::PLUS | TokenType::MINUS => Precedence::SUM,
        TokenType::ASTERISK | TokenType::SLASH => Precedence::PRODUCT,
        TokenType::POWER => Precedence::POWER,
        TokenType::LPAREN => Precedence::CALL,
        _ => Precedence::LOWEST,
    }
}

/// The rule for an expression that begins with a token of this kind.
pub open spec fn prefix_rule_for(kind: TokenType) -> Option<PrefixRule> {
    match kind {
        TokenType::IDENT => Some(PrefixRule::Identifier),
        TokenType::INT => Some(PrefixRule::IntegerLiteral),
        TokenType::BANG | TokenType::MINUS => Some(PrefixRule::PrefixOperator),
        TokenType::TRUE | TokenType::FALSE => Some(PrefixRule::Boolean),
        TokenType::LPAREN => Some(PrefixRule::Grouped),
        TokenType::IF => Some(PrefixRule::If),
        TokenType::FUNCTION => Some(PrefixRule::FunctionLiteral),
        _ => None,
    }
}

/// The rule for an expression that continues with a token of this kind.
pub open spec fn infix_rule_for(kind: TokenType) -> Option<InfixRule> {
    match kind {
        TokenType::LPAREN => Some(InfixRule::Call),
        TokenType::EQ
        | TokenType::NOTEQ
        | TokenType::LT
        | TokenType::LTEQ
        | TokenType::GT
        | TokenType::GTEQ
        | TokenType::PLUS
        | TokenType::MINUS
        | TokenType::ASTERISK
        | TokenType::SLASH
        | TokenType::POWER => Some(InfixRule::Binary),
        _ => None,
    }
}

/// Every token that binds tighter than the loosest level has a rule by
/// which an expression continues with it, so the parser never finds one
/// missing.
pub proof fn law_operators_have_rules(kind: TokenType)
    ensures
        token_precedence(kind) != Precedence::LOWEST ==> infix_rule_for(kind) is Some,
        infix_rule_for(kind) is Some ==> token_precedence(kind) != Precedence::LOWEST,
{
}

/// The token at position `i`; past the end, the end-of-input token.
pub open spec fn token_at(toks: Seq<SpecToken>, i: nat) -> SpecToken {
    if i < toks.len() {
        toks[i as int]
    } else {
        eof_token()
    }
}

pub open spec fn kind_at(toks: Seq<SpecToken>, i: nat) -> TokenType {
    token_at(toks, i).kind
}

/// The error for a token of kind `expected` that is missing at `i`.
pub open spec fn missing(toks: Seq<SpecToken>, i: nat, expected: TokenType) -> ParseError {
    ParseError::UnexpectedToken { expected: expected, found: kind_at(toks, i) }
}

/// How many tokens are left at `pos`.
pub open spec fn tokens_left(toks: Seq<SpecToken>, pos: nat) -> nat {
    remaining(toks.len(), pos)
}

/// The number that a run of decimal digits writes.
pub open spec fn decimal_value(s: Seq<char>) -> nat
    decreases s.len(),
{
    if s.len() == 0 {
        0
    } else {
        (10 * decimal_value(s.drop_last()) + (s.last() as nat - '0' as nat)) as nat
    }
}

pub open spec fn all_digits(s: Seq<char>) -> bool {
    forall|i: int| 0 <= i < s.len() ==> digit(#[trigger] s[i])
}

/// The value of an integer literal: its text is one or more decimal digits
/// and the number fits in 64 bits with a sign.
pub open spec fn integer_value(s: Seq<char>) -> Option<i64> {
    if s.len() > 0 && all_digits(s) && decimal_value(s) <= i64::MAX {
        Some(decimal_value(s) as i64)
    } else {
        None
    }
}

/// The identifier that a token names.
pub open spec fn identifier_of(tok: SpecToken) -> SpecIdentifier {
    SpecIdentifier { token: tok, value: tok.literal }
}

/// A result with `k` more tokens counted to it.
pub open spec fn advanced<T>(r: Result<(T, nat), ParseError>, k: nat) -> Result<
    (T, nat),
    ParseError,
> {
    match r {
        Ok((value, n)) => Ok((value, n + k)),
        Err(e) => Err(e),
    }
}

/// The names of a parameter list after its opening parenthesis, from the
/// name at `pos` on, added to `acc`; the result counts up to the closing
/// parenthesis.
#[verifier::opaque]
pub open spec fn parse_identifier_list(toks: Seq<SpecToken>, pos: nat, acc: Seq<SpecIdentifier>)
    -> Result<(Seq<SpecIdentifier>, nat), ParseError>
    decreases tokens_left(toks, pos), 1int,
{
    if kind_at(toks, pos) != TokenType::IDENT {
        Err(missing(toks, pos, TokenType::IDENT))
    } else {
        identifier_list_tail(toks, pos, acc.push(identifier_of(token_at(toks, pos))))
    }
}

/// What follows a name of a parameter list, where `pos` holds the name and
/// `acc` the names up to it: a comma and more names, or the closing
/// parenthesis.
#[verifier::opaque]
pub open spec fn identifier_list_tail(toks: Seq<SpecToken>, pos: nat, acc: Seq<SpecIdentifier>)
    -> Result<(Seq<SpecIdentifier>, nat), ParseError>
    decreases tokens_left(toks, pos), 0int,
{
    if kind_at(toks, pos + 1) == TokenType::COMMA {
        advanced(parse_identifier_list(toks, pos + 2, acc), 2)
    } else if kind_at(toks, pos + 1) == TokenType::RPAREN {
        Ok((acc, 1))
    } else {
        Err(missing(toks, pos + 1, TokenType::RPAREN))
    }
}

/// A parameter list: `pos` holds its opening parenthesis, which the caller
/// has seen; the names are separated by commas, and there may be none.
#[verifier::opaque]
pub open spec fn parse_parameters(toks: Seq<SpecToken>, pos: nat) -> Result<
    (Seq<SpecIdentifier>, nat),
    ParseError,
> {
    if kind_at(toks, pos + 1) == TokenType::RPAREN {
        Ok((Seq::empty(), 1))
    } else {
        match parse_identifier_list(toks, pos + 1, Seq::empty()) {
            Err(e) => Err(e),
            Ok((all, n)) => Ok((all, n + 1)),
        }
    }
}

/// An expression that binds tighter than `precedence`, from `pos` on.
#[verifier::opaque]
pub open spec fn parse_expression(toks: Seq<SpecToken>, pos: nat, precedence: int) -> Result<
    (SpecExpression, nat),
    ParseError,
>
    decreases tokens_left(toks, pos), 6int,
{
    match parse_prefix(toks, pos) {
        Err(e) => Err(e),
        Ok((left, n)) => match parse_infix_loop(toks, pos + n, left, precedence) {
            Err(e) => Err(e),
            Ok((e, m)) => Ok((e, n + m)),
        },
    }
}

/// The expression that the token at `pos` begins, without what may follow
/// it as an operator.
#[verifier::opaque]
pub open spec fn parse_prefix(toks: Seq<SpecToken>, pos: nat) -> Result<
    (SpecExpression, nat),
    ParseError,
>
    decreases tokens_left(toks, pos), 5int,
{
    let tok = token_at(toks, pos);
    match prefix_rule_for(tok.kind) {
        None => Err(ParseError::NoPrefixRule(tok.kind)),
        Some(PrefixRule::Identifier) => Ok((SpecExpression::Ident(identifier_of(tok)), 0)),
        Some(PrefixRule::IntegerLiteral) => match integer_value(tok.literal) {
            Some(v) => Ok((SpecExpression::Integer { token: tok, value: v }, 0)),
            None => Err(ParseError::InvalidInteger),
        },
        Some(PrefixRule::Boolean) => Ok(
            (SpecExpression::Boolean { token: tok, value: tok.kind == TokenType::TRUE }, 0),
        ),
        Some(PrefixRule::PrefixOperator) => match parse_expression(
            toks,
            pos + 1,
            Precedence::PREFIX.rank(),
        ) {
            Err(e) => Err(e),
            Ok((right, n)) => Ok(
                (
                    SpecExpression::Prefix {
                        token: tok,
                        operator: tok.literal,
                        right: Box::new(right),
                    },
                    n + 1,
                ),
            ),
        },
        Some(PrefixRule::Grouped) => match parse_expression(
            toks,
            pos + 1,
            Precedence::LOWEST.rank(),
        ) {
            Err(e) => Err(e),
            Ok((inner, n)) => if kind_at(toks, pos + n + 2) == TokenType::RPAREN {
                Ok((inner, n + 2))
            } else {
                Err(missing(toks, pos + n + 2, TokenType::RPAREN))
            },
        },
        Some(PrefixRule::If) => parse_if(toks, pos),
        Some(PrefixRule::FunctionLiteral) => parse_function(toks, pos),
    }
}

/// A conditional: `if`, a condition in parentheses, a block, and
/// optionally `else` and a second block. `pos` holds the `if`.
#[verifier::opaque]
pub open spec fn parse_if(toks: Seq<SpecToken>, pos: nat) -> Result<
    (SpecExpression, nat),
    ParseError,
>
    decreases tokens_left(toks, pos), 4int,
{
    if kind_at(toks, pos + 1) != TokenType::LPAREN {
        Err(missing(toks, pos + 1, TokenType::LPAREN))
    } else {
        match parse_expression(toks, pos + 2, Precedence::LOWEST.rank()) {
            Err(e) => Err(e),
            Ok((condition, n)) => if kind_at(toks, pos + n + 3) != TokenType::RPAREN {
                Err(missing(toks, pos + n + 3, TokenType::RPAREN))
            } else if kind_at(toks, pos + n + 4) != TokenType::LBRACE {
                Err(missing(toks, pos + n + 4, TokenType::LBRACE))
            } else {
                match parse_block(toks, pos + n + 4) {
                    Err(e) => Err(e),
                    Ok((consequence, m)) => if kind_at(toks, pos + n + m + 5) != TokenType::ELSE {
                        Ok(
                            (
                                SpecExpression::If {
                                    token: token_at(toks, pos),
                                    condition: Box::new(condition),
                                    consequence: consequence,
                                    alternative: None,
                                },
                                n + m + 4,
                            ),
                        )
                    } else if kind_at(toks, pos + n + m + 6) != TokenType::LBRACE {
                        Err(missing(toks, pos + n + m + 6, TokenType::LBRACE))
                    } else {
                        match parse_block(toks, pos + n + m + 6) {
                            Err(e) => Err(e),
                            Ok((alternative, k)) => Ok(
                                (
                                    SpecExpression::If {
                                        token: token_at(toks, pos),
                                        condition: Box::new(condition),
                                        consequence: consequence,
                                        alternative: Some(alternative),
                                    },
                                    n + m + k + 6,
                                ),
                            ),
                        }
                    },
                }
            },
        }
    }
}

/// A function literal: `fn`, a parameter list, and a block. `pos` holds the
/// `fn`.
#[verifier::opaque]
pub open spec fn parse_function(toks: Seq<SpecToken>, pos: nat) -> Result<
    (SpecExpression, nat),
    ParseError,
>
    decreases tokens_left(toks, pos), 4int,
{
    if kind_at(toks, pos + 1) != TokenType::LPAREN {
        Err(missing(toks, pos + 1, TokenType::LPAREN))
    } else {
        match parse_parameters(toks, pos + 1) {
            Err(e) => Err(e),
            Ok((parameters, n)) => if kind_at(toks, pos + n + 2) != TokenType::LBRACE {
                Err(missing(toks, pos + n + 2, TokenType::LBRACE))
            } else {
                match parse_block(toks, pos + n + 2) {
                    Err(e) => Err(e),
                    Ok((body, m)) => Ok(
                        (
                            SpecExpression::Function {
                                token: token_at(toks, pos),
                                parameters: parameters,
                                body: body,
                            },
                            n + m + 2,
                        ),
                    ),
                }
            },
        }
    }
}

/// What follows an expression: as long as the next token is an operator
/// that binds tighter than `precedence`, the expression read so far, `left`,
/// becomes the left operand (or the callee) of a larger one. `pos` holds
/// the last token of `left`.
#[verifier::opaque]
pub open spec fn parse_infix_loop(
    toks: Seq<SpecToken>,
    pos: nat,
    left: SpecExpression,
    precedence: int,
) -> Result<(SpecExpression, nat), ParseError>
    decreases tokens_left(toks, pos), 3int,
{
    let next = kind_at(toks, pos + 1);
    if next == TokenType::SEMICOLON || precedence >= token_precedence(next).rank() {
        Ok((left, 0))
    } else if infix_rule_for(next) is None {
        Err(ParseError::NoInfixRule(next))
    } else {
        match parse_infix(toks, pos + 1, left) {
            Err(e) => Err(e),
            Ok((larger, n)) => match parse_infix_loop(toks, pos + n + 1, larger, precedence) {
                Err(e) => Err(e),
                Ok((e, m)) => Ok((e, n + m + 1)),
            },
        }
    }
}

/// The expression that `left` and the operator at `pos` form: a binary
/// operation with the operand that follows, or a call with the arguments
/// that follow.
#[verifier::opaque]
pub open spec fn parse_infix(toks: Seq<SpecToken>, pos: nat, left: SpecExpression) -> Result<
    (SpecExpression, nat),
    ParseError,
>
    decreases tokens_left(toks, pos), 9int,
{
    let tok = token_at(toks, pos);
    match infix_rule_for(tok.kind) {
        None => Err(ParseError::NoInfixRule(tok.kind)),
        Some(InfixRule::Binary) => match parse_expression(
            toks,
            pos + 1,
            token_precedence(tok.kind).rank(),
        ) {
            Err(e) => Err(e),
            Ok((right, n)) => Ok(
                (
                    SpecExpression::Infix {
                        token: tok,
                        operator: tok.literal,
                        left: Box::new(left),
                        right: Box::new(right),
                    },
                    n + 1,
                ),
            ),
        },
        Some(InfixRule::Call) => match parse_call_arguments(toks, pos) {
            Err(e) => Err(e),
            Ok((arguments, n)) => Ok(
                (
                    SpecExpression::Call {
                        token: tok,
                        function: Box::new(left),
                        arguments: arguments,
                    },
                    n,
                ),
            ),
        },
    }
}

/// The arguments of a call: `pos` holds the opening parenthesis, which the
/// caller has seen. The arguments are separated by commas; where there is
/// none, the result is `None`.
#[verifier::opaque]
pub open spec fn parse_call_arguments(toks: Seq<SpecToken>, pos: nat) -> Result<
    (Option<Seq<SpecExpression>>, nat),
    ParseError,
>
    decreases tokens_left(toks, pos), 8int,
{
    if kind_at(toks, pos + 1) == TokenType::RPAREN {
        Ok((None, 1))
    } else {
        match parse_expression_list(toks, pos + 1, Seq::empty()) {
            Err(e) => Err(e),
            Ok((arguments, n)) => Ok((Some(arguments), n + 1)),
        }
    }
}

/// The arguments of a call after its opening parenthesis, from the
/// argument at `pos` on, added to `acc`; the result counts up to the
/// closing parenthesis.
#[verifier::opaque]
pub open spec fn parse_expression_list(
    toks: Seq<SpecToken>,
    pos: nat,
    acc: Seq<SpecExpression>,
) -> Result<(Seq<SpecExpression>, nat), ParseError>
    decreases tokens_left(toks, pos), 7int,
{
    match parse_expression(toks, pos, Precedence::LOWEST.rank()) {
        Err(e) => Err(e),
        Ok((argument, n)) => advanced(expression_list_tail(toks, pos + n, acc.push(argument)), n),
    }
}

/// What follows an argument of a call, where `pos` holds the argument's
/// last token and `acc` the arguments up to it: a comma and more
/// arguments, or the closing parenthesis.
#[verifier::opaque]
pub open spec fn expression_list_tail(
    toks: Seq<SpecToken>,
    pos: nat,
    acc: Seq<SpecExpression>,
) -> Result<(Seq<SpecExpression>, nat), ParseError>
    decreases tokens_left(toks, pos), 2int,
{
    if kind_at(toks, pos + 1) == TokenType::COMMA {
        advanced(parse_expression_list(toks, pos + 2, acc), 2)
    } else if kind_at(toks, pos + 1) == TokenType::RPAREN {
        Ok((acc, 1))
    } else {
        Err(missing(toks, pos + 1, TokenType::RPAREN))
    }
}

/// A block: statements between braces. `pos` holds the opening brace,
/// which the caller has seen; the result counts up to the closing one.
#[verifier::opaque]
pub open spec fn parse_block(toks: Seq<SpecToken>, pos: nat) -> Result<
    (SpecBlock, nat),
    ParseError,
>
    decreases tokens_left(toks, pos), 10int,
{
    match parse_block_statements(toks, pos + 1, Seq::empty()) {
        Err(e) => Err(e),
        Ok((statements, n)) => Ok(
            (SpecBlock { token: token_at(toks, pos), statements: statements }, n + 1),
        ),
    }
}

/// The statements of a block from `pos` on, up to its closing brace. A
/// block that the input ends in is an error.
#[verifier::opaque]
pub open spec fn parse_block_statements(
    toks: Seq<SpecToken>,
    pos: nat,
    acc: Seq<SpecStatement>,
) -> Result<(Seq<SpecStatement>, nat), ParseError>
    decreases tokens_left(toks, pos), 9int,
{
    if kind_at(toks, pos) == TokenType::RBRACE {
        Ok((acc, 0))
    } else if kind_at(toks, pos) == TokenType::EOF {
        Err(missing(toks, pos, TokenType::RBRACE))
    } else {
        match parse_statement(toks, pos) {
            Err(e) => Err(e),
            Ok((statement, n)) => match parse_block_statements(
                toks,
                pos + n + 1,
                acc.push(statement),
            ) {
                Err(e) => Err(e),
                Ok((all, m)) => Ok((all, n + m + 1)),
            },
        }
    }
}

/// One statement, from `pos` on. `let` and `return` statements end with a
/// semicolon; after an expression statement a semicolon may follow, and
/// then belongs to it.
#[verifier::opaque]
pub open spec fn parse_statement(toks: Seq<SpecToken>, pos: nat) -> Result<
    (SpecStatement, nat),
    ParseError,
>
    decreases tokens_left(toks, pos), 8int,
{
    let tok = token_at(toks, pos);
    if tok.kind == TokenType::LET {
        if kind_at(toks, pos + 1) != TokenType::IDENT {
            Err(missing(toks, pos + 1, TokenType::IDENT))
        } else if kind_at(toks, pos + 2) != TokenType::ASSIGN {
            Err(missing(toks, pos + 2, TokenType::ASSIGN))
        } else {
            match parse_expression(toks, pos + 3, Precedence::LOWEST.rank()) {
                Err(e) => Err(e),
                Ok((value, n)) => if kind_at(toks, pos + n + 4) != TokenType::SEMICOLON {
                    Err(missing(toks, pos + n + 4, TokenType::SEMICOLON))
                } else {
                    Ok(
                        (
                            SpecStatement::Let {
                                token: tok,
                                name: identifier_of(token_at(toks, pos + 1)),
                                value: value,
                            },
                            n + 4,
                        ),
                    )
                },
            }
        }
    } else if tok.kind == TokenType::RETURN {
        match parse_expression(toks, pos + 1, Precedence::LOWEST.rank()) {
            Err(e) => Err(e),
            Ok((value, n)) => if kind_at(toks, pos + n + 2) != TokenType::SEMICOLON {
                Err(missing(toks, pos + n + 2, TokenType::SEMICOLON))
            } else {
                Ok((SpecStatement::Return { token: tok, value: value }, n + 2))
            },
        }
    } else {
        match parse_expression(toks, pos, Precedence::LOWEST.rank()) {
            Err(e) => Err(e),
            Ok((expression, n)) => Ok(
                (
                    SpecStatement::Expression { token: tok, expression: expression },
                    if kind_at(toks, pos + n + 1) == TokenType::SEMICOLON {
                        n + 1
                    } else {
                        n
                    },
                ),
            ),
        }
    }
}

/// The statements from `pos` up to the end of the input.
#[verifier::opaque]
pub open spec fn parse_statements(toks: Seq<SpecToken>, pos: nat, acc: Seq<SpecStatement>)
    -> Result<Seq<SpecStatement>, ParseError>
    decreases tokens_left(toks, pos), 9int,
{
    if kind_at(toks, pos) == TokenType::EOF {
        Ok(acc)
    } else {
        match parse_statement(toks, pos) {
            Err(e) => Err(e),
            Ok((statement, n)) => parse_statements(toks, pos + n + 1, acc.push(statement)),
        }
    }
}

/// A program: the statements from `pos` up to the end of the input, of
/// which there is at least one.
#[verifier::opaque]
pub open spec fn parse_program(toks: Seq<SpecToken>, pos: nat) -> Result<
    Seq<SpecStatement>,
    ParseError,
> {
    match parse_statements(toks, pos, Seq::empty()) {
        Err(e) => Err(e),
        Ok(statements) => if statements.len() > 0 {
            Ok(statements)
        } else {
            Err(ParseError::EmptyProgram)
        },
    }
}

} // verus!
