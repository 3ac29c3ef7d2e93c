//! The parser: reads a program out of the tokens that a scanner hands out,
//! by operator precedence, and proves that what it builds is what the
//! grammar gives for those tokens.

use vstd::prelude::*;
use crate::ast::{lemma_expression_view, lemma_expressions_view, lemma_identifiers_view_push, lemma_expressions_view_push, lemma_statements_view, lemma_statements_view_push, expressions_view, identifiers_view, statements_view, MonkeyExpression, Programm, SpecBlock, SpecExpression, SpecIdentifier, SpecStatement, Statement};
use crate::grammar;
use crate::grammar::{all_digits, decimal_value, identifier_of, infix_rule_for, integer_value, kind_at, missing, advanced, prefix_rule_for, token_at, token_precedence, tokens_left, InfixRule, ParseError, Precedence, PrefixRule};
use crate::lexer::{digit, is_digit, lemma_scan_token, scan_token, tokens_from, Lexer};
use crate::token::{eof_token, BlockStatement, Boolean, CallExpression, ExpressionStatement, FunctionLiteral, Identifier, IfExpression, InfixExpression, IntegerLiteral, LetStatement, PrefixExpression, ReturnStatement, SpecToken, Token, TokenType, TOKEN_KINDS};

verus! {

/// What is left of a token stream at `k`: its tokens from `k` on, or, past
/// its end, the end-of-input token alone.
pub open spec fn rest_of(toks: Seq<SpecToken>, k: nat) -> Seq<SpecToken> {
    if k < toks.len() {
        toks.skip(k as int)
    } else {
        seq![eof_token()]
    }
}

/// The parser returned what the grammar gives for an expression, and
/// stands on the expression's last token.
pub open spec fn expression_read(
    expected: Result<(SpecExpression, nat), ParseError>,
    r: Result<MonkeyExpression, ParseError>,
    before: nat,
    after: nat,
) -> bool {
    match expected {
        Ok((e, n)) => r is Ok && r->Ok_0@ == e && after == before + n,
        Err(err) => r is Err && r->Err_0 == err,
    }
}

/// The parser returned what the grammar gives for a statement, and stands
/// on the statement's last token.
pub open spec fn statement_read(
    expected: Result<(SpecStatement, nat), ParseError>,
    r: Result<Statement, ParseError>,
    before: nat,
    after: nat,
) -> bool {
    match expected {
        Ok((s, n)) => r is Ok && r->Ok_0@ == s && after == before + n,
        Err(err) => r is Err && r->Err_0 == err,
    }
}

/// The parser returned what the grammar gives for a block, and stands on
/// the block's closing brace.
pub open spec fn block_read(
    expected: Result<(SpecBlock, nat), ParseError>,
    r: Result<BlockStatement, ParseError>,
    before: nat,
    after: nat,
) -> bool {
    match expected {
        Ok((b, n)) => r is Ok && r->Ok_0@ == b && after == before + n,
        Err(err) => r is Err && r->Err_0 == err,
    }
}

/// The parser returned what the grammar gives for a parameter list, and
/// stands on the list's closing parenthesis.
pub open spec fn parameters_read(
    expected: Result<(Seq<SpecIdentifier>, nat), ParseError>,
    r: Result<Vec<Identifier>, ParseError>,
    before: nat,
    after: nat,
) -> bool {
    match expected {
        Ok((names, n)) => r is Ok && identifiers_view(r->Ok_0@) == names && after == before + n,
        Err(err) => r is Err && r->Err_0 == err,
    }
}

/// The arguments of a call as the tree holds them.
pub open spec fn arguments_view(a: Option<Vec<MonkeyExpression>>) -> Option<Seq<SpecExpression>> {
    match a {
        Some(v) => Some(expressions_view(v@)),
        None => None,
    }
}

/// The parser returned what the grammar gives for the arguments of a call,
/// and stands on the closing parenthesis.
pub open spec fn arguments_read(
    expected: Result<(Option<Seq<SpecExpression>>, nat), ParseError>,
    r: Result<Option<Vec<MonkeyExpression>>, ParseError>,
    before: nat,
    after: nat,
) -> bool {
    match expected {
        Ok((args, n)) => r is Ok && arguments_view(r->Ok_0) == args && after == before + n,
        Err(err) => r is Err && r->Err_0 == err,
    }
}

/// A stream that is scanned from a text begins with the text's next token,
/// and what follows is the stream scanned from behind that token.
pub proof fn lemma_tokens_from_step(s: Seq<char>, pos: nat)
    requires
        pos <= s.len(),
    ensures
        tokens_from(s, pos).len() > 0,
        tokens_from(s, pos)[0] == scan_token(s, pos).0,
        tokens_from(s, scan_token(s, pos).1) == rest_of(tokens_from(s, pos), 1),
{
    lemma_scan_token(s, pos);
    let (tok, next) = scan_token(s, pos);
    if tok.kind == TokenType::EOF {
        lemma_scan_token(s, next);
        assert(scan_token(s, next).0 == eof_token());
        assert(tokens_from(s, next) =~= seq![eof_token()]);
        assert(tokens_from(s, pos) =~= seq![eof_token()]);
    } else {
        assert(tokens_from(s, pos) == seq![tok] + tokens_from(s, next));
        assert(tokens_from(s, next).len() > 0) by {
            lemma_scan_token(s, next);
        }
        assert(tokens_from(s, pos).skip(1) =~= tokens_from(s, next));
    }
}

/// What is left of what is left.
pub proof fn lemma_rest_of_rest(toks: Seq<SpecToken>, a: nat, b: nat)
    ensures
        rest_of(rest_of(toks, a), b) == rest_of(toks, a + b),
        rest_of(toks, a).len() > 0,
        rest_of(toks, a)[0] == token_at(toks, a),
{
    if a < toks.len() {
        if b < toks.len() - a {
            assert(toks.skip(a as int).skip(b as int) =~= toks.skip((a + b) as int));
        }
    } else {
        if b == 0 {
            assert(seq![eof_token()].skip(0) =~= seq![eof_token()]);
        }
    }
}

/// A longer run of digits writes no smaller a number.
pub proof fn lemma_decimal_value_grows(s: Seq<char>, k: nat)
    requires
        k <= s.len(),
        all_digits(s),
    ensures
        decimal_value(s.take(k as int)) <= decimal_value(s),
    decreases s.len(),
{
    if k == s.len() {
        assert(s.take(k as int) =~= s);
    } else {
        assert(digit(s.last()));
        assert(s.drop_last().take(k as int) =~= s.take(k as int));
        lemma_decimal_value_grows(s.drop_last(), k);
    }
}

/// The value of an integer literal, if it has one.
pub fn parse_decimal(s: &str) -> (r: Option<i64>)
    ensures
        r == integer_value(s@),
{
    let n = s.unicode_len();
    if n == 0 {
        return None;
    }
    let mut acc: i64 = 0;
    let mut i: usize = 0;
    while i < n
        invariant
            i <= n,
            n == s@.len(),
            all_digits(s@.take(i as int)),
            0 <= acc,
            acc == decimal_value(s@.take(i as int)),
        decreases n - i,
    {
        let c = s.get_char(i);
        if !is_digit(c) {
            return None;
        }
        proof {
            assert(s@.take(i + 1).drop_last() =~= s@.take(i as int));
            assert(s@.take(i + 1).last() == c);
            assert(all_digits(s@.take(i + 1))) by {
                assert forall|j: int| 0 <= j < i + 1 implies digit(
                    #[trigger] s@.take(i + 1)[j],
                ) by {
                    if j < i {
                        assert(s@.take(i + 1)[j] == s@.take(i as int)[j]);
                    }
                }
            }
            if all_digits(s@) {
                lemma_decimal_value_grows(s@, (i + 1) as nat);
            }
        }
        let d: i64 = ((c as u32) - ('0' as u32)) as i64;
        acc = match acc.checked_mul(10) {
            Some(x) => match x.checked_add(d) {
                Some(y) => y,
                None => {
                    return None;
                },
            },
            None => {
                return None;
            },
        };
        i += 1;
    }
    assert(s@.take(n as int) =~= s@);
    Some(acc)
}

/// A parser over the tokens of one scanner. It looks one token ahead: it
/// holds the token it stands on and the one after it.
pub struct Parser {
    lexer: Lexer,
    curr_token: Token,
    peek_token: Token,
    prefix_parse_fns: Vec<Option<PrefixRule>>,
    infix_parse_fns: Vec<Option<InfixRule>>,
    tokens: Ghost<Seq<SpecToken>>,
    cursor: Ghost<nat>,
}

impl Parser {
    /// All the tokens of the input that the parser was made for.
    pub closed spec fn source(&self) -> Seq<SpecToken> {
        self.tokens@
    }

    /// The position in `source` of the token that the parser stands on.
    pub closed spec fn position(&self) -> nat {
        self.cursor@
    }

    /// The two tokens that the parser holds are those of its position, the
    /// scanner is about to hand out the token after them, and the rule
    /// tables hold the grammar's rules.
    #[verifier::opaque]
    pub closed spec fn wf(&self) -> bool {
        &&& self.lexer.wf()
        &&& self.curr_token@ == token_at(self.tokens@, self.cursor@)
        &&& self.peek_token@ == token_at(self.tokens@, self.cursor@ + 1)
        &&& self.lexer.pending() == rest_of(self.tokens@, self.cursor@ + 2)
        &&& self.prefix_parse_fns@.len() == TOKEN_KINDS
        &&& self.infix_parse_fns@.len() == TOKEN_KINDS
        &&& forall|kind: TokenType|
            self.prefix_parse_fns@[#[trigger] kind.ordinal() as int] == prefix_rule_for(kind)
        &&& forall|kind: TokenType|
            self.infix_parse_fns@[#[trigger] kind.ordinal() as int] == infix_rule_for(kind)
    }

    /// The rule for expressions that begin with a token of kind `kind`.
    fn prefix_rule(&self, kind: TokenType) -> (r: Option<PrefixRule>)
        requires
            self.wf(),
        ensures
            r == prefix_rule_for(kind),
    {
        proof {
            reveal(Parser::wf);
        }
        self.prefix_parse_fns[kind.index()]
    }

    /// The rule for expressions that continue with a token of kind `kind`.
    fn infix_rule(&self, kind: TokenType) -> (r: Option<InfixRule>)
        requires
            self.wf(),
        ensures
            r == infix_rule_for(kind),
    {
        proof {
            reveal(Parser::wf);
        }
        self.infix_parse_fns[kind.index()]
    }

    /// The kind of the token that the parser stands on.
    fn curr_kind(&self) -> (r: TokenType)
        requires
            self.wf(),
        ensures
            r == kind_at(self.source(), self.position()),
    {
        proof {
            reveal(Parser::wf);
        }
        self.curr_token.tokentype
    }

    /// The kind of the token after the one that the parser stands on.
    fn peek_kind(&self) -> (r: TokenType)
        requires
            self.wf(),
        ensures
            r == kind_at(self.source(), self.position() + 1),
    {
        proof {
            reveal(Parser::wf);
        }
        self.peek_token.tokentype
    }

    /// A copy of the token that the parser stands on.
    fn curr(&self) -> (r: Token)
        requires
            self.wf(),
        ensures
            r@ == token_at(self.source(), self.position()),
    {
        proof {
            reveal(Parser::wf);
        }
        self.curr_token.clone()
    }

    /// A parser that stands on the first token that `lexer` is about to
    /// hand out.
    pub fn new(lexer: Lexer) -> (p: Parser)
        requires
            lexer.wf(),
        ensures
            p.wf(),
            p.source() == lexer.pending(),
            p.position() == 0,
    {
        let ghost toks = lexer.pending();
        let ghost text = lexer.input@;
        let ghost start = lexer.position as nat;
        let mut lexer = lexer;
        let token_1 = lexer.next_token();
        let ghost middle = lexer.position as nat;
        let token_2 = lexer.next_token();
        proof {
            lemma_tokens_from_step(text, start);
            lemma_tokens_from_step(text, middle);
            lemma_rest_of_rest(toks, 0, 1);
            lemma_rest_of_rest(toks, 1, 0);
            lemma_rest_of_rest(toks, 1, 1);
            lemma_rest_of_rest(toks, 0, 0);
            assert(rest_of(toks, 0) =~= toks);
        }
        let mut prefix: Vec<Option<PrefixRule>> = Vec::new();
        let mut infix: Vec<Option<InfixRule>> = Vec::new();
        let mut i: usize = 0;
        while i < TOKEN_KINDS
            invariant
                i <= TOKEN_KINDS,
                prefix@.len() == i,
                infix@.len() == i,
                forall|j: int| 0 <= j < i ==> prefix@[j] is None,
                forall|j: int| 0 <= j < i ==> infix@[j] is None,
            decreases TOKEN_KINDS - i,
        {
            prefix.push(None);
            infix.push(None);
            i += 1;
        }
        let mut p = Parser {
            lexer: lexer,
            curr_token: token_1,
            peek_token: token_2,
            prefix_parse_fns: prefix,
            infix_parse_fns: infix,
            tokens: Ghost(toks),
            cursor: Ghost(0),
        };
        p.register_prefix_fn(TokenType::IDENT, PrefixRule::Identifier);
        p.register_prefix_fn(TokenType::INT, PrefixRule::IntegerLiteral);
        p.register_prefix_fn(TokenType::BANG, PrefixRule::PrefixOperator);
        p.register_prefix_fn(TokenType::MINUS, PrefixRule::PrefixOperator);
        p.register_prefix_fn(TokenType::FALSE, PrefixRule::Boolean);
        p.register_prefix_fn(TokenType::TRUE, PrefixRule::Boolean);
        p.register_prefix_fn(TokenType::LPAREN, PrefixRule::Grouped);
        p.register_prefix_fn(TokenType::IF, PrefixRule::If);
        p.register_prefix_fn(TokenType::FUNCTION, PrefixRule::FunctionLiteral);

        p.register_infix_fn(TokenType::LPAREN, InfixRule::Call);
        p.register_infix_fn(TokenType::EQ, InfixRule::Binary);
        p.register_infix_fn(TokenType::NOTEQ, InfixRule::Binary);
        p.register_infix_fn(TokenType::LT, InfixRule::Binary);
        p.register_infix_fn(TokenType::LTEQ, InfixRule::Binary);
        p.register_infix_fn(TokenType::GT, InfixRule::Binary);
        p.register_infix_fn(TokenType::GTEQ, InfixRule::Binary);
        p.register_infix_fn(TokenType::PLUS, InfixRule::Binary);
        p.register_infix_fn(TokenType::MINUS, InfixRule::Binary);
        p.register_infix_fn(TokenType::ASTERISK, InfixRule::Binary);
        p.register_infix_fn(TokenType::SLASH, InfixRule::Binary);
        p.register_infix_fn(TokenType::POWER, InfixRule::Binary);
        proof {
            reveal(Parser::wf);
        }
        p
    }

    /// Enters the rule for expressions that begin with `tok_type`.
    fn register_prefix_fn(&mut self, tok_type: TokenType, rule: PrefixRule)
        requires
            old(self).prefix_parse_fns@.len() == TOKEN_KINDS,
        ensures
            final(self).prefix_parse_fns@ == old(self).prefix_parse_fns@.update(
                tok_type.ordinal() as int,
                Some(rule),
            ),
            final(self).infix_parse_fns == old(self).infix_parse_fns,
            final(self).lexer == old(self).lexer,
            final(self).curr_token == old(self).curr_token,
            final(self).peek_token == old(self).peek_token,
            final(self).tokens == old(self).tokens,
            final(self).cursor == old(self).cursor,
    {
        self.prefix_parse_fns[tok_type.index()] = Some(rule);
    }

    /// Enters the rule for expressions that continue with `tok_type`.
    fn register_infix_fn(&mut self, tok_type: TokenType, rule: InfixRule)
        requires
            old(self).infix_parse_fns@.len() == TOKEN_KINDS,
        ensures
            final(self).infix_parse_fns@ == old(self).infix_parse_fns@.update(
                tok_type.ordinal() as int,
                Some(rule),
            ),
            final(self).prefix_parse_fns == old(self).prefix_parse_fns,
            final(self).lexer == old(self).lexer,
            final(self).curr_token == old(self).curr_token,
            final(self).peek_token == old(self).peek_token,
            final(self).tokens == old(self).tokens,
            final(self).cursor == old(self).cursor,
    {
        self.infix_parse_fns[tok_type.index()] = Some(rule);
    }

    /// Steps to the next token.
    fn next_token(&mut self)
        requires
            old(self).wf(),
        ensures
            final(self).wf(),
            final(self).source() == old(self).source(),
            final(self).position() == old(self).position() + 1,
    {
        proof {
            reveal(Parser::wf);
            lemma_tokens_from_step(self.lexer.input@, self.lexer.position as nat);
            lemma_rest_of_rest(self.tokens@, self.cursor@ + 2, 1);
            lemma_rest_of_rest(self.tokens@, self.cursor@ + 2, 0);
        }
        self.curr_token = self.peek_token.clone();
        self.peek_token = self.lexer.next_token();
        self.cursor = Ghost(self.cursor@ + 1);
    }

    fn peektoken_is(&self, tok_type: TokenType) -> (r: bool)
        requires
            self.wf(),
        ensures
            r == (kind_at(self.source(), self.position() + 1) == tok_type),
    {
        self.peek_kind() == tok_type
    }

    fn currtoken_is(&self, tok_type: TokenType) -> (r: bool)
        requires
            self.wf(),
        ensures
            r == (kind_at(self.source(), self.position()) == tok_type),
    {
        self.curr_kind() == tok_type
    }

    /// Steps to the next token if it is of kind `tok_type`.
    fn expect_peek(&mut self, tok_type: TokenType) -> (r: bool)
        requires
            old(self).wf(),
        ensures
            final(self).wf(),
            final(self).source() == old(self).source(),
            r == (kind_at(old(self).source(), old(self).position() + 1) == tok_type),
            final(self).position() == if r {
                old(self).position() + 1
            } else {
                old(self).position()
            },
    {
        if self.peektoken_is(tok_type) {
            self.next_token();
            true
        } else {
            false
        }
    }

    /// The error for a next token that is not of kind `expected`.
    fn peek_error(&self, expected: TokenType) -> (r: ParseError)
        requires
            self.wf(),
        ensures
            r == missing(self.source(), self.position() + 1, expected),
    {
        ParseError::UnexpectedToken { expected: expected, found: self.peek_kind() }
    }

    /// The precedence of the next token (`peek`) or of the current one.
    fn get_precedence(&self, peek: bool) -> (r: Precedence)
        requires
            self.wf(),
        ensures
            r == token_precedence(
                kind_at(
                    self.source(),
                    if peek {
                        self.position() + 1
                    } else {
                        self.position()
                    },
                ),
            ),
    {
        let kind = if peek {
            self.peek_kind()
        } else {
            self.curr_kind()
        };
        match kind {
            TokenType::EQ | TokenType::NOTEQ => Precedence::EQUAL,
            TokenType::GT | TokenType::LT => Precedence::LESSGREATER,
            TokenType::GTEQ | TokenType::LTEQ => Precedence::LESSGREATER,
            TokenType::PLUS | TokenType::MINUS => Precedence::SUM,
            TokenType::ASTERISK | TokenType::SLASH => Precedence::PRODUCT,
            TokenType::POWER => Precedence::POWER,
            TokenType::LPAREN => Precedence::CALL,
            _ => Precedence::LOWEST,
        }
    }

    /// The identifier that the current token names.
    fn current_identifier(&self) -> (r: Identifier)
        requires
            self.wf(),
        ensures
            r@ == identifier_of(token_at(self.source(), self.position())),
    {
        let token = self.curr();
        let name = token.literal.clone();
        Identifier::new(token, name)
    }

    /// Reads the whole input as a program. It stops at the first error; on
    /// success it stands at the end of the input.
    #[verifier::spinoff_prover]
    pub fn parse_programm(&mut self) -> (r: Result<Programm, ParseError>)
        requires
            old(self).wf(),
        ensures
            final(self).wf(),
            final(self).source() == old(self).source(),
            match grammar::parse_program(old(self).source(), old(self).position()) {
                Ok(statements) => r is Ok && r->Ok_0@ == statements,
                Err(err) => r is Err && r->Err_0 == err,
            },
            r is Ok ==> kind_at(final(self).source(), final(self).position()) == TokenType::EOF,
    {
        proof {
            reveal(grammar::parse_program);
            reveal(grammar::parse_statements);
        }
        let ghost toks = self.source();
        let ghost start = self.position();
        let mut programm = Programm { statements: Vec::new() };
        proof {
            lemma_statements_view(programm.statements@);
            assert(programm@ =~= Seq::empty());
        }
        loop
            invariant
                self.wf(),
                self.source() == toks,
                toks == old(self).source(),
                start == old(self).position(),
                grammar::parse_statements(toks, start, Seq::empty())
                    == grammar::parse_statements(toks, self.position(), programm@),
            ensures
                kind_at(toks, self.position()) == TokenType::EOF,
            decreases tokens_left(toks, self.position()),
        {
            proof {
                reveal(grammar::parse_program);
                reveal(grammar::parse_statements);
            }
            let parsed_statement = match self.parse_statement() {
                Err(e) => {
                    return Err(e);
                },
                Ok(None) => {
                    break ;
                },
                Ok(Some(x)) => x,
            };
            proof {
                lemma_statements_view_push(programm.statements@, parsed_statement);
            }
            programm.statements.push(parsed_statement);
            self.next_token();
        }
        proof {
            lemma_statements_view(programm.statements@);
        }
        if programm.statements.len() > 0 {
            Ok(programm)
        } else {
            Err(ParseError::EmptyProgram)
        }
    }

    /// Reads the statement that begins at the current token, if the input
    /// has not ended.
    fn parse_statement(&mut self) -> (r: Result<Option<Statement>, ParseError>)
        requires
            old(self).wf(),
        ensures
            final(self).wf(),
            final(self).source() == old(self).source(),
            kind_at(old(self).source(), old(self).position()) == TokenType::EOF ==> r == Ok::<
                Option<Statement>,
                ParseError,
            >(None) && final(self).position() == old(self).position(),
            kind_at(old(self).source(), old(self).position()) != TokenType::EOF ==> match grammar::parse_statement(
                old(self).source(),
                old(self).position(),
            ) {
                Ok((s, n)) => r is Ok && r->Ok_0 is Some && r->Ok_0->Some_0@ == s
                    && final(self).position() == old(self).position() + n,
                Err(err) => r is Err && r->Err_0 == err,
            },
        decreases tokens_left(old(self).source(), old(self).position()), 8int,
    {
        match self.curr_kind() {
            TokenType::LET => {
                match self.parse_let_statement() {
                    Ok(x) => Ok(Some(x)),
                    Err(err) => Err(err),
                }
            },
            TokenType::RETURN => {
                match self.parse_return_statement() {
                    Ok(x) => Ok(Some(x)),
                    Err(err) => Err(err),
                }
            },
            TokenType::EOF => Ok(None),
            _ => {
                match self.parse_expression_statement() {
                    Ok(x) => Ok(Some(x)),
                    Err(err) => Err(err),
                }
            },
        }
    }

    #[verifier::spinoff_prover]
    fn parse_let_statement(&mut self) -> (r: Result<Statement, ParseError>)
        requires
            old(self).wf(),
            kind_at(old(self).source(), old(self).position()) == TokenType::LET,
        ensures
            final(self).wf(),
            final(self).source() == old(self).source(),
            statement_read(
                grammar::parse_statement(old(self).source(), old(self).position()),
                r,
                old(self).position(),
                final(self).position(),
            ),
        decreases tokens_left(old(self).source(), old(self).position()), 7int,
    {
        proof {
            reveal(grammar::parse_statement);
            reveal(grammar::parse_expression);
        }
        let statement_token = self.curr();
        if !self.expect_peek(TokenType::IDENT) {
            return Err(self.peek_error(TokenType::IDENT));
        }
        let statement_name = self.current_identifier();
        if !self.expect_peek(TokenType::ASSIGN) {
            return Err(self.peek_error(TokenType::ASSIGN));
        }
        self.next_token();
        let value = match self.parse_expression(Precedence::LOWEST.into_i32()) {
            Ok(x) => x,
            Err(err) => {
                return Err(err);
            },
        };
        if !self.expect_peek(TokenType::SEMICOLON) {
            return Err(self.peek_error(TokenType::SEMICOLON));
        }
        Ok(Statement::LET(LetStatement::new(statement_token, statement_name, value)))
    }

    #[verifier::spinoff_prover]
    fn parse_return_statement(&mut self) -> (r: Result<Statement, ParseError>)
        requires
            old(self).wf(),
            kind_at(old(self).source(), old(self).position()) == TokenType::RETURN,
        ensures
            final(self).wf(),
            final(self).source() == old(self).source(),
            statement_read(
                grammar::parse_statement(old(self).source(), old(self).position()),
                r,
                old(self).position(),
                final(self).position(),
            ),
        decreases tokens_left(old(self).source(), old(self).position()), 7int,
    {
        proof {
            reveal(grammar::parse_statement);
            reveal(grammar::parse_expression);
        }
        let statement_token = self.curr();
        self.next_token();
        let expression = match self.parse_expression(Precedence::LOWEST.into_i32()) {
            Ok(x) => x,
            Err(err) => {
                return Err(err);
            },
        };
        if !self.expect_peek(TokenType::SEMICOLON) {
            return Err(self.peek_error(TokenType::SEMICOLON));
        }
        Ok(Statement::RETURN(ReturnStatement::new(statement_token, expression)))
    }

    #[verifier::spinoff_prover]
    fn parse_expression_statement(&mut self) -> (r: Result<Statement, ParseError>)
        requires
            old(self).wf(),
            kind_at(old(self).source(), old(self).position()) != TokenType::LET,
            kind_at(old(self).source(), old(self).position()) != TokenType::RETURN,
        ensures
            final(self).wf(),
            final(self).source() == old(self).source(),
            statement_read(
                grammar::parse_statement(old(self).source(), old(self).position()),
                r,
                old(self).position(),
                final(self).position(),
            ),
        decreases tokens_left(old(self).source(), old(self).position()), 7int,
    {
        proof {
            reveal(grammar::parse_statement);
            reveal(grammar::parse_expression);
        }
        let statement_token = self.curr();
        let expression = match self.parse_expression(Precedence::LOWEST.into_i32()) {
            Ok(x) => x,
            Err(err) => {
                return Err(err);
            },
        };
        if self.peektoken_is(TokenType::SEMICOLON) {
            self.next_token();
        }
        Ok(Statement::EXPRESSION(ExpressionStatement::new(statement_token, expression)))
    }

    /// Reads the block whose opening brace is the current token.
    #[verifier::spinoff_prover]
    fn parse_block_statement(&mut self) -> (r: Result<BlockStatement, ParseError>)
        requires
            old(self).wf(),
            kind_at(old(self).source(), old(self).position()) == TokenType::LBRACE,
        ensures
            final(self).wf(),
            final(self).source() == old(self).source(),
            block_read(
                grammar::parse_block(old(self).source(), old(self).position()),
                r,
                old(self).position(),
                final(self).position(),
            ),
        decreases tokens_left(old(self).source(), old(self).position()), 10int,
    {
        proof {
            reveal(grammar::parse_block);
            reveal(grammar::parse_block_statements);
            reveal(grammar::parse_statement);
        }
        let ghost toks = self.source();
        let ghost start = self.position();
        let block_token = self.curr();
        let mut statements: Vec<Statement> = Vec::new();
        proof {
            lemma_statements_view(statements@);
            assert(statements_view(statements@) =~= Seq::empty());
        }
        self.next_token();
        while !self.currtoken_is(TokenType::RBRACE)
            invariant
                self.wf(),
                self.source() == toks,
                toks == old(self).source(),
                start == old(self).position(),
                start < self.position(),
                start < toks.len(),
                block_token@ == token_at(toks, start),
                grammar::parse_block_statements(toks, start + 1, Seq::empty()) == advanced(
                    grammar::parse_block_statements(
                        toks,
                        self.position(),
                        statements_view(statements@),
                    ),
                    (self.position() - start - 1) as nat,
                ),
            decreases tokens_left(toks, self.position()),
        {
            proof {
                reveal(grammar::parse_block);
                reveal(grammar::parse_block_statements);
                reveal(grammar::parse_statement);
            }
            let statement = match self.parse_statement() {
                Ok(Some(x)) => x,
                Ok(None) => {
                    return Err(
                        ParseError::UnexpectedToken {
                            expected: TokenType::RBRACE,
                            found: TokenType::EOF,
                        },
                    );
                },
                Err(err) => {
                    return Err(err);
                },
            };
            proof {
                lemma_statements_view_push(statements@, statement);
            }
            statements.push(statement);
            self.next_token();
        }
        Ok(BlockStatement::new(block_token, statements))
    }

    /// Reads an expression that binds tighter than `precedence`.
    #[verifier::spinoff_prover]
    fn parse_expression(&mut self, precedence: i32) -> (r: Result<MonkeyExpression, ParseError>)
        requires
            old(self).wf(),
        ensures
            final(self).wf(),
            final(self).source() == old(self).source(),
            expression_read(
                grammar::parse_expression(
                    old(self).source(),
                    old(self).position(),
                    precedence as int,
                ),
                r,
                old(self).position(),
                final(self).position(),
            ),
        decreases tokens_left(old(self).source(), old(self).position()), 6int,
    {
        proof {
            reveal(grammar::parse_expression);
            reveal(grammar::parse_prefix);
            reveal(grammar::parse_infix_loop);
            reveal(grammar::parse_infix);
        }
        let ghost toks = self.source();
        let ghost start = self.position();
        let prefix = self.prefix_rule(self.curr_kind());
        let first = match prefix {
            None => {
                return Err(ParseError::NoPrefixRule(self.curr_kind()));
            },
            Some(PrefixRule::Identifier) => self.parse_identifier(),
            Some(PrefixRule::IntegerLiteral) => self.parse_integer_literal(),
            Some(PrefixRule::Boolean) => self.parse_boolean(),
            Some(PrefixRule::PrefixOperator) => self.parse_prefix_expression(),
            Some(PrefixRule::Grouped) => self.parse_grouped_expression(),
            Some(PrefixRule::If) => self.parse_if_expression(),
            Some(PrefixRule::FunctionLiteral) => self.parse_function_literal(),
        };
        let mut left_expr = match first {
            Ok(x) => x,
            Err(err) => {
                return Err(err);
            },
        };
        while !self.peektoken_is(TokenType::SEMICOLON) && precedence < self.get_precedence(
            true,
        ).into_i32()
            invariant
                self.wf(),
                self.source() == toks,
                toks == old(self).source(),
                start == old(self).position(),
                start <= self.position(),
                grammar::parse_expression(toks, start, precedence as int) == advanced(
                    grammar::parse_infix_loop(
                        toks,
                        self.position(),
                        left_expr@,
                        precedence as int,
                    ),
                    (self.position() - start) as nat,
                ),
            decreases tokens_left(toks, self.position()),
        {
            proof {
                reveal(grammar::parse_expression);
                reveal(grammar::parse_infix_loop);
                reveal(grammar::parse_infix);
            }
            let infix = self.infix_rule(self.peek_kind());
            let next = match infix {
                None => {
                    return Err(ParseError::NoInfixRule(self.peek_kind()));
                },
                Some(InfixRule::Binary) => {
                    self.next_token();
                    self.parse_infix_expression(left_expr)
                },
                Some(InfixRule::Call) => {
                    self.next_token();
                    self.parse_call_expression(left_expr)
                },
            };
            left_expr = match next {
                Ok(x) => x,
                Err(err) => {
                    return Err(err);
                },
            };
        }
        Ok(left_expr)
    }

    #[verifier::spinoff_prover]
    fn parse_grouped_expression(&mut self) -> (r: Result<MonkeyExpression, ParseError>)
        requires
            old(self).wf(),
            kind_at(old(self).source(), old(self).position()) == TokenType::LPAREN,
        ensures
            final(self).wf(),
            final(self).source() == old(self).source(),
            expression_read(
                grammar::parse_prefix(old(self).source(), old(self).position()),
                r,
                old(self).position(),
                final(self).position(),
            ),
        decreases tokens_left(old(self).source(), old(self).position()), 5int,
    {
        proof {
            reveal(grammar::parse_prefix);
            reveal(grammar::parse_expression);
        }
        self.next_token();
        let expression = match self.parse_expression(Precedence::LOWEST.into_i32()) {
            Ok(x) => x,
            Err(err) => {
                return Err(err);
            },
        };
        if !self.expect_peek(TokenType::RPAREN) {
            return Err(self.peek_error(TokenType::RPAREN));
        }
        Ok(expression)
    }

    #[verifier::spinoff_prover]
    fn parse_function_literal(&mut self) -> (r: Result<MonkeyExpression, ParseError>)
        requires
            old(self).wf(),
            kind_at(old(self).source(), old(self).position()) == TokenType::FUNCTION,
        ensures
            final(self).wf(),
            final(self).source() == old(self).source(),
            expression_read(
                grammar::parse_prefix(old(self).source(), old(self).position()),
                r,
                old(self).position(),
                final(self).position(),
            ),
        decreases tokens_left(old(self).source(), old(self).position()), 5int,
    {
        proof {
            reveal(grammar::parse_prefix);
            reveal(grammar::parse_function);
            reveal(grammar::parse_parameters);
            reveal(grammar::parse_block);
        }
        let func_tok = self.curr();
        if !self.expect_peek(TokenType::LPAREN) {
            return Err(self.peek_error(TokenType::LPAREN));
        }
        let params = match self.parse_function_parameters() {
            Ok(x) => x,
            Err(err) => {
                return Err(err);
            },
        };
        if !self.expect_peek(TokenType::LBRACE) {
            return Err(self.peek_error(TokenType::LBRACE));
        }
        let blockstatement = match self.parse_block_statement() {
            Ok(x) => x,
            Err(err) => {
                return Err(err);
            },
        };
        Ok(MonkeyExpression::FUNCTIONLITERAL(FunctionLiteral::new(func_tok, params, blockstatement)))
    }

    /// Reads the parameter list whose opening parenthesis is the current
    /// token.
    #[verifier::spinoff_prover]
    fn parse_function_parameters(&mut self) -> (r: Result<Vec<Identifier>, ParseError>)
        requires
            old(self).wf(),
        ensures
            final(self).wf(),
            final(self).source() == old(self).source(),
            parameters_read(
                grammar::parse_parameters(old(self).source(), old(self).position()),
                r,
                old(self).position(),
                final(self).position(),
            ),
    {
        proof {
            reveal(grammar::parse_parameters);
            reveal(grammar::parse_identifier_list);
            reveal(grammar::identifier_list_tail);
        }
        let ghost toks = self.source();
        let ghost start = self.position();
        let mut identifiers: Vec<Identifier> = Vec::new();
        assert(identifiers_view(identifiers@) =~= Seq::empty());
        if self.peektoken_is(TokenType::RPAREN) {
            self.next_token();
            return Ok(identifiers);
        }
        if !self.expect_peek(TokenType::IDENT) {
            return Err(self.peek_error(TokenType::IDENT));
        }
        let ident = self.current_identifier();
        proof {
            lemma_identifiers_view_push(identifiers@, ident);
        }
        identifiers.push(ident);

        while self.peektoken_is(TokenType::COMMA)
            invariant
                self.wf(),
                self.source() == toks,
                toks == old(self).source(),
                start == old(self).position(),
                start < self.position(),
                kind_at(toks, start + 1) != TokenType::RPAREN,
                grammar::parse_identifier_list(toks, start + 1, Seq::empty()) == advanced(
                    grammar::identifier_list_tail(
                        toks,
                        self.position(),
                        identifiers_view(identifiers@),
                    ),
                    (self.position() - start - 1) as nat,
                ),
            decreases tokens_left(toks, self.position()),
        {
            proof {
                reveal(grammar::parse_parameters);
                reveal(grammar::parse_identifier_list);
                reveal(grammar::identifier_list_tail);
                let names = identifiers_view(identifiers@);
                assert(grammar::identifier_list_tail(toks, self.position(), names) == advanced(
                    grammar::parse_identifier_list(toks, self.position() + 2, names),
                    2,
                ));
            }
            self.next_token();
            if !self.expect_peek(TokenType::IDENT) {
                return Err(self.peek_error(TokenType::IDENT));
            }
            let ident = self.current_identifier();
            proof {
                lemma_identifiers_view_push(identifiers@, ident);
            }
            identifiers.push(ident);
        }

        if !self.expect_peek(TokenType::RPAREN) {
            return Err(self.peek_error(TokenType::RPAREN));
        }
        Ok(identifiers)
    }

    #[verifier::spinoff_prover]
    fn parse_if_expression(&mut self) -> (r: Result<MonkeyExpression, ParseError>)
        requires
            old(self).wf(),
            kind_at(old(self).source(), old(self).position()) == TokenType::IF,
        ensures
            final(self).wf(),
            final(self).source() == old(self).source(),
            expression_read(
                grammar::parse_prefix(old(self).source(), old(self).position()),
                r,
                old(self).position(),
                final(self).position(),
            ),
        decreases tokens_left(old(self).source(), old(self).position()), 5int,
    {
        proof {
            reveal(grammar::parse_prefix);
            reveal(grammar::parse_if);
            reveal(grammar::parse_expression);
            reveal(grammar::parse_block);
        }
        let if_token = self.curr();
        if !self.expect_peek(TokenType::LPAREN) {
            return Err(self.peek_error(TokenType::LPAREN));
        }
        self.next_token();
        let condition = match self.parse_expression(Precedence::LOWEST.into_i32()) {
            Ok(x) => x,
            Err(err) => {
                return Err(err);
            },
        };
        if !self.expect_peek(TokenType::RPAREN) {
            return Err(self.peek_error(TokenType::RPAREN));
        }
        if !self.expect_peek(TokenType::LBRACE) {
            return Err(self.peek_error(TokenType::LBRACE));
        }
        let consequence = match self.parse_block_statement() {
            Ok(x) => x,
            Err(err) => {
                return Err(err);
            },
        };
        let alternative: Option<BlockStatement>;
        if self.peektoken_is(TokenType::ELSE) {
            self.next_token();
            if !self.expect_peek(TokenType::LBRACE) {
                return Err(self.peek_error(TokenType::LBRACE));
            }
            alternative = match self.parse_block_statement() {
                Ok(x) => Some(x),
                Err(err) => {
                    return Err(err);
                },
            };
        } else {
            alternative = None;
        }
        Ok(
            MonkeyExpression::IF(
                IfExpression::new(if_token, Box::new(condition), consequence, alternative),
            ),
        )
    }

    #[verifier::spinoff_prover]
    fn parse_identifier(&self) -> (r: Result<MonkeyExpression, ParseError>)
        requires
            self.wf(),
            kind_at(self.source(), self.position()) == TokenType::IDENT,
        ensures
            expression_read(
                grammar::parse_prefix(self.source(), self.position()),
                r,
                self.position(),
                self.position(),
            ),
    {
        proof {
            reveal(grammar::parse_prefix);
        }
        let e = MonkeyExpression::IDENT(self.current_identifier());
        proof {
            lemma_expression_view(e);
        }
        Ok(e)
    }

    #[verifier::spinoff_prover]
    fn parse_integer_literal(&self) -> (r: Result<MonkeyExpression, ParseError>)
        requires
            self.wf(),
            kind_at(self.source(), self.position()) == TokenType::INT,
        ensures
            expression_read(
                grammar::parse_prefix(self.source(), self.position()),
                r,
                self.position(),
                self.position(),
            ),
    {
        proof {
            reveal(grammar::parse_prefix);
        }
        let token = self.curr();
        let int_val = match parse_decimal(token.literal.as_str()) {
            Some(x) => x,
            None => {
                return Err(ParseError::InvalidInteger);
            },
        };
        Ok(MonkeyExpression::INTEGERLITERAL(IntegerLiteral::new(token, int_val)))
    }

    #[verifier::spinoff_prover]
    fn parse_boolean(&self) -> (r: Result<MonkeyExpression, ParseError>)
        requires
            self.wf(),
            kind_at(self.source(), self.position()) == TokenType::TRUE || kind_at(
                self.source(),
                self.position(),
            ) == TokenType::FALSE,
        ensures
            expression_read(
                grammar::parse_prefix(self.source(), self.position()),
                r,
                self.position(),
                self.position(),
            ),
    {
        proof {
            reveal(grammar::parse_prefix);
        }
        Ok(
            MonkeyExpression::BOOLEAN(
                Boolean::new(self.curr(), self.currtoken_is(TokenType::TRUE)),
            ),
        )
    }

    #[verifier::spinoff_prover]
    fn parse_prefix_expression(&mut self) -> (r: Result<MonkeyExpression, ParseError>)
        requires
            old(self).wf(),
            kind_at(old(self).source(), old(self).position()) == TokenType::BANG || kind_at(
                old(self).source(),
                old(self).position(),
            ) == TokenType::MINUS,
        ensures
            final(self).wf(),
            final(self).source() == old(self).source(),
            expression_read(
                grammar::parse_prefix(old(self).source(), old(self).position()),
                r,
                old(self).position(),
                final(self).position(),
            ),
        decreases tokens_left(old(self).source(), old(self).position()), 5int,
    {
        proof {
            reveal(grammar::parse_prefix);
            reveal(grammar::parse_expression);
        }
        let tok = self.curr();
        let op = tok.literal.clone();
        self.next_token();
        let right = match self.parse_expression(Precedence::PREFIX.into_i32()) {
            Ok(x) => x,
            Err(err) => {
                return Err(err);
            },
        };
        Ok(MonkeyExpression::PREFIX(PrefixExpression::new(tok, op, right)))
    }

    #[verifier::spinoff_prover]
    fn parse_infix_expression(&mut self, left: MonkeyExpression) -> (r: Result<
        MonkeyExpression,
        ParseError,
    >)
        requires
            old(self).wf(),
            infix_rule_for(kind_at(old(self).source(), old(self).position())) == Some(
                InfixRule::Binary,
            ),
        ensures
            final(self).wf(),
            final(self).source() == old(self).source(),
            expression_read(
                grammar::parse_infix(old(self).source(), old(self).position(), left@),
                r,
                old(self).position(),
                final(self).position(),
            ),
        decreases tokens_left(old(self).source(), old(self).position()), 9int,
    {
        proof {
            reveal(grammar::parse_infix);
            reveal(grammar::parse_expression);
        }
        let token = self.curr();
        let precedence = self.get_precedence(false).into_i32();
        self.next_token();
        let right = match self.parse_expression(precedence) {
            Ok(x) => x,
            Err(err) => {
                return Err(err);
            },
        };
        Ok(
            MonkeyExpression::INFIX(
                InfixExpression::new(token.literal.clone(), token, Box::new(left), Box::new(right)),
            ),
        )
    }

    #[verifier::spinoff_prover]
    fn parse_call_expression(&mut self, function: MonkeyExpression) -> (r: Result<
        MonkeyExpression,
        ParseError,
    >)
        requires
            old(self).wf(),
            kind_at(old(self).source(), old(self).position()) == TokenType::LPAREN,
        ensures
            final(self).wf(),
            final(self).source() == old(self).source(),
            expression_read(
                grammar::parse_infix(old(self).source(), old(self).position(), function@),
                r,
                old(self).position(),
                final(self).position(),
            ),
        decreases tokens_left(old(self).source(), old(self).position()), 9int,
    {
        proof {
            reveal(grammar::parse_infix);
            reveal(grammar::parse_call_arguments);
        }
        let tok = self.curr();
        let args = match self.parse_call_arguments() {
            Ok(x) => x,
            Err(err) => {
                return Err(err);
            },
        };
        Ok(MonkeyExpression::CALL(CallExpression::new(tok, Box::new(function), args)))
    }

    /// Reads the arguments of the call whose opening parenthesis is the
    /// current token.
    #[verifier::spinoff_prover]
    fn parse_call_arguments(&mut self) -> (r: Result<Option<Vec<MonkeyExpression>>, ParseError>)
        requires
            old(self).wf(),
            kind_at(old(self).source(), old(self).position()) == TokenType::LPAREN,
        ensures
            final(self).wf(),
            final(self).source() == old(self).source(),
            arguments_read(
                grammar::parse_call_arguments(old(self).source(), old(self).position()),
                r,
                old(self).position(),
                final(self).position(),
            ),
        decreases tokens_left(old(self).source(), old(self).position()), 8int,
    {
        proof {
            reveal(grammar::parse_call_arguments);
            reveal(grammar::parse_expression_list);
            reveal(grammar::expression_list_tail);
            reveal(grammar::parse_expression);
        }
        let ghost toks = self.source();
        let ghost start = self.position();
        if self.peektoken_is(TokenType::RPAREN) {
            self.next_token();
            return Ok(None);
        }
        let mut args: Vec<MonkeyExpression> = Vec::new();
        proof {
            lemma_expressions_view(args@);
            assert(expressions_view(args@) =~= Seq::empty());
        }
        self.next_token();
        let first = match self.parse_expression(Precedence::LOWEST.into_i32()) {
            Ok(x) => x,
            Err(err) => {
                return Err(err);
            },
        };
        proof {
            lemma_expressions_view_push(args@, first);
        }
        args.push(first);

        while self.peektoken_is(TokenType::COMMA)
            invariant
                self.wf(),
                self.source() == toks,
                toks == old(self).source(),
                start == old(self).position(),
                start < self.position(),
                start < toks.len(),
                kind_at(toks, start + 1) != TokenType::RPAREN,
                grammar::parse_expression_list(toks, start + 1, Seq::empty()) == advanced(
                    grammar::expression_list_tail(
                        toks,
                        self.position(),
                        expressions_view(args@),
                    ),
                    (self.position() - start - 1) as nat,
                ),
            decreases tokens_left(toks, self.position()),
        {
            proof {
                reveal(grammar::parse_call_arguments);
                reveal(grammar::parse_expression_list);
                reveal(grammar::expression_list_tail);
                reveal(grammar::parse_expression);
                let earlier = expressions_view(args@);
                assert(grammar::expression_list_tail(toks, self.position(), earlier) == advanced(
                    grammar::parse_expression_list(toks, self.position() + 2, earlier),
                    2,
                ));
            }
            self.next_token();
            self.next_token();
            let argument = match self.parse_expression(Precedence::LOWEST.into_i32()) {
                Ok(x) => x,
                Err(err) => {
                    return Err(err);
                },
            };
            proof {
                lemma_expressions_view_push(args@, argument);
            }
            args.push(argument);
        }

        if !self.expect_peek(TokenType::RPAREN) {
            return Err(self.peek_error(TokenType::RPAREN));
        }
        Ok(Some(args))
    }
}

} // verus!
