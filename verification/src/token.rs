//! Tokens: the closed set of token kinds, the token record, and keyword lookup.

use vstd::prelude::*;
use crate::ast::{
    lemma_block_view, lemma_expression_view, lemma_statement_view,
    block_view, expression_view, expressions_view, identifier_view, identifiers_view, literal_of,
    statement_view, statements_view, Expression,
    MonkeyExpr, MonkeyExpression, MonkeyStatement, Node, NodeType, SpecBlock, SpecExpression,
    SpecIdentifier, SpecStatement, Statement,
};

verus! {

/// The kinds of token the scanner can produce.
#[derive(Debug, PartialEq, Eq, Clone, Copy, Hash, Structural)]
pub enum TokenType {
    ILLEGAL,
    EOF,
    IDENT,
    INT,
    ASSIGN,
    PLUS,
    PLUSSELF,
    MINUS,
    MINUSSELF,
    POWER,
    BANG,
    ASTERISK,
    SLASH,
    LT,
    LTEQ,
    GT,
    GTEQ,
    EQ,
    NOTEQ,
    COMMA,
    SEMICOLON,
    LPAREN,
    RPAREN,
    LBRACE,
    RBRACE,
    FUNCTION,
    LET,
    TRUE,
    FALSE,
    IF,
    ELSE,
    RETURN,
}

/// A token: its kind and the source text it was read from.
#[derive(Debug, PartialEq)]
pub struct Token {
    pub tokentype: TokenType,
    pub literal: String,
}

/// The mathematical value of a [`Token`].
pub struct SpecToken {
    pub kind: TokenType,
    pub literal: Seq<char>,
}

impl View for Token {
    type V = SpecToken;

    open spec fn view(&self) -> SpecToken {
        SpecToken { kind: self.tokentype, literal: self.literal@ }
    }
}

impl Clone for Token {
    fn clone(&self) -> (r: Self)
        ensures
            r@ == self@,
    {
        Token { tokentype: self.tokentype, literal: self.literal.clone() }
    }
}

impl Token {
    pub fn new(tok_type: TokenType, literal: String) -> (r: Token)
        ensures
            r.tokentype == tok_type,
            r.literal == literal,
            r@ == (SpecToken { kind: tok_type, literal: literal@ }),
    {
        Token { tokentype: tok_type, literal: literal }
    }
}

/// The token that marks the end of the input. Every position past the last
/// token of a stream holds this token.
pub open spec fn eof_token() -> SpecToken {
    SpecToken { kind: TokenType::EOF, literal: "eof"@ }
}

/// `c` and `k` are the same character, or `c` is the upper-case ASCII letter
/// whose lower-case form is `k`.
pub open spec fn same_letter(c: char, k: char) -> bool {
    c == k || ('A' <= c <= 'Z' && c as u32 + 32 == k as u32)
}

/// `s` spells the (lower-case) word `word`, ASCII case ignored.
pub open spec fn spells(s: Seq<char>, word: Seq<char>) -> bool {
    &&& s.len() == word.len()
    &&& forall|i: int| 0 <= i < s.len() ==> same_letter(#[trigger] s[i], word[i])
}

/// The kind of a word: one of the seven keywords, in any mix of upper and
/// lower case, or else an identifier.
pub open spec fn keyword_kind(s: Seq<char>) -> TokenType {
    if spells(s, "fn"@) {
        TokenType::FUNCTION
    } else if spells(s, "let"@) {
        TokenType::LET
    } else if spells(s, "true"@) {
        TokenType::TRUE
    } else if spells(s, "false"@) {
        TokenType::FALSE
    } else if spells(s, "if"@) {
        TokenType::IF
    } else if spells(s, "else"@) {
        TokenType::ELSE
    } else if spells(s, "return"@) {
        TokenType::RETURN
    } else {
        TokenType::IDENT
    }
}

fn same_letter_exec(c: char, k: char) -> (r: bool)
    ensures
        r == same_letter(c, k),
{
    c == k || ('A' <= c && c <= 'Z' && (c as u32) + 32 == (k as u32))
}

fn spells_word(s: &str, word: &str) -> (r: bool)
    ensures
        r == spells(s@, word@),
{
    let n = s.unicode_len();
    if n != word.unicode_len() {
        return false;
    }
    let mut i: usize = 0;
    while i < n
        invariant
            i <= n,
            n == s@.len(),
            n == word@.len(),
            forall|j: int| 0 <= j < i ==> same_letter(#[trigger] s@[j], word@[j]),
        decreases n - i,
    {
        if !same_letter_exec(s.get_char(i), word.get_char(i)) {
            return false;
        }
        i += 1;
    }
    true
}

/// How many kinds of token there are.
pub const TOKEN_KINDS: usize = 32;

impl TokenType {
    /// The place of a kind in the list of kinds, counted from 0.
    pub open spec fn ordinal(self) -> nat {
        match self {
            TokenType::ILLEGAL => 0,
            TokenType::EOF => 1,
            TokenType::IDENT => 2,
            TokenType::INT => 3,
            TokenType::ASSIGN => 4,
            TokenType::PLUS => 5,
            TokenType::PLUSSELF => 6,
            TokenType::MINUS => 7,
            TokenType::MINUSSELF => 8,
            TokenType::POWER => 9,
            TokenType::BANG => 10,
            TokenType::ASTERISK => 11,
            TokenType::SLASH => 12,
            TokenType::LT => 13,
            TokenType::LTEQ => 14,
            TokenType::GT => 15,
            TokenType::GTEQ => 16,
            TokenType::EQ => 17,
            TokenType::NOTEQ => 18,
            TokenType::COMMA => 19,
            TokenType::SEMICOLON => 20,
            TokenType::LPAREN => 21,
            TokenType::RPAREN => 22,
            TokenType::LBRACE => 23,
            TokenType::RBRACE => 24,
            TokenType::FUNCTION => 25,
            TokenType::LET => 26,
            TokenType::TRUE => 27,
            TokenType::FALSE => 28,
            TokenType::IF => 29,
            TokenType::ELSE => 30,
            TokenType::RETURN => 31,
        }
    }

    /// The place of a kind in the list of kinds, counted from 0.
    pub fn index(self) -> (r: usize)
        ensures
            r == self.ordinal(),
            r < TOKEN_KINDS,
    {
        match self {
            TokenType::ILLEGAL => 0,
            TokenType::EOF => 1,
            TokenType::IDENT => 2,
            TokenType::INT => 3,
            TokenType::ASSIGN => 4,
            TokenType::PLUS => 5,
            TokenType::PLUSSELF => 6,
            TokenType::MINUS => 7,
            TokenType::MINUSSELF => 8,
            TokenType::POWER => 9,
            TokenType::BANG => 10,
            TokenType::ASTERISK => 11,
            TokenType::SLASH => 12,
            TokenType::LT => 13,
            TokenType::LTEQ => 14,
            TokenType::GT => 15,
            TokenType::GTEQ => 16,
            TokenType::EQ => 17,
            TokenType::NOTEQ => 18,
            TokenType::COMMA => 19,
            TokenType::SEMICOLON => 20,
            TokenType::LPAREN => 21,
            TokenType::RPAREN => 22,
            TokenType::LBRACE => 23,
            TokenType::RBRACE => 24,
            TokenType::FUNCTION => 25,
            TokenType::LET => 26,
            TokenType::TRUE => 27,
            TokenType::FALSE => 28,
            TokenType::IF => 29,
            TokenType::ELSE => 30,
            TokenType::RETURN => 31,
        }
    }

    /// Classifies a word as a keyword or an identifier.
    pub fn lookup_keyword(keyword: &str) -> (r: TokenType)
        ensures
            r == keyword_kind(keyword@),
    {
        if spells_word(keyword, "fn") {
            TokenType::FUNCTION
        } else if spells_word(keyword, "let") {
            TokenType::LET
        } else if spells_word(keyword, "true") {
            TokenType::TRUE
        } else if spells_word(keyword, "false") {
            TokenType::FALSE
        } else if spells_word(keyword, "if") {
            TokenType::IF
        } else if spells_word(keyword, "else") {
            TokenType::ELSE
        } else if spells_word(keyword, "return") {
            TokenType::RETURN
        } else {
            TokenType::IDENT
        }
    }
}

/// A word is never classified as anything but a keyword or an identifier.
pub proof fn lemma_keyword_kind_is_word(s: Seq<char>)
    ensures
        keyword_kind(s) != TokenType::EOF,
        keyword_kind(s) != TokenType::ILLEGAL,
{
}

#[derive(Debug, PartialEq)]
pub struct LetStatement {
    pub token: Token,
    pub name: Identifier,
    pub value: MonkeyExpression,
}

impl LetStatement {
    pub fn new(tok: Token, name: Identifier, value: MonkeyExpression) -> (r: LetStatement)
        ensures
            r.token == tok,
            r.name == name,
            r.value == value,
            r@ == (SpecStatement::Let { token: tok@, name: name@, value: value@ }),
    {
        let r = LetStatement { token: tok, name: name, value: value };
        proof {
            lemma_statement_view(Statement::LET(r));
        }
        r
    }
}

impl View for LetStatement {
    type V = SpecStatement;

    open spec fn view(&self) -> SpecStatement {
        statement_view(Statement::LET(*self))
    }
}

#[derive(Debug, PartialEq)]
pub struct ReturnStatement {
    pub token: Token,
    pub return_value: MonkeyExpression,
}

impl ReturnStatement {
    pub fn new(tok: Token, expr: MonkeyExpression) -> (r: ReturnStatement)
        ensures
            r.token == tok,
            r.return_value == expr,
            r@ == (SpecStatement::Return { token: tok@, value: expr@ }),
    {
        let r = ReturnStatement { token: tok, return_value: expr };
        proof {
            lemma_statement_view(Statement::RETURN(r));
        }
        r
    }
}

impl View for ReturnStatement {
    type V = SpecStatement;

    open spec fn view(&self) -> SpecStatement {
        statement_view(Statement::RETURN(*self))
    }
}

#[derive(Debug, PartialEq)]
pub struct ExpressionStatement {
    pub token: Token,
    pub expression: MonkeyExpression,
}

impl ExpressionStatement {
    pub fn new(tok: Token, expr: MonkeyExpression) -> (r: ExpressionStatement)
        ensures
            r.token == tok,
            r.expression == expr,
            r@ == (SpecStatement::Expression { token: tok@, expression: expr@ }),
    {
        let r = ExpressionStatement { token: tok, expression: expr };
        proof {
            lemma_statement_view(Statement::EXPRESSION(r));
        }
        r
    }
}

impl View for ExpressionStatement {
    type V = SpecStatement;

    open spec fn view(&self) -> SpecStatement {
        statement_view(Statement::EXPRESSION(*self))
    }
}

#[derive(Debug, PartialEq)]
pub struct BlockStatement {
    pub token: Token,
    pub statements: Vec<Statement>,
}

impl BlockStatement {
    pub fn new(tok: Token, statements: Vec<Statement>) -> (r: BlockStatement)
        ensures
            r.token == tok,
            r.statements == statements,
            r@ == (SpecBlock { token: tok@, statements: statements_view(statements@) }),
    {
        let r = BlockStatement { token: tok, statements: statements };
        proof {
            lemma_block_view(r);
        }
        r
    }
}

impl View for BlockStatement {
    type V = SpecBlock;

    open spec fn view(&self) -> SpecBlock {
        block_view(*self)
    }
}

#[derive(Debug, PartialEq)]
pub struct Identifier {
    pub token: Token,
    pub value: String,
}

impl Identifier {
    pub fn new(tok: Token, val: String) -> (r: Identifier)
        ensures
            r.token == tok,
            r.value == val,
    {
        Identifier { token: tok, value: val }
    }
}

impl View for Identifier {
    type V = SpecIdentifier;

    open spec fn view(&self) -> SpecIdentifier {
        identifier_view(*self)
    }
}

#[derive(Debug, PartialEq)]
pub struct IntegerLiteral {
    pub token: Token,
    pub value: i64,
}

impl IntegerLiteral {
    pub fn new(tok: Token, val: i64) -> (r: IntegerLiteral)
        ensures
            r.token == tok,
            r.value == val,
            r@ == (SpecExpression::Integer { token: tok@, value: val }),
    {
        let r = IntegerLiteral { token: tok, value: val };
        proof {
            lemma_expression_view(MonkeyExpression::INTEGERLITERAL(r));
        }
        r
    }
}

impl View for IntegerLiteral {
    type V = SpecExpression;

    open spec fn view(&self) -> SpecExpression {
        expression_view(MonkeyExpression::INTEGERLITERAL(*self))
    }
}

#[derive(Debug, PartialEq)]
pub struct Boolean {
    pub token: Token,
    pub value: bool,
}

impl Boolean {
    pub fn new(tok: Token, val: bool) -> (r: Boolean)
        ensures
            r.token == tok,
            r.value == val,
            r@ == (SpecExpression::Boolean { token: tok@, value: val }),
    {
        let r = Boolean { token: tok, value: val };
        proof {
            lemma_expression_view(MonkeyExpression::BOOLEAN(r));
        }
        r
    }
}

impl View for Boolean {
    type V = SpecExpression;

    open spec fn view(&self) -> SpecExpression {
        expression_view(MonkeyExpression::BOOLEAN(*self))
    }
}

#[derive(Debug, PartialEq)]
pub struct PrefixExpression {
    pub token: Token,
    pub operator: String,
    pub right: Box<MonkeyExpression>,
}

impl PrefixExpression {
    pub fn new(tok: Token, op: String, right: MonkeyExpression) -> (r: PrefixExpression)
        ensures
            r.token == tok,
            r.operator == op,
            *r.right == right,
            r@ == (SpecExpression::Prefix { token: tok@, operator: op@, right: Box::new(right@) }),
    {
        let r = PrefixExpression { token: tok, operator: op, right: Box::new(right) };
        proof {
            lemma_expression_view(MonkeyExpression::PREFIX(r));
        }
        r
    }
}

impl View for PrefixExpression {
    type V = SpecExpression;

    open spec fn view(&self) -> SpecExpression {
        expression_view(MonkeyExpression::PREFIX(*self))
    }
}

#[derive(Debug, PartialEq)]
pub struct InfixExpression {
    pub token: Token,
    pub operator: String,
    pub left: Box<MonkeyExpression>,
    pub right: Box<MonkeyExpression>,
}

impl InfixExpression {
    pub fn new(
        operator: String,
        tok: Token,
        left: Box<MonkeyExpression>,
        right: Box<MonkeyExpression>,
    ) -> (r: InfixExpression)
        ensures
            r.token == tok,
            r.operator == operator,
            r.left == left,
            r.right == right,
            r@ == (SpecExpression::Infix {
                token: tok@,
                operator: operator@,
                left: Box::new(left@),
                right: Box::new(right@),
            }),
    {
        let r = InfixExpression { operator: operator, token: tok, left: left, right: right };
        proof {
            lemma_expression_view(MonkeyExpression::INFIX(r));
        }
        r
    }
}

impl View for InfixExpression {
    type V = SpecExpression;

    open spec fn view(&self) -> SpecExpression {
        expression_view(MonkeyExpression::INFIX(*self))
    }
}

#[derive(Debug, PartialEq)]
pub struct FunctionLiteral {
    pub token: Token,
    pub parameters: Vec<Identifier>,
    pub blockstatment: BlockStatement,
}

impl FunctionLiteral {
    pub fn new(tok: Token, params: Vec<Identifier>, blockstatement: BlockStatement) -> (r:
        FunctionLiteral)
        ensures
            r.token == tok,
            r.parameters == params,
            r.blockstatment == blockstatement,
            r@ == (SpecExpression::Function {
                token: tok@,
                parameters: identifiers_view(params@),
                body: blockstatement@,
            }),
    {
        let r = FunctionLiteral { token: tok, parameters: params, blockstatment: blockstatement };
        proof {
            lemma_expression_view(MonkeyExpression::FUNCTIONLITERAL(r));
        }
        r
    }
}

impl View for FunctionLiteral {
    type V = SpecExpression;

    open spec fn view(&self) -> SpecExpression {
        expression_view(MonkeyExpression::FUNCTIONLITERAL(*self))
    }
}

#[derive(Debug, PartialEq)]
pub struct IfExpression {
    pub tok: Token,
    pub condition: Box<MonkeyExpression>,
    pub consequence: BlockStatement,
    pub alternative: Option<BlockStatement>,
}

impl IfExpression {
    pub fn new(
        tok: Token,
        condition: Box<MonkeyExpression>,
        consequence: BlockStatement,
        alternative: Option<BlockStatement>,
    ) -> (r: IfExpression)
        ensures
            r.tok == tok,
            r.condition == condition,
            r.consequence == consequence,
            r.alternative == alternative,
            r@ == (SpecExpression::If {
                token: tok@,
                condition: Box::new(condition@),
                consequence: consequence@,
                alternative: match alternative {
                    Some(b) => Some(b@),
                    None => None,
                },
            }),
    {
        let r = IfExpression {
            tok: tok,
            condition: condition,
            consequence: consequence,
            alternative: alternative,
        };
        proof {
            lemma_expression_view(MonkeyExpression::IF(r));
        }
        r
    }
}

impl View for IfExpression {
    type V = SpecExpression;

    open spec fn view(&self) -> SpecExpression {
        expression_view(MonkeyExpression::IF(*self))
    }
}

#[derive(Debug, PartialEq)]
pub struct CallExpression {
    pub token: Token,
    pub function: Box<MonkeyExpression>,
    pub arguments: Option<Vec<MonkeyExpression>>,
}

impl CallExpression {
    pub fn new(
        tok: Token,
        function: Box<MonkeyExpression>,
        arguments: Option<Vec<MonkeyExpression>>,
    ) -> (r: CallExpression)
        ensures
            r.token == tok,
            r.function == function,
            r.arguments == arguments,
            r@ == (SpecExpression::Call {
                token: tok@,
                function: Box::new(function@),
                arguments: match arguments {
                    Some(v) => Some(expressions_view(v@)),
                    None => None,
                },
            }),
    {
        let r = CallExpression { token: tok, function, arguments };
        proof {
            lemma_expression_view(MonkeyExpression::CALL(r));
        }
        r
    }
}

impl View for CallExpression {
    type V = SpecExpression;

    open spec fn view(&self) -> SpecExpression {
        expression_view(MonkeyExpression::CALL(*self))
    }
}

impl Node for LetStatement {
    open spec fn literal(&self) -> Seq<char> {
        self.token.literal@
    }

    open spec fn family(&self) -> NodeType {
        NodeType::STATEMENT
    }

    fn token_literal(&self) -> (r: Option<&String>) {
        literal_of(&self.token)
    }

    fn node_type(&self) -> (r: NodeType) {
        NodeType::STATEMENT
    }
}

impl MonkeyStatement for LetStatement {

}

impl Node for ReturnStatement {
    open spec fn literal(&self) -> Seq<char> {
        self.token.literal@
    }

    open spec fn family(&self) -> NodeType {
        NodeType::STATEMENT
    }

    fn token_literal(&self) -> (r: Option<&String>) {
        literal_of(&self.token)
    }

    fn node_type(&self) -> (r: NodeType) {
        NodeType::STATEMENT
    }
}

impl MonkeyStatement for ReturnStatement {

}

impl Node for ExpressionStatement {
    open spec fn literal(&self) -> Seq<char> {
        self.token.literal@
    }

    open spec fn family(&self) -> NodeType {
        NodeType::STATEMENT
    }

    fn token_literal(&self) -> (r: Option<&String>) {
        literal_of(&self.token)
    }

    fn node_type(&self) -> (r: NodeType) {
        NodeType::STATEMENT
    }
}

impl MonkeyStatement for ExpressionStatement {

}

impl Node for BlockStatement {
    open spec fn literal(&self) -> Seq<char> {
        self.token.literal@
    }

    open spec fn family(&self) -> NodeType {
        NodeType::BLOCKSTATEMENT
    }

    fn token_literal(&self) -> (r: Option<&String>) {
        literal_of(&self.token)
    }

    fn node_type(&self) -> (r: NodeType) {
        NodeType::BLOCKSTATEMENT
    }
}

impl Expression for BlockStatement {
    fn expression_node(&self) {
    }
}

impl MonkeyExpr for BlockStatement {

}

impl Node for Identifier {
    open spec fn literal(&self) -> Seq<char> {
        self.token.literal@
    }

    open spec fn family(&self) -> NodeType {
        NodeType::EXPRESSION
    }

    fn token_literal(&self) -> (r: Option<&String>) {
        literal_of(&self.token)
    }

    fn node_type(&self) -> (r: NodeType) {
        NodeType::EXPRESSION
    }
}

impl Expression for Identifier {
    fn expression_node(&self) {
    }
}

impl MonkeyExpr for Identifier {

}

impl Node for IntegerLiteral {
    open spec fn literal(&self) -> Seq<char> {
        self.token.literal@
    }

    open spec fn family(&self) -> NodeType {
        NodeType::EXPRESSION
    }

    fn token_literal(&self) -> (r: Option<&String>) {
        literal_of(&self.token)
    }

    fn node_type(&self) -> (r: NodeType) {
        NodeType::EXPRESSION
    }
}

impl Expression for IntegerLiteral {
    fn expression_node(&self) {
    }
}

impl MonkeyExpr for IntegerLiteral {

}

impl Node for Boolean {
    open spec fn literal(&self) -> Seq<char> {
        self.token.literal@
    }

    open spec fn family(&self) -> NodeType {
        NodeType::EXPRESSION
    }

    fn token_literal(&self) -> (r: Option<&String>) {
        literal_of(&self.token)
    }

    fn node_type(&self) -> (r: NodeType) {
        NodeType::EXPRESSION
    }
}

impl Expression for Boolean {
    fn expression_node(&self) {
    }
}

impl MonkeyExpr for Boolean {

}

impl Node for PrefixExpression {
    open spec fn literal(&self) -> Seq<char> {
        self.token.literal@
    }

    open spec fn family(&self) -> NodeType {
        NodeType::EXPRESSION
    }

    fn token_literal(&self) -> (r: Option<&String>) {
        literal_of(&self.token)
    }

    fn node_type(&self) -> (r: NodeType) {
        NodeType::EXPRESSION
    }
}

impl Expression for PrefixExpression {
    fn expression_node(&self) {
    }
}

impl MonkeyExpr for PrefixExpression {

}

impl Node for InfixExpression {
    open spec fn literal(&self) -> Seq<char> {
        self.token.literal@
    }

    open spec fn family(&self) -> NodeType {
        NodeType::EXPRESSION
    }

    fn token_literal(&self) -> (r: Option<&String>) {
        literal_of(&self.token)
    }

    fn node_type(&self) -> (r: NodeType) {
        NodeType::EXPRESSION
    }
}

impl Expression for InfixExpression {
    fn expression_node(&self) {
    }
}

impl MonkeyExpr for InfixExpression {

}

impl Node for FunctionLiteral {
    open spec fn literal(&self) -> Seq<char> {
        self.token.literal@
    }

    open spec fn family(&self) -> NodeType {
        NodeType::EXPRESSION
    }

    fn token_literal(&self) -> (r: Option<&String>) {
        literal_of(&self.token)
    }

    fn node_type(&self) -> (r: NodeType) {
        NodeType::EXPRESSION
    }
}

impl Expression for FunctionLiteral {
    fn expression_node(&self) {
    }
}

impl MonkeyExpr for FunctionLiteral {

}

impl Node for IfExpression {
    open spec fn literal(&self) -> Seq<char> {
        self.tok.literal@
    }

    open spec fn family(&self) -> NodeType {
        NodeType::EXPRESSION
    }

    fn token_literal(&self) -> (r: Option<&String>) {
        literal_of(&self.tok)
    }

    fn node_type(&self) -> (r: NodeType) {
        NodeType::EXPRESSION
    }
}

impl Expression for IfExpression {
    fn expression_node(&self) {
    }
}

impl MonkeyExpr for IfExpression {

}

impl Node for CallExpression {
    open spec fn literal(&self) -> Seq<char> {
        self.token.literal@
    }

    open spec fn family(&self) -> NodeType {
        NodeType::EXPRESSION
    }

    fn token_literal(&self) -> (r: Option<&String>) {
        literal_of(&self.token)
    }

    fn node_type(&self) -> (r: NodeType) {
        NodeType::EXPRESSION
    }
}

impl Expression for CallExpression {
    fn expression_node(&self) {
    }
}

impl MonkeyExpr for CallExpression {

}

} // verus!
