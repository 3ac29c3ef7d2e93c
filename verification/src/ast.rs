//! The syntax tree: statements and expressions as closed sets of variants,
//! their mathematical values, and the accessors every node offers.

use vstd::prelude::*;
use crate::token::{
    BlockStatement, Boolean, CallExpression, ExpressionStatement, FunctionLiteral, Identifier,
    IfExpression, InfixExpression, IntegerLiteral, LetStatement, PrefixExpression,
    ReturnStatement, SpecToken, Token,
};

verus! {

/// What every node of the tree offers: the text of the token it began with,
/// and the family it belongs to.
pub trait Node {
    /// The text of the node's token; empty where the node has none.
    spec fn literal(&self) -> Seq<char>;

    /// The family of the node.
    spec fn family(&self) -> NodeType;

    fn token_literal(&self) -> (r: Option<&String>)
        ensures
            match r {
                Some(s) => s@ == self.literal() && s@.len() > 0,
                None => self.literal().len() == 0,
            },
    ;

    fn node_type(&self) -> (r: NodeType)
        ensures
            r == self.family(),
    ;
}

/// Marks the nodes that stand where an expression may stand.
pub trait Expression {
    fn expression_node(&self);
}

/// A node that is an expression.
pub trait MonkeyExpr: Expression + Node {

}

/// A node that is a statement.
pub trait MonkeyStatement: Node {

}

#[derive(Debug, PartialEq, Eq, Clone, Copy, Hash, Structural)]
pub enum NodeType {
    PROGRAM,
    STATEMENT,
    BLOCKSTATEMENT,
    EXPRESSION,
}

#[derive(Debug, PartialEq)]
pub enum MonkeyExpression {
    IDENT(Identifier),
    INTEGERLITERAL(IntegerLiteral),
    BOOLEAN(Boolean),
    PREFIX(PrefixExpression),
    INFIX(InfixExpression),
    IF(IfExpression),
    FUNCTIONLITERAL(FunctionLiteral),
    CALL(CallExpression),
}

#[derive(Debug, PartialEq)]
pub enum Statement {
    LET(LetStatement),
    RETURN(ReturnStatement),
    EXPRESSION(ExpressionStatement),
    BLOCK(BlockStatement),
}

/// A program: its top-level statements in order.
#[derive(Debug, PartialEq)]
pub struct Programm {
    pub statements: Vec<Statement>,
}

/// The mathematical value of an [`Identifier`].
pub struct SpecIdentifier {
    pub token: SpecToken,
    pub value: Seq<char>,
}

/// The mathematical value of a [`BlockStatement`].
pub struct SpecBlock {
    pub token: SpecToken,
    pub statements: Seq<SpecStatement>,
}

/// The mathematical value of a [`MonkeyExpression`].
#[allow(inconsistent_fields)]
pub enum SpecExpression {
    Ident(SpecIdentifier),
    Integer { token: SpecToken, value: i64 },
    Boolean { token: SpecToken, value: bool },
    Prefix { token: SpecToken, operator: Seq<char>, right: Box<SpecExpression> },
    Infix {
        token: SpecToken,
        operator: Seq<char>,
        left: Box<SpecExpression>,
        right: Box<SpecExpression>,
    },
    If {
        token: SpecToken,
        condition: Box<SpecExpression>,
        consequence: SpecBlock,
        alternative: Option<SpecBlock>,
    },
    Function { token: SpecToken, parameters: Seq<SpecIdentifier>, body: SpecBlock },
    Call { token: SpecToken, function: Box<SpecExpression>, arguments: Option<Seq<SpecExpression>> },
}

/// The mathematical value of a [`Statement`].
#[allow(inconsistent_fields)]
pub enum SpecStatement {
    Let { token: SpecToken, name: SpecIdentifier, value: SpecExpression },
    Return { token: SpecToken, value: SpecExpression },
    Expression { token: SpecToken, expression: SpecExpression },
    Block(SpecBlock),
}

pub open spec fn identifier_view(i: Identifier) -> SpecIdentifier {
    SpecIdentifier { token: i.token@, value: i.value@ }
}

pub open spec fn identifiers_view(v: Seq<Identifier>) -> Seq<SpecIdentifier> {
    Seq::new(v.len(), |i: int| identifier_view(v[i]))
}

#[verifier::opaque]
pub open spec fn expression_view(e: MonkeyExpression) -> SpecExpression
    decreases e,
{
    match e {
        MonkeyExpression::IDENT(x) => SpecExpression::Ident(identifier_view(x)),
        MonkeyExpression::INTEGERLITERAL(x) => SpecExpression::Integer {
            token: x.token@,
            value: x.value,
        },
        MonkeyExpression::BOOLEAN(x) => SpecExpression::Boolean {
            token: x.token@,
            value: x.value,
        },
        MonkeyExpression::PREFIX(x) => SpecExpression::Prefix {
            token: x.token@,
            operator: x.operator@,
            right: Box::new(expression_view(*x.right)),
        },
        MonkeyExpression::INFIX(x) => SpecExpression::Infix {
            token: x.token@,
            operator: x.operator@,
            left: Box::new(expression_view(*x.left)),
            right: Box::new(expression_view(*x.right)),
        },
        MonkeyExpression::IF(x) => SpecExpression::If {
            token: x.tok@,
            condition: Box::new(expression_view(*x.condition)),
            consequence: block_view(x.consequence),
            alternative: match x.alternative {
                Some(b) => Some(block_view(b)),
                None => None,
            },
        },
        MonkeyExpression::FUNCTIONLITERAL(x) => SpecExpression::Function {
            token: x.token@,
            parameters: identifiers_view(x.parameters@),
            body: block_view(x.blockstatment),
        },
        MonkeyExpression::CALL(x) => SpecExpression::Call {
            token: x.token@,
            function: Box::new(expression_view(*x.function)),
            arguments: match x.arguments {
                Some(v) => Some(expressions_view(v@)),
                None => None,
            },
        },
    }
}

#[verifier::opaque]
pub open spec fn expressions_view(v: Seq<MonkeyExpression>) -> Seq<SpecExpression>
    decreases v,
{
    Seq::new(
        v.len(),
        |i: int|
            if 0 <= i < v.len() {
                expression_view(v[i])
            } else {
                arbitrary()
            },
    )
}

#[verifier::opaque]
pub open spec fn block_view(b: BlockStatement) -> SpecBlock
    decreases b,
{
    SpecBlock { token: b.token@, statements: statements_view(b.statements@) }
}

#[verifier::opaque]
pub open spec fn statements_view(v: Seq<Statement>) -> Seq<SpecStatement>
    decreases v,
{
    Seq::new(
        v.len(),
        |i: int|
            if 0 <= i < v.len() {
                statement_view(v[i])
            } else {
                arbitrary()
            },
    )
}

#[verifier::opaque]
pub open spec fn statement_view(s: Statement) -> SpecStatement
    decreases s,
{
    match s {
        Statement::LET(x) => SpecStatement::Let {
            token: x.token@,
            name: identifier_view(x.name),
            value: expression_view(x.value),
        },
        Statement::RETURN(x) => SpecStatement::Return {
            token: x.token@,
            value: expression_view(x.return_value),
        },
        Statement::EXPRESSION(x) => SpecStatement::Expression {
            token: x.token@,
            expression: expression_view(x.expression),
        },
        Statement::BLOCK(x) => SpecStatement::Block(block_view(x)),
    }
}


/// The view of a list of statements is the list of their views.
pub proof fn lemma_statements_view(v: Seq<Statement>)
    ensures
        statements_view(v).len() == v.len(),
        forall|i: int| 0 <= i < v.len() ==> (#[trigger] statements_view(v)[i]) == v[i]@,
{
    reveal(statements_view);
    reveal(statement_view);
}

/// The view of a list of statements with one more at its end.
pub proof fn lemma_statements_view_push(v: Seq<Statement>, s: Statement)
    ensures
        statements_view(v.push(s)) == statements_view(v).push(s@),
{
    lemma_statements_view(v);
    lemma_statements_view(v.push(s));
    assert(statements_view(v.push(s)) =~= statements_view(v).push(s@));
}

/// The view of a list of expressions is the list of their views.
pub proof fn lemma_expressions_view(v: Seq<MonkeyExpression>)
    ensures
        expressions_view(v).len() == v.len(),
        forall|i: int| 0 <= i < v.len() ==> (#[trigger] expressions_view(v)[i]) == v[i]@,
{
    reveal(expressions_view);
    reveal(expression_view);
}

/// The view of a list of expressions with one more at its end.
pub proof fn lemma_expressions_view_push(v: Seq<MonkeyExpression>, e: MonkeyExpression)
    ensures
        expressions_view(v.push(e)) == expressions_view(v).push(e@),
{
    lemma_expressions_view(v);
    lemma_expressions_view(v.push(e));
    assert(expressions_view(v.push(e)) =~= expressions_view(v).push(e@));
}

/// The view of a list of identifiers with one more at its end.
pub proof fn lemma_identifiers_view_push(v: Seq<Identifier>, i: Identifier)
    ensures
        identifiers_view(v.push(i)) == identifiers_view(v).push(i@),
{
    assert(identifiers_view(v.push(i)) =~= identifiers_view(v).push(i@));
}

/// The view of a block, in terms of the views of its parts.
pub proof fn lemma_block_view(b: BlockStatement)
    ensures
        block_view(b) == (SpecBlock { token: b.token@, statements: statements_view(b.statements@) }),
{
    reveal(block_view);
    reveal(statements_view);
}

/// The view of an expression, in terms of the views of its parts.
pub proof fn lemma_expression_view(e: MonkeyExpression)
    ensures
        e@ == match e {
            MonkeyExpression::IDENT(x) => SpecExpression::Ident(identifier_view(x)),
            MonkeyExpression::INTEGERLITERAL(x) => SpecExpression::Integer {
                token: x.token@,
                value: x.value,
            },
            MonkeyExpression::BOOLEAN(x) => SpecExpression::Boolean {
                token: x.token@,
                value: x.value,
            },
            MonkeyExpression::PREFIX(x) => SpecExpression::Prefix {
                token: x.token@,
                operator: x.operator@,
                right: Box::new((*x.right)@),
            },
            MonkeyExpression::INFIX(x) => SpecExpression::Infix {
                token: x.token@,
                operator: x.operator@,
                left: Box::new((*x.left)@),
                right: Box::new((*x.right)@),
            },
            MonkeyExpression::IF(x) => SpecExpression::If {
                token: x.tok@,
                condition: Box::new((*x.condition)@),
                consequence: block_view(x.consequence),
                alternative: match x.alternative {
                    Some(b) => Some(block_view(b)),
                    None => None,
                },
            },
            MonkeyExpression::FUNCTIONLITERAL(x) => SpecExpression::Function {
                token: x.token@,
                parameters: identifiers_view(x.parameters@),
                body: block_view(x.blockstatment),
            },
            MonkeyExpression::CALL(x) => SpecExpression::Call {
                token: x.token@,
                function: Box::new((*x.function)@),
                arguments: match x.arguments {
                    Some(v) => Some(expressions_view(v@)),
                    None => None,
                },
            },
        },
{
    reveal(expression_view);
    reveal(expressions_view);
    reveal(block_view);
}

/// The view of a statement, in terms of the views of its parts.
pub proof fn lemma_statement_view(s: Statement)
    ensures
        s@ == match s {
            Statement::LET(x) => SpecStatement::Let {
                token: x.token@,
                name: identifier_view(x.name),
                value: x.value@,
            },
            Statement::RETURN(x) => SpecStatement::Return {
                token: x.token@,
                value: x.return_value@,
            },
            Statement::EXPRESSION(x) => SpecStatement::Expression {
                token: x.token@,
                expression: x.expression@,
            },
            Statement::BLOCK(x) => SpecStatement::Block(block_view(x)),
        },
{
    reveal(statement_view);
    reveal(expression_view);
    reveal(block_view);
}

impl View for MonkeyExpression {
    type V = SpecExpression;

    open spec fn view(&self) -> SpecExpression {
        expression_view(*self)
    }
}

impl View for Statement {
    type V = SpecStatement;

    open spec fn view(&self) -> SpecStatement {
        statement_view(*self)
    }
}

impl View for Programm {
    type V = Seq<SpecStatement>;

    open spec fn view(&self) -> Seq<SpecStatement> {
        statements_view(self.statements@)
    }
}

/// The token a model expression began with.
pub open spec fn expression_token(e: SpecExpression) -> SpecToken {
    match e {
        SpecExpression::Ident(x) => x.token,
        SpecExpression::Integer { token, .. } => token,
        SpecExpression::Boolean { token, .. } => token,
        SpecExpression::Prefix { token, .. } => token,
        SpecExpression::Infix { token, .. } => token,
        SpecExpression::If { token, .. } => token,
        SpecExpression::Function { token, .. } => token,
        SpecExpression::Call { token, .. } => token,
    }
}

/// The token a model statement began with.
pub open spec fn statement_token(s: SpecStatement) -> SpecToken {
    match s {
        SpecStatement::Let { token, .. } => token,
        SpecStatement::Return { token, .. } => token,
        SpecStatement::Expression { token, .. } => token,
        SpecStatement::Block(b) => b.token,
    }
}

/// The literal of a token, or `None` where it is empty.
pub fn literal_of(token: &Token) -> (r: Option<&String>)
    ensures
        match r {
            Some(s) => s@ == token.literal@ && s@.len() > 0,
            None => token.literal@.len() == 0,
        },
{
    if token.literal.as_str().is_empty() {
        None
    } else {
        Some(&token.literal)
    }
}

pub fn clone_identifier(i: &Identifier) -> (r: Identifier)
    ensures
        identifier_view(r) == identifier_view(*i),
{
    Identifier { token: i.token.clone(), value: i.value.clone() }
}

pub fn clone_identifiers(v: &Vec<Identifier>) -> (r: Vec<Identifier>)
    ensures
        identifiers_view(r@) == identifiers_view(v@),
{
    let mut out: Vec<Identifier> = Vec::new();
    let mut i: usize = 0;
    while i < v.len()
        invariant
            i <= v.len(),
            out@.len() == i,
            forall|j: int| 0 <= j < i ==> identifier_view(out@[j]) == identifier_view(v@[j]),
        decreases v.len() - i,
    {
        out.push(clone_identifier(&v[i]));
        i += 1;
    }
    assert(identifiers_view(out@) =~= identifiers_view(v@));
    out
}

pub fn clone_expression(e: &MonkeyExpression) -> (r: MonkeyExpression)
    ensures
        r@ == e@,
    decreases *e,
{
    let r = match e {
        MonkeyExpression::IDENT(x) => MonkeyExpression::IDENT(clone_identifier(x)),
        MonkeyExpression::INTEGERLITERAL(x) => MonkeyExpression::INTEGERLITERAL(
            IntegerLiteral { token: x.token.clone(), value: x.value },
        ),
        MonkeyExpression::BOOLEAN(x) => MonkeyExpression::BOOLEAN(
            Boolean { token: x.token.clone(), value: x.value },
        ),
        MonkeyExpression::PREFIX(x) => MonkeyExpression::PREFIX(
            PrefixExpression {
                token: x.token.clone(),
                operator: x.operator.clone(),
                right: Box::new(clone_expression(&x.right)),
            },
        ),
        MonkeyExpression::INFIX(x) => MonkeyExpression::INFIX(
            InfixExpression {
                token: x.token.clone(),
                operator: x.operator.clone(),
                left: Box::new(clone_expression(&x.left)),
                right: Box::new(clone_expression(&x.right)),
            },
        ),
        MonkeyExpression::IF(x) => {
            let alternative = match &x.alternative {
                Some(b) => Some(clone_block(b)),
                None => None,
            };
            MonkeyExpression::IF(
                IfExpression {
                    tok: x.tok.clone(),
                    condition: Box::new(clone_expression(&x.condition)),
                    consequence: clone_block(&x.consequence),
                    alternative: alternative,
                },
            )
        },
        MonkeyExpression::FUNCTIONLITERAL(x) => MonkeyExpression::FUNCTIONLITERAL(
            FunctionLiteral {
                token: x.token.clone(),
                parameters: clone_identifiers(&x.parameters),
                blockstatment: clone_block(&x.blockstatment),
            },
        ),
        MonkeyExpression::CALL(x) => {
            let arguments = match &x.arguments {
                Some(v) => Some(clone_expressions(v)),
                None => None,
            };
            MonkeyExpression::CALL(
                CallExpression {
                    token: x.token.clone(),
                    function: Box::new(clone_expression(&x.function)),
                    arguments: arguments,
                },
            )
        },
    };
    proof {
        lemma_expression_view(r);
        lemma_expression_view(*e);
    }
    r
}

pub fn clone_expressions(v: &Vec<MonkeyExpression>) -> (r: Vec<MonkeyExpression>)
    ensures
        expressions_view(r@) == expressions_view(v@),
    decreases *v,
{
    let mut out: Vec<MonkeyExpression> = Vec::new();
    let mut i: usize = 0;
    while i < v.len()
        invariant
            i <= v.len(),
            out@.len() == i,
            forall|j: int| 0 <= j < i ==> out@[j]@ == v@[j]@,
        decreases v.len() - i,
    {
        out.push(clone_expression(&v[i]));
        i += 1;
    }
    proof {
        lemma_expressions_view(out@);
        lemma_expressions_view(v@);
    }
    assert(expressions_view(out@) =~= expressions_view(v@));
    out
}

pub fn clone_block(b: &BlockStatement) -> (r: BlockStatement)
    ensures
        block_view(r) == block_view(*b),
    decreases *b,
{
    let r = BlockStatement { token: b.token.clone(), statements: clone_statements(&b.statements) }
;
    proof {
        lemma_block_view(r);
        lemma_block_view(*b);
    }
    r
}

pub fn clone_statements(v: &Vec<Statement>) -> (r: Vec<Statement>)
    ensures
        statements_view(r@) == statements_view(v@),
    decreases *v,
{
    let mut out: Vec<Statement> = Vec::new();
    let mut i: usize = 0;
    while i < v.len()
        invariant
            i <= v.len(),
            out@.len() == i,
            forall|j: int| 0 <= j < i ==> out@[j]@ == v@[j]@,
        decreases v.len() - i,
    {
        out.push(clone_statement(&v[i]));
        i += 1;
    }
    proof {
        lemma_statements_view(out@);
        lemma_statements_view(v@);
    }
    assert(statements_view(out@) =~= statements_view(v@));
    out
}

pub fn clone_statement(s: &Statement) -> (r: Statement)
    ensures
        r@ == s@,
    decreases *s,
{
    let r = match s {
        Statement::LET(x) => Statement::LET(
            LetStatement {
                token: x.token.clone(),
                name: clone_identifier(&x.name),
                value: clone_expression(&x.value),
            },
        ),
        Statement::RETURN(x) => Statement::RETURN(
            ReturnStatement {
                token: x.token.clone(),
                return_value: clone_expression(&x.return_value),
            },
        ),
        Statement::EXPRESSION(x) => Statement::EXPRESSION(
            ExpressionStatement {
                token: x.token.clone(),
                expression: clone_expression(&x.expression),
            },
        ),
        Statement::BLOCK(x) => Statement::BLOCK(clone_block(x)),
    };
    proof {
        lemma_statement_view(r);
        lemma_statement_view(*s);
    }
    r
}

impl Clone for MonkeyExpression {
    fn clone(&self) -> (r: Self)
        ensures
            r@ == self@,
    {
        clone_expression(self)
    }
}

impl Clone for Statement {
    fn clone(&self) -> (r: Self)
        ensures
            r@ == self@,
    {
        clone_statement(self)
    }
}

impl Clone for Programm {
    fn clone(&self) -> (r: Self)
        ensures
            r@ == self@,
    {
        Programm { statements: clone_statements(&self.statements) }
    }
}

impl Node for MonkeyExpression {
    open spec fn literal(&self) -> Seq<char> {
        expression_token(self@).literal
    }

    open spec fn family(&self) -> NodeType {
        NodeType::EXPRESSION
    }

    fn token_literal(&self) -> (r: Option<&String>) {
        proof {
            lemma_expression_view(*self);
        }
        match self {
            Self::IDENT(expr) => expr.token_literal(),
            Self::INTEGERLITERAL(expr) => expr.token_literal(),
            Self::BOOLEAN(expr) => expr.token_literal(),
            Self::PREFIX(expr) => expr.token_literal(),
            Self::INFIX(expr) => expr.token_literal(),
            Self::IF(expr) => expr.token_literal(),
            Self::FUNCTIONLITERAL(expr) => expr.token_literal(),
            Self::CALL(expr) => expr.token_literal(),
        }
    }

    fn node_type(&self) -> (r: NodeType) {
        NodeType::EXPRESSION
    }
}

impl Expression for MonkeyExpression {
    fn expression_node(&self) {
    }
}

impl MonkeyExpr for MonkeyExpression {

}

impl Node for Statement {
    open spec fn literal(&self) -> Seq<char> {
        statement_token(self@).literal
    }

    open spec fn family(&self) -> NodeType {
        NodeType::STATEMENT
    }

    fn token_literal(&self) -> (r: Option<&String>) {
        proof {
            lemma_statement_view(*self);
            if self is BLOCK {
                lemma_block_view(self->BLOCK_0);
            }
        }
        match self {
            Self::LET(statement) => statement.token_literal(),
            Self::RETURN(statement) => statement.token_literal(),
            Self::EXPRESSION(statement) => statement.token_literal(),
            Self::BLOCK(statement) => statement.token_literal(),
        }
    }

    fn node_type(&self) -> (r: NodeType) {
        NodeType::STATEMENT
    }
}

impl MonkeyStatement for Statement {

}

impl Node for Programm {
    open spec fn literal(&self) -> Seq<char> {
        if self@.len() > 0 {
            statement_token(self@[0]).literal
        } else {
            Seq::empty()
        }
    }

    open spec fn family(&self) -> NodeType {
        NodeType::PROGRAM
    }

    fn token_literal(&self) -> (r: Option<&String>) {
        proof {
            lemma_statements_view(self.statements@);
        }
        if self.statements.len() > 0 {
            self.statements[0].token_literal()
        } else {
            None
        }
    }

    fn node_type(&self) -> (r: NodeType) {
        NodeType::PROGRAM
    }
}

} // verus!
